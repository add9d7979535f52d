use vstd::prelude::*;
use vstd::string::*;

use crate::data::{Request, UserView};
use crate::protocol::{strings_view, Message, Transmission};
use crate::registry::{first_from, has_from, with_queue, Registry};
use crate::text::{file_name, file_name_of, join_path, str_eq};

verus! {

/// A command that a connected user issues to the server.
#[derive(Clone, Debug)]
pub enum Command {
    List,
    Requests,
    Glide { path: String, to: String },
    Accept(String),
    No(String),
}

/// Abstract value of a command.
pub enum CommandView {
    List,
    Requests,
    Glide { path: Seq<char>, to: Seq<char> },
    Accept(Seq<char>),
    No(Seq<char>),
}

impl View for Command {
    type V = CommandView;

    open spec fn view(&self) -> CommandView {
        match self {
            Command::List => CommandView::List,
            Command::Requests => CommandView::Requests,
            Command::Glide { path, to } => CommandView::Glide { path: path@, to: to@ },
            Command::Accept(u) => CommandView::Accept(u@),
            Command::No(u) => CommandView::No(u@),
        }
    }
}

/// The text form of a command, as a user types it: `list`, `reqs`,
/// `glide <path> @<user>`, `ok @<user>`, `no @<user>`.
pub open spec fn command_text(c: CommandView) -> Seq<char> {
    match c {
        CommandView::List => "list"@,
        CommandView::Requests => "reqs"@,
        CommandView::Glide { path, to } => "glide "@ + path + " @"@ + to,
        CommandView::Accept(u) => "ok @"@ + u,
        CommandView::No(u) => "no @"@ + u,
    }
}

/// Pattern of `glide <path> @<user>`.
pub const GLIDE_PATTERN: &'static str = r"^glide\s+(.+)\s+@(.+)$";

/// Pattern of `ok @<user>`.
pub const OK_PATTERN: &'static str = r"^ok\s+@(.+)$";

/// Pattern of `no @<user>`.
pub const NO_PATTERN: &'static str = r"^no\s+@(.+)$";

/// What the regular expression `pattern` captures in `haystack`, as
/// `regex::Regex::captures` reports it: every group in order, the whole
/// match first, an unmatched group as an empty string.
pub uninterp spec fn regex_captures(pattern: Seq<char>, haystack: Seq<char>) -> Option<Seq<Seq<char>>>;

/// Relies on `regex::Regex::new` and `regex::Regex::captures`: compiling the
/// pattern and matching it against the haystack depend on the two strings
/// alone; a pattern that does not compile matches nothing.
#[verifier::external_body]
fn captures(pattern: &str, haystack: &str) -> (r: Option<Vec<String>>)
    ensures
        r matches Some(v) ==> regex_captures(pattern@, haystack@) == Some(strings_view(v@)),
        r is None ==> regex_captures(pattern@, haystack@) is None,
{
    let re = regex::Regex::new(pattern).ok()?;
    let caps = re.captures(haystack)?;
    Some(caps.iter().map(|m| m.map_or(String::new(), |m| m.as_str().to_string())).collect())
}

/// Abstract value of what a regular expression captured.
pub open spec fn captured(c: Option<Vec<String>>) -> Option<Seq<Seq<char>>> {
    match c {
        Some(v) => Some(strings_view(v@)),
        None => None,
    }
}

/// The command that `input` stands for, given what the patterns of `glide`,
/// `ok` and `no` captured in it.
pub open spec fn command_from(
    input: Seq<char>,
    glide: Option<Seq<Seq<char>>>,
    ok: Option<Seq<Seq<char>>>,
    no: Option<Seq<Seq<char>>>,
) -> Option<CommandView> {
    if input == "list"@ {
        Some(CommandView::List)
    } else if input == "reqs"@ {
        Some(CommandView::Requests)
    } else if glide is Some {
        let c = glide->Some_0;
        if c.len() >= 3 {
            Some(CommandView::Glide { path: c[1], to: c[2] })
        } else {
            None
        }
    } else if ok is Some {
        let c = ok->Some_0;
        if c.len() >= 2 {
            Some(CommandView::Accept(c[1]))
        } else {
            None
        }
    } else if no is Some {
        let c = no->Some_0;
        if c.len() >= 2 {
            Some(CommandView::No(c[1]))
        } else {
            None
        }
    } else {
        None
    }
}

/// The command that a line of text stands for, if any.
pub open spec fn parse_text(input: Seq<char>) -> Option<CommandView> {
    command_from(
        input,
        regex_captures(GLIDE_PATTERN@, input),
        regex_captures(OK_PATTERN@, input),
        regex_captures(NO_PATTERN@, input),
    )
}

fn take_at(v: Vec<String>, i: usize) -> (r: String)
    requires
        i < v@.len(),
    ensures
        r@ == v@[i as int]@,
{
    let mut v = v;
    v.swap_remove(i)
}

impl Command {
    /// The command that a line of text stands for, if any.
    pub fn try_parse(input: &str) -> (r: Option<Command>)
        ensures
            r matches Some(c) ==> parse_text(input@) == Some(c@),
            r is None ==> parse_text(input@) is None,
    {
        if Self::recognize(input).is_some() {
            Some(Self::parse(input))
        } else {
            None
        }
    }

    fn recognize(input: &str) -> (r: Option<Command>)
        ensures
            r matches Some(c) ==> parse_text(input@) == Some(c@),
            r is None ==> parse_text(input@) is None,
    {
        let glide = captures(GLIDE_PATTERN, input);
        let ok = captures(OK_PATTERN, input);
        let no = captures(NO_PATTERN, input);
        Self::from_captures(input, glide, ok, no)
    }

    /// The command that `input` stands for, given what the patterns
    /// `GLIDE_PATTERN`, `OK_PATTERN` and `NO_PATTERN` captured in it: every
    /// group in order, the whole match first.
    pub fn from_captures(
        input: &str,
        glide: Option<Vec<String>>,
        ok: Option<Vec<String>>,
        no: Option<Vec<String>>,
    ) -> (r: Option<Command>)
        ensures
            r matches Some(c) ==> command_from(input@, captured(glide), captured(ok), captured(no))
                == Some(c@),
            r is None ==> command_from(input@, captured(glide), captured(ok), captured(no)) is None,
    {
        if str_eq(input, "list") {
            return Some(Command::List);
        }
        if str_eq(input, "reqs") {
            return Some(Command::Requests);
        }
        match glide {
            Some(c) => {
                if c.len() >= 3 {
                    let to = take_at(c.clone(), 2);
                    let path = take_at(c, 1);
                    return Some(Command::Glide { path, to });
                }
                return None;
            },
            None => {},
        }
        match ok {
            Some(c) => {
                if c.len() >= 2 {
                    return Some(Command::Accept(take_at(c, 1)));
                }
                return None;
            },
            None => {},
        }
        match no {
            Some(c) => {
                if c.len() >= 2 {
                    return Some(Command::No(take_at(c, 1)));
                }
                return None;
            },
            None => {},
        }
        None
    }

    /// The command that a line of text stands for; the text must stand for
    /// one.
    pub fn parse(input: &str) -> (r: Command)
        requires
            parse_text(input@) is Some,
        ensures
            parse_text(input@) == Some(r@),
    {
        match Self::recognize(input) {
            Some(c) => c,
            None => Command::List,
        }
    }

    /// The text form of the command.
    pub fn to_string(&self) -> (r: String)
        ensures
            r@ == command_text(self@),
    {
        match self {
            Command::List => String::from_str("list"),
            Command::Requests => String::from_str("reqs"),
            Command::Glide { path, to } => {
                let mut s = String::from_str("glide ");
                s.append(path.as_str());
                s.append(" @");
                s.append(to.as_str());
                s
            },
            Command::Accept(u) => {
                let mut s = String::from_str("ok @");
                s.append(u.as_str());
                s
            },
            Command::No(u) => {
                let mut s = String::from_str("no @");
                s.append(u.as_str());
                s
            },
        }
    }

    fn cmd_list(&self, state: &Registry, username: &str) -> (r: Transmission)
        requires
            state.wf(),
        ensures
            listing(r@, state@, username@),
    {
        let v = state.others(username);
        let ghost l = strings_view(v@);
        let r = Transmission::ConnectedUsers(v);
        proof {
            assert(r@->ConnectedUsers_0 == l);
            assert forall|i: int| 0 <= i < l.len() implies #[trigger] l[i] != username@
                && state@.contains_key(l[i]) by {
                assert(l[i] == v@[i]@);
            }
            assert forall|h: Seq<char>| #[trigger] state@.contains_key(h) && h != username@ implies exists|i: int|
                0 <= i < l.len() && #[trigger] l[i] == h by {
                let i = choose|i: int| 0 <= i < v@.len() && #[trigger] v@[i]@ == h;
                assert(l[i] == h);
            }
            assert forall|i: int, j: int| 0 <= i < j < l.len() implies #[trigger] l[i] != #[trigger] l[j] by {
                assert(v@[i]@ != v@[j]@);
            }
        }
        r
    }

    fn cmd_reqs(&self, state: &Registry, username: &str) -> (r: Transmission)
        requires
            state.wf(),
            state@.contains_key(username@),
        ensures
            r@ == Message::IncomingRequests(state@[username@].queue),
    {
        match state.offers(username) {
            Some(v) => Transmission::IncomingRequests(v),
            None => Transmission::IncomingRequests(Vec::new()),
        }
    }

    fn cmd_glide(&self, state: &mut Registry, username: &str) -> (r: Transmission)
        requires
            old(state).wf(),
            self@ is Glide,
        ensures
            final(state).wf(),
            glide_effect(old(state)@, username@, self@, r@, final(state)@),
    {
        match self {
            Command::Glide { path, to } => {
                if str_eq_to(to, username) || !state.contains(to.as_str()) {
                    return Transmission::UsernameInvalid;
                }
                match file_name(path.as_str()) {
                    Some(name) => {
                        let offer = Request { sender: username.to_owned(), filename: name };
                        state.add_offer(to.as_str(), offer);
                        Transmission::GlideRequestSent
                    },
                    None => Transmission::UsernameInvalid,
                }
            },
            _ => Transmission::UsernameInvalid,
        }
    }

    fn cmd_ok(&self, state: &Registry, username: &str) -> (r: Transmission)
        requires
            state.wf(),
            self@ is Accept,
        ensures
            r@ == accept_reply(state@, username@, self@->Accept_0),
    {
        match self {
            Command::Accept(from) => {
                if state.has_offer_from(username, from.as_str()) {
                    Transmission::OkSuccess
                } else {
                    Transmission::OkFailed
                }
            },
            _ => Transmission::OkFailed,
        }
    }

    fn cmd_no(&self, state: &mut Registry, username: &str) -> (r: (Transmission, Option<Request>))
        requires
            old(state).wf(),
            self@ is No,
        ensures
            final(state).wf(),
            r.0@ == Message::NoSuccess,
            reject_effect(old(state)@, username@, self@->No_0, final(state)@),
            r.1 is Some == (old(state)@.contains_key(username@) && has_from(
                old(state)@[username@].queue,
                self@->No_0,
            )),
            r.1 matches Some(o) ==> exists|i: int|
                first_from(old(state)@[username@].queue, self@->No_0, i) && #[trigger] old(
                    state,
                )@[username@].queue[i] == o@,
    {
        match self {
            Command::No(from) => {
                let taken = state.take_offer_from(username, from.as_str());
                (Transmission::NoSuccess, taken)
            },
            _ => (Transmission::NoSuccess, None),
        }
    }

    /// Runs the command for the user `username` against the registry and
    /// returns the server's response.
    pub fn execute(&self, state: &mut Registry, username: &str) -> (r: Transmission)
        requires
            old(state).wf(),
            self@ is Requests ==> old(state)@.contains_key(username@),
        ensures
            final(state).wf(),
            executed(old(state)@, username@, self@, r@, final(state)@),
    {
        match self {
            Command::List => self.cmd_list(state, username),
            Command::Requests => self.cmd_reqs(state, username),
            Command::Glide { .. } => self.cmd_glide(state, username),
            Command::Accept(_) => self.cmd_ok(state, username),
            Command::No(_) => self.cmd_no(state, username).0,
        }
    }

    /// Runs the command like `execute`, and says what the session does
    /// next: receive the offered file into the staging area, send the
    /// accepted one from there, delete the rejected one, or nothing.
    /// A staged file lives at `<root>/<sender>/<recipient>/<file name>`.
    pub fn handle(command: Command, username: &str, state: &mut Registry, root: &str) -> (r: (
        Transmission,
        FollowUp,
    ))
        requires
            old(state).wf(),
            command@ is Requests ==> old(state)@.contains_key(username@),
        ensures
            final(state).wf(),
            executed(old(state)@, username@, command@, r.0@, final(state)@),
            follow_up(old(state)@, username@, command@, r.0@, root@, r.1@),
    {
        match &command {
            Command::Glide { path: _, to } => {
                let resp = command.cmd_glide(state, username);
                if matches!(resp, Transmission::GlideRequestSent) {
                    let dir = join_path(&join_path(root, username), to.as_str());
                    (resp, FollowUp::Receive { dir })
                } else {
                    (resp, FollowUp::Nothing)
                }
            },
            Command::Accept(from) => {
                let resp = command.cmd_ok(state, username);
                match state.first_offer_from(username, from.as_str()) {
                    Some(o) => {
                        let path = join_path(
                            &join_path(&join_path(root, from.as_str()), username),
                            o.filename.as_str(),
                        );
                        (resp, FollowUp::Send { path, name: o.filename, from: from.clone() })
                    },
                    None => (resp, FollowUp::Nothing),
                }
            },
            Command::No(from) => {
                let (resp, taken) = command.cmd_no(state, username);
                match taken {
                    Some(o) => {
                        let path = join_path(
                            &join_path(&join_path(root, from.as_str()), username),
                            o.filename.as_str(),
                        );
                        (resp, FollowUp::Delete { path })
                    },
                    None => (resp, FollowUp::Nothing),
                }
            },
            _ => (command.execute(state, username), FollowUp::Nothing),
        }
    }
}

/// What a session does after it has sent a command's response.
pub enum FollowUp {
    /// Nothing.
    Nothing,
    /// Receive the offered file from the client into this directory.
    Receive { dir: String },
    /// Send the staged file at `path` to the client under the name `name`,
    /// delete it, and then take the offer from `from` out of the queue.
    Send { path: String, name: String, from: String },
    /// Delete this staged file; failures are ignored.
    Delete { path: String },
}

pub enum FollowUpView {
    Nothing,
    Receive { dir: Seq<char> },
    Send { path: Seq<char>, name: Seq<char>, from: Seq<char> },
    Delete { path: Seq<char> },
}

impl View for FollowUp {
    type V = FollowUpView;

    open spec fn view(&self) -> FollowUpView {
        match self {
            FollowUp::Nothing => FollowUpView::Nothing,
            FollowUp::Receive { dir } => FollowUpView::Receive { dir: dir@ },
            FollowUp::Send { path, name, from } => FollowUpView::Send {
                path: path@,
                name: name@,
                from: from@,
            },
            FollowUp::Delete { path } => FollowUpView::Delete { path: path@ },
        }
    }
}

/// `a/b`.
pub open spec fn path_join(a: Seq<char>, b: Seq<char>) -> Seq<char> {
    a + "/"@ + b
}

/// Where the file `name` offered by `sender` to `recipient` is staged.
pub open spec fn staged_path(
    root: Seq<char>,
    sender: Seq<char>,
    recipient: Seq<char>,
    name: Seq<char>,
) -> Seq<char> {
    path_join(path_join(path_join(root, sender), recipient), name)
}

/// `r` lists every online user but `me`, each once, in some order.
pub open spec fn listing(r: Message, reg: Map<Seq<char>, UserView>, me: Seq<char>) -> bool {
    &&& r is ConnectedUsers
    &&& forall|i: int|
        0 <= i < r->ConnectedUsers_0.len() ==> #[trigger] r->ConnectedUsers_0[i] != me
            && reg.contains_key(r->ConnectedUsers_0[i])
    &&& forall|h: Seq<char>| #[trigger] reg.contains_key(h) && h != me ==> exists|i: int|
        0 <= i < r->ConnectedUsers_0.len() && #[trigger] r->ConnectedUsers_0[i] == h
    &&& forall|i: int, j: int|
        0 <= i < j < r->ConnectedUsers_0.len() ==> #[trigger] r->ConnectedUsers_0[i]
            != #[trigger] r->ConnectedUsers_0[j]
}

/// A glide from `me` to `to` of the file at `path` is accepted: the target
/// is another online user and the path names a file.
pub open spec fn glide_accepted(
    reg: Map<Seq<char>, UserView>,
    me: Seq<char>,
    path: Seq<char>,
    to: Seq<char>,
) -> bool {
    &&& to != me
    &&& reg.contains_key(to)
    &&& file_name_of(path) is Some
}

/// Response and new registry of a glide command.
pub open spec fn glide_effect(
    reg: Map<Seq<char>, UserView>,
    me: Seq<char>,
    c: CommandView,
    r: Message,
    reg2: Map<Seq<char>, UserView>,
) -> bool {
    let path = c->Glide_path;
    let to = c->Glide_to;
    if glide_accepted(reg, me, path, to) {
        &&& r == Message::GlideRequestSent
        &&& reg2 == reg.insert(
            to,
            with_queue(reg[to], reg[to].queue.push((me, file_name_of(path)->Some_0))),
        )
    } else {
        r == Message::UsernameInvalid && reg2 == reg
    }
}

/// Response to `ok @from` by `me`.
pub open spec fn accept_reply(reg: Map<Seq<char>, UserView>, me: Seq<char>, from: Seq<char>) -> Message {
    if reg.contains_key(me) && has_from(reg[me].queue, from) {
        Message::OkSuccess
    } else {
        Message::OkFailed
    }
}

/// New registry after `no @from` by `me`: the first offer from `from`, if
/// any, has left the queue of `me`.
pub open spec fn reject_effect(
    reg: Map<Seq<char>, UserView>,
    me: Seq<char>,
    from: Seq<char>,
    reg2: Map<Seq<char>, UserView>,
) -> bool {
    if reg.contains_key(me) && has_from(reg[me].queue, from) {
        exists|i: int|
            first_from(reg[me].queue, from, i) && reg2 == reg.insert(
                me,
                with_queue(reg[me], reg[me].queue.remove(i)),
            )
    } else {
        reg2 == reg
    }
}

/// Response and new registry of command `c` run by `me`.
pub open spec fn executed(
    reg: Map<Seq<char>, UserView>,
    me: Seq<char>,
    c: CommandView,
    r: Message,
    reg2: Map<Seq<char>, UserView>,
) -> bool {
    match c {
        CommandView::List => listing(r, reg, me) && reg2 == reg,
        CommandView::Requests => r == Message::IncomingRequests(reg[me].queue) && reg2 == reg,
        CommandView::Glide { .. } => glide_effect(reg, me, c, r, reg2),
        CommandView::Accept(from) => r == accept_reply(reg, me, from) && reg2 == reg,
        CommandView::No(from) => r == Message::NoSuccess && reject_effect(reg, me, from, reg2),
    }
}

/// What follows command `c` by `me`, answered with `r`.
pub open spec fn follow_up(
    reg: Map<Seq<char>, UserView>,
    me: Seq<char>,
    c: CommandView,
    r: Message,
    root: Seq<char>,
    f: FollowUpView,
) -> bool {
    match c {
        CommandView::Glide { path: _, to } => f == if r == Message::GlideRequestSent {
            FollowUpView::Receive { dir: path_join(path_join(root, me), to) }
        } else {
            FollowUpView::Nothing
        },
        CommandView::Accept(from) => if r == Message::OkSuccess {
            exists|i: int|
                first_from(reg[me].queue, from, i) && f == FollowUpView::Send {
                    path: staged_path(root, from, me, reg[me].queue[i].1),
                    name: reg[me].queue[i].1,
                    from,
                }
        } else {
            f == FollowUpView::Nothing
        },
        CommandView::No(from) => if reg.contains_key(me) && has_from(reg[me].queue, from) {
            exists|i: int|
                first_from(reg[me].queue, from, i) && f == FollowUpView::Delete {
                    path: staged_path(root, from, me, reg[me].queue[i].1),
                }
        } else {
            f == FollowUpView::Nothing
        },
        _ => f == FollowUpView::Nothing,
    }
}

fn str_eq_to(a: &String, b: &str) -> (r: bool)
    ensures
        r == (a@ == b@),
{
    crate::text::str_eq(a.as_str(), b)
}

} // verus!
