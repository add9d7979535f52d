use vstd::prelude::*;
use vstd::string::*;

use crate::commands::Command;
use crate::data::UserView;
use crate::protocol::{Message, Transmission};
use crate::registry::Registry;

verus! {

/// White space as Unicode's `White_Space` property defines it, which is what
/// `char::is_whitespace` tests.
pub open spec fn is_space(c: char) -> bool {
    let v = c as u32;
    ||| 0x9 <= v <= 0xD
    ||| v == 0x20
    ||| v == 0x85
    ||| v == 0xA0
    ||| v == 0x1680
    ||| 0x2000 <= v <= 0x200A
    ||| v == 0x2028
    ||| v == 0x2029
    ||| v == 0x202F
    ||| v == 0x205F
    ||| v == 0x3000
}

/// A handle is non-empty and holds no NUL and no white space.
pub open spec fn valid_handle(h: Seq<char>) -> bool {
    &&& h.len() > 0
    &&& forall|i: int| 0 <= i < h.len() ==> #[trigger] h[i] != '\0' && !is_space(h[i])
}

/// The server's answer to a login with handle `h`.
pub open spec fn login_reply(reg: Map<Seq<char>, UserView>, h: Seq<char>) -> Message {
    if !valid_handle(h) {
        Message::UsernameInvalid
    } else if reg.contains_key(h) {
        Message::UsernameTaken
    } else {
        Message::UsernameOk
    }
}

/// The registry after a login with handle `h` from `socket`.
pub open spec fn after_login(reg: Map<Seq<char>, UserView>, h: Seq<char>, socket: Seq<char>) -> Map<
    Seq<char>,
    UserView,
> {
    if login_reply(reg, h) == Message::UsernameOk {
        reg.insert(h, UserView { socket, queue: seq![] })
    } else {
        reg
    }
}

fn char_is_space(c: char) -> (r: bool)
    ensures
        r == is_space(c),
{
    let v = c as u32;
    (0x9 <= v && v <= 0xD) || v == 0x20 || v == 0x85 || v == 0xA0 || v == 0x1680 || (0x2000 <= v
        && v <= 0x200A) || v == 0x2028 || v == 0x2029 || v == 0x202F || v == 0x205F || v == 0x3000
}

/// Whether `h` can serve as a handle.
pub fn is_valid_handle(h: &str) -> (r: bool)
    ensures
        r == valid_handle(h@),
{
    let n = h.unicode_len();
    if n == 0 {
        return false;
    }
    let mut i: usize = 0;
    while i < n
        invariant
            n == h@.len(),
            i <= n,
            forall|j: int| 0 <= j < i ==> #[trigger] h@[j] != '\0' && !is_space(h@[j]),
        decreases n - i,
    {
        let c = h.get_char(i);
        if c == '\0' || char_is_space(c) {
            return false;
        }
        i = i + 1;
    }
    true
}

/// Logs a user in: a valid handle that no online user has is added to the
/// registry with an empty queue, and the answer is `UsernameOk`. Otherwise
/// the registry is left alone and the answer is `UsernameInvalid` or
/// `UsernameTaken`.
pub fn login(state: &mut Registry, handle: &str, socket: &str) -> (r: Transmission)
    requires
        old(state).wf(),
    ensures
        final(state).wf(),
        r@ == login_reply(old(state)@, handle@),
        final(state)@ == after_login(old(state)@, handle@, socket@),
{
    if !is_valid_handle(handle) {
        return Transmission::UsernameInvalid;
    }
    if state.insert_if_absent(handle, socket) {
        Transmission::UsernameOk
    } else {
        Transmission::UsernameTaken
    }
}

/// What a session does with the next frame from its client.
pub enum Action {
    /// Log in with this handle.
    Login(String),
    /// Run this command.
    Run(Command),
    /// Close the session: the client left, or sent a frame that has no
    /// place here.
    Close,
}

/// The session's reaction to a frame: before login only `Username` is
/// accepted; after it only `Command`, and `ClientDisconnected` ends it.
pub fn next_action(logged_in: bool, frame: Transmission) -> (r: Action)
    ensures
        !logged_in ==> (match frame@ {
            Message::Username(h) => r matches Action::Login(x) && x@ == h,
            _ => r is Close,
        }),
        logged_in ==> (match frame@ {
            Message::Command(c) => r matches Action::Run(x) && x@ == c,
            _ => r is Close,
        }),
{
    match frame {
        Transmission::Username(h) => if logged_in {
            Action::Close
        } else {
            Action::Login(h)
        },
        Transmission::Command(c) => if logged_in {
            Action::Run(c)
        } else {
            Action::Close
        },
        _ => Action::Close,
    }
}

} // verus!
