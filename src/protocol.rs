use vstd::prelude::*;
use vstd::utf8::*;
use vstd::slice::slice_to_vec;
use vstd::string::*;

use crate::commands::{Command, CommandView};
use crate::data::{requests_view, OfferView, Request};

verus! {

/// One frame of the wire protocol.
#[derive(Debug, Clone)]
pub enum Transmission {
    Username(String),
    UsernameOk,
    UsernameTaken,
    UsernameInvalid,
    Command(Command),
    GlideRequestSent,
    Metadata(String, u32),
    Chunk(String, Vec<u8>),
    ConnectedUsers(Vec<String>),
    IncomingRequests(Vec<Request>),
    OkSuccess,
    OkFailed,
    NoSuccess,
    ClientDisconnected,
}

/// Abstract value of a frame.
pub enum Message {
    Username(Seq<char>),
    UsernameOk,
    UsernameTaken,
    UsernameInvalid,
    Command(CommandView),
    GlideRequestSent,
    Metadata(Seq<char>, u32),
    Chunk(Seq<char>, Seq<u8>),
    ConnectedUsers(Seq<Seq<char>>),
    IncomingRequests(Seq<OfferView>),
    OkSuccess,
    OkFailed,
    NoSuccess,
    ClientDisconnected,
}

pub open spec fn strings_view(v: Seq<String>) -> Seq<Seq<char>> {
    v.map_values(|s: String| s@)
}


impl View for Transmission {
    type V = Message;

    open spec fn view(&self) -> Message {
        match self {
            Transmission::Username(u) => Message::Username(u@),
            Transmission::UsernameOk => Message::UsernameOk,
            Transmission::UsernameTaken => Message::UsernameTaken,
            Transmission::UsernameInvalid => Message::UsernameInvalid,
            Transmission::Command(c) => Message::Command(c@),
            Transmission::GlideRequestSent => Message::GlideRequestSent,
            Transmission::Metadata(f, n) => Message::Metadata(f@, *n),
            Transmission::Chunk(f, d) => Message::Chunk(f@, d@),
            Transmission::ConnectedUsers(us) => Message::ConnectedUsers(strings_view(us@)),
            Transmission::IncomingRequests(rs) => Message::IncomingRequests(requests_view(rs@)),
            Transmission::OkSuccess => Message::OkSuccess,
            Transmission::OkFailed => Message::OkFailed,
            Transmission::NoSuccess => Message::NoSuccess,
            Transmission::ClientDisconnected => Message::ClientDisconnected,
        }
    }
}

/// Largest value of a two-byte length or count field.
pub const MAX_FIELD: usize = 65535;

/// A string field on the wire: its UTF-8 bytes, then a zero byte.
pub open spec fn cstr(s: Seq<char>) -> Seq<u8> {
    encode_utf8(s).push(0u8)
}

/// Two bytes, big-endian.
pub open spec fn be16(n: nat) -> Seq<u8> {
    seq![(n / 256) as u8, (n % 256) as u8]
}

/// Four bytes, big-endian.
pub open spec fn be32(n: u32) -> Seq<u8> {
    seq![
        (n / 0x100_0000) as u8,
        ((n / 0x1_0000) % 256) as u8,
        ((n / 256) % 256) as u8,
        (n % 256) as u8,
    ]
}

/// String fields one after another.
pub open spec fn cstrs(l: Seq<Seq<char>>) -> Seq<u8>
    decreases l.len(),
{
    if l.len() == 0 {
        seq![]
    } else {
        cstrs(l.drop_last()) + cstr(l.last())
    }
}

/// Offers one after another, each as sender then file name.
pub open spec fn offer_fields(l: Seq<OfferView>) -> Seq<u8>
    decreases l.len(),
{
    if l.len() == 0 {
        seq![]
    } else {
        offer_fields(l.drop_last()) + cstr(l.last().0) + cstr(l.last().1)
    }
}

/// Sub-tag and payload of a command frame.
pub open spec fn command_bytes(c: CommandView) -> Seq<u8> {
    match c {
        CommandView::List => seq![1u8],
        CommandView::Requests => seq![2u8],
        CommandView::Glide { path, to } => seq![3u8] + cstr(path) + cstr(to),
        CommandView::Accept(u) => seq![4u8] + cstr(u),
        CommandView::No(u) => seq![5u8] + cstr(u),
    }
}

/// The bytes of a frame.
pub open spec fn encode(m: Message) -> Seq<u8> {
    match m {
        Message::Username(u) => seq![1u8] + cstr(u),
        Message::UsernameOk => seq![2u8],
        Message::UsernameTaken => seq![3u8],
        Message::UsernameInvalid => seq![4u8],
        Message::Metadata(f, n) => seq![5u8] + cstr(f) + be32(n),
        Message::Chunk(f, d) => seq![6u8] + cstr(f) + be16(d.len()) + d,
        Message::ConnectedUsers(us) => seq![7u8] + be16(us.len()) + cstrs(us),
        Message::IncomingRequests(rs) => seq![8u8] + be16(rs.len()) + offer_fields(rs),
        Message::Command(c) => seq![9u8] + command_bytes(c),
        Message::OkFailed => seq![10u8],
        Message::NoSuccess => seq![11u8],
        Message::ClientDisconnected => seq![12u8],
        Message::GlideRequestSent => seq![13u8],
        Message::OkSuccess => seq![14u8],
    }
}

/// Every length and count of the frame fits its two-byte field.
pub open spec fn encodable(m: Message) -> bool {
    match m {
        Message::Chunk(_, d) => d.len() <= MAX_FIELD,
        Message::ConnectedUsers(us) => us.len() <= MAX_FIELD,
        Message::IncomingRequests(rs) => rs.len() <= MAX_FIELD,
        _ => true,
    }
}

/// The string holds no NUL character, so its field ends where it should.
pub open spec fn no_nul(s: Seq<char>) -> bool {
    forall|i: int| 0 <= i < s.len() ==> s[i] != '\0'
}

pub open spec fn command_fields_ok(c: CommandView) -> bool {
    match c {
        CommandView::Glide { path, to } => no_nul(path) && no_nul(to),
        CommandView::Accept(u) => no_nul(u),
        CommandView::No(u) => no_nul(u),
        _ => true,
    }
}

/// The frame can be sent and read back: it is encodable and no string field
/// holds a NUL character.
pub open spec fn well_formed(m: Message) -> bool {
    &&& encodable(m)
    &&& match m {
        Message::Username(u) => no_nul(u),
        Message::Metadata(f, _) => no_nul(f),
        Message::Chunk(f, _) => no_nul(f),
        Message::ConnectedUsers(us) => forall|i: int| 0 <= i < us.len() ==> no_nul(#[trigger] us[i]),
        Message::IncomingRequests(rs) => forall|i: int|
            0 <= i < rs.len() ==> no_nul(#[trigger] rs[i].0) && no_nul(rs[i].1),
        Message::Command(c) => command_fields_ok(c),
        _ => true,
    }
}

fn put_byte(out: &mut Vec<u8>, b: u8)
    ensures
        final(out)@ == old(out)@ + seq![b],
{
    out.push(b);
    assert(final(out)@ =~= old(out)@ + seq![b]);
}

fn put_cstr(out: &mut Vec<u8>, s: &str)
    ensures
        final(out)@ == old(out)@ + cstr(s@),
{
    let b = s.as_bytes();
    let ghost start = out@;
    let mut i: usize = 0;
    while i < b.len()
        invariant
            b@ == encode_utf8(s@),
            i <= b@.len(),
            out@ == start + b@.subrange(0, i as int),
        decreases b@.len() - i,
    {
        out.push(b[i]);
        i = i + 1;
        assert(out@ =~= start + b@.subrange(0, i as int));
    }
    out.push(0u8);
    assert(out@ =~= start + cstr(s@));
}

fn put_u16(out: &mut Vec<u8>, n: usize)
    requires
        n <= MAX_FIELD,
    ensures
        final(out)@ == old(out)@ + be16(n as nat),
{
    let ghost start = out@;
    out.push((n / 256) as u8);
    out.push((n % 256) as u8);
    assert(out@ =~= start + be16(n as nat));
}

fn put_u32(out: &mut Vec<u8>, n: u32)
    ensures
        final(out)@ == old(out)@ + be32(n),
{
    let ghost start = out@;
    out.push((n / 0x100_0000) as u8);
    out.push(((n / 0x1_0000) % 256) as u8);
    out.push(((n / 256) % 256) as u8);
    out.push((n % 256) as u8);
    assert(out@ =~= start + be32(n));
}

fn put_command(out: &mut Vec<u8>, c: &Command)
    ensures
        final(out)@ == old(out)@ + command_bytes(c@),
{
    let ghost start = out@;
    match c {
        Command::List => put_byte(out, 1),
        Command::Requests => put_byte(out, 2),
        Command::Glide { path, to } => {
            put_byte(out, 3);
            put_cstr(out, path.as_str());
            put_cstr(out, to.as_str());
            assert(out@ =~= start + command_bytes(c@));
        },
        Command::Accept(u) => {
            put_byte(out, 4);
            put_cstr(out, u.as_str());
            assert(out@ =~= start + command_bytes(c@));
        },
        Command::No(u) => {
            put_byte(out, 5);
            put_cstr(out, u.as_str());
            assert(out@ =~= start + command_bytes(c@));
        },
    }
}

impl Transmission {
    /// Whether every length and count of the frame fits its field, so that
    /// it can be encoded.
    pub fn fits(&self) -> (r: bool)
        ensures
            r == encodable(self@),
    {
        match self {
            Transmission::Chunk(_, d) => d.len() <= MAX_FIELD,
            Transmission::ConnectedUsers(us) => us.len() <= MAX_FIELD,
            Transmission::IncomingRequests(rs) => rs.len() <= MAX_FIELD,
            _ => true,
        }
    }

    /// The bytes of this frame on the wire.
    pub fn to_bytes(&self) -> (r: Vec<u8>)
        requires
            encodable(self@),
        ensures
            r@ == encode(self@),
    {
        let mut out: Vec<u8> = Vec::new();
        match self {
            Transmission::Username(u) => {
                put_byte(&mut out, 1);
                put_cstr(&mut out, u.as_str());
            },
            Transmission::UsernameOk => put_byte(&mut out, 2),
            Transmission::UsernameTaken => put_byte(&mut out, 3),
            Transmission::UsernameInvalid => put_byte(&mut out, 4),
            Transmission::Metadata(f, n) => {
                put_byte(&mut out, 5);
                put_cstr(&mut out, f.as_str());
                put_u32(&mut out, *n);
            },
            Transmission::Chunk(f, d) => {
                put_byte(&mut out, 6);
                put_cstr(&mut out, f.as_str());
                put_u16(&mut out, d.len());
                let ghost before = out@;
                let mut i: usize = 0;
                while i < d.len()
                    invariant
                        i <= d@.len(),
                        out@ == before + d@.subrange(0, i as int),
                    decreases d@.len() - i,
                {
                    out.push(d[i]);
                    i = i + 1;
                    assert(out@ =~= before + d@.subrange(0, i as int));
                }
                assert(d@.subrange(0, d@.len() as int) =~= d@);
            },
            Transmission::ConnectedUsers(us) => {
                put_byte(&mut out, 7);
                put_u16(&mut out, us.len());
                let ghost before = out@;
                let mut i: usize = 0;
                while i < us.len()
                    invariant
                        i <= us@.len(),
                        out@ == before + cstrs(strings_view(us@).subrange(0, i as int)),
                    decreases us@.len() - i,
                {
                    put_cstr(&mut out, us[i].as_str());
                    assert(strings_view(us@).subrange(0, i + 1).drop_last() =~= strings_view(
                        us@,
                    ).subrange(0, i as int));
                    i = i + 1;
                }
                assert(strings_view(us@).subrange(0, us@.len() as int) =~= strings_view(us@));
            },
            Transmission::IncomingRequests(rs) => {
                put_byte(&mut out, 8);
                put_u16(&mut out, rs.len());
                let ghost before = out@;
                let mut i: usize = 0;
                while i < rs.len()
                    invariant
                        i <= rs@.len(),
                        out@ == before + offer_fields(requests_view(rs@).subrange(0, i as int)),
                    decreases rs@.len() - i,
                {
                    put_cstr(&mut out, rs[i].sender.as_str());
                    put_cstr(&mut out, rs[i].filename.as_str());
                    assert(requests_view(rs@).subrange(0, i + 1).drop_last() =~= requests_view(
                        rs@,
                    ).subrange(0, i as int));
                    i = i + 1;
                }
                assert(requests_view(rs@).subrange(0, rs@.len() as int) =~= requests_view(rs@));
            },
            Transmission::Command(c) => {
                put_byte(&mut out, 9);
                put_command(&mut out, c);
            },
            Transmission::OkFailed => put_byte(&mut out, 10),
            Transmission::NoSuccess => put_byte(&mut out, 11),
            Transmission::ClientDisconnected => put_byte(&mut out, 12),
            Transmission::GlideRequestSent => put_byte(&mut out, 13),
            Transmission::OkSuccess => put_byte(&mut out, 14),
        }
        assert(out@ =~= encode(self@));
        out
    }
}

/// Outcome of reading a field, or a frame, from a buffer.
pub enum Scan<T> {
    /// The value, and the position just after it.
    Got(T, int),
    /// The buffer ends first: at least this many more bytes are needed.
    More(nat),
    /// The bytes break the grammar.
    Bad,
}

impl<T> Scan<T> {
    /// The same failure, for a value of another type.
    pub open spec fn fail<U>(self) -> Scan<U> {
        match self {
            Scan::More(k) => Scan::More(k),
            _ => Scan::Bad,
        }
    }
}

/// Position of the first zero byte at or after `i`.
pub open spec fn find_nul(b: Seq<u8>, i: int) -> Option<int>
    decreases b.len() - i,
{
    if i < 0 || i >= b.len() {
        None
    } else if b[i] == 0 {
        Some(i)
    } else {
        find_nul(b, i + 1)
    }
}

pub open spec fn read_cstr(b: Seq<u8>, i: int) -> Scan<Seq<char>> {
    match find_nul(b, i) {
        None => Scan::More(1),
        Some(j) => if valid_utf8(b.subrange(i, j)) {
            Scan::Got(decode_utf8(b.subrange(i, j)), j + 1)
        } else {
            Scan::Bad
        },
    }
}

pub open spec fn read_u16(b: Seq<u8>, i: int) -> Scan<nat> {
    if i + 2 <= b.len() {
        Scan::Got((b[i] * 256 + b[i + 1]) as nat, i + 2)
    } else {
        Scan::More((i + 2 - b.len()) as nat)
    }
}

pub open spec fn read_u32(b: Seq<u8>, i: int) -> Scan<u32> {
    if i + 4 <= b.len() {
        Scan::Got(
            (b[i] * 0x100_0000 + b[i + 1] * 0x1_0000 + b[i + 2] * 256 + b[i + 3]) as u32,
            i + 4,
        )
    } else {
        Scan::More((i + 4 - b.len()) as nat)
    }
}

pub open spec fn read_bytes(b: Seq<u8>, i: int, n: nat) -> Scan<Seq<u8>> {
    if i + n <= b.len() {
        Scan::Got(b.subrange(i, i + n), i + n)
    } else {
        Scan::More((i + n - b.len()) as nat)
    }
}

/// `n` string fields from position `i`.
pub open spec fn read_cstrs(b: Seq<u8>, i: int, n: nat) -> Scan<Seq<Seq<char>>>
    decreases n,
{
    if n == 0 {
        Scan::Got(seq![], i)
    } else {
        match read_cstrs(b, i, (n - 1) as nat) {
            Scan::Got(l, j) => match read_cstr(b, j) {
                Scan::Got(s, k) => Scan::Got(l.push(s), k),
                other => other.fail(),
            },
            other => other.fail(),
        }
    }
}

pub open spec fn read_offer(b: Seq<u8>, i: int) -> Scan<OfferView> {
    match read_cstr(b, i) {
        Scan::Got(s, j) => match read_cstr(b, j) {
            Scan::Got(f, k) => Scan::Got((s, f), k),
            other => other.fail(),
        },
        other => other.fail(),
    }
}

/// `n` offers from position `i`.
pub open spec fn read_offers(b: Seq<u8>, i: int, n: nat) -> Scan<Seq<OfferView>>
    decreases n,
{
    if n == 0 {
        Scan::Got(seq![], i)
    } else {
        match read_offers(b, i, (n - 1) as nat) {
            Scan::Got(l, j) => match read_offer(b, j) {
                Scan::Got(o, k) => Scan::Got(l.push(o), k),
                other => other.fail(),
            },
            other => other.fail(),
        }
    }
}

/// A command frame's sub-tag and payload, from position `i`.
pub open spec fn read_command(b: Seq<u8>, i: int) -> Scan<CommandView> {
    if i >= b.len() {
        Scan::More(1)
    } else if b[i] == 1 {
        Scan::Got(CommandView::List, i + 1)
    } else if b[i] == 2 {
        Scan::Got(CommandView::Requests, i + 1)
    } else if b[i] == 3 {
        match read_cstr(b, i + 1) {
            Scan::Got(path, j) => match read_cstr(b, j) {
                Scan::Got(to, k) => Scan::Got(CommandView::Glide { path, to }, k),
                other => other.fail(),
            },
            other => other.fail(),
        }
    } else if b[i] == 4 {
        match read_cstr(b, i + 1) {
            Scan::Got(u, j) => Scan::Got(CommandView::Accept(u), j),
            other => other.fail(),
        }
    } else if b[i] == 5 {
        match read_cstr(b, i + 1) {
            Scan::Got(u, j) => Scan::Got(CommandView::No(u), j),
            other => other.fail(),
        }
    } else {
        Scan::Bad
    }
}

/// The payload of a frame with tag `tag`, from position `i`.
pub open spec fn read_payload(b: Seq<u8>, i: int, tag: u8) -> Scan<Message> {
    if tag == 1 {
        match read_cstr(b, i) {
            Scan::Got(u, j) => Scan::Got(Message::Username(u), j),
            other => other.fail(),
        }
    } else if tag == 2 {
        Scan::Got(Message::UsernameOk, i)
    } else if tag == 3 {
        Scan::Got(Message::UsernameTaken, i)
    } else if tag == 4 {
        Scan::Got(Message::UsernameInvalid, i)
    } else if tag == 5 {
        match read_cstr(b, i) {
            Scan::Got(f, j) => match read_u32(b, j) {
                Scan::Got(n, k) => Scan::Got(Message::Metadata(f, n), k),
                other => other.fail(),
            },
            other => other.fail(),
        }
    } else if tag == 6 {
        match read_cstr(b, i) {
            Scan::Got(f, j) => match read_u16(b, j) {
                Scan::Got(n, k) => match read_bytes(b, k, n) {
                    Scan::Got(d, e) => Scan::Got(Message::Chunk(f, d), e),
                    other => other.fail(),
                },
                other => other.fail(),
            },
            other => other.fail(),
        }
    } else if tag == 7 {
        match read_u16(b, i) {
            Scan::Got(n, j) => match read_cstrs(b, j, n) {
                Scan::Got(us, k) => Scan::Got(Message::ConnectedUsers(us), k),
                other => other.fail(),
            },
            other => other.fail(),
        }
    } else if tag == 8 {
        match read_u16(b, i) {
            Scan::Got(n, j) => match read_offers(b, j, n) {
                Scan::Got(rs, k) => Scan::Got(Message::IncomingRequests(rs), k),
                other => other.fail(),
            },
            other => other.fail(),
        }
    } else if tag == 9 {
        match read_command(b, i) {
            Scan::Got(c, j) => Scan::Got(Message::Command(c), j),
            other => other.fail(),
        }
    } else if tag == 10 {
        Scan::Got(Message::OkFailed, i)
    } else if tag == 11 {
        Scan::Got(Message::NoSuccess, i)
    } else if tag == 12 {
        Scan::Got(Message::ClientDisconnected, i)
    } else if tag == 13 {
        Scan::Got(Message::GlideRequestSent, i)
    } else if tag == 14 {
        Scan::Got(Message::OkSuccess, i)
    } else {
        Scan::Bad
    }
}

/// The frame that starts at or after position `i`: zero bytes before a tag
/// are padding and are skipped.
pub open spec fn read_frame(b: Seq<u8>, i: int) -> Scan<Message>
    decreases b.len() - i,
{
    if i < 0 || i >= b.len() {
        Scan::More(1)
    } else if b[i] == 0 {
        read_frame(b, i + 1)
    } else {
        read_payload(b, i + 1, b[i])
    }
}

/// What the first frame of a buffer is, and where it ends.
pub open spec fn parse_frame(b: Seq<u8>) -> Scan<Message> {
    read_frame(b, 0)
}

/// Result of reading the first frame of a buffer.
pub enum Decoded {
    /// A whole frame, and the number of bytes it took (padding included).
    Frame(Transmission, usize),
    /// The buffer ends before the frame does: read at least this many more
    /// bytes and try again.
    NeedMore(usize),
    /// The bytes are no frame of the protocol.
    Malformed,
}

impl View for Decoded {
    type V = Scan<Message>;

    open spec fn view(&self) -> Scan<Message> {
        match self {
            Decoded::Frame(t, n) => Scan::Got(t@, *n as int),
            Decoded::NeedMore(k) => Scan::More(*k as nat),
            Decoded::Malformed => Scan::Bad,
        }
    }
}

/// Outcome of reading one field in executable code.
enum Step<T> {
    Got(T, usize),
    More(usize),
    Bad,
}

impl<T: View> View for Step<T> {
    type V = Scan<T::V>;

    closed spec fn view(&self) -> Scan<T::V> {
        match self {
            Step::Got(x, k) => Scan::Got(x@, *k as int),
            Step::More(k) => Scan::More(*k as nat),
            Step::Bad => Scan::Bad,
        }
    }
}

/// Relies on `std::str::from_utf8`: it accepts exactly the well-formed UTF-8
/// byte strings, and then yields the characters that they encode.
#[verifier::external_body]
fn utf8_string(b: &[u8]) -> (r: Option<String>)
    ensures
        r is Some <==> valid_utf8(b@),
        r matches Some(s) ==> s@ == decode_utf8(b@),
{
    std::str::from_utf8(b).ok().map(|s| s.to_string())
}

fn scan_nul(b: &[u8], i: usize) -> (r: Option<usize>)
    requires
        i <= b@.len(),
    ensures
        r matches Some(j) ==> find_nul(b@, i as int) == Some(j as int) && j < b@.len() && j
            < usize::MAX,
        r is None ==> find_nul(b@, i as int) is None,
{
    let mut j: usize = i;
    while j < b.len()
        invariant
            i <= j <= b@.len(),
            find_nul(b@, i as int) == find_nul(b@, j as int),
        decreases b@.len() - j,
    {
        if b[j] == 0 {
            return Some(j);
        }
        j = j + 1;
    }
    None
}

fn scan_cstr(b: &[u8], i: usize) -> (r: Step<String>)
    requires
        i <= b@.len(),
    ensures
        r@ == read_cstr(b@, i as int),
        r matches Step::Got(_, k) ==> i < k <= b@.len(),
        r matches Step::More(k) ==> k > 0,
{
    match scan_nul(b, i) {
        None => Step::More(1),
        Some(j) => {
            proof {
                lemma_find_nul_bounds(b@, i as int);
            }
            match utf8_string(&b[i..j]) {
                Some(s) => Step::Got(s, j + 1),
                None => Step::Bad,
            }
        },
    }
}

proof fn lemma_find_nul_bounds(b: Seq<u8>, i: int)
    ensures
        find_nul(b, i) matches Some(j) ==> 0 <= i <= j < b.len() && b[j] == 0,
    decreases b.len() - i,
{
    if 0 <= i < b.len() && b[i] != 0 {
        lemma_find_nul_bounds(b, i + 1);
    }
}

fn scan_u16(b: &[u8], i: usize) -> (r: Step<usize>)
    requires
        i <= b@.len(),
    ensures
        r@ == (match read_u16(b@, i as int) {
            Scan::Got(n, k) => Scan::Got(n as usize, k),
            Scan::More(k) => Scan::More(k),
            Scan::Bad => Scan::Bad,
        }),
        r matches Step::Got(n, k) ==> n <= MAX_FIELD && k == i + 2 && k <= b@.len(),
{
    if b.len() - i >= 2 {
        Step::Got((b[i] as usize) * 256 + (b[i + 1] as usize), i + 2)
    } else {
        Step::More(2 - (b.len() - i))
    }
}

fn scan_u32(b: &[u8], i: usize) -> (r: Step<u32>)
    requires
        i <= b@.len(),
    ensures
        r@ == read_u32(b@, i as int),
        r matches Step::Got(_, k) ==> k == i + 4 && k <= b@.len(),
{
    if b.len() - i >= 4 {
        let n: u32 = (b[i] as u32) * 0x100_0000 + (b[i + 1] as u32) * 0x1_0000 + (b[i + 2] as u32)
            * 256 + (b[i + 3] as u32);
        Step::Got(n, i + 4)
    } else {
        Step::More(4 - (b.len() - i))
    }
}

fn scan_cstrs(b: &[u8], i: usize, n: usize) -> (r: Step<Vec<String>>)
    requires
        i <= b@.len(),
    ensures
        (match (r, read_cstrs(b@, i as int, n as nat)) {
            (Step::Got(v, k), Scan::Got(l, j)) => strings_view(v@) == l && k == j && i <= k
                <= b@.len(),
            (Step::More(k), Scan::More(m)) => k == m && k > 0,
            (Step::Bad, Scan::Bad) => true,
            _ => false,
        }),
{
    let mut v: Vec<String> = Vec::new();
    let mut pos: usize = i;
    let mut c: usize = 0;
    assert(strings_view(v@) =~= Seq::<Seq<char>>::empty());
    while c < n
        invariant
            c <= n,
            i <= pos <= b@.len(),
            read_cstrs(b@, i as int, c as nat) == Scan::Got(strings_view(v@), pos as int),
        decreases n - c,
    {
        match scan_cstr(b, pos) {
            Step::Got(s, k) => {
                proof {
                    assert(strings_view(v@.push(s)) =~= strings_view(v@).push(s@));
                }
                v.push(s);
                pos = k;
            },
            Step::More(k) => {
                proof {
                    lemma_cstrs_stuck(b@, i as int, c as nat, n as nat);
                }
                return Step::More(k);
            },
            Step::Bad => {
                proof {
                    lemma_cstrs_stuck(b@, i as int, c as nat, n as nat);
                }
                return Step::Bad;
            },
        }
        c = c + 1;
    }
    Step::Got(v, pos)
}

/// Once the `c+1`-th string field fails, reading more fields fails the same way.
proof fn lemma_cstrs_stuck(b: Seq<u8>, i: int, c: nat, n: nat)
    requires
        c < n,
        read_cstrs(b, i, c) matches Scan::Got(_, j) && !(read_cstr(b, j) is Got),
    ensures
        read_cstrs(b, i, n) == read_cstrs(b, i, c + 1),
    decreases n - c,
{
    if n > c + 1 {
        lemma_cstrs_stuck(b, i, c, (n - 1) as nat);
    }
}

fn scan_offers(b: &[u8], i: usize, n: usize) -> (r: Step<Vec<Request>>)
    requires
        i <= b@.len(),
    ensures
        (match (r, read_offers(b@, i as int, n as nat)) {
            (Step::Got(v, k), Scan::Got(l, j)) => requests_view(v@) == l && k == j && i <= k
                <= b@.len(),
            (Step::More(k), Scan::More(m)) => k == m && k > 0,
            (Step::Bad, Scan::Bad) => true,
            _ => false,
        }),
{
    let mut v: Vec<Request> = Vec::new();
    let mut pos: usize = i;
    let mut c: usize = 0;
    assert(requests_view(v@) =~= Seq::<OfferView>::empty());
    while c < n
        invariant
            c <= n,
            i <= pos <= b@.len(),
            read_offers(b@, i as int, c as nat) == Scan::Got(requests_view(v@), pos as int),
        decreases n - c,
    {
        let sender = match scan_cstr(b, pos) {
            Step::Got(s, k) => {
                pos = k;
                s
            },
            Step::More(k) => {
                proof {
                    lemma_offers_stuck(b@, i as int, c as nat, n as nat);
                }
                return Step::More(k);
            },
            Step::Bad => {
                proof {
                    lemma_offers_stuck(b@, i as int, c as nat, n as nat);
                }
                return Step::Bad;
            },
        };
        let filename = match scan_cstr(b, pos) {
            Step::Got(f, k) => {
                pos = k;
                f
            },
            Step::More(k) => {
                proof {
                    lemma_offers_stuck(b@, i as int, c as nat, n as nat);
                }
                return Step::More(k);
            },
            Step::Bad => {
                proof {
                    lemma_offers_stuck(b@, i as int, c as nat, n as nat);
                }
                return Step::Bad;
            },
        };
        let req = Request { sender, filename };
        proof {
            assert(requests_view(v@.push(req)) =~= requests_view(v@).push(req@));
        }
        v.push(req);
        c = c + 1;
    }
    Step::Got(v, pos)
}

/// Once the `c+1`-th offer fails, reading more offers fails the same way.
proof fn lemma_offers_stuck(b: Seq<u8>, i: int, c: nat, n: nat)
    requires
        c < n,
        read_offers(b, i, c) matches Scan::Got(_, j) && !(read_offer(b, j) is Got),
    ensures
        read_offers(b, i, n) == read_offers(b, i, c + 1),
    decreases n - c,
{
    if n > c + 1 {
        lemma_offers_stuck(b, i, c, (n - 1) as nat);
    }
}

fn scan_command(b: &[u8], i: usize) -> (r: Step<Command>)
    requires
        i <= b@.len(),
    ensures
        r@ == read_command(b@, i as int),
        r matches Step::Got(_, k) ==> i <= k <= b@.len(),
        r matches Step::More(k) ==> k > 0,
{
    if i >= b.len() {
        return Step::More(1);
    }
    let sub = b[i];
    if sub == 1 {
        Step::Got(Command::List, i + 1)
    } else if sub == 2 {
        Step::Got(Command::Requests, i + 1)
    } else if sub == 3 {
        match scan_cstr(b, i + 1) {
            Step::Got(path, j) => match scan_cstr(b, j) {
                Step::Got(to, k) => Step::Got(Command::Glide { path, to }, k),
                Step::More(k) => Step::More(k),
                Step::Bad => Step::Bad,
            },
            Step::More(k) => Step::More(k),
            Step::Bad => Step::Bad,
        }
    } else if sub == 4 {
        match scan_cstr(b, i + 1) {
            Step::Got(u, j) => Step::Got(Command::Accept(u), j),
            Step::More(k) => Step::More(k),
            Step::Bad => Step::Bad,
        }
    } else if sub == 5 {
        match scan_cstr(b, i + 1) {
            Step::Got(u, j) => Step::Got(Command::No(u), j),
            Step::More(k) => Step::More(k),
            Step::Bad => Step::Bad,
        }
    } else {
        Step::Bad
    }
}

fn scan_payload(b: &[u8], i: usize, tag: u8) -> (r: Decoded)
    requires
        i <= b@.len(),
    ensures
        r@ == read_payload(b@, i as int, tag),
        r matches Decoded::Frame(_, n) ==> i <= n <= b@.len(),
        r matches Decoded::NeedMore(k) ==> k > 0,
{
    if tag == 1 {
        match scan_cstr(b, i) {
            Step::Got(u, j) => Decoded::Frame(Transmission::Username(u), j),
            Step::More(k) => Decoded::NeedMore(k),
            Step::Bad => Decoded::Malformed,
        }
    } else if tag == 2 {
        Decoded::Frame(Transmission::UsernameOk, i)
    } else if tag == 3 {
        Decoded::Frame(Transmission::UsernameTaken, i)
    } else if tag == 4 {
        Decoded::Frame(Transmission::UsernameInvalid, i)
    } else if tag == 5 {
        match scan_cstr(b, i) {
            Step::Got(f, j) => match scan_u32(b, j) {
                Step::Got(n, k) => Decoded::Frame(Transmission::Metadata(f, n), k),
                Step::More(k) => Decoded::NeedMore(k),
                Step::Bad => Decoded::Malformed,
            },
            Step::More(k) => Decoded::NeedMore(k),
            Step::Bad => Decoded::Malformed,
        }
    } else if tag == 6 {
        match scan_cstr(b, i) {
            Step::Got(f, j) => match scan_u16(b, j) {
                Step::Got(n, k) => {
                    if b.len() - k >= n {
                        let d = slice_to_vec(&b[k..k + n]);
                        Decoded::Frame(Transmission::Chunk(f, d), k + n)
                    } else {
                        Decoded::NeedMore(n - (b.len() - k))
                    }
                },
                Step::More(k) => Decoded::NeedMore(k),
                Step::Bad => Decoded::Malformed,
            },
            Step::More(k) => Decoded::NeedMore(k),
            Step::Bad => Decoded::Malformed,
        }
    } else if tag == 7 {
        match scan_u16(b, i) {
            Step::Got(n, j) => match scan_cstrs(b, j, n) {
                Step::Got(us, k) => Decoded::Frame(Transmission::ConnectedUsers(us), k),
                Step::More(k) => Decoded::NeedMore(k),
                Step::Bad => Decoded::Malformed,
            },
            Step::More(k) => Decoded::NeedMore(k),
            Step::Bad => Decoded::Malformed,
        }
    } else if tag == 8 {
        match scan_u16(b, i) {
            Step::Got(n, j) => match scan_offers(b, j, n) {
                Step::Got(rs, k) => Decoded::Frame(Transmission::IncomingRequests(rs), k),
                Step::More(k) => Decoded::NeedMore(k),
                Step::Bad => Decoded::Malformed,
            },
            Step::More(k) => Decoded::NeedMore(k),
            Step::Bad => Decoded::Malformed,
        }
    } else if tag == 9 {
        match scan_command(b, i) {
            Step::Got(c, j) => Decoded::Frame(Transmission::Command(c), j),
            Step::More(k) => Decoded::NeedMore(k),
            Step::Bad => Decoded::Malformed,
        }
    } else if tag == 10 {
        Decoded::Frame(Transmission::OkFailed, i)
    } else if tag == 11 {
        Decoded::Frame(Transmission::NoSuccess, i)
    } else if tag == 12 {
        Decoded::Frame(Transmission::ClientDisconnected, i)
    } else if tag == 13 {
        Decoded::Frame(Transmission::GlideRequestSent, i)
    } else if tag == 14 {
        Decoded::Frame(Transmission::OkSuccess, i)
    } else {
        Decoded::Malformed
    }
}

impl Transmission {
    /// Reads the first frame of `buf`. Zero bytes before its tag are skipped.
    /// Nothing past the frame is looked at: when the buffer holds only part
    /// of a frame, the result says how many more bytes are needed at least.
    pub fn decode(buf: &[u8]) -> (r: Decoded)
        ensures
            r@ == parse_frame(buf@),
            r matches Decoded::Frame(_, n) ==> 0 < n <= buf@.len(),
            r matches Decoded::NeedMore(k) ==> k > 0,
    {
        let mut i: usize = 0;
        while i < buf.len() && buf[i] == 0
            invariant
                i <= buf@.len(),
                parse_frame(buf@) == read_frame(buf@, i as int),
            decreases buf@.len() - i,
        {
            i = i + 1;
        }
        if i >= buf.len() {
            return Decoded::NeedMore(1);
        }
        scan_payload(buf, i + 1, buf[i])
    }
}

} // verus!
