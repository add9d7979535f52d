use vstd::prelude::*;
use vstd::utf8::*;

use crate::commands::CommandView;
use crate::data::OfferView;
use crate::protocol::{
    be16, be32, command_bytes, command_fields_ok, cstr, cstrs, encode, find_nul, no_nul, offer_fields,
    parse_frame, read_command, read_cstr, read_cstrs, read_offers, read_payload, read_u16, read_u32,
    well_formed,
    Message, Scan, MAX_FIELD,
};

verus! {

broadcast use {encode_utf8_valid_utf8, encode_utf8_decode_utf8};

/// The UTF-8 bytes of a character other than NUL are all non-zero.
proof fn lemma_scalar_nonzero(c: char)
    requires
        c != '\0',
    ensures
        forall|k: int|
            0 <= k < encode_scalar(c as u32).len() ==> #[trigger] encode_scalar(c as u32)[k] != 0,
{
    let v = c as u32;
    char_is_scalar(c);
    if has_width_1_encoding(v) {
        if v == 0 {
            char_u32_cast(c, v);
            assert(c == '\0');
        }
        assert((v & 0x7F) == v) by (bit_vector)
            requires
                v <= 0x7F,
        ;
    } else {
        let a = ((v >> 6) & 0x1F) as u8;
        let b = ((v >> 12) & 0x0F) as u8;
        let d = ((v >> 18) & 0x7) as u8;
        let e = (v & 0x3F) as u8;
        let f = ((v >> 6) & 0x3F) as u8;
        let g = ((v >> 12) & 0x3F) as u8;
        assert((0xC0u8 | a) != 0) by (bit_vector);
        assert((0xE0u8 | b) != 0) by (bit_vector);
        assert((0xF0u8 | d) != 0) by (bit_vector);
        assert((0x80u8 | e) != 0) by (bit_vector);
        assert((0x80u8 | f) != 0) by (bit_vector);
        assert((0x80u8 | g) != 0) by (bit_vector);
    }
}

/// A string without NUL characters encodes to bytes without a zero byte.
proof fn lemma_utf8_nonzero(s: Seq<char>)
    requires
        no_nul(s),
    ensures
        forall|k: int| 0 <= k < encode_utf8(s).len() ==> #[trigger] encode_utf8(s)[k] != 0,
    decreases s.len(),
{
    if s.len() > 0 {
        lemma_scalar_nonzero(s[0]);
        lemma_utf8_nonzero(s.drop_first());
        let h = encode_scalar(s[0] as u32);
        let t = encode_utf8(s.drop_first());
        assert(encode_utf8(s) == h + t);
        assert forall|k: int| 0 <= k < encode_utf8(s).len() implies #[trigger] encode_utf8(s)[k]
            != 0 by {
            if k < h.len() {
                assert(encode_utf8(s)[k] == h[k]);
            } else {
                assert(encode_utf8(s)[k] == t[k - h.len()]);
            }
        }
    }
}

proof fn lemma_find_nul_first(b: Seq<u8>, i: int, j: int)
    requires
        0 <= i <= j < b.len(),
        b[j] == 0,
        forall|k: int| i <= k < j ==> b[k] != 0,
    ensures
        find_nul(b, i) == Some(j),
    decreases j - i,
{
    if i < j {
        lemma_find_nul_first(b, i + 1, j);
    }
}

/// A string field is read back as the string it was written from.
proof fn lemma_read_cstr(pre: Seq<u8>, s: Seq<char>, post: Seq<u8>)
    requires
        no_nul(s),
    ensures
        read_cstr(pre + cstr(s) + post, pre.len() as int) == Scan::Got(
            s,
            pre.len() + cstr(s).len() as int,
        ),
{
    let b = pre + cstr(s) + post;
    let e = encode_utf8(s);
    let i = pre.len() as int;
    let j = i + e.len();
    lemma_utf8_nonzero(s);
    assert forall|k: int| i <= k < j implies b[k] != 0 by {
        assert(b[k] == e[k - i]);
    }
    assert(b[j] == 0);
    lemma_find_nul_first(b, i, j);
    assert(b.subrange(i, j) =~= e);
}

proof fn lemma_read_u16(pre: Seq<u8>, n: nat, post: Seq<u8>)
    requires
        n <= MAX_FIELD,
    ensures
        read_u16(pre + be16(n) + post, pre.len() as int) == Scan::<nat>::Got(n, pre.len() + 2 as int),
{
    let b = pre + be16(n) + post;
    let i = pre.len() as int;
    assert(b[i] == be16(n)[0]);
    assert(b[i + 1] == be16(n)[1]);
}

proof fn lemma_read_u32(pre: Seq<u8>, n: u32, post: Seq<u8>)
    ensures
        read_u32(pre + be32(n) + post, pre.len() as int) == Scan::Got(n, pre.len() + 4 as int),
{
    let b = pre + be32(n) + post;
    let i = pre.len() as int;
    assert(b[i] == be32(n)[0]);
    assert(b[i + 1] == be32(n)[1]);
    assert(b[i + 2] == be32(n)[2]);
    assert(b[i + 3] == be32(n)[3]);
    let x = n as int;
    assert(x == (x / 0x100_0000) * 0x100_0000 + ((x / 0x1_0000) % 256) * 0x1_0000 + ((x / 256)
        % 256) * 256 + x % 256) by (nonlinear_arith)
        requires
            0 <= x < 0x1_0000_0000,
    ;
}

proof fn lemma_read_cstrs(pre: Seq<u8>, l: Seq<Seq<char>>, post: Seq<u8>)
    requires
        forall|k: int| 0 <= k < l.len() ==> no_nul(#[trigger] l[k]),
    ensures
        read_cstrs(pre + cstrs(l) + post, pre.len() as int, l.len()) == Scan::Got(
            l,
            pre.len() + cstrs(l).len() as int,
        ),
    decreases l.len(),
{
    let b = pre + cstrs(l) + post;
    if l.len() > 0 {
        let init = l.drop_last();
        let last = l.last();
        assert(b =~= pre + cstrs(init) + (cstr(last) + post));
        lemma_read_cstrs(pre, init, cstr(last) + post);
        assert(b =~= (pre + cstrs(init)) + cstr(last) + post);
        assert(no_nul(l[l.len() - 1]));
        lemma_read_cstr(pre + cstrs(init), last, post);
        assert(init.push(last) =~= l);
    } else {
        assert(l =~= seq![]);
    }
}

proof fn lemma_read_offers(pre: Seq<u8>, l: Seq<OfferView>, post: Seq<u8>)
    requires
        forall|k: int| 0 <= k < l.len() ==> no_nul(#[trigger] l[k].0) && no_nul(l[k].1),
    ensures
        read_offers(pre + offer_fields(l) + post, pre.len() as int, l.len()) == Scan::Got(
            l,
            pre.len() + offer_fields(l).len() as int,
        ),
    decreases l.len(),
{
    let b = pre + offer_fields(l) + post;
    if l.len() > 0 {
        let init = l.drop_last();
        let s = l.last().0;
        let f = l.last().1;
        assert(b =~= pre + offer_fields(init) + (cstr(s) + cstr(f) + post));
        lemma_read_offers(pre, init, cstr(s) + cstr(f) + post);
        let p1 = pre + offer_fields(init);
        assert(b =~= p1 + cstr(s) + (cstr(f) + post));
        assert(b =~= (p1 + cstr(s)) + cstr(f) + post);
        assert(no_nul(l[l.len() - 1].0) && no_nul(l[l.len() - 1].1));
        lemma_read_cstr(p1, s, cstr(f) + post);
        lemma_read_cstr(p1 + cstr(s), f, post);
        assert(init.push(l.last()) =~= l);
    } else {
        assert(l =~= seq![]);
    }
}

proof fn lemma_read_command(pre: Seq<u8>, c: CommandView, post: Seq<u8>)
    requires
        command_fields_ok(c),
    ensures
        read_command(pre + command_bytes(c) + post, pre.len() as int) == Scan::Got(
            c,
            pre.len() + command_bytes(c).len() as int,
        ),
{
    let b = pre + command_bytes(c) + post;
    let i = pre.len() as int;
    assert(b[i] == command_bytes(c)[0]);
    let p1 = pre + seq![command_bytes(c)[0]];
    match c {
        CommandView::Glide { path, to } => {
            assert(b =~= p1 + cstr(path) + (cstr(to) + post));
            assert(b =~= (p1 + cstr(path)) + cstr(to) + post);
            lemma_read_cstr(p1, path, cstr(to) + post);
            lemma_read_cstr(p1 + cstr(path), to, post);
        },
        CommandView::Accept(u) => {
            assert(b =~= p1 + cstr(u) + post);
            lemma_read_cstr(p1, u, post);
        },
        CommandView::No(u) => {
            assert(b =~= p1 + cstr(u) + post);
            lemma_read_cstr(p1, u, post);
        },
        _ => {},
    }
}

proof fn lemma_decode_metadata(f: Seq<char>, n: u32, rest: Seq<u8>)
    requires
        no_nul(f),
    ensures
        read_payload(encode(Message::Metadata(f, n)) + rest, 1, 5) == Scan::Got(
            Message::Metadata(f, n),
            encode(Message::Metadata(f, n)).len() as int,
        ),
{
    let b = encode(Message::Metadata(f, n)) + rest;
    let t = seq![5u8];
    assert(b =~= t + cstr(f) + (be32(n) + rest));
    assert(b =~= (t + cstr(f)) + be32(n) + rest);
    lemma_read_cstr(t, f, be32(n) + rest);
    lemma_read_u32(t + cstr(f), n, rest);
}

proof fn lemma_decode_chunk(f: Seq<char>, d: Seq<u8>, rest: Seq<u8>)
    requires
        no_nul(f),
        d.len() <= MAX_FIELD,
    ensures
        read_payload(encode(Message::Chunk(f, d)) + rest, 1, 6) == Scan::Got(
            Message::Chunk(f, d),
            encode(Message::Chunk(f, d)).len() as int,
        ),
{
    let b = encode(Message::Chunk(f, d)) + rest;
    let t = seq![6u8];
    let p2 = t + cstr(f) + be16(d.len());
    assert(b =~= t + cstr(f) + (be16(d.len()) + d + rest));
    assert(b =~= (t + cstr(f)) + be16(d.len()) + (d + rest));
    assert(b.subrange(p2.len() as int, p2.len() + d.len() as int) =~= d);
    lemma_read_cstr(t, f, be16(d.len()) + d + rest);
    lemma_read_u16(t + cstr(f), d.len(), d + rest);
}

proof fn lemma_decode_users(us: Seq<Seq<char>>, rest: Seq<u8>)
    requires
        well_formed(Message::ConnectedUsers(us)),
    ensures
        read_payload(encode(Message::ConnectedUsers(us)) + rest, 1, 7) == Scan::Got(
            Message::ConnectedUsers(us),
            encode(Message::ConnectedUsers(us)).len() as int,
        ),
{
    let b = encode(Message::ConnectedUsers(us)) + rest;
    let t = seq![7u8];
    assert(b =~= t + be16(us.len()) + (cstrs(us) + rest));
    assert(b =~= (t + be16(us.len())) + cstrs(us) + rest);
    lemma_read_u16(t, us.len(), cstrs(us) + rest);
    lemma_read_cstrs(t + be16(us.len()), us, rest);
}

proof fn lemma_decode_requests(rs: Seq<OfferView>, rest: Seq<u8>)
    requires
        well_formed(Message::IncomingRequests(rs)),
    ensures
        read_payload(encode(Message::IncomingRequests(rs)) + rest, 1, 8) == Scan::Got(
            Message::IncomingRequests(rs),
            encode(Message::IncomingRequests(rs)).len() as int,
        ),
{
    let b = encode(Message::IncomingRequests(rs)) + rest;
    let t = seq![8u8];
    assert(b =~= t + be16(rs.len()) + (offer_fields(rs) + rest));
    assert(b =~= (t + be16(rs.len())) + offer_fields(rs) + rest);
    lemma_read_u16(t, rs.len(), offer_fields(rs) + rest);
    lemma_read_offers(t + be16(rs.len()), rs, rest);
}

proof fn lemma_decode_fields(m: Message, rest: Seq<u8>)
    requires
        well_formed(m),
        encode(m)[0] != 0,
    ensures
        read_payload(encode(m) + rest, 1, encode(m)[0]) == Scan::Got(m, encode(m).len() as int),
{
    let b = encode(m) + rest;
    match m {
        Message::Username(u) => {
            let t = seq![1u8];
            assert(b =~= t + cstr(u) + rest);
            lemma_read_cstr(t, u, rest);
        },
        Message::Metadata(f, n) => lemma_decode_metadata(f, n, rest),
        Message::Chunk(f, d) => lemma_decode_chunk(f, d, rest),
        Message::ConnectedUsers(us) => lemma_decode_users(us, rest),
        Message::IncomingRequests(rs) => lemma_decode_requests(rs, rest),
        Message::Command(c) => {
            let t = seq![9u8];
            assert(b =~= t + command_bytes(c) + rest);
            lemma_read_command(t, c, rest);
        },
        _ => {},
    }
}

/// Round trip: reading the bytes of a well-formed frame, followed by anything,
/// gives back that frame and its exact length.
pub proof fn lemma_decode_encode(m: Message, rest: Seq<u8>)
    requires
        well_formed(m),
    ensures
        parse_frame(encode(m) + rest) == Scan::Got(m, encode(m).len() as int),
{
    let b = encode(m) + rest;
    assert(b[0] == encode(m)[0]);
    assert(encode(m)[0] != 0);
    lemma_decode_fields(m, rest);
}

} // verus!
