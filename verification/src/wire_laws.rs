//! What holds of the wire form: decoding undoes encoding, no two messages
//! share a wire form, and a wire form cut short is never taken for a message
//! nor for garbage.

use crate::message::NetMsgView;
use crate::wire::{be32, be64, encodable, opaque, opaque_at, parse, read_request_at, text_at,
    u32_at, u64_at, wire_bytes, word_at, Parsed, MAX_FIELD_LEN};
use vstd::prelude::*;
use vstd::utf8::*;

verus! {

/// Where the four bytes at `pos` are those of `x`, `x` is read there.
proof fn lemma_u32_window(b: Seq<u8>, pos: int, x: u32)
    requires
        0 <= pos,
        pos + 4 <= b.len(),
        b.subrange(pos, pos + 4) == be32(x),
    ensures
        u32_at(b, pos) == x,
{
    let w = b.subrange(pos, pos + 4);
    assert(w[0] == b[pos] && w[1] == b[pos + 1] && w[2] == b[pos + 2] && w[3] == b[pos + 3]);
}

/// Where the eight bytes at `pos` are those of `x`, `x` is read there.
proof fn lemma_u64_window(b: Seq<u8>, pos: int, x: u64)
    requires
        0 <= pos,
        pos + 8 <= b.len(),
        b.subrange(pos, pos + 8) == be64(x),
    ensures
        u64_at(b, pos) == x,
{
    let w = b.subrange(pos, pos + 8);
    assert(b.subrange(pos, pos + 4) =~= w.subrange(0, 4));
    assert(b.subrange(pos + 4, pos + 8) =~= w.subrange(4, 8));
    assert(w.subrange(0, 4) =~= be32((x / 0x1_0000_0000) as u32));
    assert(w.subrange(4, 8) =~= be32((x % 0x1_0000_0000) as u32));
    lemma_u32_window(b, pos, (x / 0x1_0000_0000) as u32);
    lemma_u32_window(b, pos + 4, (x % 0x1_0000_0000) as u32);
}

/// Where the eight bytes at `pos` are those of a machine word, that word is
/// the integer field read there.
proof fn lemma_word_window(b: Seq<u8>, pos: int, x: usize)
    requires
        0 <= pos,
        pos + 8 <= b.len(),
        b.subrange(pos, pos + 8) == be64(x as u64),
    ensures
        word_at(b, pos) == (Parsed::Done { value: x, next: pos + 8 }),
{
    lemma_u64_window(b, pos, x as u64);
}

/// Where the bytes from `pos` on begin with the field form of `data`, `data`
/// is the field read there, and the field ends where that form ends.
proof fn lemma_opaque_window(b: Seq<u8>, pos: int, data: Seq<u8>)
    requires
        0 <= pos,
        data.len() <= MAX_FIELD_LEN,
        pos + opaque(data).len() <= b.len(),
        b.subrange(pos, pos + opaque(data).len()) == opaque(data),
    ensures
        opaque_at(b, pos) == (Parsed::Done { value: data, next: pos + opaque(data).len() }),
{
    let w = b.subrange(pos, pos + opaque(data).len());
    assert(b.subrange(pos, pos + 4) =~= w.subrange(0, 4));
    assert(w.subrange(0, 4) =~= be32(data.len() as u32));
    lemma_u32_window(b, pos, data.len() as u32);
    assert(b.subrange(pos + 4, pos + 4 + data.len()) =~= w.subrange(4, 4int + data.len()));
    assert(w.subrange(4, 4int + data.len()) =~= data);
}

/// Where the bytes from `pos` on are a proper beginning of the field form of
/// `data`, the field read there is incomplete.
proof fn lemma_opaque_cut(b: Seq<u8>, pos: int, data: Seq<u8>)
    requires
        0 <= pos <= b.len(),
        b.len() < pos + opaque(data).len(),
        data.len() <= MAX_FIELD_LEN,
        b.subrange(pos, b.len() as int) == opaque(data).take(b.len() - pos),
    ensures
        opaque_at(b, pos) == Parsed::<Seq<u8>>::Incomplete,
{
    if pos + 4 <= b.len() {
        let w = b.subrange(pos, b.len() as int);
        assert(b.subrange(pos, pos + 4) =~= w.subrange(0, 4));
        assert(w.subrange(0, 4) =~= be32(data.len() as u32));
        lemma_u32_window(b, pos, data.len() as u32);
    }
}

/// The big-endian forms have four and eight bytes.
proof fn lemma_be_len(x: u32, y: u64)
    ensures
        be32(x).len() == 4,
        be64(y).len() == 8,
{
}

/// Each of the first four parts of a five-part buffer stands at the offset
/// that the parts before it add up to.
proof fn lemma_parts(a: Seq<u8>, b: Seq<u8>, c: Seq<u8>, d: Seq<u8>, e: Seq<u8>)
    ensures
        ({
            let s = a + b + c + d + e;
            let i = a.len() as int;
            let j = i + b.len();
            let k = j + c.len();
            let l = k + d.len();
            &&& s.len() == l + e.len()
            &&& s.subrange(0, i) == a
            &&& s.subrange(i, j) == b
            &&& s.subrange(j, k) == c
            &&& s.subrange(k, l) == d
        }),
{
    let s = a + b + c + d + e;
    let i = a.len() as int;
    let j = i + b.len();
    let k = j + c.len();
    let l = k + d.len();
    assert(s.subrange(0, i) =~= a);
    assert(s.subrange(i, j) =~= b);
    assert(s.subrange(j, k) =~= c);
    assert(s.subrange(k, l) =~= d);
}

/// The same of a four-part buffer cut to `n` bytes, for the parts that lie
/// within the cut wholly, and for the second part where the cut falls in it.
proof fn lemma_parts_cut(a: Seq<u8>, b: Seq<u8>, c: Seq<u8>, d: Seq<u8>, n: int)
    requires
        a.len() <= n <= (a + b + c + d).len(),
    ensures
        ({
            let t = (a + b + c + d).take(n);
            let i = a.len() as int;
            let j = i + b.len();
            let k = j + c.len();
            &&& t.len() == n
            &&& t.subrange(0, i) == a
            &&& n >= j ==> t.subrange(i, j) == b
            &&& n >= k ==> t.subrange(j, k) == c
            &&& n <= j ==> t.subrange(i, n) == b.take(n - i)
        }),
{
    let t = (a + b + c + d).take(n);
    let i = a.len() as int;
    let j = i + b.len();
    let k = j + c.len();
    assert(t.subrange(0, i) =~= a);
    if n >= j {
        assert(t.subrange(i, j) =~= b);
    }
    if n >= k {
        assert(t.subrange(j, k) =~= c);
    }
    if n <= j {
        assert(t.subrange(i, n) =~= b.take(n - i));
    }
}

/// Reading a tag and a variable-length field from their wire forms, with
/// anything behind them.
proof fn lemma_tagged_opaque(tag: u32, data: Seq<u8>, rest: Seq<u8>)
    requires
        data.len() <= MAX_FIELD_LEN,
    ensures
        (be32(tag) + opaque(data) + rest).len() >= 4,
        u32_at(be32(tag) + opaque(data) + rest, 0) == tag,
        opaque_at(be32(tag) + opaque(data) + rest, 4) == (Parsed::Done {
            value: data,
            next: 4int + opaque(data).len(),
        }),
        (be32(tag) + opaque(data)).len() == 4 + opaque(data).len(),
{
    let b = be32(tag) + opaque(data) + rest;
    let none = Seq::<u8>::empty();
    lemma_be_len(tag, 0);
    lemma_parts(be32(tag), opaque(data), rest, none, none);
    assert(b + none + none =~= b);
    lemma_u32_window(b, 0, tag);
    lemma_opaque_window(b, 4, data);
}

/// Reading a tag and a variable-length field from wire forms cut short within
/// the field.
proof fn lemma_tagged_opaque_cut(tag: u32, data: Seq<u8>, k: int)
    requires
        data.len() <= MAX_FIELD_LEN,
        4 <= k < 4 + opaque(data).len(),
    ensures
        u32_at((be32(tag) + opaque(data)).take(k), 0) == tag,
        opaque_at((be32(tag) + opaque(data)).take(k), 4) == Parsed::<Seq<u8>>::Incomplete,
{
    let full = be32(tag) + opaque(data);
    let b = full.take(k);
    let none = Seq::<u8>::empty();
    lemma_be_len(tag, 0);
    assert(full + none + none =~= full);
    lemma_parts_cut(be32(tag), opaque(data), none, none, k);
    lemma_u32_window(b, 0, tag);
    lemma_opaque_cut(b, 4, data);
}

/// Reading a text field from the wire form of its UTF-8 bytes.
proof fn lemma_tagged_text(tag: u32, s: Seq<char>, rest: Seq<u8>)
    requires
        encode_utf8(s).len() <= MAX_FIELD_LEN,
    ensures
        text_at(be32(tag) + opaque(encode_utf8(s)) + rest, 4) == (Parsed::Done {
            value: s,
            next: 4int + opaque(encode_utf8(s)).len(),
        }),
{
    lemma_tagged_opaque(tag, encode_utf8(s), rest);
    encode_utf8_valid_utf8(s);
    encode_utf8_decode_utf8(s);
}

/// Reading a tag and one integer field from their wire forms.
proof fn lemma_tagged_word(tag: u32, x: usize, rest: Seq<u8>)
    ensures
        u32_at(be32(tag) + be64(x as u64) + rest, 0) == tag,
        word_at(be32(tag) + be64(x as u64) + rest, 4) == (Parsed::Done { value: x, next: 12 }),
        (be32(tag) + be64(x as u64)).len() == 12,
{
    let b = be32(tag) + be64(x as u64) + rest;
    let none = Seq::<u8>::empty();
    lemma_be_len(tag, x as u64);
    lemma_parts(be32(tag), be64(x as u64), rest, none, none);
    assert(b + none + none =~= b);
    lemma_u32_window(b, 0, tag);
    lemma_word_window(b, 4, x);
}

/// Reading a tag and three integer fields from their wire forms.
proof fn lemma_tagged_words(tag: u32, x: usize, y: usize, z: usize, rest: Seq<u8>)
    ensures
        u32_at(be32(tag) + be64(x as u64) + be64(y as u64) + be64(z as u64) + rest, 0) == tag,
        word_at(be32(tag) + be64(x as u64) + be64(y as u64) + be64(z as u64) + rest, 4) == (
        Parsed::Done { value: x, next: 12 }),
        word_at(be32(tag) + be64(x as u64) + be64(y as u64) + be64(z as u64) + rest, 12) == (
        Parsed::Done { value: y, next: 20 }),
        word_at(be32(tag) + be64(x as u64) + be64(y as u64) + be64(z as u64) + rest, 20) == (
        Parsed::Done { value: z, next: 28 }),
        (be32(tag) + be64(x as u64) + be64(y as u64) + be64(z as u64)).len() == 28,
{
    let b = be32(tag) + be64(x as u64) + be64(y as u64) + be64(z as u64) + rest;
    lemma_be_len(tag, x as u64);
    lemma_be_len(tag, y as u64);
    lemma_be_len(tag, z as u64);
    lemma_parts(be32(tag), be64(x as u64), be64(y as u64), be64(z as u64), rest);
    lemma_u32_window(b, 0, tag);
    lemma_word_window(b, 4, x);
    lemma_word_window(b, 12, y);
    lemma_word_window(b, 20, z);
}

/// Reading a tag and those of three integer fields that a cut leaves whole.
proof fn lemma_tagged_words_cut(tag: u32, x: usize, y: usize, z: usize, k: int)
    requires
        4 <= k < 28,
    ensures
        u32_at((be32(tag) + be64(x as u64) + be64(y as u64) + be64(z as u64)).take(k), 0) == tag,
        k >= 12 ==> word_at(
            (be32(tag) + be64(x as u64) + be64(y as u64) + be64(z as u64)).take(k),
            4,
        ) == (Parsed::Done { value: x, next: 12 }),
        k >= 20 ==> word_at(
            (be32(tag) + be64(x as u64) + be64(y as u64) + be64(z as u64)).take(k),
            12,
        ) == (Parsed::Done { value: y, next: 20 }),
{
    let b = (be32(tag) + be64(x as u64) + be64(y as u64) + be64(z as u64)).take(k);
    lemma_be_len(tag, x as u64);
    lemma_be_len(tag, y as u64);
    lemma_be_len(tag, z as u64);
    lemma_parts_cut(be32(tag), be64(x as u64), be64(y as u64), be64(z as u64), k);
    lemma_u32_window(b, 0, tag);
    if k >= 12 {
        lemma_word_window(b, 4, x);
    }
    if k >= 20 {
        lemma_word_window(b, 12, y);
    }
}

/// Reading a tag from a wire form cut short within its one integer field.
proof fn lemma_tagged_word_cut(tag: u32, x: usize, k: int)
    requires
        4 <= k < 12,
    ensures
        u32_at((be32(tag) + be64(x as u64)).take(k), 0) == tag,
{
    let full = be32(tag) + be64(x as u64);
    let none = Seq::<u8>::empty();
    lemma_be_len(tag, x as u64);
    assert(full + none + none =~= full);
    lemma_parts_cut(be32(tag), be64(x as u64), none, none, k);
    lemma_u32_window(full.take(k), 0, tag);
}

/// Decoding undoes encoding: a buffer that begins with the wire form of `m`
/// decodes to `m` and to the length of that wire form, whatever follows it.
#[verifier::rlimit(50)]
pub proof fn lemma_decode_encode(m: NetMsgView, rest: Seq<u8>)
    requires
        encodable(m),
    ensures
        parse(wire_bytes(m) + rest) == (Parsed::Done {
            value: m,
            next: wire_bytes(m).len() as int,
        }),
{
    match m {
        NetMsgView::Hello { localhost } => {
            lemma_tagged_opaque(0, encode_utf8(localhost), rest);
            lemma_tagged_text(0, localhost, rest);
        },
        NetMsgView::Message { text } => {
            lemma_tagged_opaque(1, encode_utf8(text), rest);
            lemma_tagged_text(1, text, rest);
        },
        NetMsgView::OpenRequest { name } => {
            lemma_tagged_opaque(2, encode_utf8(name), rest);
            lemma_tagged_text(2, name, rest);
        },
        NetMsgView::OpenResponse { handle } => {
            lemma_tagged_word(3, handle, rest);
        },
        NetMsgView::ReadRequest { handle, start, len } => {
            lemma_tagged_words(4, handle, start, len, rest);
        },
        NetMsgView::ReadResponse { data } => {
            lemma_tagged_opaque(5, data, rest);
        },
    }
}

/// Decoding the wire form of `m` alone gives `m` back.
pub proof fn lemma_round_trip(m: NetMsgView)
    requires
        encodable(m),
    ensures
        parse(wire_bytes(m)) == (Parsed::Done { value: m, next: wire_bytes(m).len() as int }),
{
    lemma_decode_encode(m, Seq::empty());
    assert(wire_bytes(m) + Seq::<u8>::empty() =~= wire_bytes(m));
}

/// Every wire form is that of one message only: two messages with the same
/// wire form are the same message.
pub proof fn lemma_wire_form_unique(m1: NetMsgView, m2: NetMsgView)
    requires
        encodable(m1),
        encodable(m2),
        wire_bytes(m1) == wire_bytes(m2),
    ensures
        m1 == m2,
{
    lemma_round_trip(m1);
    lemma_round_trip(m2);
}

/// Every proper beginning of a wire form is incomplete, never malformed and
/// never a message: the first `k` bytes of the wire form of `m`, for any `k`
/// short of its length, ask for more.
#[verifier::rlimit(50)]
pub proof fn lemma_prefix_incomplete(m: NetMsgView, k: int)
    requires
        encodable(m),
        0 <= k < wire_bytes(m).len(),
    ensures
        parse(wire_bytes(m).take(k)) == Parsed::<NetMsgView>::Incomplete,
{
    if k >= 4 {
        match m {
            NetMsgView::Hello { localhost } => {
                lemma_tagged_opaque(0, encode_utf8(localhost), Seq::empty());
                lemma_tagged_opaque_cut(0, encode_utf8(localhost), k);
            },
            NetMsgView::Message { text } => {
                lemma_tagged_opaque(1, encode_utf8(text), Seq::empty());
                lemma_tagged_opaque_cut(1, encode_utf8(text), k);
            },
            NetMsgView::OpenRequest { name } => {
                lemma_tagged_opaque(2, encode_utf8(name), Seq::empty());
                lemma_tagged_opaque_cut(2, encode_utf8(name), k);
            },
            NetMsgView::OpenResponse { handle } => {
                lemma_tagged_word(3, handle, Seq::empty());
                lemma_tagged_word_cut(3, handle, k);
            },
            NetMsgView::ReadRequest { handle, start, len } => {
                lemma_tagged_words(4, handle, start, len, Seq::empty());
                lemma_tagged_words_cut(4, handle, start, len, k);
            },
            NetMsgView::ReadResponse { data } => {
                lemma_tagged_opaque(5, data, Seq::empty());
                lemma_tagged_opaque_cut(5, data, k);
            },
        }
    }
}

/// An integer field that is whole in `b` reads the same with more behind `b`.
proof fn lemma_word_stable(b: Seq<u8>, rest: Seq<u8>, pos: int)
    requires
        0 <= pos,
        !(word_at(b, pos) is Incomplete),
    ensures
        word_at(b + rest, pos) == word_at(b, pos),
{
    let c = b + rest;
    assert(forall|i: int| 0 <= i < b.len() ==> c[i] == b[i]);
}

/// A variable-length field that is whole in `b` reads the same with more
/// behind `b`.
proof fn lemma_opaque_stable(b: Seq<u8>, rest: Seq<u8>, pos: int)
    requires
        0 <= pos,
        !(opaque_at(b, pos) is Incomplete),
    ensures
        opaque_at(b + rest, pos) == opaque_at(b, pos),
{
    let c = b + rest;
    assert(forall|i: int| 0 <= i < b.len() ==> c[i] == b[i]);
    let n = u32_at(b, pos) as int;
    assert(c.subrange(pos + 4, pos + 4 + n) =~= b.subrange(pos + 4, pos + 4 + n));
}

/// An outcome other than "incomplete" is final: where the bytes `b` hold a
/// whole message, or are malformed, they do so whatever arrives behind them.
/// Only a buffer that is incomplete can still become something else.
#[verifier::rlimit(50)]
pub proof fn lemma_outcome_final(b: Seq<u8>, rest: Seq<u8>)
    requires
        !(parse(b) is Incomplete),
    ensures
        parse(b + rest) == parse(b),
{
    let c = b + rest;
    assert(forall|i: int| 0 <= i < b.len() ==> c[i] == b[i]);
    let tag = u32_at(b, 0);
    assert(u32_at(c, 0) == tag);
    if tag == 0 || tag == 1 || tag == 2 || tag == 5 {
        lemma_opaque_stable(b, rest, 4);
    } else if tag == 3 {
        lemma_word_stable(b, rest, 4);
    } else if tag == 4 {
        lemma_word_stable(b, rest, 4);
        if word_at(b, 4) is Done {
            lemma_word_stable(b, rest, 12);
            if word_at(b, 12) is Done {
                lemma_word_stable(b, rest, 20);
            }
        }
        assert(read_request_at(c, 4) == read_request_at(b, 4));
    }
}

} // verus!
