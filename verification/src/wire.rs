//! The binary wire form of a message, laid out as XDR lays out a
//! discriminated union: a four-byte variant tag followed by the fields,
//! integers big-endian in eight bytes, text (as UTF-8) and data prefixed by
//! their length in four bytes and zero-padded to a multiple of four bytes.
//! The tag is the variant's place in `NetMsg`, counted from 0. A message
//! carries no length of its own: where it ends follows from its tag and its
//! fields' lengths.

use crate::message::{NetMsg, NetMsgView};
use vstd::prelude::*;
use vstd::slice::{slice_subrange, slice_to_vec};
use vstd::utf8::*;

verus! {

/// Why an encoding was refused.
#[derive(Debug, Clone, Copy, PartialEq, Eq)]
pub enum EncodeError {
    /// A text or data field is longer than a 32-bit length prefix can say.
    FieldTooLong,
}

/// Why no message came out of a buffer.
#[derive(Debug, Clone, Copy, PartialEq, Eq)]
pub enum DecodeError {
    /// The bytes so far are the beginning of a message, but not all of it.
    Incomplete,
    /// No message begins with these bytes, however many more follow.
    Malformed,
}

/// Largest byte length that a text or data field may have on the wire.
pub const MAX_FIELD_LEN: usize = 0xffff_ffff;

/// The four bytes of `x`, most significant first.
pub open spec fn be32(x: u32) -> Seq<u8> {
    seq![
        (x / 0x100_0000) as u8,
        (x / 0x1_0000 % 0x100) as u8,
        (x / 0x100 % 0x100) as u8,
        (x % 0x100) as u8,
    ]
}

/// The eight bytes of `x`, most significant first.
pub open spec fn be64(x: u64) -> Seq<u8> {
    be32((x / 0x1_0000_0000) as u32) + be32((x % 0x1_0000_0000) as u32)
}

/// Number of zero bytes that follow a field of `n` bytes.
pub open spec fn pad_len(n: int) -> int {
    (4 - n % 4) % 4
}

/// A variable-length field: its length, its bytes, then the padding.
pub open spec fn opaque(data: Seq<u8>) -> Seq<u8> {
    be32(data.len() as u32) + data + Seq::new(pad_len(data.len() as int) as nat, |i: int| 0u8)
}

/// Whether every variable-length field of `m` fits its length prefix.
pub open spec fn encodable(m: NetMsgView) -> bool {
    match m {
        NetMsgView::Hello { localhost } => encode_utf8(localhost).len() <= MAX_FIELD_LEN,
        NetMsgView::Message { text } => encode_utf8(text).len() <= MAX_FIELD_LEN,
        NetMsgView::OpenRequest { name } => encode_utf8(name).len() <= MAX_FIELD_LEN,
        NetMsgView::ReadResponse { data } => data.len() <= MAX_FIELD_LEN,
        _ => true,
    }
}

/// The wire form of `m`.
pub open spec fn wire_bytes(m: NetMsgView) -> Seq<u8> {
    match m {
        NetMsgView::Hello { localhost } => be32(0) + opaque(encode_utf8(localhost)),
        NetMsgView::Message { text } => be32(1) + opaque(encode_utf8(text)),
        NetMsgView::OpenRequest { name } => be32(2) + opaque(encode_utf8(name)),
        NetMsgView::OpenResponse { handle } => be32(3) + be64(handle as u64),
        NetMsgView::ReadRequest { handle, start, len } => be32(4) + be64(handle as u64) + be64(
            start as u64,
        ) + be64(len as u64),
        NetMsgView::ReadResponse { data } => be32(5) + opaque(data),
    }
}

/// Appends the four bytes of `x`.
fn put_u32(out: &mut Vec<u8>, x: u32)
    ensures
        final(out)@ == old(out)@ + be32(x),
{
    out.push((x / 0x100_0000) as u8);
    out.push((x / 0x1_0000 % 0x100) as u8);
    out.push((x / 0x100 % 0x100) as u8);
    out.push((x % 0x100) as u8);
    assert(out@ =~= old(out)@ + be32(x));
}

/// Appends the eight bytes of `x`.
fn put_u64(out: &mut Vec<u8>, x: u64)
    ensures
        final(out)@ == old(out)@ + be64(x),
{
    put_u32(out, (x / 0x1_0000_0000) as u32);
    put_u32(out, (x % 0x1_0000_0000) as u32);
    assert(out@ =~= old(out)@ + be64(x));
}

/// Appends `data` as a variable-length field.
fn put_opaque(out: &mut Vec<u8>, data: &[u8])
    requires
        data@.len() <= MAX_FIELD_LEN,
    ensures
        final(out)@ == old(out)@ + opaque(data@),
{
    let n: usize = data.len();
    put_u32(out, n as u32);
    out.extend_from_slice(data);
    let pad: usize = (4 - n % 4) % 4;
    let ghost body = out@;
    assert(body =~= old(out)@ + be32(n as u32) + data@);
    let mut i: usize = 0;
    while i < pad
        invariant
            i <= pad,
            pad == pad_len(n as int),
            out@ == body + Seq::new(i as nat, |k: int| 0u8),
        decreases pad - i,
    {
        out.push(0u8);
        i = i + 1;
        assert(out@ =~= body + Seq::new(i as nat, |k: int| 0u8));
    }
    assert(out@ =~= old(out)@ + opaque(data@));
}

/// Writes `msg` in its wire form, or refuses a field that is too long for it.
pub fn encode(msg: &NetMsg) -> (r: Result<Vec<u8>, EncodeError>)
    ensures
        r is Ok <==> encodable(msg@),
        r is Ok ==> r->Ok_0@ == wire_bytes(msg@),
        r is Err ==> r->Err_0 == EncodeError::FieldTooLong,
{
    let mut out: Vec<u8> = Vec::new();
    match msg {
        NetMsg::Hello { localhost } => {
            let raw = localhost.as_str().as_bytes();
            if raw.len() > MAX_FIELD_LEN {
                return Err(EncodeError::FieldTooLong);
            }
            put_u32(&mut out, 0);
            put_opaque(&mut out, raw);
        },
        NetMsg::Message { text } => {
            let raw = text.as_str().as_bytes();
            if raw.len() > MAX_FIELD_LEN {
                return Err(EncodeError::FieldTooLong);
            }
            put_u32(&mut out, 1);
            put_opaque(&mut out, raw);
        },
        NetMsg::OpenRequest { name } => {
            let raw = name.as_str().as_bytes();
            if raw.len() > MAX_FIELD_LEN {
                return Err(EncodeError::FieldTooLong);
            }
            put_u32(&mut out, 2);
            put_opaque(&mut out, raw);
        },
        NetMsg::OpenResponse { handle } => {
            put_u32(&mut out, 3);
            put_u64(&mut out, *handle as u64);
        },
        NetMsg::ReadRequest { handle, start, len } => {
            put_u32(&mut out, 4);
            put_u64(&mut out, *handle as u64);
            put_u64(&mut out, *start as u64);
            put_u64(&mut out, *len as u64);
        },
        NetMsg::ReadResponse { data } => {
            if data.len() > MAX_FIELD_LEN {
                return Err(EncodeError::FieldTooLong);
            }
            put_u32(&mut out, 5);
            put_opaque(&mut out, data.as_slice());
        },
    }
    assert(out@ =~= wire_bytes(msg@));
    Ok(out)
}

/// What reading a value at some position of a buffer comes to.
pub ghost enum Parsed<T> {
    /// The value stands there whole; `next` is the position behind it.
    Done { value: T, next: int },
    /// The buffer ends before the value does.
    Incomplete,
    /// What stands there is no such value.
    Malformed,
}

/// `p` with its value, if it has one, replaced by `f` of it.
pub open spec fn wrap<A, B>(p: Parsed<A>, f: spec_fn(A) -> B) -> Parsed<B> {
    match p {
        Parsed::Done { value, next } => Parsed::Done { value: f(value), next },
        Parsed::Incomplete => Parsed::Incomplete,
        Parsed::Malformed => Parsed::Malformed,
    }
}

/// The number whose four big-endian bytes stand at `pos`.
pub open spec fn u32_at(b: Seq<u8>, pos: int) -> u32 {
    (b[pos] as int * 0x100_0000 + b[pos + 1] as int * 0x1_0000 + b[pos + 2] as int * 0x100
        + b[pos + 3] as int) as u32
}

/// The number whose eight big-endian bytes stand at `pos`.
pub open spec fn u64_at(b: Seq<u8>, pos: int) -> u64 {
    (u32_at(b, pos) as int * 0x1_0000_0000 + u32_at(b, pos + 4) as int) as u64
}

/// An integer field at `pos`: eight bytes, refused where the number does not
/// fit this machine's word.
pub open spec fn word_at(b: Seq<u8>, pos: int) -> Parsed<usize> {
    if pos + 8 > b.len() {
        Parsed::Incomplete
    } else if u64_at(b, pos) > usize::MAX {
        Parsed::Malformed
    } else {
        Parsed::Done { value: u64_at(b, pos) as usize, next: pos + 8 }
    }
}

/// A variable-length field at `pos`. The padding only has to be there: what
/// it holds is not looked at.
pub open spec fn opaque_at(b: Seq<u8>, pos: int) -> Parsed<Seq<u8>> {
    if pos + 4 > b.len() {
        Parsed::Incomplete
    } else {
        let n = u32_at(b, pos) as int;
        if pos + 4 + n + pad_len(n) > b.len() {
            Parsed::Incomplete
        } else {
            Parsed::Done { value: b.subrange(pos + 4, pos + 4 + n), next: pos + 4 + n + pad_len(n) }
        }
    }
}

/// A text field at `pos`: a variable-length field that holds UTF-8.
pub open spec fn text_at(b: Seq<u8>, pos: int) -> Parsed<Seq<char>> {
    match opaque_at(b, pos) {
        Parsed::Done { value, next } => if valid_utf8(value) {
            Parsed::Done { value: decode_utf8(value), next }
        } else {
            Parsed::Malformed
        },
        Parsed::Incomplete => Parsed::Incomplete,
        Parsed::Malformed => Parsed::Malformed,
    }
}

/// The three integer fields of a read request, from `pos` on.
pub open spec fn read_request_at(b: Seq<u8>, pos: int) -> Parsed<NetMsgView> {
    match word_at(b, pos) {
        Parsed::Done { value: handle, next: _ } => match word_at(b, pos + 8) {
            Parsed::Done { value: start, next: _ } => wrap(
                word_at(b, pos + 16),
                |len: usize| NetMsgView::ReadRequest { handle, start, len },
            ),
            Parsed::Incomplete => Parsed::Incomplete,
            Parsed::Malformed => Parsed::Malformed,
        },
        Parsed::Incomplete => Parsed::Incomplete,
        Parsed::Malformed => Parsed::Malformed,
    }
}

/// The message that begins `b`, with the number of bytes it takes.
pub open spec fn parse(b: Seq<u8>) -> Parsed<NetMsgView> {
    if b.len() < 4 {
        Parsed::Incomplete
    } else {
        let tag = u32_at(b, 0);
        if tag == 0 {
            wrap(text_at(b, 4), |s: Seq<char>| NetMsgView::Hello { localhost: s })
        } else if tag == 1 {
            wrap(text_at(b, 4), |s: Seq<char>| NetMsgView::Message { text: s })
        } else if tag == 2 {
            wrap(text_at(b, 4), |s: Seq<char>| NetMsgView::OpenRequest { name: s })
        } else if tag == 3 {
            wrap(word_at(b, 4), |h: usize| NetMsgView::OpenResponse { handle: h })
        } else if tag == 4 {
            read_request_at(b, 4)
        } else if tag == 5 {
            wrap(opaque_at(b, 4), |d: Seq<u8>| NetMsgView::ReadResponse { data: d })
        } else {
            Parsed::Malformed
        }
    }
}

/// Whether the outcome `r` of a decoding says what `p` says.
pub open spec fn decoded_as(r: Result<(NetMsg, usize), DecodeError>, p: Parsed<NetMsgView>) -> bool {
    match p {
        Parsed::Done { value, next } => r is Ok && r->Ok_0.0@ == value && r->Ok_0.1 == next,
        Parsed::Incomplete => r == Err::<(NetMsg, usize), DecodeError>(DecodeError::Incomplete),
        Parsed::Malformed => r == Err::<(NetMsg, usize), DecodeError>(DecodeError::Malformed),
    }
}

/// `core::str::from_utf8`: the text that `raw` spells where it is well-formed
/// UTF-8, and nothing where it is not.
#[verifier::external_body]
fn utf8_text<'a>(raw: &'a [u8]) -> (r: Option<&'a str>)
    ensures
        r is Some <==> valid_utf8(raw@),
        r is Some ==> r->Some_0@ == decode_utf8(raw@),
{
    match core::str::from_utf8(raw) {
        Ok(s) => Some(s),
        Err(_) => None,
    }
}

/// Reads the four bytes at `pos` as a number.
fn get_u32(b: &[u8], pos: usize) -> (r: u32)
    requires
        pos + 4 <= b@.len(),
    ensures
        r == u32_at(b@, pos as int),
{
    let b0: u32 = b[pos] as u32;
    let b1: u32 = b[pos + 1] as u32;
    let b2: u32 = b[pos + 2] as u32;
    let b3: u32 = b[pos + 3] as u32;
    b0 * 0x100_0000 + b1 * 0x1_0000 + b2 * 0x100 + b3
}

/// Reads the eight bytes at `pos` as a number.
fn get_u64(b: &[u8], pos: usize) -> (r: u64)
    requires
        pos + 8 <= b@.len(),
        pos + 8 <= usize::MAX,
    ensures
        r == u64_at(b@, pos as int),
{
    let hi: u64 = get_u32(b, pos) as u64;
    let lo: u64 = get_u32(b, pos + 4) as u64;
    hi * 0x1_0000_0000 + lo
}

/// Reads the integer field at `pos`.
fn get_word(b: &[u8], pos: usize) -> (r: Result<usize, DecodeError>)
    requires
        pos <= b@.len(),
    ensures
        match word_at(b@, pos as int) {
            Parsed::Done { value, next } => r == Ok::<usize, DecodeError>(value),
            Parsed::Incomplete => r == Err::<usize, DecodeError>(DecodeError::Incomplete),
            Parsed::Malformed => r == Err::<usize, DecodeError>(DecodeError::Malformed),
        },
{
    if b.len() - pos < 8 {
        return Err(DecodeError::Incomplete);
    }
    let v: u64 = get_u64(b, pos);
    if v > usize::MAX as u64 {
        return Err(DecodeError::Malformed);
    }
    Ok(v as usize)
}

/// Reads the variable-length field at `pos` and says where it ends.
fn get_opaque<'a>(b: &'a [u8], pos: usize) -> (r: Result<(&'a [u8], usize), DecodeError>)
    requires
        pos <= b@.len(),
    ensures
        match opaque_at(b@, pos as int) {
            Parsed::Done { value, next } => r is Ok && r->Ok_0.0@ == value && r->Ok_0.1 == next,
            Parsed::Incomplete => r == Err::<(&[u8], usize), DecodeError>(DecodeError::Incomplete),
            Parsed::Malformed => false,
        },
{
    if b.len() - pos < 4 {
        return Err(DecodeError::Incomplete);
    }
    let n: usize = get_u32(b, pos) as usize;
    let room: usize = b.len() - pos - 4;
    let pad: usize = (4 - n % 4) % 4;
    if n > room || pad > room - n {
        return Err(DecodeError::Incomplete);
    }
    Ok((slice_subrange(b, pos + 4, pos + 4 + n), pos + 4 + n + pad))
}

/// Reads the text field at `pos` and says where it ends.
fn get_text(b: &[u8], pos: usize) -> (r: Result<(String, usize), DecodeError>)
    requires
        pos <= b@.len(),
    ensures
        match text_at(b@, pos as int) {
            Parsed::Done { value, next } => r is Ok && r->Ok_0.0@ == value && r->Ok_0.1 == next,
            Parsed::Incomplete => r == Err::<(String, usize), DecodeError>(DecodeError::Incomplete),
            Parsed::Malformed => r == Err::<(String, usize), DecodeError>(DecodeError::Malformed),
        },
{
    match get_opaque(b, pos) {
        Ok((raw, next)) => match utf8_text(raw) {
            Some(s) => Ok((s.to_owned(), next)),
            None => Err(DecodeError::Malformed),
        },
        Err(e) => Err(e),
    }
}

/// Reads the message at the beginning of `b` and says how many bytes it took.
/// Bytes behind the message are left alone. A buffer that ends too early is
/// told apart from one that no message begins with.
pub fn decode(b: &[u8]) -> (r: Result<(NetMsg, usize), DecodeError>)
    ensures
        decoded_as(r, parse(b@)),
{
    if b.len() < 4 {
        return Err(DecodeError::Incomplete);
    }
    let tag: u32 = get_u32(b, 0);
    if tag == 0 {
        match get_text(b, 4) {
            Ok((s, next)) => Ok((NetMsg::Hello { localhost: s }, next)),
            Err(e) => Err(e),
        }
    } else if tag == 1 {
        match get_text(b, 4) {
            Ok((s, next)) => Ok((NetMsg::Message { text: s }, next)),
            Err(e) => Err(e),
        }
    } else if tag == 2 {
        match get_text(b, 4) {
            Ok((s, next)) => Ok((NetMsg::OpenRequest { name: s }, next)),
            Err(e) => Err(e),
        }
    } else if tag == 3 {
        match get_word(b, 4) {
            Ok(handle) => Ok((NetMsg::OpenResponse { handle }, 12)),
            Err(e) => Err(e),
        }
    } else if tag == 4 {
        let handle: usize = match get_word(b, 4) {
            Ok(v) => v,
            Err(e) => { return Err(e); },
        };
        let start: usize = match get_word(b, 12) {
            Ok(v) => v,
            Err(e) => { return Err(e); },
        };
        let len: usize = match get_word(b, 20) {
            Ok(v) => v,
            Err(e) => { return Err(e); },
        };
        Ok((NetMsg::ReadRequest { handle, start, len }, 28))
    } else if tag == 5 {
        match get_opaque(b, 4) {
            Ok((raw, next)) => Ok((NetMsg::ReadResponse { data: slice_to_vec(raw) }, next)),
            Err(e) => Err(e),
        }
    } else {
        Err(DecodeError::Malformed)
    }
}

} // verus!
