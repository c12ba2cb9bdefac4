//! Reassembly of one message from a byte stream that arrives in fragments of
//! any size.

use crate::message::{NetMsg, NetMsgView};
use crate::wire::{decode, encodable, parse, wire_bytes, DecodeError, Parsed};
use crate::wire_laws::{lemma_outcome_final, lemma_prefix_incomplete, lemma_round_trip};
use bytebuffer::ByteBuffer;
use vstd::prelude::*;

verus! {

/// `bytebuffer::ByteBuffer`, a growable byte buffer with read and write
/// cursors. It is carried as it is: what it holds is known through
/// `buffer_bytes` alone.
#[verifier::external_type_specification]
#[verifier::external_body]
pub struct ExByteBuffer(bytebuffer::ByteBuffer);

/// The bytes that a buffer holds, in the order in which they were written.
pub uninterp spec fn buffer_bytes(b: ByteBuffer) -> Seq<u8>;

/// Whether a buffer's write cursor stands right behind its last byte, with no
/// bit of an unfinished byte pending: the state in which a write appends.
pub uninterp spec fn buffer_appending(b: ByteBuffer) -> bool;

/// `ByteBuffer::new`: a buffer that holds nothing, its write cursor at 0.
#[verifier::external_body]
fn buffer_new() -> (b: ByteBuffer)
    ensures
        buffer_bytes(b) == Seq::<u8>::empty(),
        buffer_appending(b),
{
    ByteBuffer::new()
}

/// `ByteBuffer::write_bytes`: copies `chunk` to the write cursor and moves the
/// cursor behind it. With the cursor at the end that appends `chunk`; the sum
/// of the lengths must fit a `usize`, which the method computes unchecked.
#[verifier::external_body]
fn buffer_write(b: &mut ByteBuffer, chunk: &[u8])
    requires
        buffer_appending(*old(b)),
        buffer_bytes(*old(b)).len() + chunk@.len() <= usize::MAX,
    ensures
        buffer_bytes(*final(b)) == buffer_bytes(*old(b)) + chunk@,
        buffer_appending(*final(b)),
{
    b.write_bytes(chunk)
}

/// `ByteBuffer::as_bytes`: all the bytes that the buffer holds.
#[verifier::external_body]
fn buffer_as_bytes(b: &ByteBuffer) -> (r: &[u8])
    ensures
        r@ == buffer_bytes(*b),
{
    b.as_bytes()
}

/// What one arrival of bytes comes to.
#[derive(Debug, PartialEq, Eq)]
pub enum Received {
    /// The bytes held now begin with this whole message.
    Message(NetMsg),
    /// The bytes held now are the beginning of a message: read on.
    NeedMore,
    /// Nothing arrived: the peer has closed the stream.
    EndOfStream,
    /// No message begins with the bytes held now: the connection has failed.
    Malformed,
}

/// The model of a `Received`.
pub ghost enum ReceivedView {
    Message(NetMsgView),
    NeedMore,
    EndOfStream,
    Malformed,
}

impl View for Received {
    type V = ReceivedView;

    open spec fn view(&self) -> ReceivedView {
        match *self {
            Received::Message(m) => ReceivedView::Message(m@),
            Received::NeedMore => ReceivedView::NeedMore,
            Received::EndOfStream => ReceivedView::EndOfStream,
            Received::Malformed => ReceivedView::Malformed,
        }
    }
}

/// What the arrival of `chunk` comes to when `held` has arrived before it.
pub open spec fn received(held: Seq<u8>, chunk: Seq<u8>) -> ReceivedView {
    if chunk.len() == 0 {
        ReceivedView::EndOfStream
    } else {
        match parse(held + chunk) {
            Parsed::Done { value, next } => ReceivedView::Message(value),
            Parsed::Incomplete => ReceivedView::NeedMore,
            Parsed::Malformed => ReceivedView::Malformed,
        }
    }
}

/// The bytes of one message in the making: everything that has arrived since
/// the reader was made.
pub struct FrameReader {
    buf: ByteBuffer,
}

impl FrameReader {
    /// The bytes held.
    pub closed spec fn view(&self) -> Seq<u8> {
        buffer_bytes(self.buf)
    }

    /// Validity: what arrives next is appended to what is held.
    pub closed spec fn wf(&self) -> bool {
        buffer_appending(self.buf)
    }

    /// A reader that holds nothing yet.
    pub fn new() -> (r: FrameReader)
        ensures
            r.wf(),
            r@ == Seq::<u8>::empty(),
    {
        FrameReader { buf: buffer_new() }
    }

    /// Number of bytes held.
    pub fn len(&self) -> (n: usize)
        ensures
            n == self@.len(),
    {
        buffer_as_bytes(&self.buf).len()
    }

    /// Takes in the bytes of one read from the stream and says what they come
    /// to. An empty `chunk` is the end of the stream. Otherwise the bytes are
    /// appended to those held, and the whole is decoded from its beginning;
    /// bytes behind a whole message are held but not looked at.
    pub fn feed(&mut self, chunk: &[u8]) -> (r: Received)
        requires
            old(self).wf(),
            old(self)@.len() + chunk@.len() <= usize::MAX,
        ensures
            final(self).wf(),
            final(self)@ == old(self)@ + chunk@,
            r@ == received(old(self)@, chunk@),
    {
        if chunk.len() == 0 {
            assert(old(self)@ + chunk@ =~= old(self)@);
            return Received::EndOfStream;
        }
        buffer_write(&mut self.buf, chunk);
        match decode(buffer_as_bytes(&self.buf)) {
            Ok((msg, _)) => Received::Message(msg),
            Err(DecodeError::Incomplete) => Received::NeedMore,
            Err(DecodeError::Malformed) => Received::Malformed,
        }
    }
}

/// The chunks of `chunks` put end to end.
pub open spec fn joined(chunks: Seq<Seq<u8>>) -> Seq<u8>
    decreases chunks.len(),
{
    if chunks.len() == 0 {
        Seq::empty()
    } else {
        chunks[0] + joined(chunks.drop_first())
    }
}

/// What feeding `chunks` one after another comes to, for a reader that holds
/// `held`: the first outcome that does not ask for more.
pub open spec fn received_all(held: Seq<u8>, chunks: Seq<Seq<u8>>) -> ReceivedView
    decreases chunks.len(),
{
    if chunks.len() == 0 {
        ReceivedView::NeedMore
    } else {
        match received(held, chunks[0]) {
            ReceivedView::NeedMore => received_all(held + chunks[0], chunks.drop_first()),
            outcome => outcome,
        }
    }
}

/// Fragmentation does not matter: when the wire form of `m` arrives cut into
/// any number of non-empty chunks of any sizes, behind the part `held` of it
/// that has arrived already, every chunk but the last asks for more and the
/// last one gives `m`.
pub proof fn lemma_fragments(m: NetMsgView, held: Seq<u8>, chunks: Seq<Seq<u8>>)
    requires
        encodable(m),
        chunks.len() > 0,
        forall|i: int| 0 <= i < chunks.len() ==> (#[trigger] chunks[i]).len() > 0,
        held + joined(chunks) == wire_bytes(m),
    ensures
        received_all(held, chunks) == ReceivedView::Message(m),
    decreases chunks.len(),
{
    let rest = chunks.drop_first();
    let now = held + chunks[0];
    if rest.len() == 0 {
        assert(joined(rest) =~= Seq::<u8>::empty());
        assert(now =~= wire_bytes(m));
        lemma_round_trip(m);
    } else {
        assert(rest[0] == chunks[1]);
        assert(joined(rest).len() >= rest[0].len());
        assert(now + joined(rest) =~= wire_bytes(m));
        assert(now =~= wire_bytes(m).take(now.len() as int));
        lemma_prefix_incomplete(m, now.len() as int);
        assert forall|i: int| 0 <= i < rest.len() implies (#[trigger] rest[i]).len() > 0 by {
            assert(rest[i] == chunks[i + 1]);
        }
        lemma_fragments(m, now, rest);
    }
}

/// Fed whole to a reader that holds nothing, the wire form of `m` gives `m`.
pub proof fn lemma_whole(m: NetMsgView)
    requires
        encodable(m),
    ensures
        received(Seq::empty(), wire_bytes(m)) == ReceivedView::Message(m),
{
    lemma_round_trip(m);
    assert(Seq::<u8>::empty() + wire_bytes(m) =~= wire_bytes(m));
    assert(wire_bytes(m).len() >= 4);
}

/// A reader that has given a message, or has found its bytes malformed, says
/// the same of whatever arrives later: only "need more" can change.
pub proof fn lemma_received_final(held: Seq<u8>, chunk: Seq<u8>, more: Seq<u8>)
    requires
        chunk.len() > 0,
        more.len() > 0,
        !(received(held, chunk) is NeedMore),
    ensures
        received(held + chunk, more) == received(held, chunk),
{
    lemma_outcome_final(held + chunk, more);
}

} // verus!
