//! The client's side of a copy: one open request, then read requests for one
//! chunk after another until an empty chunk comes back.

use crate::framing::joined;
use crate::message::{NetMsg, NetMsgView};
use vstd::prelude::*;

verus! {

/// Number of bytes asked for in each read request.
pub const CHUNK_SIZE: usize = 4000;

/// Where a copy stands.
#[derive(Debug, Clone, Copy, PartialEq, Eq, Structural)]
pub enum CopyState {
    /// The open request is out; its answer is awaited.
    AwaitOpen,
    /// The remote file is open under `handle`, `copied` bytes of it have been
    /// written, and a read request at that offset is out.
    Reading { handle: usize, copied: usize },
    /// The whole file has been copied.
    Done,
    /// The copy was given up; what was written stays.
    Failed,
}

/// What the client has to do about a response.
#[derive(Debug, PartialEq, Eq)]
pub enum CopyAction {
    /// Create the local file, or empty it, then send `request`.
    Create { request: NetMsg },
    /// Append `data` to the local file, then send `request`.
    Write { data: Vec<u8>, request: NetMsg },
    /// Nothing more: the copy is complete.
    Finish,
    /// Stop and report `reason`.
    Abort { reason: String },
}

/// The model of a `CopyAction`.
pub ghost enum CopyActionView {
    Create { request: NetMsgView },
    Write { data: Seq<u8>, request: NetMsgView },
    Finish,
    Abort { reason: Seq<char> },
}

impl View for CopyAction {
    type V = CopyActionView;

    open spec fn view(&self) -> CopyActionView {
        match *self {
            CopyAction::Create { request } => CopyActionView::Create { request: request@ },
            CopyAction::Write { data, request } => CopyActionView::Write {
                data: data@,
                request: request@,
            },
            CopyAction::Finish => CopyActionView::Finish,
            CopyAction::Abort { reason } => CopyActionView::Abort { reason: reason@ },
        }
    }
}

/// The model of an optional response.
pub open spec fn response_view(response: Option<NetMsg>) -> Option<NetMsgView> {
    match response {
        Some(m) => Some(m@),
        None => None,
    }
}

/// The request for the chunk at offset `copied`, with the server's handle.
pub open spec fn chunk_request(handle: usize, copied: usize) -> NetMsgView {
    NetMsgView::ReadRequest { handle, start: copied, len: CHUNK_SIZE }
}

/// What is reported when `response` is not the one awaited: the text of a
/// text message, and a fixed text for anything else.
pub open spec fn abort_reason(response: Option<NetMsgView>) -> Seq<char> {
    match response {
        Some(NetMsgView::Message { text }) => text,
        _ => "unexpected response"@,
    }
}

/// The copy's next state and action when `response` arrives in `state`;
/// `None` stands for a stream that ended or failed. While reading, data of
/// any length is written; only an offset that no longer fits a machine word
/// ends the copy.
pub open spec fn copy_step(state: CopyState, response: Option<NetMsgView>) -> (
    CopyState,
    CopyActionView,
) {
    match state {
        CopyState::AwaitOpen => match response {
            Some(NetMsgView::OpenResponse { handle }) => (
                CopyState::Reading { handle, copied: 0 },
                CopyActionView::Create { request: chunk_request(handle, 0) },
            ),
            _ => (CopyState::Failed, CopyActionView::Abort { reason: abort_reason(response) }),
        },
        CopyState::Reading { handle, copied } => match response {
            Some(NetMsgView::ReadResponse { data }) => if data.len() == 0 {
                (CopyState::Done, CopyActionView::Finish)
            } else if copied + data.len() <= usize::MAX {
                (
                    CopyState::Reading { handle, copied: (copied + data.len()) as usize },
                    CopyActionView::Write {
                        data,
                        request: chunk_request(handle, (copied + data.len()) as usize),
                    },
                )
            } else {
                (CopyState::Failed, CopyActionView::Abort { reason: "unexpected response"@ })
            },
            _ => (CopyState::Failed, CopyActionView::Abort { reason: abort_reason(response) }),
        },
        CopyState::Done => (CopyState::Done, CopyActionView::Finish),
        CopyState::Failed => (
            CopyState::Failed,
            CopyActionView::Abort { reason: "unexpected response"@ },
        ),
    }
}

/// The request that begins a copy of the remote file `remote`.
pub fn open_request(remote: String) -> (r: (CopyState, NetMsg))
    ensures
        r.0 == CopyState::AwaitOpen,
        r.1@ == (NetMsgView::OpenRequest { name: remote@ }),
{
    (CopyState::AwaitOpen, NetMsg::OpenRequest { name: remote })
}

/// The text to report for a response that was not awaited.
fn reason_of(response: Option<NetMsg>) -> (reason: String)
    ensures
        reason@ == abort_reason(response_view(response)),
{
    match response {
        Some(NetMsg::Message { text }) => text,
        _ => "unexpected response".to_owned(),
    }
}

impl CopyState {
    /// Takes in the response to the request that is out, or `None` where the
    /// stream ended or failed, and says what to do next.
    pub fn step(&mut self, response: Option<NetMsg>) -> (action: CopyAction)
        ensures
            (*final(self), action@) == copy_step(*old(self), response_view(response)),
    {
        match *self {
            CopyState::AwaitOpen => match response {
                Some(NetMsg::OpenResponse { handle }) => {
                    *self = CopyState::Reading { handle, copied: 0 };
                    CopyAction::Create {
                        request: NetMsg::ReadRequest { handle, start: 0, len: CHUNK_SIZE },
                    }
                },
                other => {
                    *self = CopyState::Failed;
                    CopyAction::Abort { reason: reason_of(other) }
                },
            },
            CopyState::Reading { handle, copied } => match response {
                Some(NetMsg::ReadResponse { data }) => {
                    let n: usize = data.len();
                    if n == 0 {
                        *self = CopyState::Done;
                        CopyAction::Finish
                    } else if copied <= usize::MAX - n {
                        let next: usize = copied + n;
                        *self = CopyState::Reading { handle, copied: next };
                        CopyAction::Write {
                            data,
                            request: NetMsg::ReadRequest { handle, start: next, len: CHUNK_SIZE },
                        }
                    } else {
                        *self = CopyState::Failed;
                        CopyAction::Abort { reason: "unexpected response".to_owned() }
                    }
                },
                other => {
                    *self = CopyState::Failed;
                    CopyAction::Abort { reason: reason_of(other) }
                },
            },
            CopyState::Done => CopyAction::Finish,
            CopyState::Failed => CopyAction::Abort { reason: "unexpected response".to_owned() },
        }
    }
}

/// Whether `data` is a true answer to a read request at offset `start` of a
/// file that holds `src`: the bytes that stand there, at least one and at
/// most a chunk of them, or none where `start` is at or behind the end.
pub open spec fn chunk_of(src: Seq<u8>, start: int, data: Seq<u8>) -> bool {
    if start >= src.len() {
        data.len() == 0
    } else {
        &&& 0 < data.len() <= CHUNK_SIZE
        &&& start + data.len() <= src.len()
        &&& data == src.subrange(start, start + data.len())
    }
}

/// Whether `chunks` are true answers to the read requests of a copy of `src`
/// that stands at offset `start`, one after another, up to the first empty
/// one.
pub open spec fn chunks_of(src: Seq<u8>, start: int, chunks: Seq<Seq<u8>>) -> bool
    decreases chunks.len(),
{
    &&& chunks.len() > 0
    &&& chunk_of(src, start, chunks[0])
    &&& if chunks[0].len() == 0 {
        chunks.len() == 1
    } else {
        chunks_of(src, start + chunks[0].len(), chunks.drop_first())
    }
}

/// The state that a copy ends in, and the bytes that it asks to have written,
/// when the read responses that carry `chunks` arrive one after another.
pub open spec fn copy_run(state: CopyState, chunks: Seq<Seq<u8>>) -> (CopyState, Seq<u8>)
    decreases chunks.len(),
{
    if chunks.len() == 0 {
        (state, Seq::empty())
    } else {
        let now = copy_step(state, Some(NetMsgView::ReadResponse { data: chunks[0] }));
        let wrote = match now.1 {
            CopyActionView::Write { data, request } => data,
            _ => Seq::empty(),
        };
        let later = copy_run(now.0, chunks.drop_first());
        (later.0, wrote + later.1)
    }
}

/// The number of read requests that a copy asks to have sent while the read
/// responses that carry `chunks` arrive one after another: one with every
/// write.
pub open spec fn requests_after(state: CopyState, chunks: Seq<Seq<u8>>) -> nat
    decreases chunks.len(),
{
    if chunks.len() == 0 {
        0
    } else {
        let now = copy_step(state, Some(NetMsgView::ReadResponse { data: chunks[0] }));
        let sent: nat = if now.1 is Write {
            1
        } else {
            0
        };
        sent + requests_after(now.0, chunks.drop_first())
    }
}

/// A copy goes on until the first empty chunk and no further: when every
/// chunk but the last holds data, of whatever length, and the last is empty,
/// the copy ends as done, what it asks to have written is the chunks put end
/// to end, and it asks for one more request with every chunk but the last.
/// With the request that the open response brought, as many read requests go
/// out as responses come in.
pub proof fn lemma_copy_until_empty(handle: usize, copied: usize, chunks: Seq<Seq<u8>>)
    requires
        chunks.len() > 0,
        forall|i: int| 0 <= i < chunks.len() - 1 ==> (#[trigger] chunks[i]).len() > 0,
        chunks[chunks.len() - 1].len() == 0,
        copied + joined(chunks).len() <= usize::MAX,
    ensures
        copy_run(CopyState::Reading { handle, copied }, chunks).0 == CopyState::Done,
        copy_run(CopyState::Reading { handle, copied }, chunks).1 == joined(chunks),
        requests_after(CopyState::Reading { handle, copied }, chunks) == chunks.len() - 1,
    decreases chunks.len(),
{
    let rest = chunks.drop_first();
    let start = CopyState::Reading { handle, copied };
    if chunks.len() == 1 {
        assert(rest.len() == 0);
        assert(joined(rest) =~= Seq::<u8>::empty());
        assert(copy_run(CopyState::Done, rest).1 =~= Seq::<u8>::empty());
        assert(copy_run(start, chunks).1 =~= joined(chunks));
        assert(requests_after(CopyState::Done, rest) == 0);
    } else {
        let n = chunks[0].len();
        let next = (copied + n) as usize;
        assert forall|i: int| 0 <= i < rest.len() - 1 implies (#[trigger] rest[i]).len() > 0 by {
            assert(rest[i] == chunks[i + 1]);
        }
        assert(rest[rest.len() - 1] == chunks[chunks.len() - 1]);
        lemma_copy_until_empty(handle, next, rest);
    }
}

/// A copy is exact: when a copy of a file that holds `src` stands at offset
/// `copied` and the server answers every read request truly, the copy ends as
/// done, and what it asks to have written is `src` from `copied` on. From
/// offset 0 that is all of `src`, whatever its length.
pub proof fn lemma_copy_exact(src: Seq<u8>, handle: usize, copied: usize, chunks: Seq<Seq<u8>>)
    requires
        copied <= src.len() <= usize::MAX,
        chunks_of(src, copied as int, chunks),
    ensures
        copy_run(CopyState::Reading { handle, copied }, chunks).0 == CopyState::Done,
        copy_run(CopyState::Reading { handle, copied }, chunks).1 == src.skip(copied as int),
    decreases chunks.len(),
{
    let rest = chunks.drop_first();
    let n = chunks[0].len();
    if n == 0 {
        assert(rest.len() == 0);
        assert(copy_run(CopyState::Done, rest).1 =~= Seq::<u8>::empty());
        assert(src.skip(copied as int) =~= Seq::<u8>::empty());
        assert(copy_run(CopyState::Reading { handle, copied }, chunks).1 =~= Seq::<u8>::empty());
    } else {
        let next = (copied + n) as usize;
        lemma_copy_exact(src, handle, next, rest);
        assert(chunks[0] + src.skip(next as int) =~= src.skip(copied as int));
    }
}

/// An empty chunk ends the copy: a read response without data, in whatever
/// state of reading it arrives, completes the copy, and a completed copy
/// stays so whatever arrives.
pub proof fn lemma_empty_chunk_ends(handle: usize, copied: usize, later: Option<NetMsgView>)
    ensures
        copy_step(
            CopyState::Reading { handle, copied },
            Some(NetMsgView::ReadResponse { data: Seq::empty() }),
        ) == (CopyState::Done, CopyActionView::Finish),
        copy_step(CopyState::Done, later) == (CopyState::Done, CopyActionView::Finish),
{
}

/// The handle is echoed: while a copy goes on, every request that it asks to
/// have sent is a read request for one chunk, under the handle that the open
/// response gave and at the offset that the copy has reached.
pub proof fn lemma_handle_echoed(state: CopyState, response: Option<NetMsgView>)
    ensures
        match copy_step(state, response) {
            (CopyState::Reading { handle, copied }, CopyActionView::Create { request }) => {
                &&& state == CopyState::AwaitOpen
                &&& response == Some(NetMsgView::OpenResponse { handle })
                &&& copied == 0
                &&& request == chunk_request(handle, copied)
            },
            (CopyState::Reading { handle, copied }, CopyActionView::Write { data, request }) => {
                &&& state matches CopyState::Reading { handle: h, copied: c }
                &&& h == handle
                &&& copied == c + data.len()
                &&& request == chunk_request(handle, copied)
            },
            (next, CopyActionView::Finish) => next == CopyState::Done,
            (next, CopyActionView::Abort { reason }) => next == CopyState::Failed,
            _ => false,
        },
{
}

} // verus!
