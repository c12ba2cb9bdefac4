//! The server's side of a connection: at most one open file, and a reply for
//! every request.

use crate::message::{NetMsg, NetMsgView};
use vstd::prelude::*;
use vstd::string::StringExecFns;

verus! {

/// The handle under which a session holds its file.
pub const FILE_HANDLE: usize = 1;

/// What the server has to do about a request.
#[derive(Debug, PartialEq, Eq)]
pub enum ServerAction {
    /// Send this reply.
    Reply(NetMsg),
    /// Open the named file read-only and report the outcome to `opened`.
    OpenFile { name: String },
    /// Read at most `len` bytes of the session's file at offset `start`,
    /// leaving its cursor alone, and make the reply with `read_reply`.
    ReadFile { start: usize, len: usize },
}

/// The model of a `ServerAction`.
pub ghost enum ServerActionView {
    Reply(NetMsgView),
    OpenFile { name: Seq<char> },
    ReadFile { start: usize, len: usize },
}

impl View for ServerAction {
    type V = ServerActionView;

    open spec fn view(&self) -> ServerActionView {
        match *self {
            ServerAction::Reply(m) => ServerActionView::Reply(m@),
            ServerAction::OpenFile { name } => ServerActionView::OpenFile { name: name@ },
            ServerAction::ReadFile { start, len } => ServerActionView::ReadFile { start, len },
        }
    }
}

/// The action that a request calls for, in a session that holds a file
/// (`is_open`) or none. The handle of a read request is not looked at: the
/// session has one file at most.
pub open spec fn action_for(is_open: bool, msg: NetMsgView) -> ServerActionView {
    match msg {
        NetMsgView::Hello { localhost } => ServerActionView::Reply(
            NetMsgView::Message { text: "hello "@ + localhost },
        ),
        NetMsgView::OpenRequest { name } => ServerActionView::OpenFile { name },
        NetMsgView::ReadRequest { handle, start, len } => if is_open {
            ServerActionView::ReadFile { start, len }
        } else {
            ServerActionView::Reply(NetMsgView::Message { text: "file not open"@ })
        },
        _ => ServerActionView::Reply(NetMsgView::Message { text: "unsupported message"@ }),
    }
}

/// The reply to an open request, given how opening the file went: the handle,
/// or the error's text.
pub open spec fn open_reply<F>(outcome: Result<F, String>) -> NetMsgView {
    match outcome {
        Ok(_) => NetMsgView::OpenResponse { handle: FILE_HANDLE },
        Err(e) => NetMsgView::Message { text: "error opening: "@ + e@ },
    }
}

/// The file that a session holds after an open request: the new one, or on
/// failure the one it held before.
pub open spec fn file_after<F>(held: Option<F>, outcome: Result<F, String>) -> Option<F> {
    match outcome {
        Ok(f) => Some(f),
        Err(_) => held,
    }
}

/// The reply to a read request for `len` bytes, given how the read went: the
/// bytes read, never more than `len` of them, or the error's text.
pub open spec fn read_reply_for(outcome: Result<Vec<u8>, String>, len: usize) -> NetMsgView {
    match outcome {
        Ok(data) => NetMsgView::ReadResponse {
            data: if data@.len() <= len {
                data@
            } else {
                data@.take(len as int)
            },
        },
        Err(e) => NetMsgView::Message { text: "error reading, "@ + e@ },
    }
}

/// One connection's state on the server: the file it has open, if any. `F` is
/// whatever the caller opens files as.
pub struct ServerSession<F> {
    file: Option<F>,
}

impl<F> ServerSession<F> {
    /// The file held.
    pub closed spec fn held(&self) -> Option<F> {
        self.file
    }

    /// A session that holds no file.
    pub fn new() -> (s: Self)
        ensures
            s.held() is None,
    {
        ServerSession { file: None }
    }

    /// The file held, for reading.
    pub fn file(&self) -> (r: Option<&F>)
        ensures
            match r {
                Some(f) => self.held() == Some(*f),
                None => self.held() is None,
            },
    {
        self.file.as_ref()
    }

    /// Says what to do about the request `msg`. The session does not change.
    pub fn request(&self, msg: NetMsg) -> (a: ServerAction)
        ensures
            a@ == action_for(self.held() is Some, msg@),
    {
        match msg {
            NetMsg::Hello { localhost } => ServerAction::Reply(
                NetMsg::Message { text: "hello ".to_owned().concat(localhost.as_str()) },
            ),
            NetMsg::OpenRequest { name } => ServerAction::OpenFile { name },
            NetMsg::ReadRequest { handle, start, len } => {
                if self.file.is_some() {
                    ServerAction::ReadFile { start, len }
                } else {
                    ServerAction::Reply(NetMsg::Message { text: "file not open".to_owned() })
                }
            },
            _ => ServerAction::Reply(NetMsg::Message { text: "unsupported message".to_owned() }),
        }
    }

    /// Takes in the outcome of opening a file and makes the reply. A file that
    /// was opened takes the place of the one held before, which is dropped; a
    /// failure leaves the session as it was.
    pub fn opened(&mut self, outcome: Result<F, String>) -> (reply: NetMsg)
        ensures
            reply@ == open_reply(outcome),
            final(self).held() == file_after(old(self).held(), outcome),
    {
        match outcome {
            Ok(f) => {
                self.file = Some(f);
                NetMsg::OpenResponse { handle: FILE_HANDLE }
            },
            Err(e) => NetMsg::Message { text: "error opening: ".to_owned().concat(e.as_str()) },
        }
    }
}

/// Makes the reply to a read request for `len` bytes from the outcome of the
/// read. Bytes beyond the first `len` are cut off.
pub fn read_reply(outcome: Result<Vec<u8>, String>, len: usize) -> (reply: NetMsg)
    ensures
        reply@ == read_reply_for(outcome, len),
{
    match outcome {
        Ok(data) => {
            let mut data = data;
            if data.len() > len {
                data.truncate(len);
            }
            NetMsg::ReadResponse { data }
        },
        Err(e) => NetMsg::Message { text: "error reading, ".to_owned().concat(e.as_str()) },
    }
}

/// An open request that fails is answered with a text message, and a session
/// that held no file before it holds none after it: every read request is
/// then answered with "file not open".
pub proof fn lemma_failed_open<F>(outcome: Result<F, String>, handle: usize, start: usize, len: usize)
    requires
        outcome is Err,
    ensures
        open_reply(outcome) is Message,
        file_after(None::<F>, outcome) is None,
        action_for(
            file_after(None::<F>, outcome) is Some,
            NetMsgView::ReadRequest { handle, start, len },
        ) == ServerActionView::Reply(NetMsgView::Message { text: "file not open"@ }),
{
}

/// An open request that succeeds is answered with the session's handle, and
/// the session then holds the new file, whatever it held before: a read
/// request, whatever handle it names, is then passed on to that file.
pub proof fn lemma_opened_serves_reads<F>(
    held: Option<F>,
    outcome: Result<F, String>,
    handle: usize,
    start: usize,
    len: usize,
)
    requires
        outcome is Ok,
    ensures
        open_reply(outcome) == (NetMsgView::OpenResponse { handle: FILE_HANDLE }),
        file_after(held, outcome) == Some(outcome->Ok_0),
        action_for(
            file_after(held, outcome) is Some,
            NetMsgView::ReadRequest { handle, start, len },
        ) == (ServerActionView::ReadFile { start, len }),
{
}

/// A read response never carries more bytes than the request asked for,
/// however many the read handed over.
pub proof fn lemma_read_reply_bounded(outcome: Result<Vec<u8>, String>, len: usize)
    ensures
        match read_reply_for(outcome, len) {
            NetMsgView::ReadResponse { data } => data.len() <= len && (outcome is Ok),
            NetMsgView::Message { text } => outcome is Err,
            _ => false,
        },
{
}

} // verus!
