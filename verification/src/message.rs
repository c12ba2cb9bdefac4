//! The closed set of protocol messages and their mathematical model.

use vstd::prelude::*;

verus! {

/// One protocol message.
#[derive(Debug, Clone, PartialEq, Eq)]
pub enum NetMsg {
    /// Handshake greeting, carrying the sender's host name.
    Hello { localhost: String },
    /// Informational or error text, sent in either direction.
    Message { text: String },
    /// Request to open the named remote file for reading.
    OpenRequest { name: String },
    /// The handle under which the server holds the opened file.
    OpenResponse { handle: usize },
    /// Positional read of at most `len` bytes at offset `start`.
    ReadRequest { handle: usize, start: usize, len: usize },
    /// The bytes read; none at all signals end of file.
    ReadResponse { data: Vec<u8> },
}

/// What a `NetMsg` stands for: text as characters, data as bytes.
pub ghost enum NetMsgView {
    Hello { localhost: Seq<char> },
    Message { text: Seq<char> },
    OpenRequest { name: Seq<char> },
    OpenResponse { handle: usize },
    ReadRequest { handle: usize, start: usize, len: usize },
    ReadResponse { data: Seq<u8> },
}

impl View for NetMsg {
    type V = NetMsgView;

    open spec fn view(&self) -> NetMsgView {
        match *self {
            NetMsg::Hello { localhost } => NetMsgView::Hello { localhost: localhost@ },
            NetMsg::Message { text } => NetMsgView::Message { text: text@ },
            NetMsg::OpenRequest { name } => NetMsgView::OpenRequest { name: name@ },
            NetMsg::OpenResponse { handle } => NetMsgView::OpenResponse { handle },
            NetMsg::ReadRequest { handle, start, len } => NetMsgView::ReadRequest {
                handle,
                start,
                len,
            },
            NetMsg::ReadResponse { data } => NetMsgView::ReadResponse { data: data@ },
        }
    }
}

} // verus!
