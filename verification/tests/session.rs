use rfs::message::NetMsg;
use rfs::server::{read_reply, ServerAction, ServerSession, FILE_HANDLE};

fn text(s: &str) -> NetMsg {
    NetMsg::Message { text: s.to_string() }
}

#[test]
fn hello_is_greeted() {
    let session: ServerSession<u8> = ServerSession::new();
    assert_eq!(
        session.request(NetMsg::Hello { localhost: "localhost".to_string() }),
        ServerAction::Reply(text("hello localhost"))
    );
}

#[test]
fn open_request_asks_for_the_file() {
    let session: ServerSession<u8> = ServerSession::new();
    assert_eq!(
        session.request(NetMsg::OpenRequest { name: "demo.bin".to_string() }),
        ServerAction::OpenFile { name: "demo.bin".to_string() }
    );
}

#[test]
fn read_without_a_file_is_refused() {
    let session: ServerSession<u8> = ServerSession::new();
    assert!(session.file().is_none());
    assert_eq!(
        session.request(NetMsg::ReadRequest { handle: 1, start: 0, len: 4000 }),
        ServerAction::Reply(text("file not open"))
    );
}

#[test]
fn open_success_gives_handle_one() {
    let mut session: ServerSession<&str> = ServerSession::new();
    assert_eq!(FILE_HANDLE, 1);
    assert_eq!(session.opened(Ok("first")), NetMsg::OpenResponse { handle: 1 });
    assert_eq!(session.file(), Some(&"first"));
    assert_eq!(
        session.request(NetMsg::ReadRequest { handle: 1, start: 12, len: 34 }),
        ServerAction::ReadFile { start: 12, len: 34 }
    );
}

#[test]
fn read_does_not_check_the_handle() {
    let mut session: ServerSession<&str> = ServerSession::new();
    session.opened(Ok("first"));
    assert_eq!(
        session.request(NetMsg::ReadRequest { handle: 77, start: 5, len: 6 }),
        ServerAction::ReadFile { start: 5, len: 6 }
    );
}

#[test]
fn open_failure_is_a_message_and_reads_stay_refused() {
    let mut session: ServerSession<&str> = ServerSession::new();
    assert_eq!(
        session.opened(Err("No such file or directory (os error 2)".to_string())),
        text("error opening: No such file or directory (os error 2)")
    );
    assert!(session.file().is_none());
    for start in [0usize, 1, 4000] {
        assert_eq!(
            session.request(NetMsg::ReadRequest { handle: 1, start, len: 4000 }),
            ServerAction::Reply(text("file not open"))
        );
    }
    assert_eq!(session.opened(Ok("now")), NetMsg::OpenResponse { handle: 1 });
    assert_eq!(
        session.request(NetMsg::ReadRequest { handle: 1, start: 0, len: 4000 }),
        ServerAction::ReadFile { start: 0, len: 4000 }
    );
}

#[test]
fn second_open_replaces_the_file() {
    let mut session: ServerSession<&str> = ServerSession::new();
    session.opened(Ok("first"));
    session.opened(Ok("second"));
    assert_eq!(session.file(), Some(&"second"));
}

#[test]
fn failed_open_keeps_the_file_held() {
    let mut session: ServerSession<&str> = ServerSession::new();
    session.opened(Ok("first"));
    assert_eq!(session.opened(Err("denied".to_string())), text("error opening: denied"));
    assert_eq!(session.file(), Some(&"first"));
}

#[test]
fn other_messages_are_unsupported() {
    let mut session: ServerSession<&str> = ServerSession::new();
    let others = vec![
        text("hi"),
        NetMsg::OpenResponse { handle: 1 },
        NetMsg::ReadResponse { data: vec![1] },
    ];
    for msg in others.clone() {
        assert_eq!(session.request(msg), ServerAction::Reply(text("unsupported message")));
    }
    session.opened(Ok("first"));
    for msg in others {
        assert_eq!(session.request(msg), ServerAction::Reply(text("unsupported message")));
    }
}

#[test]
fn read_reply_carries_the_bytes() {
    assert_eq!(read_reply(Ok(vec![1, 2, 3]), 4000), NetMsg::ReadResponse { data: vec![1, 2, 3] });
    assert_eq!(read_reply(Ok(vec![1, 2, 3]), 3), NetMsg::ReadResponse { data: vec![1, 2, 3] });
    assert_eq!(read_reply(Ok(vec![]), 4000), NetMsg::ReadResponse { data: vec![] });
}

#[test]
fn read_reply_never_exceeds_the_request() {
    assert_eq!(read_reply(Ok(vec![1, 2, 3]), 2), NetMsg::ReadResponse { data: vec![1, 2] });
    assert_eq!(read_reply(Ok(vec![1, 2, 3]), 0), NetMsg::ReadResponse { data: vec![] });
}

#[test]
fn read_failure_is_a_message() {
    assert_eq!(read_reply(Err("broken".to_string()), 10), text("error reading, broken"));
}
