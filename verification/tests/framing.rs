use rfs::framing::{FrameReader, Received};
use rfs::message::NetMsg;
use rfs::wire::encode;

fn feed_in_pieces(bytes: &[u8], piece: usize) -> Received {
    let mut reader = FrameReader::new();
    let mut fed = 0;
    for chunk in bytes.chunks(piece) {
        fed += chunk.len();
        match reader.feed(chunk) {
            Received::NeedMore => {
                assert!(fed < bytes.len());
                assert_eq!(reader.len(), fed);
            }
            other => {
                assert_eq!(fed, bytes.len());
                return other;
            }
        }
    }
    Received::NeedMore
}

#[test]
fn whole_message_in_one_read() {
    let msg = NetMsg::OpenRequest { name: "demo.bin".to_string() };
    let bytes = encode(&msg).unwrap();
    let mut reader = FrameReader::new();
    assert_eq!(reader.len(), 0);
    assert_eq!(reader.feed(&bytes), Received::Message(msg));
    assert_eq!(reader.len(), bytes.len());
}

#[test]
fn one_byte_at_a_time() {
    let msg = NetMsg::ReadResponse { data: (0..=255u8).collect() };
    let bytes = encode(&msg).unwrap();
    assert_eq!(feed_in_pieces(&bytes, 1), Received::Message(msg));
}

#[test]
fn any_piece_size_gives_the_same_message() {
    let msgs = vec![
        NetMsg::Hello { localhost: "localhost".to_string() },
        NetMsg::Message { text: "error reading, file not open.".to_string() },
        NetMsg::OpenResponse { handle: 1 },
        NetMsg::ReadRequest { handle: 1, start: 8000, len: 4000 },
        NetMsg::ReadResponse { data: vec![3; 4000] },
    ];
    for msg in msgs {
        let bytes = encode(&msg).unwrap();
        for piece in [1usize, 2, 3, 4, 5, 7, 8, 13, 1000, 5000] {
            assert_eq!(feed_in_pieces(&bytes, piece), Received::Message(msg.clone()));
        }
    }
}

#[test]
fn nothing_read_is_end_of_stream() {
    let mut reader = FrameReader::new();
    assert_eq!(reader.feed(&[]), Received::EndOfStream);
    assert_eq!(reader.feed(&[0, 0]), Received::NeedMore);
    assert_eq!(reader.feed(&[]), Received::EndOfStream);
    assert_eq!(reader.len(), 2);
}

#[test]
fn corrupt_stream_is_not_a_wait() {
    let mut reader = FrameReader::new();
    assert_eq!(reader.feed(&[0, 0]), Received::NeedMore);
    assert_eq!(reader.feed(&[0, 9]), Received::Malformed);
}

#[test]
fn chunks_are_appended_in_order() {
    let mut reader = FrameReader::new();
    assert_eq!(reader.feed(&[0, 0, 0, 5, 0, 0]), Received::NeedMore);
    assert_eq!(reader.feed(&[0, 3, 10, 20]), Received::NeedMore);
    assert_eq!(
        reader.feed(&[30, 0]),
        Received::Message(NetMsg::ReadResponse { data: vec![10, 20, 30] })
    );
}

#[test]
fn malformed_stays_malformed() {
    let mut reader = FrameReader::new();
    assert_eq!(reader.feed(&[0, 0, 0, 7]), Received::Malformed);
    assert_eq!(reader.feed(&[0, 0, 0, 1]), Received::Malformed);
    assert_eq!(reader.feed(&[0]), Received::Malformed);
}

#[test]
fn a_message_stays_the_message() {
    let msg = NetMsg::OpenResponse { handle: 1 };
    let mut reader = FrameReader::new();
    assert_eq!(reader.feed(&encode(&msg).unwrap()), Received::Message(msg.clone()));
    assert_eq!(reader.feed(&[9, 9, 9]), Received::Message(msg));
}
