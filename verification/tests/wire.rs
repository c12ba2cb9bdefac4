use rfs::message::NetMsg;
use rfs::wire::{decode, encode, DecodeError};
use serde::ser::{Serialize, SerializeStructVariant, Serializer};

fn samples() -> Vec<NetMsg> {
    vec![
        NetMsg::Hello { localhost: "localhost".to_string() },
        NetMsg::Hello { localhost: String::new() },
        NetMsg::Message { text: "hi".to_string() },
        NetMsg::Message { text: "error opening: gr\u{fc}\u{df}e \u{1f600}".to_string() },
        NetMsg::OpenRequest { name: "demo.bin".to_string() },
        NetMsg::OpenRequest { name: "a".to_string() },
        NetMsg::OpenResponse { handle: 1 },
        NetMsg::OpenResponse { handle: usize::MAX },
        NetMsg::ReadRequest { handle: 1, start: 4000, len: 4000 },
        NetMsg::ReadRequest { handle: 0, start: 0, len: 0 },
        NetMsg::ReadResponse { data: vec![] },
        NetMsg::ReadResponse { data: vec![1, 2, 3, 4, 5] },
        NetMsg::ReadResponse { data: vec![0xff; 4000] },
    ]
}

/// The same messages as `NetMsg`, serialised field by field through serde.
struct Mirror<'a>(&'a NetMsg);

impl<'a> Serialize for Mirror<'a> {
    fn serialize<S: Serializer>(&self, s: S) -> Result<S::Ok, S::Error> {
        match self.0 {
            NetMsg::Hello { localhost } => {
                let mut v = s.serialize_struct_variant("NetMsg", 0, "Hello", 1)?;
                v.serialize_field("localhost", localhost)?;
                v.end()
            }
            NetMsg::Message { text } => {
                let mut v = s.serialize_struct_variant("NetMsg", 1, "Message", 1)?;
                v.serialize_field("text", text)?;
                v.end()
            }
            NetMsg::OpenRequest { name } => {
                let mut v = s.serialize_struct_variant("NetMsg", 2, "OpenRequest", 1)?;
                v.serialize_field("name", name)?;
                v.end()
            }
            NetMsg::OpenResponse { handle } => {
                let mut v = s.serialize_struct_variant("NetMsg", 3, "OpenResponse", 1)?;
                v.serialize_field("handle", handle)?;
                v.end()
            }
            NetMsg::ReadRequest { handle, start, len } => {
                let mut v = s.serialize_struct_variant("NetMsg", 4, "ReadRequest", 3)?;
                v.serialize_field("handle", handle)?;
                v.serialize_field("start", start)?;
                v.serialize_field("len", len)?;
                v.end()
            }
            NetMsg::ReadResponse { data } => {
                let mut v = s.serialize_struct_variant("NetMsg", 5, "ReadResponse", 1)?;
                v.serialize_field("data", serde_bytes::Bytes::new(data))?;
                v.end()
            }
        }
    }
}

#[test]
fn encode_hello_exact_bytes() {
    let bytes = encode(&NetMsg::Hello { localhost: "localhost".to_string() }).unwrap();
    let mut expected = vec![0, 0, 0, 0, 0, 0, 0, 9];
    expected.extend_from_slice(b"localhost");
    expected.extend_from_slice(&[0, 0, 0]);
    assert_eq!(bytes, expected);
}

#[test]
fn encode_message_exact_bytes() {
    let bytes = encode(&NetMsg::Message { text: "hi".to_string() }).unwrap();
    assert_eq!(bytes, vec![0, 0, 0, 1, 0, 0, 0, 2, b'h', b'i', 0, 0]);
}

#[test]
fn encode_open_request_exact_bytes() {
    let bytes = encode(&NetMsg::OpenRequest { name: "demo.bin".to_string() }).unwrap();
    let mut expected = vec![0, 0, 0, 2, 0, 0, 0, 8];
    expected.extend_from_slice(b"demo.bin");
    assert_eq!(bytes, expected);
}

#[test]
fn encode_open_response_exact_bytes() {
    let bytes = encode(&NetMsg::OpenResponse { handle: 1 }).unwrap();
    assert_eq!(bytes, vec![0, 0, 0, 3, 0, 0, 0, 0, 0, 0, 0, 1]);
}

#[test]
fn encode_read_request_exact_bytes() {
    let bytes = encode(&NetMsg::ReadRequest { handle: 1, start: 0x0102_0304, len: 4000 }).unwrap();
    assert_eq!(
        bytes,
        vec![
            0, 0, 0, 4, 0, 0, 0, 0, 0, 0, 0, 1, 0, 0, 0, 0, 1, 2, 3, 4, 0, 0, 0, 0, 0, 0, 0x0f,
            0xa0
        ]
    );
}

#[test]
fn encode_read_response_exact_bytes() {
    let bytes = encode(&NetMsg::ReadResponse { data: vec![1, 2, 3, 4, 5] }).unwrap();
    assert_eq!(bytes, vec![0, 0, 0, 5, 0, 0, 0, 5, 1, 2, 3, 4, 5, 0, 0, 0]);
}

#[test]
fn padding_fills_to_a_multiple_of_four() {
    for n in 0..9usize {
        let bytes = encode(&NetMsg::ReadResponse { data: vec![7; n] }).unwrap();
        assert_eq!(bytes.len() % 4, 0);
        assert_eq!(bytes.len(), 8 + (n + 3) / 4 * 4);
        assert!(bytes[8 + n..].iter().all(|b| *b == 0));
    }
}

#[test]
fn decode_gives_back_every_message() {
    for msg in samples() {
        let bytes = encode(&msg).unwrap();
        assert_eq!(decode(&bytes), Ok((msg, bytes.len())));
    }
}

#[test]
fn decode_leaves_trailing_bytes_alone() {
    for msg in samples() {
        let mut bytes = encode(&msg).unwrap();
        let used = bytes.len();
        bytes.extend_from_slice(&[9, 9, 9, 9, 9]);
        assert_eq!(decode(&bytes), Ok((msg, used)));
    }
}

#[test]
fn every_proper_prefix_is_incomplete() {
    for msg in samples() {
        let bytes = encode(&msg).unwrap();
        for k in 0..bytes.len() {
            assert_eq!(decode(&bytes[..k]), Err(DecodeError::Incomplete));
        }
    }
}

#[test]
fn decode_empty_is_incomplete() {
    assert_eq!(decode(&[]), Err(DecodeError::Incomplete));
}

#[test]
fn decode_unknown_tag_is_malformed() {
    assert_eq!(decode(&[0, 0, 0, 6]), Err(DecodeError::Malformed));
    assert_eq!(decode(&[1, 0, 0, 0, 0, 0, 0, 0]), Err(DecodeError::Malformed));
    assert_eq!(decode(&[0xff, 0xff, 0xff, 0xff]), Err(DecodeError::Malformed));
}

#[test]
fn decode_bad_text_is_malformed() {
    assert_eq!(decode(&[0, 0, 0, 1, 0, 0, 0, 2, 0xc3, 0x28, 0, 0]), Err(DecodeError::Malformed));
    assert_eq!(decode(&[0, 0, 0, 0, 0, 0, 0, 1, 0x80, 0, 0, 0]), Err(DecodeError::Malformed));
}

#[test]
fn decode_bad_text_waits_for_its_end() {
    assert_eq!(decode(&[0, 0, 0, 1, 0, 0, 0, 2, 0xc3, 0x28, 0]), Err(DecodeError::Incomplete));
}

#[test]
fn decode_does_not_look_at_padding() {
    assert_eq!(
        decode(&[0, 0, 0, 5, 0, 0, 0, 1, 42, 1, 2, 3]),
        Ok((NetMsg::ReadResponse { data: vec![42] }, 12))
    );
}

#[test]
fn decode_reads_data_as_bytes_not_text() {
    assert_eq!(
        decode(&[0, 0, 0, 5, 0, 0, 0, 2, 0xc3, 0x28, 0, 0]),
        Ok((NetMsg::ReadResponse { data: vec![0xc3, 0x28] }, 12))
    );
}

#[test]
fn decode_big_endian_integers() {
    let bytes = [0, 0, 0, 3, 0, 0, 0, 0, 0x12, 0x34, 0x56, 0x78];
    assert_eq!(decode(&bytes), Ok((NetMsg::OpenResponse { handle: 0x1234_5678 }, 12)));
}

#[test]
fn wire_form_is_what_serde_xdr_writes() {
    for msg in samples() {
        if let Ok(theirs) = serde_xdr::to_bytes(&Mirror(&msg)) {
            assert_eq!(encode(&msg).unwrap(), theirs);
        } else {
            let text = match &msg {
                NetMsg::Hello { localhost } => localhost,
                NetMsg::Message { text } => text,
                NetMsg::OpenRequest { name } => name,
                _ => panic!("refused without a text field"),
            };
            assert!(!text.is_ascii());
        }
    }
}

#[test]
fn fields_read_as_serde_xdr_reads_them() {
    let bytes = encode(&NetMsg::Message { text: "hello world".to_string() }).unwrap();
    let text: String = serde_xdr::from_bytes(&bytes[4..]).unwrap();
    assert_eq!(text, "hello world");
    let bytes = encode(&NetMsg::ReadRequest { handle: 3, start: 70000, len: 4000 }).unwrap();
    let fields: (u64, u64, u64) = serde_xdr::from_bytes(&bytes[4..]).unwrap();
    assert_eq!(fields, (3, 70000, 4000));
    let tag: u32 = serde_xdr::from_bytes(&bytes[..4]).unwrap();
    assert_eq!(tag, 4);
}

#[test]
fn malformed_is_final_whatever_follows() {
    let bad: Vec<Vec<u8>> = vec![
        vec![0, 0, 0, 6],
        vec![0, 0, 0, 1, 0, 0, 0, 2, 0xc3, 0x28, 0, 0],
    ];
    for mut bytes in bad {
        for extra in 0..40u8 {
            assert_eq!(decode(&bytes), Err(DecodeError::Malformed));
            bytes.push(extra);
        }
    }
}
