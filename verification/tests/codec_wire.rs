use msgpack_endpoint::codec::{decode_value, encode_value_vec, Decoded};
use msgpack_endpoint::message::{encode_message, Message};
use msgpack_endpoint::value::Value;

fn roundtrip(v: Value) {
    let bytes = encode_value_vec(&v);
    let original = encode_value_vec(&v);
    match decode_value(&bytes, 0) {
        Decoded::Done(back, end) => {
            assert_eq!(end, bytes.len());
            assert_eq!(encode_value_vec(&back), original);
        },
        _ => panic!("decode failed on encoder output"),
    }
}

#[test]
fn roundtrip_scalars() {
    roundtrip(Value::Nil);
    roundtrip(Value::Bool(true));
    roundtrip(Value::Bool(false));
    roundtrip(Value::Int(0));
    roundtrip(Value::Int(5));
    roundtrip(Value::Int(-1));
    roundtrip(Value::Int(i64::MAX));
    roundtrip(Value::Int(i64::MIN));
}

#[test]
fn roundtrip_strings_and_binary() {
    roundtrip(Value::Str(b"add".to_vec()));
    roundtrip(Value::Str(Vec::new()));
    roundtrip(Value::Bin(vec![0, 1, 2, 255]));
}

#[test]
fn roundtrip_nested() {
    let v = Value::Array(vec![
        Value::Int(2),
        Value::Array(vec![Value::Str(b"hi".to_vec()), Value::Nil]),
        Value::Dict(vec![
            (Value::Str(b"k".to_vec()), Value::Int(7)),
            (Value::Str(b"k".to_vec()), Value::Bool(false)),
        ]),
    ]);
    roundtrip(v);
}

#[test]
fn int_wire_bytes_exact() {
    let bytes = encode_value_vec(&Value::Int(5));
    assert_eq!(bytes, vec![0xd3, 0, 0, 0, 0, 0, 0, 0, 5]);
    let neg = encode_value_vec(&Value::Int(-1));
    assert_eq!(neg, vec![0xd3, 0xff, 0xff, 0xff, 0xff, 0xff, 0xff, 0xff, 0xff]);
}

#[test]
fn str_wire_bytes_exact() {
    let bytes = encode_value_vec(&Value::Str(b"ab".to_vec()));
    assert_eq!(bytes, vec![0xdb, 0, 0, 0, 2, 0x61, 0x62]);
}

#[test]
fn array_wire_bytes_exact() {
    let bytes = encode_value_vec(&Value::Array(vec![Value::Int(2), Value::Int(3)]));
    let mut expect = vec![0xdd, 0, 0, 0, 2];
    expect.extend([0xd3, 0, 0, 0, 0, 0, 0, 0, 2]);
    expect.extend([0xd3, 0, 0, 0, 0, 0, 0, 0, 3]);
    assert_eq!(bytes, expect);
}

#[test]
fn truncated_input_wants_more() {
    let bytes = encode_value_vec(&Value::Str(b"hello".to_vec()));
    for cut in 0..bytes.len() {
        let partial: Vec<u8> = bytes[..cut].to_vec();
        match decode_value(&partial, 0) {
            Decoded::Truncated => {},
            _ => panic!("a strict prefix must read as truncated"),
        }
    }
}

#[test]
fn unknown_tag_is_malformed() {
    let bytes = vec![0x00];
    match decode_value(&bytes, 0) {
        Decoded::Malformed => {},
        _ => panic!("an unknown leading byte must be malformed"),
    }
}

#[test]
fn trailing_bytes_left_untouched() {
    let mut bytes = encode_value_vec(&Value::Bool(true));
    let one = bytes.len();
    bytes.push(0xc0);
    match decode_value(&bytes, 0) {
        Decoded::Done(_, end) => assert_eq!(end, one),
        _ => panic!("decode must stop at the first value"),
    }
}

#[test]
fn message_roundtrip_request() {
    let m = Message::Request {
        id: 1,
        method: b"add".to_vec(),
        params: Value::Array(vec![Value::Int(2), Value::Int(3)]),
    };
    let bytes = encode_message(&m);
    match decode_value(&bytes, 0) {
        Decoded::Done(v, end) => {
            assert_eq!(end, bytes.len());
            match msgpack_endpoint::message::value_to_message(v) {
                Some(Message::Request { id, method, params }) => {
                    assert_eq!(id, 1);
                    assert_eq!(method, b"add".to_vec());
                    assert_eq!(
                        encode_value_vec(&params),
                        encode_value_vec(&Value::Array(vec![Value::Int(2), Value::Int(3)])),
                    );
                },
                _ => panic!("wrong message shape"),
            }
        },
        _ => panic!("decode failed"),
    }
}

#[test]
fn message_roundtrip_response_and_notification() {
    let ok = Message::Response { id: 7, outcome: Ok(Value::Int(5)) };
    let bytes = encode_message(&ok);
    match decode_value(&bytes, 0) {
        Decoded::Done(v, _) => match msgpack_endpoint::message::value_to_message(v) {
            Some(Message::Response { id, outcome: Ok(Value::Int(5)) }) => assert_eq!(id, 7),
            _ => panic!("wrong response shape"),
        },
        _ => panic!("decode failed"),
    }
    let err = Message::Response { id: 8, outcome: Err(Value::Str(b"boom".to_vec())) };
    let bytes = encode_message(&err);
    match decode_value(&bytes, 0) {
        Decoded::Done(v, _) => match msgpack_endpoint::message::value_to_message(v) {
            Some(Message::Response { id, outcome: Err(Value::Str(s)) }) => {
                assert_eq!(id, 8);
                assert_eq!(s, b"boom".to_vec());
            },
            _ => panic!("wrong response shape"),
        },
        _ => panic!("decode failed"),
    }
    let note = Message::Notification { method: b"log".to_vec(), params: Value::Nil };
    let bytes = encode_message(&note);
    match decode_value(&bytes, 0) {
        Decoded::Done(v, _) => match msgpack_endpoint::message::value_to_message(v) {
            Some(Message::Notification { method, params: Value::Nil }) => {
                assert_eq!(method, b"log".to_vec());
            },
            _ => panic!("wrong notification shape"),
        },
        _ => panic!("decode failed"),
    }
}
