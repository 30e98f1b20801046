use msgpack_endpoint::codec::encode_value_vec;
use msgpack_endpoint::endpoint::{Action, Endpoint};
use msgpack_endpoint::framing::{Decoder, FrameStep};
use msgpack_endpoint::hello::Hello;
use msgpack_endpoint::message::{encode_message, Message};
use msgpack_endpoint::registry::Registry;
use msgpack_endpoint::value::Value;

/// Handler tokens the test driver dispatches on.
#[derive(Clone, Copy, PartialEq, Eq, Debug)]
enum H {
    Add,
    Log,
    Ping,
    Slow,
    Fast,
}

fn same_value(a: &Value, b: &Value) -> bool {
    encode_value_vec(a) == encode_value_vec(b)
}

/// Single request/response: `"add"` on `[2, 3]` answers exactly
/// `Response{id: 1, Ok(5)}` on the output stream.
#[test]
fn single_request_response() {
    let mut registry: Registry<H> = Registry::new();
    registry.register(b"add".to_vec(), H::Add);
    let mut ep = Endpoint::new(registry);

    let wire = encode_message(&Message::Request {
        id: 1,
        method: b"add".to_vec(),
        params: Value::Array(vec![Value::Int(2), Value::Int(3)]),
    });
    let mut dec = Decoder::new();
    dec.feed(&wire);
    let msg = match dec.next_message() {
        FrameStep::Msg(m) => m,
        _ => panic!("one whole request was framed"),
    };

    let acts = ep.on_message(msg);
    assert_eq!(acts.len(), 1);
    let (id, method, params) = match acts.into_iter().next().unwrap() {
        Action::StartRequest { id, method, params } => (id, method, params),
        _ => panic!("a known method starts its handler"),
    };
    assert_eq!(id, 1);
    assert_eq!(method, b"add".to_vec());

    // The driver runs the "add" handler: sum of the two integers.
    assert!(ep.handler_for_request(&method) == Some(&H::Add));
    let outcome = match params {
        Value::Array(items) => match (&items[0], &items[1]) {
            (Value::Int(a), Value::Int(b)) => Ok(Value::Int(*a + *b)),
            _ => Err(Value::Str(b"bad params".to_vec())),
        },
        _ => Err(Value::Str(b"bad params".to_vec())),
    };
    let acts = ep.on_handler_done(id, outcome);
    assert_eq!(acts.len(), 1);
    match &acts[0] {
        Action::Write(bytes) => {
            let expect = encode_message(&Message::Response { id: 1, outcome: Ok(Value::Int(5)) });
            assert_eq!(bytes, &expect);
        },
        _ => panic!("a completion writes its response"),
    }
}

/// A notification has no reply: zero bytes are written for it.
#[test]
fn notification_has_no_reply() {
    let mut registry: Registry<H> = Registry::new();
    registry.register_notification(b"log".to_vec(), H::Log);
    let mut ep = Endpoint::new(registry);

    let wire = encode_message(&Message::Notification {
        method: b"log".to_vec(),
        params: Value::Array(vec![Value::Str(b"hi".to_vec())]),
    });
    let mut dec = Decoder::new();
    dec.feed(&wire);
    let msg = match dec.next_message() {
        FrameStep::Msg(m) => m,
        _ => panic!("one whole notification was framed"),
    };
    let acts = ep.on_message(msg);
    assert_eq!(acts.len(), 1);
    match &acts[0] {
        Action::StartNotification { method, .. } => assert_eq!(method, &b"log".to_vec()),
        _ => panic!("a known notification starts its handler"),
    }
    // The handler runs; it produces no completion and nothing is written.
    match dec.next_message() {
        FrameStep::Pending => {},
        _ => panic!("no further message is framed"),
    }
}

/// An unknown request method is answered with an error response naming the
/// method; an unknown notification is dropped without a crash.
#[test]
fn unknown_method() {
    let registry: Registry<H> = Registry::new();
    let mut ep = Endpoint::new(registry);

    let acts = ep.on_message(Message::Request {
        id: 9,
        method: b"nope".to_vec(),
        params: Value::Nil,
    });
    assert_eq!(acts.len(), 1);
    match &acts[0] {
        Action::Write(bytes) => {
            let expect = encode_message(&Message::Response {
                id: 9,
                outcome: Err(Value::Str(b"method not found: nope".to_vec())),
            });
            assert_eq!(bytes, &expect);
        },
        _ => panic!("an unknown request method writes an error response"),
    }

    let acts = ep.on_message(Message::Notification {
        method: b"nope".to_vec(),
        params: Value::Nil,
    });
    assert_eq!(acts.len(), 0);
}

/// A slow handler does not delay the response of a fast one: the completion
/// that arrives first is written first, whatever order the requests came in.
#[test]
fn concurrent_non_blocking_dispatch() {
    let mut registry: Registry<H> = Registry::new();
    registry.register(b"slow".to_vec(), H::Slow);
    registry.register(b"fast".to_vec(), H::Fast);
    let mut ep = Endpoint::new(registry);

    let a1 = ep.on_message(Message::Request { id: 1, method: b"slow".to_vec(), params: Value::Nil });
    let a2 = ep.on_message(Message::Request { id: 2, method: b"fast".to_vec(), params: Value::Nil });
    assert!(matches!(&a1[0], Action::StartRequest { id: 1, .. }));
    assert!(matches!(&a2[0], Action::StartRequest { id: 2, .. }));

    // The fast handler completes first; its response is written at once,
    // while the slow handler is still running.
    let acts = ep.on_handler_done(2, Ok(Value::Str(b"fast done".to_vec())));
    match &acts[0] {
        Action::Write(bytes) => {
            let expect = encode_message(&Message::Response {
                id: 2,
                outcome: Ok(Value::Str(b"fast done".to_vec())),
            });
            assert_eq!(bytes, &expect);
        },
        _ => panic!("the fast completion writes immediately"),
    }
    let acts = ep.on_handler_done(1, Ok(Value::Str(b"slow done".to_vec())));
    match &acts[0] {
        Action::Write(bytes) => {
            let expect = encode_message(&Message::Response {
                id: 1,
                outcome: Ok(Value::Str(b"slow done".to_vec())),
            });
            assert_eq!(bytes, &expect);
        },
        _ => panic!("the slow completion writes afterwards"),
    }
}

/// Correlation uniqueness: concurrently issued calls resolve each with the
/// outcome of the response carrying its own id, in whatever order the
/// responses arrive.
#[test]
fn correlation_out_of_order() {
    let registry: Registry<H> = Registry::new();
    let mut ep = Endpoint::new(registry);

    let (id1, _w1) = ep.call(b"alpha".to_vec(), Value::Int(1));
    let (id2, _w2) = ep.call(b"beta".to_vec(), Value::Int(2));
    assert_ne!(id1, id2);

    // The peer answers the second call first.
    let acts = ep.on_message(Message::Response { id: id2, outcome: Ok(Value::Int(22)) });
    assert_eq!(acts.len(), 1);
    match &acts[0] {
        Action::Resolve { id, outcome: Ok(v) } => {
            assert_eq!(*id, id2);
            assert!(same_value(v, &Value::Int(22)));
        },
        _ => panic!("the second call resolves with its own outcome"),
    }
    let acts = ep.on_message(Message::Response { id: id1, outcome: Ok(Value::Int(11)) });
    assert_eq!(acts.len(), 1);
    match &acts[0] {
        Action::Resolve { id, outcome: Ok(v) } => {
            assert_eq!(*id, id1);
            assert!(same_value(v, &Value::Int(11)));
        },
        _ => panic!("the first call resolves with its own outcome"),
    }

    // A duplicate response for an already-resolved id is ignored.
    let acts = ep.on_message(Message::Response { id: id1, outcome: Ok(Value::Int(99)) });
    assert_eq!(acts.len(), 0);
}

/// Teardown fulfillment: closing with K calls pending fulfills all K with
/// the connection-closed outcome, exactly once each.
#[test]
fn teardown_fulfills_pending_calls() {
    let registry: Registry<H> = Registry::new();
    let mut ep = Endpoint::new(registry);

    let (id1, _) = ep.call(b"a".to_vec(), Value::Nil);
    let (id2, _) = ep.call(b"b".to_vec(), Value::Nil);
    let (id3, _) = ep.call(b"c".to_vec(), Value::Nil);

    let acts = ep.on_transport_closed();
    assert_eq!(acts.len(), 3);
    let mut seen = Vec::new();
    for a in &acts {
        match a {
            Action::Resolve { id, outcome: Err(Value::Str(text)) } => {
                assert_eq!(text, &b"connection closed".to_vec());
                assert!(!seen.contains(id));
                seen.push(*id);
            },
            _ => panic!("teardown resolves with the connection-closed error"),
        }
    }
    assert!(seen.contains(&id1) && seen.contains(&id2) && seen.contains(&id3));

    // Nothing is pending afterwards: a late response is ignored.
    let acts = ep.on_message(Message::Response { id: id1, outcome: Ok(Value::Nil) });
    assert_eq!(acts.len(), 0);
}

/// Bidirectional call: the `"ping"` handler calls `"pong"` back on the same
/// connection before replying; the outbound request appears on the wire
/// before the response to the original ping.
#[test]
fn bidirectional_call() {
    let mut registry: Registry<H> = Registry::new();
    registry.register(b"ping".to_vec(), H::Ping);
    let mut ep = Endpoint::new(registry);
    let mut wire_log: Vec<Vec<u8>> = Vec::new();

    let acts = ep.on_message(Message::Request {
        id: 40,
        method: b"ping".to_vec(),
        params: Value::Nil,
    });
    let ping_id = match &acts[0] {
        Action::StartRequest { id, .. } => *id,
        _ => panic!("ping starts its handler"),
    };

    // Inside the handler: call "pong" on the peer and wait for its answer.
    let (pong_id, acts) = ep.call(b"pong".to_vec(), Value::Nil);
    for a in acts {
        if let Action::Write(b) = a {
            wire_log.push(b);
        }
    }
    let acts = ep.on_message(Message::Response { id: pong_id, outcome: Ok(Value::Nil) });
    assert!(matches!(&acts[0], Action::Resolve { .. }));

    // The handler finishes only now.
    let acts = ep.on_handler_done(ping_id, Ok(Value::Str(b"pung".to_vec())));
    for a in acts {
        if let Action::Write(b) = a {
            wire_log.push(b);
        }
    }

    assert_eq!(wire_log.len(), 2);
    let pong_req = encode_message(&Message::Request {
        id: pong_id,
        method: b"pong".to_vec(),
        params: Value::Nil,
    });
    let ping_resp = encode_message(&Message::Response {
        id: 40,
        outcome: Ok(Value::Str(b"pung".to_vec())),
    });
    assert_eq!(wire_log[0], pong_req);
    assert_eq!(wire_log[1], ping_resp);
}

/// Bytes may arrive in any fragmentation; the decoder waits for whole
/// messages and keeps wire order.
#[test]
fn framing_across_fragments() {
    let m1 = encode_message(&Message::Notification { method: b"a".to_vec(), params: Value::Nil });
    let m2 = encode_message(&Message::Notification {
        method: b"b".to_vec(),
        params: Value::Int(3),
    });
    let mut all = m1.clone();
    all.extend(m2.iter().copied());

    let mut dec = Decoder::new();
    let mut got = Vec::new();
    for byte in all {
        dec.feed(&vec![byte]);
        loop {
            match dec.next_message() {
                FrameStep::Msg(m) => got.push(encode_message(&m)),
                FrameStep::Pending => break,
                FrameStep::Corrupt => panic!("well-framed bytes never corrupt"),
            }
        }
    }
    assert_eq!(got.len(), 2);
    assert_eq!(got[0], m1);
    assert_eq!(got[1], m2);
}

/// A byte no encoding starts with is a fatal framing fault.
#[test]
fn framing_corrupt_input() {
    let mut dec = Decoder::new();
    dec.feed(&vec![0x17, 0x00]);
    match dec.next_message() {
        FrameStep::Corrupt => {},
        _ => panic!("garbage must read as corrupt"),
    }
}

/// The last registration for a name wins.
#[test]
fn registry_last_wins() {
    let mut registry: Registry<H> = Registry::new();
    registry.register(b"m".to_vec(), H::Slow);
    registry.register(b"m".to_vec(), H::Fast);
    assert!(registry.lookup_request(&b"m".to_vec()) == Some(&H::Fast));
    assert!(registry.lookup_request(&b"other".to_vec()).is_none());
    assert!(registry.lookup_notification(&b"m".to_vec()).is_none());
}

/// The sample counter behind the `"value"` and `"increment"` handlers.
#[test]
fn hello_counter() {
    let mut h = Hello::new();
    assert_eq!(h.value(), 0);
    h.increment();
    h.increment();
    assert_eq!(h.value(), 2);
}

/// After shutdown the endpoint reads nothing, but in-flight completions are
/// still answered; calls made while closing fail at once.
#[test]
fn shutdown_drains_then_closes() {
    let mut registry: Registry<H> = Registry::new();
    registry.register(b"work".to_vec(), H::Slow);
    let mut ep = Endpoint::new(registry);

    let acts = ep.on_message(Message::Request {
        id: 5,
        method: b"work".to_vec(),
        params: Value::Nil,
    });
    assert_eq!(acts.len(), 1);

    ep.shutdown();
    // Reading has stopped: a further request is ignored.
    let acts = ep.on_message(Message::Request {
        id: 6,
        method: b"work".to_vec(),
        params: Value::Nil,
    });
    assert_eq!(acts.len(), 0);

    // A call issued while closing fails at once with the closed outcome.
    let (_id, acts) = ep.call(b"late".to_vec(), Value::Nil);
    match &acts[0] {
        Action::Resolve { outcome: Err(Value::Str(text)), .. } => {
            assert_eq!(text, &b"connection closed".to_vec());
        },
        _ => panic!("a call on a closing connection fails at once"),
    }

    // The in-flight handler still answers.
    let acts = ep.on_handler_done(5, Ok(Value::Nil));
    assert!(matches!(&acts[0], Action::Write(_)));

    // Fully closed: completions write nothing any more.
    let acts = ep.on_transport_closed();
    assert_eq!(acts.len(), 0);
    let acts = ep.on_handler_done(5, Ok(Value::Nil));
    assert_eq!(acts.len(), 0);
}
