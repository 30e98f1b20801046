//! Wire messages: requests, responses and notifications, their framing as
//! tagged arrays over the value codec, and the framing round-trip proof.
//!
//! On the wire a request is `[0, id, method, params]`, a response is
//! `[1, id, error, result]` with a nil error marking success, and a
//! notification is `[2, method, params]`.

use crate::bytes::{push_bytes, push_u32_bytes, push_u64_bytes};
use crate::codec::{
    dec, enc, enc_list, encode_value, lemma_dec_enc, lemma_enc_list_snoc, lemma_wf_list_snoc, wf,
    wf_list, DecR, LEN_LIMIT, TAG_ARR, TAG_INT, TAG_NIL, TAG_STR,
};
use crate::value::{lemma_model_elems_len, lemma_model_variant, Value, ValueV};
use vstd::prelude::*;

verus! {

broadcast use vstd::seq_lib::group_seq_lib_default;

/// Mathematical model of a wire message.
pub enum MessageV {
    Request { id: u32, method: Seq<u8>, params: ValueV },
    Response { id: u32, outcome: Result<ValueV, ValueV> },
    Notification { method: Seq<u8>, params: ValueV },
}

/// A wire message: a request that expects exactly one response with the same
/// id, a response correlated to a prior request by id, or a one-way
/// notification.
pub enum Message {
    Request { id: u32, method: Vec<u8>, params: Value },
    Response { id: u32, outcome: Result<Value, Value> },
    Notification { method: Vec<u8>, params: Value },
}

impl Message {
    /// The mathematical model of this message.
    pub open spec fn model(self) -> MessageV {
        match self {
            Message::Request { id, method, params } => MessageV::Request {
                id,
                method: method@,
                params: params.model(),
            },
            Message::Response { id, outcome } => MessageV::Response {
                id,
                outcome: match outcome {
                    Ok(v) => Ok(v.model()),
                    Err(e) => Err(e.model()),
                },
            },
            Message::Notification { method, params } => MessageV::Notification {
                method: method@,
                params: params.model(),
            },
        }
    }
}

impl View for Message {
    type V = MessageV;

    open spec fn view(&self) -> MessageV {
        self.model()
    }
}

/// A message is well formed when its payloads are, its method name fits the
/// wire's length header, and an error outcome is not nil (a nil error slot
/// marks success on the wire).
pub open spec fn wf_msg(m: MessageV) -> bool {
    match m {
        MessageV::Request { id: _, method, params } => method.len() < LEN_LIMIT && wf(params),
        MessageV::Response { id: _, outcome } => match outcome {
            Ok(v) => wf(v),
            Err(e) => wf(e) && e != ValueV::Nil,
        },
        MessageV::Notification { method, params } => method.len() < LEN_LIMIT && wf(params),
    }
}

/// The tagged array a message is framed as.
pub open spec fn msg_value(m: MessageV) -> ValueV {
    match m {
        MessageV::Request { id, method, params } => ValueV::Arr(
            seq![ValueV::Int(0), ValueV::Int(id as i64), ValueV::Str(method), params],
        ),
        MessageV::Response { id, outcome } => ValueV::Arr(
            seq![
                ValueV::Int(1),
                ValueV::Int(id as i64),
                match outcome {
                    Ok(_) => ValueV::Nil,
                    Err(e) => e,
                },
                match outcome {
                    Ok(v) => v,
                    Err(_) => ValueV::Nil,
                },
            ],
        ),
        MessageV::Notification { method, params } => ValueV::Arr(
            seq![ValueV::Int(2), ValueV::Str(method), params],
        ),
    }
}

/// The bytes a message is sent as.
pub open spec fn enc_msg(m: MessageV) -> Seq<u8> {
    enc(msg_value(m))
}

/// The message a decoded value stands for, if it has one of the three
/// message shapes.
pub open spec fn msg_of_value(v: ValueV) -> Option<MessageV> {
    match v {
        ValueV::Arr(items) => if items.len() == 4 && items[0] == ValueV::Int(0) {
            match (items[1], items[2]) {
                (ValueV::Int(i), ValueV::Str(m)) => if 0 <= i < 0x1_0000_0000i64 {
                    Some(MessageV::Request { id: i as u32, method: m, params: items[3] })
                } else {
                    None
                },
                _ => None,
            }
        } else if items.len() == 4 && items[0] == ValueV::Int(1) {
            match items[1] {
                ValueV::Int(i) => if 0 <= i < 0x1_0000_0000i64 {
                    Some(
                        MessageV::Response {
                            id: i as u32,
                            outcome: if items[2] == ValueV::Nil {
                                Ok(items[3])
                            } else {
                                Err(items[2])
                            },
                        },
                    )
                } else {
                    None
                },
                _ => None,
            }
        } else if items.len() == 3 && items[0] == ValueV::Int(2) {
            match items[1] {
                ValueV::Str(m) => Some(
                    MessageV::Notification { method: m, params: items[2] },
                ),
                _ => None,
            }
        } else {
            None
        },
        _ => None,
    }
}

proof fn lemma_enc_list3(a: ValueV, b: ValueV, c: ValueV)
    ensures
        enc_list(seq![a, b, c]) == enc(a) + enc(b) + enc(c),
{
    let e0 = Seq::<ValueV>::empty();
    assert(seq![a, b, c] =~= e0.push(a).push(b).push(c));
    lemma_enc_list_snoc(e0.push(a).push(b), c);
    lemma_enc_list_snoc(e0.push(a), b);
    lemma_enc_list_snoc(e0, a);
    assert(enc_list(e0) =~= Seq::<u8>::empty());
    assert(enc_list(e0) + enc(a) =~= enc(a));
}

proof fn lemma_enc_list4(a: ValueV, b: ValueV, c: ValueV, d: ValueV)
    ensures
        enc_list(seq![a, b, c, d]) == enc(a) + enc(b) + enc(c) + enc(d),
{
    let e0 = Seq::<ValueV>::empty();
    assert(seq![a, b, c, d] =~= e0.push(a).push(b).push(c).push(d));
    lemma_enc_list_snoc(e0.push(a).push(b).push(c), d);
    lemma_enc_list3(a, b, c);
    assert(e0.push(a).push(b).push(c) =~= seq![a, b, c]);
}

proof fn lemma_wf_list3(a: ValueV, b: ValueV, c: ValueV)
    requires
        wf(a),
        wf(b),
        wf(c),
    ensures
        wf_list(seq![a, b, c]),
{
    let e0 = Seq::<ValueV>::empty();
    lemma_wf_list_snoc(e0, a);
    lemma_wf_list_snoc(e0.push(a), b);
    lemma_wf_list_snoc(e0.push(a).push(b), c);
    assert(seq![a, b, c] =~= e0.push(a).push(b).push(c));
}

proof fn lemma_wf_list4(a: ValueV, b: ValueV, c: ValueV, d: ValueV)
    requires
        wf(a),
        wf(b),
        wf(c),
        wf(d),
    ensures
        wf_list(seq![a, b, c, d]),
{
    lemma_wf_list3(a, b, c);
    lemma_wf_list_snoc(seq![a, b, c], d);
    assert(seq![a, b, c, d] =~= seq![a, b, c].push(d));
}

/// A well-formed message frames to a well-formed value, and that value reads
/// back as exactly the message.
pub proof fn lemma_msg_value_roundtrip(m: MessageV)
    requires
        wf_msg(m),
    ensures
        wf(msg_value(m)),
        msg_of_value(msg_value(m)) == Some(m),
{
    match m {
        MessageV::Request { id, method, params } => {
            lemma_wf_list4(
                ValueV::Int(0),
                ValueV::Int(id as i64),
                ValueV::Str(method),
                params,
            );
        },
        MessageV::Response { id, outcome } => {
            match outcome {
                Ok(v0) => {
                    lemma_wf_list4(ValueV::Int(1), ValueV::Int(id as i64), ValueV::Nil, v0);
                    let s1 = msg_value(m)->Arr_0;
                    assert(s1 =~= seq![ValueV::Int(1), ValueV::Int(id as i64), ValueV::Nil, v0]);
                    assert(msg_value(m) == ValueV::Arr(
                        seq![ValueV::Int(1), ValueV::Int(id as i64), ValueV::Nil, v0],
                    ));
                },
                Err(e0) => {
                    lemma_wf_list4(ValueV::Int(1), ValueV::Int(id as i64), e0, ValueV::Nil);
                    let s1 = msg_value(m)->Arr_0;
                    assert(s1 =~= seq![ValueV::Int(1), ValueV::Int(id as i64), e0, ValueV::Nil]);
                    assert(msg_value(m) == ValueV::Arr(
                        seq![ValueV::Int(1), ValueV::Int(id as i64), e0, ValueV::Nil],
                    ));
                },
            }
            assert(wf(msg_value(m)));
        },
        MessageV::Notification { method, params } => {
            lemma_wf_list3(ValueV::Int(2), ValueV::Str(method), params);
        },
    }
}

/// Round-trip framing: the encoding of a well-formed message, followed by
/// anything at all, decodes to exactly the framed message, consuming exactly
/// the encoding.
pub proof fn lemma_msg_roundtrip(m: MessageV, rest: Seq<u8>)
    requires
        wf_msg(m),
    ensures
        ({
            let v = msg_value(m);
            &&& dec(enc_msg(m) + rest) == DecR::<ValueV>::Val(v, enc_msg(m).len() as int)
            &&& msg_of_value(v) == Some(m)
        }),
{
    lemma_msg_value_roundtrip(m);
    lemma_dec_enc(msg_value(m), rest);
}

/// Encodes `m` for the wire.
pub fn encode_message(m: &Message) -> (r: Vec<u8>)
    requires
        wf_msg(m@),
    ensures
        r@ == enc_msg(m@),
{
    let mut out: Vec<u8> = Vec::new();
    match m {
        Message::Request { id, method, params } => {
            out.push(TAG_ARR);
            push_u32_bytes(&mut out, 4);
            out.push(TAG_INT);
            push_u64_bytes(&mut out, 0);
            out.push(TAG_INT);
            push_u64_bytes(&mut out, *id as u64);
            out.push(TAG_STR);
            push_u32_bytes(&mut out, method.len() as u32);
            push_bytes(&mut out, method);
            encode_value(params, &mut out);
            proof {
                assert(((*id as i64) as u64) == *id as u64) by (bit_vector);
                assert((0i64 as u64) == 0u64) by (bit_vector);
                lemma_enc_list4(
                    ValueV::Int(0),
                    ValueV::Int(*id as i64),
                    ValueV::Str(method@),
                    params@,
                );
                let s1 = msg_value(m@)->Arr_0;
                assert(s1 =~= seq![
                    ValueV::Int(0),
                    ValueV::Int(*id as i64),
                    ValueV::Str(method@),
                    params@,
                ]);
                assert(out@ =~= enc_msg(m@));
            }
        },
        Message::Response { id, outcome } => {
            out.push(TAG_ARR);
            push_u32_bytes(&mut out, 4);
            out.push(TAG_INT);
            push_u64_bytes(&mut out, 1);
            out.push(TAG_INT);
            push_u64_bytes(&mut out, *id as u64);
            match outcome {
                Ok(v) => {
                    out.push(TAG_NIL);
                    encode_value(v, &mut out);
                    proof {
                        assert(((*id as i64) as u64) == *id as u64) by (bit_vector);
                        assert((1i64 as u64) == 1u64) by (bit_vector);
                        lemma_enc_list4(
                            ValueV::Int(1),
                            ValueV::Int(*id as i64),
                            ValueV::Nil,
                            v@,
                        );
                        let s1 = msg_value(m@)->Arr_0;
                        assert(s1 =~= seq![ValueV::Int(1), ValueV::Int(*id as i64), ValueV::Nil, v@]);
                        assert(out@ =~= enc_msg(m@));
                    }
                },
                Err(e) => {
                    encode_value(e, &mut out);
                    out.push(TAG_NIL);
                    proof {
                        assert(((*id as i64) as u64) == *id as u64) by (bit_vector);
                        assert((1i64 as u64) == 1u64) by (bit_vector);
                        lemma_enc_list4(
                            ValueV::Int(1),
                            ValueV::Int(*id as i64),
                            e@,
                            ValueV::Nil,
                        );
                        let s1 = msg_value(m@)->Arr_0;
                        assert(s1 =~= seq![ValueV::Int(1), ValueV::Int(*id as i64), e@, ValueV::Nil]);
                        assert(out@ =~= enc_msg(m@));
                    }
                },
            }
        },
        Message::Notification { method, params } => {
            out.push(TAG_ARR);
            push_u32_bytes(&mut out, 3);
            out.push(TAG_INT);
            push_u64_bytes(&mut out, 2);
            out.push(TAG_STR);
            push_u32_bytes(&mut out, method.len() as u32);
            push_bytes(&mut out, method);
            encode_value(params, &mut out);
            proof {
                assert((2i64 as u64) == 2u64) by (bit_vector);
                lemma_enc_list3(ValueV::Int(2), ValueV::Str(method@), params@);
                let s1 = msg_value(m@)->Arr_0;
                assert(s1 =~= seq![ValueV::Int(2), ValueV::Str(method@), params@]);
                assert(out@ =~= enc_msg(m@));
            }
        },
    }
    out
}

/// Reads a decoded value as a message, if it has one of the message shapes.
pub fn value_to_message(v: Value) -> (r: Option<Message>)
    ensures
        match r {
            Some(m) => msg_of_value(v@) == Some(m@),
            None => msg_of_value(v@) is None,
        },
{
    match v {
        Value::Array(mut items) => {
            let ghost s = items@;
            proof {
                lemma_model_elems_len(s);
            }
            if items.len() == 4 {
                let d = items.pop().unwrap();
                let c = items.pop().unwrap();
                let b = items.pop().unwrap();
                let a = items.pop().unwrap();
                proof {
                    assert(s.drop_last().drop_last().drop_last().last() == s[0]);
                    assert(s.drop_last().drop_last().last() == s[1]);
                    assert(s.drop_last().last() == s[2]);
                    lemma_model_variant(a);
                    lemma_model_variant(b);
                    lemma_model_variant(c);
                }
                match a {
                    Value::Int(t) => {
                        if t == 0 {
                            match (b, c) {
                                (Value::Int(i), Value::Str(mb)) => {
                                    if 0 <= i && i < 0x1_0000_0000i64 {
                                        Some(
                                            Message::Request {
                                                id: i as u32,
                                                method: mb,
                                                params: d,
                                            },
                                        )
                                    } else {
                                        None
                                    }
                                },
                                _ => None,
                            }
                        } else if t == 1 {
                            match b {
                                Value::Int(i) => {
                                    if 0 <= i && i < 0x1_0000_0000i64 {
                                        proof {
                                            lemma_model_variant(c);
                                        }
                                        let outcome = match c {
                                            Value::Nil => Ok(d),
                                            other => Err(other),
                                        };
                                        Some(Message::Response { id: i as u32, outcome })
                                    } else {
                                        None
                                    }
                                },
                                _ => None,
                            }
                        } else {
                            None
                        }
                    },
                    _ => None,
                }
            } else if items.len() == 3 {
                let c = items.pop().unwrap();
                let b = items.pop().unwrap();
                let a = items.pop().unwrap();
                proof {
                    assert(s.drop_last().drop_last().last() == s[0]);
                    assert(s.drop_last().last() == s[1]);
                    lemma_model_variant(a);
                    lemma_model_variant(b);
                }
                match (a, b) {
                    (Value::Int(t), Value::Str(mb)) => {
                        if t == 2 {
                            Some(Message::Notification { method: mb, params: c })
                        } else {
                            None
                        }
                    },
                    _ => None,
                }
            } else {
                None
            }
        },
        other => {
            proof {
                lemma_model_variant(other);
            }
            None
        },
    }
}

} // verus!
