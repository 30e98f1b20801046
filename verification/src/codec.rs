//! Wire codec for protocol values.
//!
//! The encoder always emits one fixed format per variant (nil, the two
//! booleans, 64-bit signed integers, and the 32-bit-length forms of text,
//! binary, array and map), all of them standard formats of the msgpack
//! family.  The decoder accepts exactly what the encoder emits, tells
//! truncated input apart from malformed input, and is proved to be the exact
//! inverse of the encoder on every well-formed value.

use crate::bytes::{
    lemma_i64_u64_roundtrip, lemma_u32_bytes_roundtrip, lemma_u64_bytes_roundtrip, push_bytes,
    read_u32_be, read_u64_be,
    push_u32_bytes, push_u64_bytes, u32_bytes, u32_of_bytes, u64_bytes, u64_of_bytes,
};
use crate::value::{lemma_model_elems_len, lemma_model_pairs_len, model_elems, model_pairs, Value, ValueV};
use vstd::prelude::*;

verus! {

broadcast use vstd::seq_lib::group_seq_lib_default;

pub const TAG_NIL: u8 = 0xc0;

pub const TAG_FALSE: u8 = 0xc2;

pub const TAG_TRUE: u8 = 0xc3;

pub const TAG_INT: u8 = 0xd3;

pub const TAG_STR: u8 = 0xdb;

pub const TAG_BIN: u8 = 0xc6;

pub const TAG_ARR: u8 = 0xdd;

pub const TAG_MAP: u8 = 0xdf;

/// Largest length a 32-bit wire header can carry, plus one.
pub const LEN_LIMIT: u64 = 0x1_0000_0000;

/// A value is well formed when every text, binary, array and map it holds
/// fits a 32-bit length header.  Encoding is total on well-formed values.
pub open spec fn wf(v: ValueV) -> bool
    decreases v,
{
    match v {
        ValueV::Nil => true,
        ValueV::Bool(_) => true,
        ValueV::Int(_) => true,
        ValueV::Str(b) => b.len() < LEN_LIMIT,
        ValueV::Bin(b) => b.len() < LEN_LIMIT,
        ValueV::Arr(s) => s.len() < LEN_LIMIT && wf_list(s),
        ValueV::Dict(s) => s.len() < LEN_LIMIT && wf_pairs(s),
    }
}

pub open spec fn wf_list(s: Seq<ValueV>) -> bool
    decreases s,
{
    s.len() == 0 || (wf(s[0]) && wf_list(s.drop_first()))
}

pub open spec fn wf_pairs(s: Seq<(ValueV, ValueV)>) -> bool
    decreases s,
{
    s.len() == 0 || (wf(s[0].0) && wf(s[0].1) && wf_pairs(s.drop_first()))
}

pub proof fn lemma_wf_list_index(s: Seq<ValueV>)
    requires
        wf_list(s),
    ensures
        forall|i: int| 0 <= i < s.len() ==> wf(#[trigger] s[i]),
    decreases s,
{
    if s.len() > 0 {
        lemma_wf_list_index(s.drop_first());
        assert forall|i: int| 0 <= i < s.len() implies wf(#[trigger] s[i]) by {
            if i > 0 {
                assert(s.drop_first()[i - 1] == s[i]);
            }
        }
    }
}

pub proof fn lemma_wf_pairs_index(s: Seq<(ValueV, ValueV)>)
    requires
        wf_pairs(s),
    ensures
        forall|i: int| 0 <= i < s.len() ==> wf(#[trigger] s[i].0) && wf(s[i].1),
    decreases s,
{
    if s.len() > 0 {
        lemma_wf_pairs_index(s.drop_first());
        assert forall|i: int| 0 <= i < s.len() implies wf(#[trigger] s[i].0) && wf(s[i].1) by {
            if i > 0 {
                assert(s.drop_first()[i - 1] == s[i]);
            }
        }
    }
}

/// The bytes a value encodes to.
pub open spec fn enc(v: ValueV) -> Seq<u8>
    decreases v,
{
    match v {
        ValueV::Nil => seq![TAG_NIL],
        ValueV::Bool(b) => if b {
            seq![TAG_TRUE]
        } else {
            seq![TAG_FALSE]
        },
        ValueV::Int(i) => seq![TAG_INT] + u64_bytes(i as u64),
        ValueV::Str(b) => seq![TAG_STR] + u32_bytes(b.len() as u32) + b,
        ValueV::Bin(b) => seq![TAG_BIN] + u32_bytes(b.len() as u32) + b,
        ValueV::Arr(s) => seq![TAG_ARR] + u32_bytes(s.len() as u32) + enc_list(s),
        ValueV::Dict(s) => seq![TAG_MAP] + u32_bytes(s.len() as u32) + enc_pairs(s),
    }
}

pub open spec fn enc_list(s: Seq<ValueV>) -> Seq<u8>
    decreases s,
{
    if s.len() == 0 {
        Seq::empty()
    } else {
        enc(s[0]) + enc_list(s.drop_first())
    }
}

pub open spec fn enc_pairs(s: Seq<(ValueV, ValueV)>) -> Seq<u8>
    decreases s,
{
    if s.len() == 0 {
        Seq::empty()
    } else {
        enc(s[0].0) + enc(s[0].1) + enc_pairs(s.drop_first())
    }
}

pub proof fn lemma_enc_len_pos(v: ValueV)
    ensures
        enc(v).len() >= 1,
{
    match v {
        ValueV::Nil => {},
        ValueV::Bool(_) => {},
        ValueV::Int(_) => {},
        ValueV::Str(_) => {},
        ValueV::Bin(_) => {},
        ValueV::Arr(_) => {},
        ValueV::Dict(_) => {},
    }
}

/// What the decoder found: a value and how many bytes it took, a need for
/// more bytes, or bytes no encoding produces.
pub enum DecR<T> {
    Val(T, int),
    More,
    Bad,
}

/// The value framed at the front of `s`, if any.
pub open spec fn dec(s: Seq<u8>) -> DecR<ValueV>
    decreases s.len(), 0nat, 0nat,
{
    if s.len() < 1 {
        DecR::More
    } else {
        let t = s[0];
        if t == TAG_NIL {
            DecR::Val(ValueV::Nil, 1)
        } else if t == TAG_FALSE {
            DecR::Val(ValueV::Bool(false), 1)
        } else if t == TAG_TRUE {
            DecR::Val(ValueV::Bool(true), 1)
        } else if t == TAG_INT {
            if s.len() < 9 {
                DecR::More
            } else {
                DecR::Val(
                    ValueV::Int(
                        u64_of_bytes(s[1], s[2], s[3], s[4], s[5], s[6], s[7], s[8]) as i64,
                    ),
                    9,
                )
            }
        } else if t == TAG_STR || t == TAG_BIN {
            if s.len() < 5 {
                DecR::More
            } else {
                let n = u32_of_bytes(s[1], s[2], s[3], s[4]) as int;
                if s.len() < 5 + n {
                    DecR::More
                } else {
                    let b = s.subrange(5, 5 + n);
                    if t == TAG_STR {
                        DecR::Val(ValueV::Str(b), 5 + n)
                    } else {
                        DecR::Val(ValueV::Bin(b), 5 + n)
                    }
                }
            }
        } else if t == TAG_ARR {
            if s.len() < 5 {
                DecR::More
            } else {
                let n = u32_of_bytes(s[1], s[2], s[3], s[4]) as nat;
                match dec_list(s.skip(5), n) {
                    DecR::Val(vs, k) => DecR::Val(ValueV::Arr(vs), 5 + k),
                    DecR::More => DecR::More,
                    DecR::Bad => DecR::Bad,
                }
            }
        } else if t == TAG_MAP {
            if s.len() < 5 {
                DecR::More
            } else {
                let n = u32_of_bytes(s[1], s[2], s[3], s[4]) as nat;
                match dec_pairs(s.skip(5), n) {
                    DecR::Val(ps, k) => DecR::Val(ValueV::Dict(ps), 5 + k),
                    DecR::More => DecR::More,
                    DecR::Bad => DecR::Bad,
                }
            }
        } else {
            DecR::Bad
        }
    }
}

/// The `n` values framed one after another at the front of `s`, if any.
pub open spec fn dec_list(s: Seq<u8>, n: nat) -> DecR<Seq<ValueV>>
    decreases s.len(), 1nat, n,
{
    if n == 0 {
        DecR::Val(Seq::empty(), 0)
    } else {
        match dec(s) {
            DecR::Val(v, k) => if 1 <= k <= s.len() {
                match dec_list(s.skip(k), (n - 1) as nat) {
                    DecR::Val(vs, k2) => DecR::Val(seq![v] + vs, k + k2),
                    DecR::More => DecR::More,
                    DecR::Bad => DecR::Bad,
                }
            } else {
                DecR::Bad
            },
            DecR::More => DecR::More,
            DecR::Bad => DecR::Bad,
        }
    }
}

/// The `n` key/value pairs framed one after another at the front of `s`.
pub open spec fn dec_pairs(s: Seq<u8>, n: nat) -> DecR<Seq<(ValueV, ValueV)>>
    decreases s.len(), 1nat, n,
{
    if n == 0 {
        DecR::Val(Seq::empty(), 0)
    } else {
        match dec(s) {
            DecR::Val(key, k1) => if 1 <= k1 <= s.len() {
                match dec(s.skip(k1)) {
                    DecR::Val(val, k2) => if 1 <= k2 <= s.len() - k1 {
                        match dec_pairs(s.skip(k1 + k2), (n - 1) as nat) {
                            DecR::Val(ps, k3) => DecR::Val(
                                seq![(key, val)] + ps,
                                k1 + k2 + k3,
                            ),
                            DecR::More => DecR::More,
                            DecR::Bad => DecR::Bad,
                        }
                    } else {
                        DecR::Bad
                    },
                    DecR::More => DecR::More,
                    DecR::Bad => DecR::Bad,
                }
            } else {
                DecR::Bad
            },
            DecR::More => DecR::More,
            DecR::Bad => DecR::Bad,
        }
    }
}

/// Decoding inverts encoding: a well-formed value, encoded and followed by
/// anything at all, decodes back to exactly itself, consuming exactly its
/// encoding.
#[verifier::rlimit(60)]
pub proof fn lemma_dec_enc(v: ValueV, rest: Seq<u8>)
    requires
        wf(v),
    ensures
        dec(enc(v) + rest) == DecR::<ValueV>::Val(v, enc(v).len() as int),
    decreases v,
{
    let s = enc(v) + rest;
    match v {
        ValueV::Nil => {},
        ValueV::Bool(_) => {},
        ValueV::Int(i) => {
            let x = i as u64;
            assert(s[1] == u64_bytes(x)[0] && s[2] == u64_bytes(x)[1] && s[3] == u64_bytes(x)[2]
                && s[4] == u64_bytes(x)[3] && s[5] == u64_bytes(x)[4] && s[6] == u64_bytes(x)[5]
                && s[7] == u64_bytes(x)[6] && s[8] == u64_bytes(x)[7]);
            lemma_u64_bytes_roundtrip(x);
            lemma_i64_u64_roundtrip(i);
        },
        ValueV::Str(b) => {
            lemma_str_like(v, b, rest);
        },
        ValueV::Bin(b) => {
            lemma_str_like(v, b, rest);
        },
        ValueV::Arr(elems) => {
            let m = elems.len() as u32;
            assert(s[1] == u32_bytes(m)[0] && s[2] == u32_bytes(m)[1] && s[3] == u32_bytes(m)[2]
                && s[4] == u32_bytes(m)[3]);
            lemma_u32_bytes_roundtrip(m);
            assert(s.skip(5) =~= enc_list(elems) + rest);
            lemma_dec_list_enc(elems, rest);
        },
        ValueV::Dict(pairs) => {
            let m = pairs.len() as u32;
            assert(s[1] == u32_bytes(m)[0] && s[2] == u32_bytes(m)[1] && s[3] == u32_bytes(m)[2]
                && s[4] == u32_bytes(m)[3]);
            lemma_u32_bytes_roundtrip(m);
            assert(s.skip(5) =~= enc_pairs(pairs) + rest);
            lemma_dec_pairs_enc(pairs, rest);
        },
    }
}

proof fn lemma_str_like(v: ValueV, b: Seq<u8>, rest: Seq<u8>)
    requires
        wf(v),
        v == ValueV::Str(b) || v == ValueV::Bin(b),
    ensures
        dec(enc(v) + rest) == DecR::<ValueV>::Val(v, enc(v).len() as int),
{
    let s = enc(v) + rest;
    let m = b.len() as u32;
    assert(s[1] == u32_bytes(m)[0] && s[2] == u32_bytes(m)[1] && s[3] == u32_bytes(m)[2] && s[4]
        == u32_bytes(m)[3]);
    lemma_u32_bytes_roundtrip(m);
    assert(s.subrange(5, 5 + b.len() as int) =~= b);
}

#[verifier::rlimit(60)]
pub proof fn lemma_dec_list_enc(elems: Seq<ValueV>, rest: Seq<u8>)
    requires
        wf_list(elems),
    ensures
        dec_list(enc_list(elems) + rest, elems.len()) == DecR::<Seq<ValueV>>::Val(
            elems,
            enc_list(elems).len() as int,
        ),
    decreases elems,
{
    if elems.len() == 0 {
        assert(enc_list(elems) + rest =~= rest);
        assert(dec_list(rest, 0) == DecR::<Seq<ValueV>>::Val(Seq::empty(), 0));
        assert(elems =~= Seq::<ValueV>::empty());
    } else {
        let hd = elems[0];
        let tl = elems.drop_first();
        proof_wf_first(elems);
        let s = enc_list(elems) + rest;
        assert(s =~= enc(hd) + (enc_list(tl) + rest));
        lemma_dec_enc(hd, enc_list(tl) + rest);
        lemma_enc_len_pos(hd);
        let k = enc(hd).len() as int;
        assert(s.skip(k) =~= enc_list(tl) + rest);
        lemma_dec_list_enc(tl, rest);
        assert(seq![hd] + tl =~= elems);
    }
}

#[verifier::rlimit(60)]
pub proof fn lemma_dec_pairs_enc(pairs: Seq<(ValueV, ValueV)>, rest: Seq<u8>)
    requires
        wf_pairs(pairs),
    ensures
        dec_pairs(enc_pairs(pairs) + rest, pairs.len()) == DecR::<Seq<(ValueV, ValueV)>>::Val(
            pairs,
            enc_pairs(pairs).len() as int,
        ),
    decreases pairs,
{
    if pairs.len() == 0 {
        assert(enc_pairs(pairs) + rest =~= rest);
        assert(pairs =~= Seq::<(ValueV, ValueV)>::empty());
    } else {
        let key = pairs[0].0;
        let val = pairs[0].1;
        let tl = pairs.drop_first();
        proof_wf_pair_first(pairs);
        let s = enc_pairs(pairs) + rest;
        assert(s =~= enc(key) + (enc(val) + (enc_pairs(tl) + rest)));
        lemma_dec_enc(key, enc(val) + (enc_pairs(tl) + rest));
        lemma_enc_len_pos(key);
        let k1 = enc(key).len() as int;
        assert(s.skip(k1) =~= enc(val) + (enc_pairs(tl) + rest));
        lemma_dec_enc(val, enc_pairs(tl) + rest);
        lemma_enc_len_pos(val);
        let k2 = enc(val).len() as int;
        assert(s.skip(k1 + k2) =~= enc_pairs(tl) + rest);
        lemma_dec_pairs_enc(tl, rest);
        assert(seq![(key, val)] + tl =~= pairs);
    }
}

proof fn proof_wf_first(elems: Seq<ValueV>)
    requires
        wf_list(elems),
        elems.len() > 0,
    ensures
        wf(elems[0]),
        wf_list(elems.drop_first()),
{
}

proof fn proof_wf_pair_first(pairs: Seq<(ValueV, ValueV)>)
    requires
        wf_pairs(pairs),
        pairs.len() > 0,
    ensures
        wf(pairs[0].0),
        wf(pairs[0].1),
        wf_pairs(pairs.drop_first()),
{
}

pub proof fn lemma_enc_list_snoc(s: Seq<ValueV>, v: ValueV)
    ensures
        enc_list(s.push(v)) == enc_list(s) + enc(v),
    decreases s,
{
    reveal_with_fuel(enc_list, 3);
    if s.len() == 0 {
        assert(s.push(v)[0] == v);
        assert(s.push(v).drop_first() =~= Seq::<ValueV>::empty());
        assert(enc_list(s.push(v).drop_first()) =~= Seq::<u8>::empty());
        assert(enc_list(s.push(v)) =~= enc(v));
        assert(enc_list(s) + enc(v) =~= enc(v));
    } else {
        assert(s.push(v)[0] == s[0]);
        assert(s.push(v).drop_first() =~= s.drop_first().push(v));
        lemma_enc_list_snoc(s.drop_first(), v);
        assert(enc(s[0]) + (enc_list(s.drop_first()) + enc(v)) =~= (enc(s[0]) + enc_list(
            s.drop_first(),
        )) + enc(v));
    }
}

pub proof fn lemma_enc_pairs_snoc(s: Seq<(ValueV, ValueV)>, p: (ValueV, ValueV))
    ensures
        enc_pairs(s.push(p)) == enc_pairs(s) + enc(p.0) + enc(p.1),
    decreases s,
{
    reveal_with_fuel(enc_pairs, 3);
    if s.len() == 0 {
        assert(s.push(p)[0] == p);
        assert(s.push(p).drop_first() =~= Seq::<(ValueV, ValueV)>::empty());
        assert(enc_pairs(s.push(p).drop_first()) =~= Seq::<u8>::empty());
        assert(enc_pairs(s.push(p)) =~= enc(p.0) + enc(p.1));
        assert(enc_pairs(s) + enc(p.0) + enc(p.1) =~= enc(p.0) + enc(p.1));
    } else {
        assert(s.push(p)[0] == s[0]);
        assert(s.push(p).drop_first() =~= s.drop_first().push(p));
        lemma_enc_pairs_snoc(s.drop_first(), p);
        assert(enc(s[0].0) + enc(s[0].1) + (enc_pairs(s.drop_first()) + enc(p.0) + enc(p.1)) =~= (
        enc(s[0].0) + enc(s[0].1) + enc_pairs(s.drop_first())) + enc(p.0) + enc(p.1));
    }
}

/// Appends the encoding of `v` to `out`.
#[verifier::loop_isolation(false)]
pub fn encode_value(v: &Value, out: &mut Vec<u8>)
    requires
        wf(v@),
    ensures
        final(out)@ == old(out)@ + enc(v@),
    decreases v,
{
    match v {
        Value::Nil => {
            out.push(TAG_NIL);
            proof {
                assert(out@ =~= old(out)@ + enc(v@));
            }
        },
        Value::Bool(b) => {
            if *b {
                out.push(TAG_TRUE);
            } else {
                out.push(TAG_FALSE);
            }
            proof {
                assert(out@ =~= old(out)@ + enc(v@));
            }
        },
        Value::Int(i) => {
            out.push(TAG_INT);
            push_u64_bytes(out, #[verifier::truncate] (*i as u64));
            proof {
                assert(out@ =~= old(out)@ + enc(v@));
            }
        },
        Value::Str(b) => {
            out.push(TAG_STR);
            push_u32_bytes(out, b.len() as u32);
            push_bytes(out, b);
            proof {
                assert(out@ =~= old(out)@ + enc(v@));
            }
        },
        Value::Bin(b) => {
            out.push(TAG_BIN);
            push_u32_bytes(out, b.len() as u32);
            push_bytes(out, b);
            proof {
                assert(out@ =~= old(out)@ + enc(v@));
            }
        },
        Value::Array(elems) => {
            proof {
                lemma_model_elems_len(elems@);
                lemma_wf_list_index(model_elems(elems@));
            }
            out.push(TAG_ARR);
            push_u32_bytes(out, elems.len() as u32);
            let ghost base = out@;
            let ghost es = elems@;
            let mut idx: usize = 0;
            while idx < elems.len()
                invariant
                    idx <= es.len(),
                    out@ == base + enc_list(model_elems(es.take(idx as int))),
                decreases es.len() - idx,
            {
                proof {
                    assert(model_elems(es)[idx as int] == es[idx as int].model());
                    assert(wf(es[idx as int].model()));
                    assert(decreases_to!(es => es[idx as int]));
                    assert(decreases_to!(*v => es[idx as int]));
                }
                encode_value(&elems[idx], out);
                proof {
                    let j = idx as int;
                    lemma_model_elems_len(es.take(j));
                    assert(es.take(j + 1) =~= es.take(j).push(es[j]));
                    assert(es.take(j).push(es[j]).drop_last() =~= es.take(j));
                    assert(model_elems(es.take(j + 1)) == model_elems(es.take(j)).push(
                        es[j].model(),
                    ));
                    lemma_enc_list_snoc(model_elems(es.take(j)), es[j].model());
                    assert(out@ =~= base + enc_list(model_elems(es.take(j + 1))));
                }
                idx = idx + 1;
            }
            proof {
                assert(es.take(es.len() as int) =~= es);
                assert(out@ =~= old(out)@ + enc(v@));
            }
        },
        Value::Dict(pairs) => {
            proof {
                lemma_model_pairs_len(pairs@);
                lemma_wf_pairs_index(model_pairs(pairs@));
            }
            out.push(TAG_MAP);
            push_u32_bytes(out, pairs.len() as u32);
            let ghost base = out@;
            let ghost ps = pairs@;
            let mut idx: usize = 0;
            while idx < pairs.len()
                invariant
                    idx <= ps.len(),
                    out@ == base + enc_pairs(model_pairs(ps.take(idx as int))),
                decreases ps.len() - idx,
            {
                proof {
                    assert(model_pairs(ps)[idx as int] == (
                        ps[idx as int].0.model(),
                        ps[idx as int].1.model(),
                    ));
                    assert(model_pairs(ps)[idx as int].0 == ps[idx as int].0.model());
                    assert(model_pairs(ps)[idx as int].1 == ps[idx as int].1.model());
                    assert(wf(ps[idx as int].0.model()) && wf(ps[idx as int].1.model()));
                    assert(decreases_to!(ps => ps[idx as int]));
                    assert(decreases_to!(*v => ps[idx as int].0));
                    assert(decreases_to!(*v => ps[idx as int].1));
                }
                encode_value(&pairs[idx].0, out);
                encode_value(&pairs[idx].1, out);
                proof {
                    let j = idx as int;
                    lemma_model_pairs_len(ps.take(j));
                    assert(ps.take(j + 1) =~= ps.take(j).push(ps[j]));
                    assert(ps.take(j).push(ps[j]).drop_last() =~= ps.take(j));
                    assert(model_pairs(ps.take(j + 1)) == model_pairs(ps.take(j)).push(
                        (ps[j].0.model(), ps[j].1.model()),
                    ));
                    lemma_enc_pairs_snoc(
                        model_pairs(ps.take(j)),
                        (ps[j].0.model(), ps[j].1.model()),
                    );
                    assert(out@ =~= base + enc_pairs(model_pairs(ps.take(j + 1))));
                }
                idx = idx + 1;
            }
            proof {
                assert(ps.take(ps.len() as int) =~= ps);
                assert(out@ =~= old(out)@ + enc(v@));
            }
        },
    }
}

/// The encoding of `v` as a fresh byte vector.
pub fn encode_value_vec(v: &Value) -> (r: Vec<u8>)
    requires
        wf(v@),
    ensures
        r@ == enc(v@),
{
    let mut out: Vec<u8> = Vec::new();
    encode_value(v, &mut out);
    proof {
        assert(out@ =~= enc(v@));
    }
    out
}

pub proof fn lemma_wf_list_snoc(s: Seq<ValueV>, v: ValueV)
    requires
        wf_list(s),
        wf(v),
    ensures
        wf_list(s.push(v)),
    decreases s,
{
    reveal_with_fuel(wf_list, 3);
    if s.len() == 0 {
        assert(s.push(v)[0] == v);
        assert(s.push(v).drop_first() =~= Seq::<ValueV>::empty());
        assert(wf_list(Seq::<ValueV>::empty()));
    } else {
        assert(s.push(v)[0] == s[0]);
        assert(s.push(v).drop_first() =~= s.drop_first().push(v));
        lemma_wf_list_snoc(s.drop_first(), v);
    }
}

pub proof fn lemma_wf_pairs_snoc(s: Seq<(ValueV, ValueV)>, p: (ValueV, ValueV))
    requires
        wf_pairs(s),
        wf(p.0),
        wf(p.1),
    ensures
        wf_pairs(s.push(p)),
    decreases s,
{
    reveal_with_fuel(wf_pairs, 3);
    if s.len() == 0 {
        assert(s.push(p)[0] == p);
        assert(s.push(p).drop_first() =~= Seq::<(ValueV, ValueV)>::empty());
        assert(wf_pairs(Seq::<(ValueV, ValueV)>::empty()));
    } else {
        assert(s.push(p)[0] == s[0]);
        assert(s.push(p).drop_first() =~= s.drop_first().push(p));
        lemma_wf_pairs_snoc(s.drop_first(), p);
    }
}

/// What one decoding step produced: a finished item and the offset just past
/// it, a need for more input, or input no encoding produces.
pub enum Decoded<T> {
    Done(T, usize),
    Truncated,
    Malformed,
}

/// Decodes the value framed at `buf[pos..]`, agreeing exactly with the
/// specification decoder [`dec`].
#[verifier::loop_isolation(false)]
#[verifier::rlimit(100)]
pub fn decode_value(buf: &Vec<u8>, pos: usize) -> (r: Decoded<Value>)
    requires
        pos <= buf@.len(),
    ensures
        ({
            let s = buf@.skip(pos as int);
            match r {
                Decoded::Done(v, end) => {
                    &&& pos < end <= buf@.len()
                    &&& wf(v@)
                    &&& dec(s) == DecR::<ValueV>::Val(v@, end - pos)
                },
                Decoded::Truncated => dec(s) is More,
                Decoded::Malformed => dec(s) is Bad,
            }
        }),
    decreases buf@.len() - pos, 0nat,
{
    let ghost s = buf@.skip(pos as int);
    let len = buf.len();
    if len - pos < 1 {
        return Decoded::Truncated;
    }
    let t = buf[pos];
    proof {
        assert(s.len() == len - pos);
        assert(s[0] == buf@[pos as int]);
    }
    if t == TAG_NIL {
        return Decoded::Done(Value::Nil, pos + 1);
    } else if t == TAG_FALSE {
        return Decoded::Done(Value::Bool(false), pos + 1);
    } else if t == TAG_TRUE {
        return Decoded::Done(Value::Bool(true), pos + 1);
    } else if t == TAG_INT {
        if len - pos < 9 {
            return Decoded::Truncated;
        }
        proof {
            assert(s[1] == buf@[pos as int + 1] && s[2] == buf@[pos as int + 2] && s[3] == buf@[
                pos as int + 3] && s[4] == buf@[pos as int + 4] && s[5] == buf@[pos as int + 5]
                && s[6] == buf@[pos as int + 6] && s[7] == buf@[pos as int + 7] && s[8] == buf@[
                pos as int + 8]);
        }
        let x = read_u64_be(buf, pos + 1);
        let i = #[verifier::truncate] (x as i64);
        return Decoded::Done(Value::Int(i), pos + 9);
    } else if t == TAG_STR || t == TAG_BIN {
        if len - pos < 5 {
            return Decoded::Truncated;
        }
        proof {
            assert(s[1] == buf@[pos as int + 1] && s[2] == buf@[pos as int + 2] && s[3] == buf@[
                pos as int + 3] && s[4] == buf@[pos as int + 4]);
        }
        let n = read_u32_be(buf, pos + 1);
        let nu = n as usize;
        if len - pos - 5 < nu {
            return Decoded::Truncated;
        }
        let start = pos + 5;
        let mut b: Vec<u8> = Vec::new();
        let mut i: usize = 0;
        while i < nu
            invariant
                i <= nu,
                b@ == buf@.subrange(start as int, start as int + i as int),
            decreases nu - i,
        {
            b.push(buf[start + i]);
            i = i + 1;
            proof {
                assert(b@ =~= buf@.subrange(start as int, start as int + i as int));
            }
        }
        let end = start + nu;
        proof {
            assert(b@ =~= s.subrange(5, 5 + nu as int));
        }
        if t == TAG_STR {
            return Decoded::Done(Value::Str(b), end);
        } else {
            return Decoded::Done(Value::Bin(b), end);
        }
    } else if t == TAG_ARR {
        if len - pos < 5 {
            return Decoded::Truncated;
        }
        proof {
            assert(s[1] == buf@[pos as int + 1] && s[2] == buf@[pos as int + 2] && s[3] == buf@[
                pos as int + 3] && s[4] == buf@[pos as int + 4]);
        }
        let n = read_u32_be(buf, pos + 1);
        let total = n as usize;
        let r = decode_seq(buf, pos + 5, total);
        proof {
            assert(s.skip(5) =~= buf@.skip(pos as int + 5));
        }
        match r {
            Decoded::Done(elems, end) => {
                proof {
                    lemma_model_elems_len(elems@);
                }
                return Decoded::Done(Value::Array(elems), end);
            },
            Decoded::Truncated => {
                return Decoded::Truncated;
            },
            Decoded::Malformed => {
                return Decoded::Malformed;
            },
        }
    } else if t == TAG_MAP {
        if len - pos < 5 {
            return Decoded::Truncated;
        }
        proof {
            assert(s[1] == buf@[pos as int + 1] && s[2] == buf@[pos as int + 2] && s[3] == buf@[
                pos as int + 3] && s[4] == buf@[pos as int + 4]);
        }
        let n = read_u32_be(buf, pos + 1);
        let total = n as usize;
        let r = decode_pair_seq(buf, pos + 5, total);
        proof {
            assert(s.skip(5) =~= buf@.skip(pos as int + 5));
        }
        match r {
            Decoded::Done(pairs, end) => {
                proof {
                    lemma_model_pairs_len(pairs@);
                }
                return Decoded::Done(Value::Dict(pairs), end);
            },
            Decoded::Truncated => {
                return Decoded::Truncated;
            },
            Decoded::Malformed => {
                return Decoded::Malformed;
            },
        }
    } else {
        return Decoded::Malformed;
    }
}

/// Decodes `count` values framed one after another at `buf[start..]`,
/// agreeing exactly with [`dec_list`].
#[verifier::loop_isolation(false)]
#[verifier::rlimit(100)]
fn decode_seq(buf: &Vec<u8>, start: usize, count: usize) -> (r: Decoded<Vec<Value>>)
    requires
        start <= buf@.len(),
    ensures
        ({
            let s = buf@.skip(start as int);
            match r {
                Decoded::Done(vs, end) => {
                    &&& start <= end <= buf@.len()
                    &&& vs@.len() == count
                    &&& wf_list(model_elems(vs@))
                    &&& dec_list(s, count as nat) == DecR::<Seq<ValueV>>::Val(
                        model_elems(vs@),
                        end - start,
                    )
                },
                Decoded::Truncated => dec_list(s, count as nat) is More,
                Decoded::Malformed => dec_list(s, count as nat) is Bad,
            }
        }),
    decreases buf@.len() - start, 1nat,
{
    let mut elems: Vec<Value> = Vec::new();
    let mut cur = start;
    let mut cnt: usize = 0;
    while cnt < count
        invariant
            start <= cur <= buf@.len(),
            cnt <= count,
            elems@.len() == cnt,
            wf_list(model_elems(elems@)),
            ({
                let s = buf@.skip(start as int);
                let scur = buf@.skip(cur as int);
                match dec_list(scur, (count - cnt) as nat) {
                    DecR::Val(vs, k) => dec_list(s, count as nat) == DecR::<Seq<ValueV>>::Val(
                        model_elems(elems@) + vs,
                        (cur - start) + k,
                    ),
                    DecR::More => dec_list(s, count as nat) is More,
                    DecR::Bad => dec_list(s, count as nat) is Bad,
                }
            }),
        decreases count - cnt,
    {
        let step = decode_value(buf, cur);
        match step {
            Decoded::Done(v, end) => {
                proof {
                    let prev = elems@;
                    let m = (count - cnt) as nat;
                    let scur = buf@.skip(cur as int);
                    let snext = buf@.skip(end as int);
                    assert(scur.skip(end - cur) =~= snext);
                    assert(prev.push(v).drop_last() =~= prev);
                    lemma_model_elems_len(prev);
                    assert(model_elems(prev.push(v)) == model_elems(prev).push(v@));
                    lemma_wf_list_snoc(model_elems(prev), v@);
                    match dec_list(snext, (m - 1) as nat) {
                        DecR::Val(vs, k2) => {
                            assert(dec_list(scur, m) == DecR::<Seq<ValueV>>::Val(
                                seq![v@] + vs,
                                (end - cur) + k2,
                            ));
                            assert(model_elems(prev) + (seq![v@] + vs) =~= model_elems(
                                prev.push(v),
                            ) + vs);
                        },
                        DecR::More => {
                            assert(dec_list(scur, m) is More);
                        },
                        DecR::Bad => {
                            assert(dec_list(scur, m) is Bad);
                        },
                    }
                }
                elems.push(v);
                cur = end;
                cnt = cnt + 1;
            },
            Decoded::Truncated => {
                return Decoded::Truncated;
            },
            Decoded::Malformed => {
                return Decoded::Malformed;
            },
        }
    }
    proof {
        let s = buf@.skip(start as int);
        let scur = buf@.skip(cur as int);
        assert(dec_list(scur, 0) == DecR::<Seq<ValueV>>::Val(Seq::empty(), 0));
        assert(model_elems(elems@) + Seq::<ValueV>::empty() =~= model_elems(elems@));
        lemma_model_elems_len(elems@);
    }
    Decoded::Done(elems, cur)
}

/// Decodes `count` key/value pairs framed one after another at
/// `buf[start..]`, agreeing exactly with [`dec_pairs`].
#[verifier::loop_isolation(false)]
#[verifier::rlimit(100)]
fn decode_pair_seq(buf: &Vec<u8>, start: usize, count: usize) -> (r: Decoded<
    Vec<(Value, Value)>,
>)
    requires
        start <= buf@.len(),
    ensures
        ({
            let s = buf@.skip(start as int);
            match r {
                Decoded::Done(ps, end) => {
                    &&& start <= end <= buf@.len()
                    &&& ps@.len() == count
                    &&& wf_pairs(model_pairs(ps@))
                    &&& dec_pairs(s, count as nat) == DecR::<Seq<(ValueV, ValueV)>>::Val(
                        model_pairs(ps@),
                        end - start,
                    )
                },
                Decoded::Truncated => dec_pairs(s, count as nat) is More,
                Decoded::Malformed => dec_pairs(s, count as nat) is Bad,
            }
        }),
    decreases buf@.len() - start, 1nat,
{
    let mut pairs: Vec<(Value, Value)> = Vec::new();
    let mut cur = start;
    let mut cnt: usize = 0;
    while cnt < count
        invariant
            start <= cur <= buf@.len(),
            cnt <= count,
            pairs@.len() == cnt,
            wf_pairs(model_pairs(pairs@)),
            ({
                let s = buf@.skip(start as int);
                let scur = buf@.skip(cur as int);
                match dec_pairs(scur, (count - cnt) as nat) {
                    DecR::Val(ps2, k) => dec_pairs(s, count as nat) == DecR::<
                        Seq<(ValueV, ValueV)>,
                    >::Val(model_pairs(pairs@) + ps2, (cur - start) + k),
                    DecR::More => dec_pairs(s, count as nat) is More,
                    DecR::Bad => dec_pairs(s, count as nat) is Bad,
                }
            }),
        decreases count - cnt,
    {
        let kstep = decode_value(buf, cur);
        match kstep {
            Decoded::Done(kv, mid) => {
                let vstep = decode_value(buf, mid);
                match vstep {
                    Decoded::Done(vv, end) => {
                        proof {
                            let prev = pairs@;
                            let m = (count - cnt) as nat;
                            let scur = buf@.skip(cur as int);
                            let smid = buf@.skip(mid as int);
                            let snext = buf@.skip(end as int);
                            assert(scur.skip(mid - cur) =~= smid);
                            assert(scur.skip((mid - cur) + (end - mid)) =~= snext);
                            assert(prev.push((kv, vv)).drop_last() =~= prev);
                            lemma_model_pairs_len(prev);
                            assert(model_pairs(prev.push((kv, vv))) == model_pairs(prev).push(
                                (kv@, vv@),
                            ));
                            lemma_wf_pairs_snoc(model_pairs(prev), (kv@, vv@));
                            match dec_pairs(snext, (m - 1) as nat) {
                                DecR::Val(ps2, k3) => {
                                    assert(dec_pairs(scur, m) == DecR::<
                                        Seq<(ValueV, ValueV)>,
                                    >::Val(
                                        seq![(kv@, vv@)] + ps2,
                                        (mid - cur) + (end - mid) + k3,
                                    ));
                                    assert(model_pairs(prev) + (seq![(kv@, vv@)] + ps2) =~=
                                        model_pairs(prev.push((kv, vv))) + ps2);
                                },
                                DecR::More => {
                                    assert(dec_pairs(scur, m) is More);
                                },
                                DecR::Bad => {
                                    assert(dec_pairs(scur, m) is Bad);
                                },
                            }
                        }
                        pairs.push((kv, vv));
                        cur = end;
                        cnt = cnt + 1;
                    },
                    Decoded::Truncated => {
                        proof {
                            let scur = buf@.skip(cur as int);
                            assert(scur.skip(mid - cur) =~= buf@.skip(mid as int));
                        }
                        return Decoded::Truncated;
                    },
                    Decoded::Malformed => {
                        proof {
                            let scur = buf@.skip(cur as int);
                            assert(scur.skip(mid - cur) =~= buf@.skip(mid as int));
                        }
                        return Decoded::Malformed;
                    },
                }
            },
            Decoded::Truncated => {
                return Decoded::Truncated;
            },
            Decoded::Malformed => {
                return Decoded::Malformed;
            },
        }
    }
    proof {
        let s = buf@.skip(start as int);
        let scur = buf@.skip(cur as int);
        assert(dec_pairs(scur, 0) == DecR::<Seq<(ValueV, ValueV)>>::Val(Seq::empty(), 0));
        assert(model_pairs(pairs@) + Seq::<(ValueV, ValueV)>::empty() =~= model_pairs(pairs@));
        lemma_model_pairs_len(pairs@);
    }
    Decoded::Done(pairs, cur)
}

} // verus!
