//! Incremental framing of the inbound byte stream: buffers transport bytes
//! and yields the messages framed on them, in wire order.

use crate::bytes::push_bytes;
use crate::codec::{dec, decode_value, DecR, Decoded};
use crate::message::{msg_of_value, value_to_message, Message};
use vstd::prelude::*;

verus! {

broadcast use vstd::seq_lib::group_seq_lib_default;

/// Buffers inbound bytes and frames messages off their front.
pub struct Decoder {
    buf: Vec<u8>,
    pos: usize,
}

/// One step of the framing loop.
pub enum FrameStep {
    /// A whole message stood at the front of the buffer; it was consumed.
    Msg(Message),
    /// No whole message yet: feed more bytes.
    Pending,
    /// The buffer front is no framing of a message: a fatal framing fault.
    Corrupt,
}

impl Decoder {
    /// The bytes received and not yet consumed by a framed message.
    pub closed spec fn pending_bytes(self) -> Seq<u8> {
        self.buf@.skip(self.pos as int)
    }

    pub closed spec fn inv(self) -> bool {
        self.pos <= self.buf@.len()
    }

    pub fn new() -> (r: Decoder)
        ensures
            r.inv(),
            r.pending_bytes() == Seq::<u8>::empty(),
    {
        let d = Decoder { buf: Vec::new(), pos: 0 };
        proof {
            assert(d.pending_bytes() =~= Seq::<u8>::empty());
        }
        d
    }

    /// Appends bytes read from the transport.
    pub fn feed(&mut self, data: &Vec<u8>)
        requires
            old(self).inv(),
        ensures
            final(self).inv(),
            final(self).pending_bytes() == old(self).pending_bytes() + data@,
    {
        push_bytes(&mut self.buf, data);
        proof {
            assert(self.pending_bytes() =~= old(self).pending_bytes() + data@);
        }
    }

    /// Takes the next framed message off the buffer, if one is whole.
    ///
    /// `Msg` consumes exactly the message's framing; `Pending` and `Corrupt`
    /// leave the buffer as it was.
    pub fn next_message(&mut self) -> (r: FrameStep)
        requires
            old(self).inv(),
        ensures
            final(self).inv(),
            match r {
                FrameStep::Msg(m) => dec(old(self).pending_bytes()) matches DecR::Val(v, k)
                    && msg_of_value(v) == Some(m@) && final(self).pending_bytes() == old(
                    self,
                ).pending_bytes().skip(k),
                FrameStep::Pending => dec(old(self).pending_bytes()) is More && *final(self)
                    == *old(self),
                FrameStep::Corrupt => (dec(old(self).pending_bytes()) is Bad || (dec(
                    old(self).pending_bytes(),
                ) matches DecR::Val(v, _) && msg_of_value(v) is None)) && *final(self) == *old(
                    self,
                ),
            },
    {
        match decode_value(&self.buf, self.pos) {
            Decoded::Done(v, end) => {
                match value_to_message(v) {
                    Some(m) => {
                        proof {
                            assert(self.buf@.skip(end as int) =~= old(
                                self,
                            ).pending_bytes().skip(end - self.pos));
                        }
                        if end == self.buf.len() {
                            self.buf = Vec::new();
                            self.pos = 0;
                            proof {
                                assert(self.pending_bytes() =~= old(
                                    self,
                                ).pending_bytes().skip(end - old(self).pos));
                            }
                        } else {
                            self.pos = end;
                        }
                        FrameStep::Msg(m)
                    },
                    None => FrameStep::Corrupt,
                }
            },
            Decoded::Truncated => FrameStep::Pending,
            Decoded::Malformed => FrameStep::Corrupt,
        }
    }
}

} // verus!
