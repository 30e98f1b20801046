//! The per-connection endpoint: dispatch of decoded messages, the
//! pending-call table for calls this side issued, and the serialized write
//! path, as one event-driven state machine.
//!
//! The endpoint does no I/O and runs no handler.  Each step returns the
//! [`Action`]s the driver must carry out: write bytes to the transport
//! (whole and in order — the write path is serialized), start a handler, or
//! fulfill a local call.  Handler completions come back through
//! [`Endpoint::on_handler_done`]; because the read loop never waits for
//! them, a slow handler delays no other message.

use crate::codec::{wf, LEN_LIMIT};
use crate::message::{enc_msg, Message, MessageV};
use crate::registry::Registry;
use crate::value::{Value, ValueV};
use vstd::prelude::*;

verus! {

broadcast use vstd::seq_lib::group_seq_lib_default;

/// Connection lifecycle: `Open` reads and dispatches; `Closing` (after end
/// of stream or shutdown) drains in-flight handlers but reads no more;
/// `Closed` has fulfilled every pending call with the connection-closed
/// error.
#[derive(PartialEq, Eq, Structural, Clone, Copy, Debug)]
pub enum ConnState {
    Open,
    Closing,
    Closed,
}

/// Mathematical model of an action.
pub enum ActionV {
    StartRequest { id: u32, method: Seq<u8>, params: ValueV },
    StartNotification { method: Seq<u8>, params: ValueV },
    Write(Seq<u8>),
    Resolve { id: u32, outcome: Result<ValueV, ValueV> },
}

/// What the driver must carry out after an endpoint step.
pub enum Action {
    /// Run the request handler bound to `method` on `params`, concurrently
    /// with further reading, and hand its outcome back through
    /// [`Endpoint::on_handler_done`] under the same id.
    StartRequest { id: u32, method: Vec<u8>, params: Value },
    /// Run the notification handler bound to `method`; nothing comes back.
    StartNotification { method: Vec<u8>, params: Value },
    /// Write these bytes to the transport, whole and in order relative to
    /// other writes.
    Write(Vec<u8>),
    /// Fulfill the local call with this id using this outcome.
    Resolve { id: u32, outcome: Result<Value, Value> },
}

impl Action {
    /// The mathematical model of this action.
    pub open spec fn model(self) -> ActionV {
        match self {
            Action::StartRequest { id, method, params } => ActionV::StartRequest {
                id,
                method: method@,
                params: params.model(),
            },
            Action::StartNotification { method, params } => ActionV::StartNotification {
                method: method@,
                params: params.model(),
            },
            Action::Write(b) => ActionV::Write(b@),
            Action::Resolve { id, outcome } => ActionV::Resolve {
                id,
                outcome: match outcome {
                    Ok(v) => Ok(v.model()),
                    Err(e) => Err(e.model()),
                },
            },
        }
    }
}

impl View for Action {
    type V = ActionV;

    open spec fn view(&self) -> ActionV {
        self.model()
    }
}

/// No id occurs twice.
pub open spec fn distinct_ids(s: Seq<u32>) -> bool {
    forall|i: int, j: int| 0 <= i < j < s.len() ==> s[i] != s[j]
}

/// The pending table after the call with `id` is resolved: the entry leaves,
/// everything else stays.
pub open spec fn resolve_pending(pending: Seq<u32>, id: u32) -> Seq<u32> {
    pending.remove_value(id)
}

/// The diagnostic a request for an unknown method is answered with:
/// `"method not found: "` followed by the method name, or the bare prefix if
/// the name would overflow the wire's length header.
pub open spec fn not_found_text(method: Seq<u8>) -> Seq<u8> {
    if method.len() + 18 < LEN_LIMIT {
        not_found_prefix() + method
    } else {
        not_found_prefix()
    }
}

/// The bytes of `"method not found: "`.
pub open spec fn not_found_prefix() -> Seq<u8> {
    seq![
        0x6du8, 0x65, 0x74, 0x68, 0x6f, 0x64, 0x20, 0x6e, 0x6f, 0x74, 0x20, 0x66, 0x6f, 0x75,
        0x6e, 0x64, 0x3a, 0x20,
    ]
}

/// The bytes of `"connection closed"`, the error every pending call is
/// fulfilled with at teardown.
pub open spec fn closed_text() -> Seq<u8> {
    seq![
        0x63u8, 0x6f, 0x6e, 0x6e, 0x65, 0x63, 0x74, 0x69, 0x6f, 0x6e, 0x20, 0x63, 0x6c, 0x6f,
        0x73, 0x65, 0x64,
    ]
}

/// The response a request dispatched to an unknown method is answered with.
pub open spec fn not_found_response(id: u32, method: Seq<u8>) -> MessageV {
    MessageV::Response { id, outcome: Err(ValueV::Str(not_found_text(method))) }
}

/// The connection-closed outcome.
pub open spec fn closed_outcome() -> Result<ValueV, ValueV> {
    Err(ValueV::Str(closed_text()))
}

/// The writes a handler completion produces: its own response, framed —
/// nothing on a closed connection.  A function of the completion and the
/// lifecycle state alone: no other in-flight request enters into it.
pub open spec fn completion_writes(st: ConnState, id: u32, outcome: Result<ValueV, ValueV>) -> Seq<
    ActionV,
> {
    if st == ConnState::Closed {
        Seq::empty()
    } else {
        seq![ActionV::Write(enc_msg(MessageV::Response { id, outcome }))]
    }
}

/// The resolutions teardown owes: one per pending id, in table order, each
/// with the connection-closed error.
pub open spec fn closed_resolutions(pending: Seq<u32>) -> Seq<ActionV> {
    Seq::new(pending.len(), |i: int| ActionV::Resolve { id: pending[i], outcome: closed_outcome() })
}

/// `"method not found: "` as a byte vector.
fn not_found_prefix_vec() -> (r: Vec<u8>)
    ensures
        r@ == not_found_prefix(),
{
    let mut v: Vec<u8> = Vec::new();
    v.push(0x6d);
    v.push(0x65);
    v.push(0x74);
    v.push(0x68);
    v.push(0x6f);
    v.push(0x64);
    v.push(0x20);
    v.push(0x6e);
    v.push(0x6f);
    v.push(0x74);
    v.push(0x20);
    v.push(0x66);
    v.push(0x6f);
    v.push(0x75);
    v.push(0x6e);
    v.push(0x64);
    v.push(0x3a);
    v.push(0x20);
    proof {
        assert(v@ =~= not_found_prefix());
    }
    v
}

/// The connection-closed error value.
fn closed_error_value() -> (r: Value)
    ensures
        r@ == ValueV::Str(closed_text()),
{
    let mut v: Vec<u8> = Vec::new();
    v.push(0x63);
    v.push(0x6f);
    v.push(0x6e);
    v.push(0x6e);
    v.push(0x65);
    v.push(0x63);
    v.push(0x74);
    v.push(0x69);
    v.push(0x6f);
    v.push(0x6e);
    v.push(0x20);
    v.push(0x63);
    v.push(0x6c);
    v.push(0x6f);
    v.push(0x73);
    v.push(0x65);
    v.push(0x64);
    proof {
        assert(v@ =~= closed_text());
    }
    Value::Str(v)
}

/// One endpoint owns one connection: its registry, its pending-call table,
/// its id mint and its lifecycle state.
pub struct Endpoint<H> {
    registry: Registry<H>,
    pending: Vec<u32>,
    next_id: u32,
    state: ConnState,
}

impl<H> Endpoint<H> {
    /// The request-handler bindings dispatch consults.
    pub closed spec fn req_map(self) -> Map<Seq<u8>, H> {
        self.registry.req_map()
    }

    /// The notification-handler bindings dispatch consults.
    pub closed spec fn not_map(self) -> Map<Seq<u8>, H> {
        self.registry.not_map()
    }

    /// Ids of calls this side issued and still awaits a response for.
    pub closed spec fn pending_ids(self) -> Seq<u32> {
        self.pending@
    }

    /// Where the connection stands in its lifecycle.
    pub closed spec fn conn_state(self) -> ConnState {
        self.state
    }

    /// The next id the mint will hand out.
    pub closed spec fn mint_next(self) -> u32 {
        self.next_id
    }

    /// Pending ids are distinct — each response resolves at most one call —
    /// and all lie below the mint's next id.
    pub closed spec fn inv(self) -> bool {
        &&& distinct_ids(self.pending@)
        &&& forall|i: int| 0 <= i < self.pending@.len() ==> self.pending@[i] < self.next_id
    }

    pub fn new(registry: Registry<H>) -> (r: Endpoint<H>)
        ensures
            r.inv(),
            r.req_map() == registry.req_map(),
            r.not_map() == registry.not_map(),
            r.pending_ids() == Seq::<u32>::empty(),
            r.conn_state() == ConnState::Open,
    {
        Endpoint { registry, pending: Vec::new(), next_id: 0, state: ConnState::Open }
    }

    /// The request handler bound to `method`, for the driver to run when it
    /// carries out a `StartRequest`.
    pub fn handler_for_request(&self, method: &Vec<u8>) -> (r: Option<&H>)
        ensures
            match r {
                Some(h) => self.req_map().contains_key(method@) && *h == self.req_map()[method@],
                None => !self.req_map().contains_key(method@),
            },
    {
        self.registry.lookup_request(method)
    }

    /// The notification handler bound to `method`.
    pub fn handler_for_notification(&self, method: &Vec<u8>) -> (r: Option<&H>)
        ensures
            match r {
                Some(h) => self.not_map().contains_key(method@) && *h == self.not_map()[method@],
                None => !self.not_map().contains_key(method@),
            },
    {
        self.registry.lookup_notification(method)
    }

    /// The dispatch step, for one decoded message while the connection reads.
    ///
    /// A request starts its handler, or is answered at once with the
    /// method-not-found error; a notification starts its handler or is
    /// dropped; a response resolves its pending call, and an unmatched one
    /// is ignored.  Outside `Open` the endpoint reads nothing and the step
    /// does nothing.
    pub fn on_message(&mut self, m: Message) -> (acts: Vec<Action>)
        requires
            old(self).inv(),
        ensures
            final(self).inv(),
            final(self).req_map() == old(self).req_map(),
            final(self).not_map() == old(self).not_map(),
            final(self).conn_state() == old(self).conn_state(),
            final(self).mint_next() == old(self).mint_next(),
            old(self).conn_state() != ConnState::Open ==> *final(self) == *old(self)
                && acts@.len() == 0,
            old(self).conn_state() == ConnState::Open ==> match m@ {
                MessageV::Request { id, method, params } => {
                    &&& final(self).pending_ids() == old(self).pending_ids()
                    &&& acts@.len() == 1
                    &&& if old(self).req_map().dom().contains(method) {
                        acts@[0]@ == (ActionV::StartRequest { id, method, params })
                    } else {
                        acts@[0]@ == ActionV::Write(enc_msg(not_found_response(id, method)))
                    }
                },
                MessageV::Notification { method, params } => {
                    &&& final(self).pending_ids() == old(self).pending_ids()
                    &&& if old(self).not_map().dom().contains(method) {
                        acts@.len() == 1 && acts@[0]@ == (ActionV::StartNotification {
                            method,
                            params,
                        })
                    } else {
                        acts@.len() == 0
                    }
                },
                MessageV::Response { id, outcome } => {
                    if old(self).pending_ids().contains(id) {
                        &&& final(self).pending_ids() == resolve_pending(
                            old(self).pending_ids(),
                            id,
                        )
                        &&& acts@.len() == 1
                        &&& acts@[0]@ == (ActionV::Resolve { id, outcome })
                    } else {
                        &&& final(self).pending_ids() == old(self).pending_ids()
                        &&& acts@.len() == 0
                    }
                },
            },
    {
        let mut acts: Vec<Action> = Vec::new();
        if self.state != ConnState::Open {
            return acts;
        }
        match m {
            Message::Request { id, method, params } => {
                if self.registry.lookup_request(&method).is_some() {
                    acts.push(Action::StartRequest { id, method, params });
                } else {
                    let mut note = not_found_prefix_vec();
                    if (method.len() as u64) < LEN_LIMIT - 18 {
                        crate::bytes::push_bytes(&mut note, &method);
                        proof {
                            assert(note@ =~= not_found_text(method@));
                        }
                    }
                    let resp = Message::Response { id, outcome: Err(Value::Str(note)) };
                    let bytes = crate::message::encode_message(&resp);
                    acts.push(Action::Write(bytes));
                }
            },
            Message::Notification { method, params } => {
                if self.registry.lookup_notification(&method).is_some() {
                    acts.push(Action::StartNotification { method, params });
                }
            },
            Message::Response { id, outcome } => {
                let ghost p = self.pending@;
                let mut i: usize = 0;
                let mut found = false;
                while i < self.pending.len() && !found
                    invariant
                        i <= p.len(),
                        self.pending@ == p,
                        !found ==> forall|j: int| 0 <= j < i ==> p[j] != id,
                        found ==> i < p.len() && p[i as int] == id,
                    decreases p.len() - i, (if found { 0int } else { 1int }),
                {
                    if self.pending[i] == id {
                        found = true;
                    } else {
                        i = i + 1;
                    }
                }
                if found {
                    self.pending.remove(i);
                    proof {
                        assert(p.contains(id));
                        p.index_of_first_ensures(id);
                        let j = p.index_of_first(id).unwrap();
                        assert(j == i as int);
                        assert(resolve_pending(p, id) == p.remove(i as int));
                        assert forall|a: int|
                            0 <= a < self.pending@.len() implies self.pending@[a] == (if a
                            < i as int {
                            p[a]
                        } else {
                            p[a + 1]
                        }) by {
                            assert(self.pending@ == p.subrange(0, i as int) + p.subrange(
                                i as int + 1,
                                p.len() as int,
                            ));
                        }
                    }
                    acts.push(Action::Resolve { id, outcome });
                }
            },
        }
        acts
    }

    /// Issues a request on this connection — the client-handle path a
    /// handler uses for bidirectional calls.  While `Open` it mints a fresh
    /// id, enters it in the pending-call table, and hands the framed request
    /// to the write path; the driver fulfills that id when `on_message`
    /// yields its `Resolve`, or at teardown.  On a connection no longer open
    /// the call fails at once with the connection-closed outcome.
    pub fn call(&mut self, method: Vec<u8>, params: Value) -> (r: (u32, Vec<Action>))
        requires
            old(self).inv(),
            old(self).mint_next() < u32::MAX,
            method@.len() < LEN_LIMIT,
            wf(params@),
        ensures
            final(self).inv(),
            final(self).req_map() == old(self).req_map(),
            final(self).not_map() == old(self).not_map(),
            final(self).conn_state() == old(self).conn_state(),
            old(self).conn_state() == ConnState::Open ==> {
                &&& r.0 == old(self).mint_next()
                &&& !old(self).pending_ids().contains(r.0)
                &&& final(self).pending_ids() == old(self).pending_ids().push(r.0)
                &&& final(self).mint_next() == old(self).mint_next() + 1
                &&& r.1@.len() == 1
                &&& r.1@[0]@ == ActionV::Write(
                    enc_msg(MessageV::Request { id: r.0, method: method@, params: params@ }),
                )
            },
            old(self).conn_state() != ConnState::Open ==> {
                &&& *final(self) == *old(self)
                &&& r.1@.len() == 1
                &&& r.1@[0]@ == (ActionV::Resolve { id: r.0, outcome: closed_outcome() })
            },
    {
        let mut acts: Vec<Action> = Vec::new();
        let id = self.next_id;
        if self.state == ConnState::Open {
            let ghost p = self.pending@;
            proof {
                assert(forall|k: int| 0 <= k < p.len() ==> p[k] != id);
            }
            self.next_id = self.next_id + 1;
            self.pending.push(id);
            let msg = Message::Request { id, method, params };
            let bytes = crate::message::encode_message(&msg);
            acts.push(Action::Write(bytes));
            proof {
                assert forall|a: int, b: int|
                    0 <= a < b < self.pending@.len() implies self.pending@[a]
                    != self.pending@[b] by {
                    if b < p.len() {
                        assert(p[a] != p[b]);
                    } else {
                        assert(self.pending@[b] == id && self.pending@[a] == p[a]);
                    }
                }
            }
            (id, acts)
        } else {
            acts.push(Action::Resolve { id, outcome: Err(closed_error_value()) });
            (id, acts)
        }
    }

    /// Sends a notification on this connection: fire-and-forget.  Outside
    /// `Open` it is dropped.
    pub fn notify(&mut self, method: Vec<u8>, params: Value) -> (acts: Vec<Action>)
        requires
            old(self).inv(),
            method@.len() < LEN_LIMIT,
            wf(params@),
        ensures
            final(self).inv(),
            *final(self) == *old(self),
            old(self).conn_state() == ConnState::Open ==> acts@.len() == 1 && acts@[0]@
                == ActionV::Write(
                enc_msg(MessageV::Notification { method: method@, params: params@ }),
            ),
            old(self).conn_state() != ConnState::Open ==> acts@.len() == 0,
    {
        let mut acts: Vec<Action> = Vec::new();
        if self.state == ConnState::Open {
            let msg = Message::Notification { method, params };
            let bytes = crate::message::encode_message(&msg);
            acts.push(Action::Write(bytes));
        }
        acts
    }

    /// Accepts a request handler's outcome and frames its response for the
    /// write path.  The endpoint does not change, and the response is a
    /// function of the completion alone: completions arriving in any order
    /// each yield exactly the response carrying their own id, so a slow
    /// handler delays no other response.  After `Closed` the transport is
    /// gone and nothing is written.
    pub fn on_handler_done(&mut self, id: u32, outcome: Result<Value, Value>) -> (acts: Vec<
        Action,
    >)
        requires
            old(self).inv(),
            match outcome {
                Ok(v) => wf(v@),
                Err(e) => wf(e@) && e@ != ValueV::Nil,
            },
        ensures
            final(self).inv(),
            *final(self) == *old(self),
            old(self).conn_state() == ConnState::Closed ==> acts@.len() == 0,
            old(self).conn_state() != ConnState::Closed ==> acts@.len() == 1 && acts@[0]@
                == ActionV::Write(
                enc_msg(
                    MessageV::Response {
                        id,
                        outcome: match outcome {
                            Ok(v) => Ok(v@),
                            Err(e) => Err(e@),
                        },
                    },
                ),
            ),
            ({
                let writes = completion_writes(
                    old(self).conn_state(),
                    id,
                    match outcome {
                        Ok(v) => Ok(v@),
                        Err(e) => Err(e@),
                    },
                );
                acts@.len() == writes.len() && forall|i: int|
                    0 <= i < acts@.len() ==> acts@[i]@ == writes[i]
            }),
    {
        let mut acts: Vec<Action> = Vec::new();
        if self.state != ConnState::Closed {
            let resp = Message::Response { id, outcome };
            let bytes = crate::message::encode_message(&resp);
            acts.push(Action::Write(bytes));
        }
        acts
    }

    /// Stops reading: `Open` becomes `Closing` (read end of stream, a fatal
    /// framing fault, or an explicit shutdown).  In-flight handlers may
    /// still complete and their responses are still written.
    pub fn shutdown(&mut self)
        requires
            old(self).inv(),
        ensures
            final(self).inv(),
            final(self).pending_ids() == old(self).pending_ids(),
            final(self).req_map() == old(self).req_map(),
            final(self).not_map() == old(self).not_map(),
            final(self).mint_next() == old(self).mint_next(),
            final(self).conn_state() == (if old(self).conn_state() == ConnState::Open {
                ConnState::Closing
            } else {
                old(self).conn_state()
            }),
    {
        if self.state == ConnState::Open {
            self.state = ConnState::Closing;
        }
    }

    /// Tears the connection down: the state becomes `Closed` and every
    /// pending call is fulfilled with the connection-closed error, in table
    /// order, leaving the table empty.
    pub fn on_transport_closed(&mut self) -> (acts: Vec<Action>)
        requires
            old(self).inv(),
        ensures
            final(self).inv(),
            final(self).conn_state() == ConnState::Closed,
            final(self).pending_ids() == Seq::<u32>::empty(),
            final(self).req_map() == old(self).req_map(),
            final(self).not_map() == old(self).not_map(),
            final(self).mint_next() == old(self).mint_next(),
            acts@.len() == old(self).pending_ids().len(),
            forall|i: int| 0 <= i < acts@.len() ==> acts@[i]@ == closed_resolutions(
                old(self).pending_ids(),
            )[i],
    {
        self.state = ConnState::Closed;
        let mut acts: Vec<Action> = Vec::new();
        let ghost p = self.pending@;
        let mut i: usize = 0;
        while i < self.pending.len()
            invariant
                i <= p.len(),
                self.pending@ == p,
                acts@.len() == i,
                forall|j: int| 0 <= j < i ==> acts@[j]@ == closed_resolutions(p)[j],
            decreases p.len() - i,
        {
            let id = self.pending[i];
            acts.push(Action::Resolve { id, outcome: Err(closed_error_value()) });
            i = i + 1;
        }
        self.pending = Vec::new();
        proof {
            assert(self.pending@ =~= Seq::<u32>::empty());
        }
        acts
    }
}

/// Resolving one pending call touches no other: the entry with `id` leaves
/// the table; every other id stays, stays distinct, and can still resolve.
pub proof fn lemma_resolve_pending(pending: Seq<u32>, id: u32)
    requires
        distinct_ids(pending),
        pending.contains(id),
    ensures
        resolve_pending(pending, id).len() == pending.len() - 1,
        !resolve_pending(pending, id).contains(id),
        forall|x: u32| x != id ==> (resolve_pending(pending, id).contains(x)
            <==> pending.contains(x)),
        distinct_ids(resolve_pending(pending, id)),
{
    pending.index_of_first_ensures(id);
    let i = pending.index_of_first(id).unwrap();
    let q = pending.remove(i);
    assert(resolve_pending(pending, id) == q);
    assert forall|a: int| 0 <= a < q.len() implies q[a] == (if a < i {
        pending[a]
    } else {
        pending[a + 1]
    }) by {
        assert(q == pending.subrange(0, i) + pending.subrange(i + 1, pending.len() as int));
    }
    assert forall|a: int| 0 <= a < q.len() implies q[a] != id by {
        if a < i {
            assert(pending[a] != pending[i]);
        } else {
            assert(pending[a + 1] != pending[i]);
        }
    }
    assert forall|x: u32| x != id implies (q.contains(x) <==> pending.contains(x)) by {
        if q.contains(x) {
            let a = choose|a: int| 0 <= a < q.len() && q[a] == x;
            if a < i {
                assert(pending[a] == x);
            } else {
                assert(pending[a + 1] == x);
            }
        }
        if pending.contains(x) {
            let b = choose|b: int| 0 <= b < pending.len() && pending[b] == x;
            if b < i {
                assert(q[b] == x);
            } else {
                assert(b != i);
                assert(q[b - 1] == x);
            }
        }
    }
    assert forall|a: int, b: int| 0 <= a < b < q.len() implies q[a] != q[b] by {
        if b < i {
            assert(pending[a] != pending[b]);
        } else if a < i {
            assert(pending[a] != pending[b + 1]);
        } else {
            assert(pending[a + 1] != pending[b + 1]);
        }
    }
}

/// Correlation uniqueness: with distinct ids pending, each response
/// fulfills exactly the call bearing its own id and leaves every other call
/// pending — so N concurrently issued calls resolve correctly whatever
/// order their responses arrive in.  (The dispatch step pairs the `Resolve`
/// action with precisely the resolved response's id and outcome.)
pub proof fn law_correlation_uniqueness(pending: Seq<u32>, id1: u32, id2: u32)
    requires
        distinct_ids(pending),
        pending.contains(id1),
        pending.contains(id2),
        id1 != id2,
    ensures
        !resolve_pending(pending, id1).contains(id1),
        resolve_pending(pending, id1).contains(id2),
        distinct_ids(resolve_pending(pending, id1)),
        !resolve_pending(resolve_pending(pending, id1), id2).contains(id2),
        !resolve_pending(resolve_pending(pending, id1), id2).contains(id1),
{
    lemma_resolve_pending(pending, id1);
    lemma_resolve_pending(resolve_pending(pending, id1), id2);
}


/// Concurrent non-blocking dispatch: a completion's response is a function
/// of that completion and the lifecycle state alone, and handling it moves
/// no endpoint state — so two handlers finishing in either order produce
/// the same two response writes, and a slow handler delays no fast one.
pub proof fn law_completion_order_immaterial(
    st: ConnState,
    id1: u32,
    o1: Result<ValueV, ValueV>,
    id2: u32,
    o2: Result<ValueV, ValueV>,
)
    ensures
        (completion_writes(st, id1, o1) + completion_writes(st, id2, o2)).to_multiset() == (
        completion_writes(st, id2, o2) + completion_writes(st, id1, o1)).to_multiset(),
{
    broadcast use vstd::multiset::group_multiset_axioms;

    let a = completion_writes(st, id1, o1);
    let b = completion_writes(st, id2, o2);
    vstd::seq_lib::lemma_multiset_commutative(a, b);
    vstd::seq_lib::lemma_multiset_commutative(b, a);
    assert((a + b).to_multiset() =~= (b + a).to_multiset());
}

/// Teardown fulfillment: with distinct ids pending, teardown's resolutions
/// fulfill every pending call — each id exactly once, each with the
/// connection-closed outcome, none left hanging.
pub proof fn law_teardown_fulfillment(pending: Seq<u32>)
    requires
        distinct_ids(pending),
    ensures
        closed_resolutions(pending).len() == pending.len(),
        forall|i: int| 0 <= i < pending.len() ==> closed_resolutions(pending)[i] == (
        ActionV::Resolve { id: pending[i], outcome: closed_outcome() }),
        forall|id: u32| pending.contains(id) ==> exists|i: int|
            0 <= i < pending.len() && closed_resolutions(pending)[i] == (ActionV::Resolve {
                id,
                outcome: closed_outcome(),
            }),
        forall|i: int, j: int| 0 <= i < j < pending.len() ==> closed_resolutions(pending)[i]
            != closed_resolutions(pending)[j],
{
    assert forall|id: u32| pending.contains(id) implies exists|i: int|
        0 <= i < pending.len() && closed_resolutions(pending)[i] == (ActionV::Resolve {
            id,
            outcome: closed_outcome(),
        }) by {
        let k = choose|k: int| 0 <= k < pending.len() && pending[k] == id;
        assert(closed_resolutions(pending)[k] == (ActionV::Resolve {
            id,
            outcome: closed_outcome(),
        }));
    }
    assert forall|i: int, j: int| 0 <= i < j < pending.len() implies closed_resolutions(
        pending,
    )[i] != closed_resolutions(pending)[j] by {
        assert(pending[i] != pending[j]);
    }
}

} // verus!
