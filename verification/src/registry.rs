//! The method registry: bindings from method names to handlers.
//!
//! The engine never runs a handler itself; `H` is whatever token or closure
//! index the driver uses to find the code to run.  The engine only needs the
//! bindings to decide how a request or notification is dispatched.

use crate::bytes::bytes_eq;
use vstd::prelude::*;

verus! {

/// What a sequence of (name, handler) entries means: the last binding for a
/// name wins.
pub open spec fn table_map<H>(entries: Seq<(Vec<u8>, H)>) -> Map<Seq<u8>, H>
    decreases entries,
{
    if entries.len() == 0 {
        Map::empty()
    } else {
        table_map(entries.drop_last()).insert(entries.last().0@, entries.last().1)
    }
}

/// A table of method bindings, kept in two planes: request handlers, which
/// produce an outcome answered by a response, and notification handlers,
/// which are fire-and-forget.
pub struct Registry<H> {
    req: Vec<(Vec<u8>, H)>,
    not: Vec<(Vec<u8>, H)>,
}

impl<H> Registry<H> {
    /// The request-handler bindings.
    pub closed spec fn req_map(self) -> Map<Seq<u8>, H> {
        table_map(self.req@)
    }

    /// The notification-handler bindings.
    pub closed spec fn not_map(self) -> Map<Seq<u8>, H> {
        table_map(self.not@)
    }

    pub fn new() -> (r: Registry<H>)
        ensures
            r.req_map() == Map::<Seq<u8>, H>::empty(),
            r.not_map() == Map::<Seq<u8>, H>::empty(),
    {
        Registry { req: Vec::new(), not: Vec::new() }
    }

    /// Binds `method` to a request handler; the last binding for a name wins.
    pub fn register(&mut self, method: Vec<u8>, handler: H)
        ensures
            final(self).req_map() == old(self).req_map().insert(method@, handler),
            final(self).not_map() == old(self).not_map(),
    {
        let ghost prior = self.req@;
        self.req.push((method, handler));
        proof {
            assert(self.req@.drop_last() =~= prior);
        }
    }

    /// Binds `method` to a notification handler; the last binding wins.
    pub fn register_notification(&mut self, method: Vec<u8>, handler: H)
        ensures
            final(self).not_map() == old(self).not_map().insert(method@, handler),
            final(self).req_map() == old(self).req_map(),
    {
        let ghost prior = self.not@;
        self.not.push((method, handler));
        proof {
            assert(self.not@.drop_last() =~= prior);
        }
    }

    /// The request handler bound to `method`, if any.
    pub fn lookup_request(&self, method: &Vec<u8>) -> (r: Option<&H>)
        ensures
            match r {
                Some(h) => self.req_map().contains_key(method@) && *h == self.req_map()[method@],
                None => !self.req_map().contains_key(method@),
            },
    {
        Self::lookup(&self.req, method)
    }

    /// The notification handler bound to `method`, if any.
    pub fn lookup_notification(&self, method: &Vec<u8>) -> (r: Option<&H>)
        ensures
            match r {
                Some(h) => self.not_map().contains_key(method@) && *h == self.not_map()[method@],
                None => !self.not_map().contains_key(method@),
            },
    {
        Self::lookup(&self.not, method)
    }

    fn lookup<'a>(entries: &'a Vec<(Vec<u8>, H)>, method: &Vec<u8>) -> (r: Option<&'a H>)
        ensures
            match r {
                Some(h) => table_map(entries@).contains_key(method@) && *h == table_map(
                    entries@,
                )[method@],
                None => !table_map(entries@).contains_key(method@),
            },
    {
        let ghost es = entries@;
        proof {
            assert(es.take(es.len() as int) =~= es);
        }
        let mut i = entries.len();
        while i > 0
            invariant
                i <= es.len(),
                entries@ == es,
                table_map(es).contains_key(method@) == table_map(
                    es.take(i as int),
                ).contains_key(method@),
                table_map(es).contains_key(method@) ==> table_map(es)[method@] == table_map(
                    es.take(i as int),
                )[method@],
            decreases i,
        {
            i = i - 1;
            proof {
                assert(es.take(i as int + 1).drop_last() =~= es.take(i as int));
                assert(es.take(i as int + 1).last() == es[i as int]);
            }
            if bytes_eq(&entries[i].0, method) {
                return Some(&entries[i].1);
            }
        }
        proof {
            assert(es.take(0) =~= Seq::<(Vec<u8>, H)>::empty());
        }
        None
    }
}

} // verus!
