//! The client pool: reusable transport handles, keyed by target service
//! name, dialled lazily on first use.
//!
//! The pool holds the policy only; the dial itself and the lock that
//! serialises concurrent first use live with the driver, which holds
//! its guard across the dial.  A failed dial installs nothing, so the
//! next request for the same target dials again; an installed handle is
//! shared by every later request.

use vstd::prelude::*;

use crate::strmap::{map_get, map_has, StrMap};

verus! {

/// Cached transport handles by target service name.
pub struct ClientPool<H> {
    pub handles: StrMap<H>,
}

impl<H: View> ClientPool<H> {
    /// An empty pool: every first use will dial.
    pub fn new() -> (r: Self)
        ensures
            r.handles@ =~= Seq::<(Seq<char>, <H as View>::V)>::empty(),
    {
        ClientPool { handles: StrMap::new() }
    }

    /// The cached handle for a target, if an earlier use installed one.
    pub fn lookup<'a>(&'a self, service: &str) -> (r: Option<&'a H>)
        ensures
            r is Some <==> map_has(self.handles@, service@),
            match r {
                Some(h) => map_get(self.handles@, service@) == Some(h@),
                None => map_get(self.handles@, service@) is None,
            },
    {
        self.handles.get(service)
    }

    /// Install the handle a successful dial produced.  The first
    /// installation for a target wins: a later one changes nothing, so
    /// every waiter ends up sharing one channel.
    pub fn install(&mut self, service: String, handle: H)
        ensures
            map_has(old(self).handles@, service@) ==> final(self).handles@ == old(self).handles@,
            !map_has(old(self).handles@, service@) ==> final(self).handles@ =~= old(
                self,
            ).handles@.push((service@, handle@)),
    {
        if !self.handles.contains_key(service.as_str()) {
            self.handles.push(service, handle);
        }
    }
}

} // verus!
