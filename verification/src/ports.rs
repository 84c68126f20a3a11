//! Host port assignment for a fleet of services.
//!
//! One host port per service, taken from the pool `[50051, 60000)`.
//! Services are ranked alphabetically so that reruns on the same topology
//! assign the same ports; the service with the lowest name takes the
//! first port of the pool.

use vstd::prelude::*;

use crate::model::ServiceConfig;
use crate::strmap::{keys_distinct, map_has, StrMap};
use crate::text::{lemma_lex_trichotomy, lex_lt, str_lt};

verus! {

/// First port of the pool.
pub open spec fn spec_port_base() -> int {
    50051
}

/// One past the last port of the pool.
pub open spec fn spec_port_limit() -> int {
    60000
}

/// The materialiser ran out of host ports.
#[derive(Clone, Copy, PartialEq, Eq, Structural, Debug)]
pub struct PortExhausted {}

/// Assign one distinct host port to every service.
///
/// The result lists services in strictly ascending name order with
/// consecutive ports from the base of the pool, so the assignment is a
/// function of the set of service names alone.  Fails exactly when the
/// fleet is larger than the pool.
pub fn assign_ports(services: &StrMap<ServiceConfig>) -> (r: Result<StrMap<u16>, PortExhausted>)
    requires
        keys_distinct(services@),
    ensures
        r is Ok <==> services@.len() <= spec_port_limit() - spec_port_base(),
        r matches Ok(ports) ==> {
            &&& ports@.len() == services@.len()
            &&& forall|i: int|
                0 <= i < services@.len() ==> map_has(ports@, #[trigger] services@[i].0)
            &&& forall|y: int|
                0 <= y < ports@.len() ==> (#[trigger] ports@[y].1) == spec_port_base() + y
            &&& forall|y1: int, y2: int|
                0 <= y1 < y2 < ports@.len() ==> lex_lt(ports@[y1].0, ports@[y2].0)
            &&& forall|y1: int, y2: int|
                0 <= y1 < y2 < ports@.len() ==> (#[trigger] ports@[y1].1) != (
                #[trigger] ports@[y2].1)
        },
{
    let n: usize = services.entries.len();
    if n > 9949 {
        assert(services@.len() > spec_port_limit() - spec_port_base());
        return Err(PortExhausted {  });
    }
    let mut used: Vec<bool> = Vec::new();
    for z in 0..n
        invariant
            used@.len() == z,
            forall|q: int| 0 <= q < z ==> !used@[q],
            count_unused(used@) == z,
    {
        let ghost u0 = used@;
        used.push(false);
        proof {
            assert(used@.drop_last() =~= u0);
        }
    }
    let mut ports: StrMap<u16> = StrMap::new();
    for t in 0..n
        invariant
            n == services@.len(),
            n <= 9949,
            keys_distinct(services@),
            used@.len() == n,
            ports@.len() == t,
            forall|y: int| 0 <= y < t ==> (#[trigger] ports@[y].1) == spec_port_base() + y,
            forall|y1: int, y2: int| 0 <= y1 < y2 < t ==> lex_lt(ports@[y1].0, ports@[y2].0),
            forall|idx: int|
                0 <= idx < n && #[trigger] used@[idx] ==> map_has(ports@, services@[idx].0),
            forall|y: int| 0 <= y < t ==> has_owner(services@, used@, #[trigger] ports@[y].0),
            forall|y: int, idx: int|
                0 <= y < t && 0 <= idx < n && !used@[idx] ==> lex_lt(
                    #[trigger] ports@[y].0,
                    #[trigger] services@[idx].0,
                ),
            count_unused(used@) == n - t,
    {
        // pick the lexicographically least name not yet assigned
        let mut best: usize = 0;
        let mut have_best = false;
        for idx in 0..n
            invariant
                n == services@.len(),
                keys_distinct(services@),
                used@.len() == n,
                have_best ==> best < idx && !used@[best as int],
                have_best ==> forall|q: int|
                    0 <= q < idx && !used@[q] ==> q == best as int || lex_lt(
                        services@[best as int].0,
                        #[trigger] services@[q].0,
                    ),
                !have_best ==> forall|q: int| 0 <= q < idx ==> used@[q],
        {
            if !used[idx] {
                if !have_best {
                    best = idx;
                    have_best = true;
                } else {
                    if str_lt(
                        services.entries[idx].0.as_str(),
                        services.entries[best].0.as_str(),
                    ) {
                        proof {
                            assert(lex_lt(services@[idx as int].0, services@[best as int].0));
                            assert forall|q: int|
                                0 <= q < idx && !used@[q] && q != best as int implies lex_lt(
                                services@[idx as int].0,
                                #[trigger] services@[q].0,
                            ) by {
                                crate::text::lemma_lex_trans(
                                    services@[idx as int].0,
                                    services@[best as int].0,
                                    services@[q].0,
                                );
                            }
                        }
                        best = idx;
                    } else {
                        proof {
                            assert(services@[best as int].0 != services@[idx as int].0);
                            lemma_lex_trichotomy(
                                services@[best as int].0,
                                services@[idx as int].0,
                            );
                        }
                    }
                }
            }
        }
        proof {
            if !have_best {
                let w = lemma_count_unused_partial(used@);
                assert(false);
            }
        }
        let ghost used0 = used@;
        let ghost ports0 = ports@;
        used.set(best, true);
        proof {
            lemma_count_unused_update(used0, best as int);
        }
        let port: u16 = 50051 + (t as u16);
        let name: String = services.entries[best].0.clone();
        ports.push(name, port);
        proof {
            assert(forall|y: int| 0 <= y < ports0.len() ==> ports@[y] == ports0[y]);
            assert(ports@[t as int].0 == services@[best as int].0);
            assert(ports@[t as int].1 == spec_port_base() + t);
            assert forall|y: int, idx: int|
                0 <= y < t + 1 && 0 <= idx < n && !used@[idx] implies lex_lt(
                #[trigger] ports@[y].0,
                #[trigger] services@[idx].0,
            ) by {
                if y < t {
                    assert(!used0[idx]);
                } else {
                    assert(!used0[idx] && idx != best as int);
                    assert(services@[best as int].0 != services@[idx].0);
                    lemma_lex_trichotomy(services@[best as int].0, services@[idx].0);
                    assert(lex_lt(services@[best as int].0, services@[idx].0));
                }
            }
            assert forall|y1: int, y2: int| 0 <= y1 < y2 < t + 1 implies lex_lt(
                ports@[y1].0,
                ports@[y2].0,
            ) by {
                if y2 == t as int {
                    assert(!used0[best as int]);
                    assert(lex_lt(ports0[y1].0, services@[best as int].0));
                }
            }
            assert forall|y: int| 0 <= y < t + 1 implies has_owner(
                services@,
                used@,
                #[trigger] ports@[y].0,
            ) by {
                if y < t {
                    assert(has_owner(services@, used0, ports0[y].0));
                    let idx2 = choose|idx2: int|
                        0 <= idx2 < services@.len() && used0[idx2]
                            && (#[trigger] services@[idx2].0) == ports0[y].0;
                    assert(used@[idx2]);
                    assert(services@[idx2].0 == ports@[y].0);
                } else {
                    assert(used@[best as int] && services@[best as int].0 == ports@[y].0);
                }
            }
            assert forall|idx: int|
                0 <= idx < n && #[trigger] used@[idx] implies map_has(
                ports@,
                services@[idx].0,
            ) by {
                if idx == best as int {
                    assert(ports@[t as int].0 == services@[idx].0);
                } else {
                    assert(used0[idx]);
                    let y = choose|y: int| 0 <= y < ports0.len() && ports0[y].0 == services@[idx].0;
                    assert(ports@[y].0 == services@[idx].0);
                }
            }
        }
    }
    proof {
        assert(count_unused(used@) == 0);
        lemma_count_unused_zero(used@);
        assert forall|i: int| 0 <= i < services@.len() implies map_has(
            ports@,
            #[trigger] services@[i].0,
        ) by {
            assert(used@[i]);
        }
    }
    Ok(ports)
}

/// Some used service owns this name.
pub open spec fn has_owner(
    services: Seq<(Seq<char>, crate::model::ServiceV)>,
    used: Seq<bool>,
    name: Seq<char>,
) -> bool {
    exists|idx: int|
        0 <= idx < services.len() && used[idx] && (#[trigger] services[idx].0) == name
}

/// Number of `false` entries.
pub open spec fn count_unused(s: Seq<bool>) -> int
    decreases s.len(),
{
    if s.len() == 0 {
        0
    } else {
        count_unused(s.drop_last()) + if s.last() {
            0int
        } else {
            1int
        }
    }
}

proof fn lemma_count_unused_update(s: Seq<bool>, i: int)
    requires
        0 <= i < s.len(),
        !s[i],
    ensures
        count_unused(s.update(i, true)) == count_unused(s) - 1,
    decreases s.len(),
{
    let u = s.update(i, true);
    if i == s.len() - 1 {
        assert(u.drop_last() =~= s.drop_last());
    } else {
        assert(u.drop_last() =~= s.drop_last().update(i, true));
        lemma_count_unused_update(s.drop_last(), i);
    }
}

proof fn lemma_count_unused_partial(s: Seq<bool>) -> (i: int)
    requires
        count_unused(s) > 0,
    ensures
        0 <= i < s.len() && !s[i],
    decreases s.len(),
{
    if s.len() > 0 && !s.last() {
        s.len() - 1
    } else {
        let i = lemma_count_unused_partial(s.drop_last());
        i
    }
}

proof fn lemma_count_unused_zero(s: Seq<bool>)
    requires
        count_unused(s) == 0,
    ensures
        forall|i: int| 0 <= i < s.len() ==> s[i],
    decreases s.len(),
{
    if s.len() > 0 {
        lemma_count_unused_nonneg(s.drop_last());
        if !s.last() {
            lemma_count_unused_nonneg(s);
            assert(count_unused(s) > 0);
        }
        lemma_count_unused_zero(s.drop_last());
        assert(forall|i: int| 0 <= i < s.len() - 1 ==> s[i] == s.drop_last()[i]);
    }
}

proof fn lemma_count_unused_nonneg(s: Seq<bool>)
    ensures
        count_unused(s) >= 0,
    decreases s.len(),
{
    if s.len() > 0 {
        lemma_count_unused_nonneg(s.drop_last());
    }
}


} // verus!
