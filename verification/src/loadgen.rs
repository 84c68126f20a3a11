//! Load generation: one worker per entry point, firing at a fixed rate.
//!
//! The workers themselves run with the driver; what is decided here is
//! the plan each worker follows — where to fire and how often — and the
//! arithmetic of the schedule.

use vstd::prelude::*;

use crate::model::LoadConfig;
use crate::strmap::{map_get, map_has, StrMap};

verus! {

/// The steady firing period, in microseconds, for a positive rate.
pub fn period_micros(requests_per_second: u32) -> (r: u64)
    requires
        requests_per_second > 0,
    ensures
        r == 1_000_000 as int / requests_per_second as int,
{
    1_000_000u64 / (requests_per_second as u64)
}

/// How many requests a worker dispatches over a whole number of
/// seconds at its configured rate.
pub fn expected_requests(requests_per_second: u32, seconds: u32) -> (r: u64)
    ensures
        r == requests_per_second as int * seconds as int,
{
    proof {
        assert((requests_per_second as int) * (seconds as int) <= 0xFFFF_FFFF * 0xFFFF_FFFF)
            by (nonlinear_arith)
            requires
                requests_per_second <= 0xFFFF_FFFFu32,
                seconds <= 0xFFFF_FFFFu32,
        ;
    }
    (requests_per_second as u64) * (seconds as u64)
}

/// One worker's orders: the entry point it drives, the published host
/// port to dial, and its firing period.
pub struct WorkerPlan {
    pub service: String,
    pub method: String,
    pub host_port: u16,
    pub period_micros: u64,
}

/// Plan the load workers: one per entry point whose service has an
/// assigned port and whose rate is positive, in entry order.
///
/// Each pair carries the entry point's index; entries without a port or
/// with a zero rate are passed over, as a worker that cannot dial or
/// never fires serves nothing.
pub fn build_worker_plans(load: &LoadConfig, ports: &StrMap<u16>) -> (v: Vec<(usize, WorkerPlan)>)
    ensures
        forall|x: int|
            0 <= x < v@.len() ==> {
                let q = (#[trigger] v@[x]).0 as int;
                &&& 0 <= q < load@.entry_points.len()
                &&& map_has(ports@, load@.entry_points[q].service)
                &&& load@.entry_points[q].requests_per_second > 0
                &&& v@[x].1.service@ == load@.entry_points[q].service
                &&& v@[x].1.method@ == load@.entry_points[q].method
                &&& map_get(ports@, load@.entry_points[q].service) == Some(v@[x].1.host_port)
                &&& v@[x].1.period_micros == 1_000_000 as int / load@.entry_points[
                    q
                ].requests_per_second as int
            },
        forall|x1: int, x2: int| 0 <= x1 < x2 < v@.len() ==> v@[x1].0 < v@[x2].0,
        forall|q: int|
            0 <= q < load@.entry_points.len() && map_has(
                ports@,
                (#[trigger] load@.entry_points[q]).service,
            ) && load@.entry_points[q].requests_per_second > 0 ==> exists|x: int|
                0 <= x < v@.len() && (#[trigger] v@[x]).0 == q,
{
    let n: usize = load.entry_points.len();
    let mut v: Vec<(usize, WorkerPlan)> = Vec::new();
    for q in 0..n
        invariant
            n == load@.entry_points.len(),
            forall|x: int|
                0 <= x < v@.len() ==> {
                    let q2 = (#[trigger] v@[x]).0 as int;
                    &&& 0 <= q2 < q
                    &&& map_has(ports@, load@.entry_points[q2].service)
                    &&& load@.entry_points[q2].requests_per_second > 0
                    &&& v@[x].1.service@ == load@.entry_points[q2].service
                    &&& v@[x].1.method@ == load@.entry_points[q2].method
                    &&& map_get(ports@, load@.entry_points[q2].service) == Some(v@[x].1.host_port)
                    &&& v@[x].1.period_micros == 1_000_000 as int / load@.entry_points[
                        q2
                    ].requests_per_second as int
                },
            forall|x1: int, x2: int| 0 <= x1 < x2 < v@.len() ==> v@[x1].0 < v@[x2].0,
            forall|q2: int|
                0 <= q2 < q && map_has(ports@, (#[trigger] load@.entry_points[q2]).service)
                    && load@.entry_points[q2].requests_per_second > 0 ==> exists|x: int|
                    0 <= x < v@.len() && (#[trigger] v@[x]).0 == q2,
    {
        let ep = &load.entry_points[q];
        assert(ep@ == load@.entry_points[q as int]);
        if ep.requests_per_second > 0 {
            match ports.get(ep.service.as_str()) {
                Some(p) => {
                    let plan = WorkerPlan {
                        service: ep.service.clone(),
                        method: ep.method.clone(),
                        host_port: *p,
                        period_micros: period_micros(ep.requests_per_second),
                    };
                    let ghost v0 = v@;
                    v.push((q, plan));
                    proof {
                        assert(forall|x: int| 0 <= x < v0.len() ==> v@[x] == v0[x]);
                        assert(v@[v@.len() - 1].0 == q);
                    }
                },
                None => (),
            }
        }
    }
    v
}

} // verus!
