//! Structural and semantic invariants on a topology.
//!
//! The rules run in order: services present, call reference integrity,
//! distribution well-formedness (latency and error rate), load entry
//! existence, and acyclicity of the service call graph.  Every violation
//! is fatal and carries a path trail into the document.

use vstd::prelude::*;

use crate::model::{ConfigV, DistributionV, LoadConfig, MethodV, SimulatorConfig};
use crate::strmap::{first_index, lemma_first_index, lemma_first_index_at, map_get, map_has};
use crate::text::{spec_decimal, str_eq, target_method, target_ok, target_service, u64_to_string};

verus! {

/// The kinds of invariant violation a topology can exhibit.
#[derive(Clone, Copy, PartialEq, Eq, Structural, Debug)]
pub enum InvariantKind {
    NoServices,
    UnknownTarget,
    MalformedCall,
    BadDistribution,
    CyclicDependency,
    UnknownEntryPoint,
    NonPositiveRps,
}

/// A rejected topology: which rule failed, and a trail of path segments
/// (service, method, stage index, target) leading to the violation.
#[derive(Debug)]
pub struct InvariantViolated {
    pub kind: InvariantKind,
    pub path: Vec<String>,
}

/// Probability scale: micro-units standing for the value 1.
pub open spec fn spec_probability_one() -> int {
    1_000_000
}

/// Well-formedness of one distribution, by kind.  Parameter values are in
/// micro-units.
pub open spec fn dist_ok(d: DistributionV) -> bool {
    if d.kind == "normal"@ {
        &&& map_get(d.params, "mean"@) matches Some(m) && m >= 0
        &&& map_get(d.params, "stddev"@) matches Some(s) && s > 0
    } else if d.kind == "uniform"@ {
        &&& map_get(d.params, "min"@) matches Some(mn) && mn >= 0
        &&& map_get(d.params, "max"@) matches Some(mx) && map_get(d.params, "min"@) matches Some(
            mn,
        ) && mn <= mx
    } else if d.kind == "constant"@ {
        map_get(d.params, "value"@) matches Some(v) && v >= 0
    } else if d.kind == "exponential"@ {
        map_get(d.params, "rate"@) matches Some(r) && r > 0
    } else if d.kind == "bernoulli"@ {
        map_get(d.params, "p"@) matches Some(p) && 0 <= p <= spec_probability_one()
    } else {
        false
    }
}

/// One call target is well-formed and refers to an existing method.
pub open spec fn call_ref_ok(c: ConfigV, t: Seq<char>) -> bool {
    &&& target_ok(t)
    &&& match map_get(c.services, target_service(t)) {
        Some(sv) => map_has(sv.methods, target_method(t)),
        None => false,
    }
}

/// Every call target of one method is well-formed and resolvable.
pub open spec fn method_refs_ok(c: ConfigV, m: MethodV) -> bool {
    forall|a: int, b: int|
        0 <= a < m.calls.len() && 0 <= b < m.calls[a].len() ==> call_ref_ok(c, #[trigger] m.calls[a][b])
}

/// Every call target of every method of one service resolves.
pub open spec fn service_refs_ok(c: ConfigV, i: int) -> bool {
    forall|k: int|
        0 <= k < c.services[i].1.methods.len() ==> method_refs_ok(
            c,
            #[trigger] c.services[i].1.methods[k].1,
        )
}

/// Reference integrity of the whole topology.
pub open spec fn refs_ok(c: ConfigV) -> bool {
    forall|i: int| 0 <= i < c.services.len() ==> #[trigger] service_refs_ok(c, i)
}

/// Well-formedness of the latency distribution of every method.
pub open spec fn latencies_ok(c: ConfigV) -> bool {
    forall|i: int, k: int|
        0 <= i < c.services.len() && 0 <= k < c.services[i].1.methods.len() ==> dist_ok(
            (#[trigger] c.services[i].1.methods[k].1).latency,
        )
}

/// Well-formedness of every present error-rate distribution.
pub open spec fn error_rates_ok(c: ConfigV) -> bool {
    forall|i: int, k: int|
        0 <= i < c.services.len() && 0 <= k < c.services[i].1.methods.len() ==> match (
        #[trigger] c.services[i].1.methods[k].1).error {
            Some(d) => dist_ok(d),
            None => true,
        }
}

/// One entry point names an existing method and a positive rate.
pub open spec fn entry_ok(c: ConfigV, service: Seq<char>, method: Seq<char>, rps: u32) -> bool {
    &&& match map_get(c.services, service) {
        Some(sv) => map_has(sv.methods, method),
        None => false,
    }
    &&& rps > 0
}

/// The load section is acceptable: at least one entry point, each of
/// them resolvable and with a positive rate.
pub open spec fn load_ok(c: ConfigV, l: crate::model::LoadV) -> bool {
    &&& l.entry_points.len() > 0
    &&& forall|i: int|
        0 <= i < l.entry_points.len() ==> entry_ok(
            c,
            (#[trigger] l.entry_points[i]).service,
            l.entry_points[i].method,
            l.entry_points[i].requests_per_second,
        )
}

/// A witness that service `i` calls into the service resolved at index
/// `j`: method `k`, stage `a`, fan-out position `b`.
pub open spec fn edge_witness(c: ConfigV, i: int, j: int, k: int, a: int, b: int) -> bool {
    &&& 0 <= k < c.services[i].1.methods.len()
    &&& 0 <= a < c.services[i].1.methods[k].1.calls.len()
    &&& 0 <= b < c.services[i].1.methods[k].1.calls[a].len()
    &&& target_ok(c.services[i].1.methods[k].1.calls[a][b])
    &&& first_index(c.services, target_service(c.services[i].1.methods[k].1.calls[a][b])) == j
}

/// The service call graph: an edge from index `i` to index `j` when some
/// method of service `i` names a target whose service part resolves to
/// entry `j`.
pub open spec fn edge(c: ConfigV, i: int, j: int) -> bool {
    &&& 0 <= i < c.services.len()
    &&& 0 <= j
    &&& exists|k: int, a: int, b: int| edge_witness(c, i, j, k, a, b)
}

/// A directed cycle in the service call graph: a closed walk of length at
/// least one edge.
pub open spec fn is_cycle(c: ConfigV, p: Seq<int>) -> bool {
    &&& p.len() >= 2
    &&& p[0] == p[p.len() - 1]
    &&& forall|x: int| 0 <= x < p.len() - 1 ==> edge(c, #[trigger] p[x], p[x + 1])
}

/// The call graph contains a directed cycle.
pub open spec fn has_cycle(c: ConfigV) -> bool {
    exists|p: Seq<int>| is_cycle(c, p)
}

/// An edge target is a resolved index, hence in range.
proof fn lemma_edge_target_in_range(c: ConfigV, i: int, j: int)
    requires
        edge(c, i, j),
    ensures
        0 <= j < c.services.len(),
{
    let (k, a, b) = choose|k: int, a: int, b: int| edge_witness(c, i, j, k, a, b);
    let t = c.services[i].1.methods[k].1.calls[a][b];
    lemma_first_index(c.services, target_service(t));
    if !map_has(c.services, target_service(t)) {
    }
}

/// Number of `true` entries.
pub open spec fn count_true(s: Seq<bool>) -> int
    decreases s.len(),
{
    if s.len() == 0 {
        0
    } else {
        count_true(s.drop_last()) + if s.last() {
            1int
        } else {
            0int
        }
    }
}

proof fn lemma_count_true_bounds(s: Seq<bool>)
    ensures
        0 <= count_true(s) <= s.len(),
    decreases s.len(),
{
    if s.len() > 0 {
        lemma_count_true_bounds(s.drop_last());
    }
}

proof fn lemma_count_true_update(s: Seq<bool>, i: int)
    requires
        0 <= i < s.len(),
        !s[i],
    ensures
        count_true(s.update(i, true)) == count_true(s) + 1,
    decreases s.len(),
{
    let u = s.update(i, true);
    if i == s.len() - 1 {
        assert(u.drop_last() =~= s.drop_last());
    } else {
        assert(u.drop_last() =~= s.drop_last().update(i, true));
        lemma_count_true_update(s.drop_last(), i);
    }
}

proof fn lemma_count_true_full(s: Seq<bool>)
    requires
        count_true(s) == s.len(),
    ensures
        forall|i: int| 0 <= i < s.len() ==> s[i],
    decreases s.len(),
{
    if s.len() > 0 {
        lemma_count_true_bounds(s.drop_last());
        lemma_count_true_full(s.drop_last());
        assert(forall|i: int| 0 <= i < s.len() - 1 ==> s[i] == s.drop_last()[i]);
    }
}

proof fn lemma_count_true_partial(s: Seq<bool>) -> (i: int)
    requires
        count_true(s) < s.len(),
    ensures
        0 <= i < s.len() && !s[i],
    decreases s.len(),
{
    if !s.last() {
        s.len() - 1
    } else {
        lemma_count_true_bounds(s.drop_last());
        let i = lemma_count_true_partial(s.drop_last());
        i
    }
}

/// Ranks decrease along every walk of a fully ranked graph, so a closed
/// walk is impossible.
proof fn lemma_path_rank_decreases(c: ConfigV, removed: Seq<bool>, rank: Seq<int>, p: Seq<int>)
    requires
        removed.len() == c.services.len(),
        rank.len() == c.services.len(),
        forall|i: int| 0 <= i < removed.len() ==> removed[i],
        forall|i: int, j: int|
            0 <= i < removed.len() && removed[i] && #[trigger] edge(c, i, j) ==> removed[j]
                && rank[j] < rank[i],
        p.len() >= 2,
        forall|x: int| 0 <= x < p.len() - 1 ==> edge(c, #[trigger] p[x], p[x + 1]),
    ensures
        rank[p[p.len() - 1]] < rank[p[0]],
        0 <= p[0] < c.services.len(),
    decreases p.len(),
{
    assert(edge(c, p[0], p[1]));
    lemma_edge_target_in_range(c, p[0], p[1]);
    if p.len() == 2 {
    } else {
        let q = p.drop_first();
        assert(forall|x: int|
            0 <= x < q.len() - 1 ==> edge(c, #[trigger] q[x], q[x + 1])) by {
            assert(forall|x: int|
                0 <= x < q.len() - 1 ==> #[trigger] q[x] == p[x + 1] && q[x + 1] == p[x + 2]);
        }
        lemma_path_rank_decreases(c, removed, rank, q);
        assert(q[q.len() - 1] == p[p.len() - 1]);
        assert(rank[p[1]] < rank[p[0]]);
    }
}

/// Validate that the configuration has at least one service.
pub fn validate_has_services(config: &SimulatorConfig) -> (r: Result<(), InvariantViolated>)
    ensures
        r is Ok <==> config@.services.len() > 0,
        r matches Err(e) ==> e.kind == InvariantKind::NoServices,
{
    if config.services.is_empty() {
        Err(InvariantViolated { kind: InvariantKind::NoServices, path: Vec::new() })
    } else {
        Ok(())
    }
}

/// Validate a single distribution; the result is `Ok` exactly when
/// [`dist_ok`] holds of it.
pub fn validate_single_distribution(
    distribution: &crate::model::Distribution,
    service_name: &str,
    method_name: &str,
) -> (r: Result<(), InvariantViolated>)
    ensures
        r is Ok <==> dist_ok(distribution@),
        r matches Err(e) ==> e.kind == InvariantKind::BadDistribution && e.path.deep_view()
            =~= seq![service_name@, method_name@, distribution.distribution_type@],
{
    let ok: bool = if str_eq(distribution.distribution_type.as_str(), "normal") {
        let mean_ok: bool = match distribution.parameters.get("mean") {
            Some(m) => *m >= 0,
            None => false,
        };
        let stddev_ok: bool = match distribution.parameters.get("stddev") {
            Some(s) => *s > 0,
            None => false,
        };
        mean_ok && stddev_ok
    } else if str_eq(distribution.distribution_type.as_str(), "uniform") {
        match (distribution.parameters.get("min"), distribution.parameters.get("max")) {
            (Some(mn), Some(mx)) => *mn >= 0 && *mn <= *mx,
            _ => false,
        }
    } else if str_eq(distribution.distribution_type.as_str(), "constant") {
        match distribution.parameters.get("value") {
            Some(v) => *v >= 0,
            None => false,
        }
    } else if str_eq(distribution.distribution_type.as_str(), "exponential") {
        match distribution.parameters.get("rate") {
            Some(rt) => *rt > 0,
            None => false,
        }
    } else if str_eq(distribution.distribution_type.as_str(), "bernoulli") {
        match distribution.parameters.get("p") {
            Some(p) => 0 <= *p && *p <= 1_000_000,
            None => false,
        }
    } else {
        false
    };
    if ok {
        Ok(())
    } else {
        let mut path: Vec<String> = Vec::new();
        path.push(service_name.to_owned());
        path.push(method_name.to_owned());
        path.push(distribution.distribution_type.clone());
        assert(path.deep_view() =~= seq![
            service_name@,
            method_name@,
            distribution.distribution_type@,
        ]);
        Err(InvariantViolated { kind: InvariantKind::BadDistribution, path })
    }
}

/// Validate that all latency distributions are well-formed.
pub fn validate_latency_distributions(config: &SimulatorConfig) -> (r: Result<
    (),
    InvariantViolated,
>)
    ensures
        r is Ok <==> latencies_ok(config@),
        r matches Err(e) ==> e.kind == InvariantKind::BadDistribution,
{
    let ns: usize = config.services.entries.len();
    for i in 0..ns
        invariant
            ns == config@.services.len(),
            forall|i2: int, k2: int|
                0 <= i2 < i && 0 <= k2 < config@.services[i2].1.methods.len() ==> dist_ok(
                    (#[trigger] config@.services[i2].1.methods[k2].1).latency,
                ),
    {
        let service = &config.services.entries[i].1;
        let nm: usize = service.methods.entries.len();
        for k in 0..nm
            invariant
                ns == config@.services.len(),
                i < ns,
                nm == config@.services[i as int].1.methods.len(),
                service@ == config@.services[i as int].1,
                forall|i2: int, k2: int|
                    0 <= i2 < i && 0 <= k2 < config@.services[i2].1.methods.len() ==> dist_ok(
                        (#[trigger] config@.services[i2].1.methods[k2].1).latency,
                    ),
                forall|k2: int|
                    0 <= k2 < k ==> dist_ok(
                        (#[trigger] config@.services[i as int].1.methods[k2].1).latency,
                    ),
        {
            let method = &service.methods.entries[k].1;
            assert(method@ == config@.services[i as int].1.methods[k as int].1);
            let r = validate_single_distribution(
                &method.latency_distribution,
                config.services.entries[i].0.as_str(),
                service.methods.entries[k].0.as_str(),
            );
            if let Err(e) = r {
                return Err(e);
            }
        }
    }
    Ok(())
}

/// Validate every present error-rate distribution.
pub fn validate_error_rates(config: &SimulatorConfig) -> (r: Result<(), InvariantViolated>)
    ensures
        r is Ok <==> error_rates_ok(config@),
        r matches Err(e) ==> e.kind == InvariantKind::BadDistribution,
{
    let ns: usize = config.services.entries.len();
    for i in 0..ns
        invariant
            ns == config@.services.len(),
            forall|i2: int, k2: int|
                0 <= i2 < i && 0 <= k2 < config@.services[i2].1.methods.len() ==> match (
                #[trigger] config@.services[i2].1.methods[k2].1).error {
                    Some(d) => dist_ok(d),
                    None => true,
                },
    {
        let service = &config.services.entries[i].1;
        let nm: usize = service.methods.entries.len();
        for k in 0..nm
            invariant
                ns == config@.services.len(),
                i < ns,
                nm == config@.services[i as int].1.methods.len(),
                service@ == config@.services[i as int].1,
                forall|i2: int, k2: int|
                    0 <= i2 < i && 0 <= k2 < config@.services[i2].1.methods.len() ==> match (
                    #[trigger] config@.services[i2].1.methods[k2].1).error {
                        Some(d) => dist_ok(d),
                        None => true,
                    },
                forall|k2: int|
                    0 <= k2 < k ==> match (
                    #[trigger] config@.services[i as int].1.methods[k2].1).error {
                        Some(d) => dist_ok(d),
                        None => true,
                    },
        {
            let method = &service.methods.entries[k].1;
            assert(method@ == config@.services[i as int].1.methods[k as int].1);
            if let Some(error_rate) = &method.error_rate {
                let r = validate_single_distribution(
                    error_rate,
                    config.services.entries[i].0.as_str(),
                    service.methods.entries[k].0.as_str(),
                );
                if let Err(e) = r {
                    return Err(e);
                }
            }
        }
    }
    Ok(())
}

/// Check that every call target in the topology is well-formed and
/// refers to an existing method.
fn check_call_references(config: &SimulatorConfig) -> (r: Result<(), InvariantViolated>)
    ensures
        r is Ok <==> refs_ok(config@),
        r matches Err(e) ==> (e.kind == InvariantKind::MalformedCall || e.kind
            == InvariantKind::UnknownTarget),
{
    let ns: usize = config.services.entries.len();
    for i in 0..ns
        invariant
            ns == config@.services.len(),
            forall|i2: int| 0 <= i2 < i ==> #[trigger] service_refs_ok(config@, i2),
    {
        let service = &config.services.entries[i].1;
        let nm: usize = service.methods.entries.len();
        for k in 0..nm
            invariant
                ns == config@.services.len(),
                i < ns,
                nm == config@.services[i as int].1.methods.len(),
                service@ == config@.services[i as int].1,
                forall|i2: int| 0 <= i2 < i ==> #[trigger] service_refs_ok(config@, i2),
                forall|k2: int|
                    0 <= k2 < k ==> method_refs_ok(
                        config@,
                        #[trigger] config@.services[i as int].1.methods[k2].1,
                    ),
        {
            let method = &service.methods.entries[k].1;
            assert(method@ == config@.services[i as int].1.methods[k as int].1);
            let na: usize = method.calls.len();
            for a in 0..na
                invariant
                    ns == config@.services.len(),
                    i < ns,
                    nm == config@.services[i as int].1.methods.len(),
                    k < nm,
                    service@ == config@.services[i as int].1,
                    method@ == config@.services[i as int].1.methods[k as int].1,
                    na == method@.calls.len(),
                    forall|a2: int, b2: int|
                        0 <= a2 < a && 0 <= b2 < method@.calls[a2].len() ==> call_ref_ok(
                            config@,
                            #[trigger] method@.calls[a2][b2],
                        ),
            {
                let nb: usize = method.calls[a].len();
                assert(nb == method@.calls[a as int].len());
                for b in 0..nb
                    invariant
                        ns == config@.services.len(),
                        i < ns,
                        nm == config@.services[i as int].1.methods.len(),
                        k < nm,
                        service@ == config@.services[i as int].1,
                        method@ == config@.services[i as int].1.methods[k as int].1,
                        na == method@.calls.len(),
                        a < na,
                        nb == method@.calls[a as int].len(),
                        forall|a2: int, b2: int|
                            0 <= a2 < a && 0 <= b2 < method@.calls[a2].len() ==> call_ref_ok(
                                config@,
                                #[trigger] method@.calls[a2][b2],
                            ),
                        forall|b2: int|
                            0 <= b2 < b ==> call_ref_ok(
                                config@,
                                #[trigger] method@.calls[a as int][b2],
                            ),
                {
                    let t = &method.calls[a][b];
                    assert(t@ == method@.calls[a as int][b as int]);
                    match crate::text::split_target(t.as_str()) {
                        None => {
                            proof {
                                assert(!call_ref_ok(config@, method@.calls[a as int][b as int]));
                                if refs_ok(config@) {
                                    assert(service_refs_ok(config@, i as int));
                                    assert(method_refs_ok(
                                        config@,
                                        config@.services[i as int].1.methods[k as int].1,
                                    ));
                                    assert(call_ref_ok(
                                        config@,
                                        method@.calls[a as int][b as int],
                                    ));
                                }
                            }
                            let mut path: Vec<String> = Vec::new();
                            path.push(config.services.entries[i].0.clone());
                            path.push(service.methods.entries[k].0.clone());
                            path.push(u64_to_string(a as u64));
                            path.push(t.clone());
                            return Err(
                                InvariantViolated { kind: InvariantKind::MalformedCall, path },
                            );
                        },
                        Some(pair) => {
                            let target_exists: bool = match config.services.get(pair.0.as_str()) {
                                Some(sv) => sv.methods.contains_key(pair.1.as_str()),
                                None => false,
                            };
                            if !target_exists {
                                proof {
                                    assert(!call_ref_ok(
                                        config@,
                                        method@.calls[a as int][b as int],
                                    ));
                                    if refs_ok(config@) {
                                        assert(service_refs_ok(config@, i as int));
                                        assert(method_refs_ok(
                                            config@,
                                            config@.services[i as int].1.methods[k as int].1,
                                        ));
                                        assert(call_ref_ok(
                                            config@,
                                            method@.calls[a as int][b as int],
                                        ));
                                    }
                                }
                                let mut path: Vec<String> = Vec::new();
                                path.push(config.services.entries[i].0.clone());
                                path.push(service.methods.entries[k].0.clone());
                                path.push(u64_to_string(a as u64));
                                path.push(t.clone());
                                return Err(
                                    InvariantViolated { kind: InvariantKind::UnknownTarget, path },
                                );
                            }
                            assert(call_ref_ok(config@, method@.calls[a as int][b as int]));
                        },
                    }
                }
            }
            assert(method_refs_ok(config@, method@));
        }
        assert(service_refs_ok(config@, i as int));
    }
    Ok(())
}

/// Whether a row of resolved successor indices contains `j`.
pub open spec fn row_contains(row: Seq<usize>, j: int) -> bool {
    exists|x: int| 0 <= x < row.len() && row[x] == j
}

/// The resolved index of the witness target `(k, a, b)` of service `i`.
pub open spec fn witness_resolved(c: ConfigV, i: int, k: int, a: int, b: int) -> int {
    first_index(c.services, target_service(c.services[i].1.methods[k].1.calls[a][b]))
}

/// Build the resolved adjacency rows of the service call graph.
fn build_adjacency(config: &SimulatorConfig) -> (adj: Vec<Vec<usize>>)
    requires
        refs_ok(config@),
    ensures
        adj@.len() == config@.services.len(),
        forall|ii: int, x: int|
            0 <= ii < adj@.len() && 0 <= x < adj@[ii]@.len() ==> edge(
                config@,
                ii,
                #[trigger] adj@[ii]@[x] as int,
            ),
        forall|ii: int, j: int|
            #[trigger] edge(config@, ii, j) ==> row_contains(adj@[ii]@, j),
{
    let ghost c = config@;
    let ns: usize = config.services.entries.len();
    let mut adj: Vec<Vec<usize>> = Vec::new();
    for i in 0..ns
        invariant
            refs_ok(c),
            c == config@,
            ns == c.services.len(),
            adj@.len() == i,
            forall|ii: int, x: int|
                0 <= ii < i && 0 <= x < adj@[ii]@.len() ==> edge(
                    c,
                    ii,
                    #[trigger] adj@[ii]@[x] as int,
                ),
            forall|ii: int, j: int|
                0 <= ii < i && #[trigger] edge(c, ii, j) ==> row_contains(adj@[ii]@, j),
    {
        let service = &config.services.entries[i].1;
        let mut row: Vec<usize> = Vec::new();
        let nm: usize = service.methods.entries.len();
        for k in 0..nm
            invariant
                refs_ok(c),
                c == config@,
                ns == c.services.len(),
                i < ns,
                nm == c.services[i as int].1.methods.len(),
                service@ == c.services[i as int].1,
                forall|x: int|
                    0 <= x < row@.len() ==> edge(c, i as int, #[trigger] row@[x] as int),
                forall|k2: int, a2: int, b2: int|
                    #![trigger c.services[i as int].1.methods[k2].1.calls[a2][b2]]
                    0 <= k2 < k && 0 <= a2 < c.services[i as int].1.methods[k2].1.calls.len() && 0
                        <= b2 < c.services[i as int].1.methods[k2].1.calls[a2].len()
                        ==> row_contains(row@, witness_resolved(c, i as int, k2, a2, b2)),
        {
            let method = &service.methods.entries[k].1;
            assert(method@ == c.services[i as int].1.methods[k as int].1);
            let na: usize = method.calls.len();
            for a in 0..na
                invariant
                    refs_ok(c),
                    c == config@,
                    ns == c.services.len(),
                    i < ns,
                    nm == c.services[i as int].1.methods.len(),
                    k < nm,
                    service@ == c.services[i as int].1,
                    method@ == c.services[i as int].1.methods[k as int].1,
                    na == method@.calls.len(),
                    forall|x: int|
                        0 <= x < row@.len() ==> edge(c, i as int, #[trigger] row@[x] as int),
                    forall|k2: int, a2: int, b2: int|
                        #![trigger c.services[i as int].1.methods[k2].1.calls[a2][b2]]
                        0 <= k2 < k && 0 <= a2 < c.services[i as int].1.methods[k2].1.calls.len()
                            && 0 <= b2 < c.services[i as int].1.methods[k2].1.calls[a2].len()
                            ==> row_contains(row@, witness_resolved(c, i as int, k2, a2, b2)),
                    forall|a2: int, b2: int|
                        #![trigger method@.calls[a2][b2]]
                        0 <= a2 < a && 0 <= b2 < method@.calls[a2].len() ==> row_contains(
                            row@,
                            witness_resolved(c, i as int, k as int, a2, b2),
                        ),
            {
                let nb: usize = method.calls[a].len();
                for b in 0..nb
                    invariant
                        refs_ok(c),
                        c == config@,
                        ns == c.services.len(),
                        i < ns,
                        nm == c.services[i as int].1.methods.len(),
                        k < nm,
                        service@ == c.services[i as int].1,
                        method@ == c.services[i as int].1.methods[k as int].1,
                        na == method@.calls.len(),
                        a < na,
                        nb == method@.calls[a as int].len(),
                        forall|x: int|
                            0 <= x < row@.len() ==> edge(c, i as int, #[trigger] row@[x] as int),
                        forall|k2: int, a2: int, b2: int|
                            #![trigger c.services[i as int].1.methods[k2].1.calls[a2][b2]]
                            0 <= k2 < k && 0 <= a2
                                < c.services[i as int].1.methods[k2].1.calls.len() && 0 <= b2
                                < c.services[i as int].1.methods[k2].1.calls[a2].len()
                                ==> row_contains(
                                row@,
                                witness_resolved(c, i as int, k2, a2, b2),
                            ),
                        forall|a2: int, b2: int|
                            #![trigger method@.calls[a2][b2]]
                            0 <= a2 < a && 0 <= b2 < method@.calls[a2].len() ==> row_contains(
                                row@,
                                witness_resolved(c, i as int, k as int, a2, b2),
                            ),
                        forall|b2: int|
                            0 <= b2 < b ==> row_contains(
                                row@,
                                witness_resolved(c, i as int, k as int, a as int, b2),
                            ),
                {
                    let t = &method.calls[a][b];
                    assert(t@ == method@.calls[a as int][b as int]);
                    proof {
                        assert(service_refs_ok(c, i as int));
                        assert(method_refs_ok(c, c.services[i as int].1.methods[k as int].1));
                        assert(call_ref_ok(c, method@.calls[a as int][b as int]));
                    }
                    let pair = match crate::text::split_target(t.as_str()) {
                        Some(p) => p,
                        None => {
                            proof {
                                assert(false);
                            }
                            (String::new(), String::new())
                        },
                    };
                    let j = match config.services.index_of(pair.0.as_str()) {
                        Some(j) => j,
                        None => {
                            proof {
                                crate::strmap::lemma_map_get_has(
                                    c.services,
                                    target_service(t@),
                                );
                                assert(false);
                            }
                            0
                        },
                    };
                    proof {
                        lemma_first_index(c.services, target_service(t@));
                        assert(j as int == witness_resolved(c, i as int, k as int, a as int, b as int));
                        assert(edge_witness(c, i as int, j as int, k as int, a as int, b as int));
                        assert(edge(c, i as int, j as int));
                    }
                    let ghost row0 = row@;
                    row.push(j);
                    proof {
                        assert(forall|x: int| 0 <= x < row0.len() ==> row@[x] == row0[x]);
                        assert(row@[row0.len() as int] == j);
                        assert(forall|jj: int|
                            row_contains(row0, jj) ==> row_contains(row@, jj)) by {
                            assert(forall|jj: int| #[trigger]
                                row_contains(row0, jj) ==> {
                                    let x = choose|x: int|
                                        0 <= x < row0.len() && row0[x] == jj;
                                    0 <= x < row@.len() && row@[x] == jj
                                });
                        }
                        assert(row_contains(row@, j as int));
                    }
                }
            }
        }
        adj.push(row);
        proof {
            assert(forall|j: int|
                #[trigger] edge(c, i as int, j) ==> row_contains(adj@[i as int]@, j)) by {
                assert(forall|j: int| #[trigger]
                    edge(c, i as int, j) ==> {
                        let (k, a, b) = choose|k: int, a: int, b: int|
                            edge_witness(c, i as int, j, k, a, b);
                        row_contains(adj@[i as int]@, j)
                    });
            }
        }
    }
    adj
}

/// Every remaining service still calls into a remaining service.
pub open spec fn stall_evidence(adj: Seq<Vec<usize>>, removed: Seq<bool>) -> bool {
    forall|i: int|
        0 <= i < removed.len() && !removed[i] ==> exists|x: int|
            0 <= x < adj[i]@.len() && !removed[#[trigger] adj[i]@[x] as int]
}

/// Adjacency rows are a sound and complete image of the call graph.
pub open spec fn adj_ok(c: ConfigV, adj: Seq<Vec<usize>>) -> bool {
    &&& adj.len() == c.services.len()
    &&& forall|ii: int, x: int|
        0 <= ii < adj.len() && 0 <= x < adj[ii]@.len() ==> edge(c, ii, #[trigger] adj[ii]@[x] as int)
    &&& forall|ii: int, j: int| #[trigger] edge(c, ii, j) ==> row_contains(adj[ii]@, j)
}

/// Ranks that strictly decrease along every edge among removed services.
pub open spec fn ranks_sound(
    c: ConfigV,
    removed: Seq<bool>,
    rank: Seq<usize>,
    time: int,
) -> bool {
    &&& (forall|q: int| 0 <= q < removed.len() && #[trigger] removed[q] ==> rank[q] < time)
    &&& (forall|q: int, j: int|
        0 <= q < removed.len() && removed[q] && #[trigger] edge(c, q, j) ==> removed[j] && rank[j]
            < rank[q])
}

/// Peel services whose successors are all peeled, until either all are
/// gone (the graph is acyclic) or no pass makes progress (a cycle must
/// remain).
fn peel_services(config: &SimulatorConfig, adj: &Vec<Vec<usize>>) -> (r: (Vec<bool>, Vec<usize>, bool))
    requires
        adj_ok(config@, adj@),
    ensures
        r.0@.len() == config@.services.len(),
        r.1@.len() == config@.services.len(),
        !r.2 ==> forall|q: int| 0 <= q < r.0@.len() ==> r.0@[q],
        !r.2 ==> ranks_sound(config@, r.0@, r.1@, count_true(r.0@)),
        r.2 ==> stall_evidence(adj@, r.0@) && count_true(r.0@) < config@.services.len(),
{
    let ghost c = config@;
    let n: usize = adj.len();
    let mut removed: Vec<bool> = Vec::new();
    let mut rank: Vec<usize> = Vec::new();
    for z in 0..n
        invariant
            removed@.len() == z,
            rank@.len() == z,
            forall|q: int| 0 <= q < z ==> !removed@[q],
            count_true(removed@) == 0,
    {
        let ghost r0 = removed@;
        removed.push(false);
        rank.push(0);
        proof {
            assert(removed@.drop_last() =~= r0);
        }
    }
    let mut time: usize = 0;
    let mut stalled = false;
    while time < n && !stalled
        invariant
            c == config@,
            adj_ok(c, adj@),
            n == c.services.len(),
            removed@.len() == n,
            rank@.len() == n,
            time == count_true(removed@),
            time <= n,
            ranks_sound(c, removed@, rank@, time as int),
            stalled ==> stall_evidence(adj@, removed@) && time < n,
        decreases n - count_true(removed@) + (if stalled {
            0int
        } else {
            1int
        }),
    {
        let ghost removed0 = removed@;
        let mut progress = false;
        for i in 0..n
            invariant
                c == config@,
                adj_ok(c, adj@),
                n == c.services.len(),
                removed@.len() == n,
                rank@.len() == n,
                time == count_true(removed@),
                time <= n,
                ranks_sound(c, removed@, rank@, time as int),
                !progress ==> removed@ == removed0,
                !progress ==> forall|i2: int|
                    0 <= i2 < i && !removed@[i2] ==> exists|x: int|
                        0 <= x < adj@[i2]@.len() && !removed@[#[trigger] adj@[i2]@[x] as int],
                progress ==> count_true(removed@) > count_true(removed0),
                count_true(removed0) <= count_true(removed@),
        {
            if !removed[i] {
                let m: usize = adj[i].len();
                let mut all_gone = true;
                for x in 0..m
                    invariant
                        n == c.services.len(),
                        adj_ok(c, adj@),
                        removed@.len() == n,
                        i < n,
                        m == adj@[i as int]@.len(),
                        all_gone ==> forall|y: int|
                            0 <= y < x ==> removed@[#[trigger] adj@[i as int]@[y] as int],
                        !all_gone ==> exists|y: int|
                            0 <= y < m && !removed@[#[trigger] adj@[i as int]@[y] as int],
                {
                    proof {
                        assert(edge(c, i as int, adj@[i as int]@[x as int] as int));
                        lemma_edge_target_in_range(c, i as int, adj@[i as int]@[x as int] as int);
                    }
                    if !removed[adj[i][x]] {
                        all_gone = false;
                    }
                }
                if all_gone {
                    let ghost rbefore = removed@;
                    let ghost rankbefore = rank@;
                    removed.set(i, true);
                    rank.set(i, time);
                    proof {
                        lemma_count_true_update(rbefore, i as int);
                        lemma_count_true_bounds(removed@);
                    }
                    time = time + 1;
                    progress = true;
                    proof {
                        assert forall|q: int| 0 <= q < n && #[trigger] removed@[q] implies rank@[q]
                            < time by {
                            if q != i as int {
                                assert(rbefore[q]);
                                assert(rank@[q] == rankbefore[q]);
                            }
                        }
                        assert forall|q: int, j: int|
                            0 <= q < n && removed@[q] && #[trigger] edge(c, q, j) implies removed@[j]
                            && rank@[j] < rank@[q] by {
                            lemma_edge_target_in_range(c, q, j);
                            if q == i as int {
                                assert(row_contains(adj@[i as int]@, j));
                                let x = choose|x: int|
                                    0 <= x < adj@[i as int]@.len() && adj@[i as int]@[x] == j;
                                assert(rbefore[adj@[i as int]@[x] as int]);
                                assert(rbefore[j]);
                                assert(j != i as int);
                                assert(removed@[j]);
                                assert(rank@[j] == rankbefore[j]);
                                assert(rankbefore[j] < time - 1);
                            } else {
                                assert(rbefore[q]);
                                assert(rbefore[j] && rankbefore[j] < rankbefore[q]);
                                assert(j != i as int);
                                assert(rank@[j] == rankbefore[j] && rank@[q] == rankbefore[q]);
                            }
                        }
                    }
                }
            }
        }
        if !progress {
            stalled = true;
            proof {
                lemma_count_true_bounds(removed@);
            }
        }
    }
    proof {
        if !stalled {
            lemma_count_true_bounds(removed@);
            lemma_count_true_full(removed@);
        }
    }
    (removed, rank, stalled)
}

/// Walk remaining successors from a remaining start until a service
/// repeats: the repeated tail is a directed cycle, returned as indices
/// (first and last entry equal).
fn find_cycle_walk(config: &SimulatorConfig, adj: &Vec<Vec<usize>>, removed: &Vec<bool>) -> (cycle:
    Vec<usize>)
    requires
        adj_ok(config@, adj@),
        removed@.len() == config@.services.len(),
        stall_evidence(adj@, removed@),
        count_true(removed@) < config@.services.len(),
    ensures
        cycle@.len() >= 2,
        forall|y: int| 0 <= y < cycle@.len() ==> (#[trigger] cycle@[y] as int) < config@.services.len(),
        is_cycle(config@, cycle@.map(|y: int, v: usize| v as int)),
{
    let ghost c = config@;
    let n: usize = removed.len();
    let mut start: usize = 0;
    let mut found_start = false;
    for q in 0..n
        invariant
            removed@.len() == n,
            !found_start ==> forall|q2: int| 0 <= q2 < q ==> removed@[q2],
            found_start ==> start < n && !removed@[start as int],
    {
        if !found_start && !removed[q] {
            start = q;
            found_start = true;
        }
    }
    proof {
        if !found_start {
            assert(forall|q2: int| 0 <= q2 < n ==> removed@[q2]);
            let w = lemma_count_true_partial(removed@);
            assert(false);
        }
    }
    let mut seen: Vec<bool> = Vec::new();
    for z in 0..n
        invariant
            seen@.len() == z,
            count_true(seen@) == 0,
            forall|q: int| 0 <= q < z ==> !seen@[q],
    {
        let ghost s0 = seen@;
        seen.push(false);
        proof {
            assert(seen@.drop_last() =~= s0);
        }
    }
    let mut path_ix: Vec<usize> = Vec::new();
    let mut cur: usize = start;
    while !seen[cur]
        invariant
            c == config@,
            adj_ok(c, adj@),
            n == c.services.len(),
            removed@.len() == n,
            seen@.len() == n,
            cur < n,
            !removed@[cur as int],
            stall_evidence(adj@, removed@),
            forall|v: int|
                0 <= v < n && #[trigger] seen@[v] ==> exists|y: int|
                    0 <= y < path_ix@.len() && path_ix@[y] == v,
            count_true(seen@) == path_ix@.len(),
            forall|y: int| 0 <= y < path_ix@.len() ==> (#[trigger] path_ix@[y] as int) < n,
            forall|y: int|
                0 <= y < path_ix@.len() - 1 ==> edge(
                    c,
                    #[trigger] path_ix@[y] as int,
                    path_ix@[y + 1] as int,
                ),
            path_ix@.len() > 0 ==> edge(c, path_ix@[path_ix@.len() - 1] as int, cur as int),
        decreases n - count_true(seen@),
    {
        let ghost seen0 = seen@;
        let ghost path0 = path_ix@;
        let ghost cur0 = cur;
        seen.set(cur, true);
        path_ix.push(cur);
        proof {
            lemma_count_true_update(seen0, cur as int);
            lemma_count_true_bounds(seen@);
            assert(forall|y: int| 0 <= y < path0.len() ==> path_ix@[y] == path0[y]);
            assert(path_ix@[path0.len() as int] == cur0);
        }
        let m: usize = adj[cur].len();
        let mut next: Option<usize> = None;
        for x in 0..m
            invariant
                n == c.services.len(),
                adj_ok(c, adj@),
                removed@.len() == n,
                cur < n,
                m == adj@[cur as int]@.len(),
                match next {
                    Some(j) => j < n && !removed@[j as int] && edge(c, cur as int, j as int),
                    None => forall|y: int|
                        0 <= y < x ==> removed@[#[trigger] adj@[cur as int]@[y] as int],
                },
        {
            proof {
                assert(edge(c, cur as int, adj@[cur as int]@[x as int] as int));
                lemma_edge_target_in_range(c, cur as int, adj@[cur as int]@[x as int] as int);
            }
            if next.is_none() && !removed[adj[cur][x]] {
                next = Some(adj[cur][x]);
            }
        }
        match next {
            Some(j) => {
                cur = j;
            },
            None => {
                proof {
                    assert(exists|x: int|
                        0 <= x < adj@[cur as int]@.len()
                            && !removed@[#[trigger] adj@[cur as int]@[x] as int]);
                    assert(false);
                }
            },
        }
        proof {
            assert forall|v: int| 0 <= v < n && #[trigger] seen@[v] implies exists|y: int|
                0 <= y < path_ix@.len() && path_ix@[y] == v by {
                if v == cur0 as int {
                    assert(path_ix@[path0.len() as int] == v);
                } else {
                    assert(seen0[v]);
                    let y = choose|y: int| 0 <= y < path0.len() && path0[y] == v;
                    assert(path_ix@[y] == v);
                }
            }
        }
    }
    // `cur` was seen, so it sits somewhere in the walk; the tail from
    // that position back to `cur` closes a cycle.
    let np: usize = path_ix.len();
    let mut pos: usize = 0;
    let mut found_pos = false;
    for y in 0..np
        invariant
            np == path_ix@.len(),
            !found_pos ==> forall|y2: int| 0 <= y2 < y ==> path_ix@[y2] != cur,
            found_pos ==> pos < np && path_ix@[pos as int] == cur,
    {
        if !found_pos && path_ix[y] == cur {
            pos = y;
            found_pos = true;
        }
    }
    proof {
        if !found_pos {
            assert(seen@[cur as int]);
            let y = choose|y: int| 0 <= y < path_ix@.len() && path_ix@[y] == cur as int;
            assert(false);
        }
    }
    let mut cycle: Vec<usize> = Vec::new();
    for y in pos..np
        invariant
            np == path_ix@.len(),
            pos < np,
            pos <= y <= np,
            cycle@ =~= path_ix@.subrange(pos as int, y as int),
    {
        cycle.push(path_ix[y]);
        assert(cycle@ =~= path_ix@.subrange(pos as int, y + 1));
    }
    cycle.push(cur);
    proof {
        let tail = path_ix@.subrange(pos as int, np as int);
        assert(cycle@ =~= tail.push(cur));
        let pcyc = cycle@.map(|y: int, v: usize| v as int);
        assert(pcyc.len() == np - pos + 1);
        assert(pcyc[0] == path_ix@[pos as int] as int);
        assert(pcyc[pcyc.len() - 1] == cur as int);
        assert(pcyc[0] == pcyc[pcyc.len() - 1]);
        assert forall|x: int| 0 <= x < pcyc.len() - 1 implies edge(c, #[trigger] pcyc[x], pcyc[x
            + 1]) by {
            assert(pcyc[x] == path_ix@[pos + x] as int);
            if x < pcyc.len() - 2 {
                assert(pcyc[x + 1] == path_ix@[pos + x + 1] as int);
                assert(edge(c, path_ix@[pos + x] as int, path_ix@[pos + x + 1] as int));
            } else {
                assert(pos + x == np - 1);
                assert(pcyc[x + 1] == cur as int);
                assert(edge(c, path_ix@[np - 1] as int, cur as int));
            }
        }
        assert(is_cycle(c, pcyc));
    }
    cycle
}

/// No cycle survives when every service carries a rank that strictly
/// decreases along every edge.
proof fn lemma_all_ranked_acyclic(c: ConfigV, removed: Seq<bool>, rank: Seq<usize>, time: int)
    requires
        removed.len() == c.services.len(),
        rank.len() == c.services.len(),
        forall|q: int| 0 <= q < removed.len() ==> removed[q],
        ranks_sound(c, removed, rank, time),
    ensures
        !has_cycle(c),
{
    if has_cycle(c) {
        let p = choose|p: Seq<int>| is_cycle(c, p);
        let rint = Seq::new(c.services.len(), |q: int| rank[q] as int);
        assert forall|q: int, j: int|
            0 <= q < removed.len() && removed[q] && #[trigger] edge(c, q, j) implies removed[j]
            && rint[j] < rint[q] by {
            lemma_edge_target_in_range(c, q, j);
        }
        lemma_path_rank_decreases(c, removed, rint, p);
        assert(false);
    }
}

/// Detect circular dependencies in the service call graph.
///
/// Succeeds exactly when the graph has no directed cycle; a rejection
/// carries one concrete cycle, service by service, as its path.
fn detect_circular_dependencies(config: &SimulatorConfig) -> (r: Result<(), InvariantViolated>)
    requires
        refs_ok(config@),
    ensures
        r is Ok <==> !has_cycle(config@),
        r matches Err(e) ==> e.kind == InvariantKind::CyclicDependency,
{
    let ghost c = config@;
    let adj = build_adjacency(config);
    let (removed, rank, stalled) = peel_services(config, &adj);
    if !stalled {
        proof {
            lemma_all_ranked_acyclic(c, removed@, rank@, count_true(removed@));
        }
        return Ok(());
    }
    let cycle = find_cycle_walk(config, &adj, &removed);
    let ghost pcyc = cycle@.map(|y: int, v: usize| v as int);
    assert(is_cycle(c, pcyc));
    let mut path: Vec<String> = Vec::new();
    let nc: usize = cycle.len();
    for y in 0..nc
        invariant
            nc == cycle@.len(),
            config@.services.len() == config.services.entries@.len(),
            forall|y2: int| 0 <= y2 < cycle@.len() ==> (#[trigger] cycle@[y2] as int)
                < config@.services.len(),
    {
        path.push(config.services.entries[cycle[y]].0.clone());
    }
    Err(InvariantViolated { kind: InvariantKind::CyclicDependency, path })
}


/// Validate a single entry point against the topology.
pub fn validate_entry_point(
    entry_point: &crate::model::EntryPoint,
    config: &SimulatorConfig,
    index: u64,
) -> (r: Result<(), InvariantViolated>)
    ensures
        r is Ok <==> entry_ok(
            config@,
            entry_point@.service,
            entry_point@.method,
            entry_point@.requests_per_second,
        ),
        r matches Err(e) ==> (e.kind == InvariantKind::UnknownEntryPoint || e.kind
            == InvariantKind::NonPositiveRps),
{
    let exists_ok: bool = match config.services.get(entry_point.service.as_str()) {
        Some(sv) => sv.methods.contains_key(entry_point.method.as_str()),
        None => false,
    };
    if !exists_ok {
        let mut path: Vec<String> = Vec::new();
        path.push(u64_to_string(index));
        path.push(entry_point.service.clone());
        path.push(entry_point.method.clone());
        return Err(InvariantViolated { kind: InvariantKind::UnknownEntryPoint, path });
    }
    if entry_point.requests_per_second == 0 {
        let mut path: Vec<String> = Vec::new();
        path.push(u64_to_string(index));
        return Err(InvariantViolated { kind: InvariantKind::NonPositiveRps, path });
    }
    Ok(())
}

/// Validate the load section: at least one entry point, each resolvable
/// and with a positive rate.
pub fn validate_load_config(load: &LoadConfig, config: &SimulatorConfig) -> (r: Result<
    (),
    InvariantViolated,
>)
    ensures
        r is Ok <==> load_ok(config@, load@),
        r matches Err(e) ==> (e.kind == InvariantKind::UnknownEntryPoint || e.kind
            == InvariantKind::NonPositiveRps),
{
    let n: usize = load.entry_points.len();
    if n == 0 {
        return Err(
            InvariantViolated { kind: InvariantKind::UnknownEntryPoint, path: Vec::new() },
        );
    }
    for i in 0..n
        invariant
            n == load@.entry_points.len(),
            forall|j: int|
                0 <= j < i ==> entry_ok(
                    config@,
                    (#[trigger] load@.entry_points[j]).service,
                    load@.entry_points[j].method,
                    load@.entry_points[j].requests_per_second,
                ),
    {
        let ep = &load.entry_points[i];
        assert(ep@ == load@.entry_points[i as int]);
        let r = validate_entry_point(ep, config, i as u64);
        if let Err(e) = r {
            return Err(e);
        }
    }
    Ok(())
}

/// A topology acceptable to the validator: services present, every
/// reference resolvable, every distribution well-formed, the load
/// section (when present) acceptable, and the call graph acyclic.
pub open spec fn config_valid(c: ConfigV) -> bool {
    &&& c.services.len() > 0
    &&& refs_ok(c)
    &&& latencies_ok(c)
    &&& error_rates_ok(c)
    &&& match c.load {
        Some(l) => load_ok(c, l),
        None => true,
    }
    &&& !has_cycle(c)
}

/// Validator soundness: a topology whose call graph contains a directed
/// cycle is never acceptable, so validation rejects it before any
/// deployment is materialised.
pub proof fn lemma_validator_rejects_cycles(c: ConfigV)
    requires
        has_cycle(c),
    ensures
        !config_valid(c),
{
}

/// Validate that all service dependencies exist and that the call graph
/// has no directed cycle.
pub fn validate_service_dependencies(config: &SimulatorConfig) -> (r: Result<
    (),
    InvariantViolated,
>)
    ensures
        r is Ok <==> refs_ok(config@) && !has_cycle(config@),
        r matches Err(e) ==> (e.kind == InvariantKind::MalformedCall || e.kind
            == InvariantKind::UnknownTarget || e.kind == InvariantKind::CyclicDependency),
{
    match check_call_references(config) {
        Ok(()) => detect_circular_dependencies(config),
        Err(e) => Err(e),
    }
}

/// Validate a simulator configuration by running every rule in order.
pub fn validate_config(config: &SimulatorConfig) -> (r: Result<(), InvariantViolated>)
    ensures
        r is Ok <==> config_valid(config@),
{
    match validate_has_services(config) {
        Ok(()) => (),
        Err(e) => {
            return Err(e);
        },
    }
    match check_call_references(config) {
        Ok(()) => (),
        Err(e) => {
            return Err(e);
        },
    }
    match validate_latency_distributions(config) {
        Ok(()) => (),
        Err(e) => {
            return Err(e);
        },
    }
    match validate_error_rates(config) {
        Ok(()) => (),
        Err(e) => {
            return Err(e);
        },
    }
    if let Some(load) = &config.load {
        assert(load@ == config@.load->Some_0);
        match validate_load_config(load, config) {
            Ok(()) => (),
            Err(e) => {
                return Err(e);
            },
        }
    }
    detect_circular_dependencies(config)
}

} // verus!
