//! The simulated endpoint: its runtime configuration, built once from
//! the instance's section of the fleet document, and the decision taken
//! for each incoming request.
//!
//! For one request the order is fixed: the call plan runs first (see
//! [`crate::executor`]), then the latency sample is slept, and the
//! simulated error is decided last.  The sleeping and the transport
//! live with the caller; everything decided here is verified.

use vstd::prelude::*;

use crate::executor::{CallTarget, CallTargetV};
use crate::model::{CallRecord, MethodV, ServiceConfig, ServiceResponse};
use crate::sampler::{sampler_matches, Sampler};
use crate::strmap::{map_get, map_has, StrMap};
use crate::text::{split_target, target_method, target_ok, target_service};
use crate::validator::{dist_ok, InvariantKind, InvariantViolated};

verus! {

/// Why a request failed: the method is not served here, or the sampled
/// error fired.
#[derive(Clone, Copy, PartialEq, Eq, Structural, Debug)]
pub enum EndpointError {
    UnknownMethod,
    SimulatedError,
}

/// One method, ready to serve: resolved call targets and constructed
/// samplers.
pub struct MethodRuntime {
    pub calls: Vec<Vec<CallTarget>>,
    pub latency: Sampler,
    pub error_rate: Option<Sampler>,
}

/// Mathematical image of a [`MethodRuntime`].
pub struct MethodRuntimeV {
    pub calls: Seq<Seq<CallTargetV>>,
    pub latency: Sampler,
    pub error_rate: Option<Sampler>,
}

impl View for MethodRuntime {
    type V = MethodRuntimeV;

    open spec fn view(&self) -> MethodRuntimeV {
        MethodRuntimeV {
            calls: self.calls.deep_view(),
            latency: self.latency,
            error_rate: self.error_rate,
        }
    }
}

/// One service instance, ready to serve.
pub struct ServiceRuntime {
    pub methods: StrMap<MethodRuntime>,
}

/// A method's configuration can be readied: every call target splits at
/// one dot, and both distributions construct.
pub open spec fn method_buildable(mc: MethodV) -> bool {
    &&& forall|a: int, b: int|
        0 <= a < mc.calls.len() && 0 <= b < mc.calls[a].len() ==> target_ok(
            #[trigger] mc.calls[a][b],
        )
    &&& dist_ok(mc.latency)
    &&& match mc.error {
        Some(d) => dist_ok(d),
        None => true,
    }
}

/// The runtime is the faithful image of the method's configuration.
pub open spec fn method_runtime_matches(m: MethodRuntimeV, mc: MethodV) -> bool {
    &&& m.calls.len() == mc.calls.len()
    &&& forall|a: int|
        0 <= a < mc.calls.len() ==> (#[trigger] m.calls[a]).len() == mc.calls[a].len()
    &&& forall|a: int, b: int|
        0 <= a < mc.calls.len() && 0 <= b < mc.calls[a].len() ==> {
            &&& (#[trigger] m.calls[a][b]).service_name == target_service(mc.calls[a][b])
            &&& m.calls[a][b].method_name == target_method(mc.calls[a][b])
        }
    &&& sampler_matches(m.latency, mc.latency)
    &&& match (m.error_rate, mc.error) {
        (Some(s), Some(d)) => sampler_matches(s, d),
        (None, None) => true,
        _ => false,
    }
}

/// Ready one method: split its targets and construct its samplers.
fn build_method_runtime(mc: &crate::model::MethodConfig) -> (r: Result<
    MethodRuntime,
    InvariantKind,
>)
    ensures
        r is Ok <==> method_buildable(mc@),
        r matches Ok(m) ==> method_runtime_matches(m@, mc@),
        r matches Err(k) ==> (k == InvariantKind::MalformedCall || k
            == InvariantKind::BadDistribution),
{
    let mut calls: Vec<Vec<CallTarget>> = Vec::new();
    let na: usize = mc.calls.len();
    for a in 0..na
        invariant
            na == mc@.calls.len(),
            calls@.len() == a,
            forall|a2: int, b2: int|
                0 <= a2 < a && 0 <= b2 < mc@.calls[a2].len() ==> target_ok(
                    #[trigger] mc@.calls[a2][b2],
                ),
            forall|a2: int|
                0 <= a2 < a ==> (#[trigger] calls@[a2]).deep_view().len() == mc@.calls[a2].len(),
            forall|a2: int, b2: int|
                0 <= a2 < a && 0 <= b2 < mc@.calls[a2].len() ==> {
                    &&& (#[trigger] calls@[a2].deep_view()[b2]).service_name == target_service(
                        mc@.calls[a2][b2],
                    )
                    &&& calls@[a2].deep_view()[b2].method_name == target_method(mc@.calls[a2][b2])
                },
    {
        let nb: usize = mc.calls[a].len();
        let mut row: Vec<CallTarget> = Vec::new();
        for b in 0..nb
            invariant
                na == mc@.calls.len(),
                a < na,
                nb == mc@.calls[a as int].len(),
                row@.len() == b,
                forall|b2: int|
                    0 <= b2 < b ==> target_ok(#[trigger] mc@.calls[a as int][b2]),
                forall|b2: int|
                    0 <= b2 < b ==> {
                        &&& (#[trigger] row@[b2]@).service_name == target_service(
                            mc@.calls[a as int][b2],
                        )
                        &&& row@[b2]@.method_name == target_method(mc@.calls[a as int][b2])
                    },
        {
            let t = &mc.calls[a][b];
            assert(t@ == mc@.calls[a as int][b as int]);
            match split_target(t.as_str()) {
                Some(pair) => {
                    row.push(CallTarget { service_name: pair.0, method_name: pair.1 });
                },
                None => {
                    return Err(InvariantKind::MalformedCall);
                },
            }
        }
        calls.push(row);
        proof {
            assert(calls@[a as int] == row);
            assert(forall|b2: int|
                0 <= b2 < nb ==> (#[trigger] row.deep_view()[b2]) == row@[b2]@);
        }
    }
    let latency = match Sampler::new(&mc.latency_distribution) {
        Ok(s) => s,
        Err(_) => {
            return Err(InvariantKind::BadDistribution);
        },
    };
    let error_rate = match &mc.error_rate {
        Some(d) => {
            match Sampler::new(d) {
                Ok(s) => Some(s),
                Err(_) => {
                    return Err(InvariantKind::BadDistribution);
                },
            }
        },
        None => None,
    };
    let m = MethodRuntime { calls, latency, error_rate };
    proof {
        assert(forall|a2: int|
            0 <= a2 < na ==> (#[trigger] m@.calls[a2]) == m.calls@[a2].deep_view());
    }
    Ok(m)
}

/// Ready one service instance from its section of the fleet document.
///
/// Fails exactly when some method has a malformed call target or an
/// ill-formed distribution; on success each method's runtime mirrors
/// its configuration.
pub fn build_service_runtime(sc: &ServiceConfig) -> (r: Result<ServiceRuntime, InvariantViolated>)
    ensures
        r is Ok <==> (forall|k: int|
            0 <= k < sc@.methods.len() ==> method_buildable(
                (#[trigger] sc@.methods[k]).1,
            )),
        r matches Ok(rt) ==> {
            &&& rt.methods@.len() == sc@.methods.len()
            &&& forall|k: int|
                0 <= k < sc@.methods.len() ==> (#[trigger] rt.methods@[k]).0 == sc@.methods[k].0
                    && method_runtime_matches(rt.methods@[k].1, sc@.methods[k].1)
        },
        r matches Err(e) ==> (e.kind == InvariantKind::MalformedCall || e.kind
            == InvariantKind::BadDistribution),
{
    let mut methods: StrMap<MethodRuntime> = StrMap::new();
    let nm: usize = sc.methods.entries.len();
    for k in 0..nm
        invariant
            nm == sc@.methods.len(),
            methods@.len() == k,
            forall|k2: int|
                0 <= k2 < k ==> method_buildable((#[trigger] sc@.methods[k2]).1),
            forall|k2: int|
                0 <= k2 < k ==> (#[trigger] methods@[k2]).0 == sc@.methods[k2].0
                    && method_runtime_matches(methods@[k2].1, sc@.methods[k2].1),
    {
        let mc = &sc.methods.entries[k].1;
        assert(mc@ == sc@.methods[k as int].1);
        match build_method_runtime(mc) {
            Ok(m) => {
                let ghost methods0 = methods@;
                methods.push(sc.methods.entries[k].0.clone(), m);
                proof {
                    assert(forall|k2: int|
                        0 <= k2 < methods0.len() ==> methods@[k2] == methods0[k2]);
                    assert(methods@[k as int].0 == sc@.methods[k as int].0);
                }
            },
            Err(kind) => {
                let mut path: Vec<String> = Vec::new();
                path.push(sc.methods.entries[k].0.clone());
                return Err(InvariantViolated { kind, path });
            },
        }
    }
    Ok(ServiceRuntime { methods })
}

/// Look up the method a request names; absent methods are refused.
pub fn lookup_method<'a>(rt: &'a ServiceRuntime, method_name: &str) -> (r: Result<
    &'a MethodRuntime,
    EndpointError,
>)
    ensures
        r is Ok <==> map_has(rt.methods@, method_name@),
        r matches Ok(m) ==> map_get(rt.methods@, method_name@) == Some(m@),
        r matches Err(e) ==> e == EndpointError::UnknownMethod,
{
    match rt.methods.get(method_name) {
        Some(m) => Ok(m),
        None => Err(EndpointError::UnknownMethod),
    }
}

/// Decide the reply once the plan has drained and both samples are in:
/// a sampled error beats the payload, anything else echoes the method
/// name and the accumulated trace.
pub fn finish_response(method_name: String, trace: Vec<CallRecord>, simulated_error: bool) -> (r:
    Result<ServiceResponse, EndpointError>)
    ensures
        simulated_error ==> r == Err::<ServiceResponse, EndpointError>(
            EndpointError::SimulatedError,
        ),
        !simulated_error ==> (r matches Ok(resp) && resp.method_name@ == method_name@
            && resp.calls.deep_view() == trace.deep_view()),
{
    if simulated_error {
        Err(EndpointError::SimulatedError)
    } else {
        Ok(ServiceResponse { method_name, calls: trace })
    }
}

} // verus!
