//! The topology data model: services, methods, call plans, distributions
//! and the optional load section.
//!
//! Numeric distribution parameters are held in fixed point, as signed
//! micro-units: one unit is a millionth of the document's value.  A latency
//! parameter written as `150` (milliseconds) is stored as `150_000_000`;
//! a probability written as `0.02` is stored as `20_000`.

use vstd::prelude::*;

use crate::strmap::StrMap;

verus! {

/// A named probability distribution: its kind tag and its parameters,
/// each parameter value in micro-units.
pub struct Distribution {
    pub distribution_type: String,
    pub parameters: StrMap<i64>,
}

/// Mathematical image of a [`Distribution`].
pub struct DistributionV {
    pub kind: Seq<char>,
    pub params: Seq<(Seq<char>, i64)>,
}

impl View for Distribution {
    type V = DistributionV;

    open spec fn view(&self) -> DistributionV {
        DistributionV { kind: self.distribution_type@, params: self.parameters@ }
    }
}

/// One method of a service: its two-dimensional call plan (stages, then
/// fan-out within a stage), its latency distribution and its optional
/// error rate.
pub struct MethodConfig {
    pub calls: Vec<Vec<String>>,
    pub latency_distribution: Distribution,
    pub error_rate: Option<Distribution>,
}

/// Mathematical image of a [`MethodConfig`].
pub struct MethodV {
    pub calls: Seq<Seq<Seq<char>>>,
    pub latency: DistributionV,
    pub error: Option<DistributionV>,
}

impl View for MethodConfig {
    type V = MethodV;

    open spec fn view(&self) -> MethodV {
        MethodV {
            calls: self.calls.deep_view(),
            latency: self.latency_distribution@,
            error: match self.error_rate {
                Some(d) => Some(d@),
                None => None,
            },
        }
    }
}

/// One service: where it listens and which methods it serves.
pub struct ServiceConfig {
    pub ip: String,
    pub port: String,
    pub methods: StrMap<MethodConfig>,
}

/// Mathematical image of a [`ServiceConfig`].
pub struct ServiceV {
    pub ip: Seq<char>,
    pub port: Seq<char>,
    pub methods: Seq<(Seq<char>, MethodV)>,
}

impl View for ServiceConfig {
    type V = ServiceV;

    open spec fn view(&self) -> ServiceV {
        ServiceV { ip: self.ip@, port: self.port@, methods: self.methods@ }
    }
}

/// One load entry point: a service, one of its methods, and the rate at
/// which requests are fired at it.
pub struct EntryPoint {
    pub service: String,
    pub method: String,
    pub requests_per_second: u32,
}

/// Mathematical image of an [`EntryPoint`].
pub struct EntryPointV {
    pub service: Seq<char>,
    pub method: Seq<char>,
    pub requests_per_second: u32,
}

impl View for EntryPoint {
    type V = EntryPointV;

    open spec fn view(&self) -> EntryPointV {
        EntryPointV {
            service: self.service@,
            method: self.method@,
            requests_per_second: self.requests_per_second,
        }
    }
}

impl DeepView for EntryPoint {
    type V = EntryPointV;

    open spec fn deep_view(&self) -> EntryPointV {
        self.view()
    }
}

/// The optional load section of the document.
pub struct LoadConfig {
    pub entry_points: Vec<EntryPoint>,
}

/// Mathematical image of a [`LoadConfig`].
pub struct LoadV {
    pub entry_points: Seq<EntryPointV>,
}

impl View for LoadConfig {
    type V = LoadV;

    open spec fn view(&self) -> LoadV {
        LoadV { entry_points: self.entry_points.deep_view() }
    }
}

/// The whole topology document.
pub struct SimulatorConfig {
    pub services: StrMap<ServiceConfig>,
    pub load: Option<LoadConfig>,
}

/// Mathematical image of a [`SimulatorConfig`].
pub struct ConfigV {
    pub services: Seq<(Seq<char>, ServiceV)>,
    pub load: Option<LoadV>,
}

impl View for SimulatorConfig {
    type V = ConfigV;

    open spec fn view(&self) -> ConfigV {
        ConfigV {
            services: self.services@,
            load: match self.load {
                Some(l) => Some(l@),
                None => None,
            },
        }
    }
}

/// A timestamp as carried on call records: seconds and nanoseconds since
/// the epoch, as the transport's timestamp message holds them.
#[derive(Clone, Copy, PartialEq, Eq, Structural)]
pub struct Timestamp {
    pub seconds: i64,
    pub nanos: i32,
}

/// One attempt observed somewhere in the downstream subtree of an
/// invocation: the method called, when its response arrived, and whether
/// the outcome was an error.
pub struct CallRecord {
    pub method_name: String,
    pub response_received_at: Timestamp,
    pub was_an_error: bool,
}

/// Mathematical image of a [`CallRecord`].
pub struct CallRecordV {
    pub method_name: Seq<char>,
    pub response_received_at: Timestamp,
    pub was_an_error: bool,
}

impl View for CallRecord {
    type V = CallRecordV;

    open spec fn view(&self) -> CallRecordV {
        CallRecordV {
            method_name: self.method_name@,
            response_received_at: self.response_received_at,
            was_an_error: self.was_an_error,
        }
    }
}

impl DeepView for CallRecord {
    type V = CallRecordV;

    open spec fn deep_view(&self) -> CallRecordV {
        self.view()
    }
}

/// The payload of a successful reply: the method that was invoked and the
/// accumulated trace of every downstream attempt.
pub struct ServiceResponse {
    pub method_name: String,
    pub calls: Vec<CallRecord>,
}

} // verus!
