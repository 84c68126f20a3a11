//! The deployment materialiser: the fleet configuration artifact and
//! the compose document.
//!
//! The fleet artifact is one JSON document mapping each service name to
//! `{ ip, port, methods }`, where `ip` is the service name itself: on
//! the deployment's shared network, names resolve to containers.  The
//! compose document declares one unit per service — built from the
//! generic-service image source, named after the service, publishing
//! `host:container`, configured through `SERVICE_NAME`, `SERVICE_PORT`
//! and `CONFIG_PATH`, mounting the fleet artifact, and attached to one
//! shared bridge network.  Start-up order is deliberately left open:
//! the client pool dials lazily and the executor retries.

use vstd::prelude::*;

use crate::json::{
    push_lit, push_string, ser_methods_from, ser_string, ParseError,
};
use crate::model::{ConfigV, ServiceV, SimulatorConfig};
use crate::ports::PortExhausted;
use crate::strmap::{keys_distinct, map_get, map_has, StrMap};
use crate::text::spec_decimal;
use crate::validator::InvariantViolated;

verus! {

/// One fleet artifact member: the service under its name, with its name
/// as its address.
pub open spec fn fleet_entry(name: Seq<char>, sv: ServiceV) -> Seq<char> {
    ser_string(name) + ":{\"ip\":"@ + ser_string(name) + ",\"port\":"@ + ser_string(sv.port)
        + ",\"methods\":{"@ + ser_methods_from(sv.methods, 0) + "}}"@
}

/// The fleet artifact members from position `j` on.
pub open spec fn fleet_entries_from(
    services: Seq<(Seq<char>, ServiceV)>,
    j: int,
) -> Seq<char>
    decreases services.len() - j,
{
    if j < 0 || j >= services.len() {
        Seq::empty()
    } else {
        (if j > 0 {
            seq![',']
        } else {
            Seq::empty()
        }) + fleet_entry(services[j].0, services[j].1) + fleet_entries_from(services, j + 1)
    }
}

/// The whole fleet configuration artifact.
pub open spec fn fleet_doc(c: ConfigV) -> Seq<char> {
    seq!['{'] + fleet_entries_from(c.services, 0) + seq!['}']
}

/// Write the fleet configuration artifact for every service.
#[verifier::rlimit(100)]
pub fn generate_service_configs(config: &SimulatorConfig) -> (r: String)
    ensures
        r@ == fleet_doc(config@),
{
    let mut out: Vec<char> = Vec::new();
    out.push('{');
    let ghost base = out@;
    let n: usize = config.services.entries.len();
    for k in 0..n
        invariant
            n == config@.services.len(),
            out@ + fleet_entries_from(config@.services, k as int) =~= base + fleet_entries_from(
                config@.services,
                0,
            ),
    {
        let ghost out0 = out@;
        if k > 0 {
            out.push(',');
        }
        let name = config.services.entries[k].0.as_str();
        let sv = &config.services.entries[k].1;
        push_string(&mut out, name);
        push_lit(&mut out, ":{\"ip\":");
        push_string(&mut out, name);
        push_lit(&mut out, ",\"port\":");
        push_string(&mut out, sv.port.as_str());
        push_lit(&mut out, ",\"methods\":{");
        let ghost mbase = out@;
        let nm: usize = sv.methods.entries.len();
        for q in 0..nm
            invariant
                n == config@.services.len(),
                k < n,
                sv@ == config@.services[k as int].1,
                nm == sv@.methods.len(),
                out@ + ser_methods_from(sv@.methods, q as int) =~= mbase + ser_methods_from(
                    sv@.methods,
                    0,
                ),
        {
            let ghost out1 = out@;
            if q > 0 {
                out.push(',');
            }
            push_string(&mut out, sv.methods.entries[q].0.as_str());
            out.push(':');
            crate::json::push_method(&mut out, &sv.methods.entries[q].1);
            proof {
                let p = sv@.methods[q as int];
                assert(p.0 == sv.methods.entries@[q as int].0@);
                assert(p.1 == sv.methods.entries@[q as int].1@);
                let sep: Seq<char> = if q > 0 {
                    seq![',']
                } else {
                    Seq::<char>::empty()
                };
                assert(out@ =~= out1 + sep + ser_string(p.0) + seq![':'] + crate::json::ser_method(
                    p.1,
                ));
                assert(out@ + ser_methods_from(sv@.methods, q + 1) =~= out1 + ser_methods_from(
                    sv@.methods,
                    q as int,
                ));
            }
        }
        push_lit(&mut out, "}}");
        proof {
            assert(ser_methods_from(sv@.methods, nm as int) =~= Seq::<char>::empty());
            let p = config@.services[k as int];
            let sep: Seq<char> = if k > 0 {
                seq![',']
            } else {
                Seq::<char>::empty()
            };
            assert(out@ =~= out0 + sep + fleet_entry(p.0, p.1));
            assert(out@ + fleet_entries_from(config@.services, k + 1) =~= out0
                + fleet_entries_from(config@.services, k as int));
        }
    }
    out.push('}');
    proof {
        assert(fleet_entries_from(config@.services, n as int) =~= Seq::<char>::empty());
        assert(out@ =~= fleet_doc(config@));
    }
    crate::text::string_from_chars(&out)
}

/// One compose unit for a service, given its published host port.
pub open spec fn compose_service(name: Seq<char>, sv: ServiceV, host_port: u16) -> Seq<char> {
    "  "@ + name + ":\n    build:\n      context: ../generic-service\n      dockerfile: Dockerfile\n      args:\n        SERVICE_CONTAINER_PORT: \""@
        + sv.port
        + "\"\n    container_name: "@ + name + "\n    ports:\n    - \""@ + spec_decimal(
        host_port as int,
    ) + ":"@ + sv.port + "\"\n    environment:\n      SERVICE_NAME: "@ + name
        + "\n      SERVICE_PORT: \""@ + sv.port
        + "\"\n      CONFIG_PATH: /app/config.json\n    volumes:\n    - ./service_configs/config.json:/app/config.json\n    networks:\n    - microservice_net\n"@
}

/// The compose units from position `j` on.
pub open spec fn compose_services_from(
    services: Seq<(Seq<char>, ServiceV)>,
    ports: Seq<(Seq<char>, u16)>,
    j: int,
) -> Seq<char>
    decreases services.len() - j,
{
    if j < 0 || j >= services.len() {
        Seq::empty()
    } else {
        compose_service(
            services[j].0,
            services[j].1,
            match map_get(ports, services[j].0) {
                Some(p) => p,
                None => 0,
            },
        ) + compose_services_from(services, ports, j + 1)
    }
}

/// The whole compose document.
pub open spec fn compose_doc(c: ConfigV, ports: Seq<(Seq<char>, u16)>) -> Seq<char> {
    "version: \"3\"\nservices:\n"@ + compose_services_from(c.services, ports, 0)
        + "networks:\n  microservice_net:\n    driver: bridge\n"@
}

/// Write the compose document for a fleet with assigned host ports.
///
/// Fails exactly when some service has no assigned port; on success the
/// output is exactly [`compose_doc`].
#[verifier::rlimit(60)]
pub fn generate_docker_compose(config: &SimulatorConfig, ports: &StrMap<u16>) -> (r: Result<
    String,
    InvariantViolated,
>)
    ensures
        r is Ok <==> (forall|i: int|
            0 <= i < config@.services.len() ==> map_has(ports@, (#[trigger] config@.services[i]).0)),
        r matches Ok(text) ==> text@ == compose_doc(config@, ports@),
{
    let mut out: Vec<char> = Vec::new();
    push_lit(&mut out, "version: \"3\"\nservices:\n");
    let ghost base = out@;
    let n: usize = config.services.entries.len();
    for k in 0..n
        invariant
            n == config@.services.len(),
            forall|i: int| 0 <= i < k ==> map_has(ports@, (#[trigger] config@.services[i]).0),
            out@ + compose_services_from(config@.services, ports@, k as int) =~= base
                + compose_services_from(config@.services, ports@, 0),
    {
        let ghost out0 = out@;
        let name = config.services.entries[k].0.as_str();
        let sv = &config.services.entries[k].1;
        let host_port: u16 = match ports.get(name) {
            Some(p) => *p,
            None => {
                let mut path: Vec<String> = Vec::new();
                path.push(name.to_owned());
                return Err(
                    InvariantViolated {
                        kind: crate::validator::InvariantKind::UnknownTarget,
                        path,
                    },
                );
            },
        };
        push_lit(&mut out, "  ");
        push_lit(&mut out, name);
        push_lit(&mut out, ":\n    build:\n      context: ../generic-service\n      dockerfile: Dockerfile\n      args:\n        SERVICE_CONTAINER_PORT: \"");
        push_lit(&mut out, sv.port.as_str());
        push_lit(&mut out, "\"\n    container_name: ");
        push_lit(&mut out, name);
        push_lit(&mut out, "\n    ports:\n    - \"");
        crate::text::push_decimal(host_port as u64, &mut out);
        push_lit(&mut out, ":");
        push_lit(&mut out, sv.port.as_str());
        push_lit(&mut out, "\"\n    environment:\n      SERVICE_NAME: ");
        push_lit(&mut out, name);
        push_lit(&mut out, "\n      SERVICE_PORT: \"");
        push_lit(&mut out, sv.port.as_str());
        push_lit(&mut out, "\"\n      CONFIG_PATH: /app/config.json\n    volumes:\n    - ./service_configs/config.json:/app/config.json\n    networks:\n    - microservice_net\n");
        proof {
            let p = config@.services[k as int];
            assert(p.0 == config.services.entries@[k as int].0@);
            assert(p.1 == sv@);
            assert(map_get(ports@, p.0) == Some(host_port));
            assert(out@ =~= out0 + compose_service(p.0, p.1, host_port));
            assert(out@ + compose_services_from(config@.services, ports@, k + 1) =~= out0
                + compose_services_from(config@.services, ports@, k as int));
        }
    }
    push_lit(&mut out, "networks:\n  microservice_net:\n    driver: bridge\n");
    proof {
        assert(compose_services_from(config@.services, ports@, n as int) =~= Seq::<char>::empty());
        assert(out@ =~= compose_doc(config@, ports@));
    }
    Ok(crate::text::string_from_chars(&out))
}

/// Everything the deployment driver needs on disk.
pub struct DeploymentArtifacts {
    pub compose_yaml: String,
    pub fleet_config: String,
    pub ports: StrMap<u16>,
}

/// Why a submitted document was refused.
#[derive(Debug)]
pub enum SubmissionError {
    Parse(ParseError),
    Invalid(InvariantViolated),
    Ports(PortExhausted),
}

/// Materialise a validated topology: assign ports, write the fleet
/// artifact and the compose document.
pub fn materialise_deployment(config: &SimulatorConfig) -> (r: Result<
    DeploymentArtifacts,
    SubmissionError,
>)
    requires
        keys_distinct(config@.services),
    ensures
        r is Ok <==> config@.services.len() <= crate::ports::spec_port_limit()
            - crate::ports::spec_port_base(),
        r matches Ok(a) ==> {
            &&& a.fleet_config@ == fleet_doc(config@)
            &&& a.compose_yaml@ == compose_doc(config@, a.ports@)
            &&& a.ports@.len() == config@.services.len()
            &&& forall|y1: int, y2: int|
                0 <= y1 < y2 < a.ports@.len() ==> (#[trigger] a.ports@[y1].1) != (
                #[trigger] a.ports@[y2].1)
        },
        r matches Err(e) ==> e matches SubmissionError::Ports(_),
{
    let ports = match crate::ports::assign_ports(&config.services) {
        Ok(p) => p,
        Err(e) => {
            return Err(SubmissionError::Ports(e));
        },
    };
    let fleet_config = generate_service_configs(config);
    let compose_yaml = match generate_docker_compose(config, &ports) {
        Ok(y) => y,
        Err(e) => {
            proof {
                assert(false);
            }
            return Err(SubmissionError::Invalid(e));
        },
    };
    Ok(DeploymentArtifacts { compose_yaml, fleet_config, ports })
}

/// Handle one submitted document: parse it, validate it, and
/// materialise the deployment.
///
/// A `Parse` error comes only from the parser; an `Invalid` error only
/// from a parsed, well-formed topology the validator rejected; a
/// `Ports` error only from a valid topology larger than the port pool;
/// and a success carries exactly the artifacts of some parsed, valid
/// topology.
pub fn process_submission(content: &str) -> (r: Result<DeploymentArtifacts, SubmissionError>)
    ensures
        r matches Ok(a) ==> exists|c: ConfigV|
            {
                &&& #[trigger] crate::json::parsed_wf(c)
                &&& crate::validator::config_valid(c)
                &&& a.fleet_config@ == fleet_doc(c)
                &&& a.compose_yaml@ == compose_doc(c, a.ports@)
                &&& a.ports@.len() == c.services.len()
                &&& forall|y1: int, y2: int|
                    0 <= y1 < y2 < a.ports@.len() ==> (#[trigger] a.ports@[y1].1) != (
                    #[trigger] a.ports@[y2].1)
            },
        r matches Err(e) ==> match e {
            SubmissionError::Parse(_) => true,
            SubmissionError::Invalid(_) => exists|c: ConfigV|
                #[trigger] crate::json::parsed_wf(c) && !crate::validator::config_valid(c),
            SubmissionError::Ports(_) => exists|c: ConfigV|
                #[trigger] crate::json::parsed_wf(c) && crate::validator::config_valid(c)
                    && c.services.len() > crate::ports::spec_port_limit()
                    - crate::ports::spec_port_base(),
        },
{
    let config = match crate::json::parse_json_str(content) {
        Ok(c) => c,
        Err(e) => {
            return Err(SubmissionError::Parse(e));
        },
    };
    match crate::validator::validate_config(&config) {
        Ok(()) => (),
        Err(e) => {
            proof {
                assert(crate::json::parsed_wf(config@) && !crate::validator::config_valid(
                    config@,
                ));
            }
            return Err(SubmissionError::Invalid(e));
        },
    }
    let r = materialise_deployment(&config);
    proof {
        match &r {
            Ok(a) => {
                assert(crate::json::parsed_wf(config@) && crate::validator::config_valid(config@)
                    && a.fleet_config@ == fleet_doc(config@) && a.compose_yaml@ == compose_doc(
                    config@,
                    a.ports@,
                ) && a.ports@.len() == config@.services.len());
            },
            Err(_) => {
                assert(crate::json::parsed_wf(config@) && crate::validator::config_valid(config@)
                    && config@.services.len() > crate::ports::spec_port_limit()
                    - crate::ports::spec_port_base());
            },
        }
    }
    r
}

/// The HTTP status published for a submission outcome: accepted, the
/// client's fault, or the materialiser's.
pub fn submission_status_code(r: &Result<DeploymentArtifacts, SubmissionError>) -> (code: u16)
    ensures
        r is Ok ==> code == 200,
        r matches Err(e) ==> match e {
            SubmissionError::Parse(_) => code == 400,
            SubmissionError::Invalid(_) => code == 400,
            SubmissionError::Ports(_) => code == 500,
        },
{
    match r {
        Ok(_) => 200,
        Err(SubmissionError::Parse(_)) => 400,
        Err(SubmissionError::Invalid(_)) => 400,
        Err(SubmissionError::Ports(_)) => 500,
    }
}

/// One stage of a call plan in flow style.
pub open spec fn yaml_row_from(row: Seq<Seq<char>>, j: int) -> Seq<char>
    decreases row.len() - j,
{
    if j < 0 || j >= row.len() {
        Seq::empty()
    } else {
        (if j > 0 {
            seq![',']
        } else {
            Seq::empty()
        }) + ser_string(row[j]) + yaml_row_from(row, j + 1)
    }
}

/// The stages of a call plan in flow style.
pub open spec fn yaml_calls_from(calls: Seq<Seq<Seq<char>>>, j: int) -> Seq<char>
    decreases calls.len() - j,
{
    if j < 0 || j >= calls.len() {
        Seq::empty()
    } else {
        (if j > 0 {
            seq![',']
        } else {
            Seq::empty()
        }) + seq!['['] + yaml_row_from(calls[j], 0) + seq![']'] + yaml_calls_from(calls, j + 1)
    }
}

/// A distribution in flow style.
pub open spec fn yaml_dist(d: crate::model::DistributionV) -> Seq<char> {
    "{type: "@ + ser_string(d.kind) + ", parameters: {"@ + yaml_params_from(d.params, 0) + "}}"@
}

/// The parameters of a distribution in flow style.
pub open spec fn yaml_params_from(params: Seq<(Seq<char>, i64)>, j: int) -> Seq<char>
    decreases params.len() - j,
{
    if j < 0 || j >= params.len() {
        Seq::empty()
    } else {
        (if j > 0 {
            ", "@
        } else {
            Seq::empty()
        }) + params[j].0 + ": "@ + crate::json::ser_num(params[j].1 as int) + yaml_params_from(
            params,
            j + 1,
        )
    }
}

/// One method entry of the bridge document.
pub open spec fn yaml_method(name: Seq<char>, m: crate::model::MethodV) -> Seq<char> {
    "      "@ + name + ":\n        calls: ["@ + yaml_calls_from(m.calls, 0)
        + "]\n        latency_distribution: "@ + yaml_dist(m.latency) + (match m.error {
        Some(d) => "\n        error_rate: "@ + yaml_dist(d),
        None => Seq::empty(),
    }) + "\n"@
}

/// The methods of one service of the bridge document.
pub open spec fn yaml_methods_from(methods: Seq<(Seq<char>, crate::model::MethodV)>, j: int) -> Seq<
    char,
>
    decreases methods.len() - j,
{
    if j < 0 || j >= methods.len() {
        Seq::empty()
    } else {
        yaml_method(methods[j].0, methods[j].1) + yaml_methods_from(methods, j + 1)
    }
}

/// One service entry of the bridge document.
pub open spec fn yaml_service(name: Seq<char>, sv: ServiceV) -> Seq<char> {
    "  "@ + name + ":\n    container_port: "@ + ser_string(sv.port) + "\n    methods:\n"@
        + yaml_methods_from(sv.methods, 0)
}

/// The services of the bridge document.
pub open spec fn yaml_services_from(services: Seq<(Seq<char>, ServiceV)>, j: int) -> Seq<char>
    decreases services.len() - j,
{
    if j < 0 || j >= services.len() {
        Seq::empty()
    } else {
        yaml_service(services[j].0, services[j].1) + yaml_services_from(services, j + 1)
    }
}

/// One load entry of the bridge document.
pub open spec fn yaml_entry(ep: crate::model::EntryPointV) -> Seq<char> {
    "  - {service: "@ + ser_string(ep.service) + ", method: "@ + ser_string(ep.method)
        + ", requests_per_second: "@ + crate::text::spec_decimal(ep.requests_per_second as int)
        + "}\n"@
}

/// The load entries of the bridge document.
pub open spec fn yaml_entries_from(eps: Seq<crate::model::EntryPointV>, j: int) -> Seq<char>
    decreases eps.len() - j,
{
    if j < 0 || j >= eps.len() {
        Seq::empty()
    } else {
        yaml_entry(eps[j]) + yaml_entries_from(eps, j + 1)
    }
}

/// The whole bridge document handed from the front end to the
/// orchestrator: the topology restated as YAML.
pub open spec fn simulator_yaml(c: ConfigV) -> Seq<char> {
    "services:\n"@ + yaml_services_from(c.services, 0) + (match c.load {
        Some(l) => "load:\n  entry_points:\n"@ + yaml_entries_from(l.entry_points, 0),
        None => Seq::empty(),
    })
}

/// Write the topology as the YAML bridge document.
#[verifier::rlimit(100)]
pub fn generate_simulator_yaml(config: &SimulatorConfig) -> (r: String)
    ensures
        r@ == simulator_yaml(config@),
{
    let mut out: Vec<char> = Vec::new();
    push_lit(&mut out, "services:\n");
    let ghost base = out@;
    let n: usize = config.services.entries.len();
    for k in 0..n
        invariant
            n == config@.services.len(),
            out@ + yaml_services_from(config@.services, k as int) =~= base + yaml_services_from(
                config@.services,
                0,
            ),
    {
        let ghost out0 = out@;
        let name = config.services.entries[k].0.as_str();
        let sv = &config.services.entries[k].1;
        push_lit(&mut out, "  ");
        push_lit(&mut out, name);
        push_lit(&mut out, ":\n    container_port: ");
        push_string(&mut out, sv.port.as_str());
        push_lit(&mut out, "\n    methods:\n");
        let ghost mbase = out@;
        let nm: usize = sv.methods.entries.len();
        for q in 0..nm
            invariant
                n == config@.services.len(),
                k < n,
                sv@ == config@.services[k as int].1,
                nm == sv@.methods.len(),
                out@ + yaml_methods_from(sv@.methods, q as int) =~= mbase + yaml_methods_from(
                    sv@.methods,
                    0,
                ),
        {
            let ghost out1 = out@;
            let mc = &sv.methods.entries[q].1;
            push_lit(&mut out, "      ");
            push_lit(&mut out, sv.methods.entries[q].0.as_str());
            push_lit(&mut out, ":\n        calls: [");
            let ghost cbase = out@;
            let na: usize = mc.calls.len();
            for a in 0..na
                invariant
                    nm == sv@.methods.len(),
                    q < nm,
                    mc@ == sv@.methods[q as int].1,
                    na == mc@.calls.len(),
                    out@ + yaml_calls_from(mc@.calls, a as int) =~= cbase + yaml_calls_from(
                        mc@.calls,
                        0,
                    ),
            {
                let ghost out2 = out@;
                if a > 0 {
                    out.push(',');
                }
                out.push('[');
                let ghost rbase = out@;
                let nb: usize = mc.calls[a].len();
                for b in 0..nb
                    invariant
                        na == mc@.calls.len(),
                        a < na,
                        nb == mc@.calls[a as int].len(),
                        out@ + yaml_row_from(mc@.calls[a as int], b as int) =~= rbase
                            + yaml_row_from(mc@.calls[a as int], 0),
                {
                    let ghost out3 = out@;
                    if b > 0 {
                        out.push(',');
                    }
                    push_string(&mut out, mc.calls[a][b].as_str());
                    proof {
                        let t = mc@.calls[a as int][b as int];
                        assert(t == mc.calls@[a as int]@[b as int]@);
                        let sep: Seq<char> = if b > 0 {
                            seq![',']
                        } else {
                            Seq::<char>::empty()
                        };
                        assert(out@ =~= out3 + sep + ser_string(t));
                        assert(out@ + yaml_row_from(mc@.calls[a as int], b + 1) =~= out3
                            + yaml_row_from(mc@.calls[a as int], b as int));
                    }
                }
                out.push(']');
                proof {
                    assert(yaml_row_from(mc@.calls[a as int], nb as int) =~= Seq::<char>::empty());
                    let sep: Seq<char> = if a > 0 {
                        seq![',']
                    } else {
                        Seq::<char>::empty()
                    };
                    assert(out@ =~= out2 + sep + seq!['['] + yaml_row_from(mc@.calls[a as int], 0)
                        + seq![']']);
                    assert(out@ + yaml_calls_from(mc@.calls, a + 1) =~= out2 + yaml_calls_from(
                        mc@.calls,
                        a as int,
                    ));
                }
            }
            push_lit(&mut out, "]\n        latency_distribution: ");
            push_yaml_dist(&mut out, &mc.latency_distribution);
            match &mc.error_rate {
                Some(d) => {
                    push_lit(&mut out, "\n        error_rate: ");
                    push_yaml_dist(&mut out, d);
                },
                None => (),
            }
            push_lit(&mut out, "\n");
            proof {
                assert(yaml_calls_from(mc@.calls, na as int) =~= Seq::<char>::empty());
                let p = sv@.methods[q as int];
                assert(p.0 == sv.methods.entries@[q as int].0@);
                assert(p.1 == mc@);
                assert(out@ =~= out1 + yaml_method(p.0, p.1));
                assert(out@ + yaml_methods_from(sv@.methods, q + 1) =~= out1 + yaml_methods_from(
                    sv@.methods,
                    q as int,
                ));
            }
        }
        proof {
            assert(yaml_methods_from(sv@.methods, nm as int) =~= Seq::<char>::empty());
            let p = config@.services[k as int];
            assert(p.0 == config.services.entries@[k as int].0@);
            assert(p.1 == sv@);
            assert(out@ =~= out0 + yaml_service(p.0, p.1));
            assert(out@ + yaml_services_from(config@.services, k + 1) =~= out0
                + yaml_services_from(config@.services, k as int));
        }
    }
    proof {
        assert(yaml_services_from(config@.services, n as int) =~= Seq::<char>::empty());
        assert(out@ =~= base + yaml_services_from(config@.services, 0));
    }
    match &config.load {
        Some(l) => {
            push_lit(&mut out, "load:\n  entry_points:\n");
            let ghost lbase = out@;
            let ne: usize = l.entry_points.len();
            for q in 0..ne
                invariant
                    ne == l@.entry_points.len(),
                    l@ == config@.load->Some_0,
                    out@ + yaml_entries_from(l@.entry_points, q as int) =~= lbase
                        + yaml_entries_from(l@.entry_points, 0),
            {
                let ghost out0 = out@;
                let ep = &l.entry_points[q];
                push_lit(&mut out, "  - {service: ");
                push_string(&mut out, ep.service.as_str());
                push_lit(&mut out, ", method: ");
                push_string(&mut out, ep.method.as_str());
                push_lit(&mut out, ", requests_per_second: ");
                crate::text::push_decimal(ep.requests_per_second as u64, &mut out);
                push_lit(&mut out, "}\n");
                proof {
                    let e = l@.entry_points[q as int];
                    assert(e == l.entry_points@[q as int]@);
                    assert(out@ =~= out0 + yaml_entry(e));
                    assert(out@ + yaml_entries_from(l@.entry_points, q + 1) =~= out0
                        + yaml_entries_from(l@.entry_points, q as int));
                }
            }
            proof {
                assert(yaml_entries_from(l@.entry_points, ne as int) =~= Seq::<char>::empty());
                assert(out@ =~= simulator_yaml(config@));
            }
        },
        None => {
            proof {
                assert(out@ =~= simulator_yaml(config@));
            }
        },
    }
    crate::text::string_from_chars(&out)
}

/// Append a distribution in flow style.
fn push_yaml_dist(out: &mut Vec<char>, d: &crate::model::Distribution)
    ensures
        final(out)@ == old(out)@ + yaml_dist(d@),
{
    push_lit(out, "{type: ");
    push_string(out, d.distribution_type.as_str());
    push_lit(out, ", parameters: {");
    let ghost base = out@;
    let n: usize = d.parameters.entries.len();
    for j in 0..n
        invariant
            n == d@.params.len(),
            out@ + yaml_params_from(d@.params, j as int) =~= base + yaml_params_from(d@.params, 0),
    {
        let ghost out0 = out@;
        if j > 0 {
            push_lit(out, ", ");
        }
        push_lit(out, d.parameters.entries[j].0.as_str());
        push_lit(out, ": ");
        crate::json::push_num(out, d.parameters.entries[j].1);
        proof {
            let p = d@.params[j as int];
            assert(p.0 == d.parameters.entries@[j as int].0@);
            assert(p.1 == d.parameters.entries@[j as int].1);
            let sep: Seq<char> = if j > 0 {
                ", "@
            } else {
                Seq::<char>::empty()
            };
            assert(out@ =~= out0 + sep + p.0 + ": "@ + crate::json::ser_num(p.1 as int));
            assert(out@ + yaml_params_from(d@.params, j + 1) =~= out0 + yaml_params_from(
                d@.params,
                j as int,
            ));
        }
    }
    push_lit(out, "}}");
    proof {
        assert(yaml_params_from(d@.params, n as int) =~= Seq::<char>::empty());
        assert(out@ =~= old(out)@ + yaml_dist(d@));
    }
}

} // verus!
