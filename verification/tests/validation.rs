use simtopo::json::parse_json_str;
use simtopo::validator::{
    validate_config, validate_entry_point, validate_has_services, validate_load_config,
    validate_service_dependencies, validate_single_distribution, InvariantKind,
};

fn parse(doc: &str) -> simtopo::model::SimulatorConfig {
    parse_json_str(doc).unwrap()
}

fn leaf_service(name: &str, port: &str) -> String {
    format!(
        "\"{}\": {{\"port\": \"{}\", \"methods\": {{\"m\": {{\"latency_distribution\": {{\"type\": \"constant\", \"parameters\": {{\"value\": 0}}}}}}}}}}",
        name, port
    )
}

#[test]
fn accepts_well_formed_topology() {
    let doc = r#"{"services": {
        "A": {"port": "50051", "methods": {"m": {
            "calls": [["B.m"]],
            "latency_distribution": {"type": "normal", "parameters": {"mean": 150, "stddev": 25}},
            "error_rate": {"type": "bernoulli", "parameters": {"p": 0.02}}
        }}},
        "B": {"port": "50052", "methods": {"m": {
            "latency_distribution": {"type": "exponential", "parameters": {"rate": 3}}
        }}}
    }, "load": {"entry_points": [{"service": "A", "method": "m", "requests_per_second": 10}]}}"#;
    let config = parse(doc);
    assert!(validate_config(&config).is_ok());
}

#[test]
fn rejects_empty_topology() {
    let config = parse(r#"{"services": {}}"#);
    let err = validate_config(&config).unwrap_err();
    assert_eq!(err.kind, InvariantKind::NoServices);
    assert!(validate_has_services(&config).is_err());
}

#[test]
fn rejects_malformed_call_target() {
    let doc = format!(
        "{{\"services\": {{\"A\": {{\"port\": \"1\", \"methods\": {{\"m\": {{\"calls\": [[\"B.m.extra\"]], \"latency_distribution\": {{\"type\": \"constant\", \"parameters\": {{\"value\": 0}}}}}}}}}}, {} }}}}",
        leaf_service("B", "2")
    );
    let config = parse(&doc);
    let err = validate_service_dependencies(&config).unwrap_err();
    assert_eq!(err.kind, InvariantKind::MalformedCall);
    assert_eq!(err.path[0], "A");
    assert_eq!(err.path[1], "m");
    assert_eq!(err.path[2], "0");
    assert_eq!(err.path[3], "B.m.extra");
}

#[test]
fn rejects_unknown_target_service_and_method() {
    let doc = format!(
        "{{\"services\": {{\"A\": {{\"port\": \"1\", \"methods\": {{\"m\": {{\"calls\": [[\"C.m\"]], \"latency_distribution\": {{\"type\": \"constant\", \"parameters\": {{\"value\": 0}}}}}}}}}}, {} }}}}",
        leaf_service("B", "2")
    );
    let err = validate_config(&parse(&doc)).unwrap_err();
    assert_eq!(err.kind, InvariantKind::UnknownTarget);

    let doc2 = format!(
        "{{\"services\": {{\"A\": {{\"port\": \"1\", \"methods\": {{\"m\": {{\"calls\": [[\"B.absent\"]], \"latency_distribution\": {{\"type\": \"constant\", \"parameters\": {{\"value\": 0}}}}}}}}}}, {} }}}}",
        leaf_service("B", "2")
    );
    let err2 = validate_config(&parse(&doc2)).unwrap_err();
    assert_eq!(err2.kind, InvariantKind::UnknownTarget);
}

#[test]
fn rejects_bad_distributions() {
    // non-positive stddev
    let doc = r#"{"services": {"A": {"port": "1", "methods": {"m": {
        "latency_distribution": {"type": "normal", "parameters": {"mean": 5, "stddev": 0}}
    }}}}}"#;
    let err = validate_config(&parse(doc)).unwrap_err();
    assert_eq!(err.kind, InvariantKind::BadDistribution);

    // unknown kind
    let doc2 = r#"{"services": {"A": {"port": "1", "methods": {"m": {
        "latency_distribution": {"type": "pareto", "parameters": {"alpha": 3}}
    }}}}}"#;
    assert_eq!(
        validate_config(&parse(doc2)).unwrap_err().kind,
        InvariantKind::BadDistribution
    );

    // probability out of range, on the error-rate side
    let doc3 = r#"{"services": {"A": {"port": "1", "methods": {"m": {
        "latency_distribution": {"type": "constant", "parameters": {"value": 0}},
        "error_rate": {"type": "bernoulli", "parameters": {"p": 1.5}}
    }}}}}"#;
    assert_eq!(
        validate_config(&parse(doc3)).unwrap_err().kind,
        InvariantKind::BadDistribution
    );

    // min above max
    let config4 = parse(
        r#"{"services": {"A": {"port": "1", "methods": {"m": {
            "latency_distribution": {"type": "uniform", "parameters": {"min": 4, "max": 2}}
        }}}}}"#,
    );
    let a = config4.services.get("A").unwrap();
    let m = a.methods.get("m").unwrap();
    assert!(validate_single_distribution(&m.latency_distribution, "A", "m").is_err());
}

#[test]
fn rejects_unknown_entry_point_and_zero_rate() {
    let doc = format!(
        "{{\"services\": {{ {} }}, \"load\": {{\"entry_points\": [{{\"service\": \"C\", \"method\": \"m\", \"requests_per_second\": 1}}]}}}}",
        leaf_service("A", "1")
    );
    let config = parse(&doc);
    let err = validate_config(&config).unwrap_err();
    assert_eq!(err.kind, InvariantKind::UnknownEntryPoint);

    let doc2 = format!(
        "{{\"services\": {{ {} }}, \"load\": {{\"entry_points\": [{{\"service\": \"A\", \"method\": \"m\", \"requests_per_second\": 0}}]}}}}",
        leaf_service("A", "1")
    );
    let config2 = parse(&doc2);
    assert_eq!(
        validate_config(&config2).unwrap_err().kind,
        InvariantKind::NonPositiveRps
    );
    let load = config2.load.as_ref().unwrap();
    assert!(validate_load_config(load, &config2).is_err());
    assert!(validate_entry_point(&load.entry_points[0], &config2, 0).is_err());
}

#[test]
fn rejects_empty_entry_point_list() {
    let doc = format!(
        "{{\"services\": {{ {} }}, \"load\": {{\"entry_points\": []}}}}",
        leaf_service("A", "1")
    );
    assert!(validate_config(&parse(&doc)).is_err());
}

#[test]
fn cycle_rejected() {
    // A.m calls B.m and B.m calls A.m: the validator must fail with a
    // cyclic-dependency violation, so nothing is ever deployed.
    let doc = r#"{"services": {
        "A": {"port": "1", "methods": {"m": {
            "calls": [["B.m"]],
            "latency_distribution": {"type": "constant", "parameters": {"value": 0}}
        }}},
        "B": {"port": "2", "methods": {"m": {
            "calls": [["A.m"]],
            "latency_distribution": {"type": "constant", "parameters": {"value": 0}}
        }}}
    }}"#;
    let config = parse(doc);
    let err = validate_config(&config).unwrap_err();
    assert_eq!(err.kind, InvariantKind::CyclicDependency);
    // the reported path walks a real cycle and closes on itself
    assert!(err.path.len() >= 2);
    assert_eq!(err.path.first(), err.path.last());

    let err2 = validate_service_dependencies(&config).unwrap_err();
    assert_eq!(err2.kind, InvariantKind::CyclicDependency);
}

#[test]
fn self_call_is_a_cycle() {
    let doc = r#"{"services": {"A": {"port": "1", "methods": {
        "m": {"calls": [["A.n"]],
              "latency_distribution": {"type": "constant", "parameters": {"value": 0}}},
        "n": {"latency_distribution": {"type": "constant", "parameters": {"value": 0}}}
    }}}}"#;
    let err = validate_config(&parse(doc)).unwrap_err();
    assert_eq!(err.kind, InvariantKind::CyclicDependency);
}

#[test]
fn acyclic_chain_accepted() {
    let doc = r#"{"services": {
        "A": {"port": "1", "methods": {"m": {
            "calls": [["B.m"], ["C.m"]],
            "latency_distribution": {"type": "constant", "parameters": {"value": 0}}
        }}},
        "B": {"port": "2", "methods": {"m": {
            "calls": [["C.m"]],
            "latency_distribution": {"type": "constant", "parameters": {"value": 0}}
        }}},
        "C": {"port": "3", "methods": {"m": {
            "latency_distribution": {"type": "constant", "parameters": {"value": 0}}
        }}}
    }}"#;
    assert!(validate_config(&parse(doc)).is_ok());
}
