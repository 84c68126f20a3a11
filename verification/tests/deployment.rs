use simtopo::cli::parse_cli_args;
use simtopo::compose::{
    generate_docker_compose, generate_service_configs, generate_simulator_yaml,
    materialise_deployment, process_submission, submission_status_code, SubmissionError,
};
use simtopo::json::parse_json_str;
use simtopo::loadgen::{build_worker_plans, expected_requests, period_micros};
use simtopo::ports::assign_ports;
use simtopo::strmap::StrMap;
use simtopo::text::{str_eq, str_lt, u64_to_string};

fn three_service_doc() -> &'static str {
    r#"{"services": {
        "gamma": {"port": "9002", "methods": {"m": {
            "latency_distribution": {"type": "constant", "parameters": {"value": 0}}
        }}},
        "alpha": {"port": "9000", "methods": {"m": {
            "calls": [["beta.m"]],
            "latency_distribution": {"type": "constant", "parameters": {"value": 0}}
        }}},
        "beta": {"port": "9001", "methods": {"m": {
            "latency_distribution": {"type": "constant", "parameters": {"value": 0}}
        }}}
    }, "load": {"entry_points": [
        {"service": "alpha", "method": "m", "requests_per_second": 10},
        {"service": "ghost", "method": "m", "requests_per_second": 3}
    ]}}"#
}

/// Assigned ports are pairwise distinct, and deterministic: sorted
/// service names take consecutive ports from the base of the pool.
#[test]
fn ports_distinct_and_deterministic() {
    let config = parse_json_str(three_service_doc()).unwrap();
    let ports = assign_ports(&config.services).unwrap();
    assert_eq!(ports.len(), 3);
    assert_eq!(*ports.get("alpha").unwrap(), 50051);
    assert_eq!(*ports.get("beta").unwrap(), 50052);
    assert_eq!(*ports.get("gamma").unwrap(), 50053);
    let mut seen = vec![*ports.get("alpha").unwrap(), *ports.get("beta").unwrap(),
        *ports.get("gamma").unwrap()];
    seen.sort();
    seen.dedup();
    assert_eq!(seen.len(), 3);

    // a rerun on the same topology assigns the same ports
    let again = assign_ports(&config.services).unwrap();
    assert_eq!(*again.get("beta").unwrap(), 50052);
}

#[test]
fn compose_document_shape() {
    let config = parse_json_str(
        r#"{"services": {"solo": {"port": "7000", "methods": {"m": {
            "latency_distribution": {"type": "constant", "parameters": {"value": 0}}
        }}}}}"#,
    )
    .unwrap();
    let ports = assign_ports(&config.services).unwrap();
    let text = generate_docker_compose(&config, &ports).unwrap();
    let expected = "version: \"3\"\nservices:\n  solo:\n    build:\n      context: ../generic-service\n      dockerfile: Dockerfile\n      args:\n        SERVICE_CONTAINER_PORT: \"7000\"\n    container_name: solo\n    ports:\n    - \"50051:7000\"\n    environment:\n      SERVICE_NAME: solo\n      SERVICE_PORT: \"7000\"\n      CONFIG_PATH: /app/config.json\n    volumes:\n    - ./service_configs/config.json:/app/config.json\n    networks:\n    - microservice_net\nnetworks:\n  microservice_net:\n    driver: bridge\n";
    assert_eq!(text, expected);
}

#[test]
fn ports_exhausted_on_an_oversized_fleet() {
    // the pool holds 9949 ports; one more service than that must fail
    let mut services: StrMap<simtopo::model::ServiceConfig> = StrMap::new();
    for i in 0..9950u32 {
        services.push(
            format!("svc{:05}", i),
            simtopo::model::ServiceConfig {
                ip: String::new(),
                port: "1".to_string(),
                methods: StrMap::new(),
            },
        );
    }
    assert!(assign_ports(&services).is_err());
}

#[test]
fn compose_fails_without_a_port() {
    let config = parse_json_str(three_service_doc()).unwrap();
    let empty: StrMap<u16> = StrMap::new();
    assert!(generate_docker_compose(&config, &empty).is_err());
}

#[test]
fn fleet_artifact_uses_service_name_as_address() {
    let config = parse_json_str(
        r#"{"services": {"solo": {"ip": "192.168.0.9", "port": "7000", "methods": {"m": {
            "latency_distribution": {"type": "constant", "parameters": {"value": 2}}
        }}}}}"#,
    )
    .unwrap();
    let text = generate_service_configs(&config);
    let expected = "{\"solo\":{\"ip\":\"solo\",\"port\":\"7000\",\"methods\":{\"m\":{\"calls\":[],\"latency_distribution\":{\"type\":\"constant\",\"parameters\":{\"value\":2}}}}}}";
    assert_eq!(text, expected);
}

#[test]
fn simulator_yaml_bridge_document() {
    let config = parse_json_str(
        r#"{"services": {"solo": {"port": "7000", "methods": {"m": {
            "calls": [["solo.n"]],
            "latency_distribution": {"type": "normal", "parameters": {"mean": 1.5, "stddev": 2}}
        }, "n": {
            "latency_distribution": {"type": "constant", "parameters": {"value": 0}}
        }}}}, "load": {"entry_points": [
            {"service": "solo", "method": "m", "requests_per_second": 4}]}}"#,
    )
    .unwrap();
    let text = generate_simulator_yaml(&config);
    let expected = "services:\n  solo:\n    container_port: \"7000\"\n    methods:\n      m:\n        calls: [[\"solo.n\"]]\n        latency_distribution: {type: \"normal\", parameters: {mean: 1.5, stddev: 2}}\n      n:\n        calls: []\n        latency_distribution: {type: \"constant\", parameters: {value: 0}}\nload:\n  entry_points:\n  - {service: \"solo\", method: \"m\", requests_per_second: 4}\n";
    assert_eq!(text, expected);
}

#[test]
fn materialise_produces_all_artifacts() {
    let config = parse_json_str(three_service_doc()).unwrap();
    let artifacts = materialise_deployment(&config).unwrap();
    assert_eq!(artifacts.ports.len(), 3);
    assert!(artifacts.compose_yaml.contains("container_name: alpha"));
    assert!(artifacts.fleet_config.contains("\"beta\""));
}

#[test]
fn submission_pipeline_and_status_codes() {
    let valid = r#"{"services": {"solo": {"port": "7000", "methods": {"m": {
        "latency_distribution": {"type": "constant", "parameters": {"value": 0}}
    }}}}}"#;
    let ok = process_submission(valid);
    assert!(ok.is_ok());
    assert_eq!(submission_status_code(&ok), 200);

    let parse_err = process_submission("not json at all");
    match &parse_err {
        Err(SubmissionError::Parse(_)) => (),
        _ => panic!("malformed text must be a parse error"),
    }
    assert_eq!(submission_status_code(&parse_err), 400);

    let invalid = process_submission(r#"{"services": {}}"#);
    match &invalid {
        Err(SubmissionError::Invalid(_)) => (),
        _ => panic!("an empty topology must be an invariant violation"),
    }
    assert_eq!(submission_status_code(&invalid), 400);
}

/// Load steady state: ten requests per second over ten seconds means one
/// hundred dispatches on a period of one hundred thousand microseconds.
#[test]
fn load_schedule_arithmetic() {
    assert_eq!(period_micros(10), 100_000);
    assert_eq!(period_micros(3), 333_333);
    assert_eq!(expected_requests(10, 10), 100);
}

#[test]
fn worker_plans_follow_entry_points() {
    let config = parse_json_str(three_service_doc()).unwrap();
    let ports = assign_ports(&config.services).unwrap();
    let load = config.load.as_ref().unwrap();
    let plans = build_worker_plans(load, &ports);
    // the entry point for the unknown service "ghost" has no port, so
    // only one worker is planned; workers fail independently
    assert_eq!(plans.len(), 1);
    assert_eq!(plans[0].0, 0);
    assert_eq!(plans[0].1.service, "alpha");
    assert_eq!(plans[0].1.method, "m");
    assert_eq!(plans[0].1.host_port, 50051);
    assert_eq!(plans[0].1.period_micros, 100_000);
}

#[test]
fn cli_takes_positional_input_and_orchestrator_option() {
    let args = vec!["topology.json".to_string()];
    let opts = parse_cli_args(&args).unwrap();
    assert_eq!(opts.input, "topology.json");
    assert_eq!(opts.orchestrator, "localhost:50051");

    let args2 = vec![
        "--orchestrator".to_string(),
        "10.1.2.3:7777".to_string(),
        "fleet.json".to_string(),
    ];
    let opts2 = parse_cli_args(&args2).unwrap();
    assert_eq!(opts2.input, "fleet.json");
    assert_eq!(opts2.orchestrator, "10.1.2.3:7777");

    assert!(parse_cli_args(&vec!["--verbose".to_string()]).is_none());

    // the short flags of the option and the explicit input flag
    let args3 = vec!["-o".to_string(), "host:1".to_string(), "-i".to_string(),
        "doc.json".to_string()];
    let opts3 = parse_cli_args(&args3).unwrap();
    assert_eq!(opts3.input, "doc.json");
    assert_eq!(opts3.orchestrator, "host:1");
}

#[test]
fn text_helpers_compute_exactly() {
    assert_eq!(u64_to_string(0), "0");
    assert_eq!(u64_to_string(50051), "50051");
    assert!(str_eq("abc", "abc"));
    assert!(!str_eq("abc", "abd"));
    assert!(str_lt("alpha", "beta"));
    assert!(str_lt("alp", "alpha"));
    assert!(!str_lt("beta", "beta"));
}
