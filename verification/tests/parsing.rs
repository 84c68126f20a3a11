use simtopo::json::{parse_json_str, serialise_config};
use simtopo::strmap::StrMap;

#[test]
fn test_parse_valid_json() {
    let json = r#"
        {
            "services": {
                "ServiceA": {
                    "ip": "127.0.0.1",
                    "port": "8000",
                    "methods": {
                        "ProcessOrder": {
                            "calls": [["ServiceB.ValidatePayment"]],
                            "latency_distribution": {
                                "type": "Normal",
                                "parameters": {
                                    "mean": 150,
                                    "stdev": 25
                                }
                            },
                            "error_rate": {
                                "type": "percentage",
                                "value": 0.02
                            }
                        }
                    }
                },
                "ServiceB": {
                    "ip": "127.0.0.1",
                    "port": "8001",
                    "methods": {
                        "ValidatePayment": {
                            "calls": [],
                            "latency_distribution": {
                                "type": "Normal",
                                "parameters": {
                                    "mean": 80,
                                    "stdev": 10
                                }
                            },
                            "error_rate": {
                                "type": "percentage",
                                "value": 0.05
                            }
                        }
                    }
                }
            },
            "load": {
                "entry_points": [
                    {
                        "service": "ServiceA",
                        "method": "ProcessOrder",
                        "requests_per_second": 10
                    }
                ]
            }
        }
        "#;

    let result = parse_json_str(json);
    assert!(result.is_ok());

    let config = result.unwrap();
    assert_eq!(config.services.len(), 2);
    assert!(config.services.contains_key("ServiceA"));
    assert!(config.services.contains_key("ServiceB"));

    let service_a = config.services.get("ServiceA").unwrap();
    assert_eq!(service_a.ip, "127.0.0.1");
    assert_eq!(service_a.port, "8000");
    assert_eq!(service_a.methods.len(), 1);

    let method = service_a.methods.get("ProcessOrder").unwrap();
    assert_eq!(method.calls.len(), 1);
    assert_eq!(method.calls[0][0], "ServiceB.ValidatePayment");

    let load = config.load.as_ref().unwrap();
    assert_eq!(load.entry_points.len(), 1);
    assert_eq!(load.entry_points[0].service, "ServiceA");
    assert_eq!(load.entry_points[0].method, "ProcessOrder");
    assert_eq!(load.entry_points[0].requests_per_second, 10);
}

#[test]
fn test_parse_invalid_json() {
    let invalid_json = r#"
        {
            "Services": {
                "ServiceA": {
                    "ip": "127.0.0.1",
                    "port": "8000",
                    "Methods": {
                        // Missing closing brace
                        "ProcessOrder": {
                            "Calls": [["ServiceB.ValidatePayment"]],
                            "LatencyDistribution": {
                                "type": "Normal",
                                "parameters": {
                                    "mean": 150,
                                    "stdev": 25
                                }
                            }
                    }
                }
            }
        }
        "#;

    let result = parse_json_str(invalid_json);
    assert!(result.is_err());
}

fn two_service_doc() -> &'static str {
    r#"{
        "services": {
            "A": {
                "port": "50051",
                "methods": {
                    "m": {
                        "calls": [["B.n"]],
                        "latency_distribution": {
                            "type": "constant",
                            "parameters": {"value": 1.5}
                        },
                        "error_rate": {
                            "type": "bernoulli",
                            "parameters": {"p": 0.25}
                        }
                    }
                }
            },
            "B": {
                "ip": "10.0.0.2",
                "port": "50052",
                "methods": {
                    "n": {
                        "latency_distribution": {
                            "type": "uniform",
                            "parameters": {"min": 0, "max": 3}
                        }
                    }
                }
            }
        },
        "load": {
            "entry_points": [
                {"service": "A", "method": "m", "requests_per_second": 10}
            ]
        }
    }"#
}

#[test]
fn parse_fills_defaults_and_micro_units() {
    let config = parse_json_str(two_service_doc()).unwrap();
    let a = config.services.get("A").unwrap();
    assert_eq!(a.ip, "");
    let m = a.methods.get("m").unwrap();
    let lat = &m.latency_distribution;
    assert_eq!(lat.distribution_type, "constant");
    assert_eq!(*lat.parameters.get("value").unwrap(), 1_500_000);
    let err = m.error_rate.as_ref().unwrap();
    assert_eq!(*err.parameters.get("p").unwrap(), 250_000);
    let b = config.services.get("B").unwrap();
    let n = b.methods.get("n").unwrap();
    assert_eq!(n.calls.len(), 0);
    assert!(n.error_rate.is_none());
    assert_eq!(*n.latency_distribution.parameters.get("max").unwrap(), 3_000_000);
}

#[test]
fn parse_accepts_minimal_document_and_demands_an_object() {
    let c = parse_json_str("{\"services\":{}}").unwrap();
    assert_eq!(c.services.len(), 0);
    assert!(c.load.is_none());

    assert!(parse_json_str("").is_err());
    assert!(parse_json_str("   \n\t ").is_err());
    assert!(parse_json_str("[1,2,3]").is_err());
    assert!(parse_json_str("\"just a string\"").is_err());
}

#[test]
fn parse_rejects_duplicate_keys() {
    let doc = r#"{"services": {
        "A": {"port": "1", "methods": {}},
        "A": {"port": "2", "methods": {}}
    }}"#;
    assert!(parse_json_str(doc).is_err());
}

#[test]
fn parse_rejects_missing_required_field() {
    let doc = r#"{"services": {"A": {"methods": {}}}}"#;
    assert!(parse_json_str(doc).is_err());
    let doc2 = r#"{"services": {"A": {"port": "1", "methods": {
        "m": {"calls": []}
    }}}}"#;
    assert!(parse_json_str(doc2).is_err());
}

#[test]
fn parse_ignores_unknown_fields() {
    let doc = r#"{"comment": {"nested": [1, 2, {"x": "y"}]},
        "services": {"A": {"port": "1", "flavour": true, "methods": {}}}}"#;
    let config = parse_json_str(doc).unwrap();
    assert_eq!(config.services.len(), 1);
    assert!(config.load.is_none());
}

#[test]
fn parse_rejects_negative_rate_overflow_and_exponent() {
    assert!(parse_json_str(r#"{"services": {}, "load": {"entry_points": [
        {"service": "A", "method": "m", "requests_per_second": 5000000000}
    ]}}"#)
        .is_err());
    assert!(parse_json_str(r#"{"services": {"A": {"port": "1", "methods": {
        "m": {"latency_distribution": {"type": "constant", "parameters": {"value": 1e3}}}
    }}}}"#)
        .is_err());
}

#[test]
fn parse_reads_negative_parameters() {
    let doc = r#"{"services": {"A": {"port": "1", "methods": {
        "m": {"latency_distribution": {"type": "normal", "parameters": {"mean": -2.5, "stddev": 1}}}
    }}}}"#;
    let config = parse_json_str(doc).unwrap();
    let m = config.services.get("A").unwrap().methods.get("m").unwrap();
    assert_eq!(*m.latency_distribution.parameters.get("mean").unwrap(), -2_500_000);
}

#[test]
fn serialise_writes_exact_document() {
    let config = parse_json_str(
        r#"{"services": {"A": {"port": "1", "methods": {
            "m": {"calls": [["A.x"]], "latency_distribution":
                {"type": "constant", "parameters": {"value": 1.5}}}
        }}}}"#,
    )
    .unwrap();
    let text = serialise_config(&config);
    assert_eq!(
        text,
        "{\"services\":{\"A\":{\"ip\":\"\",\"port\":\"1\",\"methods\":{\"m\":{\"calls\":[[\"A.x\"]],\"latency_distribution\":{\"type\":\"constant\",\"parameters\":{\"value\":1.5}}}}}}}"
    );
}

#[test]
fn round_trip_preserves_parse() {
    // parse(serialise(parse(D))) == parse(D) on a representative document
    let c1 = parse_json_str(two_service_doc()).unwrap();
    let s1 = serialise_config(&c1);
    let c2 = parse_json_str(&s1).unwrap();
    let s2 = serialise_config(&c2);
    assert_eq!(s1, s2);
    assert_eq!(c1.services.len(), c2.services.len());
    let a1 = c1.services.get("A").unwrap();
    let a2 = c2.services.get("A").unwrap();
    assert_eq!(a1.port, a2.port);
    assert_eq!(
        a1.methods.get("m").unwrap().calls,
        a2.methods.get("m").unwrap().calls
    );
    assert_eq!(
        a1.methods.get("m").unwrap().latency_distribution.parameters.get("value"),
        a2.methods.get("m").unwrap().latency_distribution.parameters.get("value")
    );
    let l1 = c1.load.as_ref().unwrap();
    let l2 = c2.load.as_ref().unwrap();
    assert_eq!(l1.entry_points[0].service, l2.entry_points[0].service);
    assert_eq!(
        l1.entry_points[0].requests_per_second,
        l2.entry_points[0].requests_per_second
    );
}

#[test]
fn number_round_trip_trims_zeros() {
    let doc = r#"{"services": {"A": {"port": "1", "methods": {
        "m": {"latency_distribution": {"type": "constant", "parameters": {"value": 2.500000}}}
    }}}}"#;
    let config = parse_json_str(doc).unwrap();
    let text = serialise_config(&config);
    assert!(text.contains("\"value\":2.5}"));
    let again = parse_json_str(&text).unwrap();
    let m = again.services.get("A").unwrap().methods.get("m").unwrap();
    assert_eq!(*m.latency_distribution.parameters.get("value").unwrap(), 2_500_000);
}

#[test]
fn round_trip_all_distribution_kinds_without_load() {
    let doc = r#"{"services": {"K": {"port": "1", "methods": {
        "a": {"latency_distribution": {"type": "normal",
            "parameters": {"mean": 150, "stddev": 25}}},
        "b": {"latency_distribution": {"type": "uniform",
            "parameters": {"min": 0.5, "max": 2}}},
        "c": {"latency_distribution": {"type": "constant",
            "parameters": {"value": 0}}},
        "d": {"latency_distribution": {"type": "exponential",
            "parameters": {"rate": 0.125}},
          "error_rate": {"type": "bernoulli", "parameters": {"p": 1}}}
    }}}}"#;
    let c1 = parse_json_str(doc).unwrap();
    let s1 = serialise_config(&c1);
    let c2 = parse_json_str(&s1).unwrap();
    assert_eq!(s1, serialise_config(&c2));
    assert!(c2.load.is_none());
    let k1 = c1.services.get("K").unwrap();
    let k2 = c2.services.get("K").unwrap();
    assert_eq!(k1.methods.len(), k2.methods.len());
    for name in ["a", "b", "c", "d"] {
        let m1 = k1.methods.get(name).unwrap();
        let m2 = k2.methods.get(name).unwrap();
        assert_eq!(
            m1.latency_distribution.distribution_type,
            m2.latency_distribution.distribution_type
        );
        assert_eq!(
            m1.latency_distribution.parameters.entries,
            m2.latency_distribution.parameters.entries
        );
    }
    let d2 = k2.methods.get("d").unwrap();
    assert_eq!(
        *d2.error_rate.as_ref().unwrap().parameters.get("p").unwrap(),
        1_000_000
    );
}

#[test]
fn strmap_lookup_takes_first_entry() {
    let mut map: StrMap<i64> = StrMap::new();
    map.push("a".to_string(), 1);
    map.push("b".to_string(), 2);
    assert!(map.contains_key("a"));
    assert!(!map.contains_key("c"));
    assert_eq!(map.len(), 2);
    assert_eq!(*map.get("b").unwrap(), 2);
    assert_eq!(map.index_of("b"), Some(1));
    assert_eq!(map.index_of("c"), None);
}
