use pi_core::flake_classifier::{
    classify_failure, classify_lowercase, FlakeCategory, FlakeClassification, FlakeEvent,
    RetryPolicy,
};

#[test]
fn classify_oracle_timeout() {
    let output = "error: TS oracle process timed out after 30s";
    let result = classify_failure(output);
    assert!(matches!(
        result,
        FlakeClassification::Transient {
            category: FlakeCategory::OracleTimeout,
            ..
        }
    ));
}

#[test]
fn classify_bun_timeout() {
    let output = "bun process timed out waiting for response";
    let result = classify_failure(output);
    assert!(matches!(
        result,
        FlakeClassification::Transient {
            category: FlakeCategory::OracleTimeout,
            ..
        }
    ));
}

#[test]
fn classify_oom() {
    let output = "fatal: out of memory (allocator returned null)";
    let result = classify_failure(output);
    assert!(matches!(
        result,
        FlakeClassification::Transient {
            category: FlakeCategory::ResourceExhaustion,
            ..
        }
    ));
}

#[test]
fn classify_enomem() {
    let output = "error: ENOMEM: not enough memory";
    let result = classify_failure(output);
    assert!(matches!(
        result,
        FlakeClassification::Transient {
            category: FlakeCategory::ResourceExhaustion,
            ..
        }
    ));
}

#[test]
fn classify_quickjs_gc() {
    let output = "quickjs runtime: allocation failed, out of memory";
    let result = classify_failure(output);
    assert!(matches!(
        result,
        FlakeClassification::Transient {
            category: FlakeCategory::JsGcPressure,
            ..
        }
    ));
}

#[test]
fn classify_ebusy() {
    let output = "error: EBUSY: resource busy or locked";
    let result = classify_failure(output);
    assert!(matches!(
        result,
        FlakeClassification::Transient {
            category: FlakeCategory::FsContention,
            ..
        }
    ));
}

#[test]
fn classify_port_conflict() {
    let output = "listen EADDRINUSE: address already in use :::8080";
    let result = classify_failure(output);
    assert!(matches!(
        result,
        FlakeClassification::Transient {
            category: FlakeCategory::PortConflict,
            ..
        }
    ));
}

#[test]
fn classify_tmpdir_race() {
    let output = "error: No such file or directory (os error 2), path: /tmp/pi-test-abc123";
    let result = classify_failure(output);
    assert!(matches!(
        result,
        FlakeClassification::Transient {
            category: FlakeCategory::TmpdirRace,
            ..
        }
    ));
}

#[test]
fn classify_deterministic() {
    let output = "assertion failed: expected PASS but got FAIL\nnote: left == right";
    let result = classify_failure(output);
    assert_eq!(result, FlakeClassification::Deterministic);
}

#[test]
fn classify_empty_output() {
    assert_eq!(classify_failure(""), FlakeClassification::Deterministic);
}

#[test]
fn classification_is_retriable() {
    let transient = FlakeClassification::Transient {
        category: FlakeCategory::OracleTimeout,
        matched_line: "timeout".into(),
    };
    assert!(transient.is_retriable());
    assert!(!FlakeClassification::Deterministic.is_retriable());
}

#[test]
fn retry_policy_default() {
    let policy = RetryPolicy {
        max_retries: 1,
        retry_delay_secs: 5,
        flake_budget: 3,
    };
    let transient = FlakeClassification::Transient {
        category: FlakeCategory::OracleTimeout,
        matched_line: "x".into(),
    };
    assert!(policy.should_retry(&transient, 0));
    assert!(!policy.should_retry(&transient, 1));
    assert!(!policy.should_retry(&FlakeClassification::Deterministic, 0));
}

#[test]
fn flake_category_all_covered() {
    assert_eq!(FlakeCategory::all().len(), 6);
    for cat in FlakeCategory::all() {
        assert!(!cat.label().is_empty());
        assert!(!cat.to_string().is_empty());
    }
}

#[test]
fn multiline_output_matches_first_pattern() {
    let output = "starting test...\ncompiling extensions...\nerror: bun process timed out\nassert failed";
    let result = classify_failure(output);
    assert!(matches!(
        result,
        FlakeClassification::Transient {
            category: FlakeCategory::OracleTimeout,
            ..
        }
    ));
}

#[test]
fn case_insensitive_matching() {
    let output = "ERROR: OUT OF MEMORY";
    let result = classify_failure(output);
    assert!(result.is_retriable());
}

#[test]
fn matched_line_is_trimmed_and_lowercase() {
    let result = classify_failure("fine\n   Listen EADDRINUSE now  \nENOMEM");
    assert_eq!(
        result,
        FlakeClassification::Transient {
            category: FlakeCategory::PortConflict,
            matched_line: "listen eaddrinuse now".to_string(),
        }
    );
}

#[test]
fn non_ascii_output_is_lowercased_first() {
    let result = classify_failure("ÄRGER: OUT OF MEMORY");
    assert_eq!(
        result,
        FlakeClassification::Transient {
            category: FlakeCategory::ResourceExhaustion,
            matched_line: "ärger: out of memory".to_string(),
        }
    );
}

#[test]
fn lowercase_output_is_classified_as_it_is() {
    assert_eq!(classify_lowercase("OUT OF MEMORY"), FlakeClassification::Deterministic);
    assert!(classify_lowercase("out of memory").is_retriable());
}

#[test]
fn retry_policy_from_settings() {
    let policy = RetryPolicy::from_settings(None, None, None);
    assert_eq!(policy.max_retries, 1);
    assert_eq!(policy.retry_delay_secs, 5);
    assert_eq!(policy.flake_budget, 3);
    let policy = RetryPolicy::from_settings(Some("4"), Some("x"), Some("4294967296"));
    assert_eq!(policy.max_retries, 4);
    assert_eq!(policy.retry_delay_secs, 5);
    assert_eq!(policy.flake_budget, 3);
}

#[test]
fn flake_event_keeps_its_parts() {
    let event = FlakeEvent {
        target: "ext_conformance".into(),
        classification: classify_failure("oracle timed out"),
        attempt: 1,
        timestamp: "2026-02-08T03:00:00Z".into(),
    };
    assert_eq!(event.target, "ext_conformance");
    assert_eq!(event.attempt, 1);
}

#[test]
fn retries_stop_for_good() {
    let policy = RetryPolicy { max_retries: 2, retry_delay_secs: 0, flake_budget: 0 };
    let transient = classify_failure("oracle timeout");
    let retried: Vec<bool> = (0..5).map(|n| policy.should_retry(&transient, n)).collect();
    assert_eq!(retried, vec![true, true, false, false, false]);
}

#[test]
fn first_matching_line_decides() {
    let both = "EADDRINUSE\nENOMEM";
    let turned = "ENOMEM\nEADDRINUSE";
    assert!(matches!(
        classify_failure(both),
        FlakeClassification::Transient { category: FlakeCategory::PortConflict, .. }
    ));
    assert!(matches!(
        classify_failure(turned),
        FlakeClassification::Transient { category: FlakeCategory::ResourceExhaustion, .. }
    ));
}

#[test]
fn later_output_counts_only_where_the_earlier_shows_no_flake() {
    let parts = ["", "all fine\r", "EBUSY\r", "ENOMEM\n", "Bun timeout", "x\n\n"];
    for a in parts {
        for b in parts {
            let expected = match classify_failure(a) {
                FlakeClassification::Deterministic => classify_failure(b),
                found => found,
            };
            assert_eq!(classify_failure(&format!("{a}\n{b}")), expected, "{a:?} {b:?}");
        }
    }
}
