use pi_core::connectors::{
    host_result_err, host_result_err_with_details, host_result_ok, HostCallErrorCode,
    HostCallPayload, HostStreamChunk,
};
use pi_core::json::JsonValue;

#[test]
fn host_result_err_output_is_object() {
    let result = host_result_err("c1", HostCallErrorCode::Io, "fail", None);
    assert!(result.is_error);
    assert!(
        result.output.is_object(),
        "error output must be object, got {:?}",
        result.output
    );
}

#[test]
fn host_result_err_with_details_output_is_object() {
    let result = host_result_err_with_details(
        "c2",
        HostCallErrorCode::Denied,
        "nope",
        JsonValue::from_text("{\"key\":\"val\"}"),
        Some(true),
    );
    assert!(result.is_error);
    assert!(
        result.output.is_object(),
        "error output must be object, got {:?}",
        result.output
    );
    let error = result.error.unwrap();
    assert_eq!(error.code, HostCallErrorCode::Denied);
    assert_eq!(error.message, "nope");
    assert_eq!(error.details, Some(JsonValue::from_text("{\"key\":\"val\"}")));
    assert_eq!(error.retryable, Some(true));
}

#[test]
fn host_result_ok_output_is_preserved() {
    let payload = JsonValue::from_text("{\"data\":42}");
    let result = host_result_ok("c3", payload.clone());
    assert!(!result.is_error);
    assert_eq!(result.output, payload);
    assert_eq!(result.call_id, "c3");
    assert!(result.error.is_none());
    assert!(result.chunk.is_none());
}

#[test]
fn all_error_codes_produce_object_output() {
    let codes = [
        HostCallErrorCode::Timeout,
        HostCallErrorCode::Denied,
        HostCallErrorCode::Io,
        HostCallErrorCode::InvalidRequest,
        HostCallErrorCode::Internal,
    ];
    for code in codes {
        let result = host_result_err("c4", code, "msg", None);
        assert!(
            result.output.is_object(),
            "code={code:?} must produce object output"
        );
        let result_d =
            host_result_err_with_details("c5", code, "msg", JsonValue::from_text("{}"), None);
        assert!(
            result_d.output.is_object(),
            "code={code:?} with details must produce object output"
        );
    }
}

#[test]
fn only_objects_are_objects() {
    assert!(JsonValue::empty_object().is_object());
    assert!(!JsonValue::from_text("[]").is_object());
    assert!(!JsonValue::from_text("\"{}\"").is_object());
    assert!(!JsonValue::from_text("").is_object());
}

#[test]
fn payloads_and_chunks_keep_their_parts() {
    let call = HostCallPayload {
        call_id: "1".to_string(),
        capability: "http".to_string(),
        method: "get".to_string(),
        params: JsonValue::from_text("{\"url\":\"x\"}"),
        timeout_ms: Some(10),
        cancel_token: None,
        context: None,
    };
    assert_eq!(call.params.text, "{\"url\":\"x\"}");
    let chunk = HostStreamChunk { index: 3, is_last: true };
    assert!(chunk.is_last);
    assert_eq!(chunk.index, 3);
}
