use pi_core::error::Error;
use pi_core::http_client::{
    build_recorded_request, build_user_agent, default_request_timeout, header_value,
    recorded_with, request_error, BodyText, Client, Method, Response, VcrMode, VcrRecorder,
    DEFAULT_REQUEST_TIMEOUT_SECS, DEFAULT_USER_AGENT, MAX_TEXT_BODY_BYTES,
};
use pi_core::json::JsonValue;
use pi_core::time::Duration;

fn pair(a: &str, b: &str) -> (String, String) {
    (a.to_string(), b.to_string())
}

fn response(chunks: Vec<Result<Vec<u8>, String>>) -> Response {
    Response { status: 200, headers: Vec::new(), chunks }
}

#[test]
fn method_as_str_get() {
    assert_eq!(Method::Get.as_str(), "GET");
}

#[test]
fn method_as_str_post() {
    assert_eq!(Method::Post.as_str(), "POST");
}

#[test]
fn build_recorded_request_empty_body() {
    let req = build_recorded_request(Method::Post, "https://api.test.com/v1", &[], &[]);
    assert_eq!(req.method, "POST");
    assert_eq!(req.url, "https://api.test.com/v1");
    assert!(req.body.is_none());
    assert!(req.body_text.is_none());
}

#[test]
fn build_recorded_request_json_body() {
    let headers = vec![pair("Content-Type", "application/json")];
    let body = b"{\"model\":\"test\"}";
    let req = build_recorded_request(Method::Post, "https://api.test.com/v1", &headers, body);
    assert!(req.body.is_some());
    let value: serde_json::Value = serde_json::from_str(&req.body.unwrap().text).unwrap();
    assert_eq!(value["model"], "test");
    assert!(req.body_text.is_none());
}

#[test]
fn recorded_json_is_compact() {
    let headers = vec![pair("Content-Type", "application/json; charset=utf-8")];
    let req = build_recorded_request(Method::Post, "u", &headers, b" { \"a\" : [ 1, 2 ] } ");
    assert_eq!(req.body, Some(JsonValue::from_text("{\"a\":[1,2]}")));
}

#[test]
fn build_recorded_request_text_body() {
    let headers = vec![pair("Content-Type", "text/plain")];
    let body = b"hello world";
    let req = build_recorded_request(Method::Post, "https://api.test.com/v1", &headers, body);
    assert!(req.body.is_none());
    assert_eq!(req.body_text.as_deref(), Some("hello world"));
}

#[test]
fn build_recorded_request_invalid_json_body_falls_back_to_text() {
    let headers = vec![pair("Content-Type", "application/json")];
    let body = b"not json {{{";
    let req = build_recorded_request(Method::Post, "https://api.test.com/v1", &headers, body);
    assert!(req.body.is_none());
    assert_eq!(req.body_text.as_deref(), Some("not json {{{"));
}

#[test]
fn build_recorded_request_preserves_headers() {
    let headers = vec![pair("Authorization", "Bearer key"), pair("X-Trace", "abc123")];
    let req = build_recorded_request(Method::Get, "https://test.com", &headers, &[]);
    assert_eq!(req.headers.len(), 2);
    assert_eq!(req.headers[0].0, "Authorization");
}

#[test]
fn build_recorded_request_content_type_case_insensitive() {
    let headers = vec![pair("content-type", "APPLICATION/JSON")];
    let body = b"{\"test\":true}";
    let req = build_recorded_request(Method::Post, "https://test.com", &headers, body);
    // Should detect JSON despite case differences
    assert!(req.body.is_some());
}

#[test]
fn recording_goes_by_the_value_it_is_given() {
    let headers = vec![pair("Content-Type", "application/json")];
    let value = Some(JsonValue::from_text("7"));
    let req = recorded_with(Method::Get, "u", &headers, b"x", value.clone());
    assert_eq!(req.body, value);
    assert!(req.body_text.is_none());
    let req = recorded_with(Method::Get, "u", &headers, b"x", None);
    assert_eq!(req.body_text.as_deref(), Some("x"));
    let req = recorded_with(Method::Get, "u", &[], b"x", value.clone());
    assert_eq!(req.body_text.as_deref(), Some("x"));
    let req = recorded_with(Method::Get, "u", &headers, b"", value);
    assert!(req.body.is_none() && req.body_text.is_none());
}

#[test]
fn recorded_bytes_that_are_no_text_are_repaired() {
    let req = build_recorded_request(Method::Post, "u", &[], b"a\xff\xc3\xa4");
    assert_eq!(req.body_text.as_deref(), Some("a\u{fffd}\u{e4}"));
}

#[test]
fn client_default() {
    let client = Client::new(None, None);
    assert!(client.vcr().is_none());
    assert_eq!(client.user_agent(), DEFAULT_USER_AGENT);
}

#[test]
fn client_with_vcr() {
    let recorder = VcrRecorder::new_with("test", VcrMode::Playback, "/tmp");
    let client = Client::new(None, None).with_vcr(recorder);
    assert!(client.vcr().is_some());
    assert_eq!(client.vcr().unwrap().name, "test");
    assert_eq!(client.user_agent(), DEFAULT_USER_AGENT);
}

#[test]
fn request_builder_header_chaining() {
    let client = Client::new(None, None);
    let builder = client
        .post("https://api.example.com")
        .header("Authorization", "Bearer test")
        .header("X-Custom", "value");
    assert_eq!(builder.headers.len(), 2);
    assert_eq!(builder.headers[1], pair("X-Custom", "value"));
}

#[test]
fn request_builder_json() {
    let client = Client::new(None, None);
    let builder = client
        .post("https://api.example.com")
        .json(Ok(JsonValue::from_text("{\"key\":\"value\"}")))
        .unwrap();
    assert!(!builder.body.is_empty());
    assert_eq!(builder.body, b"{\"key\":\"value\"}");
    // Should have auto-added Content-Type header
    assert!(builder
        .headers
        .iter()
        .any(|(k, v)| k == "Content-Type" && v == "application/json"));
}

#[test]
fn payload_that_cannot_be_encoded_is_an_error() {
    let client = Client::new(None, None);
    let result = client.post("u").json(Err(Error::Json("no".to_string())));
    assert_eq!(result.err(), Some(Error::Json("no".to_string())));
}

#[test]
fn request_builder_body() {
    let client = Client::new(None, None);
    let builder = client
        .post("https://api.example.com")
        .body(b"raw bytes".to_vec());
    assert_eq!(builder.body, b"raw bytes");
}

#[test]
fn request_builder_default_timeout() {
    let client = Client::new(None, None);
    let builder = client.get("https://api.example.com");
    assert_eq!(
        builder.timeout,
        Some(Duration::from_secs(DEFAULT_REQUEST_TIMEOUT_SECS))
    );
}

#[test]
fn request_builder_timeout() {
    let client = Client::new(None, None);
    let builder = client
        .get("https://api.example.com")
        .timeout(Duration::from_secs(30));
    assert_eq!(builder.timeout, Some(Duration::from_secs(30)));
}

#[test]
fn request_builder_no_timeout() {
    let client = Client::new(None, None);
    let builder = client.get("https://api.example.com").no_timeout();
    assert_eq!(builder.timeout, None);
}

#[test]
fn timeout_setting_is_read() {
    assert_eq!(default_request_timeout(None), Some(Duration::from_secs(60)));
    assert_eq!(default_request_timeout(Some(" 5\n")), Some(Duration::from_secs(5)));
    assert_eq!(default_request_timeout(Some("0")), None);
    assert_eq!(default_request_timeout(Some("-1")), Some(Duration::from_secs(60)));
    assert_eq!(default_request_timeout(Some("soon")), Some(Duration::from_secs(60)));
    let client = Client::new(Some("1.2"), Some("7"));
    assert_eq!(client.get("u").timeout, Some(Duration::from_secs(7)));
    assert_eq!(client.user_agent(), build_user_agent(Some("1.2")));
    assert_ne!(client.user_agent(), DEFAULT_USER_AGENT);
}

#[test]
fn send_hands_over_what_was_built() {
    let client = Client::new(None, None);
    let out = client.get("https://a.test").header("X", "y").send();
    assert_eq!(out.method, Method::Get);
    assert_eq!(out.url, "https://a.test");
    assert_eq!(out.headers, vec![pair("X", "y")]);
    assert_eq!(out.body, None);
    assert!(out.recorded.is_none());
    let recorder = VcrRecorder::new_with("t", VcrMode::Record, "/tmp");
    let client = Client::new(None, None).with_vcr(recorder);
    let out = client.post("https://a.test").body(b"hi".to_vec()).no_timeout().send();
    assert_eq!(out.body, Some(b"hi".to_vec()));
    assert_eq!(out.timeout, None);
    let recorded = out.recorded.unwrap();
    assert_eq!(recorded.method, "POST");
    assert_eq!(recorded.body_text.as_deref(), Some("hi"));
}

#[test]
fn failed_requests_are_told_apart() {
    assert_eq!(request_error(true, "x"), Error::Api("Request timed out".to_string()));
    assert_eq!(
        request_error(false, "refused"),
        Error::Api("HTTP request failed: refused".to_string())
    );
    assert_eq!(header_value(Some("v")), "v");
    assert_eq!(header_value(None), "");
}

#[test]
fn response_accessors() {
    let response = Response {
        status: 200,
        headers: vec![pair("Content-Type", "text/plain")],
        chunks: Vec::new(),
    };
    assert_eq!(response.status(), 200);
    assert_eq!(response.headers().len(), 1);
    assert_eq!(response.headers()[0].0, "Content-Type");
}

#[test]
fn response_text() {
    let chunks = vec![Ok(b"hello ".to_vec()), Ok(b"world".to_vec())];
    assert_eq!(response(chunks).text().unwrap(), "hello world");
}

#[test]
fn response_text_empty() {
    assert_eq!(response(Vec::new()).text().unwrap(), "");
}

#[test]
fn response_bytes_stream() {
    let stream = response(vec![Ok(b"data".to_vec())]).bytes_stream();
    assert_eq!(stream, vec![Ok(b"data".to_vec())]);
}

#[test]
fn body_stream_content_length_via_response() {
    let r = Response {
        status: 200,
        headers: vec![pair("Content-Length", "13")],
        chunks: vec![Ok(b"Hello, World!".to_vec())],
    };
    assert_eq!(r.text().unwrap(), "Hello, World!");
}

#[test]
fn body_stream_multiple_chunks_via_response() {
    let chunks = vec![
        Ok(b"chunk1".to_vec()),
        Ok(b"chunk2".to_vec()),
        Ok(b"chunk3".to_vec()),
    ];
    assert_eq!(response(chunks).text().unwrap(), "chunk1chunk2chunk3");
}

#[test]
fn body_stream_error_propagation() {
    let chunks = vec![Ok(b"data".to_vec()), Err("connection reset".to_string())];
    let result = response(chunks).text();
    assert!(result.is_err());
    assert_eq!(result, Err(Error::Io("connection reset".to_string())));
}

#[test]
fn characters_may_be_split_between_chunks() {
    let chunks = vec![Ok(b"\xc3".to_vec()), Ok(b"\xa4!".to_vec())];
    assert_eq!(response(chunks).text().unwrap(), "\u{e4}!");
    assert_eq!(response(vec![Ok(b"\xc3".to_vec())]).text().unwrap(), "\u{fffd}");
}

#[test]
fn response_text_rejects_oversized_body() {
    // Create a body that would exceed MAX_TEXT_BODY_BYTES
    let big_chunk = vec![0u8; MAX_TEXT_BODY_BYTES + 1];
    let result = response(vec![Ok(big_chunk)]).text();
    assert_eq!(result, Err(Error::Io("response body too large".to_string())));
}

#[test]
fn response_text_accepts_body_at_limit() {
    let chunk = vec![b'a'; MAX_TEXT_BODY_BYTES];
    let result = response(vec![Ok(chunk)]).text();
    assert!(result.is_ok());
    assert_eq!(result.unwrap().len(), MAX_TEXT_BODY_BYTES);
}

#[test]
fn body_keeps_what_it_had_after_a_failure() {
    let mut body = BodyText::new();
    assert_eq!(body.push(Ok(b"ab".to_vec())), Ok(()));
    assert!(body.push(Err("reset".to_string())).is_err());
    assert!(body.push(Ok(vec![0u8; MAX_TEXT_BODY_BYTES - 1])).is_err());
    assert_eq!(body.into_text(), "ab");
}

#[test]
fn antigravity_user_agent_format() {
    // Verify the name that is used when PI_AI_ANTIGRAVITY_VERSION is set.
    let version = "1.2.3";
    let ua = build_user_agent(Some(version));
    assert_eq!(ua, format!("{DEFAULT_USER_AGENT} Antigravity/{version}"));
    assert!(ua.starts_with("pi_agent_rust/"));
    assert!(ua.contains("Antigravity/1.2.3"));

    // Verify default user agent contains crate version.
    assert!(DEFAULT_USER_AGENT.starts_with("pi_agent_rust/"));
    assert_eq!(build_user_agent(None), DEFAULT_USER_AGENT);
}
