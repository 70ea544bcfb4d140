use flack_serve::dispatch::{
    error_body_json, file_serving_failed, finish_json, plan_body_serve, render_error,
    render_stage, BodyServePlan, FileOutcome, RenderStage,
};
use flack_serve::response::FlackResponse;

#[test]
fn hello_body_serves_as_text_without_forced_content_type() {
    let plan = plan_body_serve("/store", "hello");
    assert!(matches!(plan, BodyServePlan::ServeLiteral));
    let mut resp = FlackResponse::new();
    resp.ok_string(200, "hello".to_string());
    assert!(resp.headers.is_empty());
    match render_stage(&resp) {
        RenderStage::Inline { status, body } => {
            assert_eq!(status, 200);
            assert_eq!(body, "hello");
        },
        _ => panic!("expected an inline body"),
    }
}

#[test]
fn store_candidate_serves_as_artifact() {
    match plan_body_serve("/store", "/store/abc-name/sub/file") {
        BodyServePlan::ServeArtifact { base_path, full_path } => {
            assert_eq!(base_path, "/store/abc-name");
            assert_eq!(full_path, "/store/abc-name/sub/file");
        },
        _ => panic!("expected an artifact plan"),
    }
}

#[test]
fn escaping_candidate_falls_back_to_text() {
    let plan = plan_body_serve("/store", "/store/abc-name/../../etc/passwd");
    assert!(matches!(plan, BodyServePlan::ServeLiteral));
}

#[test]
fn relative_store_root_plans_fail_closed() {
    let plan = plan_body_serve("store", "store/x");
    assert!(matches!(plan, BodyServePlan::Invalid));
}

#[test]
fn json_body_forces_content_type_when_none_supplied() {
    let mut resp = FlackResponse::new();
    finish_json(&mut resp, 200, false, "{\"a\":1}".to_string());
    assert_eq!(resp.code, 200);
    assert_eq!(resp.body.as_deref(), Some("{\"a\":1}"));
    assert_eq!(
        resp.headers,
        vec![("content-type".to_string(), "application/json".to_string())]
    );
}

#[test]
fn json_body_keeps_supplied_content_type() {
    let mut resp = FlackResponse::new();
    resp.add_header("Content-Type".to_string(), "text/html".to_string());
    finish_json(&mut resp, 200, true, "{}".to_string());
    assert_eq!(
        resp.headers,
        vec![("content-type".to_string(), "text/html".to_string())]
    );
}

#[test]
fn missing_file_overrides_status_to_404() {
    let mut resp = FlackResponse::new();
    resp.ok_path(200, "/store/abc/file".to_string());
    match render_stage(&resp) {
        RenderStage::TryFile { path } => assert_eq!(path, "/store/abc/file"),
        _ => panic!("expected a file to try"),
    }
    file_serving_failed(&mut resp, FileOutcome::OpenFailed);
    assert_eq!(resp.code, 404);
    let (status, body) = render_error(&resp);
    assert_eq!(status, 404);
    assert_eq!(body, "{\"error\":\"Not found\"}");
    assert_eq!(resp.error.as_ref().unwrap().long, "cannot open file");
}

#[test]
fn irregular_file_overrides_status_to_404() {
    let mut resp = FlackResponse::new();
    resp.ok_path(503, "/store/abc".to_string());
    file_serving_failed(&mut resp, FileOutcome::NotRegular);
    assert_eq!(resp.code, 404);
    assert_eq!(resp.error.as_ref().unwrap().long, "store path was not a file");
}

#[test]
fn payloadless_response_renders_as_internal_500() {
    let resp = FlackResponse::new();
    assert!(matches!(render_stage(&resp), RenderStage::ErrorOnly));
    let (status, body) = render_error(&resp);
    assert_eq!(status, 500);
    assert_eq!(body, "{\"error\":\"Internal server error\"}");
}

#[test]
fn server_error_renders_with_short_message_only() {
    let mut resp = FlackResponse::new();
    resp.server_error("the full diagnostic stays in the log".to_string());
    assert_eq!(resp.code, 500);
    let (status, body) = render_error(&resp);
    assert_eq!(status, 500);
    assert_eq!(body, "{\"error\":\"Internal server error\"}");
}

#[test]
fn error_body_escapes_json_string_characters() {
    let body = error_body_json("a\"b\\c\nd\u{1}");
    assert_eq!(body, "{\"error\":\"a\\\"b\\\\c\\nd\\u0001\"}");
}

#[test]
fn error_body_escapes_control_shortcuts() {
    let body = error_body_json("\u{8}\t\u{c}\r\u{1f}");
    assert_eq!(body, "{\"error\":\"\\b\\t\\f\\r\\u001f\"}");
}

#[test]
fn invalid_header_pairs_are_dropped_silently() {
    let mut resp = FlackResponse::new();
    resp.add_header("Bad Name".to_string(), "v".to_string());
    resp.add_header("X-Thing".to_string(), "ok".to_string());
    resp.add_header("X-Bad-Value".to_string(), "a\u{7f}b".to_string());
    assert_eq!(resp.headers, vec![("x-thing".to_string(), "ok".to_string())]);
}
