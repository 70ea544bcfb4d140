use flack_serve::env::{build_environment, prepare_environment, EnvValue, RequestInfo};

fn request(headers: Vec<(String, String)>, body: Vec<u8>) -> RequestInfo {
    RequestInfo {
        method: "GET".to_string(),
        path: "/index".to_string(),
        query: "a=1".to_string(),
        server_name: "localhost".to_string(),
        protocol: "HTTP/1.1".to_string(),
        scheme: "http".to_string(),
        headers,
        body,
    }
}

fn names(pairs: &[(String, EnvValue)]) -> Vec<String> {
    pairs.iter().map(|p| p.0.clone()).collect()
}

#[test]
fn underscore_header_dropped_hyphen_header_forwarded() {
    let req = request(
        vec![
            ("x-foo_bar".to_string(), "v1".to_string()),
            ("x-foo-bar".to_string(), "v2".to_string()),
        ],
        Vec::new(),
    );
    let pairs = build_environment(&req, "system", "id", 2019).unwrap();
    let matching: Vec<&(String, EnvValue)> =
        pairs.iter().filter(|p| p.0 == "HTTP_X_FOO_BAR").collect();
    assert_eq!(matching.len(), 1);
    match &matching[0].1 {
        EnvValue::StrVal(v) => assert_eq!(v, "v2"),
        _ => panic!("expected a string attribute"),
    }
}

#[test]
fn server_port_is_the_configured_port() {
    let req = request(Vec::new(), Vec::new());
    let pairs = build_environment(&req, "system", "id", 8080).unwrap();
    assert_eq!(pairs[9].0, "SERVER_PORT");
    match pairs[9].1 {
        EnvValue::IntVal(v) => assert_eq!(v, 8080),
        _ => panic!("expected an integer attribute"),
    }
}

#[test]
fn fixed_attributes_in_order() {
    let req = request(Vec::new(), Vec::new());
    let pairs = build_environment(&req, "x86_64-linux", "some-id", 2019).unwrap();
    assert_eq!(
        names(&pairs),
        vec![
            "RACK",
            "REQUEST_METHOD",
            "PATH_INFO",
            "QUERY_STRING",
            "SERVER_NAME",
            "SERVER_PROTOCOL",
            "rack.url_scheme",
            "flack.system",
            "flack.request_id",
            "SERVER_PORT",
        ]
    );
    match &pairs[0].1 {
        EnvValue::StrVal(v) => assert_eq!(v, "flack"),
        _ => panic!("expected a string attribute"),
    }
    match &pairs[8].1 {
        EnvValue::StrVal(v) => assert_eq!(v, "some-id"),
        _ => panic!("expected a string attribute"),
    }
}

#[test]
fn host_and_content_type_forwarded_once() {
    let req = request(
        vec![
            ("host".to_string(), "example.org".to_string()),
            ("content-type".to_string(), "text/plain".to_string()),
        ],
        Vec::new(),
    );
    let pairs = build_environment(&req, "system", "id", 2019).unwrap();
    let ns = names(&pairs);
    assert_eq!(ns.iter().filter(|n| *n == "HTTP_HOST").count(), 1);
    assert_eq!(ns.iter().filter(|n| *n == "CONTENT_TYPE").count(), 1);
    assert!(!ns.contains(&"HTTP_CONTENT_TYPE".to_string()));
}

#[test]
fn empty_body_has_no_content_length() {
    let req = request(Vec::new(), Vec::new());
    let pairs = build_environment(&req, "system", "id", 2019).unwrap();
    assert!(!names(&pairs).contains(&"CONTENT_LENGTH".to_string()));
}

#[test]
fn nonempty_body_has_content_length() {
    let req = request(Vec::new(), b"hello".to_vec());
    let pairs = build_environment(&req, "system", "id", 2019).unwrap();
    let found = pairs.iter().find(|p| p.0 == "CONTENT_LENGTH").unwrap();
    match found.1 {
        EnvValue::IntVal(v) => assert_eq!(v, 5),
        _ => panic!("expected an integer attribute"),
    }
}

#[test]
fn json_body_decoded_into_environment() {
    let req = request(
        vec![("content-type".to_string(), "application/json".to_string())],
        b"{\"a\":1}".to_vec(),
    );
    let pairs = build_environment(&req, "system", "id", 2019).unwrap();
    let found = pairs.iter().find(|p| p.0 == "flack.body").unwrap();
    match &found.1 {
        EnvValue::JsonText(v) => assert_eq!(v, "{\"a\":1}"),
        _ => panic!("expected a JSON body attribute"),
    }
}

#[test]
fn json_content_type_case_insensitive() {
    let req = request(
        vec![("content-type".to_string(), "Application/JSON".to_string())],
        b"[1]".to_vec(),
    );
    let pairs = build_environment(&req, "system", "id", 2019).unwrap();
    assert!(names(&pairs).contains(&"flack.body".to_string()));
}

#[test]
fn invalid_utf8_json_body_is_bad_request() {
    let req = request(
        vec![("content-type".to_string(), "application/json".to_string())],
        vec![0xff, 0xfe],
    );
    let resp = build_environment(&req, "system", "id", 2019).unwrap_err();
    assert_eq!(resp.code, 400);
    assert_eq!(resp.error.as_ref().unwrap().error, "Bad request");
}

#[test]
fn invalid_utf8_body_without_json_type_is_accepted() {
    let req = request(
        vec![("content-type".to_string(), "application/octet-stream".to_string())],
        vec![0xff, 0xfe],
    );
    let pairs = build_environment(&req, "system", "id", 2019).unwrap();
    assert!(!names(&pairs).contains(&"flack.body".to_string()));
}

#[test]
fn header_names_are_upper_cased_with_underscores() {
    let req = request(
        vec![("Accept-Encoding".to_string(), "gzip".to_string())],
        Vec::new(),
    );
    let pairs = build_environment(&req, "system", "id", 2019).unwrap();
    let found = pairs.iter().find(|p| p.0 == "HTTP_ACCEPT_ENCODING").unwrap();
    match &found.1 {
        EnvValue::StrVal(v) => assert_eq!(v, "gzip"),
        _ => panic!("expected a string attribute"),
    }
}

#[test]
fn prepared_request_id_is_36_characters() {
    let req = request(Vec::new(), Vec::new());
    let (id, pairs) = prepare_environment(&req, "system", 2019).unwrap();
    assert_eq!(id.chars().count(), 36);
    let found = pairs.iter().find(|p| p.0 == "flack.request_id").unwrap();
    match &found.1 {
        EnvValue::StrVal(v) => assert_eq!(*v, id),
        _ => panic!("expected a string attribute"),
    }
}
