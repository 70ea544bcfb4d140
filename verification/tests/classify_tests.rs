use flack_serve::classify::{classify_result, BodyClass, ClassifyFault, RtValue};

fn triple(code: RtValue, headers: Vec<(String, RtValue)>, body: RtValue) -> RtValue {
    RtValue::ListVal(vec![code, RtValue::AttrsVal(headers), body])
}

#[test]
fn plain_string_body_with_status_200() {
    let v = triple(
        RtValue::IntVal(200),
        Vec::new(),
        RtValue::StrVal("hello".to_string()),
    );
    let c = classify_result(&v).unwrap();
    assert_eq!(c.status, 200);
    assert!(!c.content_type_set);
    assert!(c.headers.is_empty());
    match &c.body {
        BodyClass::TextLike(s) => assert_eq!(s, "hello"),
        _ => panic!("expected a text-like body"),
    }
}

#[test]
fn status_700_is_invalid_status_code() {
    let v = triple(RtValue::IntVal(700), Vec::new(), RtValue::StrVal("x".to_string()));
    let f = classify_result(&v).unwrap_err();
    assert!(matches!(f, ClassifyFault::CodeOutOfRange));
    assert_eq!(f.message(), "invalid status code");
}

#[test]
fn status_bounds_are_inclusive() {
    let low = triple(RtValue::IntVal(100), Vec::new(), RtValue::StrVal("x".to_string()));
    assert_eq!(classify_result(&low).unwrap().status, 100);
    let high = triple(RtValue::IntVal(599), Vec::new(), RtValue::StrVal("x".to_string()));
    assert_eq!(classify_result(&high).unwrap().status, 599);
    let under = triple(RtValue::IntVal(99), Vec::new(), RtValue::StrVal("x".to_string()));
    assert!(matches!(classify_result(&under).unwrap_err(), ClassifyFault::CodeOutOfRange));
    let over = triple(RtValue::IntVal(600), Vec::new(), RtValue::StrVal("x".to_string()));
    assert!(matches!(classify_result(&over).unwrap_err(), ClassifyFault::CodeOutOfRange));
}

#[test]
fn four_elements_is_not_length_three() {
    let v = RtValue::ListVal(vec![
        RtValue::IntVal(200),
        RtValue::AttrsVal(Vec::new()),
        RtValue::StrVal("a".to_string()),
        RtValue::StrVal("extra".to_string()),
    ]);
    let f = classify_result(&v).unwrap_err();
    assert!(matches!(f, ClassifyFault::NotLengthThree));
    assert_eq!(f.message(), "result of flack app did not have length 3");
}

#[test]
fn non_list_result_is_not_length_three() {
    let f = classify_result(&RtValue::StrVal("nope".to_string())).unwrap_err();
    assert!(matches!(f, ClassifyFault::NotLengthThree));
}

#[test]
fn non_integer_code_is_code_missing() {
    let v = triple(
        RtValue::StrVal("200".to_string()),
        Vec::new(),
        RtValue::StrVal("b".to_string()),
    );
    let f = classify_result(&v).unwrap_err();
    assert!(matches!(f, ClassifyFault::CodeMissing));
    assert_eq!(f.message(), "error getting code");
}

#[test]
fn non_mapping_headers_is_headers_missing() {
    let v = RtValue::ListVal(vec![
        RtValue::IntVal(200),
        RtValue::StrVal("nope".to_string()),
        RtValue::StrVal("b".to_string()),
    ]);
    let f = classify_result(&v).unwrap_err();
    assert!(matches!(f, ClassifyFault::HeadersMissing));
    assert_eq!(f.message(), "error getting headers");
}

#[test]
fn integer_body_is_unsupported() {
    let v = triple(RtValue::IntVal(200), Vec::new(), RtValue::IntVal(5));
    let f = classify_result(&v).unwrap_err();
    assert!(matches!(f, ClassifyFault::BodyUnsupported));
    assert_eq!(f.message(), "body was not a string or attribute set");
}

#[test]
fn plain_record_body_is_json_like() {
    let v = triple(
        RtValue::IntVal(200),
        Vec::new(),
        RtValue::AttrsVal(vec![("a".to_string(), RtValue::IntVal(1))]),
    );
    let c = classify_result(&v).unwrap();
    assert!(matches!(c.body, BodyClass::JsonLike));
    assert!(!c.content_type_set);
}

#[test]
fn derivation_tagged_record_is_derivation_like() {
    let v = triple(
        RtValue::IntVal(200),
        Vec::new(),
        RtValue::AttrsVal(vec![(
            "type".to_string(),
            RtValue::StrVal("derivation".to_string()),
        )]),
    );
    let c = classify_result(&v).unwrap();
    assert!(matches!(c.body, BodyClass::DerivationLike));
}

#[test]
fn record_with_non_string_type_is_json_like() {
    let v = triple(
        RtValue::IntVal(200),
        Vec::new(),
        RtValue::AttrsVal(vec![("type".to_string(), RtValue::IntVal(3))]),
    );
    let c = classify_result(&v).unwrap();
    assert!(matches!(c.body, BodyClass::JsonLike));
}

#[test]
fn header_copy_is_best_effort() {
    let headers = vec![
        ("X-Ok".to_string(), RtValue::StrVal("yes".to_string())),
        ("Bad Name".to_string(), RtValue::StrVal("dropped".to_string())),
        ("X-Ctrl".to_string(), RtValue::StrVal("a\nb".to_string())),
        ("X-Num".to_string(), RtValue::IntVal(4)),
    ];
    let v = triple(RtValue::IntVal(200), headers, RtValue::StrVal("b".to_string()));
    let c = classify_result(&v).unwrap();
    assert_eq!(c.headers, vec![("x-ok".to_string(), "yes".to_string())]);
    assert!(!c.content_type_set);
}

#[test]
fn supplied_content_type_is_noticed_case_insensitively() {
    let headers = vec![(
        "Content-Type".to_string(),
        RtValue::StrVal("text/html".to_string()),
    )];
    let v = triple(RtValue::IntVal(201), headers, RtValue::StrVal("b".to_string()));
    let c = classify_result(&v).unwrap();
    assert!(c.content_type_set);
    assert_eq!(c.status, 201);
    assert_eq!(
        c.headers,
        vec![("content-type".to_string(), "text/html".to_string())]
    );
}

#[test]
fn non_string_content_type_does_not_count_as_supplied() {
    let headers = vec![("content-type".to_string(), RtValue::IntVal(1))];
    let v = triple(RtValue::IntVal(200), headers, RtValue::StrVal("b".to_string()));
    let c = classify_result(&v).unwrap();
    assert!(!c.content_type_set);
    assert!(c.headers.is_empty());
}
