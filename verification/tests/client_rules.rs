use pcli::client::{
    evaluate_response, folder_filter, folders_page_query, handle_response, image_search_query,
    models_page_query, next_folder_page, next_page, ClientError, PageData, Reply,
};

#[test]
fn success_statuses_are_accepted() {
    for code in 200u16..=205 {
        assert!(evaluate_response(code).is_ok(), "status {}", code);
    }
    assert!(evaluate_response(206).is_err());
    assert!(evaluate_response(199).is_err());
}

#[test]
fn specific_error_statuses() {
    assert!(matches!(evaluate_response(403), Err(ClientError::Forbidden)));
    assert!(matches!(evaluate_response(404), Err(ClientError::NotFound)));
    assert!(matches!(evaluate_response(401), Err(ClientError::Unauthorized)));
    assert!(matches!(evaluate_response(400), Err(ClientError::BadRequest)));
    match evaluate_response(409) {
        Err(ClientError::Conflict(m)) => assert_eq!(m, "Resource already exists on the server"),
        other => panic!("unexpected {:?}", other),
    }
}

#[test]
fn other_statuses_are_described() {
    match evaluate_response(500) {
        Err(ClientError::Unsupported(m)) => assert_eq!(m, "Server responded with error status: 500"),
        other => panic!("unexpected {:?}", other),
    }
    match evaluate_response(302) {
        Err(ClientError::Unsupported(m)) => assert_eq!(m, "Server responded with error status: 302"),
        other => panic!("unexpected {:?}", other),
    }
    match evaluate_response(299) {
        Err(ClientError::Unsupported(m)) => assert_eq!(m, "Unexpected query status code"),
        other => panic!("unexpected {:?}", other),
    }
}

#[test]
fn handle_response_passes_body_of_success() {
    let r = handle_response(Reply::Received { status: 200, body: Ok("{}".to_string()) }, None);
    assert_eq!(r.unwrap(), "{}");
}

#[test]
fn handle_response_prefers_server_message() {
    let r = handle_response(
        Reply::Received { status: 500, body: Ok("{...}".to_string()) },
        Some("boom".to_string()),
    );
    match r {
        Err(ClientError::ServerError(m)) => assert_eq!(m, "boom"),
        other => panic!("unexpected {:?}", other),
    }
}

#[test]
fn handle_response_maps_status_without_message() {
    let r = handle_response(Reply::Received { status: 404, body: Ok(String::new()) }, None);
    assert!(matches!(r, Err(ClientError::NotFound)));
    let r = handle_response(Reply::Failed("connection refused".to_string()), None);
    match r {
        Err(ClientError::ServerError(m)) => assert_eq!(m, "connection refused"),
        other => panic!("unexpected {:?}", other),
    }
}

fn page(current: u32, last: u32) -> PageData {
    PageData { total: 10, per_page: 5, current_page: current, last_page: last, start_index: 0, end_index: 0 }
}

#[test]
fn paging_stops_at_last_page() {
    assert_eq!(next_page(&page(1, 3)), Some(2));
    assert_eq!(next_page(&page(3, 3)), None);
    assert_eq!(next_folder_page(1, 2), Some(2));
    assert_eq!(next_folder_page(2, 2), None);
}

#[test]
fn folder_filter_text() {
    let names = Some(vec!["a".to_string(), "b c".to_string()]);
    assert_eq!(folder_filter(&names), "name(in('a','b c'))");
    assert_eq!(folder_filter(&None), "");
}

#[test]
fn folder_page_query() {
    let q = folders_page_query(2, 1000, "name(in('a'))".to_string());
    assert_eq!(
        q,
        vec![
            ("page".to_string(), "2".to_string()),
            ("perPage".to_string(), "1000".to_string()),
            ("filter".to_string(), "name(in('a'))".to_string()),
        ]
    );
}

#[test]
fn model_page_query_with_folders_and_search() {
    let search = "bolt".to_string();
    let q = models_page_query(&vec![3, 14], Some(&search), 50, 2);
    assert_eq!(
        q,
        vec![
            ("filter".to_string(), "folderId(in(3,14))".to_string()),
            ("search".to_string(), "bolt".to_string()),
            ("perPage".to_string(), "50".to_string()),
            ("page".to_string(), "2".to_string()),
        ]
    );
    let q = models_page_query(&vec![], None, 50, 1);
    assert_eq!(
        q,
        vec![("perPage".to_string(), "50".to_string()), ("page".to_string(), "1".to_string())]
    );
}

#[test]
fn image_search_query_parameters() {
    let q = image_search_query("upload-1".to_string(), None, None, 3, 100);
    assert_eq!(q[0], ("id".to_string(), "upload-1".to_string()));
    assert_eq!(q[1], ("perPage".to_string(), "100".to_string()));
    assert_eq!(q[2], ("page".to_string(), "3".to_string()));
    assert_eq!(q.len(), 3);
}

#[test]
fn header_names_are_checked() {
    use_header_name_rules();
}

fn use_header_name_rules() {
    let valid = pcli::client::CustomHeaderName::new("X-Goog-Meta".to_string());
    assert_eq!(valid.into_header_name().unwrap().as_str(), "x-goog-meta");
    assert_eq!(valid.to_string(), "X-Goog-Meta");
    let invalid = pcli::client::CustomHeaderName::new("bad header".to_string());
    assert!(invalid.into_header_name().is_none());
}

#[test]
fn header_name_characters_and_length() {
    let ok = |s: &str| pcli::client::CustomHeaderName::new(s.to_string()).into_header_name().is_some();
    assert!(ok("a\"b"));
    assert!(ok("x~y|z^_`!#$%&'*+-.09"));
    for bad in ["", "a:b", "a/b", "a(b", "a{b", "a@b", "a=b", "a\\b", "caf\u{e9}"] {
        assert!(!ok(bad), "{:?} should be refused", bad);
    }
    let long_ok: String = std::iter::repeat('a').take(65535).collect();
    assert!(ok(&long_ok));
    let long_bad: String = std::iter::repeat('a').take(65536).collect();
    assert!(!ok(&long_bad));
    let long_with_space = format!("{} ", "a".repeat(100));
    assert!(!ok(&long_with_space));
}
