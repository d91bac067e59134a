use escli::error::{Error, ErrorType, RawError, RawErrorDetail};

fn detail(type_code: &str, reason: Option<&str>, root_cause: Option<Vec<RawErrorDetail>>) -> RawErrorDetail {
    RawErrorDetail {
        type_code: type_code.to_string(),
        reason: reason.map(|r| r.to_string()),
        root_cause,
    }
}

#[test]
fn first_root_cause_reason_wins_over_top_level() {
    let raw = RawError {
        error: detail(
            "search_phase_execution_exception",
            Some("all shards failed"),
            Some(vec![
                detail("query_shard_exception", Some("failed to create query"), None),
                detail("other_exception", Some("second cause"), None),
            ]),
        ),
        status: 400,
    };
    let e = Error::from_server_error(&raw);
    assert_eq!(e.subtype, ErrorType::ServerError(400));
    assert_eq!(e.description, "failed to create query");
}

#[test]
fn empty_root_cause_list_uses_top_level_reason() {
    let raw = RawError {
        error: detail("index_not_found_exception", Some("no such index [x]"), Some(vec![])),
        status: 404,
    };
    let e = Error::from_server_error(&raw);
    assert_eq!(e.description, "no such index [x]");
    assert_eq!(e.describe(), "ServerError(404): no such index [x]");
}

#[test]
fn missing_reason_falls_back_to_type_code() {
    let raw = RawError {
        error: detail("top_type", None, Some(vec![detail("inner_type", None, None)])),
        status: 500,
    };
    let e = Error::from_server_error(&raw);
    assert_eq!(e.description, "top_type");
    assert_eq!(raw.describe(), "Error: top_type");
}

#[test]
fn undecodable_failure_body_is_a_transport_error() {
    let e = Error::from_failed_response(Err("expected value at line 1".to_string()));
    assert_eq!(e.subtype, ErrorType::ClientError);
    assert_eq!(e.describe(), "ClientError: expected value at line 1");
}

#[test]
fn decoded_failure_body_is_a_service_error() {
    let raw = RawError { error: detail("t", Some("r"), None), status: 403 };
    let e = Error::from_failed_response(Ok(raw));
    assert_eq!(e.subtype, ErrorType::ServerError(403));
    assert_eq!(e.description, "r");
}

#[test]
fn error_kinds_describe_themselves() {
    assert_eq!(
        Error::new(ErrorType::ConfigurationError, "none found".to_string()).describe(),
        "ConfigurationError: none found"
    );
    assert_eq!(Error::from_client_error("refused".to_string()).describe(), "ClientError: refused");
    assert_eq!(
        Error::new(ErrorType::MalformedRowError(4), "row 4".to_string()).describe(),
        "MalformedRowError(4): row 4"
    );
}

#[test]
fn success_statuses_are_the_2xx_range() {
    assert!(escli::error::is_success_status(200));
    assert!(escli::error::is_success_status(299));
    assert!(!escli::error::is_success_status(199));
    assert!(!escli::error::is_success_status(300));
    assert!(!escli::error::is_success_status(404));
}
