use openlake_scrub::config::{Credential, Target};
use openlake_scrub::error::ScrubError;
use openlake_scrub::exchange::{
    delete_response_text, list_response_text, DeleteError, DeleteRequest, DeleteResult,
    LIST_PAGE_SIZE,
};

#[test]
fn successful_answers() {
    for status in [200, 204, 299] {
        assert_eq!(list_response_text("b", status, b"<x/>").unwrap(), "<x/>");
        assert_eq!(delete_response_text("b", status, "\u{e9}".as_bytes()).unwrap(), "\u{e9}");
    }
}

#[test]
fn refused_listing() {
    let error = list_response_text("photos", 403, b"denied").unwrap_err();
    assert!(matches!(error, ScrubError::ListRefused { .. }));
    assert_eq!(error.message(), "list photos failed: 403 Forbidden: denied");
    for status in [100, 199, 300, 999] {
        assert!(list_response_text("b", status, b"").is_err());
    }
}

#[test]
fn refused_deletion() {
    let error = delete_response_text("photos", 599, b"gone").unwrap_err();
    assert!(matches!(error, ScrubError::DeleteRefused { .. }));
    assert_eq!(error.message(), "delete photos failed: 599 <unknown status code>: gone");
}

#[test]
fn answers_that_are_no_text() {
    let error = list_response_text("b", 500, b"\xff").unwrap_err();
    assert!(matches!(error, ScrubError::ListNotUtf8(_)));
    assert_eq!(error.message(), "list response was not UTF-8");
    let error = delete_response_text("b", 200, b"a\xc3").unwrap_err();
    assert!(matches!(error, ScrubError::DeleteNotUtf8(_)));
    assert_eq!(error.message(), "delete response was not UTF-8");
}

#[test]
fn answers_tell_where_they_stop_being_text() {
    let faults: [(&[u8], usize, Option<usize>); 6] = [
        (b"a\xff", 1, Some(1)),
        (b"a\xe2\x82", 1, None),
        (b"ab\xe2\x82A", 2, Some(2)),
        (b"\xf0\x90\x80A", 0, Some(3)),
        (b"\xc3\xa9\xe0\x80", 2, Some(1)),
        (b"\xc3", 0, None),
    ];
    for (body, valid_up_to, error_len) in faults {
        match list_response_text("b", 200, body) {
            Err(ScrubError::ListNotUtf8(e)) => {
                assert_eq!(e.valid_up_to(), valid_up_to);
                assert_eq!(e.error_len(), error_len);
            }
            other => panic!("{:?}", other),
        }
        match delete_response_text("b", 500, body) {
            Err(ScrubError::DeleteNotUtf8(e)) => {
                assert_eq!(e.valid_up_to(), valid_up_to);
                assert_eq!(e.error_len(), error_len);
            }
            other => panic!("{:?}", other),
        }
    }
}

#[test]
fn deletion_names_its_keys_and_is_quiet() {
    let request = DeleteRequest::of_keys(&["b".to_string(), "a".to_string()]);
    assert_eq!(request.quiet, Some(true));
    let keys: Vec<&str> = request.objects.iter().map(|object| object.key.as_str()).collect();
    assert_eq!(keys, vec!["b", "a"]);
}

#[test]
fn deletion_without_failures() {
    assert!(DeleteResult { errors: Vec::new() }.outcome("b").is_ok());
}

#[test]
fn first_failure_of_a_deletion() {
    let failure = |key: &str, code: &str, message: &str| DeleteError {
        key: key.to_string(),
        code: code.to_string(),
        message: message.to_string(),
    };
    let result = DeleteResult {
        errors: vec![failure("k1", "AccessDenied", "no"), failure("k2", "Internal", "oops")],
    };
    let error = result.outcome("photos").unwrap_err();
    assert!(matches!(error, ScrubError::DeleteFailed { .. }));
    assert_eq!(error.message(), "delete photos failed for k1: no (AccessDenied)");
}

#[test]
fn what_an_endpoint_can_be_asked() {
    let mut target = Target {
        node_id: "1".to_string(),
        base_url: "http://10.0.0.1:9000".to_string(),
        region: "r".to_string(),
        credential: Credential { access_key: "a".to_string(), secret_key: "s".to_string() },
    };
    assert_eq!(LIST_PAGE_SIZE, 1000);
    assert!(target.can_sign());
    assert!(target.can_delete("photos"));
    assert!(target.can_list("photos", None, None));
    assert!(target.can_list("photos", None, Some(&"/".repeat(20_000))));
    assert!(target.can_list("photos", None, Some(&"\u{e9}".repeat(6_000))));
    assert!(target.can_list("photos", Some(&"\u{e9}".repeat(50_000)), None));
    assert!(target.can_list("a?b", None, None));
    assert!(!target.can_list(&"?".repeat(22_000), None, None));
    assert!(target.can_delete("a?b"));
    assert!(target.can_delete(&"a".repeat(65_506)));
    assert!(!target.can_delete(&"?".repeat(22_000)));
    target.region = "\n".to_string();
    assert!(!target.can_sign());
}
