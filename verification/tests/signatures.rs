use http::HeaderMap;
use openlake_scrub::config::{Credential, Target};
use openlake_scrub::error::ScrubError;
use openlake_scrub::exchange::{delete_objects_request, list_objects_request};
use openlake_scrub::query::{
    fits_signature, longest_rewriting, may_be_authority, query_growth, unescape,
};
use openlake_scrub::sign::{
    can_be_signed, can_be_signed_at, current_signing_time, distance_can_be_signed, fits_in_header,
    sign_request, try_sign_request, MAX_EXTRA_HEADERS,
};
use std::time::{Duration, SystemTime, UNIX_EPOCH};

fn at(unix_seconds: i64) -> SystemTime {
    if unix_seconds >= 0 {
        UNIX_EPOCH + Duration::from_secs(unix_seconds as u64)
    } else {
        UNIX_EPOCH - Duration::from_secs(unix_seconds.unsigned_abs())
    }
}

fn now() -> SystemTime {
    at(1_700_000_000)
}

fn credential() -> Credential {
    Credential { access_key: "AKIDEXAMPLE".to_string(), secret_key: "wJalrXUtnFEMI".to_string() }
}

fn value<'a>(headers: &'a HeaderMap, name: &str) -> &'a str {
    headers.get(name).unwrap().to_str().unwrap()
}

#[test]
fn signature_of_a_listing() {
    let request = list_objects_request(
        "http://10.0.0.7:9000",
        "us-east-1",
        &credential(),
        "photos",
        None,
        None,
        1000,
        now(),
    )
    .unwrap_or_else(|e| panic!("{}", e.message()));
    assert_eq!(request.url, "http://10.0.0.7:9000/photos?list-type=2&max-keys=1000");
    assert_eq!(request.headers.len(), 3);
    assert_eq!(value(&request.headers, "x-amz-date"), "20231114T221320Z");
    assert_eq!(value(&request.headers, "x-amz-content-sha256"), "UNSIGNED-PAYLOAD");
    assert_eq!(
        value(&request.headers, "authorization"),
        "AWS4-HMAC-SHA256 Credential=AKIDEXAMPLE/20231114/us-east-1/s3/aws4_request, \
         SignedHeaders=host;x-amz-content-sha256;x-amz-date, \
         Signature=f064203bfd67e3326aea10c6e3f7070edffb0d2453e4544e1153269738c95e64"
    );
    assert!(request.headers.get("host").is_none());
}

#[test]
fn signature_of_a_page_with_prefix_and_token() {
    let target = Target {
        node_id: "1".to_string(),
        base_url: "https://[fd00::1]:443".to_string(),
        region: "us-east-1".to_string(),
        credential: credential(),
    };
    assert!(target.can_sign());
    assert!(target.can_list("sys", Some("buckets/"), Some("a/b=")));
    let request = target
        .list_page("sys", Some("buckets/"), Some("a/b="), now())
        .unwrap_or_else(|e| panic!("{}", e.message()));
    assert_eq!(
        request.url,
        "https://[fd00::1]:443/sys?list-type=2&max-keys=1000&prefix=buckets%2F&continuation-token=a%2Fb%3D"
    );
    assert_eq!(
        value(&request.headers, "authorization"),
        "AWS4-HMAC-SHA256 Credential=AKIDEXAMPLE/20231114/us-east-1/s3/aws4_request, \
         SignedHeaders=host;x-amz-content-sha256;x-amz-date, \
         Signature=259b4efc0c4ca846d7d544d437e9189ca7cfb2965d74dc91d5c8612604bc8295"
    );
}

#[test]
fn signature_of_a_deletion() {
    let body = "<Delete><Quiet>true</Quiet><Object><Key>a</Key></Object></Delete>";
    let request = delete_objects_request(
        "http://10.0.0.7:9000",
        "us-east-1",
        &credential(),
        "photos",
        body.to_string(),
        now(),
    )
    .unwrap_or_else(|e| panic!("{}", e.message()));
    assert_eq!(request.url, "http://10.0.0.7:9000/photos?delete");
    assert_eq!(request.body, body);
    assert_eq!(request.headers.len(), 4);
    assert_eq!(
        value(&request.headers, "x-amz-checksum-sha256"),
        "vSMrz7Osa/y1OFOZFxgDGCeKtr1l0RPOB9+V2W50HsQ="
    );
    assert_eq!(
        value(&request.headers, "authorization"),
        "AWS4-HMAC-SHA256 Credential=AKIDEXAMPLE/20231114/us-east-1/s3/aws4_request, \
         SignedHeaders=host;x-amz-checksum-sha256;x-amz-content-sha256;x-amz-date, \
         Signature=b9dae7f787853c2beb945f330d26f81fc32a277793b2b8628763463f64a0cdde"
    );
}

#[test]
fn signature_before_the_epoch() {
    let request = list_objects_request(
        "http://10.0.0.7:9000",
        "us-east-1",
        &credential(),
        "photos",
        None,
        None,
        1000,
        UNIX_EPOCH - Duration::from_nanos(1),
    )
    .unwrap_or_else(|e| panic!("{}", e.message()));
    assert_eq!(value(&request.headers, "x-amz-date"), "19691231T235959Z");
    assert!(value(&request.headers, "authorization")
        .ends_with("eb6b38f5e16c78f7fec1d1bb83972c280b9eca18ffe375540258beaa47c5f6e4"));
}

#[test]
fn signed_payload_is_summed_up() {
    let headers = sign_request(
        "PUT",
        "http://h/b/k",
        &credential(),
        "r",
        &[],
        Some(b""),
        now(),
    )
    .unwrap_or_else(|e| panic!("{}", e.message()));
    assert_eq!(
        value(&headers, "x-amz-content-sha256"),
        "e3b0c44298fc1c149afbf4c8996fb92427ae41e4649b934ca495991b7852b855"
    );
}

#[test]
fn the_last_of_two_headers_of_one_name_is_sent_and_the_host_is_not() {
    let headers = sign_request(
        "GET",
        "http://h/b",
        &credential(),
        "r",
        &[("X-One", "1"), ("x-one", "2"), ("host", "other")],
        None,
        now(),
    )
    .unwrap_or_else(|e| panic!("{}", e.message()));
    assert_eq!(headers.get_all("x-one").iter().count(), 1);
    assert_eq!(value(&headers, "x-one"), "2");
    assert!(headers.get("host").is_none());
    assert_eq!(headers.len(), 4);
}

#[test]
fn url_that_cannot_be_signed() {
    let error = sign_request("GET", "http://h/a b", &credential(), "r", &[], None, now()).unwrap_err();
    assert!(matches!(error, ScrubError::SignableRequest(_)));
    assert_eq!(error.message(), "build signable request: failed to create canonical request");
}

#[test]
fn url_that_is_too_long() {
    let url = format!("http://h/{}", "a".repeat(70_000));
    assert!(fits_signature(&url));
    let error = sign_request("GET", &url, &credential(), "r", &[], None, now()).unwrap_err();
    assert!(matches!(error, ScrubError::SignableRequest(_)));
}

#[test]
fn header_that_cannot_be_signed() {
    let error = sign_request("GET", "http://h/b", &credential(), "r", &[("x-one", "a\nb")], None, now())
        .unwrap_err();
    assert!(matches!(error, ScrubError::Sign(_)));
    assert_eq!(error.message(), "sign request: failed to create canonical request");
}

#[test]
fn method_that_is_none() {
    let error = sign_request("G T", "http://h/b", &credential(), "r", &[], None, now()).unwrap_err();
    assert!(matches!(error, ScrubError::BuildRequest(_)));
    assert_eq!(error.message(), "build request: invalid HTTP method");
    assert!(sign_request("", "http://h/b", &credential(), "r", &[], None, now()).is_err());
    let long = "M".repeat(100);
    assert!(sign_request(&long, "http://h/b", &credential(), "r", &[], None, now()).is_ok());
}

#[test]
fn other_messages_of_signing() {
    assert_eq!(
        ScrubError::SigningParams("x".to_string()).message(),
        "build signing params: x"
    );
    let header = ScrubError::Header { name: "n".to_string(), reason: "r".to_string() };
    assert_eq!(header.message(), "header n: r");
}

#[test]
fn longest_queries_are_written_anew() {
    let stars = format!("http://h/b?{}", "*".repeat(21_843));
    let escapes = format!("http://h/b?a={}", "%FF".repeat(7_281));
    let slashes = format!("http://h/b?a={}", "%2F".repeat(21_840));
    let names = format!("http://h/b?{}a", "a&".repeat(21_843));
    let path = format!("http://h/{}?delete", "/".repeat(65_518));
    let alone = format!("/{}?delete", "a".repeat(65_525));
    let fragment = format!("http://h/b?{}#{}", "*".repeat(21_800), "a".repeat(40_000));
    let nothing = format!("http://h/b?{}", "&".repeat(65_500));
    let bare = format!("http://h?{}", "*".repeat(21_843));
    for url in [stars, escapes, slashes, names, path, alone, fragment, nothing, bare] {
        assert!(fits_signature(&url));
        assert!(sign_request("GET", &url, &credential(), "r", &[], None, now()).is_ok());
    }
}

#[test]
fn urls_to_sign() {
    for url in ["http://h/b", "https://h/b", "ftp://h/b", "/b", "/", "*", "h/b?c"] {
        assert!(fits_signature(url));
    }
    for url in ["h", "h:80", "user@[::1]:80"] {
        assert!(may_be_authority(url));
        assert!(!fits_signature(url));
    }
    assert!(!may_be_authority(""));
    assert!(!may_be_authority("a b"));
    assert!(!fits_signature(&format!("http://h/b?{}", "*".repeat(21_844))));
    assert!(fits_signature(&format!("http://h/b?a={}", "%c3%a9".repeat(6_000))));
    assert!(!fits_signature(&format!("http://h/b?a={}", "%c3".repeat(8_000))));
    assert!(!fits_signature(&format!("http://h/b?{}", "%%".repeat(15_000))));
    assert!(!fits_signature(&format!("/{}?delete", "a".repeat(65_526))));
}

#[test]
fn urls_without_a_scheme() {
    for url in ["/b", "*"] {
        assert!(sign_request("GET", url, &credential(), "r", &[], None, now()).is_ok());
    }
    for url in ["", "a b"] {
        let error = sign_request("GET", url, &credential(), "r", &[], None, now()).unwrap_err();
        assert!(matches!(error, ScrubError::SignableRequest(_)));
    }
}

#[test]
fn growth_of_queries() {
    assert_eq!(unescape(b"a%2Fb%c3%A9%%4"), b"a/b\xc3\xa9%%4");
    assert_eq!(query_growth(b""), -1);
    assert_eq!(query_growth(b"delete"), 1);
    assert_eq!(query_growth(b"a=b&c=%2F%C3%A9"), 0);
    assert_eq!(query_growth(b"a=b=c&d"), 3);
    assert_eq!(query_growth(b"a&b&c=*"), 4);
    assert_eq!(query_growth(b"a=%2F%C3"), 6);
    assert_eq!(query_growth(b"a=%2"), 2);
    assert_eq!(query_growth(b"&&a=%41"), -4);
    assert_eq!(longest_rewriting(b"http://h/b?c=*#*"), 8);
    assert_eq!(longest_rewriting(b"http://h?c"), 4);
    assert_eq!(longest_rewriting(b"/b//c?d"), 8);
    assert_eq!(longest_rewriting(b"http://h/b"), 2);
}

#[test]
fn every_listing_of_one_bucket_is_signed_or_too_long() {
    let tokens = [
        ("\u{e9}".repeat(10_900), true),
        ("/".repeat(21_800), true),
        ("a".repeat(65_450), true),
        ("a".repeat(65_500), false),
    ];
    for (token, fits) in tokens {
        let request = list_objects_request(
            "http://10.0.0.7:9000",
            "us-east-1",
            &credential(),
            "b",
            None,
            Some(&token),
            1000,
            now(),
        );
        match request {
            Ok(request) => assert!(fits && request.url.len() <= 65_534),
            Err(e) => assert!(!fits && matches!(e, ScrubError::SignableRequest(_))),
        }
    }
}

#[test]
fn another_secret_key_changes_the_signature_alone() {
    let other = Credential { access_key: "AKIDEXAMPLE".to_string(), secret_key: "x".to_string() };
    let sign = |key: &Credential| {
        sign_request("GET", "http://h/b?a", key, "r", &[("x-one", "1")], None, now())
            .unwrap_or_else(|e| panic!("{}", e.message()))
    };
    let a = sign(&credential());
    let b = sign(&other);
    assert_eq!(a.len(), b.len());
    for (name, text) in &a {
        if name.as_str() != "authorization" {
            assert_eq!(b.get(name), Some(text));
        }
    }
    let start = "AWS4-HMAC-SHA256 Credential=AKIDEXAMPLE/20231114/r/s3/aws4_request, \
                 SignedHeaders=host;x-amz-content-sha256;x-amz-date;x-one, Signature=";
    assert!(value(&a, "authorization").starts_with(start));
    assert!(value(&b, "authorization").starts_with(start));
    assert_ne!(value(&a, "authorization"), value(&b, "authorization"));
}

#[test]
fn names_are_signed_in_order_and_some_are_left_out() {
    let headers = sign_request(
        "GET",
        "http://h/b",
        &credential(),
        "r",
        &[("X-B", "1"), ("User-Agent", "u"), ("x-a", "2"), ("x-b", "3"), ("authorization", "z")],
        None,
        now(),
    )
    .unwrap_or_else(|e| panic!("{}", e.message()));
    assert!(value(&headers, "authorization")
        .contains(" SignedHeaders=host;x-a;x-amz-content-sha256;x-amz-date;x-b, "));
    assert_eq!(value(&headers, "user-agent"), "u");
}

#[test]
fn header_name_that_cannot_be_signed() {
    for name in ["x one", ""] {
        let error = sign_request("GET", "http://h/b", &credential(), "r", &[(name, "1")], None, now())
            .unwrap_err();
        assert!(matches!(error, ScrubError::Sign(_)));
        assert_eq!(error.message(), "sign request: failed to create canonical request");
    }
}

#[test]
fn as_many_headers_as_there_is_room_for() {
    let mut extra: Vec<(&'static str, &str)> = Vec::new();
    for i in 0..MAX_EXTRA_HEADERS {
        extra.push((Box::leak(format!("x-{}", i).into_boxed_str()), "1"));
    }
    assert_eq!(extra.len(), 6550);
    let headers = sign_request("GET", "http://h/b", &credential(), "r", &extra, None, now())
        .unwrap_or_else(|e| panic!("{}", e.message()));
    assert_eq!(headers.len(), 6553);
}

#[test]
fn texts_in_headers() {
    assert!(fits_in_header(""));
    assert!(fits_in_header("AKID/\t~ \u{e9}"));
    assert!(!fits_in_header("a\n"));
    assert!(!fits_in_header("\u{7f}"));
    assert!(!fits_in_header("\0"));
}

#[test]
fn keys_that_fit_in_a_header_are_signed_with() {
    let key = Credential { access_key: "\u{e9}\t".to_string(), secret_key: "\n".to_string() };
    assert!(fits_in_header(&key.access_key));
    assert!(sign_request("GET", "http://h/b", &key, "r", &[], None, now()).is_ok());
}

#[test]
fn times_that_can_be_signed() {
    assert!(distance_can_be_signed(Ok((1_700_000_000, 999_999_999))));
    assert!(distance_can_be_signed(Ok((253_402_300_799, 1))));
    assert!(!distance_can_be_signed(Ok((253_402_300_800, 0))));
    assert!(distance_can_be_signed(Err((377_705_116_800, 0))));
    assert!(!distance_can_be_signed(Err((377_705_116_800, 1))));
    assert!(can_be_signed_at(&now()));
    assert!(can_be_signed_at(&at(-1)));
    assert!(!can_be_signed_at(&at(253_402_300_800)));
    assert!(!can_be_signed_at(&at(-377_705_116_801)));
}

#[test]
fn dates() {
    let dates = [
        (0, "19700101T000000Z"),
        (-1, "19691231T235959Z"),
        (951_782_400, "20000229T000000Z"),
        (951_868_799, "20000229T235959Z"),
        (951_868_800, "20000301T000000Z"),
        (4_107_542_400, "21000301T000000Z"),
        (1_735_689_599, "20241231T235959Z"),
        (253_402_300_799, "99991231T235959Z"),
        (-62_009_366_400, "00050101T000000Z"),
        (-62_324_985_600, "-0050101T000000Z"),
        (-377_705_116_800, "-99990101T000000Z"),
    ];
    for (unix_seconds, date) in dates {
        let headers =
            sign_request("GET", "http://h/b", &credential(), "r", &[], None, at(unix_seconds))
                .unwrap_or_else(|e| panic!("{}", e.message()));
        assert_eq!(value(&headers, "x-amz-date"), date);
        let day = &date[..date.len() - 8];
        let scope = format!("Credential=AKIDEXAMPLE/{}/r/s3/aws4_request,", day);
        assert!(value(&headers, "authorization").contains(&scope));
    }
}

#[test]
fn parts_of_a_second_are_not_signed() {
    let sign = |time: SystemTime| {
        sign_request("GET", "http://h/b", &credential(), "r", &[], None, time)
            .unwrap_or_else(|e| panic!("{}", e.message()))
    };
    assert_eq!(sign(now()), sign(now() + Duration::from_nanos(999_999_999)));
    assert_eq!(sign(at(-1)), sign(UNIX_EPOCH - Duration::from_nanos(1)));
}

#[test]
fn requests_are_signed_if_that_can_be() {
    let key = credential();
    let sign = |url: &str, region: &str, extra: &[(&'static str, &str)], time: SystemTime| {
        let signed = try_sign_request("GET", url, &key, region, extra, None, time);
        assert_eq!(signed.is_some(), can_be_signed("GET", url, &key, region, extra, &time));
        signed
    };
    assert!(matches!(sign("http://h/b", "r", &[], now()), Some(Ok(_))));
    assert!(matches!(sign("http://h/b", "r", &[("x y", "1")], now()), Some(Err(ScrubError::Sign(_)))));
    for url in ["a:b:c", "a@", "[", "http://h/a b", ""] {
        assert!(matches!(sign(url, "r", &[], now()), Some(Err(ScrubError::SignableRequest(_)))));
    }
    assert!(sign("h:80", "r", &[], now()).is_none());
    assert!(sign("http://h/b", "\n", &[], now()).is_none());
    assert!(sign("http://h/b", "r", &[("\u{212a}", "1")], now()).is_none());
    assert!(sign("http://h/b", "r", &[], at(253_402_300_800)).is_none());
    let extra: Vec<(&'static str, &str)> = vec![("x", "1"); MAX_EXTRA_HEADERS + 1];
    assert!(sign("http://h/b", "r", &extra, now()).is_none());
}

#[test]
fn clock_shows_a_time_of_this_century() {
    let shown = current_signing_time().unwrap();
    assert!(at(1_700_000_000) < shown && shown < at(4_200_000_000));
}
