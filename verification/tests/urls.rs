use openlake_scrub::encoding::{encode_query_value, sha256_base64};
use openlake_scrub::text::{decimal_string, holds_char, text_before, text_equal};
use openlake_scrub::url::{build_delete_url, build_list_url, host_from_url};

#[test]
fn list_url_without_options() {
    assert_eq!(
        build_list_url("http://h:1", "photos", None, None, 1000),
        "http://h:1/photos?list-type=2&max-keys=1000"
    );
}

#[test]
fn list_url_with_prefix_and_token() {
    assert_eq!(
        build_list_url("https://[::1]:443", "sys", Some("buckets/"), Some("a+b=&c"), 7),
        "https://[::1]:443/sys?list-type=2&max-keys=7&prefix=buckets%2F&continuation-token=a%2Bb%3D%26c"
    );
}

#[test]
fn list_url_with_token_alone() {
    assert_eq!(
        build_list_url("http://h", "b", None, Some(""), 0),
        "http://h/b?list-type=2&max-keys=0&continuation-token="
    );
}

#[test]
fn pages_have_their_own_urls() {
    let places = [None, Some(""), Some("a"), Some("a&continuation-token=b"), Some("b"), Some("%61")];
    let mut urls: Vec<String> = Vec::new();
    for prefix in places {
        for token in places {
            urls.push(build_list_url("http://h", "b", prefix, token, 1000));
            urls.push(build_list_url("http://h", "b", prefix, token, 10));
        }
    }
    let count = urls.len();
    urls.sort();
    urls.dedup();
    assert_eq!(urls.len(), count);
}

#[test]
fn delete_url() {
    assert_eq!(build_delete_url("http://h:1", "photos"), "http://h:1/photos?delete");
}

#[test]
fn query_values_keep_letters_and_digits_alone() {
    assert_eq!(encode_query_value("AZaz09"), "AZaz09");
    assert_eq!(encode_query_value("foo bar?"), "foo%20bar%3F");
    assert_eq!(encode_query_value("a-b._~"), "a%2Db%2E%5F%7E");
    assert_eq!(encode_query_value("\u{e9}"), "%C3%A9");
    assert_eq!(encode_query_value(""), "");
}

#[test]
fn encoded_values_stay_in_their_parameter() {
    let encoded = encode_query_value("x&prefix=y#z%26");
    assert!(encoded.chars().all(|c| c.is_ascii_alphanumeric() || c == '%'));
    assert_ne!(encoded, encode_query_value("x&prefix=y#z&"));
}

#[test]
fn checksums() {
    assert_eq!(sha256_base64(b""), "47DEQpj8HBSa+/TImW+5JCeuQeRkm5NMpJWZG3hSuFU=");
    assert_eq!(sha256_base64(b"hello world"), "uU0nuZNNPgilLlLX2n2r+sSE7+N6U4DukIj3rOLvzek=");
    assert_eq!(sha256_base64(b"hello world").len(), 44);
}

#[test]
fn host_of_a_url() {
    assert_eq!(host_from_url("http://10.0.0.7:9000/photos?list-type=2"), "10.0.0.7:9000");
    assert_eq!(host_from_url("https://[fd00::1]:443/a//b"), "[fd00::1]:443");
}

#[test]
fn host_of_a_text_without_path_is_the_text() {
    assert_eq!(host_from_url("http://10.0.0.7:9000"), "http://10.0.0.7:9000");
    assert_eq!(host_from_url("10.0.0.7/photos"), "10.0.0.7/photos");
    assert_eq!(host_from_url(""), "");
}

#[test]
fn host_is_looked_for_after_the_first_two_slashes() {
    assert_eq!(host_from_url("a//b/c//d/e"), "b");
    assert_eq!(host_from_url("///x"), "");
}

#[test]
fn decimals() {
    assert_eq!(decimal_string(0), "0");
    assert_eq!(decimal_string(1_234_567_890), "1234567890");
    assert_eq!(decimal_string(u64::MAX), "18446744073709551615");
}

#[test]
fn characters_of_a_text() {
    assert!(holds_char("a?", '?'));
    assert!(!holds_char("a", '?'));
    assert!(!holds_char("", '?'));
}

#[test]
fn order_of_strings() {
    let texts = ["", "A", "Z", "a", "aa", "ab", "b", "\u{e9}", "\u{ffff}", "\u{10000}"];
    for a in texts {
        for b in texts {
            assert_eq!(text_before(a, b), a < b);
            assert_eq!(text_equal(a, b), a == b);
        }
    }
}
