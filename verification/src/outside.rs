//! What the library takes on trust: calls into other crates and into the
//! standard library, each with the contract that the rest is proved from.

use aws_credential_types::Credentials;
use aws_sigv4::http_request::{
    sign, PayloadChecksumKind, PercentEncodingMode, SessionTokenMode, SignableBody,
    SignableRequest, SigningInstructions, SigningSettings, UriPathNormalizationMode,
};
use aws_sigv4::sign::v4;
use aws_smithy_runtime_api::client::identity::Identity;
use base64::Engine;
use http::{HeaderMap, HeaderValue, Request, StatusCode};
use percent_encoding::{utf8_percent_encode, NON_ALPHANUMERIC};
use sha2::Digest;
use std::str::Utf8Error;
use std::time::{SystemTime, UNIX_EPOCH};
use vstd::prelude::*;
use vstd::utf8::{encode_utf8, is_ascii_chars, valid_utf8};

#[allow(unused_imports)]
use crate::listing::sorted_set;
#[allow(unused_imports)]
use crate::query::{is_signing_url, MAX_URL};
#[allow(unused_imports)]
use crate::date::{utc_date, utc_time};

verus! {

// ---------------------------------------------------------------------------
// Strings of the standard library
// ---------------------------------------------------------------------------

/// `s` starts with `prefix`.
pub open spec fn starts_with(s: Seq<char>, prefix: Seq<char>) -> bool {
    prefix.len() <= s.len() && s.take(prefix.len() as int) == prefix
}

/// `s` ends with `suffix`.
pub open spec fn ends_with(s: Seq<char>, suffix: Seq<char>) -> bool {
    suffix.len() <= s.len() && s.skip(s.len() - suffix.len()) == suffix
}

/// `piece` stands in `s` at position `i`.
pub open spec fn stands_at(s: Seq<char>, piece: Seq<char>, i: int) -> bool {
    0 <= i <= s.len() - piece.len() && s.subrange(i, i + piece.len()) == piece
}

/// `i` is the first position at which `piece` stands in `s`.
pub open spec fn first_at(s: Seq<char>, piece: Seq<char>, i: int) -> bool {
    stands_at(s, piece, i) && forall|j: int| 0 <= j < i ==> !stands_at(s, piece, j)
}

/// [`str::strip_prefix`] with a string as the pattern: the rest of `s` after
/// `prefix`, or `None` where `s` does not start with it.
#[verifier::external_body]
pub(crate) fn strip_prefix<'a>(s: &'a str, prefix: &str) -> (r: Option<&'a str>)
    ensures
        r is Some <==> starts_with(s@, prefix@),
        r matches Some(rest) ==> rest@ == s@.skip(prefix@.len() as int),
{
    s.strip_prefix(prefix)
}

/// [`str::strip_suffix`] with a string as the pattern: the part of `s` before
/// `suffix`, or `None` where `s` does not end with it.
#[verifier::external_body]
pub(crate) fn strip_suffix<'a>(s: &'a str, suffix: &str) -> (r: Option<&'a str>)
    ensures
        r is Some <==> ends_with(s@, suffix@),
        r matches Some(rest) ==> rest@ == s@.take(s@.len() - suffix@.len()),
{
    s.strip_suffix(suffix)
}

/// [`str::split_once`] with a string as the delimiter: what stands before and
/// after its first occurrence, or `None` where it does not occur.
#[verifier::external_body]
pub(crate) fn split_once<'a>(s: &'a str, delimiter: &str) -> (r: Option<(&'a str, &'a str)>)
    ensures
        match r {
            Some((head, tail)) => first_at(s@, delimiter@, head@.len() as int)
                && s@ == head@ + delimiter@ + tail@,
            None => forall|i: int| !stands_at(s@, delimiter@, i),
        },
{
    s.split_once(delimiter)
}

#[verifier::external_type_specification]
#[verifier::external_body]
pub struct ExUtf8Error(Utf8Error);

/// Where bytes stop being UTF-8: how many of them are, and the length of what
/// follows that can begin no character, or `None` where the bytes end within one.
pub struct Utf8Fault {
    pub valid_up_to: nat,
    pub error_len: Option<nat>,
}

/// `bytes` can be continued to UTF-8.
pub open spec fn begins_utf8(bytes: Seq<u8>) -> bool {
    exists|more: Seq<u8>| valid_utf8(#[trigger] (bytes + more))
}

/// `fault` is where `bytes` stop being UTF-8. What was verified is as long as can
/// be. The invalid sequence behind it is the longest one that begins a character
/// which its next byte breaks off, or a single byte that begins none.
pub open spec fn is_utf8_fault(bytes: Seq<u8>, fault: Utf8Fault) -> bool {
    let rest = bytes.skip(fault.valid_up_to as int);
    &&& fault.valid_up_to < bytes.len()
    &&& valid_utf8(bytes.take(fault.valid_up_to as int))
    &&& forall|n: int|
        fault.valid_up_to < n <= bytes.len() ==> !valid_utf8(#[trigger] bytes.take(n))
    &&& match fault.error_len {
        None => begins_utf8(rest),
        Some(n) => {
            &&& !begins_utf8(rest)
            &&& 1 <= n <= rest.len()
            &&& if begins_utf8(rest.take(1)) {
                n < rest.len() && begins_utf8(rest.take(n as int)) && !begins_utf8(
                    rest.take(n as int + 1),
                )
            } else {
                n == 1
            }
        },
    }
}

/// What an error of [`std::str::from_utf8`] tells.
pub uninterp spec fn utf8_fault(e: Utf8Error) -> Utf8Fault;

/// [`std::str::from_utf8`]: the text that `bytes` encode, or an error exactly
/// where they are not valid UTF-8. The error tells where they stop being so: its
/// `valid_up_to` and its `error_len`.
#[verifier::external_body]
pub(crate) fn utf8_text(bytes: &[u8]) -> (r: Result<&str, Utf8Error>)
    ensures
        r is Ok <==> valid_utf8(bytes@),
        r matches Ok(text) ==> encode_utf8(text@) == bytes@,
        r matches Err(e) ==> is_utf8_fault(bytes@, utf8_fault(e)),
{
    std::str::from_utf8(bytes)
}

#[verifier::external_type_specification]
#[verifier::external_body]
pub struct ExSystemTime(SystemTime);

/// How far a time is from the Unix epoch, in whole seconds and the nanoseconds
/// beyond them: `Ok` for a time at or after the epoch, `Err` for one before it.
pub uninterp spec fn epoch_distance(time: SystemTime) -> Result<(u64, u32), (u64, u32)>;

/// A distance from the Unix epoch as whole seconds since then, rounded down.
pub open spec fn whole_seconds(distance: Result<(u64, u32), (u64, u32)>) -> int {
    match distance {
        Ok((seconds, nanos)) => seconds as int,
        Err((seconds, nanos)) => if nanos > 0 {
            -(seconds as int) - 1
        } else {
            -(seconds as int)
        },
    }
}

/// A time in whole seconds since the Unix epoch, rounded down.
pub open spec fn unix_seconds(time: SystemTime) -> int {
    whole_seconds(epoch_distance(time))
}

/// [`SystemTime::now`]. Nothing is stated of what the clock shows.
#[verifier::external_body]
pub(crate) fn clock_now() -> (r: SystemTime) {
    SystemTime::now()
}

/// [`SystemTime::duration_since`] the Unix epoch, its outcome by its numbers.
#[verifier::external_body]
pub(crate) fn since_epoch(time: &SystemTime) -> (r: Result<(u64, u32), (u64, u32)>)
    ensures
        r == epoch_distance(*time),
{
    match time.duration_since(UNIX_EPOCH) {
        Ok(after) => Ok((after.as_secs(), after.subsec_nanos())),
        Err(e) => Err((e.duration().as_secs(), e.duration().subsec_nanos())),
    }
}

// ---------------------------------------------------------------------------
// Encodings
// ---------------------------------------------------------------------------

/// An ASCII letter or digit.
pub open spec fn is_alphanumeric(b: u8) -> bool {
    48 <= b <= 57 || 65 <= b <= 90 || 97 <= b <= 122
}

/// The upper-case hexadecimal digit for `d`, which is below sixteen.
pub open spec fn hex_digit(d: int) -> char {
    if d < 10 {
        (48 + d) as char
    } else {
        (55 + d) as char
    }
}

/// A letter or digit as it is, any other byte as `%` and two hexadecimal digits.
pub open spec fn percent_encoded_byte(b: u8) -> Seq<char> {
    if is_alphanumeric(b) {
        seq![b as char]
    } else {
        seq!['%', hex_digit(b as int / 16), hex_digit(b as int % 16)]
    }
}

/// The percent-encodings of the bytes, one after the other.
pub open spec fn percent_encoded(bytes: Seq<u8>) -> Seq<char>
    decreases bytes.len(),
{
    if bytes.len() == 0 {
        seq![]
    } else {
        percent_encoded_byte(bytes[0]) + percent_encoded(bytes.drop_first())
    }
}

/// [`utf8_percent_encode`] with [`NON_ALPHANUMERIC`], collected into a string:
/// each byte of the UTF-8 form of `value` stands as it is if it is an ASCII
/// letter or digit, and as `%` and two upper-case hexadecimal digits otherwise.
#[verifier::external_body]
pub(crate) fn percent_encode(value: &str) -> (r: String)
    ensures
        r@ == percent_encoded(encode_utf8(value@)),
{
    utf8_percent_encode(value, NON_ALPHANUMERIC).to_string()
}

/// The SHA-256 digest of a byte string, as `sha2` computes it.
pub uninterp spec fn sha256(bytes: Seq<u8>) -> Seq<u8>;

/// [`sha2::Sha256::digest`]: the digest of `bytes`, which is 32 bytes long.
#[verifier::external_body]
pub(crate) fn sha256_digest(bytes: &[u8]) -> (r: Vec<u8>)
    ensures
        r@ == sha256(bytes@),
        r@.len() == 32,
{
    sha2::Sha256::digest(bytes).to_vec()
}

/// The character of the standard base64 alphabet for `v`, which is below 64.
pub open spec fn base64_char(v: int) -> char {
    if v < 26 {
        (65 + v) as char
    } else if v < 52 {
        (71 + v) as char
    } else if v < 62 {
        (v - 4) as char
    } else if v == 62 {
        '+'
    } else {
        '/'
    }
}

/// Base64 with the standard alphabet and padding: three bytes become four
/// characters of six bits each, and a shorter last group is filled up with `=`.
pub open spec fn base64_text(bytes: Seq<u8>) -> Seq<char>
    decreases bytes.len(),
{
    if bytes.len() == 0 {
        seq![]
    } else {
        let a = bytes[0] as int;
        let b = if bytes.len() > 1 { bytes[1] as int } else { 0 };
        let c = if bytes.len() > 2 { bytes[2] as int } else { 0 };
        let group = seq![
            base64_char(a / 4),
            base64_char((a % 4) * 16 + b / 16),
            if bytes.len() > 1 { base64_char((b % 16) * 4 + c / 64) } else { '=' },
            if bytes.len() > 2 { base64_char(c % 64) } else { '=' },
        ];
        if bytes.len() <= 3 {
            group
        } else {
            group + base64_text(bytes.skip(3))
        }
    }
}

/// [`base64::Engine::encode`] of the engine `general_purpose::STANDARD`: the
/// standard alphabet, with padding. It panics where the length of the result
/// does not fit in a `usize`.
#[verifier::external_body]
pub(crate) fn base64_encode(bytes: &[u8]) -> (r: String)
    requires
        (bytes@.len() + 2) / 3 * 4 <= usize::MAX,
    ensures
        r@ == base64_text(bytes@),
{
    base64::engine::general_purpose::STANDARD.encode(bytes)
}

// ---------------------------------------------------------------------------
// HTTP headers
// ---------------------------------------------------------------------------

/// `c` may stand in the name of an HTTP header.
pub open spec fn is_token_char(c: char) -> bool {
    ||| '0' <= c <= '9'
    ||| 'A' <= c <= 'Z'
    ||| 'a' <= c <= 'z'
    ||| c == '!' || c == '#' || c == '$' || c == '%' || c == '&' || c == '\''
    ||| c == '*' || c == '+' || c == '-' || c == '.' || c == '^' || c == '_'
    ||| c == '`' || c == '|' || c == '~'
}

/// `name` can name an HTTP header.
pub open spec fn is_field_name(name: Seq<char>) -> bool {
    1 <= name.len() <= 65535 && forall|i: int| 0 <= i < name.len() ==> is_token_char(name[i])
}

/// `value` can be the value of an HTTP header: no control character but the tab.
pub open spec fn is_field_value(value: Seq<char>) -> bool {
    forall|i: int|
        0 <= i < value.len() ==> value[i] == '\t' || (32 <= value[i] as u32 && value[i] as u32
            != 127)
}

/// `c` in lower case, if it is an upper-case ASCII letter.
pub open spec fn ascii_lower(c: char) -> char {
    if 'A' <= c <= 'Z' {
        (c as u32 + 32) as char
    } else {
        c
    }
}

/// The lower-case form under which a header is kept.
pub open spec fn field_name(name: Seq<char>) -> Seq<char> {
    Seq::new(name.len(), |i: int| ascii_lower(name[i]))
}

/// Headers: under each name, in lower case, the bytes of its values in order.
pub type Fields = Map<Seq<char>, Seq<Seq<u8>>>;

/// `fields` after the value of `name` was set: what stood there before is gone.
pub open spec fn set_field(fields: Fields, name: Seq<char>, value: Seq<char>) -> Fields {
    fields.insert(field_name(name), seq![encode_utf8(value)])
}

/// The number of names that a set of headers surely has room for, whatever the
/// names are. With more, names that collide may make `http` look for more room
/// than it allows.
pub const MAX_FIELDS: usize = 6554;

/// There is room in `fields` for `n` more names.
pub open spec fn has_room(fields: Fields, n: nat) -> bool {
    fields.dom().finite() && fields.dom().len() + n <= MAX_FIELDS
}

#[verifier::external_type_specification]
#[verifier::external_body]
#[verifier::reject_recursive_types(T)]
pub struct ExRequest<T>(Request<T>);

#[verifier::external_type_specification]
#[verifier::external_body]
#[verifier::reject_recursive_types(T)]
pub struct ExHeaderMap<T>(HeaderMap<T>);

#[verifier::external_type_specification]
#[verifier::external_body]
pub struct ExHeaderValue(HeaderValue);

/// The headers that a request holds.
pub uninterp spec fn request_fields(request: Request<()>) -> Fields;

/// The headers that a header map holds.
pub uninterp spec fn header_fields(headers: HeaderMap<HeaderValue>) -> Fields;

/// The text that a header value holds.
pub uninterp spec fn header_text(value: HeaderValue) -> Seq<char>;

/// `method` can be the method of an HTTP request.
pub open spec fn is_method(method: Seq<char>) -> bool {
    method.len() > 0 && forall|i: int| 0 <= i < method.len() ==> is_token_char(method[i])
}

/// `http` can parse the URL.
pub uninterp spec fn is_uri(url: Seq<char>) -> bool;

/// Why `http` refuses to make a request to a URL that it can parse.
pub open spec fn request_refusal(method: Seq<char>) -> Seq<char> {
    if is_method(method) {
        "failed to parse header value"@
    } else {
        "invalid HTTP method"@
    }
}

/// `http`'s request builder, given a method, a URL that can be parsed and the host
/// header: the request, which has that one header, or the text of the builder's
/// error. It fails first on what is no method, and then on a host that no header
/// can have as its value.
#[verifier::external_body]
pub(crate) fn build_request(method: &str, url: &str, host: &str) -> (r: Result<Request<()>, String>)
    requires
        is_uri(url@),
    ensures
        r is Ok <==> (is_method(method@) && is_field_value(host@)),
        match r {
            Ok(request) => request_fields(request) == set_field(Map::empty(), "host"@, host@),
            Err(text) => text@ == request_refusal(method@),
        },
{
    let builder = Request::builder().method(method).uri(url);
    builder.header(http::header::HOST, host).body(()).map_err(|e| e.to_string())
}

/// [`HeaderValue::from_str`]: it takes a text without control characters other
/// than the tab, and refuses any other with the same words each time.
#[verifier::external_body]
pub(crate) fn header_value(value: &str) -> (r: Result<HeaderValue, String>)
    ensures
        r is Ok <==> is_field_value(value@),
        r matches Ok(made) ==> header_text(made) == value@,
        r matches Err(text) ==> text@ == "failed to parse header value"@,
{
    HeaderValue::from_str(value).map_err(|e| e.to_string())
}

/// [`HeaderMap::insert`] on the headers of a request: the value takes the place
/// of those that stood under the name, which is kept in lower case. It panics on
/// a name that is no header name, and where there is no room for another name.
#[verifier::external_body]
pub(crate) fn insert_header(request: &mut Request<()>, name: &'static str, value: HeaderValue)
    requires
        is_field_name(name@),
        has_room(request_fields(*old(request)), 1),
    ensures
        request_fields(*final(request)) == set_field(
            request_fields(*old(request)),
            name@,
            header_text(value),
        ),
{
    request.headers_mut().insert(name, value);
}

/// [`Request::headers`], cloned: the headers of a request.
#[verifier::external_body]
pub(crate) fn headers_of(request: &Request<()>) -> (r: HeaderMap<HeaderValue>)
    ensures
        header_fields(r) == request_fields(*request),
{
    request.headers().clone()
}

/// [`HeaderMap::remove`]: nothing is left under the name.
#[verifier::external_body]
pub(crate) fn remove_header(headers: &mut HeaderMap<HeaderValue>, name: &str)
    ensures
        header_fields(*final(headers)) == header_fields(*old(headers)).remove(field_name(name@)),
{
    headers.remove(name);
}

/// A status code as `http` prints it: the number and its canonical reason.
pub uninterp spec fn status_text(code: u16) -> Seq<char>;

/// [`StatusCode`], made of a number and printed. A status code has three digits:
/// from any other number none can be made.
#[verifier::external_body]
pub(crate) fn status_line(code: u16) -> (r: String)
    requires
        100 <= code <= 999,
    ensures
        r@ == status_text(code),
{
    StatusCode::from_u16(code).unwrap().to_string()
}

// ---------------------------------------------------------------------------
// Signatures
// ---------------------------------------------------------------------------

/// How the path of a URL is encoded in what is signed.
pub enum PathEncoding {
    Double,
    Single,
}

/// Whether the checksum of the payload is a header of its own.
pub enum PayloadChecksum {
    XAmzSha256,
    NoHeader,
}

/// Whether the path of a URL is normalized in what is signed.
pub enum PathNormalization {
    Enabled,
    Disabled,
}

/// Whether a session token is part of what is signed.
pub enum SessionToken {
    Include,
    Exclude,
}

/// The choices that a signature is made with.
pub struct SigningOptions {
    pub path_encoding: PathEncoding,
    pub payload_checksum: PayloadChecksum,
    pub path_normalization: PathNormalization,
    pub session_token: SessionToken,
}

#[verifier::external_type_specification]
#[verifier::external_body]
pub struct ExSigningSettings(SigningSettings);

#[verifier::external_type_specification]
#[verifier::external_body]
pub struct ExSignableRequest<'a>(SignableRequest<'a>);

#[verifier::external_type_specification]
#[verifier::external_body]
pub struct ExSigningInstructions(SigningInstructions);

/// The choices that settings hold.
pub uninterp spec fn settings_options(settings: SigningSettings) -> SigningOptions;

/// [`SigningSettings::default`] with four fields set, one from each option. The
/// other fields keep their defaults: the signature goes into the headers.
#[verifier::external_body]
pub(crate) fn signing_settings(options: SigningOptions) -> (r: SigningSettings)
    ensures
        settings_options(r) == options,
{
    let mut r = SigningSettings::default();
    r.percent_encoding_mode = match options.path_encoding {
        PathEncoding::Double => PercentEncodingMode::Double,
        PathEncoding::Single => PercentEncodingMode::Single };
    r.payload_checksum_kind = match options.payload_checksum {
        PayloadChecksum::XAmzSha256 => PayloadChecksumKind::XAmzSha256,
        PayloadChecksum::NoHeader => PayloadChecksumKind::NoHeader };
    r.uri_path_normalization_mode = match options.path_normalization {
        PathNormalization::Enabled => UriPathNormalizationMode::Enabled,
        PathNormalization::Disabled => UriPathNormalizationMode::Disabled };
    r.session_token_mode = match options.session_token {
        SessionToken::Include => SessionTokenMode::Include,
        SessionToken::Exclude => SessionTokenMode::Exclude };
    r
}

/// What is signed of a request. Without a payload, its body is left unsigned.
pub struct SignableParts {
    pub method: Seq<char>,
    pub url: Seq<char>,
    pub headers: Seq<(Seq<char>, Seq<char>)>,
    pub payload: Option<Seq<u8>>,
}

/// What a signable request holds.
pub uninterp spec fn signable_parts(request: SignableRequest<'_>) -> SignableParts;

/// The words of every error with which `aws_sigv4` refuses a request.
pub open spec fn signing_refusal() -> Seq<char> {
    "failed to create canonical request"@
}

/// Pairs of strings as pairs of texts.
pub open spec fn pairs_view(pairs: Seq<(&str, &str)>) -> Seq<(Seq<char>, Seq<char>)> {
    Seq::new(pairs.len(), |i: int| (pairs[i].0@, pairs[i].1@))
}

/// A payload by its bytes.
pub open spec fn payload_view(payload: Option<&[u8]>) -> Option<Seq<u8>> {
    match payload {
        Some(bytes) => Some(bytes@),
        None => None,
    }
}

/// [`SignableRequest::new`]: it parses the URL, and fails exactly where that
/// fails, with the same words each time; a URL of more than 65534 bytes is too
/// long. Everything else is taken as it is given.
#[verifier::external_body]
pub(crate) fn signable_request<'a>(
    method: &'a str,
    url: &'a str,
    headers: &[(&'a str, &'a str)],
    payload: Option<&'a [u8]>,
) -> (r: Result<SignableRequest<'a>, String>)
    ensures
        r is Ok <==> is_uri(url@),
        match r {
            Ok(request) => signable_parts(request) == (SignableParts {
                method: method@,
                url: url@,
                headers: pairs_view(headers@),
                payload: payload_view(payload),
            }),
            Err(text) => text@ == signing_refusal(),
        },
        encode_utf8(url@).len() > MAX_URL ==> r is Err,
{
    let body = match payload {
        None => SignableBody::UnsignedPayload,
        Some(bytes) => SignableBody::Bytes(bytes),
    };
    SignableRequest::new(method, url, headers.iter().copied(), body).map_err(|e| e.to_string())
}

/// The headers that signing instructions add to a request, in order.
pub uninterp spec fn instruction_headers(instructions: SigningInstructions) -> Seq<
    (Seq<char>, Seq<char>),
>;

/// The SHA-256 digest of a payload, as `aws_sigv4` computes it.
pub uninterp spec fn signer_digest(payload: Seq<u8>) -> Seq<u8>;

/// An AWS Signature Version 4 of a request, made with a secret key at a time in
/// seconds since the Unix epoch.
pub uninterp spec fn sigv4_signature(
    request: SignableParts,
    secret_key: Seq<char>,
    region: Seq<char>,
    service: Seq<char>,
    unix_seconds: int,
    options: SigningOptions,
) -> Seq<char>;

/// The lower-case hexadecimal digit for `d`, which is below sixteen.
pub open spec fn lower_hex_digit(d: int) -> char {
    ascii_lower(hex_digit(d))
}

/// Bytes in hexadecimal, two lower-case digits for each.
pub open spec fn hex_text(bytes: Seq<u8>) -> Seq<char> {
    Seq::new(
        2 * bytes.len(),
        |i: int|
            if i % 2 == 0 {
                lower_hex_digit(bytes[i / 2] as int / 16)
            } else {
                lower_hex_digit(bytes[i / 2] as int % 16)
            },
    )
}

/// What the checksum of a payload reads: its digest in hexadecimal, or a fixed
/// word for one that is left unsigned.
pub open spec fn payload_checksum_text(payload: Option<Seq<u8>>) -> Seq<char> {
    match payload {
        Some(bytes) => hex_text(signer_digest(bytes)),
        None => "UNSIGNED-PAYLOAD"@,
    }
}

/// A header that has no part in a signature, by its name.
pub open spec fn is_left_unsigned(name: Seq<char>, options: SigningOptions) -> bool {
    ||| name == "authorization"@ || name == "user-agent"@
    ||| name == "x-amzn-trace-id"@ || name == "transfer-encoding"@
    ||| options.session_token is Exclude && name == "x-amz-security-token"@
}

/// The names of the headers that are signed: those of a request and those that
/// the signature adds, but for the authorization itself.
pub open spec fn signed_names(
    headers: Seq<(Seq<char>, Seq<char>)>,
    options: SigningOptions,
) -> Seq<Seq<char>> {
    let given = Seq::new(headers.len(), |i: int| field_name(headers[i].0));
    let added = if options.payload_checksum is XAmzSha256 {
        seq!["x-amz-date"@, "x-amz-content-sha256"@]
    } else {
        seq!["x-amz-date"@]
    };
    (given + added).filter(|name: Seq<char>| !is_left_unsigned(name, options))
}

/// Names in a row, with a semicolon between each two.
pub open spec fn joined_names(names: Seq<Seq<char>>) -> Seq<char>
    decreases names.len(),
{
    if names.len() == 0 {
        seq![]
    } else if names.len() == 1 {
        names[0]
    } else {
        joined_names(names.drop_last()) + ";"@ + names.last()
    }
}

/// The authorization of a request up to the signature itself.
pub open spec fn authorization_start(
    headers: Seq<(Seq<char>, Seq<char>)>,
    access_key: Seq<char>,
    region: Seq<char>,
    service: Seq<char>,
    unix_seconds: int,
    options: SigningOptions,
) -> Seq<char> {
    "AWS4-HMAC-SHA256 Credential="@ + access_key + "/"@ + utc_date(unix_seconds / 86_400) + "/"@
        + region + "/"@ + service + "/aws4_request, SignedHeaders="@ + joined_names(
        sorted_set(signed_names(headers, options)),
    ) + ", Signature="@
}

/// The headers with a signature: the time, the authorization and, if the options
/// ask for it, the checksum of the payload.
pub open spec fn signature_headers(
    request: SignableParts,
    access_key: Seq<char>,
    region: Seq<char>,
    service: Seq<char>,
    unix_seconds: int,
    options: SigningOptions,
    checksum: Seq<char>,
    signature: Seq<char>,
) -> Seq<(Seq<char>, Seq<char>)> {
    let start = authorization_start(
        request.headers,
        access_key,
        region,
        service,
        unix_seconds,
        options,
    );
    let first = seq![
        ("x-amz-date"@, utc_time(unix_seconds)),
        ("authorization"@, start + signature),
    ];
    if options.payload_checksum is XAmzSha256 {
        first.push(("x-amz-content-sha256"@, checksum))
    } else {
        first
    }
}

/// The header names and values of a list are such that HTTP can carry them.
pub open spec fn are_fields(headers: Seq<(Seq<char>, Seq<char>)>) -> bool {
    forall|i: int|
        0 <= i < headers.len() ==> is_field_name(#[trigger] headers[i].0) && is_field_value(
            headers[i].1,
        )
}

/// Every value of a list can be the value of a header.
pub open spec fn are_field_values(headers: Seq<(Seq<char>, Seq<char>)>) -> bool {
    forall|i: int| 0 <= i < headers.len() ==> is_field_value(#[trigger] headers[i].1)
}

/// Every name of a list is ASCII.
pub open spec fn are_ascii_names(headers: Seq<(Seq<char>, Seq<char>)>) -> bool {
    forall|i: int| 0 <= i < headers.len() ==> is_ascii_chars(#[trigger] headers[i].0)
}

/// A time that can be written with a year of at most four digits.
pub open spec fn is_signing_time(unix_seconds: int) -> bool {
    -377_705_116_800 <= unix_seconds <= 253_402_300_799
}

/// `aws_sigv4`'s [`sign`], with an identity made of [`Credentials`] and
/// parameters made of the remaining arguments; `provider` names where the
/// credentials came from and has no part in the signature. All the parameters
/// are given, so that building them does not fail. Signing fails, with the same
/// words each time, exactly where a header has a name or a value that HTTP cannot
/// carry. The headers of a signature are stated but for the digest of a payload
/// and the signature itself, which are named; the access key has no part in the
/// latter, nor has the part of a second by which the time exceeds a whole one. The
/// values of the headers can be carried if the key, the region and the service
/// can.
///
/// The signer panics on a time that it cannot write as a date, on a URL that is an
/// authority alone, on one that outgrows the longest URL when its query is
/// written anew, and on too many headers. It lowers the case of names before it
/// looks at them, which for other names than ASCII ones is not stated.
#[verifier::external_body]
pub(crate) fn sign_v4(
    request: SignableRequest<'_>,
    access_key: &str,
    secret_key: &str,
    provider: &'static str,
    region: &str,
    service: &str,
    settings: SigningSettings,
    time: SystemTime,
) -> (r: Result<Result<SigningInstructions, String>, String>)
    requires
        is_signing_url(signable_parts(request).url),
        are_ascii_names(signable_parts(request).headers),
        signable_parts(request).headers.len() <= MAX_FIELDS - 3,
        exists|i: int|
            0 <= i < signable_parts(request).headers.len() && signable_parts(request).headers[i].0
                == "host"@,
        is_signing_time(unix_seconds(time)),
    ensures
        r is Ok,
        ({
            let parts = signable_parts(request);
            let options = settings_options(settings);
            let at = unix_seconds(time);
            match r->Ok_0 {
                Ok(instructions) => {
                    let headers = instruction_headers(instructions);
                    let checksum = match parts.payload {
                        Some(bytes) => hex_text(signer_digest(bytes)),
                        None => "UNSIGNED-PAYLOAD"@,
                    };
                    let signature = sigv4_signature(
                        parts, secret_key@, region@, service@, at, options);
                    &&& are_fields(parts.headers)
                    &&& headers == signature_headers(
                        parts, access_key@, region@, service@, at, options, checksum, signature)
                    &&& is_field_value(access_key@) && is_field_value(region@) && is_field_value(
                        service@,
                    ) ==> are_field_values(headers)
                },
                Err(text) => text@ == signing_refusal() && !are_fields(parts.headers),
            }
        }),
{
    let identity: Identity = Credentials::new(access_key, secret_key, None, None, provider).into();
    let builder = v4::SigningParams::builder().identity(&identity).region(region).name(service);
    let params = builder.time(time).settings(settings).build().map_err(|e| e.to_string())?;
    let signed = sign(request, &params.into()).map(|output| output.into_parts().0);
    Ok(signed.map_err(|e| e.to_string()))
}

/// `fields` after the headers of a list were set, one after the other.
pub open spec fn set_fields(fields: Fields, headers: Seq<(Seq<char>, Seq<char>)>) -> Fields
    decreases headers.len(),
{
    if headers.len() == 0 {
        fields
    } else {
        set_field(set_fields(fields, headers.drop_last()), headers.last().0, headers.last().1)
    }
}

/// [`SigningInstructions::apply_to_request_http1x`]: the headers of the
/// instructions are set in the request, in their order. It panics on a value
/// that a header cannot have, and where there is no room for the headers.
#[verifier::external_body]
pub(crate) fn apply_instructions(instructions: SigningInstructions, request: &mut Request<()>)
    requires
        are_fields(instruction_headers(instructions)),
        has_room(request_fields(*old(request)), instruction_headers(instructions).len()),
    ensures
        request_fields(*final(request)) == set_fields(
            request_fields(*old(request)),
            instruction_headers(instructions),
        ),
{
    instructions.apply_to_request_http1x(request);
}

} // verus!
