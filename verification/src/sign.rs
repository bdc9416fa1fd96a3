//! Signing a request with AWS Signature Version 4.

use crate::config::Credential;
use crate::error::ScrubError;
use crate::outside::{
    apply_instructions, build_request, clock_now, header_value, headers_of, insert_header,
    remove_header, sign_v4, signable_request, signing_settings, since_epoch, PathEncoding,
    PathNormalization, PayloadChecksum, SessionToken, SigningOptions, MAX_FIELDS,
};
use crate::query::fits_signature;
use crate::url::host_from_url;
use http::{HeaderMap, HeaderValue};
use std::time::SystemTime;
use vstd::prelude::*;
use vstd::utf8::{encode_utf8, is_ascii_chars};

#[allow(unused_imports)]
use crate::error::ErrorView;
#[allow(unused_imports)]
use crate::date::utc_time;
#[allow(unused_imports)]
use crate::outside::{
    are_fields, authorization_start, field_name, has_room, header_fields, hex_text,
    instruction_headers, is_field_name, is_field_value, is_method, is_signing_time, is_uri,
    pairs_view, payload_checksum_text, payload_view, request_fields, request_refusal, set_field,
    set_fields, signature_headers, signer_digest, signing_refusal, sigv4_signature, unix_seconds,
    whole_seconds, Fields, SignableParts,
};
#[allow(unused_imports)]
use crate::query::is_safe_url;
#[allow(unused_imports)]
use crate::text::lemma_encode_concat;
#[allow(unused_imports)]
use crate::url::host_of;

verus! {

/// The most headers that can be signed besides the host and those that a signature
/// adds.
pub const MAX_EXTRA_HEADERS: usize = MAX_FIELDS - 4;

/// The service that requests are signed for.
pub const SERVICE: &'static str = "s3";

/// Where the credentials of a signature are said to come from.
pub const PROVIDER: &'static str = "openlake-cli";

/// How S3 wants its signatures: the path is encoded once and not normalized, the
/// checksum of the payload is a header, and a session token would be signed.
pub open spec fn s3_options() -> SigningOptions {
    SigningOptions {
        path_encoding: PathEncoding::Single,
        payload_checksum: PayloadChecksum::XAmzSha256,
        path_normalization: PathNormalization::Disabled,
        session_token: SessionToken::Include,
    }
}

/// The header pairs of a request, by their texts.
pub open spec fn extra_view(extra: Seq<(&'static str, &str)>) -> Seq<(Seq<char>, Seq<char>)> {
    Seq::new(extra.len(), |i: int| (extra[i].0@, extra[i].1@))
}

/// The headers that are signed: the host, and then the extra ones.
pub open spec fn headers_to_sign(url: Seq<char>, extra: Seq<(Seq<char>, Seq<char>)>) -> Seq<
    (Seq<char>, Seq<char>),
> {
    seq![("host"@, host_of(url))] + extra
}

/// The headers to send with a signed request: the extra ones and those of the
/// signature. The host is signed but not among them. Or why there are none.
pub open spec fn signed_fields(
    request: SignableParts,
    extra: Seq<(Seq<char>, Seq<char>)>,
    access_key: Seq<char>,
    secret_key: Seq<char>,
    region: Seq<char>,
    unix_seconds: int,
) -> Result<Fields, ErrorView> {
    if !is_uri(request.url) {
        Err(ErrorView::SignableRequest(signing_refusal()))
    } else if !are_fields(request.headers) {
        Err(ErrorView::Sign(signing_refusal()))
    } else if !is_method(request.method) {
        Err(ErrorView::BuildRequest(request_refusal(request.method)))
    } else {
        let signature = sigv4_signature(
            request,
            secret_key,
            region,
            SERVICE@,
            unix_seconds,
            s3_options(),
        );
        Ok(
            set_fields(
                set_fields(Map::empty(), headers_to_sign(request.url, extra)),
                signature_headers(
                    request,
                    access_key,
                    region,
                    SERVICE@,
                    unix_seconds,
                    s3_options(),
                    payload_checksum_text(request.payload),
                    signature,
                ),
            ).remove("host"@),
        )
    }
}

/// A request can be given to the signer, which signs or refuses it. What the
/// headers of a signature hold of it can be carried, there is room for the extra
/// headers, and the signer can write the time and the query.
pub open spec fn is_request_to_sign(
    url: Seq<char>,
    extra: Seq<(Seq<char>, Seq<char>)>,
    access_key: Seq<char>,
    region: Seq<char>,
    unix_seconds: int,
) -> bool {
    &&& is_safe_url(url) || !is_uri(url)
    &&& is_field_value(access_key)
    &&& is_field_value(region)
    &&& extra.len() <= MAX_EXTRA_HEADERS
    &&& forall|i: int| 0 <= i < extra.len() ==> is_ascii_chars(#[trigger] extra[i].0)
    &&& is_signing_time(unix_seconds)
}

/// What is signed of a request with extra headers.
pub open spec fn request_parts(
    method: Seq<char>,
    url: Seq<char>,
    extra: Seq<(Seq<char>, Seq<char>)>,
    payload: Option<Seq<u8>>,
) -> SignableParts {
    SignableParts { method, url, headers: headers_to_sign(url, extra), payload }
}

proof fn lemma_known_names()
    ensures
        is_field_name("host"@),
        is_field_name("x-amz-date"@),
        is_field_name("authorization"@),
        is_field_name("x-amz-content-sha256"@),
        field_name("host"@) == "host"@,
        field_name("x-amz-date"@) == "x-amz-date"@,
        field_name("authorization"@) == "authorization"@,
        field_name("x-amz-content-sha256"@) == "x-amz-content-sha256"@,
        is_field_value(SERVICE@),
{
    reveal_strlit("host");
    reveal_strlit("x-amz-date");
    reveal_strlit("authorization");
    reveal_strlit("x-amz-content-sha256");
    reveal_strlit("s3");
    assert(field_name("host"@) =~= "host"@);
    assert(field_name("x-amz-date"@) =~= "x-amz-date"@);
    assert(field_name("authorization"@) =~= "authorization"@);
    assert(field_name("x-amz-content-sha256"@) =~= "x-amz-content-sha256"@);
}

/// The header of a body's checksum has a name that can be signed.
pub proof fn lemma_checksum_name()
    ensures
        is_field_name("x-amz-checksum-sha256"@),
        field_name("x-amz-checksum-sha256"@) == "x-amz-checksum-sha256"@,
{
    reveal_strlit("x-amz-checksum-sha256");
    assert(field_name("x-amz-checksum-sha256"@) =~= "x-amz-checksum-sha256"@);
}

/// A request without extra headers can be signed if the host can be carried.
pub proof fn lemma_host_alone(url: Seq<char>)
    ensures
        are_fields(headers_to_sign(url, seq![])) <==> is_field_value(host_of(url)),
{
    lemma_known_names();
    let headers = headers_to_sign(url, seq![]);
    assert(headers.len() == 1);
    assert(headers[0] == ("host"@, host_of(url)));
    if is_field_value(host_of(url)) {
        assert forall|i: int| 0 <= i < headers.len() implies is_field_name(#[trigger] headers[i].0)
            && is_field_value(headers[i].1) by {
            assert(i == 0);
        }
    }
    if are_fields(headers) {
        let first = headers[0];
        assert(is_field_name(first.0));
        assert(is_field_value(first.1));
    }
}

/// A request with one extra header that can be carried can be signed if the host
/// can.
pub proof fn lemma_host_and_one(url: Seq<char>, name: Seq<char>, value: Seq<char>)
    requires
        is_field_name(name),
        is_field_value(value),
    ensures
        are_fields(headers_to_sign(url, seq![(name, value)])) <==> is_field_value(host_of(url)),
{
    lemma_known_names();
    let headers = headers_to_sign(url, seq![(name, value)]);
    assert(headers.len() == 2);
    assert(headers[0] == ("host"@, host_of(url)));
    assert(headers[1] == (name, value));
    if are_fields(headers) {
        let first = headers[0];
        assert(is_field_name(first.0));
        assert(is_field_value(first.1));
    }
}

/// The methods of the requests that a scrub makes.
pub proof fn lemma_methods()
    ensures
        is_method("GET"@),
        is_method("POST"@),
{
    reveal_strlit("GET");
    reveal_strlit("POST");
}

/// The checksum of a body that is signed stands under its name.
pub proof fn lemma_checksum_field(url: Seq<char>, sum: Seq<char>)
    ensures
        ({
            let extra = seq![("x-amz-checksum-sha256"@, sum)];
            let fields = set_fields(Map::empty(), headers_to_sign(url, extra));
            &&& fields.contains_key("x-amz-checksum-sha256"@)
            &&& fields["x-amz-checksum-sha256"@] == seq![encode_utf8(sum)]
        }),
        "x-amz-checksum-sha256"@ != "host"@,
        "x-amz-checksum-sha256"@ != "x-amz-date"@,
        "x-amz-checksum-sha256"@ != "authorization"@,
        "x-amz-checksum-sha256"@ != "x-amz-content-sha256"@,
{
    lemma_checksum_name();
    let extra = seq![("x-amz-checksum-sha256"@, sum)];
    let headers = headers_to_sign(url, extra);
    assert(headers.last() == extra[0]);
    reveal_strlit("host");
    reveal_strlit("x-amz-date");
    reveal_strlit("authorization");
    reveal_strlit("x-amz-content-sha256");
    reveal_strlit("x-amz-checksum-sha256");
    assert("x-amz-checksum-sha256"@.len() == 21);
    assert("host"@.len() == 4);
    assert("x-amz-date"@.len() == 10);
    assert("authorization"@.len() == 13);
    assert("x-amz-content-sha256"@.len() == 20);
}

/// `signed` has what `fields` has under every name but the host's and those of a
/// signature's headers.
pub open spec fn keeps_other_fields(fields: Fields, signed: Fields) -> bool {
    forall|name: Seq<char>|
        name != "host"@ && name != "x-amz-date"@ && name != "authorization"@ && name
            != "x-amz-content-sha256"@ ==> (#[trigger] signed.contains_key(name)
            == fields.contains_key(name)) && signed[name] == fields[name]
}

/// The headers of a signature are there.
pub open spec fn has_signature(fields: Fields) -> bool {
    &&& fields.contains_key("x-amz-date"@)
    &&& fields.contains_key("authorization"@)
    &&& fields.contains_key("x-amz-content-sha256"@)
}

proof fn lemma_set_fields_room(
    fields: Fields,
    headers: Seq<(Seq<char>, Seq<char>)>,
    room: nat,
)
    requires
        has_room(fields, room + headers.len()),
    ensures
        has_room(set_fields(fields, headers), room),
    decreases headers.len(),
{
    if headers.len() > 0 {
        lemma_set_fields_room(fields, headers.drop_last(), room + 1);
    }
}

proof fn lemma_signature_fields(fields: Fields, headers: Seq<(Seq<char>, Seq<char>)>)
    requires
        headers.len() == 3,
        headers[0].0 == "x-amz-date"@,
        headers[1].0 == "authorization"@,
        headers[2].0 == "x-amz-content-sha256"@,
    ensures
        has_signature(set_fields(fields, headers).remove("host"@)),
        set_fields(fields, headers).remove("host"@)["x-amz-date"@] == seq![
            encode_utf8(headers[0].1),
        ],
        set_fields(fields, headers).remove("host"@)["authorization"@] == seq![
            encode_utf8(headers[1].1),
        ],
        set_fields(fields, headers).remove("host"@)["x-amz-content-sha256"@] == seq![
            encode_utf8(headers[2].1),
        ],
        keeps_other_fields(fields, set_fields(fields, headers).remove("host"@)),
{
    lemma_known_names();
    reveal_strlit("host");
    reveal_strlit("x-amz-date");
    reveal_strlit("authorization");
    reveal_strlit("x-amz-content-sha256");
    assert("host"@.len() == 4);
    assert("x-amz-date"@.len() == 10);
    assert("authorization"@.len() == 13);
    assert("x-amz-content-sha256"@.len() == 20);
    reveal_with_fuel(set_fields, 4);
    let two = headers.drop_last();
    let one = two.drop_last();
    assert(headers.last() == headers[2]);
    assert(two.last() == headers[1]);
    assert(one.last() == headers[0]);
    assert(one.drop_last().len() == 0);
    assert(set_fields(fields, headers) == set_field(
        set_field(
            set_field(fields, headers[0].0, headers[0].1),
            headers[1].0,
            headers[1].1,
        ),
        headers[2].0,
        headers[2].1,
    ));
}

proof fn lemma_last_field(
    fields: Fields,
    headers: Seq<(Seq<char>, Seq<char>)>,
    name: Seq<char>,
    i: int,
)
    requires
        0 <= i < headers.len(),
        field_name(headers[i].0) == name,
        forall|j: int| i < j < headers.len() ==> field_name(#[trigger] headers[j].0) != name,
    ensures
        set_fields(fields, headers).contains_key(name),
        set_fields(fields, headers)[name] == seq![encode_utf8(headers[i].1)],
    decreases headers.len(),
{
    let n = headers.len() - 1;
    assert(headers.last() == headers[n]);
    if i < n {
        let fewer = headers.drop_last();
        assert(field_name(headers[n].0) != name);
        assert(fewer[i] == headers[i]);
        assert forall|j: int| i < j < fewer.len() implies field_name(#[trigger] fewer[j].0)
            != name by {
            assert(field_name(headers[j].0) != name);
        }
        lemma_last_field(fields, fewer, name, i);
    }
}

proof fn lemma_named_field(headers: Seq<(Seq<char>, Seq<char>)>, name: Seq<char>)
    requires
        set_fields(Map::empty(), headers).contains_key(name),
    ensures
        exists|i: int| 0 <= i < headers.len() && field_name(#[trigger] headers[i].0) == name,
    decreases headers.len(),
{
    if headers.len() > 0 {
        let n = headers.len() - 1;
        assert(headers.last() == headers[n]);
        if field_name(headers[n].0) != name {
            let fewer = headers.drop_last();
            lemma_named_field(fewer, name);
            let i = choose|i: int|
                0 <= i < fewer.len() && field_name(#[trigger] fewer[i].0) == name;
            assert(field_name(headers[i].0) == name);
        }
    }
}

/// What is sent with a signed request. The authorization names what was signed and
/// ends with the signature that the credential's own secret key makes of it for the
/// service of S3; the time and the checksum of the payload stand beside it. Of the
/// extra headers the last of each name is sent, the host is not, and nothing else
/// is. A request is refused, in this order, for a URL that cannot be parsed, for a
/// header that cannot be carried and for what is no method.
pub proof fn law_signed_request(
    method: Seq<char>,
    url: Seq<char>,
    extra: Seq<(Seq<char>, Seq<char>)>,
    payload: Option<Seq<u8>>,
    access_key: Seq<char>,
    secret_key: Seq<char>,
    region: Seq<char>,
    unix_seconds: int,
)
    ensures
        ({
            let headers = seq![("host"@, host_of(url))] + extra;
            let request = SignableParts { method, url, headers, payload };
            let options = SigningOptions {
                path_encoding: PathEncoding::Single,
                payload_checksum: PayloadChecksum::XAmzSha256,
                path_normalization: PathNormalization::Disabled,
                session_token: SessionToken::Include,
            };
            match signed_fields(request, extra, access_key, secret_key, region, unix_seconds) {
                Ok(fields) => {
                    &&& is_uri(url) && are_fields(headers) && is_method(method)
                    &&& fields.contains_key("authorization"@)
                    &&& fields["authorization"@] == seq![
                        encode_utf8(
                            authorization_start(
                                headers,
                                access_key,
                                region,
                                "s3"@,
                                unix_seconds,
                                options,
                            ) + sigv4_signature(
                                request,
                                secret_key,
                                region,
                                "s3"@,
                                unix_seconds,
                                options,
                            ),
                        ),
                    ]
                    &&& fields.contains_key("x-amz-date"@)
                    &&& fields["x-amz-date"@] == seq![encode_utf8(utc_time(unix_seconds))]
                    &&& fields.contains_key("x-amz-content-sha256"@)
                    &&& fields["x-amz-content-sha256"@] == seq![
                        encode_utf8(
                            match payload {
                                Some(bytes) => hex_text(signer_digest(bytes)),
                                None => "UNSIGNED-PAYLOAD"@,
                            },
                        ),
                    ]
                    &&& !fields.contains_key("host"@)
                    &&& forall|i: int|
                        0 <= i < extra.len() && field_name(extra[i].0) != "host"@ && field_name(
                            extra[i].0,
                        ) != "authorization"@ && field_name(extra[i].0) != "x-amz-date"@
                            && field_name(extra[i].0) != "x-amz-content-sha256"@ && (forall|j: int|
                            i < j < extra.len() ==> field_name(#[trigger] extra[j].0) != field_name(
                                extra[i].0,
                            )) ==> fields.contains_key(field_name(#[trigger] extra[i].0))
                            && fields[field_name(extra[i].0)] == seq![encode_utf8(extra[i].1)]
                    &&& forall|name: Seq<char>| #[trigger]
                        fields.contains_key(name) ==> name == "authorization"@ || name
                            == "x-amz-date"@ || name == "x-amz-content-sha256"@ || exists|i: int|
                            0 <= i < extra.len() && field_name(#[trigger] extra[i].0) == name
                },
                Err(ErrorView::SignableRequest(e)) => !is_uri(url) && e
                    == "failed to create canonical request"@,
                Err(ErrorView::Sign(e)) => is_uri(url) && !are_fields(headers) && e
                    == "failed to create canonical request"@,
                Err(ErrorView::BuildRequest(e)) => is_uri(url) && are_fields(headers)
                    && !is_method(method) && e == "invalid HTTP method"@,
                Err(_) => false,
            }
        }),
{
    let headers = seq![("host"@, host_of(url))] + extra;
    let request = SignableParts { method, url, headers, payload };
    if is_uri(url) && are_fields(headers) && is_method(method) {
        let fields = set_fields(Map::empty(), headers);
        let signature = sigv4_signature(
            request,
            secret_key,
            region,
            SERVICE@,
            unix_seconds,
            s3_options(),
        );
        let added = signature_headers(
            request,
            access_key,
            region,
            SERVICE@,
            unix_seconds,
            s3_options(),
            payload_checksum_text(payload),
            signature,
        );
        lemma_signature_fields(fields, added);
        let signed = set_fields(fields, added).remove("host"@);
        assert forall|i: int|
            0 <= i < extra.len() && field_name(extra[i].0) != "host"@ && field_name(extra[i].0)
                != "authorization"@ && field_name(extra[i].0) != "x-amz-date"@ && field_name(
                extra[i].0,
            ) != "x-amz-content-sha256"@ && (forall|j: int|
                i < j < extra.len() ==> field_name(#[trigger] extra[j].0) != field_name(
                    extra[i].0,
                )) implies signed.contains_key(field_name(#[trigger] extra[i].0))
            && signed[field_name(extra[i].0)] == seq![encode_utf8(extra[i].1)] by {
            let name = field_name(extra[i].0);
            assert(headers[i + 1] == extra[i]);
            assert forall|j: int| i + 1 < j < headers.len() implies field_name(
                #[trigger] headers[j].0,
            ) != name by {
                assert(headers[j] == extra[j - 1]);
                assert(field_name(extra[j - 1].0) != name);
            }
            lemma_last_field(Map::empty(), headers, name, i + 1);
            assert(signed.contains_key(name) == fields.contains_key(name));
        }
        assert forall|name: Seq<char>| #[trigger] signed.contains_key(name) implies name
            == "authorization"@ || name == "x-amz-date"@ || name == "x-amz-content-sha256"@
            || exists|i: int| 0 <= i < extra.len() && field_name(#[trigger] extra[i].0) == name by {
            lemma_known_names();
            if name != "authorization"@ && name != "x-amz-date"@ && name
                != "x-amz-content-sha256"@ {
                assert(fields.contains_key(name));
                lemma_named_field(headers, name);
                let k = choose|k: int|
                    0 <= k < headers.len() && field_name(#[trigger] headers[k].0) == name;
                assert(k != 0);
                assert(field_name(extra[k - 1].0) == name);
            }
        }
    }
}

/// Signs a request with the outside signer, and puts the headers together that are
/// sent with it.
fn signed_headers(
    method: &str,
    url: &str,
    credential: &Credential,
    region: &str,
    extra_headers: &[(&'static str, &str)],
    payload: Option<&[u8]>,
    time: SystemTime,
) -> (r: Result<HeaderMap<HeaderValue>, ScrubError>)
    requires
        is_request_to_sign(
            url@,
            extra_view(extra_headers@),
            credential.access_key@,
            region@,
            unix_seconds(time),
        ),
    ensures
        ({
            let extra = extra_view(extra_headers@);
            let parts = request_parts(method@, url@, extra, payload_view(payload));
            let outcome = signed_fields(
                parts,
                extra,
                credential.access_key@,
                credential.secret_key@,
                region@,
                unix_seconds(time),
            );
            match r {
                Ok(headers) => {
                    let fields = header_fields(headers);
                    &&& outcome == Ok::<Fields, ErrorView>(fields)
                    &&& is_uri(url@) && are_fields(parts.headers) && is_method(method@)
                    &&& has_signature(fields)
                    &&& !fields.contains_key("host"@)
                    &&& keeps_other_fields(set_fields(Map::empty(), parts.headers), fields)
                    &&& fields["x-amz-date"@] == seq![encode_utf8(utc_time(unix_seconds(time)))]
                    &&& fields["x-amz-content-sha256"@] == seq![
                        encode_utf8(payload_checksum_text(payload_view(payload))),
                    ]
                },
                Err(e) => {
                    &&& outcome == Err::<Fields, ErrorView>(e@)
                    &&& e is SignableRequest || e is Sign || e is BuildRequest
                    &&& e is SignableRequest <==> !is_uri(url@)
                    &&& e is Sign <==> is_uri(url@) && !are_fields(parts.headers)
                    &&& e is BuildRequest <==> is_uri(url@) && are_fields(parts.headers)
                        && !is_method(method@)
                },
            }
        }),
{
    let ghost extra = extra_view(extra_headers@);
    let ghost parts = request_parts(method@, url@, extra, payload_view(payload));
    proof {
        lemma_known_names();
    }
    let settings = signing_settings(
        SigningOptions {
            path_encoding: PathEncoding::Single,
            payload_checksum: PayloadChecksum::XAmzSha256,
            path_normalization: PathNormalization::Disabled,
            session_token: SessionToken::Include,
        },
    );
    let host = host_from_url(url);
    let mut headers: Vec<(&str, &str)> = Vec::new();
    headers.push(("host", host));
    for i in 0..extra_headers.len()
        invariant
            headers@.len() == i + 1,
            headers@[0].0@ == "host"@,
            headers@[0].1@ == host_of(url@),
            forall|j: int|
                0 <= j < i ==> (#[trigger] headers@[j + 1]).0@ == extra_headers@[j].0@ && headers@[j
                    + 1].1@ == extra_headers@[j].1@,
    {
        headers.push((extra_headers[i].0, extra_headers[i].1));
    }
    proof {
        let view = pairs_view(headers@);
        assert forall|k: int|
            0 <= k < view.len() implies view[k] == #[trigger] parts.headers[k] by {
            if k > 0 {
                let j = k - 1;
                assert(headers@[j + 1].0@ == extra_headers@[j].0@);
            }
        }
        assert(view =~= parts.headers);
    }
    let signable = match signable_request(method, url, headers.as_slice(), payload) {
        Ok(signable) => signable,
        Err(e) => {
            return Err(ScrubError::SignableRequest(e));
        },
    };
    proof {
        assert(parts.headers[0].0 == "host"@);
        assert forall|i: int| 0 <= i < parts.headers.len() implies is_ascii_chars(
            #[trigger] parts.headers[i].0,
        ) by {
            if i > 0 {
                assert(parts.headers[i] == extra[i - 1]);
                assert(is_ascii_chars(extra[i - 1].0));
            } else {
                reveal_strlit("host");
            }
        }
    }
    let signed = sign_v4(
        signable,
        credential.access_key.as_str(),
        credential.secret_key.as_str(),
        PROVIDER,
        region,
        SERVICE,
        settings,
        time,
    );
    let instructions = match signed {
        Ok(Ok(instructions)) => instructions,
        Ok(Err(e)) => {
            return Err(ScrubError::Sign(e));
        },
        Err(e) => {
            return Err(ScrubError::SigningParams(e));
        },
    };
    proof {
        assert(is_field_value(parts.headers[0].1));
    }
    let mut request = match build_request(method, url, host) {
        Ok(request) => request,
        Err(e) => {
            return Err(ScrubError::BuildRequest(e));
        },
    };
    let ghost only_host = Map::<Seq<char>, Seq<Seq<u8>>>::empty();
    proof {
        reveal_with_fuel(set_fields, 2);
        let first = headers_to_sign(url@, extra).take(1);
        assert(first =~= seq![("host"@, host_of(url@))]);
        assert(first.drop_last() =~= seq![]);
        assert(request_fields(request) == set_fields(only_host, first));
        lemma_set_fields_room(only_host, first, (MAX_FIELDS - 1) as nat);
    }
    for i in 0..extra_headers.len()
        invariant
            extra_headers@.len() <= MAX_EXTRA_HEADERS,
            extra == extra_view(extra_headers@),
            parts.headers == headers_to_sign(url@, extra),
            are_fields(parts.headers),
            only_host == Map::<Seq<char>, Seq<Seq<u8>>>::empty(),
            request_fields(request) == set_fields(only_host, parts.headers.take(i + 1)),
            has_room(request_fields(request), (MAX_FIELDS - 1 - i) as nat),
    {
        let (name, value) = extra_headers[i];
        let ghost so_far = parts.headers.take(i + 1);
        let ghost next = parts.headers.take(i + 2);
        proof {
            assert(parts.headers[i + 1] == extra[i as int]);
            assert(is_field_name(parts.headers[i + 1].0));
            assert(next.drop_last() =~= so_far);
            assert(next.last() == extra[i as int]);
        }
        match header_value(value) {
            Ok(value) => {
                insert_header(&mut request, name, value);
            },
            Err(reason) => {
                return Err(ScrubError::Header { name: name.to_owned(), reason });
            },
        }
    }
    proof {
        assert(parts.headers.take(parts.headers.len() as int) =~= parts.headers);
        let headers = instruction_headers(instructions);
        assert forall|i: int| 0 <= i < headers.len() implies is_field_name(#[trigger] headers[i].0)
            && is_field_value(headers[i].1) by {
            assert(is_field_value(headers[i].1));
        }
        lemma_signature_fields(set_fields(only_host, parts.headers), headers);
    }
    apply_instructions(instructions, &mut request);
    let mut signed_headers = headers_of(&request);
    remove_header(&mut signed_headers, "host");
    Ok(signed_headers)
}

/// Signs a request and returns the headers to send with it. The host that the
/// URL names is signed along with the extra headers. Without a payload, the body
/// of the request is left unsigned.
pub fn sign_request(
    method: &str,
    url: &str,
    credential: &Credential,
    region: &str,
    extra_headers: &[(&'static str, &str)],
    payload: Option<&[u8]>,
    time: SystemTime,
) -> (r: Result<HeaderMap<HeaderValue>, ScrubError>)
    requires
        is_request_to_sign(
            url@,
            extra_view(extra_headers@),
            credential.access_key@,
            region@,
            unix_seconds(time),
        ),
    ensures
        ({
            let extra = extra_view(extra_headers@);
            let parts = request_parts(method@, url@, extra, payload_view(payload));
            let outcome = signed_fields(
                parts,
                extra,
                credential.access_key@,
                credential.secret_key@,
                region@,
                unix_seconds(time),
            );
            match r {
                Ok(headers) => {
                    let fields = header_fields(headers);
                    &&& outcome == Ok::<Fields, ErrorView>(fields)
                    &&& is_uri(url@) && are_fields(parts.headers) && is_method(method@)
                    &&& has_signature(fields)
                    &&& !fields.contains_key("host"@)
                    &&& keeps_other_fields(set_fields(Map::empty(), parts.headers), fields)
                    &&& fields["x-amz-date"@] == seq![encode_utf8(utc_time(unix_seconds(time)))]
                    &&& fields["x-amz-content-sha256"@] == seq![
                        encode_utf8(payload_checksum_text(payload_view(payload))),
                    ]
                },
                Err(e) => {
                    &&& outcome == Err::<Fields, ErrorView>(e@)
                    &&& e is SignableRequest || e is Sign || e is BuildRequest
                    &&& e is SignableRequest <==> !is_uri(url@)
                    &&& e is Sign <==> is_uri(url@) && !are_fields(parts.headers)
                    &&& e is BuildRequest <==> is_uri(url@) && are_fields(parts.headers)
                        && !is_method(method@)
                },
            }
        }),
        ({
            let extra = Seq::new(
                extra_headers@.len(),
                |i: int| (extra_headers@[i].0@, extra_headers@[i].1@),
            );
            let headers = seq![("host"@, host_of(url@))] + extra;
            let request = SignableParts {
                method: method@,
                url: url@,
                headers,
                payload: match payload {
                    Some(bytes) => Some(bytes@),
                    None => None,
                },
            };
            let options = SigningOptions {
                path_encoding: PathEncoding::Single,
                payload_checksum: PayloadChecksum::XAmzSha256,
                path_normalization: PathNormalization::Disabled,
                session_token: SessionToken::Include,
            };
            match r {
                Ok(signed) => {
                    let fields = header_fields(signed);
                    &&& fields["authorization"@] == seq![
                        encode_utf8(
                            authorization_start(
                                headers,
                                credential.access_key@,
                                region@,
                                "s3"@,
                                unix_seconds(time),
                                options,
                            ) + sigv4_signature(
                                request,
                                credential.secret_key@,
                                region@,
                                "s3"@,
                                unix_seconds(time),
                                options,
                            ),
                        ),
                    ]
                    &&& fields["x-amz-content-sha256"@] == seq![
                        encode_utf8(
                            match payload {
                                Some(bytes) => hex_text(signer_digest(bytes@)),
                                None => "UNSIGNED-PAYLOAD"@,
                            },
                        ),
                    ]
                    &&& forall|i: int|
                        0 <= i < extra.len() && field_name(extra[i].0) != "host"@ && field_name(
                            extra[i].0,
                        ) != "authorization"@ && field_name(extra[i].0) != "x-amz-date"@
                            && field_name(extra[i].0) != "x-amz-content-sha256"@ && (forall|j: int|
                            i < j < extra.len() ==> field_name(#[trigger] extra[j].0) != field_name(
                                extra[i].0,
                            )) ==> fields.contains_key(field_name(#[trigger] extra[i].0))
                            && fields[field_name(extra[i].0)] == seq![encode_utf8(extra[i].1)]
                    &&& forall|name: Seq<char>| #[trigger]
                        fields.contains_key(name) ==> name == "authorization"@ || name
                            == "x-amz-date"@ || name == "x-amz-content-sha256"@ || exists|i: int|
                            0 <= i < extra.len() && field_name(#[trigger] extra[i].0) == name
                },
                Err(ScrubError::SignableRequest(e)) => !is_uri(url@) && e@
                    == "failed to create canonical request"@,
                Err(ScrubError::Sign(e)) => is_uri(url@) && !are_fields(headers) && e@
                    == "failed to create canonical request"@,
                Err(ScrubError::BuildRequest(e)) => is_uri(url@) && are_fields(headers)
                    && !is_method(method@) && e@ == "invalid HTTP method"@,
                Err(_) => false,
            }
        }),
{
    proof {
        let extra = extra_view(extra_headers@);
        assert(extra =~= Seq::new(
            extra_headers@.len(),
            |i: int| (extra_headers@[i].0@, extra_headers@[i].1@),
        ));
        law_signed_request(
            method@,
            url@,
            extra,
            payload_view(payload),
            credential.access_key@,
            credential.secret_key@,
            region@,
            unix_seconds(time),
        );
    }
    signed_headers(method, url, credential, region, extra_headers, payload, time)
}

/// What becomes of the headers to send when a request is signed with another
/// secret key: nothing but the signature changes, which stands at the end of the
/// authorization.
pub proof fn law_secret_key_changes_the_signature_alone(
    request: SignableParts,
    extra: Seq<(Seq<char>, Seq<char>)>,
    access_key: Seq<char>,
    secret_key: Seq<char>,
    other_key: Seq<char>,
    region: Seq<char>,
    unix_seconds: int,
)
    ensures
        ({
            let one = signed_fields(request, extra, access_key, secret_key, region, unix_seconds);
            let other = signed_fields(request, extra, access_key, other_key, region, unix_seconds);
            match (one, other) {
                (Ok(one), Ok(other)) => {
                    let start = encode_utf8(
                        authorization_start(
                            request.headers,
                            access_key,
                            region,
                            SERVICE@,
                            unix_seconds,
                            s3_options(),
                        ),
                    );
                    &&& one.dom() == other.dom()
                    &&& forall|name: Seq<char>|
                        name != "authorization"@ && #[trigger] one.contains_key(name) ==> one[name]
                            == other[name]
                    &&& exists|signature: Seq<char>|
                        one["authorization"@] == seq![start + #[trigger] encode_utf8(signature)]
                    &&& exists|signature: Seq<char>|
                        other["authorization"@] == seq![start + #[trigger] encode_utf8(signature)]
                },
                (Err(e), Err(f)) => e == f,
                _ => false,
            }
        }),
{
    if is_uri(request.url) && are_fields(request.headers) && is_method(request.method) {
        let options = s3_options();
        let fields = set_fields(Map::empty(), headers_to_sign(request.url, extra));
        let start = authorization_start(
            request.headers,
            access_key,
            region,
            SERVICE@,
            unix_seconds,
            options,
        );
        let s = sigv4_signature(request, secret_key, region, SERVICE@, unix_seconds, options);
        let t = sigv4_signature(request, other_key, region, SERVICE@, unix_seconds, options);
        let a = signature_headers(
            request,
            access_key,
            region,
            SERVICE@,
            unix_seconds,
            options,
            payload_checksum_text(request.payload),
            s,
        );
        let b = signature_headers(
            request,
            access_key,
            region,
            SERVICE@,
            unix_seconds,
            options,
            payload_checksum_text(request.payload),
            t,
        );
        lemma_signature_fields(fields, a);
        lemma_signature_fields(fields, b);
        lemma_encode_concat(start, s);
        lemma_encode_concat(start, t);
        let one = set_fields(fields, a).remove("host"@);
        let other = set_fields(fields, b).remove("host"@);
        assert forall|name: Seq<char>| one.contains_key(name) == other.contains_key(name) by {
            assert(one.contains_key(name) == other.contains_key(name));
        }
        assert(one.dom() =~= other.dom());
    }
}

/// Whether a request can be given to the signer.
pub fn can_be_signed(
    method: &str,
    url: &str,
    credential: &Credential,
    region: &str,
    extra_headers: &[(&'static str, &str)],
    time: &SystemTime,
) -> (r: bool)
    ensures
        r == is_request_to_sign(
            url@,
            extra_view(extra_headers@),
            credential.access_key@,
            region@,
            unix_seconds(*time),
        ),
        r <==> {
            &&& is_safe_url(url@) || !is_uri(url@)
            &&& is_field_value(credential.access_key@)
            &&& is_field_value(region@)
            &&& extra_headers@.len() <= MAX_FIELDS - 4
            &&& forall|i: int|
                0 <= i < extra_headers@.len() ==> is_ascii_chars(#[trigger] extra_headers@[i].0@)
            &&& is_signing_time(unix_seconds(*time))
        },
{
    proof {
        let extra = extra_view(extra_headers@);
        assert((forall|i: int| 0 <= i < extra.len() ==> is_ascii_chars(#[trigger] extra[i].0))
            <==> (forall|i: int|
            0 <= i < extra_headers@.len() ==> is_ascii_chars(#[trigger] extra_headers@[i].0@))) by {
            if forall|i: int| 0 <= i < extra.len() ==> is_ascii_chars(#[trigger] extra[i].0) {
                assert forall|i: int| 0 <= i < extra_headers@.len() implies is_ascii_chars(
                    #[trigger] extra_headers@[i].0@,
                ) by {
                    assert(is_ascii_chars(extra[i].0));
                }
            }
        }
    }
    if extra_headers.len() > MAX_EXTRA_HEADERS || !can_be_signed_at(time) {
        return false;
    }
    let ghost extra = extra_view(extra_headers@);
    for i in 0..extra_headers.len()
        invariant
            extra == extra_view(extra_headers@),
            forall|j: int| 0 <= j < i ==> is_ascii_chars(#[trigger] extra[j].0),
    {
        if !extra_headers[i].0.is_ascii() {
            assert(!is_ascii_chars(extra[i as int].0));
            return false;
        }
    }
    let none: Vec<(&str, &str)> = Vec::new();
    fits_in_header(credential.access_key.as_str()) && fits_in_header(region) && (fits_signature(url)
        || signable_request(method, url, none.as_slice(), None).is_err())
}

/// Signs a request if it can be given to the signer, and returns `None` if not.
pub fn try_sign_request(
    method: &str,
    url: &str,
    credential: &Credential,
    region: &str,
    extra_headers: &[(&'static str, &str)],
    payload: Option<&[u8]>,
    time: SystemTime,
) -> (r: Option<Result<HeaderMap<HeaderValue>, ScrubError>>)
    ensures
        ({
            let extra = extra_view(extra_headers@);
            let outcome = signed_fields(
                request_parts(method@, url@, extra, payload_view(payload)),
                extra,
                credential.access_key@,
                credential.secret_key@,
                region@,
                unix_seconds(time),
            );
            match r {
                Some(Ok(headers)) => outcome == Ok::<Fields, ErrorView>(header_fields(headers)),
                Some(Err(e)) => outcome == Err::<Fields, ErrorView>(e@),
                None => true,
            }
        }),
        r is Some <==> is_request_to_sign(
            url@,
            extra_view(extra_headers@),
            credential.access_key@,
            region@,
            unix_seconds(time),
        ),
{
    if can_be_signed(method, url, credential, region, extra_headers, &time) {
        Some(sign_request(method, url, credential, region, extra_headers, payload, time))
    } else {
        None
    }
}

/// Whether a time can be signed for, by its distance from the Unix epoch in seconds
/// and nanoseconds: `Ok` of the time after it, `Err` of the time before it.
pub fn distance_can_be_signed(distance: Result<(u64, u32), (u64, u32)>) -> (r: bool)
    ensures
        r == is_signing_time(whole_seconds(distance)),
        match distance {
            Ok((seconds, nanos)) => r <==> seconds <= 253_402_300_799,
            Err((seconds, nanos)) => r <==> seconds < 377_705_116_800 || (seconds
                == 377_705_116_800 && nanos == 0),
        },
{
    match distance {
        Ok((seconds, _)) => seconds <= 253_402_300_799,
        Err((seconds, nanos)) => seconds < 377_705_116_800 || (seconds == 377_705_116_800 && nanos
            == 0),
    }
}

/// Whether a time can be signed for.
pub fn can_be_signed_at(time: &SystemTime) -> (r: bool)
    ensures
        r == is_signing_time(unix_seconds(*time)),
        r <==> -377_705_116_800 <= unix_seconds(*time) <= 253_402_300_799,
{
    distance_can_be_signed(since_epoch(time))
}

/// The time to sign for now, by the machine's clock: `None` at a time that a
/// signature cannot carry. What the clock shows is left open.
pub fn current_signing_time() -> (r: Option<SystemTime>)
    ensures
        exists|time: SystemTime|
            match r {
                Some(t) => t == time && is_signing_time(#[trigger] unix_seconds(time)),
                None => !is_signing_time(unix_seconds(time)),
            },
{
    let time = clock_now();
    let ghost shown = time;
    let r = if can_be_signed_at(&time) {
        Some(time)
    } else {
        None
    };
    assert(match r {
        Some(t) => t == shown && is_signing_time(unix_seconds(shown)),
        None => !is_signing_time(unix_seconds(shown)),
    });
    r
}

/// Whether a text can be the value of a header.
pub fn fits_in_header(text: &str) -> (r: bool)
    ensures
        r == is_field_value(text@),
        r <==> forall|i: int|
            0 <= i < text@.len() ==> #[trigger] text@[i] == '\t' || (text@[i] as u32 >= 32
                && text@[i] as u32 != 127),
{
    for c in it: text.chars()
        invariant
            it.seq() == text@,
            forall|i: int|
                0 <= i < it.index() ==> text@[i] == '\t' || (32 <= #[trigger] text@[i] as u32
                    && text@[i] as u32 != 127),
    {
        if c != '\t' && ((c as u32) < 32 || c as u32 == 127) {
            return false;
        }
    }
    true
}

} // verus!
