//! The two exchanges with the S3 endpoint: a page of a listing, and a deletion.

use crate::config::{Credential, Target};
use crate::encoding::sha256_base64;
use crate::error::ScrubError;
use crate::outside::{status_line, utf8_text};
use crate::query::fits_signature;
use crate::sign::{fits_in_header, sign_request};
use crate::text::holds_char;
use crate::url::{build_delete_url, build_list_url};
use http::{HeaderMap, HeaderValue};
use std::time::SystemTime;
use vstd::prelude::*;
use vstd::utf8::{encode_utf8, valid_utf8};

#[allow(unused_imports)]
use crate::date::utc_time;
#[allow(unused_imports)]
use crate::text::decimal;
#[allow(unused_imports)]
use crate::encoding::{checksum, law_base64_can_be_sent};
#[allow(unused_imports)]
use crate::error::ErrorView;
#[allow(unused_imports)]
use crate::outside::{
    authorization_start, base64_text, header_fields, is_field_value, is_signing_time, is_uri,
    is_utf8_fault, percent_encoded, sha256, sigv4_signature, starts_with, status_text,
    unix_seconds, utf8_fault, Fields, PathEncoding, PathNormalization, PayloadChecksum,
    SessionToken, SignableParts, SigningOptions,
};
#[allow(unused_imports)]
use crate::query::{is_safe_url, law_deletion_fits, law_listing_fits};
#[allow(unused_imports)]
use crate::sign::{has_signature, request_parts, signed_fields};
#[allow(unused_imports)]
use crate::url::{delete_url, host_of, list_url, optional_text};

verus! {

/// How many keys a page of a listing may hold.
pub const LIST_PAGE_SIZE: u32 = 1000;

/// A request that is ready to be sent.
pub struct SignedRequest {
    pub url: String,
    pub headers: HeaderMap<HeaderValue>,
}

/// A deletion that is ready to be sent, with its body.
pub struct SignedDeletion {
    pub url: String,
    pub headers: HeaderMap<HeaderValue>,
    pub body: String,
}

/// A page of a bucket's listing can be asked for: neither the base URL nor the
/// bucket begins a query of its own, or its URL can be signed for all the same.
pub open spec fn is_page_to_list(
    base_url: Seq<char>,
    bucket: Seq<char>,
    prefix: Option<Seq<char>>,
    continuation_token: Option<Seq<char>>,
    max_keys: nat,
) -> bool {
    ||| !base_url.contains('?') && !bucket.contains('?')
    ||| is_safe_url(list_url(base_url, bucket, prefix, continuation_token, max_keys))
}

/// A deletion can be asked for: the base URL has a scheme and neither it nor the
/// bucket begins a query of its own, or its URL can be signed for all the same.
pub open spec fn is_deletion_to_ask(base_url: Seq<char>, bucket: Seq<char>) -> bool {
    ||| {
        &&& starts_with(base_url, "http://"@) || starts_with(base_url, "https://"@)
        &&& !base_url.contains('?') && !bucket.contains('?')
    }
    ||| is_safe_url(delete_url(base_url, bucket))
}

/// The headers authorize a request: they hold what was signed and the signature
/// that the credential's secret key makes of it.
pub open spec fn is_authorized(
    fields: Fields,
    request: SignableParts,
    credential: Credential,
    region: Seq<char>,
    unix_seconds: int,
) -> bool {
    let options = SigningOptions {
        path_encoding: PathEncoding::Single,
        payload_checksum: PayloadChecksum::XAmzSha256,
        path_normalization: PathNormalization::Disabled,
        session_token: SessionToken::Include,
    };
    &&& fields.contains_key("authorization"@)
    &&& fields["authorization"@] == seq![
        encode_utf8(
            authorization_start(
                request.headers,
                credential.access_key@,
                region,
                "s3"@,
                unix_seconds,
                options,
            ) + sigv4_signature(
                request,
                credential.secret_key@,
                region,
                "s3"@,
                unix_seconds,
                options,
            ),
        ),
    ]
    &&& fields.contains_key("x-amz-date"@)
    &&& fields["x-amz-date"@] == seq![encode_utf8(utc_time(unix_seconds))]
    &&& fields.contains_key("x-amz-content-sha256"@)
    &&& request.payload is None ==> fields["x-amz-content-sha256"@] == seq![
        encode_utf8("UNSIGNED-PAYLOAD"@),
    ]
}

/// Whoever is authorized to a request has sent the signature that the secret key
/// makes of that request, for that time and region.
pub proof fn law_authorized(
    fields: Fields,
    request: SignableParts,
    credential: Credential,
    region: Seq<char>,
    unix_seconds: int,
)
    requires
        is_authorized(fields, request, credential, region, unix_seconds),
    ensures
        ({
            let options = SigningOptions {
                path_encoding: PathEncoding::Single,
                payload_checksum: PayloadChecksum::XAmzSha256,
                path_normalization: PathNormalization::Disabled,
                session_token: SessionToken::Include,
            };
            fields.contains_key("authorization"@) && fields["authorization"@] == seq![
                encode_utf8(
                    authorization_start(
                        request.headers,
                        credential.access_key@,
                        region,
                        "s3"@,
                        unix_seconds,
                        options,
                    ) + sigv4_signature(
                        request,
                        credential.secret_key@,
                        region,
                        "s3"@,
                        unix_seconds,
                        options,
                    ),
                ),
            ]
        }),
        fields["x-amz-date"@] == seq![encode_utf8(utc_time(unix_seconds))],
        request.payload is None ==> fields["x-amz-content-sha256"@] == seq![
            encode_utf8("UNSIGNED-PAYLOAD"@),
        ],
{
}

/// Makes the request for one page of a bucket's listing.
pub fn list_objects_request(
    base_url: &str,
    region: &str,
    credential: &Credential,
    bucket: &str,
    prefix: Option<&str>,
    continuation_token: Option<&str>,
    max_keys: u32,
    time: SystemTime,
) -> (r: Result<SignedRequest, ScrubError>)
    requires
        is_page_to_list(
            base_url@,
            bucket@,
            optional_text(prefix),
            optional_text(continuation_token),
            max_keys as nat,
        ),
        is_field_value(credential.access_key@),
        is_field_value(region@),
        is_signing_time(unix_seconds(time)),
    ensures
        ({
            let url = list_url(
                base_url@,
                bucket@,
                optional_text(prefix),
                optional_text(continuation_token),
                max_keys as nat,
            );
            let outcome = signed_fields(
                request_parts("GET"@, url, seq![], None),
                seq![],
                credential.access_key@,
                credential.secret_key@,
                region@,
                unix_seconds(time),
            );
            match r {
                Ok(request) => {
                    &&& request.url@ == url
                    &&& outcome == Ok::<Fields, ErrorView>(header_fields(request.headers))
                    &&& has_signature(header_fields(request.headers))
                },
                Err(e) => outcome == Err::<Fields, ErrorView>(e@),
            }
        }),
        ({
            let url = list_url(
                base_url@,
                bucket@,
                optional_text(prefix),
                optional_text(continuation_token),
                max_keys as nat,
            );
            r is Ok <==> is_uri(url) && is_field_value(host_of(url))
        }),
        r matches Ok(request) ==> {
            let url = request.url@;
            let fields = header_fields(request.headers);
            let headers = seq![("host"@, host_of(url))];
            &&& url == base_url@ + "/"@ + bucket@ + "?list-type=2&max-keys="@ + decimal(
                max_keys as nat,
            ) + (match prefix {
                Some(prefix) => "&prefix="@ + percent_encoded(encode_utf8(prefix@)),
                None => seq![],
            }) + (match continuation_token {
                Some(token) => "&continuation-token="@ + percent_encoded(encode_utf8(token@)),
                None => seq![],
            })
            &&& is_authorized(
                fields,
                SignableParts { method: "GET"@, url, headers, payload: None },
                *credential,
                region@,
                unix_seconds(time),
            )
            &&& forall|name: Seq<char>| #[trigger]
                fields.contains_key(name) ==> name == "authorization"@ || name == "x-amz-date"@
                    || name == "x-amz-content-sha256"@
        },
{
    let url = build_list_url(base_url, bucket, prefix, continuation_token, max_keys);
    let extra: Vec<(&'static str, &str)> = Vec::new();
    proof {
        assert(crate::sign::extra_view(extra@) =~= seq![]);
        crate::sign::lemma_host_alone(url@);
        crate::sign::lemma_methods();
        if !base_url@.contains('?') && !bucket@.contains('?') {
            law_listing_fits(
                base_url@,
                bucket@,
                optional_text(prefix),
                optional_text(continuation_token),
                max_keys as nat,
            );
        }
    }
    match sign_request(
        "GET",
        url.as_str(),
        credential,
        region,
        extra.as_slice(),
        None,
        time,
    ) {
        Ok(headers) => {
            proof {
                let none = Seq::new(
                    extra@.len(),
                    |i: int| (extra@[i].0@, extra@[i].1@),
                );
                assert(seq![("host"@, host_of(url@))] + none =~= seq![("host"@, host_of(url@))]);
            }
            Ok(SignedRequest { url, headers })
        },
        Err(e) => Err(e),
    }
}

/// Makes the request for a deletion from a bucket, with the body that names the
/// objects. The checksum of the body is sent and signed with it.
pub fn delete_objects_request(
    base_url: &str,
    region: &str,
    credential: &Credential,
    bucket: &str,
    body: String,
    time: SystemTime,
) -> (r: Result<SignedDeletion, ScrubError>)
    requires
        is_deletion_to_ask(base_url@, bucket@),
        is_field_value(credential.access_key@),
        is_field_value(region@),
        is_signing_time(unix_seconds(time)),
    ensures
        ({
            let url = delete_url(base_url@, bucket@);
            let sum = checksum(encode_utf8(body@));
            let extra = seq![("x-amz-checksum-sha256"@, sum)];
            let outcome = signed_fields(
                request_parts("POST"@, url, extra, None),
                extra,
                credential.access_key@,
                credential.secret_key@,
                region@,
                unix_seconds(time),
            );
            match r {
                Ok(request) => {
                    let fields = header_fields(request.headers);
                    &&& request.url@ == url
                    &&& request.body@ == body@
                    &&& outcome == Ok::<Fields, ErrorView>(fields)
                    &&& has_signature(fields)
                    &&& fields.contains_key("x-amz-checksum-sha256"@)
                    &&& fields["x-amz-checksum-sha256"@] == seq![encode_utf8(sum)]
                },
                Err(e) => outcome == Err::<Fields, ErrorView>(e@),
            }
        }),
        ({
            let url = delete_url(base_url@, bucket@);
            r is Ok <==> is_uri(url) && is_field_value(host_of(url))
        }),
        r matches Ok(request) ==> {
            let url = request.url@;
            let fields = header_fields(request.headers);
            let sum = base64_text(sha256(encode_utf8(request.body@)));
            let headers = seq![("host"@, host_of(url)), ("x-amz-checksum-sha256"@, sum)];
            &&& url == base_url@ + "/"@ + bucket@ + "?delete"@
            &&& request.body@ == body@
            &&& fields.contains_key("x-amz-checksum-sha256"@)
            &&& fields["x-amz-checksum-sha256"@] == seq![encode_utf8(sum)]
            &&& is_authorized(
                fields,
                SignableParts { method: "POST"@, url, headers, payload: None },
                *credential,
                region@,
                unix_seconds(time),
            )
            &&& forall|name: Seq<char>| #[trigger]
                fields.contains_key(name) ==> name == "authorization"@ || name == "x-amz-date"@
                    || name == "x-amz-content-sha256"@ || name == "x-amz-checksum-sha256"@
        },
{
    let url = build_delete_url(base_url, bucket);
    let sum = sha256_base64(body.as_str().as_bytes());
    let mut extra: Vec<(&'static str, &str)> = Vec::new();
    extra.push(("x-amz-checksum-sha256", sum.as_str()));
    proof {
        crate::sign::lemma_checksum_name();
        crate::sign::lemma_methods();
        law_base64_can_be_sent(sha256(encode_utf8(body@)));
        crate::sign::lemma_host_and_one(url@, "x-amz-checksum-sha256"@, sum@);
        if !is_safe_url(delete_url(base_url@, bucket@)) {
            law_deletion_fits(base_url@, bucket@);
        }
        assert(crate::sign::extra_view(extra@) =~= seq![
            ("x-amz-checksum-sha256"@, checksum(encode_utf8(body@))),
        ]);
    }
    match sign_request(
        "POST",
        url.as_str(),
        credential,
        region,
        extra.as_slice(),
        None,
        time,
    ) {
        Ok(headers) => {
            proof {
                crate::sign::lemma_checksum_field(url@, sum@);
                let one = Seq::new(extra@.len(), |i: int| (extra@[i].0@, extra@[i].1@));
                assert(one =~= seq![("x-amz-checksum-sha256"@, sum@)]);
                assert(seq![("host"@, host_of(url@))] + one =~= seq![
                    ("host"@, host_of(url@)),
                    ("x-amz-checksum-sha256"@, sum@),
                ]);
            }
            Ok(SignedDeletion { url, headers, body })
        },
        Err(e) => Err(e),
    }
}

/// The URL of a page of a listing, at the size at which pages are asked for.
pub open spec fn page_url(
    base_url: Seq<char>,
    bucket: Seq<char>,
    prefix: Option<Seq<char>>,
    continuation_token: Option<Seq<char>>,
) -> Seq<char> {
    list_url(base_url, bucket, prefix, continuation_token, LIST_PAGE_SIZE as nat)
}

/// What can stand in the headers of a signature.
pub open spec fn is_signer(target: Target) -> bool {
    is_field_value(target.credential.access_key@) && is_field_value(target.region@)
}

impl Target {
    /// Whether requests to this endpoint can carry their signatures.
    pub fn can_sign(&self) -> (r: bool)
        ensures
            r == is_signer(*self),
            r <==> is_field_value(self.credential.access_key@) && is_field_value(self.region@),
    {
        fits_in_header(self.credential.access_key.as_str()) && fits_in_header(
            self.region.as_str(),
        )
    }

    /// Whether a page of a listing can be asked for.
    pub fn can_list(
        &self,
        bucket: &str,
        prefix: Option<&str>,
        continuation_token: Option<&str>,
    ) -> (r: bool)
        ensures
            r == is_page_to_list(
                self.base_url@,
                bucket@,
                optional_text(prefix),
                optional_text(continuation_token),
                LIST_PAGE_SIZE as nat,
            ),
            !self.base_url@.contains('?') && !bucket@.contains('?') ==> r,
            r <==> (!self.base_url@.contains('?') && !bucket@.contains('?')) || is_safe_url(
                list_url(
                    self.base_url@,
                    bucket@,
                    optional_text(prefix),
                    optional_text(continuation_token),
                    1000,
                ),
            ),
    {
        (!holds_char(self.base_url.as_str(), '?') && !holds_char(bucket, '?')) || fits_signature(
            build_list_url(
                self.base_url.as_str(),
                bucket,
                prefix,
                continuation_token,
                LIST_PAGE_SIZE,
            ).as_str(),
        )
    }

    /// Whether a deletion can be asked for.
    pub fn can_delete(&self, bucket: &str) -> (r: bool)
        ensures
            r == is_deletion_to_ask(self.base_url@, bucket@),
            r <==> is_safe_url(delete_url(self.base_url@, bucket@)),
    {
        proof {
            if !is_safe_url(delete_url(self.base_url@, bucket@)) && is_deletion_to_ask(
                self.base_url@,
                bucket@,
            ) {
                law_deletion_fits(self.base_url@, bucket@);
            }
        }
        fits_signature(build_delete_url(self.base_url.as_str(), bucket).as_str())
    }

    /// Makes the request for one page of a bucket's listing.
    pub fn list_page(
        &self,
        bucket: &str,
        prefix: Option<&str>,
        continuation_token: Option<&str>,
        time: SystemTime,
    ) -> (r: Result<SignedRequest, ScrubError>)
        requires
            is_signer(*self),
            is_page_to_list(
                self.base_url@,
                bucket@,
                optional_text(prefix),
                optional_text(continuation_token),
                LIST_PAGE_SIZE as nat,
            ),
            is_signing_time(unix_seconds(time)),
        ensures
            ({
                let url = page_url(
                    self.base_url@,
                    bucket@,
                    optional_text(prefix),
                    optional_text(continuation_token),
                );
                let outcome = signed_fields(
                    request_parts("GET"@, url, seq![], None),
                    seq![],
                    self.credential.access_key@,
                    self.credential.secret_key@,
                    self.region@,
                    unix_seconds(time),
                );
                match r {
                    Ok(request) => {
                        &&& request.url@ == url
                        &&& outcome == Ok::<Fields, ErrorView>(header_fields(request.headers))
                        &&& has_signature(header_fields(request.headers))
                    },
                    Err(e) => outcome == Err::<Fields, ErrorView>(e@),
                }
            }),
            ({
                let url = page_url(
                    self.base_url@,
                    bucket@,
                    optional_text(prefix),
                    optional_text(continuation_token),
                );
                r is Ok <==> is_uri(url) && is_field_value(host_of(url))
            }),
            r matches Ok(request) ==> {
                let url = request.url@;
                let headers = seq![("host"@, host_of(url))];
                &&& url == self.base_url@ + "/"@ + bucket@ + "?list-type=2&max-keys=1000"@ + (
                match prefix {
                    Some(prefix) => "&prefix="@ + percent_encoded(encode_utf8(prefix@)),
                    None => seq![],
                }) + (match continuation_token {
                    Some(token) => "&continuation-token="@ + percent_encoded(encode_utf8(token@)),
                    None => seq![],
                })
                &&& is_authorized(
                    header_fields(request.headers),
                    SignableParts { method: "GET"@, url, headers, payload: None },
                    self.credential,
                    self.region@,
                    unix_seconds(time),
                )
            },
    {
        proof {
            reveal_strlit("?list-type=2&max-keys=");
            reveal_strlit("?list-type=2&max-keys=1000");
            reveal_with_fuel(decimal, 5);
            assert(decimal(1000) =~= seq!['1', '0', '0', '0']);
            assert("?list-type=2&max-keys="@ + decimal(1000) =~= "?list-type=2&max-keys=1000"@);
            let head = self.base_url@ + "/"@ + bucket@;
            assert(head + "?list-type=2&max-keys="@ + decimal(1000) =~= head
                + "?list-type=2&max-keys=1000"@);
        }
        list_objects_request(
            self.base_url.as_str(),
            self.region.as_str(),
            &self.credential,
            bucket,
            prefix,
            continuation_token,
            LIST_PAGE_SIZE,
            time,
        )
    }
}

/// A status that says that a request succeeded.
pub open spec fn is_success(status: u16) -> bool {
    200 <= status < 300
}

/// Reads the answer to a listing: the text of the page, or why there is none. An
/// answer that is no text is told as that, whatever its status.
pub fn list_response_text<'a>(bucket: &str, status: u16, body: &'a [u8]) -> (r: Result<
    &'a str,
    ScrubError,
>)
    requires
        100 <= status <= 999,
    ensures
        match r {
            Ok(text) => is_success(status) && encode_utf8(text@) == body@,
            Err(e) => if valid_utf8(body@) {
                !is_success(status) && e@ == (ErrorView::ListRefused {
                    bucket: bucket@,
                    status: status_text(status),
                    body: vstd::utf8::decode_utf8(body@),
                })
            } else {
                e@ matches ErrorView::ListNotUtf8(fault) && is_utf8_fault(body@, fault)
            },
        },
        r is Ok <==> valid_utf8(body@) && is_success(status),
        match r {
            Ok(text) => 200 <= status < 300 && encode_utf8(text@) == body@,
            Err(ScrubError::ListNotUtf8(e)) => !valid_utf8(body@) && is_utf8_fault(
                body@,
                utf8_fault(e),
            ),
            Err(ScrubError::ListRefused { bucket: b, status: s, body: text }) => {
                &&& !(200 <= status < 300)
                &&& b@ == bucket@
                &&& s@ == status_text(status)
                &&& encode_utf8(text@) == body@
            },
            Err(_) => false,
        },
{
    match utf8_text(body) {
        Err(e) => Err(ScrubError::ListNotUtf8(e)),
        Ok(text) => {
            proof {
                vstd::utf8::encode_utf8_decode_utf8(text@);
            }
            if 200 <= status && status < 300 {
                Ok(text)
            } else {
                Err(
                    ScrubError::ListRefused {
                        bucket: bucket.to_owned(),
                        status: status_line(status),
                        body: text.to_owned(),
                    },
                )
            }
        },
    }
}

/// Reads the answer to a deletion: the text of the result, or why there is none.
/// An answer that is no text is told as that, whatever its status.
pub fn delete_response_text<'a>(bucket: &str, status: u16, body: &'a [u8]) -> (r: Result<
    &'a str,
    ScrubError,
>)
    requires
        100 <= status <= 999,
    ensures
        match r {
            Ok(text) => is_success(status) && encode_utf8(text@) == body@,
            Err(e) => if valid_utf8(body@) {
                !is_success(status) && e@ == (ErrorView::DeleteRefused {
                    bucket: bucket@,
                    status: status_text(status),
                    body: vstd::utf8::decode_utf8(body@),
                })
            } else {
                e@ matches ErrorView::DeleteNotUtf8(fault) && is_utf8_fault(body@, fault)
            },
        },
        r is Ok <==> valid_utf8(body@) && is_success(status),
        match r {
            Ok(text) => 200 <= status < 300 && encode_utf8(text@) == body@,
            Err(ScrubError::DeleteNotUtf8(e)) => !valid_utf8(body@) && is_utf8_fault(
                body@,
                utf8_fault(e),
            ),
            Err(ScrubError::DeleteRefused { bucket: b, status: s, body: text }) => {
                &&& !(200 <= status < 300)
                &&& b@ == bucket@
                &&& s@ == status_text(status)
                &&& encode_utf8(text@) == body@
            },
            Err(_) => false,
        },
{
    match utf8_text(body) {
        Err(e) => Err(ScrubError::DeleteNotUtf8(e)),
        Ok(text) => {
            proof {
                vstd::utf8::encode_utf8_decode_utf8(text@);
            }
            if 200 <= status && status < 300 {
                Ok(text)
            } else {
                Err(
                    ScrubError::DeleteRefused {
                        bucket: bucket.to_owned(),
                        status: status_line(status),
                        body: text.to_owned(),
                    },
                )
            }
        },
    }
}

/// One object of a deletion.
#[derive(Debug)]
pub struct DeleteRequestObject {
    pub key: String,
}

/// What the body of a deletion says.
#[derive(Debug)]
pub struct DeleteRequest {
    /// Whether to be told only of the objects that could not be deleted.
    pub quiet: Option<bool>,
    pub objects: Vec<DeleteRequestObject>,
}

impl DeleteRequest {
    /// Asks for the deletion of the objects with these keys, in their order, and
    /// to be told of failures alone.
    pub fn of_keys(keys: &[String]) -> (r: DeleteRequest)
        ensures
            r.quiet == Some(true),
            r.objects@.len() == keys@.len(),
            forall|i: int| 0 <= i < keys@.len() ==> (#[trigger] r.objects@[i]).key@ == keys@[i]@,
    {
        let mut objects: Vec<DeleteRequestObject> = Vec::new();
        for i in 0..keys.len()
            invariant
                objects@.len() == i,
                forall|j: int| 0 <= j < i ==> (#[trigger] objects@[j]).key@ == keys@[j]@,
        {
            objects.push(DeleteRequestObject { key: keys[i].clone() });
        }
        DeleteRequest { quiet: Some(true), objects }
    }
}

/// An object that could not be deleted.
#[derive(Debug)]
pub struct DeleteError {
    pub key: String,
    pub code: String,
    pub message: String,
}

/// What came of a deletion.
#[derive(Debug)]
pub struct DeleteResult {
    pub errors: Vec<DeleteError>,
}

impl DeleteResult {
    /// Whether everything was deleted. Of several failures the first is told.
    pub fn outcome(&self, bucket: &str) -> (r: Result<(), ScrubError>)
        ensures
            r is Ok <==> self.errors@.len() == 0,
            r matches Err(e) ==> e@ == (ErrorView::DeleteFailed {
                bucket: bucket@,
                key: self.errors@[0].key@,
                message: self.errors@[0].message@,
                code: self.errors@[0].code@,
            }),
            match r {
                Ok(()) => self.errors@.len() == 0,
                Err(ScrubError::DeleteFailed { bucket: b, key, message, code }) => {
                    &&& self.errors@.len() > 0
                    &&& b@ == bucket@
                    &&& key@ == self.errors@[0].key@
                    &&& message@ == self.errors@[0].message@
                    &&& code@ == self.errors@[0].code@
                },
                Err(_) => false,
            },
    {
        if self.errors.len() == 0 {
            Ok(())
        } else {
            let first = &self.errors[0];
            Err(
                ScrubError::DeleteFailed {
                    bucket: bucket.to_owned(),
                    key: first.key.clone(),
                    message: first.message.clone(),
                    code: first.code.clone(),
                },
            )
        }
    }
}

} // verus!
