//! What can go wrong in a scrub, and how it is told.

use std::str::Utf8Error;
use vstd::prelude::*;
use vstd::string::StringExecFns;

#[allow(unused_imports)]
use crate::outside::{utf8_fault, Utf8Fault};

verus! {

/// Why a scrub stopped.
#[derive(Debug)]
pub enum ScrubError {
    /// The configuration does not describe the node that it is for.
    SelfNodeMissing,
    /// The configuration holds no credential to sign with.
    NoCredential,
    /// The parameters of a signature could not be made. Signing gives all of them,
    /// so that it does not end so.
    SigningParams(String),
    /// A request was not fit to be signed.
    SignableRequest(String),
    /// A request could not be signed.
    Sign(String),
    /// A request could not be built.
    BuildRequest(String),
    /// A header could not be added to a request. Such a header is not signed in the
    /// first place, so that signing does not end so.
    Header { name: String, reason: String },
    /// The answer to a listing is no text.
    ListNotUtf8(Utf8Error),
    /// A listing was refused.
    ListRefused { bucket: String, status: String, body: String },
    /// The answer to a deletion is no text.
    DeleteNotUtf8(Utf8Error),
    /// A deletion was refused.
    DeleteRefused { bucket: String, status: String, body: String },
    /// An object could not be deleted.
    DeleteFailed { bucket: String, key: String, message: String, code: String },
}

/// An error by its texts, and by where bytes are no text.
pub enum ErrorView {
    SelfNodeMissing,
    NoCredential,
    SigningParams(Seq<char>),
    SignableRequest(Seq<char>),
    Sign(Seq<char>),
    BuildRequest(Seq<char>),
    Header { name: Seq<char>, reason: Seq<char> },
    ListNotUtf8(Utf8Fault),
    ListRefused { bucket: Seq<char>, status: Seq<char>, body: Seq<char> },
    DeleteNotUtf8(Utf8Fault),
    DeleteRefused { bucket: Seq<char>, status: Seq<char>, body: Seq<char> },
    DeleteFailed { bucket: Seq<char>, key: Seq<char>, message: Seq<char>, code: Seq<char> },
}

impl View for ScrubError {
    type V = ErrorView;

    open spec fn view(&self) -> ErrorView {
        match *self {
            ScrubError::SelfNodeMissing => ErrorView::SelfNodeMissing,
            ScrubError::NoCredential => ErrorView::NoCredential,
            ScrubError::SigningParams(e) => ErrorView::SigningParams(e@),
            ScrubError::SignableRequest(e) => ErrorView::SignableRequest(e@),
            ScrubError::Sign(e) => ErrorView::Sign(e@),
            ScrubError::BuildRequest(e) => ErrorView::BuildRequest(e@),
            ScrubError::Header { name, reason } => ErrorView::Header {
                name: name@,
                reason: reason@,
            },
            ScrubError::ListNotUtf8(e) => ErrorView::ListNotUtf8(utf8_fault(e)),
            ScrubError::ListRefused { bucket, status, body } => ErrorView::ListRefused {
                bucket: bucket@,
                status: status@,
                body: body@,
            },
            ScrubError::DeleteNotUtf8(e) => ErrorView::DeleteNotUtf8(utf8_fault(e)),
            ScrubError::DeleteRefused { bucket, status, body } => ErrorView::DeleteRefused {
                bucket: bucket@,
                status: status@,
                body: body@,
            },
            ScrubError::DeleteFailed { bucket, key, message, code } => ErrorView::DeleteFailed {
                bucket: bucket@,
                key: key@,
                message: message@,
                code: code@,
            },
        }
    }
}

/// How an error is told.
pub open spec fn error_message(e: ErrorView) -> Seq<char> {
    match e {
        ErrorView::SelfNodeMissing => "self_id node missing from config"@,
        ErrorView::NoCredential => "at least one credential is required"@,
        ErrorView::SigningParams(e) => "build signing params: "@ + e,
        ErrorView::SignableRequest(e) => "build signable request: "@ + e,
        ErrorView::Sign(e) => "sign request: "@ + e,
        ErrorView::BuildRequest(e) => "build request: "@ + e,
        ErrorView::Header { name, reason } => "header "@ + name + ": "@ + reason,
        ErrorView::ListNotUtf8(_) => "list response was not UTF-8"@,
        ErrorView::ListRefused { bucket, status, body } => "list "@ + bucket + " failed: "@ + status
            + ": "@ + body,
        ErrorView::DeleteNotUtf8(_) => "delete response was not UTF-8"@,
        ErrorView::DeleteRefused { bucket, status, body } => "delete "@ + bucket + " failed: "@
            + status + ": "@ + body,
        ErrorView::DeleteFailed { bucket, key, message, code } => "delete "@ + bucket
            + " failed for "@ + key + ": "@ + message + " ("@ + code + ")"@,
    }
}

fn joined(a: &str, b: &str) -> (r: String)
    ensures
        r@ == a@ + b@,
{
    let mut r = a.to_owned();
    r.append(b);
    r
}

impl ScrubError {
    /// Tells the error in words.
    pub fn message(&self) -> (r: String)
        ensures
            r@ == error_message(self@),
            match *self {
                ScrubError::SelfNodeMissing => r@ == "self_id node missing from config"@,
                ScrubError::NoCredential => r@ == "at least one credential is required"@,
                ScrubError::SigningParams(e) => r@ == "build signing params: "@ + e@,
                ScrubError::SignableRequest(e) => r@ == "build signable request: "@ + e@,
                ScrubError::Sign(e) => r@ == "sign request: "@ + e@,
                ScrubError::BuildRequest(e) => r@ == "build request: "@ + e@,
                ScrubError::Header { name, reason } => r@ == "header "@ + name@ + ": "@ + reason@,
                ScrubError::ListNotUtf8(_) => r@ == "list response was not UTF-8"@,
                ScrubError::ListRefused { bucket, status, body } => r@ == "list "@ + bucket@
                    + " failed: "@ + status@ + ": "@ + body@,
                ScrubError::DeleteNotUtf8(_) => r@ == "delete response was not UTF-8"@,
                ScrubError::DeleteRefused { bucket, status, body } => r@ == "delete "@ + bucket@
                    + " failed: "@ + status@ + ": "@ + body@,
                ScrubError::DeleteFailed { bucket, key, message, code } => r@ == "delete "@
                    + bucket@ + " failed for "@ + key@ + ": "@ + message@ + " ("@ + code@ + ")"@,
            },
    {
        match self {
            ScrubError::SelfNodeMissing => "self_id node missing from config".to_owned(),
            ScrubError::NoCredential => "at least one credential is required".to_owned(),
            ScrubError::SigningParams(e) => joined("build signing params: ", e.as_str()),
            ScrubError::SignableRequest(e) => joined("build signable request: ", e.as_str()),
            ScrubError::Sign(e) => joined("sign request: ", e.as_str()),
            ScrubError::BuildRequest(e) => joined("build request: ", e.as_str()),
            ScrubError::Header { name, reason } => joined("header ", name.as_str()).concat(
                ": ",
            ).concat(reason.as_str()),
            ScrubError::ListNotUtf8(_) => "list response was not UTF-8".to_owned(),
            ScrubError::ListRefused { bucket, status, body } => joined(
                "list ",
                bucket.as_str(),
            ).concat(" failed: ").concat(status.as_str()).concat(": ").concat(body.as_str()),
            ScrubError::DeleteNotUtf8(_) => "delete response was not UTF-8".to_owned(),
            ScrubError::DeleteRefused { bucket, status, body } => joined(
                "delete ",
                bucket.as_str(),
            ).concat(" failed: ").concat(status.as_str()).concat(": ").concat(body.as_str()),
            ScrubError::DeleteFailed { bucket, key, message, code } => joined(
                "delete ",
                bucket.as_str(),
            ).concat(" failed for ").concat(key.as_str()).concat(": ").concat(
                message.as_str(),
            ).concat(" (").concat(code.as_str()).concat(")"),
        }
    }
}

} // verus!
