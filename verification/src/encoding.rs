//! How a value is written into a query, and how a body is summed up in a header.

use crate::outside::{base64_encode, percent_encode, sha256_digest};
use vstd::prelude::*;
use vstd::utf8::encode_utf8;

#[allow(unused_imports)]
use crate::outside::{
    base64_char, base64_text, is_alphanumeric, is_field_value, percent_encoded,
    percent_encoded_byte, sha256,
};

verus! {

/// `value` as it is written into a query.
pub open spec fn query_encoded(value: Seq<char>) -> Seq<char> {
    percent_encoded(encode_utf8(value))
}

/// Percent-encodes everything in `value` but ASCII letters and digits.
pub fn encode_query_value(value: &str) -> (r: String)
    ensures
        r@ == query_encoded(value@),
        r@ == percent_encoded(encode_utf8(value@)),
{
    percent_encode(value)
}

/// The checksum of a body: its SHA-256 digest in base64.
pub open spec fn checksum(bytes: Seq<u8>) -> Seq<char> {
    base64_text(sha256(bytes))
}

/// A checksum is of all the bytes of a body: it is their digest in base64, and two
/// bodies with different digests have different checksums.
pub proof fn law_checksum(bytes: Seq<u8>, other: Seq<u8>)
    ensures
        checksum(bytes) == base64_text(sha256(bytes)),
        checksum(bytes) == checksum(other) ==> sha256(bytes) == sha256(other),
{
    if checksum(bytes) == checksum(other) {
        lemma_base64_injective(sha256(bytes), sha256(other));
    }
}

proof fn lemma_base64_char(a: int, b: int)
    requires
        0 <= a < 64,
        0 <= b < 64,
    ensures
        base64_char(a) == base64_char(b) ==> a == b,
        base64_char(a) != '=',
{
}

/// No two byte strings have the same base64.
pub proof fn lemma_base64_injective(x: Seq<u8>, y: Seq<u8>)
    requires
        base64_text(x) == base64_text(y),
    ensures
        x == y,
    decreases x.len(),
{
    let s = base64_text(x);
    let t = base64_text(y);
    law_base64_length(x);
    law_base64_length(y);
    if x.len() == 0 || y.len() == 0 {
        assert(x =~= y);
    } else {
        let a = x[0] as int;
        let b = if x.len() > 1 { x[1] as int } else { 0 };
        let c = if x.len() > 2 { x[2] as int } else { 0 };
        let d = y[0] as int;
        let e = if y.len() > 1 { y[1] as int } else { 0 };
        let f = if y.len() > 2 { y[2] as int } else { 0 };
        assert(s[0] == base64_char(a / 4) && t[0] == base64_char(d / 4));
        assert(s[1] == base64_char((a % 4) * 16 + b / 16));
        assert(t[1] == base64_char((d % 4) * 16 + e / 16));
        assert(s[2] == if x.len() > 1 { base64_char((b % 16) * 4 + c / 64) } else { '=' });
        assert(t[2] == if y.len() > 1 { base64_char((e % 16) * 4 + f / 64) } else { '=' });
        assert(s[3] == if x.len() > 2 { base64_char(c % 64) } else { '=' });
        assert(t[3] == if y.len() > 2 { base64_char(f % 64) } else { '=' });
        lemma_base64_char(a / 4, d / 4);
        lemma_base64_char((a % 4) * 16 + b / 16, (d % 4) * 16 + e / 16);
        lemma_base64_char((b % 16) * 4 + c / 64, (e % 16) * 4 + f / 64);
        lemma_base64_char((e % 16) * 4 + f / 64, (b % 16) * 4 + c / 64);
        lemma_base64_char(c % 64, f % 64);
        lemma_base64_char(f % 64, c % 64);
        assert(x.len() > 1 <==> y.len() > 1);
        assert(x.len() > 2 <==> y.len() > 2);
        assert(a == d && b == e && c == f);
        if x.len() > 3 || y.len() > 3 {
            assert(x.len() > 3 && y.len() > 3);
            assert(s.skip(4) =~= base64_text(x.skip(3)));
            assert(t.skip(4) =~= base64_text(y.skip(3)));
            lemma_base64_injective(x.skip(3), y.skip(3));
            assert(x =~= x.take(3) + x.skip(3));
            assert(y =~= y.take(3) + y.skip(3));
            assert(x.take(3) =~= y.take(3));
        } else {
            assert(x =~= y);
        }
    }
}

/// Computes the checksum of a body.
pub fn sha256_base64(bytes: &[u8]) -> (r: String)
    ensures
        r@ == checksum(bytes@),
        r@ == base64_text(sha256(bytes@)),
        r@.len() == 44,
{
    let digest = sha256_digest(bytes);
    proof {
        law_base64_length(digest@);
    }
    base64_encode(digest.as_slice())
}

/// Base64 writes four characters for every three bytes begun.
pub proof fn law_base64_length(bytes: Seq<u8>)
    ensures
        base64_text(bytes).len() == (bytes.len() + 2) / 3 * 4,
    decreases bytes.len(),
{
    if bytes.len() > 3 {
        law_base64_length(bytes.skip(3));
    }
}

/// A text in base64 can be the value of a header.
pub proof fn law_base64_can_be_sent(bytes: Seq<u8>)
    ensures
        is_field_value(base64_text(bytes)),
    decreases bytes.len(),
{
    if bytes.len() > 3 {
        law_base64_can_be_sent(bytes.skip(3));
    }
}

/// A character that an encoded value may hold.
pub open spec fn is_encoded_char(c: char) -> bool {
    '0' <= c <= '9' || 'A' <= c <= 'Z' || 'a' <= c <= 'z' || c == '%'
}

proof fn lemma_percent_encoded_chars(bytes: Seq<u8>)
    ensures
        forall|i: int|
            0 <= i < percent_encoded(bytes).len() ==> is_encoded_char(
                #[trigger] percent_encoded(bytes)[i],
            ),
    decreases bytes.len(),
{
    if bytes.len() > 0 {
        let head = percent_encoded_byte(bytes[0]);
        let tail = percent_encoded(bytes.drop_first());
        lemma_percent_encoded_chars(bytes.drop_first());
        assert forall|i: int| 0 <= i < percent_encoded(bytes).len() implies is_encoded_char(
            #[trigger] percent_encoded(bytes)[i],
        ) by {
            if i >= head.len() {
                assert(percent_encoded(bytes)[i] == tail[i - head.len()]);
            }
        }
    }
}

/// An encoded value holds nothing but ASCII letters, digits and `%`: it cannot
/// end a parameter, begin another or leave the query.
pub proof fn law_encoded_value_stays_in_its_parameter(value: Seq<char>)
    ensures
        forall|i: int|
            0 <= i < query_encoded(value).len() ==> is_encoded_char(
                #[trigger] query_encoded(value)[i],
            ),
{
    lemma_percent_encoded_chars(encode_utf8(value));
}

proof fn lemma_percent_encoded_injective(a: Seq<u8>, b: Seq<u8>)
    requires
        percent_encoded(a) == percent_encoded(b),
    ensures
        a == b,
    decreases a.len(),
{
    let x = percent_encoded(a);
    let y = percent_encoded(b);
    if a.len() == 0 {
        if b.len() > 0 {
            assert(y.len() >= percent_encoded_byte(b[0]).len());
        }
        assert(a =~= b);
    } else if b.len() == 0 {
        assert(x.len() >= percent_encoded_byte(a[0]).len());
    } else {
        let p = percent_encoded_byte(a[0]);
        let q = percent_encoded_byte(b[0]);
        assert(x[0] == p[0] && y[0] == q[0]);
        if is_alphanumeric(a[0]) {
            assert(is_alphanumeric(b[0]));
            assert(a[0] == b[0]);
        } else {
            assert(!is_alphanumeric(b[0]));
            assert(x[1] == p[1] && y[1] == q[1]);
            assert(x[2] == p[2] && y[2] == q[2]);
            assert(a[0] as int / 16 == b[0] as int / 16);
            assert(a[0] as int % 16 == b[0] as int % 16);
            assert(a[0] == b[0]);
        }
        assert(x.skip(p.len() as int) =~= percent_encoded(a.drop_first()));
        assert(y.skip(q.len() as int) =~= percent_encoded(b.drop_first()));
        lemma_percent_encoded_injective(a.drop_first(), b.drop_first());
        assert(a =~= seq![a[0]] + a.drop_first());
        assert(b =~= seq![b[0]] + b.drop_first());
    }
}

/// No two values are encoded alike.
pub proof fn law_encoding_loses_nothing(a: Seq<char>, b: Seq<char>)
    requires
        query_encoded(a) == query_encoded(b),
    ensures
        a == b,
{
    lemma_percent_encoded_injective(encode_utf8(a), encode_utf8(b));
    crate::text::lemma_same_bytes(a, b);
}

} // verus!
