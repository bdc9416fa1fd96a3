//! The query of a URL as a signer writes it anew, and the URLs that can be
//! signed for.

use crate::outside::utf8_text;
use crate::text::text_equal;
use vstd::prelude::*;
use vstd::slice::slice_subrange;
use vstd::utf8::{encode_utf8, valid_utf8};

#[allow(unused_imports)]
use crate::encoding::{
    is_encoded_char, law_encoded_value_stays_in_its_parameter, query_encoded,
};
#[allow(unused_imports)]
use crate::outside::{is_alphanumeric, percent_encoded, percent_encoded_byte, starts_with};
#[allow(unused_imports)]
use crate::text::{decimal, lemma_decimal_digits, lemma_encode_concat};
#[allow(unused_imports)]
use crate::url::{delete_url, list_url, optional_parameter};

verus! {

/// The longest URL that can be parsed, in bytes.
pub const MAX_URL: usize = 65534;

/// A character that stands in a query as it is: a letter, a digit or one of
/// `-`, `.`, `_` and `~`.
pub open spec fn is_unreserved(b: u8) -> bool {
    is_alphanumeric(b) || b == 45 || b == 46 || b == 95 || b == 126
}

/// A hexadecimal digit of either case.
pub open spec fn is_hex(b: u8) -> bool {
    48 <= b <= 57 || 65 <= b <= 70 || 97 <= b <= 102
}

/// The value of a hexadecimal digit.
pub open spec fn hex_value(b: u8) -> int {
    if b <= 57 {
        b - 48
    } else if b <= 70 {
        b - 55
    } else {
        b - 87
    }
}

/// A query begins with a percent-encoded byte.
pub open spec fn begins_escape(query: Seq<u8>) -> bool {
    query.len() >= 3 && query[0] == 37 && is_hex(query[1]) && is_hex(query[2])
}

/// The byte that the percent-encoding at the beginning of a query stands for.
pub open spec fn escaped_byte(query: Seq<u8>) -> u8 {
    (hex_value(query[1]) * 16 + hex_value(query[2])) as u8
}

/// A query with the bytes themselves in place of the percent-encoded ones.
pub open spec fn unescaped(query: Seq<u8>) -> Seq<u8>
    decreases query.len(),
{
    if query.len() == 0 {
        seq![]
    } else if begins_escape(query) {
        seq![escaped_byte(query)] + unescaped(query.skip(3))
    } else {
        seq![query[0]] + unescaped(query.drop_first())
    }
}

/// How far the parameter at which a query begins has come.
pub enum Part {
    /// Nothing of it stands before.
    Nothing,
    /// It is in its name.
    Name,
    /// It is in its value, behind the `=`.
    Value,
}

/// Where a parameter is after one more character.
pub open spec fn further(part: Part) -> Part {
    if part is Nothing {
        Part::Name
    } else {
        part
    }
}

/// By how many bytes a query grows at the end of a parameter. One without an `=`
/// gets one, and an empty one is dropped with what divides it from the others.
pub open spec fn growth_at_end(part: Part) -> int {
    match part {
        Part::Nothing => -1,
        Part::Name => 1,
        Part::Value => 0,
    }
}

/// By how many bytes a query grows at most when it is decoded and encoded anew.
/// Unreserved characters stay or come back as they are. Every other byte is then
/// percent-encoded, but for the `&` between parameters and the first `=` of each.
/// So the length is exact where what the query encodes is UTF-8 throughout, which
/// `utf8` says. Otherwise nine bytes may come in place of a percent-encoded byte
/// that is no ASCII: the encoding of a replacement character.
pub open spec fn growth(query: Seq<u8>, part: Part, utf8: bool) -> int
    decreases query.len(),
{
    if query.len() == 0 {
        growth_at_end(part)
    } else if begins_escape(query) {
        growth(query.skip(3), further(part), utf8) + if is_unreserved(escaped_byte(query)) {
            -2int
        } else if utf8 || escaped_byte(query) < 128 {
            0int
        } else {
            6int
        }
    } else if query[0] == 38 {
        growth(query.drop_first(), Part::Nothing, utf8) + growth_at_end(part)
    } else if query[0] == 61 {
        growth(query.drop_first(), Part::Value, utf8) + if part is Value {
            2int
        } else {
            0int
        }
    } else {
        growth(query.drop_first(), further(part), utf8) + if is_unreserved(query[0]) {
            0int
        } else {
            2int
        }
    }
}

/// The place behind the first two slashes in a row, if there are any.
pub open spec fn after_slashes(url: Seq<u8>) -> Option<nat>
    decreases url.len(),
{
    if url.len() < 2 {
        None
    } else if url[0] == 47 && url[1] == 47 {
        Some(2)
    } else {
        match after_slashes(url.drop_first()) {
            Some(n) => Some(n + 1),
            None => None,
        }
    }
}

/// How many bytes stand before the first `/`, `?` or `#`.
pub open spec fn authority_length(rest: Seq<u8>) -> nat
    decreases rest.len(),
{
    if rest.len() == 0 || rest[0] == 47 || rest[0] == 63 || rest[0] == 35 {
        0
    } else {
        1 + authority_length(rest.drop_first())
    }
}

/// Where the path of a URL begins: at once, or behind its scheme and authority.
pub open spec fn path_start(url: Seq<u8>) -> nat {
    if url.len() > 0 && url[0] == 47 {
        0
    } else {
        match after_slashes(url) {
            Some(n) => n + authority_length(url.skip(n as int)),
            None => 0,
        }
    }
}

/// What stands before the first `#`.
pub open spec fn before_fragment(rest: Seq<u8>) -> Seq<u8>
    decreases rest.len(),
{
    if rest.len() == 0 || rest[0] == 35 {
        seq![]
    } else {
        seq![rest[0]] + before_fragment(rest.drop_first())
    }
}

/// What stands behind the first question mark, if there is one.
pub open spec fn query_of(rest: Seq<u8>) -> Option<Seq<u8>>
    decreases rest.len(),
{
    if rest.len() == 0 {
        None
    } else if rest[0] == 63 {
        Some(rest.drop_first())
    } else {
        query_of(rest.drop_first())
    }
}

/// The length of a URL's path and query at most when the query is written anew. A
/// path that is left out is then written as a slash.
pub open spec fn rewritten_length(url: Seq<u8>) -> int {
    let start = path_start(url);
    let rest = before_fragment(url.skip(start as int));
    match query_of(rest) {
        None => rest.len() as int,
        Some(query) => {
            let grown = growth(query, Part::Nothing, valid_utf8(unescaped(query)));
            let slash: int = if start > 0 && rest[0] != 47 {
                1
            } else {
                0
            };
            rest.len() + grown + slash
        },
    }
}

/// A character that can stand in the authority of a URL, that is, in its host,
/// port and user.
pub open spec fn is_authority_char(c: char) -> bool {
    ||| '0' <= c <= '9'
    ||| 'A' <= c <= 'Z'
    ||| 'a' <= c <= 'z'
    ||| c == '!' || c == '$' || c == '%' || c == '&' || c == '\'' || c == '(' || c == ')'
    ||| c == '*' || c == '+' || c == ',' || c == '-' || c == '.' || c == ':' || c == ';'
    ||| c == '=' || c == '@' || c == '[' || c == ']' || c == '_' || c == '~'
}

/// A URL that may be an authority alone, without a scheme and a path.
pub open spec fn is_authority(url: Seq<char>) -> bool {
    &&& url.len() > 0
    &&& url != "*"@
    &&& forall|i: int| 0 <= i < url.len() ==> is_authority_char(url[i])
}

/// A URL in which a signer can write the query anew: it is no authority alone,
/// and its path and query do not outgrow the longest URL.
pub open spec fn is_signing_url(url: Seq<char>) -> bool {
    !is_authority(url) && rewritten_length(encode_utf8(url)) <= MAX_URL
}

/// The URL can be signed for, or is so long that it is refused.
pub open spec fn is_safe_url(url: Seq<char>) -> bool {
    is_signing_url(url) || encode_utf8(url).len() > MAX_URL
}

fn is_unreserved_byte(b: u8) -> (r: bool)
    ensures
        r == is_unreserved(b),
{
    (48 <= b && b <= 57) || (65 <= b && b <= 90) || (97 <= b && b <= 122) || b == 45 || b == 46 || b
        == 95 || b == 126
}

fn is_hex_byte(b: u8) -> (r: bool)
    ensures
        r == is_hex(b),
{
    (48 <= b && b <= 57) || (65 <= b && b <= 70) || (97 <= b && b <= 102)
}

fn hex_byte_value(b: u8) -> (r: u8)
    requires
        is_hex(b),
    ensures
        r == hex_value(b),
        r < 16,
{
    if b <= 57 {
        b - 48
    } else if b <= 70 {
        b - 55
    } else {
        b - 87
    }
}

fn begins_escape_at(query: &[u8], i: usize) -> (r: bool)
    requires
        i <= query@.len(),
    ensures
        r == begins_escape(query@.skip(i as int)),
{
    query.len() - i >= 3 && query[i] == 37 && is_hex_byte(query[i + 1]) && is_hex_byte(query[i + 2])
}

/// Decodes the percent-encoded bytes of a query.
pub fn unescape(query: &[u8]) -> (r: Vec<u8>)
    ensures
        r@ == unescaped(query@),
{
    let mut r: Vec<u8> = Vec::new();
    let mut i: usize = 0;
    assert(query@.skip(0) =~= query@);
    assert(r@ + unescaped(query@) =~= unescaped(query@));
    while i < query.len()
        invariant
            i <= query@.len(),
            r@ + unescaped(query@.skip(i as int)) == unescaped(query@),
        decreases query.len() - i,
    {
        let ghost rest = query@.skip(i as int);
        let ghost earlier = r@;
        if begins_escape_at(query, i) {
            let b: u8 = hex_byte_value(query[i + 1]) * 16 + hex_byte_value(query[i + 2]);
            r.push(b);
            assert(rest.skip(3) =~= query@.skip(i + 3));
            i = i + 3;
        } else {
            r.push(query[i]);
            assert(rest.drop_first() =~= query@.skip(i + 1));
            i = i + 1;
        }
        assert(r@ + unescaped(query@.skip(i as int)) =~= earlier + unescaped(rest));
    }
    assert(r@ + Seq::<u8>::empty() =~= r@);
    r
}

/// The most by which a query can grow when it is written anew.
pub fn query_growth(query: &[u8]) -> (r: i64)
    requires
        query@.len() <= MAX_URL,
    ensures
        r == growth(query@, Part::Nothing, valid_utf8(unescaped(query@))),
        -2 * query@.len() - 1 <= r <= 6 * query@.len() + 1,
{
    let utf8 = utf8_text(unescape(query).as_slice()).is_ok();
    let mut total: i64 = 0;
    let mut part = Part::Nothing;
    let mut i: usize = 0;
    assert(query@.skip(0) =~= query@);
    while i < query.len()
        invariant
            query@.len() <= MAX_URL,
            i <= query@.len(),
            total + growth(query@.skip(i as int), part, utf8) == growth(
                query@,
                Part::Nothing,
                utf8,
            ),
            -2 * i <= total <= 6 * i,
        decreases query.len() - i,
    {
        let ghost rest = query@.skip(i as int);
        let b: u8 = query[i];
        if begins_escape_at(query, i) {
            let c: u8 = hex_byte_value(query[i + 1]) * 16 + hex_byte_value(query[i + 2]);
            if is_unreserved_byte(c) {
                total = total - 2;
            } else if !utf8 && c >= 128 {
                total = total + 6;
            }
            assert(rest.skip(3) =~= query@.skip(i + 3));
            part = next_part(part);
            i = i + 3;
        } else {
            assert(rest.drop_first() =~= query@.skip(i + 1));
            if b == 38 {
                total = total + end_growth(&part);
                part = Part::Nothing;
            } else if b == 61 {
                if let Part::Value = part {
                    total = total + 2;
                }
                part = Part::Value;
            } else {
                if !is_unreserved_byte(b) {
                    total = total + 2;
                }
                part = next_part(part);
            }
            i = i + 1;
        }
    }
    total + end_growth(&part)
}

fn next_part(part: Part) -> (r: Part)
    ensures
        r == further(part),
{
    match part {
        Part::Nothing => Part::Name,
        other => other,
    }
}

fn end_growth(part: &Part) -> (r: i64)
    ensures
        r == growth_at_end(*part),
{
    match part {
        Part::Nothing => -1,
        Part::Name => 1,
        Part::Value => 0,
    }
}

fn slashes_end(url: &[u8]) -> (r: Option<usize>)
    ensures
        match after_slashes(url@) {
            Some(n) => r matches Some(k) && k == n,
            None => r is None,
        },
        r matches Some(k) ==> k <= url@.len(),
{
    let mut i: usize = 0;
    assert(url@.skip(0) =~= url@);
    while url.len() - i >= 2
        invariant
            i <= url@.len(),
            after_slashes(url@) == match after_slashes(url@.skip(i as int)) {
                Some(n) => Some(n + i as nat),
                None => None,
            },
        decreases url.len() - i,
    {
        let ghost rest = url@.skip(i as int);
        if url[i] == 47 && url[i + 1] == 47 {
            return Some(i + 2);
        }
        assert(rest.drop_first() =~= url@.skip(i + 1));
        i = i + 1;
    }
    None
}

fn authority_end(rest: &[u8]) -> (r: usize)
    ensures
        r == authority_length(rest@),
        r <= rest@.len(),
{
    let mut i: usize = 0;
    assert(rest@.skip(0) =~= rest@);
    while i < rest.len() && rest[i] != 47 && rest[i] != 63 && rest[i] != 35
        invariant
            i <= rest@.len(),
            authority_length(rest@) == i + authority_length(rest@.skip(i as int)),
        decreases rest.len() - i,
    {
        assert(rest@.skip(i as int).drop_first() =~= rest@.skip(i + 1));
        i = i + 1;
    }
    i
}

fn fragment_start(rest: &[u8]) -> (r: usize)
    ensures
        r <= rest@.len(),
        before_fragment(rest@) == rest@.take(r as int),
{
    let mut i: usize = 0;
    assert(rest@.skip(0) =~= rest@);
    assert(rest@.take(0) + before_fragment(rest@) =~= before_fragment(rest@));
    while i < rest.len() && rest[i] != 35
        invariant
            i <= rest@.len(),
            before_fragment(rest@) == rest@.take(i as int) + before_fragment(rest@.skip(i as int)),
        decreases rest.len() - i,
    {
        assert(rest@.skip(i as int).drop_first() =~= rest@.skip(i + 1));
        assert(rest@.take(i as int) + (seq![rest@[i as int]] + before_fragment(rest@.skip(i + 1)))
            =~= rest@.take(i + 1) + before_fragment(rest@.skip(i + 1)));
        i = i + 1;
    }
    assert(rest@.take(i as int) + Seq::<u8>::empty() =~= rest@.take(i as int));
    i
}

fn query_start(rest: &[u8]) -> (r: Option<usize>)
    ensures
        match r {
            Some(i) => i <= rest@.len() && query_of(rest@) == Some(rest@.skip(i as int)),
            None => query_of(rest@) is None,
        },
{
    let mut i: usize = 0;
    assert(rest@.skip(0) =~= rest@);
    while i < rest.len()
        invariant
            i <= rest@.len(),
            query_of(rest@) == query_of(rest@.skip(i as int)),
        decreases rest.len() - i,
    {
        assert(rest@.skip(i as int).drop_first() =~= rest@.skip(i + 1));
        if rest[i] == 63 {
            return Some(i + 1);
        }
        i = i + 1;
    }
    None
}

/// The length of a URL's path and query at most when the query is written anew.
pub fn longest_rewriting(url: &[u8]) -> (r: i64)
    requires
        url@.len() <= MAX_URL,
    ensures
        r == rewritten_length(url@),
{
    let start: usize = if url.len() > 0 && url[0] == 47 {
        0
    } else {
        match slashes_end(url) {
            Some(n) => {
                let rest = slice_subrange(url, n, url.len());
                assert(rest@ =~= url@.skip(n as int));
                n + authority_end(rest)
            },
            None => 0,
        }
    };
    let whole = slice_subrange(url, start, url.len());
    assert(whole@ =~= url@.skip(start as int));
    let rest = slice_subrange(whole, 0, fragment_start(whole));
    assert(rest@ =~= before_fragment(whole@));
    match query_start(rest) {
        None => rest.len() as i64,
        Some(i) => {
            let query = slice_subrange(rest, i, rest.len());
            assert(query@ =~= rest@.skip(i as int));
            let slash: i64 = if start > 0 && rest[0] != 47 {
                1
            } else {
                0
            };
            rest.len() as i64 + query_growth(query) + slash
        },
    }
}

proof fn lemma_authority_chars()
    ensures
        forall|c: char| #[trigger]
            is_authority_char(c) <==> ('0' <= c <= '9' || 'A' <= c <= 'Z' || 'a' <= c <= 'z'
                || "!$%&'()*+,-.:;=@[]_~"@.contains(c)),
{
    reveal_strlit("!$%&'()*+,-.:;=@[]_~");
    let marks = "!$%&'()*+,-.:;=@[]_~"@;
    assert(marks[0] == '!' && marks[1] == '$' && marks[2] == '%' && marks[3] == '&');
    assert(marks[4] == '\'' && marks[5] == '(' && marks[6] == ')' && marks[7] == '*');
    assert(marks[8] == '+' && marks[9] == ',' && marks[10] == '-' && marks[11] == '.');
    assert(marks[12] == ':' && marks[13] == ';' && marks[14] == '=' && marks[15] == '@');
    assert(marks[16] == '[' && marks[17] == ']' && marks[18] == '_' && marks[19] == '~');
}

/// Whether a URL may be an authority alone.
pub fn may_be_authority(url: &str) -> (r: bool)
    ensures
        r == is_authority(url@),
        r <==> url@.len() > 0 && url@ != "*"@ && forall|i: int|
            0 <= i < url@.len() ==> ('0' <= #[trigger] url@[i] <= '9' || 'A' <= url@[i] <= 'Z'
                || 'a' <= url@[i] <= 'z' || "!$%&'()*+,-.:;=@[]_~"@.contains(url@[i])),
{
    proof {
        lemma_authority_chars();
    }
    if text_equal(url, "") || text_equal(url, "*") {
        proof {
            reveal_strlit("");
        }
        return false;
    }
    for c in it: url.chars()
        invariant
            it.seq() == url@,
            forall|i: int| 0 <= i < it.index() ==> is_authority_char(#[trigger] url@[i]),
    {
        let letter = ('0' <= c && c <= '9') || ('A' <= c && c <= 'Z') || ('a' <= c && c <= 'z');
        let mark = c == '!' || c == '$' || c == '%' || c == '&' || c == '\'' || c == '(' || c == ')'
            || c == '*' || c == '+' || c == ',' || c == '-' || c == '.' || c == ':' || c == ';' || c
            == '=' || c == '@' || c == '[' || c == ']' || c == '_' || c == '~';
        if !letter && !mark {
            proof {
                lemma_authority_chars();
                assert(!is_authority_char(url@[it.index()]));
            }
            return false;
        }
    }
    proof {
        reveal_strlit("");
        if url@.len() == 0 {
            assert(url@ =~= ""@);
        }
    }
    true
}

/// Whether a request to a URL can be signed, or is refused for its length.
pub fn fits_signature(url: &str) -> (r: bool)
    ensures
        r == is_safe_url(url@),
        r <==> encode_utf8(url@).len() > 65534 || (!is_authority(url@) && rewritten_length(
            encode_utf8(url@),
        ) <= 65534),
{
    let bytes = url.as_bytes();
    if bytes.len() > MAX_URL {
        return true;
    }
    !may_be_authority(url) && longest_rewriting(bytes) <= MAX_URL as i64
}

/// The bytes of a plain text stay as they are.
proof fn lemma_plain(plain: Seq<u8>, rest: Seq<u8>, part: Part, utf8: bool)
    requires
        forall|i: int| 0 <= i < plain.len() ==> is_unreserved(#[trigger] plain[i]),
    ensures
        growth(plain + rest, part, utf8) == growth(
            rest,
            if plain.len() > 0 {
                further(part)
            } else {
                part
            },
            utf8,
        ),
        unescaped(plain + rest) == plain + unescaped(rest),
    decreases plain.len(),
{
    if plain.len() == 0 {
        assert(plain + rest =~= rest);
        assert(plain + unescaped(rest) =~= unescaped(rest));
    } else {
        let less = plain.drop_first();
        assert forall|i: int| 0 <= i < less.len() implies is_unreserved(#[trigger] less[i]) by {
            assert(is_unreserved(plain[i + 1]));
        }
        lemma_plain(less, rest, further(part), utf8);
        assert((plain + rest).drop_first() =~= less + rest);
        assert((plain + rest)[0] == plain[0]);
        assert(is_unreserved(plain[0]));
        assert(unescaped(plain + rest) =~= plain + unescaped(rest));
    }
}

/// One byte that is percent-encoded does not come back longer.
proof fn lemma_escape(b: u8, rest: Seq<u8>)
    ensures
        ({
            let escape = encode_utf8(percent_encoded_byte(b));
            &&& growth(escape + rest, Part::Value, true) <= growth(rest, Part::Value, true)
            &&& unescaped(escape + rest) == seq![b] + unescaped(rest)
        }),
{
    let text = percent_encoded_byte(b);
    let escape = encode_utf8(text);
    vstd::utf8::is_ascii_chars_encode_utf8(text);
    if is_alphanumeric(b) {
        assert(text[0] as u8 == escape[0]);
        lemma_plain(escape, rest, Part::Value, true);
        assert(escape =~= seq![b]);
    } else {
        assert(text[0] as u8 == escape[0]);
        assert(text[1] as u8 == escape[1]);
        assert(text[2] as u8 == escape[2]);
        let all = escape + rest;
        assert(all[0] == escape[0] && all[1] == escape[1] && all[2] == escape[2]);
        assert(begins_escape(all));
        assert(all.skip(3) =~= rest);
        assert(hex_value(escape[1]) * 16 + hex_value(escape[2]) == b);
    }
}

/// An encoded value does not come back longer.
proof fn lemma_value(bytes: Seq<u8>, rest: Seq<u8>)
    ensures
        ({
            let text = encode_utf8(percent_encoded(bytes));
            &&& growth(text + rest, Part::Value, true) <= growth(rest, Part::Value, true)
            &&& unescaped(text + rest) == bytes + unescaped(rest)
        }),
    decreases bytes.len(),
{
    let text = encode_utf8(percent_encoded(bytes));
    if bytes.len() == 0 {
        assert(text + rest =~= rest);
        assert(bytes + unescaped(rest) =~= unescaped(rest));
    } else {
        let first = percent_encoded_byte(bytes[0]);
        let others = percent_encoded(bytes.drop_first());
        lemma_value(bytes.drop_first(), rest);
        lemma_encode_concat(first, others);
        lemma_escape(bytes[0], encode_utf8(others) + rest);
        assert(text + rest =~= encode_utf8(first) + (encode_utf8(others) + rest));
        assert(bytes + unescaped(rest) =~= seq![bytes[0]] + (bytes.drop_first() + unescaped(rest)));
    }
}

/// A mark that divides a query stands for itself: an `&` behind a value, or the
/// `=` behind a name.
proof fn lemma_mark(mark: Seq<char>, rest: Seq<u8>)
    requires
        mark == "&"@ || mark == "="@,
    ensures
        mark == "&"@ ==> growth(encode_utf8(mark) + rest, Part::Value, true) == growth(
            rest,
            Part::Nothing,
            true,
        ),
        mark == "="@ ==> growth(encode_utf8(mark) + rest, Part::Name, true) == growth(
            rest,
            Part::Value,
            true,
        ),
        unescaped(encode_utf8(mark) + rest) == encode_utf8(mark) + unescaped(rest),
{
    reveal_strlit("&");
    reveal_strlit("=");
    vstd::utf8::is_ascii_chars_encode_utf8(mark);
    let bytes = encode_utf8(mark);
    assert(mark[0] as u8 == bytes[0]);
    let all = bytes + rest;
    assert(all[0] == bytes[0]);
    assert(all.drop_first() =~= rest);
    assert(bytes =~= seq![bytes[0]]);
}

/// A text of letters, digits and hyphens.
spec fn is_plain(text: Seq<char>) -> bool {
    text.len() > 0 && forall|i: int|
        0 <= i < text.len() ==> ('0' <= #[trigger] text[i] <= '9' || 'A' <= text[i] <= 'Z' || 'a'
            <= text[i] <= 'z' || text[i] == '-')
}

proof fn lemma_plain_text(text: Seq<char>, rest: Seq<u8>, part: Part)
    requires
        is_plain(text),
    ensures
        growth(encode_utf8(text) + rest, part, true) == growth(rest, further(part), true),
        unescaped(encode_utf8(text) + rest) == encode_utf8(text) + unescaped(rest),
{
    vstd::utf8::is_ascii_chars_encode_utf8(text);
    let bytes = encode_utf8(text);
    assert forall|i: int| 0 <= i < bytes.len() implies is_unreserved(#[trigger] bytes[i]) by {
        assert(text[i] as u8 == bytes[i]);
    }
    lemma_plain(bytes, rest, part, true);
}

/// A query that goes on after a parameter and neither grows nor encodes anything
/// but UTF-8.
spec fn is_settled(rest: Seq<u8>) -> bool {
    growth(rest, Part::Value, true) <= 0 && valid_utf8(unescaped(rest))
}

/// A parameter that is left out or has an encoded value does not grow.
proof fn lemma_parameter(name: Seq<char>, value: Option<Seq<char>>, rest: Seq<u8>)
    requires
        is_plain(name),
        is_settled(rest),
    ensures
        is_settled(encode_utf8(optional_parameter(name, value)) + rest),
{
    let text = optional_parameter(name, value);
    match value {
        None => {
            assert(encode_utf8(text) + rest =~= rest);
        },
        Some(value) => {
            let written = encode_utf8(query_encoded(value));
            let d = written + rest;
            let c = encode_utf8("="@) + d;
            let b = encode_utf8(name) + c;
            let a = encode_utf8("&"@) + b;
            lemma_encode_concat("&"@ + name + "="@, query_encoded(value));
            lemma_encode_concat("&"@ + name, "="@);
            lemma_encode_concat("&"@, name);
            assert(encode_utf8(text) + rest =~= a);
            lemma_value(encode_utf8(value), rest);
            lemma_mark("="@, d);
            lemma_plain_text(name, c, Part::Nothing);
            lemma_mark("&"@, b);
            vstd::utf8::encode_utf8_valid_utf8(value);
            vstd::utf8::encode_utf8_valid_utf8("="@);
            vstd::utf8::encode_utf8_valid_utf8(name);
            vstd::utf8::encode_utf8_valid_utf8("&"@);
            vstd::utf8::valid_utf8_concat(encode_utf8(value), unescaped(rest));
            vstd::utf8::valid_utf8_concat(encode_utf8("="@), unescaped(d));
            vstd::utf8::valid_utf8_concat(encode_utf8(name), unescaped(c));
            vstd::utf8::valid_utf8_concat(encode_utf8("&"@), unescaped(b));
        },
    }
}

proof fn lemma_wide_scalar(c: u32)
    by (bit_vector)
    requires
        0x80 <= c <= 0x10ffff,
    ensures
        c <= 0x7ff ==> vstd::utf8::leading_byte_width_2(c) >= 0x80,
        c <= 0xffff ==> vstd::utf8::leading_byte_width_3(c) >= 0x80,
        vstd::utf8::leading_byte_width_4(c) >= 0x80,
        vstd::utf8::last_continuation_byte(c) >= 0x80,
        vstd::utf8::second_last_continuation_byte(c) >= 0x80,
        vstd::utf8::third_last_continuation_byte(c) >= 0x80,
{
}

/// A text without an ASCII character does not hold its byte.
proof fn lemma_without_byte(text: Seq<char>, c: char)
    requires
        !text.contains(c),
        c as u32 <= 0x7f,
    ensures
        !encode_utf8(text).contains(c as u8),
    decreases text.len(),
{
    if text.len() > 0 {
        let others = text.drop_first();
        assert(text.contains(text[0]));
        assert(!others.contains(c)) by {
            if others.contains(c) {
                let i = choose|i: int| 0 <= i < others.len() && others[i] == c;
                assert(text[i + 1] == c);
            }
        }
        lemma_without_byte(others, c);
        let first = text.take(1);
        assert(text =~= first + others);
        lemma_encode_concat(first, others);
        assert(first.drop_first() =~= Seq::<char>::empty());
        reveal_with_fuel(encode_utf8, 2);
        vstd::utf8::char_is_scalar(text[0]);
        let s = text[0] as u32;
        let bytes = vstd::utf8::encode_scalar(s);
        assert(encode_utf8(first) =~= bytes + encode_utf8(first.drop_first()));
        assert(encode_utf8(first) =~= bytes);
        if s <= 0x7f {
            vstd::utf8::char_u32_cast(text[0], s);
            assert(first[0] <= '\u{7f}');
            assert(vstd::utf8::is_ascii_chars(first));
            vstd::utf8::is_ascii_chars_encode_utf8(first);
            assert(first[0] as u8 == encode_utf8(first)[0]);
            assert(text[0] != c);
        } else {
            lemma_wide_scalar(s);
        }
        assert forall|i: int| 0 <= i < bytes.len() implies bytes[i] != c as u8 by {}
        let all = encode_utf8(text);
        if all.contains(c as u8) {
            let i = choose|i: int| 0 <= i < all.len() && all[i] == c as u8;
            if i >= bytes.len() {
                assert(encode_utf8(others)[i - bytes.len()] == c as u8);
            }
        }
    }
}

proof fn lemma_after_slashes(url: Seq<u8>)
    ensures
        after_slashes(url) matches Some(n) ==> 2 <= n <= url.len() && url[n - 1] == 47,
        after_slashes(url) is None ==> forall|i: int|
            0 <= i < url.len() - 1 ==> !(#[trigger] url[i] == 47 && url[i + 1] == 47),
    decreases url.len(),
{
    if url.len() >= 2 && !(url[0] == 47 && url[1] == 47) {
        let less = url.drop_first();
        lemma_after_slashes(less);
        if after_slashes(url) is None {
            assert forall|i: int| 0 <= i < url.len() - 1 implies !(#[trigger] url[i] == 47 && url[i
                + 1] == 47) by {
                if i > 0 {
                    assert(less[i - 1] == url[i] && less[i] == url[i + 1]);
                }
            }
        }
    }
}

proof fn lemma_authority_length(rest: Seq<u8>, k: int)
    requires
        0 <= k < rest.len(),
        rest[k] == 63,
    ensures
        authority_length(rest) <= k,
    decreases rest.len(),
{
    if k > 0 && rest[0] != 47 && rest[0] != 63 && rest[0] != 35 {
        lemma_authority_length(rest.drop_first(), k - 1);
    }
}

proof fn lemma_query_of(head: Seq<u8>, query: Seq<u8>)
    requires
        !head.contains(63),
    ensures
        query_of(head + seq![63u8] + query) == Some(query),
        query_of(head) is None,
    decreases head.len(),
{
    let all = head + seq![63u8] + query;
    if head.len() == 0 {
        assert(all.drop_first() =~= query);
    } else {
        let less = head.drop_first();
        assert(head.contains(head[0]));
        assert(!less.contains(63)) by {
            if less.contains(63) {
                let i = choose|i: int| 0 <= i < less.len() && less[i] == 63;
                assert(head[i + 1] == 63);
            }
        }
        lemma_query_of(less, query);
        assert(all[0] == head[0]);
        assert(all.drop_first() =~= less + seq![63u8] + query);
    }
}

/// What stands before a fragment holds nothing of it, and is all that there is
/// where there is none.
proof fn lemma_before_fragment(rest: Seq<u8>)
    ensures
        before_fragment(rest).len() <= rest.len(),
        before_fragment(rest) == rest.take(before_fragment(rest).len() as int),
        before_fragment(rest).len() < rest.len() ==> rest[before_fragment(rest).len() as int] == 35,
    decreases rest.len(),
{
    if rest.len() > 0 && rest[0] != 35 {
        lemma_before_fragment(rest.drop_first());
        let less = before_fragment(rest.drop_first());
        assert(before_fragment(rest) =~= rest.take(less.len() as int + 1));
        if less.len() + 1 < rest.len() {
            assert(rest.drop_first()[less.len() as int] == rest[less.len() as int + 1]);
        }
    } else {
        assert(before_fragment(rest) =~= rest.take(0));
    }
}

/// A URL whose query begins at the first question mark and is UTF-8 throughout
/// becomes at most as long as its query grows.
proof fn lemma_rewritten(head: Seq<u8>, query: Seq<u8>)
    requires
        !head.contains(63),
        !query.contains(47),
        !query.contains(35),
        valid_utf8(unescaped(query)),
    ensures
        ({
            let url = head + seq![63u8] + query;
            let grown = growth(query, Part::Nothing, true);
            let start = path_start(url);
            &&& rewritten_length(url) <= url.len() + if grown > 0 { grown } else { 0 }
            &&& start > 0 ==> rewritten_length(url) <= url.len() - start + 1 + if grown > 0 {
                grown
            } else {
                0
            }
        }),
{
    let url = head + seq![63u8] + query;
    let k = head.len() as int;
    assert(url[k] == 63);
    assert forall|i: int| k < i < url.len() implies url[i] != 47 && url[i] != 35 by {
        assert(url[i] == query[i - k - 1]);
        assert(query.contains(query[i - k - 1]));
    }
    lemma_after_slashes(url);
    let start = path_start(url) as int;
    if let Some(n) = after_slashes(url) {
        assert(n <= k);
        assert(url.skip(n as int)[k - n] == 63);
        lemma_authority_length(url.skip(n as int), k - n);
    }
    assert(start <= k);
    let whole = url.skip(start);
    let rest = before_fragment(whole);
    lemma_before_fragment(whole);
    let tail = head.skip(start);
    assert(!tail.contains(63)) by {
        if tail.contains(63) {
            let i = choose|i: int| 0 <= i < tail.len() && tail[i] == 63;
            assert(head[i + start] == 63);
        }
    }
    if rest.len() <= tail.len() {
        assert(rest =~= tail.take(rest.len() as int));
        assert(!rest.contains(63)) by {
            if rest.contains(63) {
                let i = choose|i: int| 0 <= i < rest.len() && rest[i] == 63;
                assert(tail[i] == 63);
            }
        }
        lemma_query_of(rest, query);
    } else {
        if rest.len() < whole.len() {
            let m = rest.len() as int;
            assert(whole[m] == 35);
            assert(url[m + start] == 35);
        }
        assert(rest =~= whole);
        assert(whole =~= tail + seq![63u8] + query);
        lemma_query_of(tail, query);
    }
}

proof fn lemma_head(base_url: Seq<char>, bucket: Seq<char>)
    requires
        !base_url.contains('?'),
        !bucket.contains('?'),
    ensures
        !encode_utf8(base_url + "/"@ + bucket).contains(63),
{
    reveal_strlit("/");
    let head = base_url + "/"@ + bucket;
    if head.contains('?') {
        let i = choose|i: int| 0 <= i < head.len() && head[i] == '?';
        if i < base_url.len() {
            assert(base_url.contains(base_url[i]));
        } else if i > base_url.len() {
            assert(bucket.contains(bucket[i - base_url.len() - 1]));
        }
    }
    lemma_without_byte(head, '?');
}

proof fn lemma_no_authority(base_url: Seq<char>, rest: Seq<char>)
    ensures
        !is_authority(base_url + "/"@ + rest),
{
    reveal_strlit("/");
    let url = base_url + "/"@ + rest;
    assert(url[base_url.len() as int] == '/');
    assert(!is_authority_char('/'));
}

/// A text that holds neither a slash nor a number sign.
spec fn stays_in_query(text: Seq<char>) -> bool {
    !text.contains('/') && !text.contains('#')
}

proof fn lemma_stays_in_query(a: Seq<char>, b: Seq<char>)
    requires
        stays_in_query(a),
        stays_in_query(b),
    ensures
        stays_in_query(a + b),
{
    let all = a + b;
    assert forall|c: char| !a.contains(c) && !b.contains(c) implies !all.contains(c) by {
        if all.contains(c) {
            let i = choose|i: int| 0 <= i < all.len() && all[i] == c;
            if i < a.len() {
                assert(a[i] == c);
            } else {
                assert(b[i - a.len()] == c);
            }
        }
    }
}

proof fn lemma_parameter_stays_in_query(name: Seq<char>, value: Option<Seq<char>>)
    requires
        is_plain(name),
    ensures
        stays_in_query(optional_parameter(name, value)),
{
    reveal_strlit("&");
    reveal_strlit("=");
    if let Some(value) = value {
        law_encoded_value_stays_in_its_parameter(value);
        let written = query_encoded(value);
        assert(stays_in_query(written)) by {
            assert forall|i: int| 0 <= i < written.len() implies written[i] != '/' && written[i]
                != '#' by {
                assert(is_encoded_char(written[i]));
            }
        }
        lemma_stays_in_query("&"@, name);
        lemma_stays_in_query("&"@ + name, "="@);
        lemma_stays_in_query("&"@ + name + "="@, written);
    }
}

/// Every page of a listing can be asked for, whatever prefix and token it has: its
/// URL does not grow when it is signed, or is so long that it is refused.
pub proof fn law_listing_fits(
    base_url: Seq<char>,
    bucket: Seq<char>,
    prefix: Option<Seq<char>>,
    token: Option<Seq<char>>,
    max_keys: nat,
)
    requires
        !base_url.contains('?'),
        !bucket.contains('?'),
    ensures
        is_safe_url(list_url(base_url, bucket, prefix, token, max_keys)),
{
    reveal_strlit("?");
    reveal_strlit("?list-type=2&max-keys=");
    reveal_strlit("list-type");
    reveal_strlit("2");
    reveal_strlit("max-keys");
    reveal_strlit("prefix");
    reveal_strlit("continuation-token");
    reveal_strlit("&");
    reveal_strlit("=");
    let url = list_url(base_url, bucket, prefix, token, max_keys);
    let head = base_url + "/"@ + bucket;
    let number = decimal(max_keys);
    let p = optional_parameter("prefix"@, prefix);
    let t = optional_parameter("continuation-token"@, token);
    let fixed = "list-type"@ + "="@ + "2"@ + "&"@ + "max-keys"@ + "="@;
    let start = fixed + number;
    let query = start + p + t;
    assert("?list-type=2&max-keys="@ =~= "?"@ + "list-type"@ + "="@ + "2"@ + "&"@ + "max-keys"@
        + "="@);
    assert(url =~= head + "?"@ + query);
    lemma_decimal_digits(max_keys);
    let none = Seq::<u8>::empty();
    assert(is_settled(none));
    lemma_parameter("continuation-token"@, token, none);
    assert(encode_utf8(t) + none =~= encode_utf8(t));
    lemma_parameter("prefix"@, prefix, encode_utf8(t));
    let rest = encode_utf8(p) + encode_utf8(t);
    let f = encode_utf8(number) + rest;
    let e = encode_utf8("="@) + f;
    let d = encode_utf8("max-keys"@) + e;
    let c = encode_utf8("&"@) + d;
    let b = encode_utf8("2"@) + c;
    let a = encode_utf8("="@) + b;
    lemma_encode_concat(start + p, t);
    lemma_encode_concat(start, p);
    lemma_encode_concat("list-type"@ + "="@ + "2"@ + "&"@ + "max-keys"@ + "="@, number);
    lemma_encode_concat("list-type"@ + "="@ + "2"@ + "&"@ + "max-keys"@, "="@);
    lemma_encode_concat("list-type"@ + "="@ + "2"@ + "&"@, "max-keys"@);
    lemma_encode_concat("list-type"@ + "="@ + "2"@, "&"@);
    lemma_encode_concat("list-type"@ + "="@, "2"@);
    lemma_encode_concat("list-type"@, "="@);
    let bytes = encode_utf8(query);
    assert(bytes =~= encode_utf8("list-type"@) + a);
    lemma_plain_text(number, rest, Part::Value);
    lemma_mark("="@, f);
    lemma_plain_text("max-keys"@, e, Part::Nothing);
    lemma_mark("&"@, d);
    lemma_plain_text("2"@, c, Part::Value);
    lemma_mark("="@, b);
    lemma_plain_text("list-type"@, a, Part::Nothing);
    assert(growth(bytes, Part::Nothing, true) <= 0);
    vstd::utf8::encode_utf8_valid_utf8(number);
    vstd::utf8::encode_utf8_valid_utf8("="@);
    vstd::utf8::encode_utf8_valid_utf8("max-keys"@);
    vstd::utf8::encode_utf8_valid_utf8("&"@);
    vstd::utf8::encode_utf8_valid_utf8("2"@);
    vstd::utf8::encode_utf8_valid_utf8("list-type"@);
    vstd::utf8::valid_utf8_concat(encode_utf8(number), unescaped(rest));
    vstd::utf8::valid_utf8_concat(encode_utf8("="@), unescaped(f));
    vstd::utf8::valid_utf8_concat(encode_utf8("max-keys"@), unescaped(e));
    vstd::utf8::valid_utf8_concat(encode_utf8("&"@), unescaped(d));
    vstd::utf8::valid_utf8_concat(encode_utf8("2"@), unescaped(c));
    vstd::utf8::valid_utf8_concat(encode_utf8("="@), unescaped(b));
    vstd::utf8::valid_utf8_concat(encode_utf8("list-type"@), unescaped(a));
    lemma_parameter_stays_in_query("prefix"@, prefix);
    lemma_parameter_stays_in_query("continuation-token"@, token);
    assert(stays_in_query(fixed));
    lemma_stays_in_query(fixed, number);
    lemma_stays_in_query(start, p);
    lemma_stays_in_query(start + p, t);
    lemma_without_byte(query, '/');
    lemma_without_byte(query, '#');
    lemma_head(base_url, bucket);
    lemma_encode_concat(head + "?"@, query);
    lemma_encode_concat(head, "?"@);
    vstd::utf8::is_ascii_chars_encode_utf8("?"@);
    assert("?"@[0] as u8 == encode_utf8("?"@)[0]);
    assert(encode_utf8("?"@) =~= seq![63u8]);
    lemma_rewritten(encode_utf8(head), bytes);
    lemma_no_authority(base_url, bucket + "?"@ + query);
    assert(url =~= base_url + "/"@ + (bucket + "?"@ + query));
}

/// Every deletion can be asked for at a base URL with a scheme.
pub proof fn law_deletion_fits(base_url: Seq<char>, bucket: Seq<char>)
    requires
        starts_with(base_url, "http://"@) || starts_with(base_url, "https://"@),
        !base_url.contains('?'),
        !bucket.contains('?'),
    ensures
        is_safe_url(delete_url(base_url, bucket)),
{
    reveal_strlit("/");
    reveal_strlit("?");
    reveal_strlit("delete");
    reveal_strlit("?delete");
    reveal_strlit("http://");
    reveal_strlit("https://");
    let url = delete_url(base_url, bucket);
    let head = base_url + "/"@ + bucket;
    assert("?delete"@ =~= "?"@ + "delete"@);
    assert(url =~= head + "?"@ + "delete"@);
    let bytes = encode_utf8("delete"@);
    let none = Seq::<u8>::empty();
    assert(bytes + none =~= bytes);
    lemma_plain_text("delete"@, none, Part::Nothing);
    assert(bytes + unescaped(none) =~= bytes);
    vstd::utf8::encode_utf8_valid_utf8("delete"@);
    lemma_without_byte("delete"@, '/');
    lemma_without_byte("delete"@, '#');
    lemma_head(base_url, bucket);
    lemma_encode_concat(head + "?"@, "delete"@);
    lemma_encode_concat(head, "?"@);
    vstd::utf8::is_ascii_chars_encode_utf8("?"@);
    assert("?"@[0] as u8 == encode_utf8("?"@)[0]);
    assert(encode_utf8("?"@) =~= seq![63u8]);
    lemma_rewritten(encode_utf8(head), bytes);
    let scheme = if starts_with(base_url, "http://"@) { "http://"@ } else { "https://"@ };
    let n = scheme.len() as int;
    assert(url =~= scheme + url.skip(n)) by {
        assert(base_url.take(n) == scheme);
        assert forall|i: int| 0 <= i < n implies url[i] == scheme[i] by {
            assert(base_url.take(n)[i] == base_url[i]);
        }
    }
    lemma_encode_concat(scheme, url.skip(n));
    vstd::utf8::is_ascii_chars_encode_utf8(scheme);
    let all = encode_utf8(url);
    assert(scheme[0] as u8 == encode_utf8(scheme)[0]);
    assert(scheme[n - 2] as u8 == encode_utf8(scheme)[n - 2]);
    assert(scheme[n - 1] as u8 == encode_utf8(scheme)[n - 1]);
    assert(all[0] == 104 && all[n - 2] == 47 && all[n - 2 + 1] == 47);
    lemma_after_slashes(all);
    lemma_no_authority(base_url, bucket + "?delete"@);
    assert(url =~= base_url + "/"@ + (bucket + "?delete"@));
}

// ---------------------------------------------------------------------------
// What a query encodes, and how long it becomes
// ---------------------------------------------------------------------------

/// In place of a percent sign and two hexadecimal digits of either case, of the
/// values `h` and `l`, comes the byte with the value `16 * h + l`. Any other byte
/// stays.
pub proof fn law_unescaped(b: u8, rest: Seq<u8>, h: int, l: int, x: u8, y: u8)
    ensures
        unescaped(Seq::empty()).len() == 0,
        b != 37 ==> unescaped(seq![b] + rest) == seq![b] + unescaped(rest),
        0 <= h < 16 && 0 <= l < 16 && (x == if h < 10 { 48 + h } else { 55 + h } || x == if h < 10 {
            48 + h
        } else {
            87 + h
        }) && (y == if l < 10 { 48 + l } else { 55 + l } || y == if l < 10 { 48 + l } else {
            87 + l
        }) ==> unescaped(seq![37u8, x, y] + rest) == seq![(16 * h + l) as u8] + unescaped(rest),
        rest.len() < 2 || !(48 <= rest[0] <= 57 || 65 <= rest[0] <= 70 || 97 <= rest[0] <= 102)
            || !(48 <= rest[1] <= 57 || 65 <= rest[1] <= 70 || 97 <= rest[1] <= 102) ==> unescaped(
            seq![37u8] + rest,
        ) == seq![37u8] + unescaped(rest),
{
    let plain = seq![b] + rest;
    assert(plain.drop_first() =~= rest);
    let sign = seq![37u8] + rest;
    assert(sign.drop_first() =~= rest);
    if rest.len() >= 2 {
        assert(sign[1] == rest[0] && sign[2] == rest[1]);
    }
    let escape = seq![37u8, x, y] + rest;
    assert(escape.skip(3) =~= rest);
    assert(escape[0] == 37 && escape[1] == x && escape[2] == y);
}

/// What was encoded for a query comes back when it is decoded.
pub proof fn law_encoded_value_decodes(value: Seq<char>)
    ensures
        unescaped(encode_utf8(query_encoded(value))) == encode_utf8(value),
{
    let none = Seq::<u8>::empty();
    let text = encode_utf8(query_encoded(value));
    lemma_value(encode_utf8(value), none);
    assert(text + none =~= text);
    assert(encode_utf8(value) + unescaped(none) =~= encode_utf8(value));
}

/// By how much a query grows, from its beginning: letters, digits, `-`, `.`, `_` and
/// `~` stay as long as they are, an `&` and the first `=` of a parameter too, and
/// every other byte grows by two. A parameter without an `=` gets one, and an empty
/// one is dropped with one `&`.
pub proof fn law_growth(b: u8, rest: Seq<u8>, part: Part, utf8: bool)
    ensures
        growth(Seq::empty(), Part::Nothing, utf8) == -1,
        growth(Seq::empty(), Part::Name, utf8) == 1,
        growth(Seq::empty(), Part::Value, utf8) == 0,
        b == 38 ==> growth(seq![b] + rest, part, utf8) == growth(rest, Part::Nothing, utf8)
            + growth(Seq::empty(), part, utf8),
        b == 61 ==> growth(seq![b] + rest, part, utf8) == growth(rest, Part::Value, utf8)
            + if part is Value { 2int } else { 0int },
        b != 37 && b != 38 && b != 61 ==> growth(seq![b] + rest, part, utf8) == growth(
            rest,
            if part is Value { Part::Value } else { Part::Name },
            utf8,
        ) + if 48 <= b <= 57 || 65 <= b <= 90 || 97 <= b <= 122 || b == 45 || b == 46 || b == 95
            || b == 126 { 0int } else { 2int },
        rest.len() < 2 || !(48 <= rest[0] <= 57 || 65 <= rest[0] <= 70 || 97 <= rest[0] <= 102)
            || !(48 <= rest[1] <= 57 || 65 <= rest[1] <= 70 || 97 <= rest[1] <= 102) ==> growth(
            seq![37u8] + rest,
            part,
            utf8,
        ) == growth(rest, if part is Value { Part::Value } else { Part::Name }, utf8) + 2,
{
    let plain = seq![b] + rest;
    assert(plain.drop_first() =~= rest);
    let sign = seq![37u8] + rest;
    assert(sign.drop_first() =~= rest);
    if rest.len() >= 2 {
        assert(sign[1] == rest[0] && sign[2] == rest[1]);
    }
}

/// By how much an escape of the byte `16 * h + l` grows: not at all, but that it
/// shrinks by two where it stands for a byte that needs none, and may grow by six
/// where it is no ASCII and the query encodes something that is no UTF-8.
pub proof fn law_growth_of_escape(
    rest: Seq<u8>,
    part: Part,
    utf8: bool,
    h: int,
    l: int,
    x: u8,
    y: u8,
)
    requires
        0 <= h < 16,
        0 <= l < 16,
        x == if h < 10 { 48 + h } else { 55 + h } || x == if h < 10 { 48 + h } else { 87 + h },
        y == if l < 10 { 48 + l } else { 55 + l } || y == if l < 10 { 48 + l } else { 87 + l },
    ensures
        ({
            let v = 16 * h + l;
            growth(seq![37u8, x, y] + rest, part, utf8) == growth(
                rest,
                if part is Value { Part::Value } else { Part::Name },
                utf8,
            ) + if 48 <= v <= 57 || 65 <= v <= 90 || 97 <= v <= 122 || v == 45 || v == 46 || v == 95
                || v == 126 { -2int } else if utf8 || v < 128 { 0int } else { 6int }
        }),
{
    let escape = seq![37u8, x, y] + rest;
    assert(escape.skip(3) =~= rest);
    assert(escape[0] == 37 && escape[1] == x && escape[2] == y);
    assert(escaped_byte(escape) == 16 * h + l);
}

proof fn lemma_slashes_behind_scheme(scheme: Seq<u8>, rest: Seq<u8>)
    requires
        !scheme.contains(47),
    ensures
        after_slashes(scheme + seq![47u8, 47u8] + rest) == Some(scheme.len() + 2),
    decreases scheme.len(),
{
    let url = scheme + seq![47u8, 47u8] + rest;
    if scheme.len() > 0 {
        let less = scheme.drop_first();
        assert(scheme.contains(scheme[0]));
        assert(!less.contains(47)) by {
            if less.contains(47) {
                let i = choose|i: int| 0 <= i < less.len() && less[i] == 47;
                assert(scheme[i + 1] == 47);
            }
        }
        lemma_slashes_behind_scheme(less, rest);
        assert(url[0] == scheme[0]);
        assert(url.drop_first() =~= less + seq![47u8, 47u8] + rest);
    } else {
        assert(url[0] == 47 && url[1] == 47);
    }
}

proof fn lemma_authority_ends(authority: Seq<u8>, rest: Seq<u8>)
    requires
        !authority.contains(47),
        !authority.contains(63),
        !authority.contains(35),
        rest.len() == 0 || rest[0] == 47 || rest[0] == 63 || rest[0] == 35,
    ensures
        authority_length(authority + rest) == authority.len(),
    decreases authority.len(),
{
    let all = authority + rest;
    if authority.len() > 0 {
        let less = authority.drop_first();
        assert(authority.contains(authority[0]));
        assert forall|b: u8| !authority.contains(b) implies !less.contains(b) by {
            if less.contains(b) {
                let i = choose|i: int| 0 <= i < less.len() && less[i] == b;
                assert(authority[i + 1] == b);
            }
        }
        lemma_authority_ends(less, rest);
        assert(all[0] == authority[0]);
        assert(all.drop_first() =~= less + rest);
    } else {
        assert(all =~= rest);
    }
}

proof fn lemma_fragment_ends(text: Seq<u8>, fragment: Seq<u8>)
    requires
        !text.contains(35),
        fragment.len() == 0 || fragment[0] == 35,
    ensures
        before_fragment(text + fragment) == text,
{
    let all = text + fragment;
    let n = before_fragment(all).len() as int;
    lemma_before_fragment(all);
    if n < text.len() {
        assert(all[n] == text[n]);
        assert(text.contains(text[n]));
    }
    lemma_nothing_of_fragment(all);
    if n > text.len() {
        assert(all[text.len() as int] == 35);
        assert(before_fragment(all)[text.len() as int] == 35);
    }
    assert(before_fragment(all) =~= text);
}

proof fn lemma_nothing_of_fragment(rest: Seq<u8>)
    ensures
        forall|i: int|
            0 <= i < before_fragment(rest).len() ==> #[trigger] before_fragment(rest)[i] != 35,
    decreases rest.len(),
{
    if rest.len() > 0 && rest[0] != 35 {
        lemma_nothing_of_fragment(rest.drop_first());
        let less = before_fragment(rest.drop_first());
        assert forall|i: int| 0 <= i < before_fragment(rest).len() implies #[trigger]
        before_fragment(rest)[i] != 35 by {
            if i > 0 {
                assert(before_fragment(rest)[i] == less[i - 1]);
            }
        }
    }
}

/// The length of a URL when its query is written anew: that of its path, which is
/// one slash at least, of the question mark, and of the query with what it grows by.
/// Without a query it is the length of the path as it stands. Scheme, authority and
/// fragment have no part in it.
pub proof fn law_rewritten_length(
    scheme: Seq<u8>,
    authority: Seq<u8>,
    path: Seq<u8>,
    query: Seq<u8>,
    fragment: Seq<u8>,
)
    requires
        scheme.len() > 0,
        !scheme.contains(47),
        !authority.contains(47),
        !authority.contains(63),
        !authority.contains(35),
        path.len() > 0 ==> path[0] == 47,
        !path.contains(63),
        !path.contains(35),
        !query.contains(35),
        fragment.len() > 0 ==> fragment[0] == 35,
    ensures
        rewritten_length(
            scheme + seq![47u8, 47u8] + (authority + (path + seq![63u8] + query + fragment)),
        ) == (if path.len() == 0 { 1int } else { path.len() as int }) + 1 + query.len() + growth(
            query,
            Part::Nothing,
            valid_utf8(unescaped(query)),
        ),
        rewritten_length(scheme + seq![47u8, 47u8] + (authority + (path + fragment)))
            == path.len(),
        path.len() > 0 ==> rewritten_length(path + seq![63u8] + query + fragment) == path.len() + 1
            + query.len() + growth(query, Part::Nothing, valid_utf8(unescaped(query))),
{
    let asked = path + seq![63u8] + query;
    let head = scheme + seq![47u8, 47u8];
    let with = asked + fragment;
    let without = path + fragment;
    let n = head.len() as int;
    let k = n + authority.len();
    if with.len() > 0 {
        assert(with[0] == if path.len() > 0 { path[0] } else { 63u8 });
    }
    if without.len() > 0 {
        assert(without[0] == if path.len() > 0 { path[0] } else { fragment[0] });
    }
    assert(scheme.contains(scheme[0]));
    assert(!asked.contains(35)) by {
        if asked.contains(35) {
            let i = choose|i: int| 0 <= i < asked.len() && asked[i] == 35;
            if i < path.len() {
                assert(path[i] == 35);
            } else if i > path.len() {
                assert(query[i - path.len() - 1] == 35);
            }
        }
    }
    lemma_query_of(path, query);
    lemma_fragment_ends(asked, fragment);
    lemma_fragment_ends(path, fragment);
    lemma_authority_ends(authority, with);
    lemma_authority_ends(authority, without);
    lemma_slashes_behind_scheme(scheme, authority + with);
    lemma_slashes_behind_scheme(scheme, authority + without);
    let a = head + (authority + with);
    assert(a[0] == scheme[0]);
    assert(a.skip(n) =~= authority + with);
    assert(a.skip(k) =~= with);
    assert(asked[0] == if path.len() > 0 { path[0] } else { 63u8 });
    let b = head + (authority + without);
    assert(b[0] == scheme[0]);
    assert(b.skip(n) =~= authority + without);
    assert(b.skip(k) =~= without);
    if path.len() > 0 {
        assert(with.skip(0) =~= with);
    }
}

} // verus!
