//! The URLs of the S3 endpoint.

use crate::encoding::encode_query_value;
use crate::outside::split_once;
use crate::text::decimal_string;
use vstd::prelude::*;
use vstd::string::StringExecFns;
use vstd::utf8::encode_utf8;

#[allow(unused_imports)]
use crate::encoding::{
    is_encoded_char, law_encoded_value_stays_in_its_parameter, law_encoding_loses_nothing,
    query_encoded,
};
#[allow(unused_imports)]
use crate::outside::{first_at, percent_encoded, stands_at};
#[allow(unused_imports)]
use crate::text::{
    decimal, law_decimal, lemma_decimal_digits, lemma_decimal_injective, numeral,
};

verus! {

/// An optional string by its text.
pub open spec fn optional_text(s: Option<&str>) -> Option<Seq<char>> {
    match s {
        Some(s) => Some(s@),
        None => None,
    }
}

/// A query parameter that is left out where it has no value.
pub open spec fn optional_parameter(name: Seq<char>, value: Option<Seq<char>>) -> Seq<char> {
    match value {
        Some(value) => "&"@ + name + "="@ + query_encoded(value),
        None => seq![],
    }
}

/// The URL of one page of a bucket's listing.
pub open spec fn list_url(
    base_url: Seq<char>,
    bucket: Seq<char>,
    prefix: Option<Seq<char>>,
    continuation_token: Option<Seq<char>>,
    max_keys: nat,
) -> Seq<char> {
    base_url + "/"@ + bucket + "?list-type=2&max-keys="@ + decimal(max_keys) + optional_parameter(
        "prefix"@,
        prefix,
    ) + optional_parameter("continuation-token"@, continuation_token)
}

/// What the URL of a page says: the base URL, the bucket, the size of the page and,
/// where they are given, the prefix and the token, each encoded.
pub proof fn law_list_url(
    base_url: Seq<char>,
    bucket: Seq<char>,
    prefix: Option<Seq<char>>,
    token: Option<Seq<char>>,
    max_keys: nat,
)
    ensures
        list_url(base_url, bucket, prefix, token, max_keys) == base_url + "/"@ + bucket
            + "?list-type=2&max-keys="@ + decimal(max_keys) + (match prefix {
            Some(prefix) => "&prefix="@ + percent_encoded(encode_utf8(prefix)),
            None => seq![],
        }) + (match token {
            Some(token) => "&continuation-token="@ + percent_encoded(encode_utf8(token)),
            None => seq![],
        }),
        numeral(decimal(max_keys)) == max_keys,
{
    reveal_strlit("&");
    reveal_strlit("=");
    reveal_strlit("prefix");
    reveal_strlit("continuation-token");
    reveal_strlit("&prefix=");
    reveal_strlit("&continuation-token=");
    assert("&prefix="@ =~= "&"@ + "prefix"@ + "="@);
    assert("&continuation-token="@ =~= "&"@ + "continuation-token"@ + "="@);
    law_decimal(max_keys);
}

/// Writes the URL of one page of a bucket's listing.
pub fn build_list_url(
    base_url: &str,
    bucket: &str,
    prefix: Option<&str>,
    continuation_token: Option<&str>,
    max_keys: u32,
) -> (r: String)
    ensures
        r@ == list_url(
            base_url@,
            bucket@,
            optional_text(prefix),
            optional_text(continuation_token),
            max_keys as nat,
        ),
        r@ == base_url@ + "/"@ + bucket@ + "?list-type=2&max-keys="@ + decimal(max_keys as nat) + (
        match prefix {
            Some(prefix) => "&prefix="@ + percent_encoded(encode_utf8(prefix@)),
            None => seq![],
        }) + (match continuation_token {
            Some(token) => "&continuation-token="@ + percent_encoded(encode_utf8(token@)),
            None => seq![],
        }),
{
    proof {
        law_list_url(
            base_url@,
            bucket@,
            optional_text(prefix),
            optional_text(continuation_token),
            max_keys as nat,
        );
    }
    let mut url = base_url.to_owned();
    url.append("/");
    url.append(bucket);
    url.append("?list-type=2&max-keys=");
    url.append(decimal_string(max_keys as u64).as_str());
    append_parameter(&mut url, "prefix", prefix);
    append_parameter(&mut url, "continuation-token", continuation_token);
    url
}

fn append_parameter(url: &mut String, name: &str, value: Option<&str>)
    ensures
        final(url)@ == old(url)@ + optional_parameter(name@, optional_text(value)),
{
    match value {
        Some(value) => {
            url.append("&");
            url.append(name);
            url.append("=");
            url.append(encode_query_value(value).as_str());
            assert(url@ =~= old(url)@ + optional_parameter(name@, Some(value@)));
        },
        None => {
            assert(url@ =~= old(url)@ + optional_parameter(name@, None));
        },
    }
}

/// `tail` is empty or begins a parameter.
spec fn begins_parameter(tail: Seq<char>) -> bool {
    tail.len() == 0 || tail[0] == '&'
}

proof fn lemma_value_ends(a: Seq<char>, u: Seq<char>, b: Seq<char>, v: Seq<char>)
    requires
        query_encoded(a) + u == query_encoded(b) + v,
        begins_parameter(u),
        begins_parameter(v),
    ensures
        a == b,
        u == v,
{
    let x = query_encoded(a);
    let y = query_encoded(b);
    law_encoded_value_stays_in_its_parameter(a);
    law_encoded_value_stays_in_its_parameter(b);
    assert((x + u).len() == (y + v).len());
    if x.len() < y.len() {
        assert((x + u)[x.len() as int] == u[0]);
        assert((y + v)[x.len() as int] == y[x.len() as int]);
        assert(is_encoded_char(y[x.len() as int]));
    }
    if y.len() < x.len() {
        assert((y + v)[y.len() as int] == v[0]);
        assert((x + u)[y.len() as int] == x[y.len() as int]);
        assert(is_encoded_char(x[y.len() as int]));
    }
    assert(x =~= (x + u).take(x.len() as int));
    assert(y =~= (y + v).take(y.len() as int));
    assert(u =~= (x + u).skip(x.len() as int));
    assert(v =~= (y + v).skip(y.len() as int));
    law_encoding_loses_nothing(a, b);
}

proof fn lemma_parameter_ends(
    name: Seq<char>,
    a: Option<Seq<char>>,
    u: Seq<char>,
    b: Option<Seq<char>>,
    v: Seq<char>,
)
    requires
        optional_parameter(name, a) + u == optional_parameter(name, b) + v,
        name.len() > 0,
        begins_parameter(u),
        begins_parameter(v),
        u.len() > 1 ==> u[1] != name[0],
        v.len() > 1 ==> v[1] != name[0],
    ensures
        a == b,
        u == v,
{
    reveal_strlit("&");
    reveal_strlit("=");
    let x = optional_parameter(name, a) + u;
    let y = optional_parameter(name, b) + v;
    let head = "&"@ + name + "="@;
    match (a, b) {
        (Some(a), Some(b)) => {
            let n = head.len() as int;
            assert(x.skip(n) =~= query_encoded(a) + u);
            assert(y.skip(n) =~= query_encoded(b) + v);
            lemma_value_ends(a, u, b, v);
        },
        (None, None) => {
            assert(x =~= u);
            assert(y =~= v);
        },
        (Some(_), None) => {
            assert(y =~= v);
            assert(x[1] == head[1]);
        },
        (None, Some(_)) => {
            assert(x =~= u);
            assert(y[1] == head[1]);
        },
    }
}

proof fn lemma_number_ends(a: nat, u: Seq<char>, b: nat, v: Seq<char>)
    requires
        decimal(a) + u == decimal(b) + v,
        begins_parameter(u),
        begins_parameter(v),
    ensures
        a == b,
        u == v,
{
    let x = decimal(a);
    let y = decimal(b);
    lemma_decimal_digits(a);
    lemma_decimal_digits(b);
    assert((x + u).len() == (y + v).len());
    if x.len() < y.len() {
        assert((x + u)[x.len() as int] == u[0]);
        assert((y + v)[x.len() as int] == y[x.len() as int]);
    }
    if y.len() < x.len() {
        assert((y + v)[y.len() as int] == v[0]);
        assert((x + u)[y.len() as int] == x[y.len() as int]);
    }
    assert(x =~= (x + u).take(x.len() as int));
    assert(y =~= (y + v).take(y.len() as int));
    assert(u =~= (x + u).skip(x.len() as int));
    assert(v =~= (y + v).skip(y.len() as int));
    lemma_decimal_injective(a, b);
}

/// Pages of a bucket's listing that start from different places, are of keys with
/// different prefixes or may hold different numbers of keys have different URLs.
pub proof fn law_pages_have_their_own_urls(
    base_url: Seq<char>,
    bucket: Seq<char>,
    prefix: Option<Seq<char>>,
    token: Option<Seq<char>>,
    max_keys: nat,
    other_prefix: Option<Seq<char>>,
    other_token: Option<Seq<char>>,
    other_max_keys: nat,
)
    requires
        list_url(base_url, bucket, prefix, token, max_keys) == list_url(
            base_url,
            bucket,
            other_prefix,
            other_token,
            other_max_keys,
        ),
    ensures
        max_keys == other_max_keys,
        prefix == other_prefix,
        token == other_token,
{
    reveal_strlit("&");
    reveal_strlit("=");
    reveal_strlit("prefix");
    reveal_strlit("continuation-token");
    let head = base_url + "/"@ + bucket + "?list-type=2&max-keys="@;
    let n = head.len() as int;
    let p = optional_parameter("prefix"@, prefix);
    let q = optional_parameter("prefix"@, other_prefix);
    let t = optional_parameter("continuation-token"@, token);
    let s = optional_parameter("continuation-token"@, other_token);
    let url = list_url(base_url, bucket, prefix, token, max_keys);
    assert(url.skip(n) =~= decimal(max_keys) + (p + t));
    assert(url.skip(n) =~= decimal(other_max_keys) + (q + s));
    lemma_number_ends(max_keys, p + t, other_max_keys, q + s);
    lemma_parameter_ends("prefix"@, prefix, t, other_prefix, s);
    let none = Seq::<char>::empty();
    assert(t + none =~= t);
    assert(s + none =~= s);
    lemma_parameter_ends("continuation-token"@, token, none, other_token, none);
}

/// The URL to which a deletion from a bucket is posted.
pub open spec fn delete_url(base_url: Seq<char>, bucket: Seq<char>) -> Seq<char> {
    base_url + "/"@ + bucket + "?delete"@
}

/// Writes the URL to which a deletion from a bucket is posted.
pub fn build_delete_url(base_url: &str, bucket: &str) -> (r: String)
    ensures
        r@ == delete_url(base_url@, bucket@),
        r@ == base_url@ + "/"@ + bucket@ + "?delete"@,
{
    let mut url = base_url.to_owned();
    url.append("/");
    url.append(bucket);
    url.append("?delete");
    url
}

/// The host that a URL names: what stands between the first `//` and the next
/// `/`. A text without these two is its own host.
pub open spec fn host_of(url: Seq<char>) -> Seq<char> {
    if exists|i: int| first_at(url, "//"@, i) {
        let rest = url.skip((choose|i: int| first_at(url, "//"@, i)) + 2);
        if exists|j: int| first_at(rest, "/"@, j) {
            rest.take(choose|j: int| first_at(rest, "/"@, j))
        } else {
            url
        }
    } else {
        url
    }
}

proof fn lemma_first_at_unique(s: Seq<char>, piece: Seq<char>, i: int, j: int)
    requires
        first_at(s, piece, i),
        first_at(s, piece, j),
    ensures
        i == j,
{
}

/// The host of a URL is what stands behind its first two slashes, up to the next
/// slash; a URL without these is its own host.
pub proof fn law_host_of(url: Seq<char>)
    ensures
        (forall|i: int| !stands_at(url, "//"@, i)) ==> host_of(url) == url,
        forall|i: int| #[trigger]
            first_at(url, "//"@, i) ==> {
                let rest = url.skip(i + 2);
                let host = host_of(url);
                if rest.contains('/') {
                    &&& host.len() < rest.len()
                    &&& host == rest.take(host.len() as int)
                    &&& rest[host.len() as int] == '/'
                    &&& !host.contains('/')
                } else {
                    host == url
                }
            },
{
    reveal_strlit("//");
    reveal_strlit("/");
    assert forall|i: int| #[trigger] first_at(url, "//"@, i) implies {
        let rest = url.skip(i + 2);
        let host = host_of(url);
        if rest.contains('/') {
            &&& host.len() < rest.len()
            &&& host == rest.take(host.len() as int)
            &&& rest[host.len() as int] == '/'
            &&& !host.contains('/')
        } else {
            host == url
        }
    } by {
        let k = choose|k: int| first_at(url, "//"@, k);
        lemma_first_at_unique(url, "//"@, i, k);
        let rest = url.skip(i + 2);
        if rest.contains('/') {
            let n = choose|n: int| 0 <= n < rest.len() && rest[n] == '/';
            lemma_first_slash(rest, n);
            let j = choose|j: int| first_at(rest, "/"@, j);
            assert(rest.subrange(j, j + 1)[0] == '/');
            let host = rest.take(j);
            assert forall|m: int| 0 <= m < j implies host[m] != '/' by {
                if rest[m] == '/' {
                    assert(rest.subrange(m, m + 1) =~= "/"@);
                    assert(stands_at(rest, "/"@, m));
                }
            }
        } else {
            if exists|j: int| first_at(rest, "/"@, j) {
                let j = choose|j: int| first_at(rest, "/"@, j);
                assert(rest.subrange(j, j + 1)[0] == '/');
                assert(rest.contains(rest[j]));
            }
        }
    }
    if forall|i: int| !stands_at(url, "//"@, i) {
        if exists|i: int| first_at(url, "//"@, i) {
            let i = choose|i: int| first_at(url, "//"@, i);
            assert(stands_at(url, "//"@, i));
        }
    }
}

proof fn lemma_first_slash(rest: Seq<char>, n: int)
    requires
        0 <= n < rest.len(),
        rest[n] == '/',
    ensures
        exists|j: int| first_at(rest, "/"@, j),
    decreases n,
{
    reveal_strlit("/");
    assert(rest.subrange(n, n + 1) =~= "/"@);
    if exists|m: int| 0 <= m < n && stands_at(rest, "/"@, m) {
        let m = choose|m: int| 0 <= m < n && stands_at(rest, "/"@, m);
        assert(rest.subrange(m, m + 1)[0] == '/');
        lemma_first_slash(rest, m);
    } else {
        assert(first_at(rest, "/"@, n));
    }
}

/// Finds the host that a URL names.
pub fn host_from_url(url: &str) -> (r: &str)
    ensures
        r@ == host_of(url@),
        (forall|i: int| !stands_at(url@, "//"@, i)) ==> r@ == url@,
        forall|i: int| #[trigger]
            first_at(url@, "//"@, i) ==> {
                let rest = url@.skip(i + 2);
                if rest.contains('/') {
                    &&& r@.len() < rest.len()
                    &&& r@ == rest.take(r@.len() as int)
                    &&& rest[r@.len() as int] == '/'
                    &&& !r@.contains('/')
                } else {
                    r@ == url@
                }
            },
{
    proof {
        reveal_strlit("//");
        law_host_of(url@);
    }
    match split_once(url, "//") {
        Some((head, rest)) => {
            proof {
                let i = choose|i: int| first_at(url@, "//"@, i);
                lemma_first_at_unique(url@, "//"@, i, head@.len() as int);
                assert(rest@ =~= url@.skip(i + 2));
            }
            match split_once(rest, "/") {
                Some((host, tail)) => {
                    proof {
                        let j = choose|j: int| first_at(rest@, "/"@, j);
                        lemma_first_at_unique(rest@, "/"@, j, host@.len() as int);
                        assert(host@ =~= rest@.take(j));
                    }
                    host
                },
                None => url,
            }
        },
        None => url,
    }
}

/// The host of a URL that continues a base URL `scheme//host` with a path is
/// that host, where neither part of the base holds a slash of its own.
pub proof fn law_host_of_continued_url(scheme: Seq<char>, host: Seq<char>, path: Seq<char>)
    requires
        !scheme.contains('/'),
        !host.contains('/'),
    ensures
        host_of(scheme + "//"@ + host + "/"@ + path) == host,
{
    reveal_strlit("//");
    reveal_strlit("/");
    let url = scheme + "//"@ + host + "/"@ + path;
    let k = scheme.len() as int;
    assert(url.subrange(k, k + 2) =~= "//"@);
    assert forall|j: int| 0 <= j < k implies !stands_at(url, "//"@, j) by {
        if stands_at(url, "//"@, j) {
            assert(url.subrange(j, j + 2)[0] == '/');
            assert(scheme[j] == '/');
        }
    }
    assert(first_at(url, "//"@, k));
    let i = choose|i: int| first_at(url, "//"@, i);
    lemma_first_at_unique(url, "//"@, i, k);
    let rest = url.skip(k + 2);
    assert(rest =~= host + "/"@ + path);
    let n = host.len() as int;
    assert(rest.subrange(n, n + 1) =~= "/"@);
    assert forall|j: int| 0 <= j < n implies !stands_at(rest, "/"@, j) by {
        if stands_at(rest, "/"@, j) {
            assert(rest.subrange(j, j + 1)[0] == '/');
            assert(host[j] == '/');
        }
    }
    assert(first_at(rest, "/"@, n));
    let m = choose|j: int| first_at(rest, "/"@, j);
    lemma_first_at_unique(rest, "/"@, m, n);
    assert(rest.take(n) =~= host);
}

} // verus!
