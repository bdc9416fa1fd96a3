//! Pages of a bucket's listing, and the buckets that a listing of the system
//! bucket names.

use crate::outside::{strip_prefix, strip_suffix};
use crate::text::{text_before, text_equal};
use vstd::prelude::*;

#[allow(unused_imports)]
use crate::text::{before, bytes_before};
#[allow(unused_imports)]
use crate::url::optional_text;

verus! {

/// One object of a listing.
#[derive(Debug)]
pub struct ListBucketObject {
    pub key: String,
}

/// One page of a listing.
#[derive(Debug)]
pub struct ListBucketResult {
    /// Whether the listing goes on after this page.
    pub is_truncated: bool,
    /// Where it goes on.
    pub next_continuation_token: Option<String>,
    pub contents: Vec<ListBucketObject>,
}

/// What a page says: the keys on it, whether the listing goes on, and where.
pub struct Page {
    pub keys: Seq<Seq<char>>,
    pub truncated: bool,
    pub next: Option<Seq<char>>,
}

/// An optional string by its text.
pub open spec fn optional_string(s: Option<String>) -> Option<Seq<char>> {
    match s {
        Some(s) => Some(s@),
        None => None,
    }
}

/// Strings by their texts.
pub open spec fn texts(strings: Seq<String>) -> Seq<Seq<char>> {
    Seq::new(strings.len(), |i: int| strings[i]@)
}

impl View for ListBucketResult {
    type V = Page;

    open spec fn view(&self) -> Page {
        Page {
            keys: object_keys(self.contents@),
            truncated: self.is_truncated,
            next: optional_string(self.next_continuation_token),
        }
    }
}

/// Objects by their keys.
pub open spec fn object_keys(objects: Seq<ListBucketObject>) -> Seq<Seq<char>> {
    Seq::new(objects.len(), |i: int| objects[i].key@)
}

/// A page is its objects' keys in order, whether it is truncated, and its token; and
/// strings are their texts.
pub proof fn law_page_view(
    page: ListBucketResult,
    strings: Seq<String>,
    string: Option<String>,
)
    ensures
        page@.keys.len() == page.contents@.len(),
        forall|i: int|
            0 <= i < page.contents@.len() ==> #[trigger] page@.keys[i] == page.contents@[i].key@,
        page@.truncated == page.is_truncated,
        page@.next is Some <==> page.next_continuation_token is Some,
        page.next_continuation_token matches Some(token) ==> page@.next == Some(token@),
        texts(strings).len() == strings.len(),
        forall|i: int| 0 <= i < strings.len() ==> #[trigger] texts(strings)[i] == strings[i]@,
        optional_string(string) is Some <==> string is Some,
        string matches Some(text) ==> optional_string(string) == Some(text@),
{
}

/// The keys of objects, in order.
pub fn keys_of(objects: &Vec<ListBucketObject>) -> (r: Vec<String>)
    ensures
        texts(r@) == object_keys(objects@),
        r@.len() == objects@.len(),
        forall|i: int| 0 <= i < objects@.len() ==> (#[trigger] r@[i])@ == objects@[i].key@,
{
    let mut keys: Vec<String> = Vec::new();
    let ghost all = object_keys(objects@);
    assert(texts(keys@) =~= all.take(0));
    for i in 0..objects.len()
        invariant
            all == object_keys(objects@),
            texts(keys@) == all.take(i as int),
    {
        let ghost earlier = keys@;
        keys.push(objects[i].key.clone());
        assert(texts(keys@) =~= texts(earlier).push(all[i as int]));
        assert(all.take(i as int).push(all[i as int]) =~= all.take(i + 1));
    }
    assert(all.take(objects@.len() as int) =~= all);
    assert forall|i: int| 0 <= i < objects@.len() implies (#[trigger] keys@[i])@
        == objects@[i].key@ by {
        assert(keys@[i]@ == texts(keys@)[i]);
    }
    keys
}

/// The key under which the system bucket keeps what it knows of a bucket.
pub open spec fn meta_key(bucket: Seq<char>) -> Seq<char> {
    "buckets/"@ + bucket + "/.metadata.bin"@
}

/// The bucket that a key of the system bucket is about, if it is about one.
pub open spec fn bucket_of(key: Seq<char>) -> Option<Seq<char>> {
    if exists|bucket: Seq<char>| key == meta_key(bucket) {
        Some(choose|bucket: Seq<char>| key == meta_key(bucket))
    } else {
        None
    }
}

/// Two buckets are never kept under one key.
pub proof fn law_meta_key_names_one_bucket(a: Seq<char>, b: Seq<char>)
    requires
        meta_key(a) == meta_key(b),
    ensures
        a == b,
{
    let n = "buckets/"@.len() as int;
    let m = "/.metadata.bin"@.len() as int;
    assert(meta_key(a).len() == n + a.len() + m);
    assert(meta_key(b).len() == n + b.len() + m);
    assert(a =~= meta_key(a).subrange(n, n + a.len()));
    assert(b =~= meta_key(b).subrange(n, n + b.len()));
}

/// The key of a bucket leads back to that bucket, and no other key does.
pub proof fn law_bucket_of_meta_key(bucket: Seq<char>, key: Seq<char>)
    ensures
        bucket_of(meta_key(bucket)) == Some(bucket),
        bucket_of(key) == Some(bucket) <==> key == meta_key(bucket),
{
    assert(meta_key(bucket) == meta_key(bucket));
    let found = choose|b: Seq<char>| meta_key(bucket) == meta_key(b);
    law_meta_key_names_one_bucket(bucket, found);
    if bucket_of(key) == Some(bucket) {
        let b = choose|b: Seq<char>| key == meta_key(b);
        assert(b == bucket);
    }
}

/// Reads off a key of the system bucket the bucket that it is about.
pub fn bucket_name_from_meta_key(key: &str) -> (r: Option<&str>)
    ensures
        optional_text(r) == bucket_of(key@),
        match r {
            Some(bucket) => key@ == "buckets/"@ + bucket@ + "/.metadata.bin"@,
            None => forall|bucket: Seq<char>| key@ != #[trigger] ("buckets/"@ + bucket
                + "/.metadata.bin"@),
        },
{
    match strip_prefix(key, "buckets/") {
        Some(rest) => {
            let r = strip_suffix(rest, "/.metadata.bin");
            proof {
                let n = "buckets/"@.len() as int;
                let m = "/.metadata.bin"@.len() as int;
                match r {
                    Some(bucket) => {
                        assert(key@ =~= meta_key(bucket@));
                        law_bucket_of_meta_key(bucket@, key@);
                    },
                    None => {
                        assert forall|b: Seq<char>| key@ != meta_key(b) by {
                            if key@ == meta_key(b) {
                                assert(rest@ =~= b + "/.metadata.bin"@);
                                assert(rest@.skip(rest@.len() - m) =~= "/.metadata.bin"@);
                            }
                        }
                        assert forall|b: Seq<char>| key@ != #[trigger] ("buckets/"@ + b
                            + "/.metadata.bin"@) by {
                            assert(key@ != meta_key(b));
                        }
                    },
                }
            }
            r
        },
        None => {
            proof {
                assert forall|b: Seq<char>| key@ != meta_key(b) by {
                    if key@ == meta_key(b) {
                        assert(key@.take("buckets/"@.len() as int) =~= "buckets/"@);
                    }
                }
                assert forall|b: Seq<char>| key@ != #[trigger] ("buckets/"@ + b
                    + "/.metadata.bin"@) by {
                    assert(key@ != meta_key(b));
                }
            }
            None
        },
    }
}

/// The buckets that keys are about, in the order of the keys, the system bucket
/// left out.
pub open spec fn named_buckets(keys: Seq<Seq<char>>, system_bucket: Seq<char>) -> Seq<Seq<char>>
    decreases keys.len(),
{
    if keys.len() == 0 {
        seq![]
    } else {
        let earlier = named_buckets(keys.drop_last(), system_bucket);
        match bucket_of(keys.last()) {
            Some(bucket) => if bucket == system_bucket {
                earlier
            } else {
                earlier.push(bucket)
            },
            None => earlier,
        }
    }
}

/// The buckets that keys are about are those of the keys that the system bucket
/// keeps for other buckets, one for each such key and in the order of the keys.
pub proof fn law_named_buckets(keys: Seq<Seq<char>>, system_bucket: Seq<char>)
    ensures
        named_buckets(keys, system_bucket).map_values(
            |b: Seq<char>| "buckets/"@ + b + "/.metadata.bin"@,
        ) == keys.filter(
            |key: Seq<char>|
                exists|b: Seq<char>|
                    b != system_bucket && key == #[trigger] ("buckets/"@ + b + "/.metadata.bin"@),
        ),
    decreases keys.len(),
{
    reveal(Seq::filter);
    let named = named_buckets(keys, system_bucket).map_values(
        |b: Seq<char>| "buckets/"@ + b + "/.metadata.bin"@,
    );
    if keys.len() == 0 {
        assert(named =~= Seq::<Seq<char>>::empty());
    } else {
        let fewer = keys.drop_last();
        let key = keys.last();
        law_named_buckets(fewer, system_bucket);
        let earlier = named_buckets(fewer, system_bucket).map_values(
            |b: Seq<char>| "buckets/"@ + b + "/.metadata.bin"@,
        );
        assert forall|b: Seq<char>| bucket_of(key) == Some(b) <==> key == #[trigger] ("buckets/"@
            + b + "/.metadata.bin"@) by {
            law_bucket_of_meta_key(b, key);
        }
        match bucket_of(key) {
            Some(b) => {
                assert(key == "buckets/"@ + b + "/.metadata.bin"@);
                if b != system_bucket {
                    assert(named =~= earlier.push(key));
                }
            },
            None => {},
        }
    }
}

/// Adds to `found` the buckets that a page names.
pub fn collect_buckets(found: &mut Vec<String>, page: &ListBucketResult, system_bucket: &str)
    ensures
        texts(final(found)@) == texts(old(found)@) + named_buckets(page@.keys, system_bucket@),
{
    assert(texts(found@) =~= texts(old(found)@) + named_buckets(
        page@.keys.take(0),
        system_bucket@,
    ));
    for i in 0..page.contents.len()
        invariant
            texts(found@) == texts(old(found)@) + named_buckets(
                page@.keys.take(i as int),
                system_bucket@,
            ),
    {
        let ghost before_step = found@;
        proof {
            assert(page@.keys.take(i + 1).drop_last() =~= page@.keys.take(i as int));
            assert(page@.keys.take(i + 1).last() == page.contents@[i as int].key@);
        }
        if let Some(bucket) = bucket_name_from_meta_key(page.contents[i].key.as_str()) {
            if !text_equal(bucket, system_bucket) {
                found.push(bucket.to_owned());
                assert(texts(found@) =~= texts(before_step).push(bucket@));
                assert(texts(found@) =~= texts(old(found)@) + named_buckets(
                    page@.keys.take(i + 1),
                    system_bucket@,
                ));
            }
        }
    }
    assert(page@.keys.take(page.contents@.len() as int) =~= page@.keys);
}

/// Every element comes before every later one: sorted, and none twice.
pub open spec fn strictly_sorted(s: Seq<Seq<char>>) -> bool {
    forall|i: int, j: int| 0 <= i < j < s.len() ==> before(#[trigger] s[i], #[trigger] s[j])
}

/// `r` is the elements of `s`, each once, in order.
pub open spec fn is_sorted_set_of(r: Seq<Seq<char>>, s: Seq<Seq<char>>) -> bool {
    strictly_sorted(r) && forall|x: Seq<char>| #[trigger] r.contains(x) <==> s.contains(x)
}

/// The elements of `s`, each once, in order.
pub open spec fn sorted_set(s: Seq<Seq<char>>) -> Seq<Seq<char>> {
    choose|r: Seq<Seq<char>>| is_sorted_set_of(r, s)
}

proof fn lemma_bytes_order(a: Seq<u8>, b: Seq<u8>, c: Seq<u8>)
    ensures
        !bytes_before(a, a),
        bytes_before(a, b) ==> !bytes_before(b, a),
        a == b || bytes_before(a, b) || bytes_before(b, a),
        bytes_before(a, b) && bytes_before(b, c) ==> bytes_before(a, c),
    decreases a.len() + b.len() + c.len(),
{
    if a.len() > 0 && b.len() > 0 {
        if c.len() > 0 {
            lemma_bytes_order(a.drop_first(), b.drop_first(), c.drop_first());
        } else {
            lemma_bytes_order(a.drop_first(), b.drop_first(), c);
        }
        if a[0] == b[0] && a.drop_first() == b.drop_first() {
            assert(a =~= seq![a[0]] + a.drop_first());
            assert(b =~= seq![b[0]] + b.drop_first());
        }
    } else if a.len() > 0 {
        lemma_bytes_order(a.drop_first(), b, c);
    } else if b.len() == 0 {
        assert(a =~= b);
    }
}

/// The order of strings is a strict total order.
pub proof fn law_string_order(a: Seq<char>, b: Seq<char>, c: Seq<char>)
    ensures
        !before(a, a),
        before(a, b) ==> !before(b, a),
        a == b || before(a, b) || before(b, a),
        before(a, b) && before(b, c) ==> before(a, c),
{
    lemma_bytes_order(
        vstd::utf8::encode_utf8(a),
        vstd::utf8::encode_utf8(b),
        vstd::utf8::encode_utf8(c),
    );
    if vstd::utf8::encode_utf8(a) == vstd::utf8::encode_utf8(b) {
        crate::text::lemma_same_bytes(a, b);
    }
}

proof fn lemma_least_is_first(r: Seq<Seq<char>>, x: Seq<char>)
    requires
        strictly_sorted(r),
        r.contains(x),
        forall|y: Seq<char>| #[trigger] r.contains(y) ==> y == x || before(x, y),
    ensures
        r[0] == x,
{
    let i = choose|i: int| 0 <= i < r.len() && r[i] == x;
    if i > 0 {
        assert(r.contains(r[0]));
        assert(before(r[0], r[i]));
        law_string_order(r[0], x, x);
    }
}

/// Only one sequence lists given elements once each and in order.
pub proof fn law_sorted_set_unique(a: Seq<Seq<char>>, b: Seq<Seq<char>>)
    requires
        strictly_sorted(a),
        strictly_sorted(b),
        forall|x: Seq<char>| a.contains(x) <==> b.contains(x),
    ensures
        a == b,
    decreases a.len(),
{
    if a.len() == 0 {
        if b.len() > 0 {
            assert(b.contains(b[0]));
            assert(a.contains(b[0]));
        }
        assert(a =~= b);
    } else {
        let x = a[0];
        assert(a.contains(x));
        assert forall|y: Seq<char>| #[trigger] b.contains(y) implies y == x || before(x, y) by {
            assert(a.contains(y));
            let i = choose|i: int| 0 <= i < a.len() && a[i] == y;
            if i > 0 {
                assert(before(a[0], a[i]));
            }
        }
        lemma_least_is_first(b, x);
        let a2 = a.drop_first();
        let b2 = b.drop_first();
        assert forall|y: Seq<char>| a2.contains(y) <==> b2.contains(y) by {
            lemma_drop_first_contains(a, y);
            lemma_drop_first_contains(b, y);
        }
        assert(strictly_sorted(a2)) by {
            assert forall|i: int, j: int| 0 <= i < j < a2.len() implies before(
                #[trigger] a2[i],
                #[trigger] a2[j],
            ) by {
                assert(before(a[i + 1], a[j + 1]));
            }
        }
        assert(strictly_sorted(b2)) by {
            assert forall|i: int, j: int| 0 <= i < j < b2.len() implies before(
                #[trigger] b2[i],
                #[trigger] b2[j],
            ) by {
                assert(before(b[i + 1], b[j + 1]));
            }
        }
        law_sorted_set_unique(a2, b2);
        assert(a =~= seq![x] + a2);
        assert(b =~= seq![x] + b2);
    }
}

proof fn lemma_drop_first_contains(s: Seq<Seq<char>>, y: Seq<char>)
    requires
        strictly_sorted(s),
        s.len() > 0,
    ensures
        s.drop_first().contains(y) <==> s.contains(y) && y != s[0],
{
    if s.drop_first().contains(y) {
        let i = choose|i: int| 0 <= i < s.drop_first().len() && s.drop_first()[i] == y;
        assert(s[i + 1] == y);
        assert(before(s[0], s[i + 1]));
        law_string_order(s[0], y, y);
    }
    if s.contains(y) && y != s[0] {
        let i = choose|i: int| 0 <= i < s.len() && s[i] == y;
        assert(s.drop_first()[i - 1] == y);
    }
}

/// A finite sequence has its elements listed in order.
pub proof fn lemma_sorted_set(s: Seq<Seq<char>>)
    ensures
        is_sorted_set_of(sorted_set(s), s),
    decreases s.len(),
{
    if s.len() == 0 {
        assert(is_sorted_set_of(s, s));
    } else {
        let t = s.drop_last();
        let x = s.last();
        lemma_sorted_set(t);
        let r = sorted_set(t);
        lemma_take_contains(s, s.len() - 1);
        assert(s.take(s.len() as int) =~= s);
        assert(s.take(s.len() - 1) =~= t);
        if r.contains(x) {
            assert(is_sorted_set_of(r, s));
        } else {
            let place = lemma_place_exists(r, x);
            lemma_insert_keeps_order(r, place, x);
            assert(is_sorted_set_of(r.insert(place, x), s));
        }
    }
}

proof fn lemma_place_exists(r: Seq<Seq<char>>, x: Seq<char>) -> (place: int)
    requires
        strictly_sorted(r),
        !r.contains(x),
    ensures
        0 <= place <= r.len(),
        forall|i: int| 0 <= i < place ==> before(#[trigger] r[i], x),
        forall|i: int| place <= i < r.len() ==> !before(#[trigger] r[i], x),
        place < r.len() ==> r[place] != x,
    decreases r.len(),
{
    if r.len() == 0 {
        0
    } else if before(r.last(), x) {
        assert forall|i: int| 0 <= i < r.len() implies before(#[trigger] r[i], x) by {
            if i < r.len() - 1 {
                assert(before(r[i], r[r.len() - 1]));
                law_string_order(r[i], r.last(), x);
            }
        }
        r.len() as int
    } else {
        let t = r.drop_last();
        assert(!t.contains(x)) by {
            if t.contains(x) {
                let i = choose|i: int| 0 <= i < t.len() && t[i] == x;
                assert(r[i] == x);
            }
        }
        assert(strictly_sorted(t)) by {
            assert forall|i: int, j: int| 0 <= i < j < t.len() implies before(
                #[trigger] t[i],
                #[trigger] t[j],
            ) by {
                assert(before(r[i], r[j]));
            }
        }
        let place = lemma_place_exists(t, x);
        assert forall|i: int| 0 <= i < place implies before(#[trigger] r[i], x) by {
            assert(t[i] == r[i]);
        }
        assert forall|i: int| place <= i < r.len() implies !before(#[trigger] r[i], x) by {
            if i < t.len() {
                assert(t[i] == r[i]);
            }
        }
        if place < r.len() {
            assert(r.contains(r[place]));
        }
        place
    }
}

/// The place of `x` in sorted strings: how many of them come before it.
fn sorted_place(sorted: &Vec<String>, x: &str) -> (r: usize)
    requires
        strictly_sorted(texts(sorted@)),
    ensures
        r <= sorted@.len(),
        forall|i: int| 0 <= i < r ==> before(#[trigger] sorted@[i]@, x@),
        forall|i: int| r <= i < sorted@.len() ==> !before(#[trigger] sorted@[i]@, x@),
{
    let mut low: usize = 0;
    let mut high: usize = sorted.len();
    while low < high
        invariant
            low <= high <= sorted@.len(),
            strictly_sorted(texts(sorted@)),
            forall|i: int| 0 <= i < low ==> before(#[trigger] sorted@[i]@, x@),
            forall|i: int| high <= i < sorted@.len() ==> !before(#[trigger] sorted@[i]@, x@),
        decreases high - low,
    {
        let middle: usize = low + (high - low) / 2;
        let ghost t = texts(sorted@);
        if text_before(sorted[middle].as_str(), x) {
            proof {
                assert forall|i: int| 0 <= i <= middle implies before(
                    #[trigger] sorted@[i]@,
                    x@,
                ) by {
                    if i < middle {
                        assert(before(t[i], t[middle as int]));
                        law_string_order(t[i], t[middle as int], x@);
                    }
                }
            }
            low = middle + 1;
        } else {
            proof {
                assert forall|i: int| middle <= i < sorted@.len() implies !before(
                    #[trigger] sorted@[i]@,
                    x@,
                ) by {
                    if i > middle {
                        assert(before(t[middle as int], t[i]));
                        law_string_order(t[middle as int], t[i], x@);
                    }
                }
            }
            high = middle;
        }
    }
    low
}

/// Sorts strings and drops repeated ones.
pub fn sort_and_dedup(strings: &Vec<String>) -> (r: Vec<String>)
    ensures
        texts(r@) == sorted_set(texts(strings@)),
        is_sorted_set_of(texts(r@), texts(strings@)),
        forall|i: int, j: int|
            0 <= i < j < r@.len() ==> before((#[trigger] r@[i])@, (#[trigger] r@[j])@),
        r@.map_values(|s: String| s@).to_set() == strings@.map_values(|s: String| s@).to_set(),
{
    let mut sorted: Vec<String> = Vec::new();
    for i in 0..strings.len()
        invariant
            is_sorted_set_of(texts(sorted@), texts(strings@).take(i as int)),
    {
        let x = strings[i].as_str();
        let place = sorted_place(&sorted, x);
        let ghost s = texts(sorted@);
        let ghost t = texts(strings@);
        let known = place < sorted.len() && text_equal(sorted[place].as_str(), x);
        if !known {
            sorted.insert(place, strings[i].clone());
            proof {
                assert(texts(sorted@) =~= s.insert(place as int, x@));
                lemma_insert_keeps_order(s, place as int, x@);
            }
        } else {
            assert(s[place as int] == x@);
            assert(s.contains(x@));
        }
        proof {
            lemma_take_contains(t, i as int);
        }
    }
    proof {
        assert(texts(strings@).take(strings@.len() as int) =~= texts(strings@));
        let chosen = sorted_set(texts(strings@));
        assert forall|x: Seq<char>| chosen.contains(x) <==> texts(sorted@).contains(x) by {}
        law_sorted_set_unique(chosen, texts(sorted@));
        let s = texts(sorted@);
        let t = texts(strings@);
        assert forall|i: int, j: int| 0 <= i < j < sorted@.len() implies before(
            (#[trigger] sorted@[i])@,
            (#[trigger] sorted@[j])@,
        ) by {
            assert(before(s[i], s[j]));
        }
        assert(sorted@.map_values(|s: String| s@) =~= s);
        assert(strings@.map_values(|s: String| s@) =~= t);
        assert(s.to_set() =~= t.to_set()) by {
            assert forall|x: Seq<char>| s.to_set().contains(x) == t.to_set().contains(x) by {
                assert(s.contains(x) <==> t.contains(x));
            }
        }
    }
    sorted
}

proof fn lemma_take_contains(t: Seq<Seq<char>>, i: int)
    requires
        0 <= i < t.len(),
    ensures
        forall|y: Seq<char>| #[trigger]
            t.take(i + 1).contains(y) <==> t.take(i).contains(y) || y == t[i],
{
    assert forall|y: Seq<char>| #[trigger] t.take(i + 1).contains(y) <==> t.take(i).contains(y) || y
        == t[i] by {
        if t.take(i).contains(y) {
            let k = choose|k: int| 0 <= k < i && t.take(i)[k] == y;
            assert(t.take(i + 1)[k] == y);
        }
        if t.take(i + 1).contains(y) {
            let longer = t.take(i + 1);
            let k = choose|k: int| 0 <= k < longer.len() && longer[k] == y;
            if k < i {
                assert(t.take(i)[k] == y);
            }
        }
        assert(t.take(i + 1)[i] == t[i]);
    }
}

proof fn lemma_insert_keeps_order(s: Seq<Seq<char>>, place: int, x: Seq<char>)
    requires
        strictly_sorted(s),
        0 <= place <= s.len(),
        forall|i: int| 0 <= i < place ==> before(#[trigger] s[i], x),
        forall|i: int| place <= i < s.len() ==> !before(#[trigger] s[i], x),
        place < s.len() ==> s[place] != x,
    ensures
        strictly_sorted(s.insert(place, x)),
        forall|y: Seq<char>| #[trigger] s.insert(place, x).contains(y) <==> s.contains(y) || y == x,
{
    let r = s.insert(place, x);
    assert forall|i: int| place <= i < s.len() implies before(x, #[trigger] s[i]) by {
        law_string_order(s[i], x, x);
        law_string_order(s[place], x, x);
        if i > place {
            assert(before(s[place], s[i]));
            law_string_order(x, s[place], s[i]);
        }
    }
    assert forall|i: int, j: int| 0 <= i < j < r.len() implies before(
        #[trigger] r[i],
        #[trigger] r[j],
    ) by {
        let p = if i < place { i } else { i - 1 };
        let q = if j < place { j } else { j - 1 };
        if i != place && j != place {
            assert(r[i] == s[p] && r[j] == s[q]);
            assert(before(s[p], s[q]));
        } else if i == place {
            assert(before(x, s[q]));
        } else {
            assert(before(s[p], x));
        }
    }
    assert forall|y: Seq<char>| #[trigger] r.contains(y) <==> s.contains(y) || y == x by {
        if s.contains(y) {
            let k = choose|k: int| 0 <= k < s.len() && s[k] == y;
            if k < place {
                assert(r[k] == y);
            } else {
                assert(r[k + 1] == y);
            }
        }
        if r.contains(y) && y != x {
            let k = choose|k: int| 0 <= k < r.len() && r[k] == y;
            if k < place {
                assert(s[k] == y);
            } else {
                assert(s[k - 1] == y);
            }
        }
        assert(r[place] == x);
    }
}

} // verus!
