//! The lines that a scrub prints.

use crate::text::decimal_string;
use vstd::prelude::*;
use vstd::string::StringExecFns;

#[allow(unused_imports)]
use crate::listing::texts;
#[allow(unused_imports)]
use crate::text::{decimal, law_decimal, numeral};

verus! {

/// One more string is one more text.
pub proof fn lemma_texts_push(strings: Seq<String>, s: String)
    ensures
        texts(strings.push(s)) == texts(strings).push(s@),
{
    assert(texts(strings.push(s)) =~= texts(strings).push(s@));
}

/// What is said where the system bucket names no bucket.
pub open spec fn no_buckets_lines() -> Seq<Seq<char>> {
    seq!["no buckets discovered through the public S3 endpoint"@]
}

/// Says that there is no bucket.
pub fn report_no_buckets() -> (r: Vec<String>)
    ensures
        texts(r@) == no_buckets_lines(),
        r@.len() == 1,
        r@[0]@ == "no buckets discovered through the public S3 endpoint"@,
{
    let mut lines: Vec<String> = Vec::new();
    lines.push("no buckets discovered through the public S3 endpoint".to_owned());
    assert(texts(lines@) =~= no_buckets_lines());
    lines
}

/// What is said before a dry run.
pub open spec fn dry_run_lines() -> Seq<Seq<char>> {
    seq![
        "WARNING: This operation will delete all objects and may take several minutes."@,
        "Dry run: no objects will be deleted."@,
        "Cluster nodes: 1"@,
    ]
}

/// Opens a dry run.
pub fn report_dry_run() -> (r: Vec<String>)
    ensures
        texts(r@) == dry_run_lines(),
        r@.len() == 3,
        r@[0]@
            == "WARNING: This operation will delete all objects and may take several minutes."@,
        r@[1]@ == "Dry run: no objects will be deleted."@,
        r@[2]@ == "Cluster nodes: 1"@,
{
    let mut lines: Vec<String> = Vec::new();
    lines.push(
        "WARNING: This operation will delete all objects and may take several minutes.".to_owned(),
    );
    lines.push("Dry run: no objects will be deleted.".to_owned());
    lines.push("Cluster nodes: 1".to_owned());
    assert(texts(lines@) =~= dry_run_lines());
    lines
}

/// What a dry run says of one bucket.
pub open spec fn bucket_text(bucket: Seq<char>, objects: nat) -> Seq<char> {
    "bucket "@ + bucket + ": "@ + decimal(objects) + " objects"@
}

/// How a dry run shows a key.
pub open spec fn sample_text(key: Seq<char>) -> Seq<char> {
    "    "@ + key
}

/// What a dry run says of one bucket and of the keys that it shows.
pub open spec fn bucket_lines(bucket: Seq<char>, objects: nat, sample: Seq<Seq<char>>) -> Seq<
    Seq<char>,
> {
    let first = seq![bucket_text(bucket, objects)];
    if sample.len() == 0 {
        first
    } else {
        first + seq!["  sample deletions:"@] + Seq::new(
            sample.len(),
            |i: int| sample_text(sample[i]),
        )
    }
}

/// Says what a dry run found in one bucket.
pub fn report_bucket(bucket: &str, objects: usize, sample: &Vec<String>) -> (r: Vec<String>)
    ensures
        texts(r@) == bucket_lines(bucket@, objects as nat, texts(sample@)),
        r@.len() == if sample@.len() == 0 { 1nat } else { 2 + sample@.len() },
        r@[0]@ == "bucket "@ + bucket@ + ": "@ + decimal(objects as nat) + " objects"@,
        sample@.len() > 0 ==> r@[1]@ == "  sample deletions:"@,
        forall|i: int| 0 <= i < sample@.len() ==> #[trigger] r@[i + 2]@ == "    "@ + sample@[i]@,
{
    let mut lines: Vec<String> = Vec::new();
    lines.push(
        "bucket ".to_owned().concat(bucket).concat(": ").concat(
            decimal_string(objects as u64).as_str(),
        ).concat(" objects"),
    );
    assert(texts(lines@) =~= seq![bucket_text(bucket@, objects as nat)]);
    if sample.len() > 0 {
        lines.push("  sample deletions:".to_owned());
        let ghost start = seq![bucket_text(bucket@, objects as nat)] + seq![
            "  sample deletions:"@,
        ];
        let ghost shown = Seq::new(texts(sample@).len(), |i: int| sample_text(texts(sample@)[i]));
        assert(texts(lines@) =~= start + shown.take(0));
        for i in 0..sample.len()
            invariant
                shown == Seq::new(texts(sample@).len(), |i: int| sample_text(texts(sample@)[i])),
                texts(lines@) == start + shown.take(i as int),
        {
            let ghost earlier = lines@;
            let line = "    ".to_owned().concat(sample[i].as_str());
            lines.push(line);
            proof {
                lemma_texts_push(earlier, line);
                assert(shown.take(i + 1) =~= shown.take(i as int).push(shown[i as int]));
                assert(texts(lines@) =~= start + shown.take(i + 1));
            }
        }
        assert(shown.take(sample@.len() as int) =~= shown);
    }
    proof {
        law_bucket_lines(bucket@, objects as nat, texts(sample@));
        let all = bucket_lines(bucket@, objects as nat, texts(sample@));
        assert(lines@.len() == texts(lines@).len());
        assert(lines@[0]@ == texts(lines@)[0]);
        if sample@.len() > 0 {
            assert(lines@[1]@ == texts(lines@)[1]);
        }
        assert forall|i: int| 0 <= i < sample@.len() implies #[trigger] lines@[i + 2]@ == "    "@
            + sample@[i]@ by {
            assert(lines@[i + 2]@ == texts(lines@)[i + 2]);
            assert(all[i + 2] == "    "@ + texts(sample@)[i]);
        }
    }
    lines
}

/// What a dry run says of a bucket: on the first line its name and a number that
/// amounts to its objects, and then, where there are any, the keys that are shown,
/// one to a line.
pub proof fn law_bucket_lines(bucket: Seq<char>, objects: nat, sample: Seq<Seq<char>>)
    ensures
        bucket_lines(bucket, objects, sample).len() == if sample.len() == 0 {
            1
        } else {
            2 + sample.len()
        },
        bucket_lines(bucket, objects, sample)[0] == "bucket "@ + bucket + ": "@ + decimal(objects)
            + " objects"@,
        numeral(decimal(objects)) == objects,
        sample.len() > 0 ==> bucket_lines(bucket, objects, sample)[1] == "  sample deletions:"@,
        forall|i: int|
            0 <= i < sample.len() ==> #[trigger] bucket_lines(bucket, objects, sample)[i + 2]
                == "    "@ + sample[i],
{
    law_decimal(objects);
}

/// What is said after a dry run.
pub open spec fn would_delete_lines(objects: nat, buckets: nat) -> Seq<Seq<char>> {
    seq![
        "Bucket information was discovered from the public S3 endpoint."@,
        "Would delete: "@ + decimal(objects) + " objects across "@ + decimal(buckets)
            + " buckets."@,
    ]
}

/// The last line of a dry run tells how many objects there are and in how many
/// buckets: the digits on it amount to these numbers, so that no two pairs of
/// numbers are told alike.
pub proof fn law_would_delete_lines(m: nat, b: nat, n: nat, c: nat)
    ensures
        would_delete_lines(n, c).len() == 2,
        would_delete_lines(n, c)[0]
            == "Bucket information was discovered from the public S3 endpoint."@,
        would_delete_lines(n, c)[1] == "Would delete: "@ + decimal(n) + " objects across "@
            + decimal(c) + " buckets."@,
        numeral(decimal(n)) == n,
        numeral(decimal(c)) == c,
        would_delete_lines(m, b) == would_delete_lines(n, c) ==> m == n && b == c,
{
    law_decimal(m);
    law_decimal(b);
    law_decimal(n);
    law_decimal(c);
    if would_delete_lines(m, b) == would_delete_lines(n, c) {
        reveal_strlit(" objects across ");
        reveal_strlit("Would delete: ");
        let head = "Would delete: "@;
        let middle = " objects across "@;
        let x = would_delete_lines(m, b)[1];
        let y = would_delete_lines(n, c)[1];
        let p = decimal(m);
        let q = decimal(n);
        let k = head.len() as int;
        assert(x == y);
        if p.len() < q.len() {
            assert(x[k + p.len()] == middle[0]);
            assert(y[k + p.len()] == q[p.len() as int]);
        }
        if q.len() < p.len() {
            assert(y[k + q.len()] == middle[0]);
            assert(x[k + q.len()] == p[q.len() as int]);
        }
        assert(p =~= x.subrange(k, k + p.len()));
        assert(q =~= y.subrange(k, k + q.len()));
        lemma_between(head + p + middle, decimal(b), decimal(c), " buckets."@);
    }
}

/// Closes a dry run: adds its last lines.
pub fn report_would_delete(lines: &mut Vec<String>, objects: usize, buckets: usize)
    ensures
        texts(final(lines)@) == texts(old(lines)@) + would_delete_lines(
            objects as nat,
            buckets as nat,
        ),
        final(lines)@.len() == old(lines)@.len() + 2,
        forall|i: int|
            0 <= i < old(lines)@.len() ==> (#[trigger] final(lines)@[i])@ == old(lines)@[i]@,
        final(lines)@[old(lines)@.len() as int]@
            == "Bucket information was discovered from the public S3 endpoint."@,
        final(lines)@[old(lines)@.len() as int + 1]@ == "Would delete: "@ + decimal(objects as nat)
            + " objects across "@ + decimal(buckets as nat) + " buckets."@,
{
    lines.push("Bucket information was discovered from the public S3 endpoint.".to_owned());
    lines.push(
        "Would delete: ".to_owned().concat(decimal_string(objects as u64).as_str()).concat(
            " objects across ",
        ).concat(decimal_string(buckets as u64).as_str()).concat(" buckets."),
    );
    assert(texts(lines@) =~= texts(old(lines)@) + would_delete_lines(
        objects as nat,
        buckets as nat,
    ));
}

/// What is said of one bucket that was purged.
pub open spec fn purged_text(bucket: Seq<char>, objects: nat) -> Seq<char> {
    "purged "@ + decimal(objects) + " objects from "@ + bucket
}

/// What is said of a purged bucket tells how many objects are gone: between its
/// words stand digits that amount to their number, so that no two numbers are told
/// alike.
pub proof fn law_purged_text(bucket: Seq<char>, m: nat, n: nat)
    ensures
        exists|digits: Seq<char>|
            purged_text(bucket, n) == "purged "@ + digits + " objects from "@ + bucket
                && #[trigger] numeral(digits) == n && all_digits(digits),
        forall|digits: Seq<char>|
            all_digits(digits) && purged_text(bucket, n) == #[trigger] ("purged "@ + digits
                + " objects from "@ + bucket) ==> numeral(digits) == n,
        purged_text(bucket, m) == purged_text(bucket, n) ==> m == n,
{
    law_decimal(m);
    law_decimal(n);
    let digits = decimal(n);
    assert(purged_text(bucket, n) == "purged "@ + digits + " objects from "@ + bucket);
    assert forall|other: Seq<char>|
        all_digits(other) && purged_text(bucket, n) == #[trigger] ("purged "@ + other
            + " objects from "@ + bucket) implies numeral(other) == n by {
        assert("purged "@ + digits + " objects from "@ + bucket =~= "purged "@ + digits + (
        " objects from "@ + bucket));
        assert("purged "@ + other + " objects from "@ + bucket =~= "purged "@ + other + (
        " objects from "@ + bucket));
        lemma_between("purged "@, digits, other, " objects from "@ + bucket);
    }
    if purged_text(bucket, m) == purged_text(bucket, n) {
        assert(purged_text(bucket, m) =~= "purged "@ + decimal(m) + (" objects from "@ + bucket));
        assert(purged_text(bucket, n) =~= "purged "@ + decimal(n) + (" objects from "@ + bucket));
        lemma_between("purged "@, decimal(n), decimal(m), " objects from "@ + bucket);
    }
}

/// Every character is a decimal digit.
pub open spec fn all_digits(text: Seq<char>) -> bool {
    forall|i: int| 0 <= i < text.len() ==> '0' <= #[trigger] text[i] <= '9'
}

proof fn lemma_between(head: Seq<char>, x: Seq<char>, y: Seq<char>, tail: Seq<char>)
    requires
        head + x + tail == head + y + tail,
    ensures
        x == y,
{
    let a = head + x + tail;
    let b = head + y + tail;
    assert(a.len() == b.len());
    assert(x =~= a.subrange(head.len() as int, (head.len() + x.len()) as int));
    assert(y =~= b.subrange(head.len() as int, (head.len() + y.len()) as int));
}

/// Says how much was deleted from one bucket.
pub fn report_purged(bucket: &str, objects: usize) -> (r: Vec<String>)
    ensures
        texts(r@) == seq![purged_text(bucket@, objects as nat)],
        r@.len() == 1,
        r@[0]@ == "purged "@ + decimal(objects as nat) + " objects from "@ + bucket@,
{
    let mut lines: Vec<String> = Vec::new();
    lines.push(
        "purged ".to_owned().concat(decimal_string(objects as u64).as_str()).concat(
            " objects from ",
        ).concat(bucket),
    );
    assert(texts(lines@) =~= seq![purged_text(bucket@, objects as nat)]);
    lines
}

/// What is said when every bucket was purged.
pub open spec fn purged_total_text(objects: nat) -> Seq<char> {
    "purged "@ + decimal(objects) + " objects total"@
}

/// What is said at the end of a purge tells how many objects are gone in all.
pub proof fn law_purged_total_text(m: nat, n: nat)
    ensures
        purged_total_text(n) == "purged "@ + decimal(n) + " objects total"@,
        numeral(decimal(n)) == n,
        purged_total_text(m) == purged_total_text(n) ==> m == n,
{
    law_decimal(m);
    law_decimal(n);
    if purged_total_text(m) == purged_total_text(n) {
        lemma_between("purged "@, decimal(n), decimal(m), " objects total"@);
    }
}

/// Says how much was deleted in all: adds the last line.
pub fn report_purged_total(lines: &mut Vec<String>, objects: usize)
    ensures
        texts(final(lines)@) == texts(old(lines)@).push(purged_total_text(objects as nat)),
        final(lines)@.len() == old(lines)@.len() + 1,
        forall|i: int|
            0 <= i < old(lines)@.len() ==> (#[trigger] final(lines)@[i])@ == old(lines)@[i]@,
        final(lines)@[old(lines)@.len() as int]@ == "purged "@ + decimal(objects as nat)
            + " objects total"@,
{
    let line = "purged ".to_owned().concat(decimal_string(objects as u64).as_str()).concat(
        " objects total",
    );
    proof {
        lemma_texts_push(lines@, line);
    }
    lines.push(line);
}

} // verus!
