//! What a dry run keeps of the pages of one bucket.

use crate::listing::ListBucketResult;
use vstd::prelude::*;

#[allow(unused_imports)]
use crate::listing::{texts, Page};

verus! {

/// How many keys of a bucket a dry run shows.
pub const SAMPLE_LIMIT: usize = 10;

/// The objects of a bucket: how many, and the first of them.
#[derive(Debug)]
pub struct BucketSummary {
    pub total_objects: usize,
    pub sample_objects: Vec<String>,
}

/// A summary by its texts.
pub struct Summary {
    pub objects: nat,
    pub sample: Seq<Seq<char>>,
}

impl View for BucketSummary {
    type V = Summary;

    open spec fn view(&self) -> Summary {
        Summary { objects: self.total_objects as nat, sample: texts(self.sample_objects@) }
    }
}

/// The keys that are shown of `keys`: the first ones, up to the limit.
pub open spec fn sample_of(keys: Seq<Seq<char>>) -> Seq<Seq<char>> {
    if keys.len() <= SAMPLE_LIMIT {
        keys
    } else {
        keys.take(SAMPLE_LIMIT as int)
    }
}

/// The summary of a bucket that holds `keys`.
pub open spec fn summary_of(keys: Seq<Seq<char>>) -> Summary {
    Summary { objects: keys.len(), sample: sample_of(keys) }
}

/// The summary when a page was added to it.
pub open spec fn add_page(summary: Summary, page: Page) -> Summary {
    Summary {
        objects: summary.objects + page.keys.len(),
        sample: sample_of(summary.sample + page.keys),
    }
}

/// The summary of keys is their number and the first ten of them.
pub proof fn law_summary(keys: Seq<Seq<char>>, summary: BucketSummary)
    ensures
        summary_of(keys).objects == keys.len(),
        summary_of(keys).sample == keys.take(
            if keys.len() < 10 {
                keys.len() as int
            } else {
                10
            },
        ),
        summary@.objects == summary.total_objects,
        summary@.sample.len() == summary.sample_objects@.len(),
        forall|i: int|
            0 <= i < summary.sample_objects@.len() ==> #[trigger] summary@.sample[i]
                == summary.sample_objects@[i]@,
{
    assert(keys.take(keys.len() as int) =~= keys);
}

/// Adding a page to the summary of some keys gives the summary of those keys and
/// the page's.
pub proof fn law_summary_of_one_more_page(keys: Seq<Seq<char>>, page: Page)
    ensures
        add_page(summary_of(keys), page) == summary_of(keys + page.keys),
{
    let whole = keys + page.keys;
    let kept = sample_of(keys) + page.keys;
    assert(sample_of(kept) =~= sample_of(whole));
}

impl BucketSummary {
    /// The summary of a bucket of which nothing was seen yet.
    pub fn new() -> (r: BucketSummary)
        ensures
            r@ == summary_of(seq![]),
            r.total_objects == 0,
            r.sample_objects@.len() == 0,
    {
        let r = BucketSummary { total_objects: 0, sample_objects: Vec::new() };
        assert(r@.sample =~= seq![]);
        r
    }

    /// Adds a page: counts its objects, and keeps their keys while there is room.
    pub fn absorb(&mut self, page: &ListBucketResult)
        requires
            old(self).total_objects + page@.keys.len() <= usize::MAX,
            old(self)@.sample.len() <= SAMPLE_LIMIT,
        ensures
            final(self)@ == add_page(old(self)@, page@),
            final(self).total_objects == old(self).total_objects + page.contents@.len(),
            final(self).sample_objects@.len() == if old(self).sample_objects@.len()
                + page.contents@.len() < 10 {
                old(self).sample_objects@.len() + page.contents@.len()
            } else {
                10
            },
            forall|i: int|
                0 <= i < old(self).sample_objects@.len() ==> (
                #[trigger] final(self).sample_objects@[i])@ == old(self).sample_objects@[i]@,
            forall|i: int|
                old(self).sample_objects@.len() <= i < final(self).sample_objects@.len() ==> (
                #[trigger] final(self).sample_objects@[i])@ == page.contents@[i
                    - old(self).sample_objects@.len()].key@,
    {
        self.total_objects = self.total_objects + page.contents.len();
        let ghost first = texts(old(self).sample_objects@);
        assert(first + page@.keys.take(0) =~= first);
        for i in 0..page.contents.len()
            invariant
                first.len() <= SAMPLE_LIMIT,
                texts(self.sample_objects@) == sample_of(first + page@.keys.take(i as int)),
                self.total_objects == old(self).total_objects + page@.keys.len(),
        {
            let ghost earlier = self.sample_objects@;
            let ghost seen = first + page@.keys.take(i as int);
            let ghost key = page@.keys[i as int];
            assert(first + page@.keys.take(i + 1) =~= seen.push(key));
            if self.sample_objects.len() < SAMPLE_LIMIT {
                self.sample_objects.push(page.contents[i].key.clone());
                assert(texts(self.sample_objects@) =~= texts(earlier).push(key));
                assert(texts(self.sample_objects@) =~= sample_of(seen.push(key)));
            } else {
                assert(sample_of(seen.push(key)) =~= sample_of(seen));
            }
        }
        assert(page@.keys.take(page.contents@.len() as int) =~= page@.keys);
        proof {
            let kept = texts(self.sample_objects@);
            assert forall|i: int| 0 <= i < self.sample_objects@.len() implies (
            #[trigger] self.sample_objects@[i])@ == (first + page@.keys)[i] by {
                assert(self.sample_objects@[i]@ == kept[i]);
            }
            assert(kept.len() == self.sample_objects@.len());
        }
    }
}

} // verus!
