use openlake_scrub::listing::{
    bucket_name_from_meta_key, collect_buckets, keys_of, sort_and_dedup, ListBucketObject,
    ListBucketResult,
};
use openlake_scrub::summary::{BucketSummary, SAMPLE_LIMIT};

fn objects(keys: &[&str]) -> Vec<ListBucketObject> {
    keys.iter().map(|key| ListBucketObject { key: key.to_string() }).collect()
}

fn page(keys: &[&str]) -> ListBucketResult {
    ListBucketResult { is_truncated: false, next_continuation_token: None, contents: objects(keys) }
}

fn strings(texts: &[&str]) -> Vec<String> {
    texts.iter().map(|text| text.to_string()).collect()
}

#[test]
fn bucket_of_its_key() {
    assert_eq!(bucket_name_from_meta_key("buckets/photos/.metadata.bin"), Some("photos"));
    assert_eq!(bucket_name_from_meta_key("buckets/a/b/.metadata.bin"), Some("a/b"));
    assert_eq!(bucket_name_from_meta_key("buckets//.metadata.bin"), Some(""));
    assert_eq!(bucket_name_from_meta_key("buckets/\u{e9}/.metadata.bin"), Some("\u{e9}"));
}

#[test]
fn no_bucket_of_another_key() {
    assert_eq!(bucket_name_from_meta_key("buckets/.metadata.bin"), None);
    assert_eq!(bucket_name_from_meta_key("buckets/photos"), None);
    assert_eq!(bucket_name_from_meta_key("photos/.metadata.bin"), None);
    assert_eq!(bucket_name_from_meta_key("xbuckets/photos/.metadata.bin"), None);
    assert_eq!(bucket_name_from_meta_key("buckets/photos/.metadata.bin2"), None);
    assert_eq!(bucket_name_from_meta_key(""), None);
}

#[test]
fn buckets_of_a_page_without_the_system_bucket() {
    let mut found = strings(&["first"]);
    let page = page(&[
        "buckets/b/.metadata.bin",
        "buckets/.sys/.metadata.bin",
        "buckets/a/.metadata.bin",
        "other",
        "buckets/b/.metadata.bin",
    ]);
    collect_buckets(&mut found, &page, ".sys");
    assert_eq!(found, strings(&["first", "b", "a", "b"]));
}

#[test]
fn sorted_and_without_repetition() {
    let sorted = sort_and_dedup(&strings(&["b", "a", "c", "a", "", "b", "B", "\u{e9}"]));
    assert_eq!(sorted, strings(&["", "B", "a", "b", "c", "\u{e9}"]));
    assert_eq!(sort_and_dedup(&Vec::new()), Vec::<String>::new());
}

#[test]
fn sorting_agrees_with_std() {
    let mut texts: Vec<String> = Vec::new();
    let mut x: u64 = 7;
    for _ in 0..500 {
        x = x.wrapping_mul(6364136223846793005).wrapping_add(1442695040888963407);
        texts.push(format!("{:x}", (x >> 33) % 300));
    }
    let mut expected = texts.clone();
    expected.sort();
    expected.dedup();
    assert_eq!(sort_and_dedup(&texts), expected);
}

#[test]
fn keys_in_order() {
    assert_eq!(keys_of(&objects(&["z", "a", "z"])), strings(&["z", "a", "z"]));
}

#[test]
fn summary_counts_all_and_keeps_the_first() {
    let mut summary = BucketSummary::new();
    summary.absorb(&page(&["1", "2", "3", "4", "5", "6"]));
    assert_eq!(summary.total_objects, 6);
    summary.absorb(&page(&[]));
    summary.absorb(&page(&["7", "8", "9", "10", "11", "12"]));
    assert_eq!(summary.total_objects, 12);
    assert_eq!(SAMPLE_LIMIT, 10);
    assert_eq!(
        summary.sample_objects,
        strings(&["1", "2", "3", "4", "5", "6", "7", "8", "9", "10"])
    );
}
