use openlake_scrub::listing::{ListBucketObject, ListBucketResult};
use openlake_scrub::session::{Action, Session, Turn};

/// A page: its keys, and where the listing goes on, if it does.
type Answer = (Vec<&'static str>, bool, Option<&'static str>);

struct Trace {
    lines: Vec<String>,
    listed: Vec<(String, Option<String>, Option<String>)>,
    deleted: Vec<(String, Vec<String>)>,
    finished: bool,
}

fn run(dry_run: bool, answers: Vec<Answer>) -> Trace {
    let mut trace =
        Trace { lines: Vec::new(), listed: Vec::new(), deleted: Vec::new(), finished: false };
    let mut answers = answers.into_iter();
    let (mut session, mut turn): (Session, Turn) = Session::begin(dry_run, ".sys", Vec::new());
    loop {
        trace.lines.extend(turn.lines);
        (session, turn) = match turn.action {
            Action::List { bucket, prefix, continuation_token } => {
                trace.listed.push((bucket, prefix, continuation_token));
                match answers.next() {
                    None => return trace,
                    Some((keys, is_truncated, next)) => {
                        let contents: Vec<ListBucketObject> = keys
                            .into_iter()
                            .map(|key| ListBucketObject { key: key.to_string() })
                            .collect();
                        assert!(session.can_count(contents.len()));
                        session.on_page(ListBucketResult {
                            is_truncated,
                            next_continuation_token: next.map(|token| token.to_string()),
                            contents,
                        })
                    }
                }
            }
            Action::Delete { bucket, keys } => {
                trace.deleted.push((bucket, keys));
                session.on_deleted()
            }
            Action::Finished => {
                trace.finished = true;
                return trace;
            }
        };
    }
}

fn search() -> Vec<Answer> {
    vec![
        (vec!["buckets/b/.metadata.bin", "buckets/.sys/.metadata.bin"], true, Some("t1")),
        (vec!["buckets/a/.metadata.bin", "buckets/b/.metadata.bin", "noise"], false, None),
    ]
}

fn listings() -> Vec<Answer> {
    vec![
        (vec!["a1", "a2"], true, Some("t2")),
        (vec![], true, Some("t3")),
        (vec!["a3"], false, Some("ignored")),
        (vec![], false, None),
    ]
}

fn whole() -> Vec<Answer> {
    let mut answers = search();
    answers.extend(listings());
    answers
}

fn listed(
    bucket: &str,
    prefix: Option<&str>,
    token: Option<&str>,
) -> (String, Option<String>, Option<String>) {
    (bucket.to_string(), prefix.map(|p| p.to_string()), token.map(|t| t.to_string()))
}

#[test]
fn purge_deletes_page_by_page_what_is_listed() {
    let trace = run(false, whole());
    assert!(trace.finished);
    assert_eq!(
        trace.deleted,
        vec![
            ("a".to_string(), vec!["a1".to_string(), "a2".to_string()]),
            ("a".to_string(), vec!["a3".to_string()]),
        ]
    );
    assert_eq!(
        trace.lines,
        vec!["purged 3 objects from a", "purged 0 objects from b", "purged 3 objects total"]
    );
}

#[test]
fn listings_go_on_from_their_tokens() {
    let expected = vec![
        listed(".sys", Some("buckets/"), None),
        listed(".sys", Some("buckets/"), Some("t1")),
        listed("a", None, None),
        listed("a", None, Some("t2")),
        listed("a", None, Some("t3")),
        listed("b", None, None),
    ];
    assert_eq!(run(false, whole()).listed, expected);
    assert_eq!(run(true, whole()).listed, expected);
}

#[test]
fn dry_run_sums_up_and_deletes_nothing() {
    let trace = run(true, whole());
    assert!(trace.finished);
    assert!(trace.deleted.is_empty());
    assert_eq!(
        trace.lines,
        vec![
            "WARNING: This operation will delete all objects and may take several minutes.",
            "Dry run: no objects will be deleted.",
            "Cluster nodes: 1",
            "bucket a: 3 objects",
            "  sample deletions:",
            "    a1",
            "    a2",
            "    a3",
            "bucket b: 0 objects",
            "Bucket information was discovered from the public S3 endpoint.",
            "Would delete: 3 objects across 2 buckets.",
        ]
    );
}

#[test]
fn dry_run_announces_what_a_purge_deletes() {
    let purge = run(false, whole());
    let deleted: usize = purge.deleted.iter().map(|(_, keys)| keys.len()).sum();
    let announced = run(true, whole()).lines;
    assert_eq!(
        announced[announced.len() - 1],
        format!("Would delete: {} objects across 2 buckets.", deleted)
    );
    assert_eq!(
        purge.lines[purge.lines.len() - 1],
        format!("purged {} objects total", deleted)
    );
}

#[test]
fn purge_that_breaks_off() {
    let mut answers = search();
    answers.extend(listings().into_iter().take(1));
    let trace = run(false, answers);
    assert!(!trace.finished);
    assert_eq!(trace.deleted, vec![("a".to_string(), vec!["a1".to_string(), "a2".to_string()])]);
    assert!(trace.lines.is_empty());
    let mut answers = search();
    answers.extend(listings().into_iter().take(3));
    assert_eq!(run(false, answers).lines, vec!["purged 3 objects from a"]);
}

#[test]
fn dry_run_that_breaks_off() {
    let mut answers = search();
    answers.extend(listings().into_iter().take(3));
    let trace = run(true, answers);
    assert!(!trace.finished);
    assert!(trace.deleted.is_empty());
    assert_eq!(trace.lines[3], "bucket a: 3 objects");
    assert_eq!(trace.lines.len(), 8);
    assert_eq!(trace.listed[trace.listed.len() - 1], listed("b", None, None));
}

#[test]
fn system_bucket_is_only_read() {
    let trace = run(
        false,
        vec![
            (vec!["buckets/.sys/.metadata.bin", "buckets/a/.metadata.bin"], false, None),
            (vec!["x"], false, None),
        ],
    );
    assert!(trace.finished);
    assert!(trace.deleted.iter().all(|(bucket, keys)| bucket != ".sys" && !keys.is_empty()));
    assert_eq!(trace.listed.iter().filter(|(bucket, _, _)| bucket == ".sys").count(), 1);
}

#[test]
fn dry_run_shows_ten_keys_of_a_bucket() {
    let keys = vec!["k01", "k02", "k03", "k04", "k05", "k06", "k07", "k08", "k09", "k10", "k11"];
    let trace = run(
        true,
        vec![(vec!["buckets/a/.metadata.bin"], false, None), (keys, false, None)],
    );
    assert_eq!(trace.lines[3], "bucket a: 11 objects");
    assert_eq!(trace.lines[5], "    k01");
    assert_eq!(trace.lines[14], "    k10");
    assert_eq!(trace.lines[15], "Bucket information was discovered from the public S3 endpoint.");
    assert_eq!(trace.lines[16], "Would delete: 11 objects across 1 buckets.");
}

#[test]
fn no_buckets() {
    for dry_run in [true, false] {
        let trace = run(
            dry_run,
            vec![(vec!["buckets/.sys/.metadata.bin", "other"], false, None)],
        );
        assert!(trace.finished);
        assert!(trace.deleted.is_empty());
        assert_eq!(trace.lines, vec!["no buckets discovered through the public S3 endpoint"]);
    }
}

#[test]
fn truncated_page_without_token_starts_over() {
    let trace = run(
        false,
        vec![(vec!["buckets/a/.metadata.bin"], false, None), (vec!["x"], true, None)],
    );
    assert!(!trace.finished);
    assert_eq!(trace.listed[2], listed("a", None, None));
    assert_eq!(trace.deleted, vec![("a".to_string(), vec!["x".to_string()])]);
}

#[test]
fn counting_has_a_limit() {
    let (session, _) = Session::begin(true, ".sys", Vec::new());
    assert!(session.can_count(usize::MAX));
    let answer = |key: &str| ListBucketResult {
        is_truncated: false,
        next_continuation_token: None,
        contents: vec![ListBucketObject { key: key.to_string() }],
    };
    let (session, _) = session.on_page(answer("buckets/a/.metadata.bin"));
    let more = ListBucketResult {
        is_truncated: true,
        next_continuation_token: None,
        contents: vec![ListBucketObject { key: "x".to_string() }],
    };
    let (session, _) = session.on_page(more);
    assert!(session.can_count(usize::MAX - 1));
    assert!(!session.can_count(usize::MAX));
}
