//! A scrub from beginning to end, as a machine: it says what to print and what
//! to ask of the endpoint, and is told what the endpoint answered.
//!
//! First the listing of the system bucket is read for the names of the buckets.
//! Then the listing of each of them is read in turn: in a dry run to sum it up,
//! otherwise to delete page by page what it shows.

use crate::args::ScrubArgs;
use crate::config::{no_nodes_line, ClusterConfig, Target};
use crate::error::ScrubError;
use crate::listing::{collect_buckets, sort_and_dedup, ListBucketResult};
use crate::report::{
    report_bucket, report_dry_run, report_no_buckets, report_purged, report_purged_total,
    report_would_delete,
};
use crate::summary::BucketSummary;
use vstd::prelude::*;

#[allow(unused_imports)]
use crate::config::{endpoint_text, is_self_node, is_target, no_nodes_text, HostIp};
#[allow(unused_imports)]
use crate::text::decimal;
#[allow(unused_imports)]
use crate::listing::{named_buckets, optional_string, sorted_set, strictly_sorted, texts, Page};
#[allow(unused_imports)]
use crate::report::{
    bucket_lines, dry_run_lines, no_buckets_lines, purged_text, purged_total_text,
    would_delete_lines,
};
#[allow(unused_imports)]
use crate::summary::{add_page, summary_of, Summary, SAMPLE_LIMIT};

verus! {

/// What is to be asked of the endpoint next.
#[derive(Debug)]
pub enum Action {
    /// A page of a bucket's listing: of the keys with a prefix, from a token on.
    List { bucket: String, prefix: Option<String>, continuation_token: Option<String> },
    /// The deletion of objects from a bucket.
    Delete { bucket: String, keys: Vec<String> },
    /// Nothing: the scrub is over.
    Finished,
}

/// What a scrub does next: print lines, and then act.
#[derive(Debug)]
pub struct Turn {
    pub lines: Vec<String>,
    pub action: Action,
}

/// An action by its texts.
pub enum Ask {
    List { bucket: Seq<char>, prefix: Option<Seq<char>>, token: Option<Seq<char>> },
    Delete { bucket: Seq<char>, keys: Seq<Seq<char>> },
    Finished,
}

/// A turn by its texts.
pub struct TurnView {
    pub lines: Seq<Seq<char>>,
    pub ask: Ask,
}

impl View for Action {
    type V = Ask;

    open spec fn view(&self) -> Ask {
        match *self {
            Action::List { bucket, prefix, continuation_token } => Ask::List {
                bucket: bucket@,
                prefix: optional_string(prefix),
                token: optional_string(continuation_token),
            },
            Action::Delete { bucket, keys } => Ask::Delete { bucket: bucket@, keys: texts(keys@) },
            Action::Finished => Ask::Finished,
        }
    }
}

impl View for Turn {
    type V = TurnView;

    open spec fn view(&self) -> TurnView {
        TurnView { lines: texts(self.lines@), ask: self.action@ }
    }
}

/// A turn is its lines and its action, by their texts.
pub proof fn law_turn_view(turn: Turn)
    ensures
        turn@.lines.len() == turn.lines@.len(),
        forall|i: int| 0 <= i < turn.lines@.len() ==> #[trigger] turn@.lines[i] == turn.lines@[i]@,
        match turn.action {
            Action::List { bucket, prefix, continuation_token } => turn@.ask == (Ask::List {
                bucket: bucket@,
                prefix: match prefix {
                    Some(text) => Some(text@),
                    None => None,
                },
                token: match continuation_token {
                    Some(text) => Some(text@),
                    None => None,
                },
            }),
            Action::Delete { bucket, keys } => {
                &&& turn@.ask matches Ask::Delete { bucket: b, keys: k }
                &&& b == bucket@
                &&& k.len() == keys@.len()
                &&& forall|i: int| 0 <= i < keys@.len() ==> #[trigger] k[i] == keys@[i]@
            },
            Action::Finished => turn@.ask is Finished,
        },
{
}

/// What is left of a listing after a page.
#[derive(Debug)]
enum Rest {
    /// Nothing: the page was the last.
    Nothing,
    /// The pages from a token on.
    From(Option<String>),
}

/// What is left of a listing, by its texts.
pub enum RestView {
    Nothing,
    From(Option<Seq<char>>),
}

impl View for Rest {
    type V = RestView;

    closed spec fn view(&self) -> RestView {
        match *self {
            Rest::Nothing => RestView::Nothing,
            Rest::From(token) => RestView::From(optional_string(token)),
        }
    }
}

/// A deletion that was asked for: of how many objects, and what is left of the
/// listing after it.
#[derive(Debug)]
struct Pending {
    count: usize,
    rest: Rest,
}

/// How far a scrub has come.
#[derive(Debug)]
enum Phase {
    /// The system bucket is being read; these buckets were found so far.
    Searching { found: Vec<String> },
    /// The bucket at `at` is being summed up.
    Summarizing { buckets: Vec<String>, at: usize, summary: BucketSummary, total_objects: usize },
    /// The bucket at `at` is being purged.
    Purging {
        buckets: Vec<String>,
        at: usize,
        deleted: usize,
        total_deleted: usize,
        pending: Option<Pending>,
    },
    Done,
}

/// A scrub.
#[derive(Debug)]
pub struct Session {
    dry_run: bool,
    system_bucket: String,
    phase: Phase,
}

/// A phase by its texts and numbers.
pub enum PhaseView {
    Searching { found: Seq<Seq<char>> },
    Summarizing { buckets: Seq<Seq<char>>, at: nat, summary: Summary, total: nat },
    Purging {
        buckets: Seq<Seq<char>>,
        at: nat,
        deleted: nat,
        total: nat,
        pending: Option<(nat, RestView)>,
    },
    Done,
}

/// A scrub by its texts and numbers.
pub struct SessionView {
    pub dry_run: bool,
    pub system_bucket: Seq<char>,
    pub phase: PhaseView,
}

impl View for Phase {
    type V = PhaseView;

    closed spec fn view(&self) -> PhaseView {
        match *self {
            Phase::Searching { found } => PhaseView::Searching { found: texts(found@) },
            Phase::Summarizing { buckets, at, summary, total_objects } => PhaseView::Summarizing {
                buckets: texts(buckets@),
                at: at as nat,
                summary: summary@,
                total: total_objects as nat,
            },
            Phase::Purging { buckets, at, deleted, total_deleted, pending } => PhaseView::Purging {
                buckets: texts(buckets@),
                at: at as nat,
                deleted: deleted as nat,
                total: total_deleted as nat,
                pending: match pending {
                    Some(pending) => Some((pending.count as nat, pending.rest@)),
                    None => None,
                },
            },
            Phase::Done => PhaseView::Done,
        }
    }
}

impl View for Session {
    type V = SessionView;

    closed spec fn view(&self) -> SessionView {
        SessionView {
            dry_run: self.dry_run,
            system_bucket: self.system_bucket@,
            phase: self.phase@,
        }
    }
}

/// The buckets of a scrub are in order, none twice, and without the system bucket.
pub open spec fn are_targets(buckets: Seq<Seq<char>>, system_bucket: Seq<char>) -> bool {
    strictly_sorted(buckets) && !buckets.contains(system_bucket)
}

impl SessionView {
    /// What holds of a scrub at every time.
    pub open spec fn wf(self) -> bool {
        match self.phase {
            PhaseView::Searching { found } => !found.contains(self.system_bucket),
            PhaseView::Summarizing { buckets, at, summary, total } => {
                &&& self.dry_run
                &&& at < buckets.len()
                &&& are_targets(buckets, self.system_bucket)
                &&& summary.sample.len() <= SAMPLE_LIMIT
            },
            PhaseView::Purging { buckets, at, deleted, total, pending } => {
                &&& !self.dry_run
                &&& at < buckets.len()
                &&& are_targets(buckets, self.system_bucket)
            },
            PhaseView::Done => true,
        }
    }

    /// A page of a listing is due.
    pub open spec fn expects_page(self) -> bool {
        match self.phase {
            PhaseView::Searching { .. } => true,
            PhaseView::Summarizing { .. } => true,
            PhaseView::Purging { pending, .. } => pending is None,
            PhaseView::Done => false,
        }
    }

    /// The end of a deletion is due.
    pub open spec fn expects_deletion(self) -> bool {
        match self.phase {
            PhaseView::Purging { pending, .. } => pending is Some,
            _ => false,
        }
    }

    /// The objects that were counted so far.
    pub open spec fn counted(self) -> nat {
        match self.phase {
            PhaseView::Searching { .. } => 0,
            PhaseView::Summarizing { summary, total, .. } => total + summary.objects,
            PhaseView::Purging { deleted, total, pending, .. } => total + deleted + (match pending {
                Some(pending) => pending.0,
                None => 0,
            }),
            PhaseView::Done => 0,
        }
    }
}

/// The turn that asks for a page, with lines to print first.
pub open spec fn list_turn(
    lines: Seq<Seq<char>>,
    bucket: Seq<char>,
    prefix: Option<Seq<char>>,
    token: Option<Seq<char>>,
) -> TurnView {
    TurnView { lines, ask: Ask::List { bucket, prefix, token } }
}

/// The turn that ends a scrub.
pub open spec fn last_turn(lines: Seq<Seq<char>>) -> TurnView {
    TurnView { lines, ask: Ask::Finished }
}

/// What is left of a listing after a page.
pub open spec fn rest_after(page: Page) -> RestView {
    if page.truncated {
        RestView::From(page.next)
    } else {
        RestView::Nothing
    }
}

/// How a scrub begins: with the first page of the system bucket's listing of
/// what it knows of buckets.
pub open spec fn first_state(dry_run: bool, system_bucket: Seq<char>) -> SessionView {
    SessionView { dry_run, system_bucket, phase: PhaseView::Searching { found: seq![] } }
}

/// The turn with which a scrub begins.
pub open spec fn first_turn(lines: Seq<Seq<char>>, system_bucket: Seq<char>) -> TurnView {
    list_turn(lines, system_bucket, Some("buckets/"@), None)
}

/// A scrub that has found its buckets.
pub open spec fn after_search(s: SessionView, buckets: Seq<Seq<char>>) -> (SessionView, TurnView) {
    if buckets.len() == 0 {
        (SessionView { phase: PhaseView::Done, ..s }, last_turn(no_buckets_lines()))
    } else if s.dry_run {
        (
            SessionView {
                phase: PhaseView::Summarizing {
                    buckets,
                    at: 0,
                    summary: summary_of(seq![]),
                    total: 0,
                },
                ..s
            },
            list_turn(dry_run_lines(), buckets[0], None, None),
        )
    } else {
        (
            SessionView {
                phase: PhaseView::Purging { buckets, at: 0, deleted: 0, total: 0, pending: None },
                ..s
            },
            list_turn(seq![], buckets[0], None, None),
        )
    }
}

/// A scrub that has summed up the bucket at `at`.
pub open spec fn after_summary(
    s: SessionView,
    buckets: Seq<Seq<char>>,
    at: nat,
    summary: Summary,
    total: nat,
) -> (SessionView, TurnView) {
    let lines = bucket_lines(buckets[at as int], summary.objects, summary.sample);
    let total = total + summary.objects;
    if at + 1 < buckets.len() {
        (
            SessionView {
                phase: PhaseView::Summarizing {
                    buckets,
                    at: at + 1,
                    summary: summary_of(seq![]),
                    total,
                },
                ..s
            },
            list_turn(lines, buckets[at as int + 1], None, None),
        )
    } else {
        (
            SessionView { phase: PhaseView::Done, ..s },
            last_turn(lines + would_delete_lines(total, buckets.len())),
        )
    }
}

/// A scrub that has dealt with a page of the bucket at `at`, `deleted` objects of
/// which are gone.
pub open spec fn after_purge_of_page(
    s: SessionView,
    buckets: Seq<Seq<char>>,
    at: nat,
    deleted: nat,
    total: nat,
    rest: RestView,
) -> (SessionView, TurnView) {
    match rest {
        RestView::From(token) => (
            SessionView {
                phase: PhaseView::Purging { buckets, at, deleted, total, pending: None },
                ..s
            },
            list_turn(seq![], buckets[at as int], None, token),
        ),
        RestView::Nothing => {
            let lines = seq![purged_text(buckets[at as int], deleted)];
            if at + 1 < buckets.len() {
                (
                    SessionView {
                        phase: PhaseView::Purging {
                            buckets,
                            at: at + 1,
                            deleted: 0,
                            total: total + deleted,
                            pending: None,
                        },
                        ..s
                    },
                    list_turn(lines, buckets[at as int + 1], None, None),
                )
            } else {
                (
                    SessionView { phase: PhaseView::Done, ..s },
                    last_turn(lines.push(purged_total_text(total + deleted))),
                )
            }
        },
    }
}

/// A scrub that was given a page.
pub open spec fn after_page(s: SessionView, page: Page) -> (SessionView, TurnView) {
    match s.phase {
        PhaseView::Searching { found } => {
            let found = found + named_buckets(page.keys, s.system_bucket);
            if page.truncated {
                (
                    SessionView { phase: PhaseView::Searching { found }, ..s },
                    list_turn(seq![], s.system_bucket, Some("buckets/"@), page.next),
                )
            } else {
                after_search(s, sorted_set(found))
            }
        },
        PhaseView::Summarizing { buckets, at, summary, total } => {
            let summary = add_page(summary, page);
            if page.truncated {
                (
                    SessionView {
                        phase: PhaseView::Summarizing { buckets, at, summary, total },
                        ..s
                    },
                    list_turn(seq![], buckets[at as int], None, page.next),
                )
            } else {
                after_summary(s, buckets, at, summary, total)
            }
        },
        PhaseView::Purging { buckets, at, deleted, total, pending } => {
            if page.keys.len() > 0 {
                (
                    SessionView {
                        phase: PhaseView::Purging {
                            buckets,
                            at,
                            deleted,
                            total,
                            pending: Some((page.keys.len(), rest_after(page))),
                        },
                        ..s
                    },
                    TurnView {
                        lines: seq![],
                        ask: Ask::Delete { bucket: buckets[at as int], keys: page.keys },
                    },
                )
            } else {
                after_purge_of_page(s, buckets, at, deleted, total, rest_after(page))
            }
        },
        PhaseView::Done => (s, last_turn(seq![])),
    }
}

/// A scrub that was told that a deletion is done.
pub open spec fn after_deletion(s: SessionView) -> (SessionView, TurnView) {
    match s.phase {
        PhaseView::Purging { buckets, at, deleted, total, pending: Some((count, rest)) } =>
            after_purge_of_page(s, buckets, at, deleted + count, total, rest),
        _ => (s, last_turn(seq![])),
    }
}

proof fn lemma_named_buckets_skip_system(keys: Seq<Seq<char>>, system_bucket: Seq<char>)
    ensures
        !named_buckets(keys, system_bucket).contains(system_bucket),
    decreases keys.len(),
{
    if keys.len() > 0 {
        lemma_named_buckets_skip_system(keys.drop_last(), system_bucket);
    }
}

/// A well-formed scrub stays so, and asks for what it then expects.
pub proof fn law_page_keeps_session(s: SessionView, page: Page)
    requires
        s.wf(),
        s.expects_page(),
    ensures
        after_page(s, page).0.wf(),
        after_page(s, page).0.dry_run == s.dry_run,
        after_page(s, page).0.system_bucket == s.system_bucket,
        after_page(s, page).1.ask is List <==> after_page(s, page).0.expects_page(),
        after_page(s, page).1.ask is Delete <==> after_page(s, page).0.expects_deletion(),
        after_page(s, page).1.ask is Finished <==> after_page(s, page).0.phase is Done,
{
    match s.phase {
        PhaseView::Searching { found } => {
            let named = named_buckets(page.keys, s.system_bucket);
            lemma_named_buckets_skip_system(page.keys, s.system_bucket);
            let all = found + named;
            assert(!all.contains(s.system_bucket)) by {
                if all.contains(s.system_bucket) {
                    let i = choose|i: int| 0 <= i < all.len() && all[i] == s.system_bucket;
                    if i < found.len() {
                        assert(found.contains(found[i]));
                    } else {
                        assert(named.contains(named[i - found.len()]));
                    }
                }
            }
            crate::listing::lemma_sorted_set(all);
        },
        _ => {},
    }
}

proof fn lemma_page_action(s: SessionView, page: ListBucketResult)
    requires
        s.wf(),
    ensures
        forall|turn: Turn|
            turn@ == after_page(s, page@).1 ==> {
                &&& turn.action matches Action::Delete { bucket, keys } ==> {
                    &&& !s.dry_run
                    &&& bucket@ != s.system_bucket
                    &&& page.contents@.len() > 0
                    &&& keys@.len() == page.contents@.len()
                    &&& forall|i: int|
                        0 <= i < keys@.len() ==> (#[trigger] keys@[i])@ == page.contents@[i].key@
                }
                &&& s.phase is Purging && page.contents@.len() > 0 ==> turn.action is Delete
                &&& s.expects_page() && page.is_truncated && !(turn.action is Delete) ==> {
                    &&& turn.lines@.len() == 0
                    &&& turn.action matches Action::List { continuation_token, .. }
                    &&& match (continuation_token, page.next_continuation_token) {
                        (Some(asked), Some(told)) => asked@ == told@,
                        (None, None) => true,
                        _ => false,
                    }
                }
            },
{
    assert forall|turn: Turn| turn@ == after_page(s, page@).1 implies {
        &&& turn.action matches Action::Delete { bucket, keys } ==> {
            &&& !s.dry_run
            &&& bucket@ != s.system_bucket
            &&& page.contents@.len() > 0
            &&& keys@.len() == page.contents@.len()
            &&& forall|i: int|
                0 <= i < keys@.len() ==> (#[trigger] keys@[i])@ == page.contents@[i].key@
        }
        &&& s.phase is Purging && page.contents@.len() > 0 ==> turn.action is Delete
        &&& s.expects_page() && page.is_truncated && !(turn.action is Delete) ==> {
            &&& turn.lines@.len() == 0
            &&& turn.action matches Action::List { continuation_token, .. }
            &&& match (continuation_token, page.next_continuation_token) {
                (Some(asked), Some(told)) => asked@ == told@,
                (None, None) => true,
                _ => false,
            }
        }
    } by {
        assert(turn@.lines.len() == turn.lines@.len());
        assert(page@.keys.len() == page.contents@.len());
        if let Action::Delete { bucket, keys } = turn.action {
            assert(texts(keys@) == page@.keys);
            assert(texts(keys@).len() == keys@.len());
            assert forall|i: int| 0 <= i < keys@.len() implies (#[trigger] keys@[i])@
                == page.contents@[i].key@ by {
                assert(texts(keys@)[i] == page@.keys[i]);
            }
            if let PhaseView::Purging { buckets, at, .. } = s.phase {
                assert(buckets.contains(buckets[at as int]));
            }
        }
    }
}

/// A well-formed scrub stays so when a deletion is done, and asks for what it
/// then expects: never for a second deletion.
pub proof fn law_deletion_keeps_session(s: SessionView)
    requires
        s.wf(),
        s.expects_deletion(),
    ensures
        after_deletion(s).0.wf(),
        after_deletion(s).0.dry_run == s.dry_run,
        after_deletion(s).0.system_bucket == s.system_bucket,
        after_deletion(s).1.ask is List <==> after_deletion(s).0.expects_page(),
        !(after_deletion(s).1.ask is Delete),
        after_deletion(s).1.ask is Finished <==> after_deletion(s).0.phase is Done,
{
}

fn no_lines() -> (r: Vec<String>)
    ensures
        texts(r@) == Seq::<Seq<char>>::empty(),
{
    let r: Vec<String> = Vec::new();
    assert(texts(r@) =~= Seq::<Seq<char>>::empty());
    r
}

fn list_bucket(lines: Vec<String>, bucket: &String, continuation_token: Option<String>) -> (r: Turn)
    ensures
        r@ == list_turn(texts(lines@), bucket@, None, optional_string(continuation_token)),
{
    Turn {
        lines,
        action: Action::List { bucket: bucket.clone(), prefix: None, continuation_token },
    }
}

fn list_system(
    lines: Vec<String>,
    system_bucket: &String,
    continuation_token: Option<String>,
) -> (r: Turn)
    ensures
        r@ == list_turn(
            texts(lines@),
            system_bucket@,
            Some("buckets/"@),
            optional_string(continuation_token),
        ),
        r.lines@ == lines@,
{
    Turn {
        lines,
        action: Action::List {
            bucket: system_bucket.clone(),
            prefix: Some("buckets/".to_owned()),
            continuation_token,
        },
    }
}

/// How a scrub of a cluster begins.
#[derive(Debug)]
pub enum Opening {
    /// The configuration describes no node: there is only this line to print.
    NoNodes(String),
    /// There is an endpoint to talk to, and a first turn to take.
    Begun { target: Target, session: Session, turn: Turn },
}

/// Begins the scrub that was asked for of a cluster.
pub fn open_session(args: &ScrubArgs, config: &ClusterConfig, system_bucket: &str) -> (r: Result<
    Opening,
    ScrubError,
>)
    ensures
        r matches Ok(Opening::NoNodes(line)) ==> line@ == no_nodes_text(args.config@),
        r matches Ok(Opening::NoNodes(_)) <==> config.nodes@.len() == 0,
        r matches Err(ScrubError::SelfNodeMissing) <==> config.nodes@.len() > 0 && forall|i: int|
            !is_self_node(*config, i),
        r matches Err(ScrubError::NoCredential) <==> (exists|i: int| is_self_node(*config, i))
            && config.credentials@.len() == 0,
        r matches Err(e) ==> e is SelfNodeMissing || e is NoCredential,
        r matches Ok(Opening::Begun { target, session, turn }) ==> {
            &&& is_target(*config, target)
            &&& session@ == first_state(args.dry_run, system_bucket@)
            &&& session@.wf()
            &&& turn@ == first_turn(
                seq![endpoint_text(target.node_id@, target.base_url@)],
                system_bucket@,
            )
            &&& turn.lines@.len() == 1
            &&& turn.lines@[0]@ == "using S3 endpoint on node "@ + target.node_id@ + ": "@
                + target.base_url@
            &&& turn.action matches Action::List { bucket, prefix, continuation_token }
            &&& bucket@ == system_bucket@
            &&& prefix matches Some(text)
            &&& text@ == "buckets/"@
            &&& continuation_token is None
        },
        r matches Ok(Opening::NoNodes(line)) ==> line@ == "no openlake cluster detected: "@
            + args.config@ + " declares zero nodes"@,
        (config.nodes@.len() > 0 && forall|i: int|
            0 <= i < config.nodes@.len() ==> (#[trigger] config.nodes@[i]).id@ != config.self_id@)
            <==> r matches Err(ScrubError::SelfNodeMissing),
        ((exists|i: int|
            0 <= i < config.nodes@.len() && (#[trigger] config.nodes@[i]).id@ == config.self_id@)
            && config.credentials@.len() == 0) <==> r matches Err(ScrubError::NoCredential),
        r matches Ok(Opening::Begun { target, session, turn }) ==> {
            &&& target.node_id@ == config.self_id@
            &&& exists|i: int|
                {
                    &&& 0 <= i < config.nodes@.len()
                    &&& (#[trigger] config.nodes@[i]).id@ == config.self_id@
                    &&& forall|j: int|
                        0 <= j < i ==> (#[trigger] config.nodes@[j]).id@ != config.self_id@
                    &&& target.base_url@ == (if config.s3_tls {
                        "https://"@
                    } else {
                        "http://"@
                    }) + (match config.nodes@[i].rpc_ip {
                        HostIp::V4(text) => text@ + ":"@,
                        HostIp::V6(text) => "["@ + text@ + "]:"@,
                    }) + decimal(
                        match config.s3_port {
                            Some(port) => port as nat,
                            None => config.s3_addr_port as nat,
                        },
                    )
                }
            &&& target.region@ == config.region@
            &&& target.credential.access_key@ == config.credentials@[0].access_key@
            &&& target.credential.secret_key@ == config.credentials@[0].secret_key@
        },
{
    match config.target() {
        Err(e) => Err(e),
        Ok(None) => Ok(Opening::NoNodes(no_nodes_line(args.config.as_str()))),
        Ok(Some(target)) => {
            let mut lines: Vec<String> = Vec::new();
            lines.push(target.line());
            assert(texts(lines@) =~= seq![endpoint_text(target.node_id@, target.base_url@)]);
            let (session, turn) = Session::begin(args.dry_run, system_bucket, lines);
            Ok(Opening::Begun { target, session, turn })
        },
    }
}

impl Session {
    /// Begins a scrub: the first turn prints `lines` and asks for the first page
    /// of the system bucket.
    pub fn begin(dry_run: bool, system_bucket: &str, lines: Vec<String>) -> (r: (Session, Turn))
        ensures
            r.0@ == first_state(dry_run, system_bucket@),
            r.0@.wf(),
            r.1@ == first_turn(texts(lines@), system_bucket@),
            r.1.lines@ == lines@,
            r.1.action matches Action::List { bucket, prefix, continuation_token } && bucket@
                == system_bucket@ && (prefix matches Some(text) && text@ == "buckets/"@)
                && continuation_token is None,
    {
        let found: Vec<String> = Vec::new();
        assert(texts(found@) =~= Seq::<Seq<char>>::empty());
        let session = Session {
            dry_run,
            system_bucket: system_bucket.to_owned(),
            phase: Phase::Searching { found },
        };
        let turn = list_system(lines, &session.system_bucket, None);
        (session, turn)
    }

    /// Whether `objects` more objects can be counted.
    pub fn can_count(&self, objects: usize) -> (r: bool)
        ensures
            r == (self@.counted() + objects <= usize::MAX),
    {
        let counted: Option<usize> = match &self.phase {
            Phase::Searching { .. } => Some(0),
            Phase::Summarizing { summary, total_objects, .. } => total_objects.checked_add(
                summary.total_objects,
            ),
            Phase::Purging { deleted, total_deleted, pending, .. } => {
                let count: usize = match pending {
                    Some(pending) => pending.count,
                    None => 0,
                };
                match total_deleted.checked_add(*deleted) {
                    Some(sum) => sum.checked_add(count),
                    None => None,
                }
            },
            Phase::Done => Some(0),
        };
        match counted {
            Some(counted) => counted.checked_add(objects).is_some(),
            None => false,
        }
    }

    fn finish_search(dry_run: bool, system_bucket: String, found: Vec<String>) -> (r: (
        Session,
        Turn,
    ))
        ensures
            ({
                let s = SessionView {
                    dry_run,
                    system_bucket: system_bucket@,
                    phase: PhaseView::Searching { found: texts(found@) },
                };
                (r.0@, r.1@) == after_search(s, sorted_set(texts(found@)))
            }),
    {
        let buckets = sort_and_dedup(&found);
        if buckets.len() == 0 {
            let turn = Turn { lines: report_no_buckets(), action: Action::Finished };
            return (Session { dry_run, system_bucket, phase: Phase::Done }, turn);
        }
        if dry_run {
            let turn = list_bucket(report_dry_run(), &buckets[0], None);
            let phase = Phase::Summarizing {
                buckets,
                at: 0,
                summary: BucketSummary::new(),
                total_objects: 0,
            };
            (Session { dry_run, system_bucket, phase }, turn)
        } else {
            let turn = list_bucket(no_lines(), &buckets[0], None);
            let phase = Phase::Purging {
                buckets,
                at: 0,
                deleted: 0,
                total_deleted: 0,
                pending: None,
            };
            (Session { dry_run, system_bucket, phase }, turn)
        }
    }

    fn finish_summary(
        dry_run: bool,
        system_bucket: String,
        buckets: Vec<String>,
        at: usize,
        summary: BucketSummary,
        total_objects: usize,
    ) -> (r: (Session, Turn))
        requires
            at < buckets@.len(),
            total_objects + summary.total_objects <= usize::MAX,
        ensures
            ({
                let s = SessionView {
                    dry_run,
                    system_bucket: system_bucket@,
                    phase: PhaseView::Done,
                };
                (r.0@, r.1@) == after_summary(
                    s,
                    texts(buckets@),
                    at as nat,
                    summary@,
                    total_objects as nat,
                )
            }),
    {
        let mut lines = report_bucket(
            buckets[at].as_str(),
            summary.total_objects,
            &summary.sample_objects,
        );
        let total_objects: usize = total_objects + summary.total_objects;
        if buckets.len() - at > 1 {
            let turn = list_bucket(lines, &buckets[at + 1], None);
            let phase = Phase::Summarizing {
                buckets,
                at: at + 1,
                summary: BucketSummary::new(),
                total_objects,
            };
            (Session { dry_run, system_bucket, phase }, turn)
        } else {
            report_would_delete(&mut lines, total_objects, buckets.len());
            let turn = Turn { lines, action: Action::Finished };
            (Session { dry_run, system_bucket, phase: Phase::Done }, turn)
        }
    }

    fn go_on_purging(
        dry_run: bool,
        system_bucket: String,
        buckets: Vec<String>,
        at: usize,
        deleted: usize,
        total_deleted: usize,
        rest: Rest,
    ) -> (r: (Session, Turn))
        requires
            at < buckets@.len(),
            total_deleted + deleted <= usize::MAX,
        ensures
            ({
                let s = SessionView {
                    dry_run,
                    system_bucket: system_bucket@,
                    phase: PhaseView::Done,
                };
                (r.0@, r.1@) == after_purge_of_page(
                    s,
                    texts(buckets@),
                    at as nat,
                    deleted as nat,
                    total_deleted as nat,
                    rest@,
                )
            }),
    {
        match rest {
            Rest::From(token) => {
                let turn = list_bucket(no_lines(), &buckets[at], token);
                let phase = Phase::Purging { buckets, at, deleted, total_deleted, pending: None };
                (Session { dry_run, system_bucket, phase }, turn)
            },
            Rest::Nothing => {
                let mut lines = report_purged(buckets[at].as_str(), deleted);
                let total_deleted: usize = total_deleted + deleted;
                if buckets.len() - at > 1 {
                    let turn = list_bucket(lines, &buckets[at + 1], None);
                    let phase = Phase::Purging {
                        buckets,
                        at: at + 1,
                        deleted: 0,
                        total_deleted,
                        pending: None,
                    };
                    (Session { dry_run, system_bucket, phase }, turn)
                } else {
                    report_purged_total(&mut lines, total_deleted);
                    let turn = Turn { lines, action: Action::Finished };
                    (Session { dry_run, system_bucket, phase: Phase::Done }, turn)
                }
            },
        }
    }

    /// Goes on with a page that was asked for.
    pub fn on_page(self, page: ListBucketResult) -> (r: (Session, Turn))
        requires
            self@.wf(),
            self@.expects_page(),
            self@.counted() + page@.keys.len() <= usize::MAX,
        ensures
            (r.0@, r.1@) == after_page(self@, page@),
            r.1.action matches Action::Delete { bucket, keys } ==> {
                &&& !self@.dry_run
                &&& bucket@ != self@.system_bucket
                &&& page.contents@.len() > 0
                &&& keys@.len() == page.contents@.len()
                &&& forall|i: int|
                    0 <= i < keys@.len() ==> (#[trigger] keys@[i])@ == page.contents@[i].key@
            },
            self@.phase is Purging && page.contents@.len() > 0 ==> r.1.action is Delete,
            page.is_truncated && !(r.1.action is Delete) ==> {
                &&& r.1.lines@.len() == 0
                &&& r.1.action matches Action::List { continuation_token, .. }
                &&& match (continuation_token, page.next_continuation_token) {
                    (Some(asked), Some(told)) => asked@ == told@,
                    (None, None) => true,
                    _ => false,
                }
            },
            r.0@.wf(),
            r.0@.counted() <= usize::MAX,
            r.1@.ask is List <==> r.0@.expects_page(),
            r.1@.ask is Delete <==> r.0@.expects_deletion(),
    {
        proof {
            law_page_keeps_session(self@, page@);
            lemma_page_action(self@, page);
        }
        let dry_run = self.dry_run;
        let system_bucket = self.system_bucket;
        match self.phase {
            Phase::Searching { mut found } => {
                collect_buckets(&mut found, &page, system_bucket.as_str());
                if page.is_truncated {
                    let turn = list_system(
                        no_lines(),
                        &system_bucket,
                        page.next_continuation_token,
                    );
                    (Session { dry_run, system_bucket, phase: Phase::Searching { found } }, turn)
                } else {
                    Session::finish_search(dry_run, system_bucket, found)
                }
            },
            Phase::Summarizing { buckets, at, mut summary, total_objects } => {
                summary.absorb(&page);
                if page.is_truncated {
                    let turn = list_bucket(
                        no_lines(),
                        &buckets[at],
                        page.next_continuation_token,
                    );
                    let phase = Phase::Summarizing { buckets, at, summary, total_objects };
                    (Session { dry_run, system_bucket, phase }, turn)
                } else {
                    Session::finish_summary(
                        dry_run,
                        system_bucket,
                        buckets,
                        at,
                        summary,
                        total_objects,
                    )
                }
            },
            Phase::Purging { buckets, at, deleted, total_deleted, pending: _ } => {
                let ListBucketResult { is_truncated, next_continuation_token, contents } = page;
                let rest = if is_truncated {
                    Rest::From(next_continuation_token)
                } else {
                    Rest::Nothing
                };
                if contents.len() > 0 {
                    let keys = crate::listing::keys_of(&contents);
                    let count = keys.len();
                    let turn = Turn {
                        lines: no_lines(),
                        action: Action::Delete { bucket: buckets[at].clone(), keys },
                    };
                    let phase = Phase::Purging {
                        buckets,
                        at,
                        deleted,
                        total_deleted,
                        pending: Some(Pending { count, rest }),
                    };
                    (Session { dry_run, system_bucket, phase }, turn)
                } else {
                    Session::go_on_purging(
                        dry_run,
                        system_bucket,
                        buckets,
                        at,
                        deleted,
                        total_deleted,
                        rest,
                    )
                }
            },
            Phase::Done => {
                let turn = Turn { lines: no_lines(), action: Action::Finished };
                (Session { dry_run, system_bucket, phase: Phase::Done }, turn)
            },
        }
    }

    /// Goes on after a deletion that was asked for.
    pub fn on_deleted(self) -> (r: (Session, Turn))
        requires
            self@.wf(),
            self@.expects_deletion(),
            self@.counted() <= usize::MAX,
        ensures
            (r.0@, r.1@) == after_deletion(self@),
            r.0@.wf(),
            r.0@.counted() <= usize::MAX,
            r.1@.ask is List <==> r.0@.expects_page(),
            !(r.1@.ask is Delete),
    {
        proof {
            law_deletion_keeps_session(self@);
        }
        let dry_run = self.dry_run;
        let system_bucket = self.system_bucket;
        match self.phase {
            Phase::Purging {
                buckets,
                at,
                deleted,
                total_deleted,
                pending: Some(Pending { count, rest }),
            } => Session::go_on_purging(
                dry_run,
                system_bucket,
                buckets,
                at,
                deleted + count,
                total_deleted,
                rest,
            ),
            phase => {
                let turn = Turn { lines: no_lines(), action: Action::Finished };
                (Session { dry_run, system_bucket, phase }, turn)
            },
        }
    }
}

} // verus!
