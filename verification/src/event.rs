//! The event data model and the category extractors.
//!
//! An extractor receives one classified timeline entry and appends the typed
//! events it describes. A missing expected sub-element (an absent `href`, an
//! absent group label, an absent `class` on a status icon) is a structural
//! mismatch between classification and markup, and aborts the entry with an
//! extraction error; it is never skipped silently.

use vstd::prelude::*;

use crate::document::{LinkView, RepositoryGroupView, TimelineEntry};
use crate::filtering::WadachiError;
use crate::text::{contains_seq, contains_str, trim_spec, trimmed};

verus! {

/// A repository a link or group named: display name and location.
#[derive(Debug, PartialEq, Clone)]
pub struct Repository {
    pub name: String,
    pub url: String,
}

/// A pull request a link named.
#[derive(Debug, PartialEq, Clone)]
pub struct PullRequest {
    pub name: String,
    pub url: String,
}

/// An issue a link named.
#[derive(Debug, PartialEq, Clone)]
pub struct Issue {
    pub name: String,
    pub url: String,
}

/// Whether a pull request was rendered as still open.
#[derive(Debug, PartialEq, Eq, Structural, Clone, Copy)]
pub enum PullRequestStatus {
    Opened,
    Closed,
}

/// Whether an issue was rendered as still open.
#[derive(Debug, PartialEq, Eq, Structural, Clone, Copy)]
pub enum IssueStatus {
    Opened,
    Closed,
}

/// A pushed commit. The markup gives no true commit count, so `number`
/// carries [`COMMIT_NUMBER_PLACEHOLDER`]: a known limitation of the source,
/// not a meaningful value.
#[derive(Debug, PartialEq, Clone)]
pub struct Commit {
    pub repository: Repository,
    pub number: usize,
    pub url: String,
}

/// The fixed value standing in for the commit count the markup cannot
/// provide.
pub const COMMIT_NUMBER_PLACEHOLDER: usize = 3;

/// One timeline event. `name` is the normalized label of the entry the event
/// came from; `created_at` is the timestamp's display text, verbatim.
#[derive(Debug, PartialEq, Clone)]
pub enum Event {
    Push { name: String, commit: Commit },
    PullRequest {
        name: String,
        repository: Repository,
        pull_request: PullRequest,
        status: PullRequestStatus,
        created_at: String,
    },
    PullRequestReview {
        name: String,
        repository: Repository,
        pull_request: PullRequest,
        status: PullRequestStatus,
        created_at: String,
    },
    Issue {
        name: String,
        repository: Repository,
        issue: Issue,
        status: IssueStatus,
        created_at: String,
    },
    CreateRepository { name: String, repository: Repository, created_at: String },
}

/// The mathematical shape of a repository.
#[verifier::ext_equal]
pub struct RepositoryView {
    pub name: Seq<char>,
    pub url: Seq<char>,
}

/// The mathematical shape of a commit.
#[verifier::ext_equal]
pub struct CommitView {
    pub repository: RepositoryView,
    pub number: int,
    pub url: Seq<char>,
}

/// The mathematical shape of a pull request.
#[verifier::ext_equal]
pub struct PullRequestView {
    pub name: Seq<char>,
    pub url: Seq<char>,
}

/// The mathematical shape of an issue.
#[verifier::ext_equal]
pub struct IssueView {
    pub name: Seq<char>,
    pub url: Seq<char>,
}

/// The mathematical shape of an event.
#[verifier::ext_equal]
pub enum EventView {
    Push { name: Seq<char>, commit: CommitView },
    PullRequest {
        name: Seq<char>,
        repository: RepositoryView,
        pull_request: PullRequestView,
        status: PullRequestStatus,
        created_at: Seq<char>,
    },
    PullRequestReview {
        name: Seq<char>,
        repository: RepositoryView,
        pull_request: PullRequestView,
        status: PullRequestStatus,
        created_at: Seq<char>,
    },
    Issue {
        name: Seq<char>,
        repository: RepositoryView,
        issue: IssueView,
        status: IssueStatus,
        created_at: Seq<char>,
    },
    CreateRepository { name: Seq<char>, repository: RepositoryView, created_at: Seq<char> },
}

impl DeepView for Repository {
    type V = RepositoryView;

    open spec fn deep_view(&self) -> RepositoryView {
        RepositoryView { name: self.name@, url: self.url@ }
    }
}

impl DeepView for Commit {
    type V = CommitView;

    open spec fn deep_view(&self) -> CommitView {
        CommitView {
            repository: self.repository.deep_view(),
            number: self.number as int,
            url: self.url@,
        }
    }
}

impl DeepView for PullRequest {
    type V = PullRequestView;

    open spec fn deep_view(&self) -> PullRequestView {
        PullRequestView { name: self.name@, url: self.url@ }
    }
}

impl DeepView for Issue {
    type V = IssueView;

    open spec fn deep_view(&self) -> IssueView {
        IssueView { name: self.name@, url: self.url@ }
    }
}

impl DeepView for Event {
    type V = EventView;

    open spec fn deep_view(&self) -> EventView {
        match self {
            Event::Push { name, commit } => EventView::Push {
                name: name@,
                commit: commit.deep_view(),
            },
            Event::PullRequest { name, repository, pull_request, status, created_at } => {
                EventView::PullRequest {
                    name: name@,
                    repository: repository.deep_view(),
                    pull_request: pull_request.deep_view(),
                    status: *status,
                    created_at: created_at@,
                }
            },
            Event::PullRequestReview { name, repository, pull_request, status, created_at } => {
                EventView::PullRequestReview {
                    name: name@,
                    repository: repository.deep_view(),
                    pull_request: pull_request.deep_view(),
                    status: *status,
                    created_at: created_at@,
                }
            },
            Event::Issue { name, repository, issue, status, created_at } => EventView::Issue {
                name: name@,
                repository: repository.deep_view(),
                issue: issue.deep_view(),
                status: *status,
                created_at: created_at@,
            },
            Event::CreateRepository { name, repository, created_at } => {
                EventView::CreateRepository {
                    name: name@,
                    repository: repository.deep_view(),
                    created_at: created_at@,
                }
            },
        }
    }
}

/// The marker substring whose presence in a status icon's class attribute
/// renders the item as still open.
pub open spec fn open_marker() -> Seq<char> {
    "text-green"@
}

/// The status a class attribute maps to: `Opened` exactly when it contains
/// the open marker, `Closed` for every other value.
pub open spec fn status_spec(class: Seq<char>) -> PullRequestStatus {
    if contains_seq(class, open_marker()) {
        PullRequestStatus::Opened
    } else {
        PullRequestStatus::Closed
    }
}

/// The issue status a class attribute maps to, by the same marker.
pub open spec fn issue_status_spec(class: Seq<char>) -> IssueStatus {
    if contains_seq(class, open_marker()) {
        IssueStatus::Opened
    } else {
        IssueStatus::Closed
    }
}

/// Maps a status icon's class attribute to a status: `Opened` exactly when
/// the attribute contains the open marker, `Closed` otherwise.
pub fn status_from_class(class: &str) -> (st: PullRequestStatus)
    ensures
        st == status_spec(class@),
{
    if contains_str(class, "text-green") {
        PullRequestStatus::Opened
    } else {
        PullRequestStatus::Closed
    }
}

/// Maps a status icon's class attribute to an issue status, by the same
/// marker.
pub fn issue_status_from_class(class: &str) -> (st: IssueStatus)
    ensures
        st == issue_status_spec(class@),
{
    if contains_str(class, "text-green") {
        IssueStatus::Opened
    } else {
        IssueStatus::Closed
    }
}

/// The shapes of a sequence of events, element for element.
pub open spec fn events_deep(s: Seq<Event>) -> Seq<EventView> {
    Seq::new(s.len(), |i: int| s[i].deep_view())
}

/// A vector of events has the shape of its contents.
pub(crate) proof fn lemma_vec_deep(v: Vec<Event>)
    ensures
        v.deep_view() == events_deep(v@),
{
    assert(v.deep_view() =~= events_deep(v@));
}

pub(crate) proof fn lemma_events_deep_push(s: Seq<Event>, ev: Event)
    ensures
        events_deep(s.push(ev)) == events_deep(s).push(ev.deep_view()),
{
    assert forall|j: int| 0 <= j < s.len() + 1 implies events_deep(s.push(ev))[j] == events_deep(
        s,
    ).push(ev.deep_view())[j] by {
        if j < s.len() {
            assert(s.push(ev)[j] == s[j]);
        } else {
            assert(s.push(ev)[j] == ev);
        }
    }
    assert(events_deep(s.push(ev)) =~= events_deep(s).push(ev.deep_view()));
}

pub(crate) proof fn lemma_events_deep_concat(a: Seq<Event>, b: Seq<Event>)
    ensures
        events_deep(a + b) == events_deep(a) + events_deep(b),
{
    assert forall|j: int| 0 <= j < a.len() + b.len() implies events_deep(a + b)[j] == (events_deep(
        a,
    ) + events_deep(b))[j] by {
        if j < a.len() {
            assert((a + b)[j] == a[j]);
        } else {
            assert((a + b)[j] == b[j - a.len()]);
        }
    }
    assert(events_deep(a + b) =~= events_deep(a) + events_deep(b));
}

/// The content of an attribute that may be absent; the extractors use it
/// only where they have checked presence.
pub open spec fn opt_seq(o: Option<Seq<char>>) -> Seq<char> {
    match o {
        Some(s) => s,
        None => Seq::empty(),
    }
}

/// The link at an even position: the `i`-th repository link of a push entry.
pub open spec fn repo_link(links: Seq<LinkView>, i: int) -> LinkView {
    links[2 * i]
}

/// The link at the following odd position: the `i`-th commit link.
pub open spec fn commit_link(links: Seq<LinkView>, i: int) -> LinkView {
    links[2 * i + 1]
}

/// Whether every paired link of a push entry carries its `href`.
pub open spec fn push_ok(links: Seq<LinkView>) -> bool {
    forall|i: int|
        0 <= i < links.len() / 2 ==> (#[trigger] repo_link(links, i)).href is Some && commit_link(
            links,
            i,
        ).href is Some
}

/// The `i`-th push event of an entry: even link as the repository, odd link
/// as the commit.
pub open spec fn push_event_at(name: Seq<char>, links: Seq<LinkView>, i: int) -> EventView {
    EventView::Push {
        name: name,
        commit: CommitView {
            repository: RepositoryView {
                name: trim_spec(repo_link(links, i).text),
                url: trim_spec(opt_seq(repo_link(links, i).href)),
            },
            number: COMMIT_NUMBER_PLACEHOLDER as int,
            url: trim_spec(opt_seq(commit_link(links, i).href)),
        },
    }
}

/// All push events of an entry: one per link pair, in order.
pub open spec fn push_events_spec(name: Seq<char>, links: Seq<LinkView>) -> Seq<EventView> {
    Seq::new((links.len() / 2) as nat, |i: int| push_event_at(name, links, i))
}

/// Extracts push events: the links under the entry alternate repository
/// link and commit link, and every even-odd pair yields one event. A pair
/// whose `href` is missing aborts the entry.
pub fn fetch_push_event(entry: &TimelineEntry, events: &mut Vec<Event>, event_name: String) -> (r:
    Result<(), WadachiError>)
    ensures
        ({
            let links = entry.deep_view().links;
            match r {
                Ok(_) => push_ok(links) && final(events).deep_view() == old(events).deep_view()
                    + push_events_spec(event_name@, links),
                Err(e) => !push_ok(links) && e == WadachiError::Extraction
                    && *final(events) == *old(events),
            }
        }),
{
    let ghost links = entry.deep_view().links;
    let n = entry.links.len();
    let pairs = n / 2;
    let mut out: Vec<Event> = Vec::new();
    let mut i: usize = 0;
    while i < pairs
        invariant
            i <= pairs,
            pairs == n / 2,
            n == entry.links.len(),
            links == entry.deep_view().links,
            events_deep(out@) == push_events_spec(event_name@, links).subrange(0, i as int),
            forall|j: int|
                0 <= j < i ==> (#[trigger] repo_link(links, j)).href is Some && commit_link(
                    links,
                    j,
                ).href is Some,
        decreases pairs - i,
    {
        let repo = &entry.links[2 * i];
        let com = &entry.links[2 * i + 1];
        proof {
            assert(repo.deep_view() == repo_link(links, i as int));
            assert(com.deep_view() == commit_link(links, i as int));
        }
        let rhref = match &repo.href {
            Some(h) => h,
            None => {
                return Err(WadachiError::Extraction);
            },
        };
        let chref = match &com.href {
            Some(h) => h,
            None => {
                return Err(WadachiError::Extraction);
            },
        };
        let ev = Event::Push {
            name: event_name.clone(),
            commit: Commit {
                repository: Repository {
                    name: trimmed(repo.text.as_str()),
                    url: trimmed(rhref.as_str()),
                },
                number: COMMIT_NUMBER_PLACEHOLDER,
                url: trimmed(chref.as_str()),
            },
        };
        let ghost prev = out@;
        let ghost sp = push_events_spec(event_name@, links);
        proof {
            assert(ev.deep_view() =~~= push_event_at(event_name@, links, i as int));
        }
        out.push(ev);
        i = i + 1;
        proof {
            lemma_events_deep_push(prev, ev);
            assert(sp.subrange(0, i as int - 1).push(sp[i as int - 1]) =~= sp.subrange(
                0,
                i as int,
            ));
            assert(events_deep(out@) == sp.subrange(0, i as int));
        }
    }
    let ghost sp = push_events_spec(event_name@, links);
    proof {
        assert(sp.subrange(0, pairs as int) =~= sp);
        assert(events_deep(out@) == sp);
    }
    let ghost out_snap = out@;
    events.append(&mut out);
    proof {
        lemma_vec_deep(*events);
        lemma_vec_deep(*old(events));
        lemma_events_deep_concat(old(events)@, out_snap);
    }
    Ok(())
}

/// The number of link-and-timestamp pairs of a create-repository entry.
pub open spec fn create_pair_count(links: Seq<LinkView>, times: Seq<Seq<char>>) -> int {
    if links.len() <= times.len() {
        links.len() as int
    } else {
        times.len() as int
    }
}

/// Whether every paired link of a create-repository entry carries its
/// `href`.
pub open spec fn create_ok(links: Seq<LinkView>, times: Seq<Seq<char>>) -> bool {
    forall|i: int|
        0 <= i < create_pair_count(links, times) ==> (#[trigger] links[i]).href is Some
}

/// The `i`-th create-repository event: the `i`-th link zipped with the
/// `i`-th timestamp.
pub open spec fn create_event_at(
    name: Seq<char>,
    links: Seq<LinkView>,
    times: Seq<Seq<char>>,
    i: int,
) -> EventView {
    EventView::CreateRepository {
        name: name,
        repository: RepositoryView {
            name: trim_spec(links[i].text),
            url: trim_spec(opt_seq(links[i].href)),
        },
        created_at: trim_spec(times[i]),
    }
}

/// All create-repository events of an entry, in order.
pub open spec fn create_events_spec(
    name: Seq<char>,
    links: Seq<LinkView>,
    times: Seq<Seq<char>>,
) -> Seq<EventView> {
    Seq::new(create_pair_count(links, times) as nat, |i: int| create_event_at(name, links, times, i))
}

/// Extracts create-repository events: the links and the timestamps under
/// the entry are zipped positionally, one event per pair. A link whose
/// `href` is missing aborts the entry.
pub fn fetch_create_repository_event(
    entry: &TimelineEntry,
    events: &mut Vec<Event>,
    event_name: String,
) -> (r: Result<(), WadachiError>)
    ensures
        ({
            let links = entry.deep_view().links;
            let times = entry.deep_view().times;
            match r {
                Ok(_) => create_ok(links, times) && final(events).deep_view()
                    == old(events).deep_view() + create_events_spec(event_name@, links, times),
                Err(e) => !create_ok(links, times) && e == WadachiError::Extraction
                    && *final(events) == *old(events),
            }
        }),
{
    let ghost links = entry.deep_view().links;
    let ghost times = entry.deep_view().times;
    let nl = entry.links.len();
    let nt = entry.times.len();
    let count = if nl <= nt {
        nl
    } else {
        nt
    };
    let mut out: Vec<Event> = Vec::new();
    let mut i: usize = 0;
    while i < count
        invariant
            i <= count,
            count == create_pair_count(links, times),
            count <= entry.links.len() && count <= entry.times.len(),
            links == entry.deep_view().links,
            times == entry.deep_view().times,
            events_deep(out@) == create_events_spec(event_name@, links, times).subrange(
                0,
                i as int,
            ),
            forall|j: int| 0 <= j < i ==> (#[trigger] links[j]).href is Some,
        decreases count - i,
    {
        let link = &entry.links[i];
        proof {
            assert(link.deep_view() == links[i as int]);
            assert(entry.times@[i as int]@ == times[i as int]);
        }
        let href = match &link.href {
            Some(h) => h,
            None => {
                return Err(WadachiError::Extraction);
            },
        };
        let ev = Event::CreateRepository {
            name: event_name.clone(),
            repository: Repository {
                name: trimmed(link.text.as_str()),
                url: trimmed(href.as_str()),
            },
            created_at: trimmed(entry.times[i].as_str()),
        };
        let ghost prev = out@;
        let ghost sp = create_events_spec(event_name@, links, times);
        proof {
            assert(ev.deep_view() =~~= create_event_at(event_name@, links, times, i as int));
        }
        out.push(ev);
        i = i + 1;
        proof {
            lemma_events_deep_push(prev, ev);
            assert(sp.subrange(0, i as int - 1).push(sp[i as int - 1]) =~= sp.subrange(
                0,
                i as int,
            ));
            assert(events_deep(out@) == sp.subrange(0, i as int));
        }
    }
    let ghost sp = create_events_spec(event_name@, links, times);
    proof {
        assert(sp.subrange(0, count as int) =~= sp);
        assert(events_deep(out@) == sp);
    }
    let ghost out_snap = out@;
    events.append(&mut out);
    proof {
        lemma_vec_deep(*events);
        lemma_vec_deep(*old(events));
        lemma_events_deep_concat(old(events)@, out_snap);
    }
    Ok(())
}

/// The three categories whose entries nest repository groups. They share one
/// extraction routine and differ only in which label node names the group's
/// repository and which event variant they produce.
#[derive(Debug, PartialEq, Eq, Structural, Clone, Copy)]
pub enum GroupedCategory {
    PullRequest,
    PullRequestReview,
    Issue,
}

/// The smallest of three lengths: how many items the three zipped element
/// runs of a group yield.
pub open spec fn min3(a: int, b: int, c: int) -> int {
    if a <= b && a <= c {
        a
    } else if b <= c {
        b
    } else {
        c
    }
}

/// The label node that names a group's repository: review entries render it
/// under one selector, pull-request and issue entries under another.
pub open spec fn group_label(kind: GroupedCategory, g: RepositoryGroupView) -> Option<Seq<char>> {
    if kind is PullRequestReview {
        g.reviewed_label
    } else {
        g.opened_label
    }
}

/// How many events a group yields: its links, status icons and timestamps
/// zipped positionally.
pub open spec fn group_item_count(g: RepositoryGroupView) -> int {
    min3(g.links.len() as int, g.statuses.len() as int, g.times.len() as int)
}

/// Whether a group has everything its events need: a label node, and an
/// `href` and a status `class` for every zipped item.
pub open spec fn group_ok(kind: GroupedCategory, g: RepositoryGroupView) -> bool {
    group_label(kind, g) is Some && forall|i: int|
        0 <= i < group_item_count(g) ==> (#[trigger] g.links[i]).href is Some
            && g.statuses[i].class is Some
}

/// The repository a group names: its trimmed label text, with the location
/// synthesized as `/` followed by that name.
pub open spec fn group_repo(kind: GroupedCategory, g: RepositoryGroupView) -> RepositoryView {
    let rname = trim_spec(opt_seq(group_label(kind, g)));
    RepositoryView { name: rname, url: "/"@ + rname }
}

/// The `i`-th event of a group: the `i`-th link, status icon and timestamp.
pub open spec fn group_event_at(
    kind: GroupedCategory,
    name: Seq<char>,
    g: RepositoryGroupView,
    i: int,
) -> EventView {
    let repo = group_repo(kind, g);
    let item_name = trim_spec(g.links[i].text);
    let item_url = trim_spec(opt_seq(g.links[i].href));
    let class = opt_seq(g.statuses[i].class);
    let at = trim_spec(g.times[i]);
    match kind {
        GroupedCategory::PullRequest => EventView::PullRequest {
            name: name,
            repository: repo,
            pull_request: PullRequestView { name: item_name, url: item_url },
            status: status_spec(class),
            created_at: at,
        },
        GroupedCategory::PullRequestReview => EventView::PullRequestReview {
            name: name,
            repository: repo,
            pull_request: PullRequestView { name: item_name, url: item_url },
            status: status_spec(class),
            created_at: at,
        },
        GroupedCategory::Issue => EventView::Issue {
            name: name,
            repository: repo,
            issue: IssueView { name: item_name, url: item_url },
            status: issue_status_spec(class),
            created_at: at,
        },
    }
}

/// All events of one group, in order.
pub open spec fn group_events_spec(
    kind: GroupedCategory,
    name: Seq<char>,
    g: RepositoryGroupView,
) -> Seq<EventView> {
    Seq::new(group_item_count(g) as nat, |i: int| group_event_at(kind, name, g, i))
}

/// The events of the first `i` groups, or nothing if one of them is missing
/// an expected element.
pub open spec fn groups_prefix(
    kind: GroupedCategory,
    name: Seq<char>,
    groups: Seq<RepositoryGroupView>,
    i: int,
) -> Option<Seq<EventView>>
    decreases i,
{
    if i <= 0 {
        Some(Seq::empty())
    } else {
        match groups_prefix(kind, name, groups, i - 1) {
            None => None,
            Some(acc) => if group_ok(kind, groups[i - 1]) {
                Some(acc + group_events_spec(kind, name, groups[i - 1]))
            } else {
                None
            },
        }
    }
}

/// The events of all groups of an entry, concatenated in group order, or
/// nothing if any group is missing an expected element.
pub open spec fn grouped_events_spec(
    kind: GroupedCategory,
    name: Seq<char>,
    groups: Seq<RepositoryGroupView>,
) -> Option<Seq<EventView>> {
    groups_prefix(kind, name, groups, groups.len() as int)
}

/// A failure among the first `i` groups fails every longer prefix.
proof fn lemma_groups_prefix_none(
    kind: GroupedCategory,
    name: Seq<char>,
    groups: Seq<RepositoryGroupView>,
    i: int,
    j: int,
)
    requires
        0 <= i <= j,
        groups_prefix(kind, name, groups, i) is None,
    ensures
        groups_prefix(kind, name, groups, j) is None,
    decreases j - i,
{
    if i < j {
        lemma_groups_prefix_none(kind, name, groups, i, j - 1);
    }
}

/// Extracts the events of one grouped entry: for each nested repository
/// group, the repository name comes from the group's label node, and the
/// group's links, status icons and timestamps are zipped positionally, one
/// event per item. A missing label node, `href` or `class` aborts the entry.
pub fn fetch_grouped_event(
    kind: GroupedCategory,
    entry: &TimelineEntry,
    events: &mut Vec<Event>,
    event_name: String,
) -> (r: Result<(), WadachiError>)
    ensures
        ({
            let groups = entry.deep_view().groups;
            match r {
                Ok(_) => grouped_events_spec(kind, event_name@, groups) matches Some(evs)
                    && final(events).deep_view() == old(events).deep_view() + evs,
                Err(e) => grouped_events_spec(kind, event_name@, groups) is None && e
                    == WadachiError::Extraction && *final(events) == *old(events),
            }
        }),
{
    let ghost groups = entry.deep_view().groups;
    let ngroups = entry.groups.len();
    let mut out: Vec<Event> = Vec::new();
    let mut gi: usize = 0;
    while gi < ngroups
        invariant
            gi <= ngroups,
            ngroups == entry.groups.len(),
            groups == entry.deep_view().groups,
            groups_prefix(kind, event_name@, groups, gi as int) == Some(events_deep(out@)),
        decreases ngroups - gi,
    {
        let g = &entry.groups[gi];
        let ghost gv = groups[gi as int];
        proof {
            assert(g.deep_view() == gv);
        }
        let lab = match (if kind == GroupedCategory::PullRequestReview {
            &g.reviewed_label
        } else {
            &g.opened_label
        }) {
            Some(l) => l,
            None => {
                proof {
                    assert(group_label(kind, gv) is None);
                    assert(groups_prefix(kind, event_name@, groups, gi + 1) is None);
                    lemma_groups_prefix_none(
                        kind,
                        event_name@,
                        groups,
                        gi + 1,
                        groups.len() as int,
                    );
                }
                return Err(WadachiError::Extraction);
            },
        };
        proof {
            assert(lab@ == opt_seq(group_label(kind, gv)));
        }
        let rname = trimmed(lab.as_str());
        let mut rurl = String::from_str("/");
        rurl.append(rname.as_str());
        proof {
            assert(rname@ == group_repo(kind, gv).name);
            assert(rurl@ == group_repo(kind, gv).url);
        }
        let nl = g.links.len();
        let ns = g.statuses.len();
        let nt = g.times.len();
        let mut count = nl;
        if ns < count {
            count = ns;
        }
        if nt < count {
            count = nt;
        }
        proof {
            assert(count == group_item_count(gv));
        }
        let ghost acc0 = events_deep(out@);
        let ghost gsp = group_events_spec(kind, event_name@, gv);
        let mut i: usize = 0;
        while i < count
            invariant
                i <= count,
                count == group_item_count(gv),
                count <= g.links.len() && count <= g.statuses.len() && count <= g.times.len(),
                gv == g.deep_view(),
                gi < entry.groups.len(),
                groups == entry.deep_view().groups,
                gv == groups[gi as int],
                groups_prefix(kind, event_name@, groups, gi as int) is Some,
                gsp == group_events_spec(kind, event_name@, gv),
                rname@ == group_repo(kind, gv).name,
                rurl@ == group_repo(kind, gv).url,
                events_deep(out@) == acc0 + gsp.subrange(0, i as int),
                forall|j: int|
                    0 <= j < i ==> (#[trigger] gv.links[j]).href is Some && gv.statuses[j].class
                        is Some,
            decreases count - i,
        {
            let link = &g.links[i];
            let icon = &g.statuses[i];
            proof {
                assert(link.deep_view() == gv.links[i as int]);
                assert(icon.deep_view() == gv.statuses[i as int]);
                assert(g.times@[i as int]@ == gv.times[i as int]);
            }
            let href = match &link.href {
                Some(h) => h,
                None => {
                    proof {
                        assert(!group_ok(kind, gv));
                        assert(groups_prefix(kind, event_name@, groups, gi + 1) is None);
                        lemma_groups_prefix_none(
                            kind,
                            event_name@,
                            groups,
                            gi + 1,
                            groups.len() as int,
                        );
                    }
                    return Err(WadachiError::Extraction);
                },
            };
            let class = match &icon.class {
                Some(c) => c,
                None => {
                    proof {
                        assert(!group_ok(kind, gv));
                        assert(groups_prefix(kind, event_name@, groups, gi + 1) is None);
                        lemma_groups_prefix_none(
                            kind,
                            event_name@,
                            groups,
                            gi + 1,
                            groups.len() as int,
                        );
                    }
                    return Err(WadachiError::Extraction);
                },
            };
            let item_name = trimmed(link.text.as_str());
            let item_url = trimmed(href.as_str());
            let at = trimmed(g.times[i].as_str());
            let ev = match kind {
                GroupedCategory::PullRequest => Event::PullRequest {
                    name: event_name.clone(),
                    repository: Repository { name: rname.clone(), url: rurl.clone() },
                    pull_request: PullRequest { name: item_name, url: item_url },
                    status: status_from_class(class.as_str()),
                    created_at: at,
                },
                GroupedCategory::PullRequestReview => Event::PullRequestReview {
                    name: event_name.clone(),
                    repository: Repository { name: rname.clone(), url: rurl.clone() },
                    pull_request: PullRequest { name: item_name, url: item_url },
                    status: status_from_class(class.as_str()),
                    created_at: at,
                },
                GroupedCategory::Issue => Event::Issue {
                    name: event_name.clone(),
                    repository: Repository { name: rname.clone(), url: rurl.clone() },
                    issue: Issue { name: item_name, url: item_url },
                    status: issue_status_from_class(class.as_str()),
                    created_at: at,
                },
            };
            let ghost prev = out@;
            proof {
                assert(ev.deep_view() =~~= group_event_at(kind, event_name@, gv, i as int));
            }
            out.push(ev);
            i = i + 1;
            proof {
                lemma_events_deep_push(prev, ev);
                assert((acc0 + gsp.subrange(0, i as int - 1)).push(gsp[i as int - 1]) =~= acc0
                    + gsp.subrange(0, i as int));
                assert(events_deep(out@) == acc0 + gsp.subrange(0, i as int));
            }
        }
        gi = gi + 1;
        proof {
            assert(group_ok(kind, gv));
            assert(gsp.subrange(0, count as int) =~= gsp);
            assert(events_deep(out@) == acc0 + gsp);
            assert(groups_prefix(kind, event_name@, groups, gi as int) == Some(acc0 + gsp));
        }
    }
    proof {
        assert(grouped_events_spec(kind, event_name@, groups) == Some(events_deep(out@)));
    }
    let ghost out_snap = out@;
    events.append(&mut out);
    proof {
        lemma_vec_deep(*events);
        lemma_vec_deep(*old(events));
        lemma_events_deep_concat(old(events)@, out_snap);
    }
    Ok(())
}

/// Extracts pull-request events: one nested group per repository touched,
/// the repository name under the pull-request label selector.
pub fn fetch_pull_request_event(
    entry: &TimelineEntry,
    events: &mut Vec<Event>,
    event_name: String,
) -> (r: Result<(), WadachiError>)
    ensures
        ({
            let groups = entry.deep_view().groups;
            match r {
                Ok(_) => grouped_events_spec(GroupedCategory::PullRequest, event_name@, groups)
                    matches Some(evs) && final(events).deep_view() == old(events).deep_view()
                    + evs,
                Err(e) => grouped_events_spec(GroupedCategory::PullRequest, event_name@, groups)
                    is None && e == WadachiError::Extraction && *final(events) == *old(events),
            }
        }),
{
    fetch_grouped_event(GroupedCategory::PullRequest, entry, events, event_name)
}

/// Extracts pull-request review events: as pull requests, but the repository
/// name stands under the review label selector.
pub fn fetch_pull_request_review_event(
    entry: &TimelineEntry,
    events: &mut Vec<Event>,
    event_name: String,
) -> (r: Result<(), WadachiError>)
    ensures
        ({
            let groups = entry.deep_view().groups;
            match r {
                Ok(_) => grouped_events_spec(
                    GroupedCategory::PullRequestReview,
                    event_name@,
                    groups,
                ) matches Some(evs) && final(events).deep_view() == old(events).deep_view() + evs,
                Err(e) => grouped_events_spec(
                    GroupedCategory::PullRequestReview,
                    event_name@,
                    groups,
                ) is None && e == WadachiError::Extraction && *final(events) == *old(events),
            }
        }),
{
    fetch_grouped_event(GroupedCategory::PullRequestReview, entry, events, event_name)
}

/// Extracts issue events: the same grouped shape as pull requests, with the
/// issue vocabulary.
pub fn fetch_issue_event(entry: &TimelineEntry, events: &mut Vec<Event>, event_name: String) -> (r:
    Result<(), WadachiError>)
    ensures
        ({
            let groups = entry.deep_view().groups;
            match r {
                Ok(_) => grouped_events_spec(GroupedCategory::Issue, event_name@, groups)
                    matches Some(evs) && final(events).deep_view() == old(events).deep_view()
                    + evs,
                Err(e) => grouped_events_spec(GroupedCategory::Issue, event_name@, groups) is None
                    && e == WadachiError::Extraction && *final(events) == *old(events),
            }
        }),
{
    fetch_grouped_event(GroupedCategory::Issue, entry, events, event_name)
}

} // verus!
