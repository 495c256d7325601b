use wadachi::document::{Document, Link, RepositoryGroup, StatusIcon, TimelineEntry};
use wadachi::event::{
    status_from_class, Commit, Event, IssueStatus, PullRequestStatus, Repository,
};
use wadachi::filtering::{plan, Date, Filtering, MonthWindow, WadachiError};
use wadachi::label::{classify, normalize_label, EventKind};

fn filtering(user: &str, from: Date, to: Date) -> Filtering {
    Filtering {
        user: user.to_string(),
        from,
        to,
    }
}

fn date(year: u16, month: u8, day: u8) -> Date {
    Date { year, month, day }
}

fn entry(label: &str) -> TimelineEntry {
    TimelineEntry {
        label: Some(label.to_string()),
        links: vec![],
        times: vec![],
        groups: vec![],
    }
}

fn link(text: &str, href: &str) -> Link {
    Link {
        text: text.to_string(),
        href: Some(href.to_string()),
    }
}

#[test]
fn it_returns_error_when_from_month_is_less_than_1() {
    let result1 = filtering("foo", date(2019, 0, 1), date(2019, 7, 1)).execute(&vec![]);
    assert_eq!(result1.is_err(), true);
    if let Err(err) = result1 {
        assert_eq!(
            err.message(),
            "the month 0 is greater than 12 or less than 1."
        );
    }

    let result2 = filtering("foo", date(2019, 1, 1), date(2019, 0, 1)).execute(&vec![]);
    assert_eq!(result2.is_err(), true);
    if let Err(err) = result2 {
        assert_eq!(
            err.message(),
            "the month 0 is greater than 12 or less than 1."
        );
    }
}

#[test]
fn it_returns_error_when_day_is_less_than_1() {
    let result1 = filtering("foo", date(2019, 1, 0), date(2019, 7, 1)).execute(&vec![]);
    assert_eq!(result1.is_err(), true);
    if let Err(err) = result1 {
        assert_eq!(err.message(), "the day 0 is greater than 12 or less than 1.");
    }

    let result2 = filtering("foo", date(2019, 1, 1), date(2019, 7, 0)).execute(&vec![]);
    assert_eq!(result2.is_err(), true);
    if let Err(err) = result2 {
        assert_eq!(err.message(), "the day 0 is greater than 12 or less than 1.");
    }
}

#[test]
fn month_out_of_range_is_rejected_before_any_document() {
    let result = filtering("foo", date(2019, 13, 1), date(2019, 7, 1)).execute(&vec![]);
    assert_eq!(result, Err(WadachiError::InvalidMonth(13)));
}

#[test]
fn day_out_of_range_is_rejected_before_any_document() {
    let result = filtering("foo", date(2019, 1, 1), date(2019, 7, 32)).execute(&vec![]);
    assert_eq!(result, Err(WadachiError::InvalidDay(32)));
}

#[test]
fn validation_reports_from_month_before_to_day() {
    let result = filtering("foo", date(2019, 0, 0), date(2019, 0, 0)).execute(&vec![]);
    assert_eq!(result, Err(WadachiError::InvalidMonth(0)));
}

#[test]
fn plan_within_one_year_yields_one_window_per_month() {
    let windows = plan(&date(2019, 1, 10), &date(2019, 7, 20));
    let expected: Vec<MonthWindow> = (1..=7)
        .map(|month| MonthWindow { year: 2019, month })
        .collect();
    assert_eq!(windows, expected);
}

#[test]
fn plan_across_years_covers_every_calendar_month() {
    let windows = plan(&date(2019, 1, 1), &date(2020, 3, 1));
    assert_eq!(windows.len(), 15);
    let mut expected: Vec<MonthWindow> = (1..=12)
        .map(|month| MonthWindow { year: 2019, month })
        .collect();
    expected.extend((1..=3).map(|month| MonthWindow { year: 2020, month }));
    assert_eq!(windows, expected);
}

#[test]
fn plan_of_a_single_month_is_one_window() {
    let windows = plan(&date(2020, 5, 1), &date(2020, 5, 31));
    assert_eq!(windows, vec![MonthWindow { year: 2020, month: 5 }]);
}

#[test]
fn normalization_collapses_wrapped_labels() {
    let normalized = normalize_label("  Created 3\n   commits in 2 repositories  \n");
    assert_eq!(normalized, "Created 3 commits in 2 repositories");
}

#[test]
fn normalization_is_idempotent_on_a_messy_label() {
    let once = normalize_label(" Opened 1 pull request\n  in 1 repository ");
    let twice = normalize_label(&once);
    assert_eq!(once, twice);
}

#[test]
fn classification_recognizes_each_category() {
    assert_eq!(
        classify("Created 3 commits in 2 repositories"),
        EventKind::Push
    );
    assert_eq!(
        classify("Created 1 commits in 1 repository"),
        EventKind::Push
    );
    assert_eq!(classify("Created 1 repository"), EventKind::CreateRepository);
    assert_eq!(
        classify("Created 14 repositories"),
        EventKind::CreateRepository
    );
    assert_eq!(
        classify("Opened 1 pull request in 1 repository"),
        EventKind::PullRequest
    );
    assert_eq!(
        classify("Opened 2 other pull requests in 2 repositories"),
        EventKind::PullRequest
    );
    assert_eq!(
        classify("Reviewed 3 pull requests in 2 repositories"),
        EventKind::PullRequestReview
    );
    assert_eq!(
        classify("Reviewed 1 pull request in 1 repository"),
        EventKind::PullRequestReview
    );
    assert_eq!(classify("Opened 1 issue in 1 repository"), EventKind::Issue);
    assert_eq!(
        classify("Opened 5 other issues in 3 repositories"),
        EventKind::Issue
    );
}

#[test]
fn classification_allows_mixed_singular_and_plural() {
    assert_eq!(
        classify("Opened 1 pull requests in 1 repositories"),
        EventKind::PullRequest
    );
    assert_eq!(
        classify("Created 0 commits in 0 repositories"),
        EventKind::Push
    );
}

#[test]
fn the_other_marker_is_allowed_only_where_the_pattern_has_it() {
    assert_eq!(
        classify("Opened 2 other pull requests in 2 repositories"),
        EventKind::PullRequest
    );
    assert_eq!(
        classify("Reviewed 2 other pull requests in 2 repositories"),
        EventKind::Unknown
    );
}

#[test]
fn an_odd_trailing_link_is_dropped_from_push_pairs() {
    let mut e = entry("Created 5 commits in 3 repositories");
    e.links = vec![
        link("repoA", "/repoA"),
        link("4 commits", "/repoA/commits"),
        link("repoB", "/repoB"),
        link("1 commit", "/repoB/commits"),
        link("dangling", "/dangling"),
    ];
    let doc = Document { entries: vec![e] };
    let result = filtering("foo", date(2019, 1, 1), date(2019, 1, 31)).execute(&vec![doc]);
    let events = result.expect("extraction should succeed");
    assert_eq!(events.len(), 2);
}

#[test]
fn classification_rejects_near_misses() {
    assert_eq!(classify("Created 3 commits"), EventKind::Unknown);
    assert_eq!(classify("Created commits in 2 repositories"), EventKind::Unknown);
    assert_eq!(classify("created 3 commits in 2 repositories"), EventKind::Unknown);
    assert_eq!(classify("Created 3 commits in 2 repositories!"), EventKind::Unknown);
    assert_eq!(classify("Joined an organization"), EventKind::Unknown);
    assert_eq!(classify(""), EventKind::Unknown);
}

#[test]
fn push_labels_never_classify_as_create_repository() {
    // Both rules begin with `Created`; the push rule must win.
    let label = "Created 12 commits in 4 repositories";
    assert_eq!(classify(label), EventKind::Push);
    assert_ne!(classify(label), EventKind::CreateRepository);
}

#[test]
fn status_maps_on_the_open_marker() {
    assert_eq!(
        status_from_class("octicon color-text-success text-green"),
        PullRequestStatus::Opened
    );
    assert_eq!(status_from_class("text-green"), PullRequestStatus::Opened);
    assert_eq!(status_from_class("text-red"), PullRequestStatus::Closed);
    assert_eq!(status_from_class(""), PullRequestStatus::Closed);
}

#[test]
fn push_entry_yields_one_event_per_link_pair() {
    let mut e = entry("Created 3 commits in 2 repositories");
    e.links = vec![
        link(" repoA ", " /repoA "),
        link("3 commits", "/repoA/commits?since=x"),
        link("repoB", "/repoB"),
        link("1 commit", "/repoB/commits?since=x"),
    ];
    let doc = Document { entries: vec![e] };
    let result = filtering("foo", date(2019, 1, 1), date(2019, 1, 31)).execute(&vec![doc]);
    let expected_name = "Created 3 commits in 2 repositories".to_string();
    assert_eq!(
        result,
        Ok(vec![
            Event::Push {
                name: expected_name.clone(),
                commit: Commit {
                    repository: Repository {
                        name: "repoA".to_string(),
                        url: "/repoA".to_string(),
                    },
                    number: 3,
                    url: "/repoA/commits?since=x".to_string(),
                },
            },
            Event::Push {
                name: expected_name.clone(),
                commit: Commit {
                    repository: Repository {
                        name: "repoB".to_string(),
                        url: "/repoB".to_string(),
                    },
                    number: 3,
                    url: "/repoB/commits?since=x".to_string(),
                },
            },
        ])
    );
}

#[test]
fn pull_request_entry_yields_group_events_with_synthesized_url() {
    let mut e = entry("Opened 1 pull request in 1 repository");
    e.groups = vec![RepositoryGroup {
        opened_label: Some(" octo/proj ".to_string()),
        reviewed_label: None,
        links: vec![link(" Add a parser ", " /octo/proj/pull/7 ")],
        statuses: vec![StatusIcon {
            class: Some("octicon text-green".to_string()),
        }],
        times: vec![" Mar 1 ".to_string()],
    }];
    let doc = Document { entries: vec![e] };
    let result = filtering("foo", date(2019, 3, 1), date(2019, 3, 31)).execute(&vec![doc]);
    let events = result.expect("extraction should succeed");
    assert_eq!(events.len(), 1);
    match &events[0] {
        Event::PullRequest {
            name,
            repository,
            pull_request,
            status,
            created_at,
        } => {
            assert_eq!(name, "Opened 1 pull request in 1 repository");
            assert_eq!(repository.name, "octo/proj");
            assert_eq!(repository.url, "/octo/proj");
            assert_eq!(pull_request.name, "Add a parser");
            assert_eq!(pull_request.url, "/octo/proj/pull/7");
            assert_eq!(*status, PullRequestStatus::Opened);
            assert_eq!(created_at, "Mar 1");
        }
        other => panic!("expected a pull request event, got {:?}", other),
    }
}

#[test]
fn review_entry_reads_the_review_label_node() {
    let mut e = entry("Reviewed 1 pull request in 1 repository");
    e.groups = vec![RepositoryGroup {
        opened_label: None,
        reviewed_label: Some("octo/proj".to_string()),
        links: vec![link("Fix the build", "/octo/proj/pull/9")],
        statuses: vec![StatusIcon {
            class: Some("octicon text-purple".to_string()),
        }],
        times: vec!["Apr 2".to_string()],
    }];
    let doc = Document { entries: vec![e] };
    let result = filtering("foo", date(2019, 4, 1), date(2019, 4, 30)).execute(&vec![doc]);
    let events = result.expect("extraction should succeed");
    assert_eq!(events.len(), 1);
    match &events[0] {
        Event::PullRequestReview {
            repository, status, ..
        } => {
            assert_eq!(repository.name, "octo/proj");
            assert_eq!(repository.url, "/octo/proj");
            assert_eq!(*status, PullRequestStatus::Closed);
        }
        other => panic!("expected a review event, got {:?}", other),
    }
}

#[test]
fn issue_entry_is_routed_to_the_issue_extractor() {
    let mut e = entry("Opened 2 issues in 1 repository");
    e.groups = vec![RepositoryGroup {
        opened_label: Some("octo/proj".to_string()),
        reviewed_label: None,
        links: vec![
            link("Crash on start", "/octo/proj/issues/1"),
            link("Typo in docs", "/octo/proj/issues/2"),
        ],
        statuses: vec![
            StatusIcon {
                class: Some("octicon text-green".to_string()),
            },
            StatusIcon {
                class: Some("octicon text-red".to_string()),
            },
        ],
        times: vec!["May 3".to_string(), "May 4".to_string()],
    }];
    let doc = Document { entries: vec![e] };
    let result = filtering("foo", date(2019, 5, 1), date(2019, 5, 31)).execute(&vec![doc]);
    let events = result.expect("extraction should succeed");
    assert_eq!(events.len(), 2);
    match &events[0] {
        Event::Issue { issue, status, .. } => {
            assert_eq!(issue.name, "Crash on start");
            assert_eq!(issue.url, "/octo/proj/issues/1");
            assert_eq!(*status, IssueStatus::Opened);
        }
        other => panic!("expected an issue event, got {:?}", other),
    }
    match &events[1] {
        Event::Issue { issue, status, .. } => {
            assert_eq!(issue.name, "Typo in docs");
            assert_eq!(*status, IssueStatus::Closed);
        }
        other => panic!("expected an issue event, got {:?}", other),
    }
}

#[test]
fn create_repository_entry_zips_links_with_timestamps() {
    let mut e = entry("Created 2 repositories");
    e.links = vec![link("octo/alpha", "/octo/alpha"), link("octo/beta", "/octo/beta")];
    e.times = vec!["Jan 2".to_string(), "Jan 5".to_string()];
    let doc = Document { entries: vec![e] };
    let result = filtering("foo", date(2019, 1, 1), date(2019, 1, 31)).execute(&vec![doc]);
    let events = result.expect("extraction should succeed");
    assert_eq!(events.len(), 2);
    match &events[0] {
        Event::CreateRepository {
            repository,
            created_at,
            ..
        } => {
            assert_eq!(repository.name, "octo/alpha");
            assert_eq!(repository.url, "/octo/alpha");
            assert_eq!(created_at, "Jan 2");
        }
        other => panic!("expected a create-repository event, got {:?}", other),
    }
}

#[test]
fn unrecognized_entries_contribute_nothing_and_do_not_abort() {
    let known = {
        let mut e = entry("Created 1 repository");
        e.links = vec![link("octo/alpha", "/octo/alpha")];
        e.times = vec!["Jan 2".to_string()];
        e
    };
    let doc = Document {
        entries: vec![entry("Joined an organization"), known, entry("Starred a repository")],
    };
    let result = filtering("foo", date(2019, 1, 1), date(2019, 1, 31)).execute(&vec![doc]);
    let events = result.expect("unrecognized entries must not abort the run");
    assert_eq!(events.len(), 1);
}

#[test]
fn entries_without_a_label_node_are_skipped() {
    let doc = Document {
        entries: vec![TimelineEntry {
            label: None,
            links: vec![link("octo/alpha", "/octo/alpha")],
            times: vec![],
            groups: vec![],
        }],
    };
    let result = filtering("foo", date(2019, 1, 1), date(2019, 1, 31)).execute(&vec![doc]);
    assert_eq!(result, Ok(vec![]));
}

#[test]
fn a_classified_entry_with_a_missing_href_aborts_the_run() {
    let mut e = entry("Created 3 commits in 2 repositories");
    e.links = vec![
        link("repoA", "/repoA"),
        Link {
            text: "3 commits".to_string(),
            href: None,
        },
    ];
    let doc = Document { entries: vec![e] };
    let result = filtering("foo", date(2019, 1, 1), date(2019, 1, 31)).execute(&vec![doc]);
    assert_eq!(result, Err(WadachiError::Extraction));
}

#[test]
fn a_group_without_its_label_node_aborts_the_run() {
    let mut e = entry("Opened 1 pull request in 1 repository");
    e.groups = vec![RepositoryGroup {
        opened_label: None,
        reviewed_label: Some("octo/proj".to_string()),
        links: vec![link("Add a parser", "/octo/proj/pull/7")],
        statuses: vec![StatusIcon {
            class: Some("text-green".to_string()),
        }],
        times: vec!["Mar 1".to_string()],
    }];
    let doc = Document { entries: vec![e] };
    let result = filtering("foo", date(2019, 3, 1), date(2019, 3, 31)).execute(&vec![doc]);
    assert_eq!(result, Err(WadachiError::Extraction));
}

#[test]
fn events_keep_window_order_across_documents() {
    let first = {
        let mut e = entry("Created 1 repository");
        e.links = vec![link("octo/january", "/octo/january")];
        e.times = vec!["Jan 1".to_string()];
        Document { entries: vec![e] }
    };
    let second = {
        let mut e = entry("Created 1 repository");
        e.links = vec![link("octo/february", "/octo/february")];
        e.times = vec!["Feb 1".to_string()];
        Document { entries: vec![e] }
    };
    let result =
        filtering("foo", date(2019, 1, 1), date(2019, 2, 28)).execute(&vec![first, second]);
    let events = result.expect("extraction should succeed");
    assert_eq!(events.len(), 2);
    match (&events[0], &events[1]) {
        (
            Event::CreateRepository {
                repository: first_repo,
                ..
            },
            Event::CreateRepository {
                repository: second_repo,
                ..
            },
        ) => {
            assert_eq!(first_repo.name, "octo/january");
            assert_eq!(second_repo.name, "octo/february");
        }
        other => panic!("expected two create-repository events, got {:?}", other),
    }
}

#[test]
fn window_urls_pad_month_and_day_to_two_digits() {
    let f = filtering("foo", date(2019, 1, 1), date(2019, 1, 31));
    let url = f.window_url(&MonthWindow {
        year: 2019,
        month: 3,
    });
    assert_eq!(
        url,
        "https://github.com/foo?tab=overview&from=2019-03-01&to=2019-03-31"
    );
}

#[test]
fn fetch_errors_carry_their_description() {
    let err = WadachiError::Fetch("connection refused".to_string());
    assert_eq!(
        err.message(),
        "failed to fetch the page: connection refused"
    );
    assert_eq!(
        WadachiError::Extraction.message(),
        "the document lacks an expected element."
    );
}

#[test]
fn new_queries_start_today_with_a_valid_range() {
    let f = wadachi::new("octocat");
    assert_eq!(f.user, "octocat");
    assert_eq!(f.from, f.to);
    assert!((1..=12).contains(&f.from.month));
    assert!((1..=31).contains(&f.from.day));
    assert_eq!(f.validate(), Ok(()));
}

#[test]
fn builders_replace_one_endpoint_at_a_time() {
    let mut f = filtering("foo", date(2019, 1, 1), date(2019, 7, 1));
    f.from(2020, 2, 3);
    assert_eq!(f.from, date(2020, 2, 3));
    assert_eq!(f.to, date(2019, 7, 1));
    f.to(2021, 4, 5);
    assert_eq!(f.from, date(2020, 2, 3));
    assert_eq!(f.to, date(2021, 4, 5));
}
