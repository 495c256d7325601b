//! Date-range validation, month-window planning, and the engine that turns
//! fetched documents into the flat event sequence.

use vstd::prelude::*;

use crate::document::{Document, TimelineEntry, TimelineEntryView};
use crate::event::{
    create_events_spec, create_ok, events_deep, fetch_create_repository_event, fetch_issue_event,
    fetch_pull_request_event, fetch_pull_request_review_event, fetch_push_event,
    grouped_events_spec, lemma_events_deep_concat, lemma_vec_deep, push_events_spec, push_ok,
    Event, EventView, GroupedCategory,
};
use crate::label::{classify, classify_spec, normalize_label, normalize_spec, EventKind};
use crate::text::{dec_digits, push_dec_u16, push_two_digits, two_digits};

verus! {

/// A calendar date as the query window endpoints name it. `month` and `day`
/// are checked against their stated ranges by [`Filtering::validate`]; a value
/// outside them is reported as an error, never clamped.
#[derive(Debug, PartialEq)]
pub struct Date {
    pub year: u16,
    pub month: u8,
    pub day: u8,
}

/// The errors the library reports: the two validation failures, a failed
/// fetch (constructed by the caller that performs the transport), and a
/// structural mismatch between a classified entry and its markup.
#[derive(Debug, PartialEq)]
pub enum WadachiError {
    InvalidMonth(u8),
    InvalidDay(u8),
    Fetch(String),
    Extraction,
}

/// Whether a month value lies in `1..=12`.
pub open spec fn month_ok(m: u8) -> bool {
    1 <= m <= 12
}

/// Whether a day value lies in `1..=31`. The bound is fixed at 31 for every
/// month: the source performs no calendar-aware day validation.
pub open spec fn day_ok(d: u8) -> bool {
    1 <= d <= 31
}

/// The query descriptor: a user name and the two endpoints of the date range.
#[derive(Debug, PartialEq)]
pub struct Filtering {
    pub user: String,
    pub from: Date,
    pub to: Date,
}

/// The first validation failure of the pair `(from, to)`, checked fail-fast in
/// the order: from.month, to.month, from.day, to.day.
pub open spec fn validate_spec(from: Date, to: Date) -> Result<(), WadachiError> {
    if !month_ok(from.month) {
        Err(WadachiError::InvalidMonth(from.month))
    } else if !month_ok(to.month) {
        Err(WadachiError::InvalidMonth(to.month))
    } else if !day_ok(from.day) {
        Err(WadachiError::InvalidDay(from.day))
    } else if !day_ok(to.day) {
        Err(WadachiError::InvalidDay(to.day))
    } else {
        Ok(())
    }
}

impl Filtering {
    /// Replaces the start of the range.
    pub fn from(&mut self, year: u16, month: u8, day: u8)
        ensures
            final(self).user == old(self).user,
            final(self).from == (Date { year, month, day }),
            final(self).to == old(self).to,
    {
        self.from = Date { year, month, day };
    }

    /// Replaces the end of the range.
    pub fn to(&mut self, year: u16, month: u8, day: u8)
        ensures
            final(self).user == old(self).user,
            final(self).from == old(self).from,
            final(self).to == (Date { year, month, day }),
    {
        self.to = Date { year, month, day };
    }

    /// Checks both endpoints before any fetch is attempted: months must lie in
    /// `1..=12` and days in `1..=31`, and the first violation found is the one
    /// reported.
    pub fn validate(&self) -> (r: Result<(), WadachiError>)
        ensures
            r == validate_spec(self.from, self.to),
            r is Ok <==> month_ok(self.from.month) && month_ok(self.to.month)
                && day_ok(self.from.day) && day_ok(self.to.day),
    {
        if self.from.month < 1 || self.from.month > 12 {
            Err(WadachiError::InvalidMonth(self.from.month))
        } else if self.to.month < 1 || self.to.month > 12 {
            Err(WadachiError::InvalidMonth(self.to.month))
        } else if self.from.day < 1 || self.from.day > 31 {
            Err(WadachiError::InvalidDay(self.from.day))
        } else if self.to.day < 1 || self.to.day > 31 {
            Err(WadachiError::InvalidDay(self.to.day))
        } else {
            Ok(())
        }
    }

    /// The month windows of this query, one per calendar month in range.
    pub fn windows(&self) -> (r: Vec<MonthWindow>)
        requires
            month_ok(self.from.month),
            month_ok(self.to.month),
        ensures
            r@ == plan_spec(self.from, self.to),
    {
        plan(&self.from, &self.to)
    }

    /// The location to fetch for one month window: the profile page filtered
    /// to that window's full calendar month.
    pub fn window_url(&self, w: &MonthWindow) -> (r: String)
        requires
            month_ok(w.month),
        ensures
            r@ == window_url_spec(self.user@, *w),
    {
        let mut r = String::from_str("https://github.com/");
        r.append(self.user.as_str());
        r.append("?tab=overview&from=");
        push_dec_u16(&mut r, w.year);
        r.append("-");
        push_two_digits(&mut r, w.month);
        r.append("-01&to=");
        push_dec_u16(&mut r, w.year);
        r.append("-");
        push_two_digits(&mut r, w.month);
        r.append("-31");
        proof {
            assert(r@ =~= window_url_spec(self.user@, *w));
        }
        r
    }

    /// Turns the documents fetched for this query's windows, in window
    /// order, into one flat event sequence. Validation comes first and
    /// reports the first violated rule; after it, any entry whose
    /// classification does not match its markup aborts the whole run with an
    /// extraction error and no partial result.
    pub fn execute(&self, documents: &Vec<Document>) -> (r: Result<Vec<Event>, WadachiError>)
        ensures
            validate_spec(self.from, self.to) matches Err(v) ==> r matches Err(e) && e == v,
            validate_spec(self.from, self.to) is Ok ==> match r {
                Ok(evs) => documents_events_spec(documents.deep_view()) == Some(evs.deep_view()),
                Err(e) => documents_events_spec(documents.deep_view()) is None && e
                    == WadachiError::Extraction,
            },
    {
        match self.validate() {
            Ok(_) => (),
            Err(e) => {
                return Err(e);
            },
        }
        let ghost docs = documents.deep_view();
        let mut events: Vec<Event> = Vec::new();
        let mut di: usize = 0;
        while di < documents.len()
            invariant
                di <= documents.len(),
                docs == documents.deep_view(),
                validate_spec(self.from, self.to) is Ok,
                docs_prefix(docs, di as int) == Some(events_deep(events@)),
            decreases documents.len() - di,
        {
            let doc = &documents[di];
            proof {
                assert(doc.deep_view() == docs[di as int]);
            }
            match process_document(doc, &mut events) {
                Ok(_) => (),
                Err(e) => {
                    proof {
                        lemma_docs_prefix_none(docs, di + 1, docs.len() as int);
                    }
                    return Err(e);
                },
            }
            di = di + 1;
            proof {
                lemma_vec_deep(events);
            }
        }
        proof {
            lemma_vec_deep(events);
        }
        Ok(events)
    }
}

/// One month window of the query: the planner yields one fetch per calendar
/// month in range.
#[derive(Debug, PartialEq, Eq, Structural, Clone, Copy)]
pub struct MonthWindow {
    pub year: u16,
    pub month: u8,
}

/// The windows of the months `lo..=hi` of one year, ascending.
pub open spec fn months_of_year(year: u16, lo: int, hi: int) -> Seq<MonthWindow> {
    Seq::new(
        if lo <= hi {
            (hi - lo + 1) as nat
        } else {
            0
        },
        |i: int| MonthWindow { year, month: (lo + i) as u8 },
    )
}

/// The ordered month windows from `from` to `to`: the starting year from
/// `from.month` on, every year strictly between whole, and the final year up
/// to and including `to.month`; a single run of months when the years are
/// equal. The day fields play no part.
pub open spec fn plan_spec(from: Date, to: Date) -> Seq<MonthWindow>
    decreases to.year - from.year,
{
    if from.year < to.year {
        months_of_year(from.year, from.month as int, 12) + plan_spec(
            Date { year: (from.year + 1) as u16, month: 1, day: 1 },
            to,
        )
    } else {
        months_of_year(from.year, from.month as int, to.month as int)
    }
}

/// Planning a valid range that starts no later than it ends yields at least
/// one window.
pub proof fn lemma_plan_nonempty(from: Date, to: Date)
    requires
        month_ok(from.month),
        month_ok(to.month),
        from.year < to.year || (from.year == to.year && from.month <= to.month),
    ensures
        plan_spec(from, to).len() > 0,
{
}

/// Appends the windows of the months `lo..=hi` of `year`.
fn push_months(out: &mut Vec<MonthWindow>, year: u16, lo: u8, hi: u8)
    requires
        hi <= 12,
    ensures
        final(out)@ == old(out)@ + months_of_year(year, lo as int, hi as int),
{
    if lo > hi {
        proof {
            assert(out@ =~= old(out)@ + months_of_year(year, lo as int, hi as int));
        }
        return;
    }
    proof {
        assert(out@ =~= old(out)@ + months_of_year(year, lo as int, lo as int - 1));
    }
    let mut m = lo;
    while m <= hi
        invariant
            lo <= m <= hi + 1,
            hi <= 12,
            out@ == old(out)@ + months_of_year(year, lo as int, m as int - 1),
        decreases hi + 1 - m,
    {
        out.push(MonthWindow { year, month: m });
        m = m + 1;
        proof {
            assert(out@ =~= old(out)@ + months_of_year(year, lo as int, m as int - 1));
        }
    }
    proof {
        assert(out@ =~= old(out)@ + months_of_year(year, lo as int, hi as int));
    }
}

/// The ordered month windows from `from` to `to` (executable form).
pub fn plan(from: &Date, to: &Date) -> (r: Vec<MonthWindow>)
    requires
        month_ok(from.month),
        month_ok(to.month),
    ensures
        r@ == plan_spec(*from, *to),
{
    let mut r: Vec<MonthWindow> = Vec::new();
    if from.year < to.year {
        push_months(&mut r, from.year, from.month, 12);
        let mut y = from.year + 1;
        proof {
            assert(Seq::<MonthWindow>::empty() + months_of_year(
                from.year,
                from.month as int,
                12,
            ) =~= months_of_year(from.year, from.month as int, 12));
        }
        while y < to.year
            invariant
                from.year < y <= to.year,
                month_ok(to.month),
                plan_spec(*from, *to) == r@ + plan_spec(
                    Date { year: y, month: 1, day: 1 },
                    *to,
                ),
            decreases to.year - y,
        {
            let ghost r0 = r@;
            push_months(&mut r, y, 1, 12);
            proof {
                assert(plan_spec(Date { year: y, month: 1, day: 1 }, *to) == months_of_year(
                    y,
                    1,
                    12,
                ) + plan_spec(Date { year: (y + 1) as u16, month: 1, day: 1 }, *to));
                assert(r0 + (months_of_year(y, 1, 12) + plan_spec(
                    Date { year: (y + 1) as u16, month: 1, day: 1 },
                    *to,
                )) =~= (r0 + months_of_year(y, 1, 12)) + plan_spec(
                    Date { year: (y + 1) as u16, month: 1, day: 1 },
                    *to,
                ));
            }
            y = y + 1;
        }
        let ghost r1 = r@;
        push_months(&mut r, to.year, 1, to.month);
        proof {
            assert(plan_spec(Date { year: y, month: 1, day: 1 }, *to) == months_of_year(
                to.year,
                1,
                to.month as int,
            ));
            assert(r1 + months_of_year(to.year, 1, to.month as int) =~= r@);
            assert(r@ =~= plan_spec(*from, *to));
        }
    } else {
        push_months(&mut r, from.year, from.month, to.month);
        proof {
            assert(Seq::<MonthWindow>::empty() + months_of_year(
                from.year,
                from.month as int,
                to.month as int,
            ) =~= months_of_year(from.year, from.month as int, to.month as int));
        }
    }
    r
}

/// The location of one window's page: the profile filtered to that window's
/// full calendar month, month and day zero-padded to two digits.
pub open spec fn window_url_spec(user: Seq<char>, w: MonthWindow) -> Seq<char> {
    "https://github.com/"@ + user + "?tab=overview&from="@ + dec_digits(w.year as int) + "-"@
        + two_digits(w.month as int) + "-01&to="@ + dec_digits(w.year as int) + "-"@ + two_digits(
        w.month as int,
    ) + "-31"@
}

impl WadachiError {
    /// The error's description, as the validation rules word it.
    pub fn message(&self) -> (r: String)
        ensures
            r@ == message_spec(*self),
    {
        match self {
            WadachiError::InvalidMonth(m) => {
                let mut r = String::from_str("the month ");
                push_dec_u16(&mut r, *m as u16);
                r.append(" is greater than 12 or less than 1.");
                proof {
                    assert(r@ =~= message_spec(*self));
                }
                r
            },
            WadachiError::InvalidDay(d) => {
                let mut r = String::from_str("the day ");
                push_dec_u16(&mut r, *d as u16);
                r.append(" is greater than 12 or less than 1.");
                proof {
                    assert(r@ =~= message_spec(*self));
                }
                r
            },
            WadachiError::Fetch(msg) => {
                let mut r = String::from_str("failed to fetch the page: ");
                r.append(msg.as_str());
                proof {
                    assert(r@ =~= message_spec(*self));
                }
                r
            },
            WadachiError::Extraction => {
                let r = String::from_str("the document lacks an expected element.");
                r
            },
        }
    }
}

/// The description of each error, word for word.
pub open spec fn message_spec(e: WadachiError) -> Seq<char> {
    match e {
        WadachiError::InvalidMonth(m) => "the month "@ + dec_digits(m as int)
            + " is greater than 12 or less than 1."@,
        WadachiError::InvalidDay(d) => "the day "@ + dec_digits(d as int)
            + " is greater than 12 or less than 1."@,
        WadachiError::Fetch(msg) => "failed to fetch the page: "@ + msg@,
        WadachiError::Extraction => "the document lacks an expected element."@,
    }
}

/// The events one timeline entry yields: none for an entry without a label
/// node or with an unrecognized label; the classified extractor's events
/// otherwise; nothing (an extraction error) when the markup lacks an element
/// the classified category expects.
pub open spec fn entry_events_spec(e: TimelineEntryView) -> Option<Seq<EventView>> {
    match e.label {
        None => Some(Seq::empty()),
        Some(raw) => {
            let name = normalize_spec(raw);
            match classify_spec(name) {
                EventKind::Push => if push_ok(e.links) {
                    Some(push_events_spec(name, e.links))
                } else {
                    None
                },
                EventKind::CreateRepository => if create_ok(e.links, e.times) {
                    Some(create_events_spec(name, e.links, e.times))
                } else {
                    None
                },
                EventKind::PullRequest => grouped_events_spec(
                    GroupedCategory::PullRequest,
                    name,
                    e.groups,
                ),
                EventKind::PullRequestReview => grouped_events_spec(
                    GroupedCategory::PullRequestReview,
                    name,
                    e.groups,
                ),
                EventKind::Issue => grouped_events_spec(GroupedCategory::Issue, name, e.groups),
                EventKind::Unknown => Some(Seq::empty()),
            }
        },
    }
}

/// An entry whose normalized label matches none of the five patterns
/// contributes zero events and does not abort the run.
pub proof fn lemma_unknown_entry_yields_nothing(e: TimelineEntryView)
    requires
        e.label matches Some(raw) && classify_spec(normalize_spec(raw)) is Unknown,
    ensures
        entry_events_spec(e) == Some(Seq::<EventView>::empty()),
{
}

/// Normalizes, classifies and extracts one timeline entry, appending its
/// events in encounter order.
pub fn process_entry(entry: &TimelineEntry, events: &mut Vec<Event>) -> (r: Result<
    (),
    WadachiError,
>)
    ensures
        ({
            let ev = entry_events_spec(entry.deep_view());
            match r {
                Ok(_) => ev matches Some(evs) && final(events).deep_view() == old(
                    events,
                ).deep_view() + evs,
                Err(e) => ev is None && e == WadachiError::Extraction && *final(events) == *old(
                    events,
                ),
            }
        }),
{
    let raw = match &entry.label {
        Some(l) => l,
        None => {
            proof {
                assert(final(events).deep_view() =~= old(events).deep_view()
                    + Seq::<EventView>::empty());
            }
            return Ok(());
        },
    };
    let name = normalize_label(raw.as_str());
    match classify(name.as_str()) {
        EventKind::Push => fetch_push_event(entry, events, name),
        EventKind::CreateRepository => fetch_create_repository_event(entry, events, name),
        EventKind::PullRequest => fetch_pull_request_event(entry, events, name),
        EventKind::PullRequestReview => fetch_pull_request_review_event(entry, events, name),
        EventKind::Issue => fetch_issue_event(entry, events, name),
        EventKind::Unknown => {
            proof {
                assert(final(events).deep_view() =~= old(events).deep_view()
                    + Seq::<EventView>::empty());
            }
            Ok(())
        },
    }
}

/// The events of the first `i` entries of a document, or nothing if one of
/// them fails extraction.
pub open spec fn entries_prefix(entries: Seq<TimelineEntryView>, i: int) -> Option<Seq<EventView>>
    decreases i,
{
    if i <= 0 {
        Some(Seq::empty())
    } else {
        match entries_prefix(entries, i - 1) {
            None => None,
            Some(acc) => match entry_events_spec(entries[i - 1]) {
                None => None,
                Some(evs) => Some(acc + evs),
            },
        }
    }
}

/// The events of one document: its entries' events concatenated in document
/// order, or nothing if any entry fails extraction.
pub open spec fn document_events_spec(entries: Seq<TimelineEntryView>) -> Option<Seq<EventView>> {
    entries_prefix(entries, entries.len() as int)
}

proof fn lemma_entries_prefix_none(entries: Seq<TimelineEntryView>, i: int, j: int)
    requires
        0 <= i <= j,
        entries_prefix(entries, i) is None,
    ensures
        entries_prefix(entries, j) is None,
    decreases j - i,
{
    if i < j {
        lemma_entries_prefix_none(entries, i, j - 1);
    }
}

/// Extracts the events of one fetched document, appending them in document
/// order; a failing entry aborts the document with nothing appended.
pub fn process_document(doc: &Document, events: &mut Vec<Event>) -> (r: Result<(), WadachiError>)
    ensures
        ({
            let ev = document_events_spec(doc.deep_view());
            match r {
                Ok(_) => ev matches Some(evs) && final(events).deep_view() == old(
                    events,
                ).deep_view() + evs,
                Err(e) => ev is None && e == WadachiError::Extraction && *final(events) == *old(
                    events,
                ),
            }
        }),
{
    let ghost entries = doc.deep_view();
    let mut out: Vec<Event> = Vec::new();
    let mut i: usize = 0;
    while i < doc.entries.len()
        invariant
            i <= doc.entries.len(),
            entries == doc.deep_view(),
            entries_prefix(entries, i as int) == Some(events_deep(out@)),
        decreases doc.entries.len() - i,
    {
        let entry = &doc.entries[i];
        proof {
            assert(entry.deep_view() == entries[i as int]);
            lemma_vec_deep(out);
        }
        match process_entry(entry, &mut out) {
            Ok(_) => (),
            Err(e) => {
                proof {
                    lemma_entries_prefix_none(entries, i + 1, entries.len() as int);
                }
                return Err(e);
            },
        }
        i = i + 1;
        proof {
            lemma_vec_deep(out);
        }
    }
    proof {
        assert(document_events_spec(entries) == Some(events_deep(out@)));
    }
    let ghost out_snap = out@;
    events.append(&mut out);
    proof {
        lemma_vec_deep(*events);
        lemma_vec_deep(*old(events));
        lemma_events_deep_concat(old(events)@, out_snap);
    }
    Ok(())
}

/// The events of the first `i` documents, or nothing if one of them fails.
pub open spec fn docs_prefix(docs: Seq<Seq<TimelineEntryView>>, i: int) -> Option<Seq<EventView>>
    decreases i,
{
    if i <= 0 {
        Some(Seq::empty())
    } else {
        match docs_prefix(docs, i - 1) {
            None => None,
            Some(acc) => match document_events_spec(docs[i - 1]) {
                None => None,
                Some(evs) => Some(acc + evs),
            },
        }
    }
}

/// The events of a whole run: the documents' events concatenated in window
/// order, or nothing if any document fails.
pub open spec fn documents_events_spec(docs: Seq<Seq<TimelineEntryView>>) -> Option<
    Seq<EventView>,
> {
    docs_prefix(docs, docs.len() as int)
}

proof fn lemma_docs_prefix_none(docs: Seq<Seq<TimelineEntryView>>, i: int, j: int)
    requires
        0 <= i <= j,
        docs_prefix(docs, i) is None,
    ensures
        docs_prefix(docs, j) is None,
    decreases j - i,
{
    if i < j {
        lemma_docs_prefix_none(docs, i, j - 1);
    }
}

} // verus!
