//! Retrieves a user's contribution timeline from a profile page rendered as
//! markup and turns it into a typed sequence of events (commits pushed, pull
//! requests opened or reviewed, repositories created, issues opened) over a
//! caller-specified date range.
//!
//! The library itself is pure: it validates the date range, plans the month
//! windows to query, builds the request locations, and classifies and extracts
//! events from an already-parsed document model. Fetching and markup parsing
//! are left to the caller.

use vstd::prelude::*;

pub mod document;
pub mod event;
pub mod filtering;
pub mod label;
pub mod text;

use filtering::{Date, Filtering};

verus! {

/// Relies on `chrono::Local::now` and `chrono::Datelike`: the current local
/// date's month lies in `1..=12` and its day in `1..=31`. Nothing is assumed
/// about the year beyond its conversion to sixteen bits.
#[verifier::external_body]
fn current_local_date() -> (r: (u16, u8, u8))
    ensures
        1 <= r.1 <= 12,
        1 <= r.2 <= 31,
{
    let now = chrono::Local::now();
    (
        chrono::Datelike::year(&now) as u16,
        chrono::Datelike::month(&now) as u8,
        chrono::Datelike::day(&now) as u8,
    )
}

/// A query for `user`'s timeline whose range starts and ends today; the
/// range is then narrowed with [`Filtering::from`] and [`Filtering::to`].
pub fn new(user: &str) -> (r: Filtering)
    ensures
        r.user@ == user@,
        r.from == r.to,
        filtering::month_ok(r.from.month),
        filtering::day_ok(r.from.day),
{
    let (year, month, day) = current_local_date();
    Filtering {
        user: user.to_owned(),
        from: Date { year, month, day },
        to: Date { year, month, day },
    }
}

} // verus!
