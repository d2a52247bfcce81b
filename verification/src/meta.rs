//! What a report says about the run itself: when it was made and measured,
//! the account filter, and the cells whose text comes from floating-point
//! figures.
use vstd::prelude::*;
use crate::text::{fmt_us, signed_decimal, LatencyText};

verus! {

// ---------------------------------------------------------------------------
// Time stamps

/// The RFC 3339 text of the UTC instant `secs` seconds and `nanos`
/// nanoseconds after the Unix epoch, or `None` where chrono has no such
/// date.
pub uninterp spec fn rfc3339_of(secs: i64, nanos: u32) -> Option<Seq<char>>;

/// chrono's `DateTime::<Utc>::from_timestamp(secs, nanos)` followed, where it
/// gives a date, by `to_rfc3339()`. The contract ties the outcome to
/// `rfc3339_of`; the range of dates chrono accepts is left unsaid. Writing
/// never fails for a date chrono made: years outside 0 to 9999 are written
/// with their sign, and every other field has two digits.
#[verifier::external_body]
fn rfc3339(secs: i64, nanos: u32) -> (res: Option<String>)
    ensures
        match res {
            Some(s) => rfc3339_of(secs, nanos) == Some(s@),
            None => rfc3339_of(secs, nanos) is None,
        },
{
    match chrono::DateTime::<chrono::Utc>::from_timestamp(secs, nanos) {
        Some(t) => Some(t.to_rfc3339()),
        None => None,
    }
}

/// A UTC instant that chrono can represent, as seconds and nanoseconds
/// since the Unix epoch.
#[derive(Debug, Clone, Copy, PartialEq, Eq)]
pub struct Timestamp {
    secs: i64,
    nanos: u32,
}

impl View for Timestamp {
    type V = (i64, u32);

    closed spec fn view(&self) -> (i64, u32) {
        (self.secs, self.nanos)
    }
}

impl Timestamp {
    #[verifier::type_invariant]
    spec fn representable(self) -> bool {
        rfc3339_of(self.secs, self.nanos) is Some
    }

    /// The RFC 3339 text of this instant.
    pub open spec fn text(self) -> Seq<char> {
        rfc3339_of(self@.0, self@.1)->0
    }

    /// The instant `secs` seconds and `nanos` nanoseconds after the epoch,
    /// where chrono can represent it.
    pub fn from_unix(secs: i64, nanos: u32) -> (res: Option<Timestamp>)
        ensures
            res is Some <==> rfc3339_of(secs, nanos) is Some,
            res matches Some(t) ==> t@ == (secs, nanos),
    {
        match rfc3339(secs, nanos) {
            Some(_) => Some(Timestamp { secs, nanos }),
            None => None,
        }
    }

    /// Seconds since the epoch.
    pub fn secs(&self) -> (res: i64)
        ensures
            res == self@.0,
    {
        self.secs
    }

    /// Nanoseconds past the second.
    pub fn nanos(&self) -> (res: u32)
        ensures
            res == self@.1,
    {
        self.nanos
    }

    /// The RFC 3339 text of this instant, as chrono writes it.
    pub fn to_rfc3339(&self) -> (res: String)
        ensures
            rfc3339_of(self@.0, self@.1) == Some(res@),
            res@ == self.text(),
    {
        proof {
            use_type_invariant(self);
        }
        match rfc3339(self.secs, self.nanos) {
            Some(s) => s,
            None => String::new(),
        }
    }
}

// ---------------------------------------------------------------------------
// Durations

/// The text humantime gives a duration of `secs` whole seconds.
pub uninterp spec fn humantime_of(secs: u64) -> Seq<char>;

/// humantime's `format_duration(Duration::from_secs(secs)).to_string()`;
/// the contract only names its result.
#[verifier::external_body]
fn humantime_secs(secs: u64) -> (res: String)
    ensures
        res@ == humantime_of(secs),
{
    humantime::format_duration(std::time::Duration::from_secs(secs)).to_string()
}

/// A whole number of seconds written the way humantime writes durations
/// (`1m`, `1h 1m 1s`).
pub fn fmt_duration(secs: u64) -> (res: String)
    ensures
        res@ == humantime_of(secs),
{
    humantime_secs(secs)
}

// ---------------------------------------------------------------------------
// The run

/// What the reports say about the run.
#[derive(Debug, Clone)]
pub struct ReportMeta {
    pub generated_at: Timestamp,
    pub started_at: Timestamp,
    pub finished_at: Timestamp,
    pub duration_secs: u64,
    pub warmup_secs: u64,
    pub endpoint_count: usize,
    pub account_include: Vec<String>,
}

/// The accounts of the filter.
pub open spec fn accounts_of(meta: ReportMeta) -> Seq<Seq<char>> {
    meta.account_include@.map_values(|a: String| a@)
}

// ---------------------------------------------------------------------------
// Cells from floating-point figures

/// The cells of an endpoint row whose text comes from a floating-point
/// figure: the percentages with one decimal (`66.7`), and each latency of a
/// millisecond or more with two decimals and its unit (`1.25 ms`).
#[derive(Debug, Clone)]
pub struct EndpointCells {
    pub coverage_pct: String,
    pub win_pct: String,
    pub median_lag_ms: String,
    pub p95_lag_ms: String,
}

/// The cells of a pairwise row whose text comes from a floating-point
/// figure, as for an endpoint row.
#[derive(Debug, Clone)]
pub struct PairCells {
    pub win_pct: String,
    pub median_lead_ms: String,
    pub p95_lead_ms: String,
    pub median_behind_ms: String,
    pub p95_behind_ms: String,
}

/// The floating-point cells of every endpoint row and every pairwise row,
/// in the order of the rows.
#[derive(Debug, Clone)]
pub struct ReportCells {
    pub endpoints: Vec<EndpointCells>,
    pub pairs: Vec<PairCells>,
}

/// A latency cell: `n/a` when absent, whole microseconds below one
/// millisecond in magnitude, else the millisecond text `ms`.
pub open spec fn latency_text(value: Option<i64>, ms: Seq<char>) -> Seq<char> {
    match value {
        None => "n/a"@,
        Some(v) => if -1000 < v < 1000 {
            signed_decimal(v as int) + " us"@
        } else {
            ms
        },
    }
}

/// A latency cell, taking the millisecond text from `ms`.
pub fn latency_cell(value: Option<i64>, ms: &str) -> (res: String)
    requires
        value != Some(i64::MIN),
    ensures
        res@ == latency_text(value, ms@),
{
    match fmt_us(value) {
        LatencyText::Text(t) => t,
        LatencyText::Millis(_) => ms.to_owned(),
    }
}

} // verus!
