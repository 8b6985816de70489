//! Outcomes: what became of a mutant when the tests ran against it.

use crate::chars::{eq_ignore_ascii_case, said, same_but_case};
use crate::text::bytes_of;
use vstd::prelude::*;

verus! {

/// What became of a mutant.
#[derive(Debug, Clone, Copy, PartialEq, Eq, Structural, Hash)]
pub enum Status {
    /// The tests failed: the mutant was caught.
    TestFail,
    /// The tests passed: the mutant survived.
    Uncaught,
    /// The tests ran into the deadline; the mutant can be tested again.
    Timeout,
    /// The mutant was passed over, on purpose.
    Skipped,
    /// The tests could not be started.
    BuildFail,
}

impl Status {
    /// The name of the status.
    pub open spec fn name(self) -> Seq<char> {
        match self {
            Status::TestFail => "TestFail"@,
            Status::Uncaught => "Uncaught"@,
            Status::Timeout => "Timeout"@,
            Status::Skipped => "Skipped"@,
            Status::BuildFail => "BuildFail"@,
        }
    }

    /// The status that a text names, the case of ASCII letters set aside.
    pub open spec fn named(text: Seq<char>) -> Option<Status> {
        if same_but_case(bytes_of(text), bytes_of("TestFail"@)) {
            Some(Status::TestFail)
        } else if same_but_case(bytes_of(text), bytes_of("Uncaught"@)) {
            Some(Status::Uncaught)
        } else if same_but_case(bytes_of(text), bytes_of("Timeout"@)) {
            Some(Status::Timeout)
        } else if same_but_case(bytes_of(text), bytes_of("Skipped"@)) {
            Some(Status::Skipped)
        } else if same_but_case(bytes_of(text), bytes_of("BuildFail"@)) {
            Some(Status::BuildFail)
        } else {
            None
        }
    }

    /// The name of the status.
    pub fn as_str(&self) -> (r: &'static str)
        ensures
            r@ == self.name(),
    {
        match self {
            Status::TestFail => "TestFail",
            Status::Uncaught => "Uncaught",
            Status::Timeout => "Timeout",
            Status::Skipped => "Skipped",
            Status::BuildFail => "BuildFail",
        }
    }

    /// The name of the status.
    pub fn to_string(&self) -> (r: String)
        ensures
            r@ == self.name(),
    {
        self.as_str().to_string()
    }

    /// The status that a text names, the case of ASCII letters set aside.
    pub fn from_str(text: &str) -> (r: Option<Status>)
        ensures
            r == Status::named(text@),
    {
        if eq_ignore_ascii_case(text, "TestFail") {
            Some(Status::TestFail)
        } else if eq_ignore_ascii_case(text, "Uncaught") {
            Some(Status::Uncaught)
        } else if eq_ignore_ascii_case(text, "Timeout") {
            Some(Status::Timeout)
        } else if eq_ignore_ascii_case(text, "Skipped") {
            Some(Status::Skipped)
        } else if eq_ignore_ascii_case(text, "BuildFail") {
            Some(Status::BuildFail)
        } else {
            None
        }
    }

    /// Whether the status counts when catch rates are taken: the tests
    /// ran to an end, and either failed or passed.
    pub open spec fn spec_is_eligible(self) -> bool {
        self == Status::TestFail || self == Status::Uncaught
    }

    /// Whether the status counts when catch rates are taken.
    #[verifier::when_used_as_spec(spec_is_eligible)]
    pub fn is_eligible(self) -> (r: bool)
        ensures
            r == self.spec_is_eligible(),
    {
        match self {
            Status::TestFail => true,
            Status::Uncaught => true,
            _ => false,
        }
    }
}

/// A point in time: seconds since the start of 1970 in UTC, and the
/// nanoseconds past that second.
#[derive(Debug, Clone, Copy, PartialEq, Eq, Structural)]
pub struct Timestamp {
    pub secs: i64,
    pub nanos: u32,
}

/// The point in time that a text in the form of RFC 3339 names, as chrono
/// reads it.
pub uninterp spec fn rfc3339_instant(text: Seq<char>) -> Option<Timestamp>;

/// The text in the form of RFC 3339 for a point in time, as chrono writes
/// it for UTC; nothing where chrono has no such point.
pub uninterp spec fn rfc3339_text(secs: i64, nanos: u32) -> Option<Seq<char>>;

/// `DateTime::parse_from_rfc3339` of chrono, with `timestamp` and
/// `timestamp_subsec_nanos` on what it gives: the point in time that the
/// text names, and nothing where chrono does not take the text. How
/// chrono reads is not spelled out here; the point has the name
/// `rfc3339_instant`.
#[verifier::external_body]
fn read_rfc3339(text: &str) -> (r: Option<Timestamp>)
    ensures
        r == rfc3339_instant(text@),
{
    match chrono::DateTime::parse_from_rfc3339(text) {
        Ok(time) => Some(Timestamp { secs: time.timestamp(), nanos: time.timestamp_subsec_nanos() }),
        Err(_) => None,
    }
}

/// `DateTime::from_timestamp` and `DateTime::to_rfc3339` of chrono: the
/// text for a point in time, and nothing where chrono has no such point.
/// How chrono writes is not spelled out here; the text has the name
/// `rfc3339_text`.
#[verifier::external_body]
fn write_rfc3339(secs: i64, nanos: u32) -> (r: Option<String>)
    ensures
        said(r) == rfc3339_text(secs, nanos),
{
    match chrono::DateTime::from_timestamp(secs, nanos) {
        Some(time) => Some(time.to_rfc3339()),
        None => None,
    }
}

impl Timestamp {
    /// The point in time that a text in the form of RFC 3339 names.
    pub fn parse_from_rfc3339(text: &str) -> (r: Option<Timestamp>)
        ensures
            r == rfc3339_instant(text@),
    {
        read_rfc3339(text)
    }

    /// The point in time as a text in the form of RFC 3339.
    pub fn to_rfc3339(&self) -> (r: Option<String>)
        ensures
            said(r) == rfc3339_text(self.secs, self.nanos),
    {
        write_rfc3339(self.secs, self.nanos)
    }
}

/// What became of a mutant, with what the tests printed, when they ran
/// and for how long.
#[derive(Debug, Clone)]
pub struct Outcome {
    pub mutant_id: i64,
    pub status: Status,
    pub output: String,
    pub time: Timestamp,
    pub duration_ms: u32,
}

/// What an outcome says.
pub struct OutcomeView {
    pub mutant_id: i64,
    pub status: Status,
    pub output: Seq<char>,
    pub time: Timestamp,
    pub duration_ms: u32,
}

impl View for Outcome {
    type V = OutcomeView;

    open spec fn view(&self) -> OutcomeView {
        OutcomeView {
            mutant_id: self.mutant_id,
            status: self.status,
            output: self.output@,
            time: self.time,
            duration_ms: self.duration_ms,
        }
    }
}

impl Outcome {
    /// A copy of the outcome.
    pub fn copy(&self) -> (r: Outcome)
        ensures
            r@ == self@,
    {
        Outcome {
            mutant_id: self.mutant_id,
            status: self.status,
            output: self.output.clone(),
            time: self.time,
            duration_ms: self.duration_ms,
        }
    }
}

} // verus!
