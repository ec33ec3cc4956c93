//! The timing parser: turns an `A --> B` range of two timestamps into an
//! ordered pair, enforcing that the caption appears before it disappears.

use crate::text::{
    chars_to_string, lemma_split_pat_len, seq_views, split_pat, split_pattern, to_chars, trim_spec,
    trim_vec,
};
use crate::timestamp::{ts_class, ts_result_matches, ts_value, Timestamp, TimestampError, TsClass};
use vstd::prelude::*;
use vstd::string::StringExecFns;

verus! {

/// A caption's visibility range: one timestamp for when it appears on
/// screen and one for when it disappears, separated by `-->` in the file.
///
/// Invariant of every parsed value: `start` is not later than `end`.
#[derive(Debug, Clone, PartialEq, Eq, Structural)]
pub struct Timing {
    pub start: Timestamp,
    pub end: Timestamp,
}

/// Everything that can be wrong with a timing line: an empty line, a wrong
/// separator count or an out-of-order pair (both with a message echoing the
/// input), or a timestamp error on either side, wrapped.
#[derive(Debug, PartialEq, Eq)]
pub enum TimingError {
    EmptyTiming,
    MalformedTiming(String),
    Timestamp(TimestampError),
}

/// The separator between the two timestamps of a timing line.
pub open spec fn timing_sep() -> Seq<char> {
    seq!['-', '-', '>']
}

/// The pieces of a timing line around each `-->` occurrence.
pub open spec fn timing_parts(t: Seq<char>) -> Seq<Seq<char>> {
    split_pat(t, timing_sep())
}

/// The trimmed token left of the separator.
pub open spec fn timing_start_raw(t: Seq<char>) -> Seq<char> {
    trim_spec(timing_parts(t)[0])
}

/// The trimmed token right of the separator.
pub open spec fn timing_end_raw(t: Seq<char>) -> Seq<char> {
    trim_spec(timing_parts(t)[1])
}

/// The grammar of a timing line, written as a classification: either the
/// first check that fails, in the order the parser applies them, or `Valid`.
pub enum TimingClass {
    Empty,
    MissingSep,
    MultipleSep,
    StartBad,
    EndBad,
    OutOfOrder,
    Valid,
}

pub open spec fn timing_class(t: Seq<char>) -> TimingClass {
    if t.len() == 0 {
        TimingClass::Empty
    } else if timing_parts(t).len() == 1 {
        TimingClass::MissingSep
    } else if timing_parts(t).len() > 2 {
        TimingClass::MultipleSep
    } else if !(ts_class(timing_start_raw(t)) is Valid) {
        TimingClass::StartBad
    } else if !(ts_class(timing_end_raw(t)) is Valid) {
        TimingClass::EndBad
    } else if !ts_value(timing_start_raw(t)).spec_le(ts_value(timing_end_raw(t))) {
        TimingClass::OutOfOrder
    } else {
        TimingClass::Valid
    }
}

/// The timing a valid line denotes.
pub open spec fn timing_value(t: Seq<char>) -> Timing {
    Timing { start: ts_value(timing_start_raw(t)), end: ts_value(timing_end_raw(t)) }
}

/// The message carried by a malformed-timing error: the description followed
/// by an echo of the original input.
pub open spec fn malformed_message(msg: Seq<char>, original: Seq<char>) -> Seq<char> {
    msg + " (input: "@ + original + ")"@
}

/// What the parser returns on input `t`.
pub open spec fn timing_result_matches(r: Result<Timing, TimingError>, t: Seq<char>) -> bool {
    match timing_class(t) {
        TimingClass::Valid => r matches Ok(v) && v == timing_value(t),
        TimingClass::Empty => r == Result::<Timing, TimingError>::Err(TimingError::EmptyTiming),
        TimingClass::MissingSep => r matches Err(TimingError::MalformedTiming(m)) && m@
            == malformed_message("Missing timestamp separator (-->)"@, t),
        TimingClass::MultipleSep => r matches Err(TimingError::MalformedTiming(m)) && m@
            == malformed_message("Multiple timestamp separators"@, t),
        TimingClass::StartBad => r matches Err(TimingError::Timestamp(e)) && ts_result_matches(
            Result::<Timestamp, TimestampError>::Err(e),
            timing_start_raw(t),
        ),
        TimingClass::EndBad => r matches Err(TimingError::Timestamp(e)) && ts_result_matches(
            Result::<Timestamp, TimestampError>::Err(e),
            timing_end_raw(t),
        ),
        TimingClass::OutOfOrder => r matches Err(TimingError::MalformedTiming(m)) && m@
            == malformed_message("Start timestamp is later than end timestamp"@, t),
    }
}

impl TimingError {
    /// Builds the malformed-timing error: the message followed by an echo of
    /// the offending input.
    pub fn malformed(msg: &str, original_input: &str) -> (r: TimingError)
        ensures
            r matches TimingError::MalformedTiming(m) && m@ == malformed_message(
                msg@,
                original_input@,
            ),
    {
        let mut m = msg.to_owned();
        m.append(" (input: ");
        m.append(original_input);
        m.append(")");
        TimingError::MalformedTiming(m)
    }
}

impl TimingError {
    /// A human-readable description of the error.
    pub fn message(&self) -> (r: String)
        ensures
            r@ == match *self {
                TimingError::EmptyTiming => "Timing string is empty"@,
                TimingError::MalformedTiming(m) => m@,
                TimingError::Timestamp(e) => "Timestamp error: "@ + crate::timestamp::ts_error_text(e),
            },
    {
        match self {
            TimingError::EmptyTiming => String::from_str("Timing string is empty"),
            TimingError::MalformedTiming(m) => m.clone(),
            TimingError::Timestamp(e) => {
                let mut r = String::from_str("Timestamp error: ");
                let inner = e.message();
                r.append(inner.as_str());
                r
            },
        }
    }
}

impl Timing {
    /// Parses an `A --> B` timing line: exactly one separator, a valid
    /// timestamp on each side after trimming, and `start <= end`.
    pub fn parse(s: &str) -> (r: Result<Timing, TimingError>)
        ensures
            timing_result_matches(r, s@),
    {
        let ghost t = s@;
        let v = to_chars(s);
        if v.len() == 0 {
            return Err(TimingError::EmptyTiming);
        }
        let sep: Vec<char> = vec!['-', '-', '>'];
        proof {
            assert(sep@ =~= timing_sep());
        }
        let parts = split_pattern(&v, &sep);
        proof {
            lemma_split_pat_len(t, timing_sep());
            assert(seq_views(parts@).len() == parts@.len());
        }
        if parts.len() == 1 {
            return Err(TimingError::malformed("Missing timestamp separator (-->)", s));
        }
        if parts.len() > 2 {
            return Err(TimingError::malformed("Multiple timestamp separators", s));
        }
        proof {
            assert(seq_views(parts@)[0] == parts@[0]@);
            assert(seq_views(parts@)[1] == parts@[1]@);
        }
        let start_trim = trim_vec(&parts[0]);
        let start_str = chars_to_string(&start_trim);
        proof {
            assert(start_str@ == timing_start_raw(t));
        }
        let start = match Timestamp::parse(start_str.as_str()) {
            Ok(x) => x,
            Err(e) => {
                return Err(TimingError::Timestamp(e));
            },
        };
        let end_trim = trim_vec(&parts[1]);
        let end_str = chars_to_string(&end_trim);
        proof {
            assert(end_str@ == timing_end_raw(t));
        }
        let end = match Timestamp::parse(end_str.as_str()) {
            Ok(x) => x,
            Err(e) => {
                return Err(TimingError::Timestamp(e));
            },
        };
        if !start.le(&end) {
            return Err(TimingError::malformed("Start timestamp is later than end timestamp", s));
        }
        Ok(Timing { start, end })
    }
}

impl core::str::FromStr for Timing {
    type Err = TimingError;

    fn from_str(s: &str) -> Result<Timing, TimingError> {
        Timing::parse(s)
    }
}

} // verus!
