//! The timestamp parser: turns one `HH:MM:SS,mmm`-shaped token into a
//! bounded four-field timecode, with a distinct error for every way the
//! token can be malformed.

use crate::text::{
    all_digits, chars_to_string, contains_char, count_char, count_char_in, dec_digits,
    decimal_value_capped, digit_char, digits_value, find_char, find_char_in, is_digit,
    lemma_all_digits_excludes, lemma_count_char_skip_first, lemma_count_char_split_at,
    lemma_count_char_zero, lemma_dec_digits_are_digits, lemma_dec_digits_len,
    lemma_dec_digits_value, lemma_digits_value_nonneg, lemma_digits_value_prepend_zero,
    lemma_find_char, lemma_find_char_at, subrange_vec, to_chars,
};
use vstd::prelude::*;
use vstd::string::StringExecFns;

verus! {

/// One point in time inside a subtitle file: `hours:minutes:seconds,milliseconds`.
///
/// Ordered by (hours, minutes, seconds, milliseconds). Constructed only by a
/// successful parse, which bounds every field.
#[derive(Debug, Clone, PartialEq, Eq, PartialOrd, Ord, Structural)]
pub struct Timestamp {
    pub hours: u8,
    pub minutes: u8,
    pub seconds: u8,
    pub milliseconds: u16,
}

/// The structural defects of a timestamp token: a wrong separator count, or
/// an empty sub-field.
#[derive(Debug, Clone, Copy, PartialEq, Eq, Structural)]
pub enum MalformedKind {
    WrongCommaCount,
    WrongColonCount,
    EmptyHours,
    EmptyMinutes,
    EmptySeconds,
    EmptyMilliseconds,
    ColonInMilliseconds,
}

/// Everything that can be wrong with a timestamp token. Each variant keeps
/// the offending input. Storage-width violations (a field that does not fit
/// its integer type) and semantic violations (a field over its clock bound)
/// are distinct variants, per field.
#[derive(Debug, Clone, PartialEq, Eq)]
pub enum TimestampError {
    EmptyString,
    MalformedTimestamp(MalformedKind, String),
    NewlineCharDetected(String),
    DisallowedCharacters(String),
    HoursExceedStorage(String),
    MinutesExceedStorage(String),
    MinutesExceedBound(String),
    SecondsExceedStorage(String),
    SecondsExceedBound(String),
    MillisecondsExceedStorage(String),
    MillisecondsExceedBound(String),
}

/// The characters a timestamp token may contain.
pub open spec fn permitted_ts_char(c: char) -> bool {
    is_digit(c) || c == ':' || c == ','
}

/// Whether every character of `t` is permitted in a timestamp.
pub open spec fn all_permitted(t: Seq<char>) -> bool {
    forall|i: int| 0 <= i < t.len() ==> permitted_ts_char(t[i])
}

/// Position of the (unique) comma.
pub open spec fn ts_comma(t: Seq<char>) -> int {
    find_char(t, ',')
}

/// The `HH:MM:SS` segment, left of the comma.
pub open spec fn ts_left(t: Seq<char>) -> Seq<char> {
    t.take(ts_comma(t))
}

/// The milliseconds segment, right of the comma.
pub open spec fn ts_ms_seg(t: Seq<char>) -> Seq<char> {
    t.skip(ts_comma(t) + 1)
}

/// Position of the first colon inside the left segment.
pub open spec fn ts_c1(t: Seq<char>) -> int {
    find_char(ts_left(t), ':')
}

/// Position of the second colon inside the left segment.
pub open spec fn ts_c2(t: Seq<char>) -> int {
    ts_c1(t) + 1 + find_char(ts_left(t).skip(ts_c1(t) + 1), ':')
}

/// The hours digit group.
pub open spec fn ts_hh(t: Seq<char>) -> Seq<char> {
    ts_left(t).take(ts_c1(t))
}

/// The minutes digit group.
pub open spec fn ts_mm(t: Seq<char>) -> Seq<char> {
    ts_left(t).subrange(ts_c1(t) + 1, ts_c2(t))
}

/// The seconds digit group.
pub open spec fn ts_ss(t: Seq<char>) -> Seq<char> {
    ts_left(t).skip(ts_c2(t) + 1)
}

/// The grammar of a timestamp token, written as a classification: either the
/// first check that fails, in the order the parser applies them, or `Valid`.
pub enum TsClass {
    Empty,
    BadCommaCount,
    HasNewline,
    BadChars,
    BadColonCount,
    EmptyHours,
    EmptyMinutes,
    EmptySeconds,
    EmptyMillis,
    ColonInMillis,
    HoursTooWide,
    MinutesTooWide,
    MinutesTooBig,
    SecondsTooWide,
    SecondsTooBig,
    MillisTooWide,
    MillisTooBig,
    Valid,
}

pub open spec fn ts_class(t: Seq<char>) -> TsClass {
    if t.len() == 0 {
        TsClass::Empty
    } else if count_char(t, ',') != 1 {
        TsClass::BadCommaCount
    } else if contains_char(t, '\n') {
        TsClass::HasNewline
    } else if !all_permitted(t) {
        TsClass::BadChars
    } else if count_char(ts_left(t), ':') != 2 {
        TsClass::BadColonCount
    } else if ts_hh(t).len() == 0 {
        TsClass::EmptyHours
    } else if ts_mm(t).len() == 0 {
        TsClass::EmptyMinutes
    } else if ts_ss(t).len() == 0 {
        TsClass::EmptySeconds
    } else if ts_ms_seg(t).len() == 0 {
        TsClass::EmptyMillis
    } else if contains_char(ts_ms_seg(t), ':') {
        TsClass::ColonInMillis
    } else if digits_value(ts_hh(t)) > 255 {
        TsClass::HoursTooWide
    } else if digits_value(ts_mm(t)) > 255 {
        TsClass::MinutesTooWide
    } else if digits_value(ts_mm(t)) > 59 {
        TsClass::MinutesTooBig
    } else if digits_value(ts_ss(t)) > 255 {
        TsClass::SecondsTooWide
    } else if digits_value(ts_ss(t)) > 59 {
        TsClass::SecondsTooBig
    } else if digits_value(ts_ms_seg(t)) > 65535 {
        TsClass::MillisTooWide
    } else if digits_value(ts_ms_seg(t)) > 999 {
        TsClass::MillisTooBig
    } else {
        TsClass::Valid
    }
}

/// The timestamp a valid token denotes.
pub open spec fn ts_value(t: Seq<char>) -> Timestamp {
    Timestamp {
        hours: digits_value(ts_hh(t)) as u8,
        minutes: digits_value(ts_mm(t)) as u8,
        seconds: digits_value(ts_ss(t)) as u8,
        milliseconds: digits_value(ts_ms_seg(t)) as u16,
    }
}

/// What the parser returns on input `t`: the value of a valid token, or the
/// error variant of the first failing check, carrying the offending input.
pub open spec fn ts_result_matches(r: Result<Timestamp, TimestampError>, t: Seq<char>) -> bool {
    match ts_class(t) {
        TsClass::Valid => r matches Ok(v) && v == ts_value(t),
        TsClass::Empty => r == Result::<Timestamp, TimestampError>::Err(TimestampError::EmptyString),
        TsClass::BadCommaCount => r matches Err(TimestampError::MalformedTimestamp(k, o))
            && k == MalformedKind::WrongCommaCount && o@ == t,
        TsClass::HasNewline => r matches Err(TimestampError::NewlineCharDetected(o)) && o@ == t,
        TsClass::BadChars => r matches Err(TimestampError::DisallowedCharacters(o)) && o@ == t,
        TsClass::BadColonCount => r matches Err(TimestampError::MalformedTimestamp(k, o))
            && k == MalformedKind::WrongColonCount && o@ == t,
        TsClass::EmptyHours => r matches Err(TimestampError::MalformedTimestamp(k, o))
            && k == MalformedKind::EmptyHours && o@ == t,
        TsClass::EmptyMinutes => r matches Err(TimestampError::MalformedTimestamp(k, o))
            && k == MalformedKind::EmptyMinutes && o@ == t,
        TsClass::EmptySeconds => r matches Err(TimestampError::MalformedTimestamp(k, o))
            && k == MalformedKind::EmptySeconds && o@ == t,
        TsClass::EmptyMillis => r matches Err(TimestampError::MalformedTimestamp(k, o))
            && k == MalformedKind::EmptyMilliseconds && o@ == t,
        TsClass::ColonInMillis => r matches Err(TimestampError::MalformedTimestamp(k, o))
            && k == MalformedKind::ColonInMilliseconds && o@ == t,
        TsClass::HoursTooWide => r matches Err(TimestampError::HoursExceedStorage(o)) && o@ == t,
        TsClass::MinutesTooWide => r matches Err(TimestampError::MinutesExceedStorage(o)) && o@
            == t,
        TsClass::MinutesTooBig => r matches Err(TimestampError::MinutesExceedBound(o)) && o@ == t,
        TsClass::SecondsTooWide => r matches Err(TimestampError::SecondsExceedStorage(o)) && o@
            == t,
        TsClass::SecondsTooBig => r matches Err(TimestampError::SecondsExceedBound(o)) && o@ == t,
        TsClass::MillisTooWide => r matches Err(TimestampError::MillisecondsExceedStorage(o))
            && o@ == t,
        TsClass::MillisTooBig => r matches Err(TimestampError::MillisecondsExceedBound(o)) && o@
            == t,
    }
}

/// An error message followed by an echo of the offending input.
pub open spec fn ts_message(msg: Seq<char>, original: Seq<char>) -> Seq<char> {
    msg + " (input string: "@ + original + ")"@
}

/// Builds an error message that echoes the offending input.
fn compose_ts_message(msg: &str, original: &str) -> (r: String)
    ensures
        r@ == ts_message(msg@, original@),
{
    let mut m = msg.to_owned();
    m.append(" (input string: ");
    m.append(original);
    m.append(")");
    m
}

/// The description of a structural defect.
pub open spec fn malformed_kind_text(k: MalformedKind) -> Seq<char> {
    match k {
        MalformedKind::WrongCommaCount => "Timestamp must have exactly one comma as a millisecond separator"@,
        MalformedKind::WrongColonCount => "Timestamp must have a properly defined HH:MM:SS component"@,
        MalformedKind::EmptyHours => "Empty hours value in HH:MM:SS"@,
        MalformedKind::EmptyMinutes => "Empty minutes value in HH:MM:SS"@,
        MalformedKind::EmptySeconds => "Empty seconds value in HH:MM:SS"@,
        MalformedKind::EmptyMilliseconds => "Empty milliseconds value"@,
        MalformedKind::ColonInMilliseconds => "Milliseconds component contains illegal colon character"@,
    }
}

/// What [`TimestampError::message`] renders for each error value.
pub open spec fn ts_error_text(e: TimestampError) -> Seq<char> {
    match e {
        TimestampError::EmptyString => "Timestamp string is empty"@,
        TimestampError::MalformedTimestamp(k, o) => ts_message(malformed_kind_text(k), o@),
        TimestampError::NewlineCharDetected(o) => ts_message(
            "Timestamp string cannot contain newlines"@,
            o@,
        ),
        TimestampError::DisallowedCharacters(o) => ts_message(
            "Illegal characters detected; allowed characters are 0123456789:,"@,
            o@,
        ),
        TimestampError::HoursExceedStorage(o) => ts_message(
            "Hours value exceeds maximum unsigned 8-bit value of 255"@,
            o@,
        ),
        TimestampError::MinutesExceedStorage(o) => ts_message(
            "Minutes value exceeds maximum unsigned 8-bit value of 255"@,
            o@,
        ),
        TimestampError::MinutesExceedBound(o) => ts_message("Minutes value exceeds 59"@, o@),
        TimestampError::SecondsExceedStorage(o) => ts_message(
            "Seconds value exceeds maximum unsigned 8-bit value of 255"@,
            o@,
        ),
        TimestampError::SecondsExceedBound(o) => ts_message("Seconds value exceeds 59"@, o@),
        TimestampError::MillisecondsExceedStorage(o) => ts_message(
            "Milliseconds value exceeds maximum unsigned 16-bit value of 65535"@,
            o@,
        ),
        TimestampError::MillisecondsExceedBound(o) => ts_message(
            "Milliseconds value exceeds 999"@,
            o@,
        ),
    }
}

impl TimestampError {
    /// A human-readable description of the error, echoing the offending
    /// input.
    pub fn message(&self) -> (r: String)
        ensures
            r@ == ts_error_text(*self),
    {
        match self {
            TimestampError::EmptyString => String::from_str("Timestamp string is empty"),
            TimestampError::MalformedTimestamp(k, o) => {
                let msg = match k {
                    MalformedKind::WrongCommaCount => "Timestamp must have exactly one comma as a millisecond separator",
                    MalformedKind::WrongColonCount => "Timestamp must have a properly defined HH:MM:SS component",
                    MalformedKind::EmptyHours => "Empty hours value in HH:MM:SS",
                    MalformedKind::EmptyMinutes => "Empty minutes value in HH:MM:SS",
                    MalformedKind::EmptySeconds => "Empty seconds value in HH:MM:SS",
                    MalformedKind::EmptyMilliseconds => "Empty milliseconds value",
                    MalformedKind::ColonInMilliseconds => "Milliseconds component contains illegal colon character",
                };
                compose_ts_message(msg, o.as_str())
            },
            TimestampError::NewlineCharDetected(o) => compose_ts_message(
                "Timestamp string cannot contain newlines",
                o.as_str(),
            ),
            TimestampError::DisallowedCharacters(o) => compose_ts_message(
                "Illegal characters detected; allowed characters are 0123456789:,",
                o.as_str(),
            ),
            TimestampError::HoursExceedStorage(o) => compose_ts_message(
                "Hours value exceeds maximum unsigned 8-bit value of 255",
                o.as_str(),
            ),
            TimestampError::MinutesExceedStorage(o) => compose_ts_message(
                "Minutes value exceeds maximum unsigned 8-bit value of 255",
                o.as_str(),
            ),
            TimestampError::MinutesExceedBound(o) => compose_ts_message(
                "Minutes value exceeds 59",
                o.as_str(),
            ),
            TimestampError::SecondsExceedStorage(o) => compose_ts_message(
                "Seconds value exceeds maximum unsigned 8-bit value of 255",
                o.as_str(),
            ),
            TimestampError::SecondsExceedBound(o) => compose_ts_message(
                "Seconds value exceeds 59",
                o.as_str(),
            ),
            TimestampError::MillisecondsExceedStorage(o) => compose_ts_message(
                "Milliseconds value exceeds maximum unsigned 16-bit value of 65535",
                o.as_str(),
            ),
            TimestampError::MillisecondsExceedBound(o) => compose_ts_message(
                "Milliseconds value exceeds 999",
                o.as_str(),
            ),
        }
    }
}

/// A string whose comma count is not exactly one never parses: whatever the
/// parser returned for it is an error, with no panic possible.
pub proof fn lemma_bad_comma_count_rejected(t: Seq<char>, r: Result<Timestamp, TimestampError>)
    requires
        count_char(t, ',') != 1,
        ts_result_matches(r, t),
    ensures
        r is Err,
{
}

/// When the token is well shaped, all four digit groups consist of digits
/// only.
proof fn lemma_groups_digits(t: Seq<char>)
    requires
        count_char(t, ',') == 1,
        all_permitted(t),
        count_char(ts_left(t), ':') == 2,
        !contains_char(ts_ms_seg(t), ':'),
    ensures
        all_digits(ts_hh(t)),
        all_digits(ts_mm(t)),
        all_digits(ts_ss(t)),
        all_digits(ts_ms_seg(t)),
{
    lemma_count_char_skip_first(t, ',');
    let pc = ts_comma(t);
    let left = ts_left(t);
    let ms = ts_ms_seg(t);
    lemma_count_char_skip_first(left, ':');
    let c1 = ts_c1(t);
    let rest = left.skip(c1 + 1);
    lemma_count_char_skip_first(rest, ':');
    let c2r = find_char(rest, ':');
    lemma_find_char(t, ',');
    lemma_find_char(left, ':');
    lemma_find_char(rest, ':');
    lemma_count_char_zero(rest.skip(c2r + 1), ':');
    lemma_count_char_zero(ms, ',');
    assert forall|i: int| 0 <= i < ts_hh(t).len() implies is_digit(ts_hh(t)[i]) by {
        assert(ts_hh(t)[i] == left[i]);
        assert(left[i] == t[i]);
        assert(permitted_ts_char(t[i]));
        assert(t[i] != ',');
        assert(left[i] != ':');
    }
    assert forall|i: int| 0 <= i < ts_mm(t).len() implies is_digit(ts_mm(t)[i]) by {
        assert(ts_mm(t)[i] == left[c1 + 1 + i]);
        assert(rest[i] == left[c1 + 1 + i]);
        assert(left[c1 + 1 + i] == t[c1 + 1 + i]);
        assert(permitted_ts_char(t[c1 + 1 + i]));
        assert(t[c1 + 1 + i] != ',');
        assert(rest[i] != ':');
    }
    assert forall|i: int| 0 <= i < ts_ss(t).len() implies is_digit(ts_ss(t)[i]) by {
        assert(ts_ss(t)[i] == left[c1 + 1 + c2r + 1 + i]);
        assert(rest[c2r + 1 + i] == left[c1 + 1 + c2r + 1 + i]);
        assert(left[c1 + 1 + c2r + 1 + i] == t[c1 + 1 + c2r + 1 + i]);
        assert(permitted_ts_char(t[c1 + 1 + c2r + 1 + i]));
        assert(t[c1 + 1 + c2r + 1 + i] != ',');
        if ts_ss(t)[i] == ':' {
            assert(rest.skip(c2r + 1)[i] == rest[c2r + 1 + i]);
            assert(contains_char(rest.skip(c2r + 1), ':'));
        }
    }
    assert forall|i: int| 0 <= i < ms.len() implies is_digit(ms[i]) by {
        assert(ms[i] == t[pc + 1 + i]);
        assert(permitted_ts_char(t[pc + 1 + i]));
        if ms[i] == ',' {
            assert(contains_char(ms, ','));
        }
        if ms[i] == ':' {
            assert(contains_char(ms, ':'));
        }
    }
}

/// Checks one character against the permitted set.
fn is_permitted_char(c: char) -> (b: bool)
    ensures
        b == permitted_ts_char(c),
{
    let u = c as u32;
    (48 <= u && u <= 57) || c == ':' || c == ','
}

/// Checks every character of `v` against the permitted set.
fn check_all_permitted(v: &Vec<char>) -> (b: bool)
    ensures
        b == all_permitted(v@),
{
    let mut i: usize = 0;
    while i < v.len()
        invariant
            0 <= i <= v@.len(),
            forall|j: int| 0 <= j < i ==> permitted_ts_char(v@[j]),
        decreases v@.len() - i,
    {
        if !is_permitted_char(v[i]) {
            return false;
        }
        i = i + 1;
    }
    true
}

impl Timestamp {
    /// Whether the clock-bounded fields are inside their semantic bounds.
    /// Hours have only the storage bound of their field type.
    pub open spec fn wf(self) -> bool {
        self.minutes <= 59 && self.seconds <= 59 && self.milliseconds <= 999
    }

    /// Lexicographic order on (hours, minutes, seconds, milliseconds).
    pub open spec fn spec_le(self, other: Timestamp) -> bool {
        if self.hours != other.hours {
            self.hours < other.hours
        } else if self.minutes != other.minutes {
            self.minutes < other.minutes
        } else if self.seconds != other.seconds {
            self.seconds < other.seconds
        } else {
            self.milliseconds <= other.milliseconds
        }
    }

    /// Compares two timestamps in chronological order.
    pub fn le(&self, other: &Timestamp) -> (r: bool)
        ensures
            r == self.spec_le(*other),
    {
        if self.hours != other.hours {
            self.hours < other.hours
        } else if self.minutes != other.minutes {
            self.minutes < other.minutes
        } else if self.seconds != other.seconds {
            self.seconds < other.seconds
        } else {
            self.milliseconds <= other.milliseconds
        }
    }

    /// Parses an `HH:MM:SS,mmm` token. Returns the timestamp exactly when
    /// the token is valid, and otherwise the error of the first failing
    /// check, as [`ts_class`] spells out.
    pub fn parse(s: &str) -> (r: Result<Timestamp, TimestampError>)
        ensures
            ts_result_matches(r, s@),
    {
        let ghost t = s@;
        let v = to_chars(s);
        if v.len() == 0 {
            return Err(TimestampError::EmptyString);
        }
        if count_char_in(&v, ',') != 1 {
            return Err(
                TimestampError::MalformedTimestamp(MalformedKind::WrongCommaCount, s.to_owned()),
            );
        }
        proof {
            lemma_count_char_zero(t, '\n');
        }
        if count_char_in(&v, '\n') != 0 {
            return Err(TimestampError::NewlineCharDetected(s.to_owned()));
        }
        if !check_all_permitted(&v) {
            return Err(TimestampError::DisallowedCharacters(s.to_owned()));
        }
        // Split on the unique comma.
        proof {
            lemma_count_char_skip_first(t, ',');
        }
        let pc = find_char_in(&v, ',');
        assert(pc < v@.len());
        let left = subrange_vec(&v, 0, pc);
        let ms = subrange_vec(&v, pc + 1, v.len());
        proof {
            assert(left@ =~= ts_left(t));
            assert(ms@ =~= ts_ms_seg(t));
        }
        if count_char_in(&left, ':') != 2 {
            return Err(
                TimestampError::MalformedTimestamp(MalformedKind::WrongColonCount, s.to_owned()),
            );
        }
        // Split the left segment on its two colons.
        proof {
            lemma_count_char_skip_first(left@, ':');
        }
        let c1 = find_char_in(&left, ':');
        assert(c1 < left@.len());
        let rest = subrange_vec(&left, c1 + 1, left.len());
        proof {
            assert(rest@ == left@.skip(c1 + 1));
            lemma_count_char_skip_first(rest@, ':');
        }
        let c2r = find_char_in(&rest, ':');
        assert(c2r < rest@.len());
        let hh = subrange_vec(&left, 0, c1);
        let mm = subrange_vec(&rest, 0, c2r);
        let ss = subrange_vec(&rest, c2r + 1, rest.len());
        proof {
            assert(hh@ =~= ts_hh(t));
            assert(ts_c2(t) == c1 + 1 + c2r);
            assert(mm@ =~= ts_mm(t));
            assert(ss@ =~= ts_ss(t));
        }
        if hh.len() == 0 {
            return Err(
                TimestampError::MalformedTimestamp(MalformedKind::EmptyHours, s.to_owned()),
            );
        }
        if mm.len() == 0 {
            return Err(
                TimestampError::MalformedTimestamp(MalformedKind::EmptyMinutes, s.to_owned()),
            );
        }
        if ss.len() == 0 {
            return Err(
                TimestampError::MalformedTimestamp(MalformedKind::EmptySeconds, s.to_owned()),
            );
        }
        if ms.len() == 0 {
            return Err(
                TimestampError::MalformedTimestamp(MalformedKind::EmptyMilliseconds, s.to_owned()),
            );
        }
        proof {
            lemma_count_char_zero(ms@, ':');
        }
        if count_char_in(&ms, ':') != 0 {
            return Err(
                TimestampError::MalformedTimestamp(
                    MalformedKind::ColonInMilliseconds,
                    s.to_owned(),
                ),
            );
        }
        // Each group now consists of digits only.
        proof {
            lemma_groups_digits(t);
        }
        let hours = match decimal_value_capped(&hh, 255) {
            Some(h) => h,
            None => {
                return Err(TimestampError::HoursExceedStorage(s.to_owned()));
            },
        };
        let minutes = match decimal_value_capped(&mm, 255) {
            Some(m) => m,
            None => {
                return Err(TimestampError::MinutesExceedStorage(s.to_owned()));
            },
        };
        if minutes > 59 {
            return Err(TimestampError::MinutesExceedBound(s.to_owned()));
        }
        let seconds = match decimal_value_capped(&ss, 255) {
            Some(x) => x,
            None => {
                return Err(TimestampError::SecondsExceedStorage(s.to_owned()));
            },
        };
        if seconds > 59 {
            return Err(TimestampError::SecondsExceedBound(s.to_owned()));
        }
        let millis = match decimal_value_capped(&ms, 65535) {
            Some(x) => x,
            None => {
                return Err(TimestampError::MillisecondsExceedStorage(s.to_owned()));
            },
        };
        if millis > 999 {
            return Err(TimestampError::MillisecondsExceedBound(s.to_owned()));
        }
        proof {
            lemma_digits_value_nonneg(hh@);
            lemma_digits_value_nonneg(mm@);
            lemma_digits_value_nonneg(ss@);
            lemma_digits_value_nonneg(ms@);
        }
        Ok(
            Timestamp {
                hours: hours as u8,
                minutes: minutes as u8,
                seconds: seconds as u8,
                milliseconds: millis as u16,
            },
        )
    }
}

/// A number printed to at least two digits, zero-padded.
pub open spec fn pad2(n: int) -> Seq<char> {
    if n < 10 {
        seq!['0'] + dec_digits(n)
    } else {
        dec_digits(n)
    }
}

/// A number printed to at least three digits, zero-padded.
pub open spec fn pad3(n: int) -> Seq<char> {
    if n < 100 {
        seq!['0'] + pad2(n)
    } else {
        dec_digits(n)
    }
}

/// The canonical rendering `HH:MM:SS,mmm` of a timestamp. Hours, minutes and
/// seconds take at least two digits, milliseconds at least three; hours above
/// 99 keep their third digit.
pub open spec fn ts_format(ts: Timestamp) -> Seq<char> {
    pad2(ts.hours as int) + seq![':'] + pad2(ts.minutes as int) + seq![':'] + pad2(
        ts.seconds as int,
    ) + seq![','] + pad3(ts.milliseconds as int)
}

/// Appends one digit character.
fn push_digit(out: &mut Vec<char>, d: u16)
    requires
        d <= 9,
    ensures
        final(out)@ == old(out)@.push(digit_char(d as int)),
{
    let c = match d {
        0 => '0',
        1 => '1',
        2 => '2',
        3 => '3',
        4 => '4',
        5 => '5',
        6 => '6',
        7 => '7',
        8 => '8',
        _ => '9',
    };
    out.push(c);
}

/// Appends the shortest decimal numeral of `n`.
fn push_dec_digits(out: &mut Vec<char>, n: u16)
    ensures
        final(out)@ == old(out)@ + dec_digits(n as int),
    decreases n,
{
    if n < 10 {
        push_digit(out, n);
        proof {
            assert(old(out)@ + dec_digits(n as int) =~= old(out)@.push(digit_char(n as int)));
        }
    } else {
        push_dec_digits(out, n / 10);
        push_digit(out, n % 10);
        proof {
            assert((n / 10) as int == n as int / 10);
            assert((n % 10) as int == n as int % 10);
            assert(old(out)@ + dec_digits(n as int) =~= (old(out)@ + dec_digits(
                n as int / 10,
            )).push(digit_char(n as int % 10)));
        }
    }
}

/// Appends `n` zero-padded to at least two digits.
fn push_pad2(out: &mut Vec<char>, n: u16)
    ensures
        final(out)@ == old(out)@ + pad2(n as int),
{
    if n < 10 {
        out.push('0');
        proof {
            assert(old(out)@.push('0') =~= old(out)@ + seq!['0']);
        }
    }
    push_dec_digits(out, n);
    proof {
        if n < 10 {
            assert((old(out)@ + seq!['0']) + dec_digits(n as int) =~= old(out)@ + pad2(n as int));
        }
    }
}

/// Appends `n` zero-padded to at least three digits.
fn push_pad3(out: &mut Vec<char>, n: u16)
    ensures
        final(out)@ == old(out)@ + pad3(n as int),
{
    if n < 100 {
        out.push('0');
        proof {
            assert(old(out)@.push('0') =~= old(out)@ + seq!['0']);
        }
    }
    push_pad2(out, n);
    proof {
        if n < 100 {
            assert((old(out)@ + seq!['0']) + pad2(n as int) =~= old(out)@ + pad3(n as int));
        }
    }
}

impl Timestamp {
    /// Renders the timestamp as `HH:MM:SS,mmm`.
    pub fn format(&self) -> (r: String)
        ensures
            r@ == ts_format(*self),
    {
        let mut out: Vec<char> = Vec::new();
        push_pad2(&mut out, self.hours as u16);
        out.push(':');
        push_pad2(&mut out, self.minutes as u16);
        out.push(':');
        push_pad2(&mut out, self.seconds as u16);
        out.push(',');
        push_pad3(&mut out, self.milliseconds);
        proof {
            assert(out@ =~= ts_format(*self));
        }
        chars_to_string(&out)
    }
}

proof fn lemma_pad2_props(n: int)
    requires
        0 <= n <= 999,
    ensures
        all_digits(pad2(n)),
        digits_value(pad2(n)) == n,
        pad2(n).len() == if n < 100 {
            2int
        } else {
            3int
        },
{
    lemma_dec_digits_are_digits(n);
    lemma_dec_digits_value(n);
    lemma_dec_digits_len(n);
    if n < 10 {
        lemma_digits_value_prepend_zero(dec_digits(n));
        let w = seq!['0'] + dec_digits(n);
        assert forall|i: int| 0 <= i < w.len() implies is_digit(#[trigger] w[i]) by {
            if i == 0 {
                assert(w[0] == '0');
            } else {
                assert(w[i] == dec_digits(n)[i - 1]);
            }
        }
    }
}

proof fn lemma_pad3_props(n: int)
    requires
        0 <= n <= 999,
    ensures
        all_digits(pad3(n)),
        digits_value(pad3(n)) == n,
        pad3(n).len() == 3,
{
    lemma_pad2_props(n);
    lemma_dec_digits_are_digits(n);
    lemma_dec_digits_value(n);
    lemma_dec_digits_len(n);
    if n < 100 {
        lemma_digits_value_prepend_zero(pad2(n));
        let w = seq!['0'] + pad2(n);
        assert forall|i: int| 0 <= i < w.len() implies is_digit(#[trigger] w[i]) by {
            if i == 0 {
                assert(w[0] == '0');
            } else {
                assert(w[i] == pad2(n)[i - 1]);
            }
        }
    }
}

/// Round trip: rendering any in-bounds timestamp as `HH:MM:SS,mmm` and
/// parsing the rendering back yields a valid token denoting the identical
/// four fields.
pub proof fn lemma_format_round_trip(ts: Timestamp)
    requires
        ts.wf(),
    ensures
        ts_class(ts_format(ts)) is Valid,
        ts_value(ts_format(ts)) == ts,
{
    let h = ts.hours as int;
    let m = ts.minutes as int;
    let s = ts.seconds as int;
    let x = ts.milliseconds as int;
    lemma_pad2_props(h);
    lemma_pad2_props(m);
    lemma_pad2_props(s);
    lemma_pad3_props(x);
    let a = pad2(h);
    let b = pad2(m);
    let c = pad2(s);
    let d = pad3(x);
    let la = a.len() as int;
    let s1 = a + seq![':'];
    let s2 = s1 + b;
    let s3 = s2 + seq![':'];
    let s4 = s3 + c;
    let s5 = s4 + seq![','];
    let f = s5 + d;
    assert(ts_format(ts) == f);
    assert(f.len() == la + 10);
    // Where each character of the rendering comes from.
    assert forall|i: int| 0 <= i < f.len() implies permitted_ts_char(#[trigger] f[i]) && (f[i]
        == ',' <==> i == la + 6) && (f[i] == ':' <==> (i == la || i == la + 3)) by {
        if i < la {
            assert(f[i] == a[i]);
            assert(is_digit(a[i]));
        } else if i == la {
            assert(f[i] == ':');
        } else if i < la + 3 {
            assert(f[i] == b[i - la - 1]);
            assert(is_digit(b[i - la - 1]));
        } else if i == la + 3 {
            assert(f[i] == ':');
        } else if i < la + 6 {
            assert(f[i] == c[i - la - 4]);
            assert(is_digit(c[i - la - 4]));
        } else if i == la + 6 {
            assert(f[i] == ',');
        } else {
            assert(f[i] == d[i - la - 7]);
            assert(is_digit(d[i - la - 7]));
        }
    }
    assert(all_permitted(f));
    // Exactly one comma, at position la + 6.
    assert(count_char(f, ',') == 1) by {
        lemma_count_char_split_at(f, la + 6, ',');
        assert(!contains_char(f.take(la + 6), ',')) by {
            let pre = f.take(la + 6);
            if contains_char(pre, ',') {
                let j = choose|j: int| 0 <= j < pre.len() && #[trigger] pre[j] == ',';
                assert(f[j] == ',');
            }
        }
        lemma_count_char_zero(f.take(la + 6), ',');
        assert(!contains_char(f.skip(la + 7), ',')) by {
            let suf = f.skip(la + 7);
            if contains_char(suf, ',') {
                let j = choose|j: int| 0 <= j < suf.len() && #[trigger] suf[j] == ',';
                assert(f[la + 7 + j] == ',');
            }
        }
        lemma_count_char_zero(f.skip(la + 7), ',');
    }
    // No newline.
    assert(!contains_char(f, '\n')) by {
        if contains_char(f, '\n') {
            let j = choose|j: int| 0 <= j < f.len() && f[j] == '\n';
            assert(permitted_ts_char(f[j]));
            assert(!is_digit('\n'));
        }
    }
    // The comma splits off the left segment and the milliseconds.
    assert forall|j: int| 0 <= j < la + 6 implies f[j] != ',' by {}
    lemma_find_char_at(f, ',', la + 6);
    assert(ts_comma(f) == la + 6);
    assert(ts_left(f) =~= s4);
    assert(ts_ms_seg(f) =~= d);
    // The left segment holds exactly two colons.
    assert forall|j: int| 0 <= j < s4.len() implies s4[j] == f[j] by {}
    assert(count_char(s4, ':') == 2) by {
        lemma_count_char_split_at(s4, la, ':');
        assert(!contains_char(s4.take(la), ':')) by {
            let pre = s4.take(la);
            if contains_char(pre, ':') {
                let j = choose|j: int| 0 <= j < pre.len() && #[trigger] pre[j] == ':';
                assert(f[j] == ':');
            }
        }
        lemma_count_char_zero(s4.take(la), ':');
        lemma_count_char_split_at(s4.skip(la + 1), 2, ':');
        assert(s4.skip(la + 1)[2] == f[la + 3]);
        assert(!contains_char(s4.skip(la + 1).take(2), ':')) by {
            let mid = s4.skip(la + 1).take(2);
            if contains_char(mid, ':') {
                let j = choose|j: int| 0 <= j < mid.len() && #[trigger] mid[j] == ':';
                assert(f[la + 1 + j] == ':');
            }
        }
        lemma_count_char_zero(s4.skip(la + 1).take(2), ':');
        assert(!contains_char(s4.skip(la + 1).skip(3), ':')) by {
            let tail = s4.skip(la + 1).skip(3);
            if contains_char(tail, ':') {
                let j = choose|j: int| 0 <= j < tail.len() && #[trigger] tail[j] == ':';
                assert(f[la + 4 + j] == ':');
            }
        }
        lemma_count_char_zero(s4.skip(la + 1).skip(3), ':');
    }
    // First colon at la, second at la + 3.
    assert forall|j: int| 0 <= j < la implies s4[j] != ':' by {}
    assert(s4[la] == ':');
    lemma_find_char_at(s4, ':', la);
    assert(ts_c1(f) == la);
    let rest = s4.skip(la + 1);
    assert forall|j: int| 0 <= j < 2 implies rest[j] != ':' by {
        assert(rest[j] == f[la + 1 + j]);
    }
    assert(rest[2] == f[la + 3]);
    lemma_find_char_at(rest, ':', 2);
    assert(ts_c2(f) == la + 3);
    // The digit groups are exactly the padded renderings.
    assert(ts_hh(f) =~= a);
    assert(ts_mm(f) =~= b);
    assert(ts_ss(f) =~= c);
    // No colon in the milliseconds group.
    lemma_all_digits_excludes(d, ':');
    // All bounds hold, so the token is valid and denotes the fields.
    assert(ts_class(f) is Valid);
    assert(ts_value(f) == ts);
}

impl core::str::FromStr for Timestamp {
    type Err = TimestampError;

    fn from_str(s: &str) -> Result<Timestamp, TimestampError> {
        Timestamp::parse(s)
    }
}

} // verus!
