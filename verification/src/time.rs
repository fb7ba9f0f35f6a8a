//! Instants of UTC as plain numbers, and their textual form.

use chrono::{DateTime, Utc};
use crate::text::{chars_of, string_of};
use vstd::prelude::*;

verus! {

/// `chrono::ParseError`: why `chrono` could not read a text as an instant.
/// Nothing of what it holds is looked at.
#[verifier::external_type_specification]
#[verifier::external_body]
pub struct ExParseError(chrono::ParseError);

/// The first second that can be represented: midnight before the first day
/// of the year -262143.
pub const MIN_SECS: i64 = -8_334_601_228_800;

/// The last second that can be represented: the last one of the year 262142.
pub const MAX_SECS: i64 = 8_210_266_876_799;

/// Whether `secs` whole seconds since 1970-01-01 00:00:00 UTC and `nanos`
/// nanoseconds past them name an instant. A count of nanoseconds of a
/// second or more stands for a leap second, and is allowed only in the last
/// second of a minute.
pub open spec fn representable(secs: i64, nanos: u32) -> bool {
    &&& MIN_SECS <= secs <= MAX_SECS
    &&& (nanos < 1_000_000_000 || (nanos < 2_000_000_000 && secs as int % 60 == 59))
}

/// The text in which `chrono` displays the instant `secs`, `nanos` of UTC.
pub uninterp spec fn utc_text(secs: i64, nanos: u32) -> Seq<char>;

/// The instant of UTC that `chrono` reads from `text`, as seconds and
/// nanoseconds, where it reads one.
pub uninterp spec fn parse_utc(text: Seq<char>) -> Option<(i64, u32)>;

/// The instant that is read from `text`, where one is.
pub open spec fn read_stamp(text: Seq<char>) -> Option<Timestamp> {
    match parse_utc(text) {
        Some(found) => Some(Timestamp::at(found.0, found.1)),
        None => None,
    }
}

/// What holds of every text in which an instant is displayed: it is not
/// empty, holds no comma, line feed or carriage return, and can be read as an
/// instant.
pub open spec fn is_stamp_text(text: Seq<char>) -> bool {
    &&& text.len() > 0
    &&& !text.contains(',')
    &&& !text.contains('\n')
    &&& !text.contains('\r')
    &&& parse_utc(text) is Some
}

/// An instant of UTC.
#[derive(Debug, Clone, Copy, PartialEq, Eq, Structural)]
pub struct Timestamp {
    secs: i64,
    nanos: u32,
}

/// Whether `secs` is the last second of a minute.
fn ends_minute(secs: i64) -> (b: bool)
    requires
        MIN_SECS <= secs <= MAX_SECS,
    ensures
        b == (secs as int % 60 == 59),
{
    if secs >= 0 {
        secs % 60 == 59
    } else {
        let m: i64 = -(secs + 1);
        m % 60 == 0
    }
}

impl Timestamp {
    /// Every instant is one that can be represented.
    #[verifier::type_invariant]
    pub closed spec fn valid(self) -> bool {
        representable(self.secs, self.nanos)
    }

    /// Whole seconds since 1970-01-01 00:00:00 UTC.
    pub closed spec fn spec_secs(&self) -> i64 {
        self.secs
    }

    /// Nanoseconds past the whole second.
    pub closed spec fn spec_nanos(&self) -> u32 {
        self.nanos
    }

    /// The instant `secs`, `nanos`.
    pub closed spec fn at(secs: i64, nanos: u32) -> Timestamp {
        Timestamp { secs, nanos }
    }

    /// The instant `secs`, `nanos` has those seconds and nanoseconds.
    pub proof fn lemma_at(secs: i64, nanos: u32)
        ensures
            Timestamp::at(secs, nanos).spec_secs() == secs,
            Timestamp::at(secs, nanos).spec_nanos() == nanos,
    {
    }

    /// The text in which this instant is displayed.
    pub open spec fn text(self) -> Seq<char> {
        utc_text(self.spec_secs(), self.spec_nanos())
    }

    /// The instant `secs`, `nanos`, if they name one.
    pub fn new(secs: i64, nanos: u32) -> (out: Option<Timestamp>)
        ensures
            out is Some <==> representable(secs, nanos),
            out is Some ==> out->Some_0.spec_secs() == secs && out->Some_0.spec_nanos() == nanos,
    {
        if secs < MIN_SECS || secs > MAX_SECS {
            return None;
        }
        if nanos < 1_000_000_000 || (nanos < 2_000_000_000 && ends_minute(secs)) {
            Some(Timestamp { secs, nanos })
        } else {
            None
        }
    }

    /// Whole seconds since 1970-01-01 00:00:00 UTC.
    #[verifier::when_used_as_spec(spec_secs)]
    pub fn secs(&self) -> (out: i64)
        ensures
            out == self.spec_secs(),
    {
        self.secs
    }

    /// Nanoseconds past the whole second.
    #[verifier::when_used_as_spec(spec_nanos)]
    pub fn nanos(&self) -> (out: u32)
        ensures
            out == self.spec_nanos(),
    {
        self.nanos
    }
}

/// `chrono::Utc::now`, with `DateTime::timestamp` and
/// `DateTime::timestamp_subsec_nanos`: the present instant. Claimed of it:
/// its seconds and nanoseconds are such as `DateTime::from_timestamp`
/// takes, which `chrono` documents of every `DateTime`; which instant it
/// is, is left open.
#[verifier::external_body]
pub(crate) fn utc_now() -> (out: Timestamp)
    ensures
        out.valid(),
{
    let t = Utc::now();
    Timestamp { secs: t.timestamp(), nanos: t.timestamp_subsec_nanos() }
}

/// `DateTime::<Utc>::from_timestamp` and then `to_string`: the text in which
/// `chrono` displays an instant. The text is given its name. Claimed of it
/// besides: it is a date, a space, a time of day, a space and `UTC`, so it
/// is not empty and holds no comma, line feed or carriage return; and
/// `chrono` reads it as an instant, as its parser is documented to take this
/// form. Which instant is read from it is left open.
#[verifier::external_body]
pub(crate) fn format_utc(t: Timestamp) -> (out: String)
    requires
        t.valid(),
    ensures
        out@ == utc_text(t.spec_secs(), t.spec_nanos()),
        is_stamp_text(out@),
{
    match DateTime::from_timestamp(t.secs, t.nanos) {
        Some(at) => at.to_string(),
        None => String::new(),
    }
}

/// `str::parse::<DateTime<Utc>>`, with `DateTime::timestamp` and
/// `DateTime::timestamp_subsec_nanos`: the instant that `chrono` reads from
/// `text`, or its error. The result is given its name. Claimed of it
/// besides: its seconds and nanoseconds are such as
/// `DateTime::from_timestamp` takes, which `chrono` documents of every
/// `DateTime`.
#[verifier::external_body]
pub(crate) fn read_utc(text: &str) -> (out: Result<Timestamp, chrono::ParseError>)
    ensures
        out is Ok ==> out->Ok_0.valid(),
        out is Ok <==> parse_utc(text@) is Some,
        out is Ok ==> parse_utc(text@) == Some(
            (out->Ok_0.spec_secs(), out->Ok_0.spec_nanos()),
        ),
{
    match text.parse::<DateTime<Utc>>() {
        Ok(at) => Ok(Timestamp { secs: at.timestamp(), nanos: at.timestamp_subsec_nanos() }),
        Err(e) => Err(e),
    }
}

/// Reads an instant from `text`.
pub fn read_stamp_chars(text: &Vec<char>) -> (out: Option<Timestamp>)
    ensures
        out == read_stamp(text@),
{
    let s = string_of(text);
    match read_utc(s.as_str()) {
        Ok(t) => Some(t),
        Err(_) => None,
    }
}

/// Writes the instant `t` as text.
pub fn stamp_chars(t: Timestamp) -> (out: Vec<char>)
    ensures
        out@ == t.text(),
        is_stamp_text(out@),
{
    proof {
        use_type_invariant(&t);
    }
    let s = format_utc(t);
    chars_of(s.as_str())
}

} // verus!
