//! Dates as they stand in header values.

use vstd::prelude::*;
use vstd::string::StringSliceAdditionalSpecFns;
use vstd::utf8::{encode_utf8, valid_utf8};
use crate::error::{Error, ErrorKind};
use crate::text::bytes_as_str;
use crate::util::{FromHeaderValue, ToHeaderValue};

verus! {

/// A point in time as HTTP writes it: seconds since the start of 1970 in
/// universal time, and the nanoseconds within the second. The text of a
/// date has no room for the nanoseconds.
#[derive(Debug, Clone, PartialEq, Eq)]
pub struct HttpDate {
    secs: i64,
    nanos: u32,
}

/// The second that `chrono` reads from the text `s` by the pattern
/// `pattern`, counted from the start of 1970 in universal time; `None` where
/// the text does not follow the pattern.
pub uninterp spec fn date_parsed(s: Seq<u8>, pattern: Seq<u8>) -> Option<i64>;

/// The text that `chrono` writes for the second `secs` by the pattern
/// `pattern`; `None` for a second beyond the dates that `chrono` can hold.
pub uninterp spec fn date_text(secs: i64, pattern: Seq<u8>) -> Option<Seq<u8>>;

/// The preferred form of a date: `Sun, 06 Nov 1994 08:49:37 GMT`.
pub open spec fn imf_fixdate() -> Seq<u8> {
    "%a, %d %b %Y %T GMT".spec_bytes()
}

/// The obsolete form of RFC 850: `Sunday, 06-Nov-94 08:49:37 GMT`.
pub open spec fn rfc850_date() -> Seq<u8> {
    "%A, %d-%b-%y %T GMT".spec_bytes()
}

/// The form of `asctime`: `Sun Nov  6 08:49:37 1994`.
pub open spec fn asctime_date() -> Seq<u8> {
    "%a %b %e %T %Y".spec_bytes()
}

/// `NaiveDateTime::parse_from_str`, and the second of what it returns:
/// reads a date and a time of day by a pattern.
#[verifier::external_body]
fn parse_date(s: &str, pattern: &str) -> (r: Option<i64>)
    ensures
        r == date_parsed(s.spec_bytes(), pattern.spec_bytes()),
{
    chrono::NaiveDateTime::parse_from_str(s, pattern).ok().map(|d| d.and_utc().timestamp())
}

/// `DateTime::format`, on the date of a second: writes a date and a time of
/// day by a pattern. Only the preferred form is admitted as the pattern.
#[verifier::external_body]
fn format_date(secs: i64, pattern: &str) -> (r: Option<String>)
    requires
        pattern.spec_bytes() == imf_fixdate(),
    ensures
        match r {
            Some(s) => date_text(secs, pattern.spec_bytes()) == Some(encode_utf8(s@)),
            None => date_text(secs, pattern.spec_bytes()) is None,
        },
{
    chrono::DateTime::<chrono::Utc>::from_timestamp(secs, 0).map(|d| d.format(pattern).to_string())
}

/// The second that a date text denotes: the text is read in the
/// preferred form, else in the form of RFC 850, else in that of `asctime`.
pub open spec fn date_value(s: Seq<u8>) -> Option<i64> {
    if !valid_utf8(s) {
        None
    } else {
        match date_parsed(s, imf_fixdate()) {
            Some(t) => Some(t),
            None => match date_parsed(s, rfc850_date()) {
                Some(t) => Some(t),
                None => date_parsed(s, asctime_date()),
            },
        }
    }
}

/// The text of the second `secs`, in the preferred form; empty for a
/// second beyond the dates that can be written.
pub open spec fn date_rendered(secs: i64) -> Seq<u8> {
    match date_text(secs, imf_fixdate()) {
        Some(t) => t,
        None => Seq::empty(),
    }
}

impl HttpDate {
    /// The second of this date; see [`HttpDate`].
    pub closed spec fn seconds(&self) -> i64 {
        self.secs
    }

    /// The nanoseconds within the second.
    pub closed spec fn nanoseconds(&self) -> u32 {
        self.nanos
    }

    /// The date of the given second and nanoseconds within it.
    pub fn from_timestamp(secs: i64, nanos: u32) -> (r: HttpDate)
        ensures
            r.seconds() == secs,
            r.nanoseconds() == nanos,
    {
        HttpDate { secs, nanos }
    }

    /// The second of this date.
    pub fn timestamp(&self) -> (r: i64)
        ensures
            r == self.seconds(),
    {
        self.secs
    }

    /// The nanoseconds within the second.
    pub fn subsec_nanos(&self) -> (r: u32)
        ensures
            r == self.nanoseconds(),
    {
        self.nanos
    }

    /// Reads a date in one of the three forms that HTTP knows.
    pub fn from_str(s: &str) -> (r: Result<HttpDate, Error>)
        ensures
            match r {
                Ok(v) => date_value(s.spec_bytes()) == Some(v.seconds()) && v.nanoseconds() == 0,
                Err(e) => date_value(s.spec_bytes()) is None && e == Error(
                    ErrorKind::InvalidValue,
                ),
            },
    {
        proof {
            vstd::utf8::encode_utf8_valid_utf8(s@);
        }
        let secs = match parse_date(s, "%a, %d %b %Y %T GMT") {
            Some(t) => Some(t),
            None => match parse_date(s, "%A, %d-%b-%y %T GMT") {
                Some(t) => Some(t),
                None => parse_date(s, "%a %b %e %T %Y"),
            },
        };
        match secs {
            Some(secs) => Ok(HttpDate { secs, nanos: 0 }),
            None => Err(Error::invalid_value()),
        }
    }

    /// The text of this date, in the preferred form.
    pub fn to_string(&self) -> (s: String)
        ensures
            encode_utf8(s@) == date_rendered(self.seconds()),
    {
        match format_date(self.secs, "%a, %d %b %Y %T GMT") {
            Some(s) => s,
            None => String::new(),
        }
    }
}

impl ToHeaderValue for HttpDate {
    type Model = (i64, u32);

    open spec fn model(&self) -> (i64, u32) {
        (self.seconds(), self.nanoseconds())
    }

    open spec fn rendered(m: (i64, u32)) -> Seq<u8> {
        date_rendered(m.0)
    }

    fn to_header_value(&self) -> (s: String) {
        self.to_string()
    }
}

impl FromHeaderValue for HttpDate {
    open spec fn parsed(s: Seq<u8>) -> Option<(i64, u32)> {
        match date_value(s) {
            Some(secs) => Some((secs, 0u32)),
            None => None,
        }
    }

    fn from_header_value(s: &[u8]) -> (r: Result<Self, Error>) {
        match bytes_as_str(s) {
            Some(text) => HttpDate::from_str(text),
            None => Err(Error::invalid_value()),
        }
    }
}

} // verus!
