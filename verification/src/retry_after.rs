//! The `Retry-After` header.

use vstd::prelude::*;
use vstd::string::StringSliceAdditionalSpecFns;
use vstd::utf8::encode_utf8;
use crate::error::{Error, ErrorKind};
use crate::header::Header;
use crate::http_date::{date_rendered, date_value, HttpDate};
use crate::number::{decimal_digits, format_u64, parse_decimal, parse_u64};
use crate::text::{check_visible_ascii, is_visible_ascii, push_all};
use crate::util::{is_valid_value, FromHeaderValue, ToHeaderValue, ToValues, Values};

verus! {

/// The `Retry-After` header: how long to wait before a request is made
/// again, as a number of seconds or as the date from which on it may be
/// made.
#[derive(Debug, Clone, PartialEq, Eq)]
pub enum RetryAfter {
    DelaySeconds(u64),
    HttpDate(HttpDate),
}

/// What a `RetryAfter` stands for.
pub enum RetryAfterModel {
    DelaySeconds(u64),
    HttpDate(i64, u32),
}

/// What the value of the header denotes: a number of seconds where it is
/// a number, else a date.
pub open spec fn retry_after_value(s: Seq<u8>) -> Option<RetryAfterModel> {
    match parse_decimal(s, u64::MAX as nat) {
        Some(n) => Some(RetryAfterModel::DelaySeconds(n as u64)),
        None => match date_value(s) {
            Some(secs) => Some(RetryAfterModel::HttpDate(secs, 0)),
            None => None,
        },
    }
}

/// The text of a `RetryAfter`.
pub open spec fn retry_after_text(m: RetryAfterModel) -> Seq<u8> {
    match m {
        RetryAfterModel::DelaySeconds(n) => decimal_digits(n as nat),
        RetryAfterModel::HttpDate(secs, _) => date_rendered(secs),
    }
}

impl RetryAfter {
    /// What this value stands for.
    pub open spec fn view(&self) -> RetryAfterModel {
        match self {
            RetryAfter::DelaySeconds(n) => RetryAfterModel::DelaySeconds(*n),
            RetryAfter::HttpDate(d) => RetryAfterModel::HttpDate(d.seconds(), d.nanoseconds()),
        }
    }
}

impl Header for RetryAfter {
    type Model = RetryAfterModel;

    open spec fn model(&self) -> RetryAfterModel {
        self@
    }

    open spec fn name_text() -> Seq<u8> {
        "retry-after".spec_bytes()
    }

    open spec fn decoded(entries: Seq<Seq<u8>>) -> Result<Option<RetryAfterModel>, ErrorKind> {
        if entries.len() == 0 {
            Ok(None)
        } else if !is_visible_ascii(entries[0]) {
            Err(ErrorKind::InvalidValue)
        } else {
            match retry_after_value(entries[0]) {
                Some(v) => Ok(Some(v)),
                None => Err(ErrorKind::InvalidValue),
            }
        }
    }

    open spec fn taken(entries: Seq<Seq<u8>>) -> nat {
        if entries.len() == 0 {
            0
        } else {
            1
        }
    }

    open spec fn encoded(m: RetryAfterModel) -> Option<Seq<Seq<u8>>> {
        if is_valid_value(retry_after_text(m)) {
            Some(seq![retry_after_text(m)])
        } else {
            None
        }
    }

    fn name() -> (n: &'static str) {
        proof {
            reveal_strlit("retry-after");
            crate::header::lemma_header_name("retry-after");
        }
        "retry-after"
    }

    #[inline]
    fn from_values(values: &mut Values) -> (r: Result<Option<RetryAfter>, Error>) {
        let value = match values.next() {
            Some(value) => value,
            None => {
                assert(old(values).remaining().skip(0) =~= old(values).remaining());
                return Ok(None);
            },
        };
        if !check_visible_ascii(value) {
            return Err(Error::invalid_value());
        }
        match parse_u64(value) {
            Some(n) => Ok(Some(RetryAfter::DelaySeconds(n))),
            None => match HttpDate::from_header_value(value) {
                Ok(date) => Ok(Some(RetryAfter::HttpDate(date))),
                Err(e) => Err(e),
            },
        }
    }

    #[inline]
    fn to_values(&self, values: &mut ToValues) -> (r: Result<(), Error>) {
        let text = match self {
            RetryAfter::DelaySeconds(delay) => format_u64(*delay),
            RetryAfter::HttpDate(date) => {
                let s = date.to_string();
                let mut out: Vec<u8> = Vec::new();
                push_all(&mut out, s.as_str().as_bytes());
                assert(out@ =~= encode_utf8(s@));
                out
            },
        };
        let r = values.append(text);
        proof {
            let t = retry_after_text(self@);
            assert(old(values).entries().push(t) =~= old(values).entries() + seq![t]);
        }
        r
    }
}

} // verus!
