//! The value of the `Content-Range` header.

use vstd::prelude::*;
use vstd::string::StringSliceAdditionalSpecFns;
use vstd::utf8::{encode_utf8, valid_utf8};
use crate::error::{Error, ErrorKind};
use crate::number::{
    decimal_digits, lemma_decimal_digits_are_digits, parse_decimal, parse_u64, push_decimal,
};
use crate::text::{
    bytes_eq, bytes_to_string, is_ascii, lemma_ascii_is_utf8, push_all, split_in_two, split_once,
    utf8_to_string,
};
use crate::util::{FromHeaderValue, ToHeaderValue};

verus! {

/// The range of a partial representation, and the length of the whole.
#[derive(PartialEq, Clone, Debug)]
pub enum ContentRangeSpec {
    /// A byte range.
    Bytes {
        /// First and last byte of the range; `None` where the request could
        /// not be satisfied.
        range: Option<(u64, u64)>,
        /// Length of the whole representation; `None` where it is unknown.
        instance_length: Option<u64>,
    },
    /// A range in a unit other than bytes.
    Unregistered {
        /// The range unit.
        unit: String,
        /// The range in that unit, as it was written.
        resp: String,
    },
}

/// What a `ContentRangeSpec` stands for.
pub enum ContentRangeModel {
    Bytes { range: Option<(u64, u64)>, instance_length: Option<u64> },
    Unregistered { unit: Seq<u8>, resp: Seq<u8> },
}

/// The text `*`.
pub open spec fn star() -> Seq<u8> {
    seq!['*' as u8]
}

/// The length that the text after `/` denotes: unknown for `*`, else a
/// number. The outer `None` stands for text that denotes neither.
pub open spec fn instance_length_value(s: Seq<u8>) -> Option<Option<u64>> {
    if s == star() {
        Some(None)
    } else {
        match parse_decimal(s, u64::MAX as nat) {
            Some(n) => Some(Some(n as u64)),
            None => None,
        }
    }
}

/// The range that the text before `/` denotes: none for `*`, else
/// `first-last` with `first <= last`. The outer `None` stands for text that
/// denotes neither.
pub open spec fn byte_range_value(s: Seq<u8>) -> Option<Option<(u64, u64)>> {
    if s == star() {
        Some(None)
    } else {
        match split_once(s, '-' as u8) {
            None => None,
            Some((first, last)) => match (
                parse_decimal(first, u64::MAX as nat),
                parse_decimal(last, u64::MAX as nat),
            ) {
                (Some(a), Some(b)) => if b < a {
                    None
                } else {
                    Some(Some((a as u64, b as u64)))
                },
                _ => None,
            },
        }
    }
}

/// The content range that `s` denotes: a unit, a space, and the range in
/// that unit. For the unit `bytes` the range is `first-last/length`, where
/// `*` may stand for the range or for the length.
pub open spec fn content_range_value(s: Seq<u8>) -> Option<ContentRangeModel> {
    match split_once(s, ' ' as u8) {
        None => None,
        Some((unit, resp)) => if unit == "bytes".spec_bytes() {
            match split_once(resp, '/' as u8) {
                None => None,
                Some((range, length)) => match (
                    byte_range_value(range),
                    instance_length_value(length),
                ) {
                    (Some(range), Some(instance_length)) => Some(
                        ContentRangeModel::Bytes { range, instance_length },
                    ),
                    _ => None,
                },
            }
        } else if valid_utf8(unit) && valid_utf8(resp) {
            Some(ContentRangeModel::Unregistered { unit, resp })
        } else {
            None
        },
    }
}

/// The text of a byte range: `first-last`, or `*`.
pub open spec fn byte_range_part(range: Option<(u64, u64)>) -> Seq<u8> {
    match range {
        Some((first, last)) => decimal_digits(first as nat).push('-' as u8) + decimal_digits(
            last as nat,
        ),
        None => star(),
    }
}

/// The text of an instance length: the number, or `*`.
pub open spec fn instance_length_part(length: Option<u64>) -> Seq<u8> {
    match length {
        Some(n) => decimal_digits(n as nat),
        None => star(),
    }
}

/// The text of a content range.
pub open spec fn content_range_text(m: ContentRangeModel) -> Seq<u8> {
    match m {
        ContentRangeModel::Bytes { range, instance_length } => "bytes".spec_bytes().push(
            ' ' as u8,
        ) + byte_range_part(range).push('/' as u8) + instance_length_part(instance_length),
        ContentRangeModel::Unregistered { unit, resp } => unit.push(' ' as u8) + resp,
    }
}

/// The text of the byte form of a content range is ASCII.
proof fn lemma_bytes_text_ascii(range: Option<(u64, u64)>, instance_length: Option<u64>)
    ensures
        is_ascii(content_range_text(ContentRangeModel::Bytes { range, instance_length })),
{
    reveal_strlit("bytes");
    broadcast use vstd::string::is_ascii_spec_bytes;
    assert(vstd::string::is_ascii("bytes"));
    match range {
        Some((first, last)) => {
            lemma_decimal_digits_are_digits(first as nat);
            lemma_decimal_digits_are_digits(last as nat);
        },
        None => {},
    }
    match instance_length {
        Some(n) => {
            lemma_decimal_digits_are_digits(n as nat);
        },
        None => {},
    }
    assert(is_ascii(byte_range_part(range)));
    assert(is_ascii(instance_length_part(instance_length)));
}

/// Reads the range before `/`.
fn parse_byte_range(s: &[u8]) -> (r: Option<Option<(u64, u64)>>)
    ensures
        r == byte_range_value(s@),
{
    if s.len() == 1 && s[0] == '*' as u8 {
        assert(s@ =~= star());
        return Some(None);
    }
    assert(s@ != star());
    match split_in_two(s, '-' as u8) {
        None => None,
        Some((first, last)) => match (parse_u64(first), parse_u64(last)) {
            (Some(a), Some(b)) => {
                if b < a {
                    None
                } else {
                    Some(Some((a, b)))
                }
            },
            _ => None,
        },
    }
}

/// Reads the length after `/`.
fn parse_instance_length(s: &[u8]) -> (r: Option<Option<u64>>)
    ensures
        r == instance_length_value(s@),
{
    if s.len() == 1 && s[0] == '*' as u8 {
        assert(s@ =~= star());
        return Some(None);
    }
    assert(s@ != star());
    match parse_u64(s) {
        Some(n) => Some(Some(n)),
        None => None,
    }
}

impl ContentRangeSpec {
    /// What this value stands for.
    pub open spec fn view(&self) -> ContentRangeModel {
        match self {
            ContentRangeSpec::Bytes { range, instance_length } => ContentRangeModel::Bytes {
                range: *range,
                instance_length: *instance_length,
            },
            ContentRangeSpec::Unregistered { unit, resp } => ContentRangeModel::Unregistered {
                unit: encode_utf8(unit@),
                resp: encode_utf8(resp@),
            },
        }
    }

    /// Reads a content range.
    pub fn from_str(s: &str) -> (r: Result<ContentRangeSpec, Error>)
        ensures
            match r {
                Ok(v) => content_range_value(s.spec_bytes()) == Some(v@),
                Err(e) => content_range_value(s.spec_bytes()) is None && e == Error(
                    ErrorKind::InvalidValue,
                ),
            },
    {
        Self::from_header_value(s.as_bytes())
    }

    /// The text of this content range.
    pub fn to_string(&self) -> (s: String)
        ensures
            encode_utf8(s@) == content_range_text(self@),
    {
        self.to_header_value()
    }
}

impl ToHeaderValue for ContentRangeSpec {
    type Model = ContentRangeModel;

    open spec fn model(&self) -> ContentRangeModel {
        self@
    }

    open spec fn rendered(m: ContentRangeModel) -> Seq<u8> {
        content_range_text(m)
    }

    fn to_header_value(&self) -> (s: String) {
        let mut out: Vec<u8> = Vec::new();
        match self {
            ContentRangeSpec::Bytes { range, instance_length } => {
                push_all(&mut out, "bytes".as_bytes());
                out.push(' ' as u8);
                match range {
                    Some((first_byte, last_byte)) => {
                        push_decimal(&mut out, *first_byte);
                        out.push('-' as u8);
                        push_decimal(&mut out, *last_byte);
                    },
                    None => {
                        out.push('*' as u8);
                    },
                }
                out.push('/' as u8);
                match instance_length {
                    Some(v) => {
                        push_decimal(&mut out, *v);
                    },
                    None => {
                        out.push('*' as u8);
                    },
                }
                proof {
                    assert(out@ =~= content_range_text(self@));
                    lemma_bytes_text_ascii(*range, *instance_length);
                    lemma_ascii_is_utf8(out@);
                }
            },
            ContentRangeSpec::Unregistered { unit, resp } => {
                push_all(&mut out, unit.as_str().as_bytes());
                out.push(' ' as u8);
                push_all(&mut out, resp.as_str().as_bytes());
                proof {
                    let u = encode_utf8(unit@);
                    let r = encode_utf8(resp@);
                    vstd::utf8::encode_utf8_valid_utf8(unit@);
                    vstd::utf8::encode_utf8_valid_utf8(resp@);
                    let sp = seq![' ' as u8];
                    lemma_ascii_is_utf8(sp);
                    vstd::utf8::valid_utf8_concat(u, sp);
                    vstd::utf8::valid_utf8_concat(u + sp, r);
                    assert(out@ =~= u + sp + r);
                    assert(out@ =~= content_range_text(self@));
                }
            },
        }
        utf8_to_string(out)
    }
}

impl FromHeaderValue for ContentRangeSpec {
    open spec fn parsed(s: Seq<u8>) -> Option<ContentRangeModel> {
        content_range_value(s)
    }

    fn from_header_value(s: &[u8]) -> (r: Result<Self, Error>) {
        match split_in_two(s, ' ' as u8) {
            None => Err(Error::invalid_value()),
            Some((unit, resp)) => {
                if bytes_eq(unit, "bytes".as_bytes()) {
                    let (range, instance_length) = match split_in_two(resp, '/' as u8) {
                        None => {
                            return Err(Error::invalid_value());
                        },
                        Some(halves) => halves,
                    };
                    let instance_length = match parse_instance_length(instance_length) {
                        None => {
                            return Err(Error::invalid_value());
                        },
                        Some(v) => v,
                    };
                    let range = match parse_byte_range(range) {
                        None => {
                            return Err(Error::invalid_value());
                        },
                        Some(v) => v,
                    };
                    Ok(ContentRangeSpec::Bytes { range, instance_length })
                } else {
                    let unit_text = bytes_to_string(vstd::slice::slice_to_vec(unit));
                    let resp_text = bytes_to_string(vstd::slice::slice_to_vec(resp));
                    match (unit_text, resp_text) {
                        (Some(unit), Some(resp)) => Ok(
                            ContentRangeSpec::Unregistered { unit, resp },
                        ),
                        _ => Err(Error::invalid_value()),
                    }
                }
            },
        }
    }
}

} // verus!
