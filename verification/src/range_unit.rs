//! Range units, as named in `Accept-Ranges`.

use vstd::prelude::*;
use vstd::string::StringSliceAdditionalSpecFns;
use vstd::utf8::encode_utf8;
use crate::error::Error;
use crate::text::{bytes_eq_ignore_case, eq_ignore_case, to_lower};
use crate::token::lowered_token;
use crate::util::{is_token_text, FromHeaderValue, ToHeaderValue};

verus! {

#[derive(Debug, Clone, PartialEq, Eq)]
enum Inner {
    ByteUnit,
    NoUnit,
    Other(String),
}

/// A range unit: `bytes`, `none`, or an extension token.
#[derive(Debug, Clone, PartialEq, Eq)]
pub struct RangeUnit(Inner);

/// The error of a range unit name that is no token.
#[derive(Debug)]
pub struct InvalidRangeUnit(());

/// The text of the range unit that `s` names: the registered spelling for
/// `bytes` and `none` in any case, the lower-case form of `s` where it is
/// another token, and nothing for text that is no token.
pub open spec fn range_unit_text(s: Seq<u8>) -> Option<Seq<u8>> {
    if eq_ignore_case(s, "bytes".spec_bytes()) {
        Some("bytes".spec_bytes())
    } else if eq_ignore_case(s, "none".spec_bytes()) {
        Some("none".spec_bytes())
    } else if is_token_text(s) {
        Some(to_lower(s))
    } else {
        None
    }
}

impl RangeUnit {
    /// The text of this range unit.
    pub closed spec fn text(&self) -> Seq<u8> {
        match self.0 {
            Inner::ByteUnit => "bytes".spec_bytes(),
            Inner::NoUnit => "none".spec_bytes(),
            Inner::Other(s) => encode_utf8(s@),
        }
    }

    /// The unit `bytes`.
    pub fn bytes() -> (r: RangeUnit)
        ensures
            r.text() == "bytes".spec_bytes(),
    {
        RangeUnit(Inner::ByteUnit)
    }

    /// The unit `none`.
    pub fn none() -> (r: RangeUnit)
        ensures
            r.text() == "none".spec_bytes(),
    {
        RangeUnit(Inner::NoUnit)
    }

    /// Constructs a range unit from its name.
    ///
    /// An error is returned if the name is not a valid token.
    pub fn new(unit: &str) -> (r: Result<RangeUnit, InvalidRangeUnit>)
        ensures
            match r {
                Ok(v) => range_unit_text(unit.spec_bytes()) == Some(v.text()),
                Err(_) => range_unit_text(unit.spec_bytes()) is None,
            },
    {
        Self::from_bytes(unit.as_bytes())
    }

    /// Constructs a range unit from the bytes of its name.
    pub fn from_bytes(s: &[u8]) -> (r: Result<RangeUnit, InvalidRangeUnit>)
        ensures
            match r {
                Ok(v) => range_unit_text(s@) == Some(v.text()),
                Err(_) => range_unit_text(s@) is None,
            },
    {
        if bytes_eq_ignore_case(s, "bytes".as_bytes()) {
            return Ok(RangeUnit(Inner::ByteUnit));
        }
        if bytes_eq_ignore_case(s, "none".as_bytes()) {
            return Ok(RangeUnit(Inner::NoUnit));
        }
        match lowered_token(s) {
            Some(name) => Ok(RangeUnit(Inner::Other(name))),
            None => Err(InvalidRangeUnit(())),
        }
    }

    /// Returns the text of this range unit.
    pub fn as_str(&self) -> (r: &str)
        ensures
            r.spec_bytes() == self.text(),
    {
        match &self.0 {
            Inner::ByteUnit => "bytes",
            Inner::NoUnit => "none",
            Inner::Other(s) => s.as_str(),
        }
    }
}

impl InvalidRangeUnit {
    /// What this error says.
    pub fn to_string(&self) -> (s: String)
        ensures
            s@ == "invalid range-unit"@,
    {
        "invalid range-unit".to_owned()
    }
}

impl ToHeaderValue for RangeUnit {
    type Model = Seq<u8>;

    open spec fn model(&self) -> Seq<u8> {
        self.text()
    }

    open spec fn rendered(m: Seq<u8>) -> Seq<u8> {
        m
    }

    fn to_header_value(&self) -> (s: String) {
        self.as_str().to_owned()
    }
}

impl FromHeaderValue for RangeUnit {
    open spec fn parsed(s: Seq<u8>) -> Option<Seq<u8>> {
        range_unit_text(s)
    }

    fn from_header_value(s: &[u8]) -> (r: Result<Self, Error>) {
        match Self::from_bytes(s) {
            Ok(v) => Ok(v),
            Err(_) => Err(Error::invalid_value()),
        }
    }
}

} // verus!
