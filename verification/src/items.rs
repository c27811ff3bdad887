//! The item types of the header catalog that are no types of this library:
//! text, numbers, and the values of `http`, `mime` and `language_tags`.
//!
//! The values of the outside crates are opaque here. Each is read and
//! written by one call into its crate; what is stated of those calls is
//! taken for granted, and names what they return.

use vstd::prelude::*;
use vstd::string::StringSliceAdditionalSpecFns;
use vstd::utf8::{encode_utf8, valid_utf8};
use http::header::HeaderName;
use http::Method;
use language_tags::LanguageTag;
use mime::Mime;
use crate::error::Error;
use crate::header::is_header_name;
use crate::http_types::{
    header_name_as_str, header_name_from_bytes, is_method, method_as_str, method_from_bytes,
    method_text, name_text,
};
use crate::number::{
    decimal_digits, format_u64, lemma_decimal_digits_are_digits, parse_decimal, parse_u32,
    parse_u64,
};
use crate::text::{bytes_as_str, bytes_to_string, lemma_ascii_is_utf8, to_lower, utf8_to_string};
use crate::util::{FromHeaderValue, ToHeaderValue};

verus! {

/// `mime::Mime`, held as an opaque value.
#[verifier::external_type_specification]
#[verifier::external_body]
pub struct ExMime(Mime);

/// `language_tags::LanguageTag`, held as an opaque value.
#[verifier::external_type_specification]
#[verifier::external_body]
pub struct ExLanguageTag(LanguageTag);

/// The text of a media type: what its `Display` writes.
pub uninterp spec fn mime_text(mime: Mime) -> Seq<u8>;

/// The text of the media type that `Mime::from_str` reads from `s`, or
/// `None` where it reads none.
pub uninterp spec fn mime_parsed(s: Seq<u8>) -> Option<Seq<u8>>;

/// The text of a language tag: what its `Display` writes.
pub uninterp spec fn language_tag_text(tag: LanguageTag) -> Seq<u8>;

/// The text of the language tag that `LanguageTag::from_str` reads from
/// `s`, or `None` where it reads none.
pub uninterp spec fn language_tag_parsed(s: Seq<u8>) -> Option<Seq<u8>>;

/// `Mime::from_str`: reads a media type.
#[verifier::external_body]
fn mime_from_str(s: &str) -> (r: Option<Mime>)
    ensures
        match r {
            Some(m) => mime_parsed(s.spec_bytes()) == Some(mime_text(m)),
            None => mime_parsed(s.spec_bytes()) is None,
        },
{
    s.parse::<Mime>().ok()
}

/// `Mime`'s `Display`: writes a media type.
#[verifier::external_body]
fn mime_to_string(mime: &Mime) -> (s: String)
    ensures
        encode_utf8(s@) == mime_text(*mime),
{
    mime.to_string()
}

/// `LanguageTag::from_str`: reads a language tag.
#[verifier::external_body]
fn language_tag_from_str(s: &str) -> (r: Option<LanguageTag>)
    ensures
        match r {
            Some(t) => language_tag_parsed(s.spec_bytes()) == Some(language_tag_text(t)),
            None => language_tag_parsed(s.spec_bytes()) is None,
        },
{
    s.parse::<LanguageTag>().ok()
}

/// `LanguageTag`'s `Display`: writes a language tag.
#[verifier::external_body]
fn language_tag_to_string(tag: &LanguageTag) -> (s: String)
    ensures
        encode_utf8(s@) == language_tag_text(*tag),
{
    tag.to_string()
}

/// `Mime`'s `Clone`: a media type with the same text.
pub assume_specification[ <Mime as Clone>::clone ](mime: &Mime) -> (r: Mime)
    ensures
        mime_text(r) == mime_text(*mime),
;

/// `LanguageTag`'s `Clone`: a language tag with the same text.
pub assume_specification[ <LanguageTag as Clone>::clone ](tag: &LanguageTag) -> (r: LanguageTag)
    ensures
        language_tag_text(r) == language_tag_text(*tag),
;

/// Reads a media type from bytes: they must be well-formed UTF-8, and a
/// media type.
pub fn parse_mime(s: &[u8]) -> (r: Option<Mime>)
    ensures
        match r {
            Some(m) => valid_utf8(s@) && mime_parsed(s@) == Some(mime_text(m)),
            None => !valid_utf8(s@) || mime_parsed(s@) is None,
        },
{
    match bytes_as_str(s) {
        Some(text) => mime_from_str(text),
        None => None,
    }
}

/// Reads a language tag from bytes: they must be well-formed UTF-8, and a
/// language tag.
pub fn parse_language_tag(s: &[u8]) -> (r: Option<LanguageTag>)
    ensures
        match r {
            Some(t) => valid_utf8(s@) && language_tag_parsed(s@) == Some(language_tag_text(t)),
            None => !valid_utf8(s@) || language_tag_parsed(s@) is None,
        },
{
    match bytes_as_str(s) {
        Some(text) => language_tag_from_str(text),
        None => None,
    }
}

impl ToHeaderValue for Mime {
    type Model = Seq<u8>;

    open spec fn model(&self) -> Seq<u8> {
        mime_text(*self)
    }

    open spec fn rendered(m: Seq<u8>) -> Seq<u8> {
        m
    }

    fn to_header_value(&self) -> (s: String) {
        mime_to_string(self)
    }
}

impl FromHeaderValue for Mime {
    open spec fn parsed(s: Seq<u8>) -> Option<Seq<u8>> {
        if valid_utf8(s) {
            mime_parsed(s)
        } else {
            None
        }
    }

    fn from_header_value(s: &[u8]) -> (r: Result<Self, Error>) {
        match parse_mime(s) {
            Some(m) => Ok(m),
            None => Err(Error::invalid_value()),
        }
    }
}

impl ToHeaderValue for LanguageTag {
    type Model = Seq<u8>;

    open spec fn model(&self) -> Seq<u8> {
        language_tag_text(*self)
    }

    open spec fn rendered(m: Seq<u8>) -> Seq<u8> {
        m
    }

    fn to_header_value(&self) -> (s: String) {
        language_tag_to_string(self)
    }
}

impl FromHeaderValue for LanguageTag {
    open spec fn parsed(s: Seq<u8>) -> Option<Seq<u8>> {
        if valid_utf8(s) {
            language_tag_parsed(s)
        } else {
            None
        }
    }

    fn from_header_value(s: &[u8]) -> (r: Result<Self, Error>) {
        match parse_language_tag(s) {
            Some(t) => Ok(t),
            None => Err(Error::invalid_value()),
        }
    }
}

impl ToHeaderValue for HeaderName {
    type Model = Seq<u8>;

    open spec fn model(&self) -> Seq<u8> {
        name_text(*self)
    }

    open spec fn rendered(m: Seq<u8>) -> Seq<u8> {
        m
    }

    fn to_header_value(&self) -> (s: String) {
        header_name_as_str(self).to_owned()
    }
}

impl FromHeaderValue for HeaderName {
    open spec fn parsed(s: Seq<u8>) -> Option<Seq<u8>> {
        if is_header_name(s) {
            Some(to_lower(s))
        } else {
            None
        }
    }

    fn from_header_value(s: &[u8]) -> (r: Result<Self, Error>) {
        if s.len() >= 65536 {
            return Err(Error::invalid_value());
        }
        match header_name_from_bytes(s) {
            Some(n) => Ok(n),
            None => Err(Error::invalid_value()),
        }
    }
}

impl ToHeaderValue for Method {
    type Model = Seq<u8>;

    open spec fn model(&self) -> Seq<u8> {
        method_text(*self)
    }

    open spec fn rendered(m: Seq<u8>) -> Seq<u8> {
        m
    }

    fn to_header_value(&self) -> (s: String) {
        method_as_str(self).to_owned()
    }
}

impl FromHeaderValue for Method {
    open spec fn parsed(s: Seq<u8>) -> Option<Seq<u8>> {
        if is_method(s) {
            Some(s)
        } else {
            None
        }
    }

    fn from_header_value(s: &[u8]) -> (r: Result<Self, Error>) {
        match method_from_bytes(s) {
            Some(m) => Ok(m),
            None => Err(Error::invalid_value()),
        }
    }
}

impl ToHeaderValue for String {
    type Model = Seq<u8>;

    open spec fn model(&self) -> Seq<u8> {
        encode_utf8(self@)
    }

    open spec fn rendered(m: Seq<u8>) -> Seq<u8> {
        m
    }

    fn to_header_value(&self) -> (s: String) {
        self.clone()
    }
}

impl FromHeaderValue for String {
    open spec fn parsed(s: Seq<u8>) -> Option<Seq<u8>> {
        if valid_utf8(s) {
            Some(s)
        } else {
            None
        }
    }

    fn from_header_value(s: &[u8]) -> (r: Result<Self, Error>) {
        match bytes_to_string(vstd::slice::slice_to_vec(s)) {
            Some(text) => Ok(text),
            None => Err(Error::invalid_value()),
        }
    }
}

impl ToHeaderValue for str {
    type Model = Seq<u8>;

    open spec fn model(&self) -> Seq<u8> {
        self.spec_bytes()
    }

    open spec fn rendered(m: Seq<u8>) -> Seq<u8> {
        m
    }

    fn to_header_value(&self) -> (s: String) {
        self.to_owned()
    }
}

impl<'a, T: ToHeaderValue> ToHeaderValue for &'a T {
    type Model = T::Model;

    open spec fn model(&self) -> T::Model {
        (**self).model()
    }

    open spec fn rendered(m: T::Model) -> Seq<u8> {
        T::rendered(m)
    }

    fn to_header_value(&self) -> (s: String) {
        (*self).to_header_value()
    }
}

impl ToHeaderValue for u64 {
    type Model = nat;

    open spec fn model(&self) -> nat {
        *self as nat
    }

    open spec fn rendered(m: nat) -> Seq<u8> {
        decimal_digits(m)
    }

    fn to_header_value(&self) -> (s: String) {
        let digits = format_u64(*self);
        proof {
            lemma_decimal_digits_are_digits(*self as nat);
            lemma_ascii_is_utf8(digits@);
        }
        utf8_to_string(digits)
    }
}

impl FromHeaderValue for u64 {
    open spec fn parsed(s: Seq<u8>) -> Option<nat> {
        parse_decimal(s, u64::MAX as nat)
    }

    fn from_header_value(s: &[u8]) -> (r: Result<Self, Error>) {
        match parse_u64(s) {
            Some(n) => Ok(n),
            None => Err(Error::invalid_value()),
        }
    }
}

impl ToHeaderValue for u32 {
    type Model = nat;

    open spec fn model(&self) -> nat {
        *self as nat
    }

    open spec fn rendered(m: nat) -> Seq<u8> {
        decimal_digits(m)
    }

    fn to_header_value(&self) -> (s: String) {
        let digits = format_u64(*self as u64);
        proof {
            lemma_decimal_digits_are_digits(*self as nat);
            lemma_ascii_is_utf8(digits@);
        }
        utf8_to_string(digits)
    }
}

impl FromHeaderValue for u32 {
    open spec fn parsed(s: Seq<u8>) -> Option<nat> {
        parse_decimal(s, u32::MAX as nat)
    }

    fn from_header_value(s: &[u8]) -> (r: Result<Self, Error>) {
        match parse_u32(s) {
            Some(n) => Ok(n),
            None => Err(Error::invalid_value()),
        }
    }
}

} // verus!
