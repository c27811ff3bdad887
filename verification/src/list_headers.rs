//! The headers that are a comma-delimited list of any number of items.

use vstd::prelude::*;
use vstd::string::StringSliceAdditionalSpecFns;
use http::header::HeaderName;
use http::Method;
use language_tags::LanguageTag;
use mime::Mime;
use crate::cache_control::CacheDirective;
use crate::content_coding::{
    canonical_coding, law_canonical_coding, lemma_canonical_is_faithful, ContentCoding,
};
use crate::error::{Error, ErrorKind};
use crate::header::Header;
use crate::laws::{element_is_faithful, is_parsed, law_list_round_trip, lemma_items_are_parsed};
use crate::quality::{lemma_quality_element_is_faithful, lemma_weight_bounds, weight, QualityItem};
use crate::util::{
    comma_delimited, comma_delimited_taken, encode_comma_delimited, lemma_one_entry, list_entries,
    models, parse_comma_delimited, texts, FromHeaderValue, ToHeaderValue, ToValues, Values,
};

verus! {

/// `Accept` header: the media types that a client accepts in a response, each with its weight.
///
/// The header may be absent, and may be present with no item at all.
#[derive(Clone, Debug, PartialEq)]
pub struct Accept(pub Vec<QualityItem<Mime>>);

impl Header for Accept {
    type Model = Seq<<QualityItem<Mime> as ToHeaderValue>::Model>;

    open spec fn model(&self) -> Self::Model {
        models(self.0@)
    }

    open spec fn name_text() -> Seq<u8> {
        "accept".spec_bytes()
    }

    open spec fn decoded(entries: Seq<Seq<u8>>) -> Result<Option<Self::Model>, ErrorKind> {
        comma_delimited::<QualityItem<Mime>>(entries)
    }

    open spec fn taken(entries: Seq<Seq<u8>>) -> nat {
        comma_delimited_taken::<QualityItem<Mime>>(entries)
    }

    open spec fn encoded(m: Self::Model) -> Option<Seq<Seq<u8>>> {
        list_entries(texts::<QualityItem<Mime>>(m))
    }

    #[inline]
    fn name() -> (n: &'static str) {
        proof {
            reveal_strlit("accept");
            crate::header::lemma_header_name("accept");
        }
        "accept"
    }

    #[inline]
    fn from_values(values: &mut Values) -> (r: Result<Option<Accept>, Error>) {
        match parse_comma_delimited(values) {
            Ok(Some(items)) => Ok(Some(Accept(items))),
            Ok(None) => Ok(None),
            Err(e) => Err(e),
        }
    }

    #[inline]
    fn to_values(&self, values: &mut ToValues) -> (r: Result<(), Error>) {
        let r = encode_comma_delimited(self.0.as_slice(), values);
        proof {
            lemma_one_entry(old(values).entries(), texts::<QualityItem<Mime>>(models(self.0@)));
        }
        r
    }
}

/// `Accept-Encoding` header: the content codings that a client accepts in a
/// response, each with its weight.
///
/// The header may be absent, and may be present with no item at all.
#[derive(Clone, Debug, PartialEq)]
pub struct AcceptEncoding(pub Vec<QualityItem<ContentCoding>>);

impl Header for AcceptEncoding {
    type Model = Seq<<QualityItem<ContentCoding> as ToHeaderValue>::Model>;

    open spec fn model(&self) -> Self::Model {
        models(self.0@)
    }

    open spec fn name_text() -> Seq<u8> {
        "accept-encoding".spec_bytes()
    }

    open spec fn decoded(entries: Seq<Seq<u8>>) -> Result<Option<Self::Model>, ErrorKind> {
        comma_delimited::<QualityItem<ContentCoding>>(entries)
    }

    open spec fn taken(entries: Seq<Seq<u8>>) -> nat {
        comma_delimited_taken::<QualityItem<ContentCoding>>(entries)
    }

    open spec fn encoded(m: Self::Model) -> Option<Seq<Seq<u8>>> {
        list_entries(texts::<QualityItem<ContentCoding>>(m))
    }

    #[inline]
    fn name() -> (n: &'static str) {
        proof {
            reveal_strlit("accept-encoding");
            crate::header::lemma_header_name("accept-encoding");
        }
        "accept-encoding"
    }

    #[inline]
    fn from_values(values: &mut Values) -> (r: Result<Option<AcceptEncoding>, Error>) {
        match parse_comma_delimited(values) {
            Ok(Some(items)) => Ok(Some(AcceptEncoding(items))),
            Ok(None) => Ok(None),
            Err(e) => Err(e),
        }
    }

    #[inline]
    fn to_values(&self, values: &mut ToValues) -> (r: Result<(), Error>) {
        let r = encode_comma_delimited(self.0.as_slice(), values);
        proof {
            lemma_one_entry(
                old(values).entries(),
                texts::<QualityItem<ContentCoding>>(models(self.0@)),
            );
        }
        r
    }
}

/// `Accept-Language` header: the natural languages that a client prefers in a
/// response, each with its weight.
///
/// The header may be absent, and may be present with no item at all.
#[derive(Clone, Debug, PartialEq)]
pub struct AcceptLanguage(pub Vec<QualityItem<LanguageTag>>);

impl Header for AcceptLanguage {
    type Model = Seq<<QualityItem<LanguageTag> as ToHeaderValue>::Model>;

    open spec fn model(&self) -> Self::Model {
        models(self.0@)
    }

    open spec fn name_text() -> Seq<u8> {
        "accept-language".spec_bytes()
    }

    open spec fn decoded(entries: Seq<Seq<u8>>) -> Result<Option<Self::Model>, ErrorKind> {
        comma_delimited::<QualityItem<LanguageTag>>(entries)
    }

    open spec fn taken(entries: Seq<Seq<u8>>) -> nat {
        comma_delimited_taken::<QualityItem<LanguageTag>>(entries)
    }

    open spec fn encoded(m: Self::Model) -> Option<Seq<Seq<u8>>> {
        list_entries(texts::<QualityItem<LanguageTag>>(m))
    }

    #[inline]
    fn name() -> (n: &'static str) {
        proof {
            reveal_strlit("accept-language");
            crate::header::lemma_header_name("accept-language");
        }
        "accept-language"
    }

    #[inline]
    fn from_values(values: &mut Values) -> (r: Result<Option<AcceptLanguage>, Error>) {
        match parse_comma_delimited(values) {
            Ok(Some(items)) => Ok(Some(AcceptLanguage(items))),
            Ok(None) => Ok(None),
            Err(e) => Err(e),
        }
    }

    #[inline]
    fn to_values(&self, values: &mut ToValues) -> (r: Result<(), Error>) {
        let r = encode_comma_delimited(self.0.as_slice(), values);
        proof {
            lemma_one_entry(
                old(values).entries(),
                texts::<QualityItem<LanguageTag>>(models(self.0@)),
            );
        }
        r
    }
}

/// `Access-Control-Allow-Headers` header: the header names that the actual
/// request of a preflight may use.
///
/// The header may be absent, and may be present with no item at all.
#[derive(Clone, Debug, PartialEq)]
pub struct AccessControlAllowHeaders(pub Vec<HeaderName>);

impl Header for AccessControlAllowHeaders {
    type Model = Seq<<HeaderName as ToHeaderValue>::Model>;

    open spec fn model(&self) -> Self::Model {
        models(self.0@)
    }

    open spec fn name_text() -> Seq<u8> {
        "access-control-allow-headers".spec_bytes()
    }

    open spec fn decoded(entries: Seq<Seq<u8>>) -> Result<Option<Self::Model>, ErrorKind> {
        comma_delimited::<HeaderName>(entries)
    }

    open spec fn taken(entries: Seq<Seq<u8>>) -> nat {
        comma_delimited_taken::<HeaderName>(entries)
    }

    open spec fn encoded(m: Self::Model) -> Option<Seq<Seq<u8>>> {
        list_entries(texts::<HeaderName>(m))
    }

    #[inline]
    fn name() -> (n: &'static str) {
        proof {
            reveal_strlit("access-control-allow-headers");
            crate::header::lemma_header_name("access-control-allow-headers");
        }
        "access-control-allow-headers"
    }

    #[inline]
    fn from_values(values: &mut Values) -> (r: Result<Option<AccessControlAllowHeaders>, Error>) {
        match parse_comma_delimited(values) {
            Ok(Some(items)) => Ok(Some(AccessControlAllowHeaders(items))),
            Ok(None) => Ok(None),
            Err(e) => Err(e),
        }
    }

    #[inline]
    fn to_values(&self, values: &mut ToValues) -> (r: Result<(), Error>) {
        let r = encode_comma_delimited(self.0.as_slice(), values);
        proof {
            lemma_one_entry(old(values).entries(), texts::<HeaderName>(models(self.0@)));
        }
        r
    }
}

/// `Access-Control-Allow-Methods` header: the methods that the actual request
/// of a preflight may use.
///
/// The header may be absent, and may be present with no item at all.
#[derive(Clone, Debug, PartialEq)]
pub struct AccessControlAllowMethods(pub Vec<Method>);

impl Header for AccessControlAllowMethods {
    type Model = Seq<<Method as ToHeaderValue>::Model>;

    open spec fn model(&self) -> Self::Model {
        models(self.0@)
    }

    open spec fn name_text() -> Seq<u8> {
        "access-control-allow-methods".spec_bytes()
    }

    open spec fn decoded(entries: Seq<Seq<u8>>) -> Result<Option<Self::Model>, ErrorKind> {
        comma_delimited::<Method>(entries)
    }

    open spec fn taken(entries: Seq<Seq<u8>>) -> nat {
        comma_delimited_taken::<Method>(entries)
    }

    open spec fn encoded(m: Self::Model) -> Option<Seq<Seq<u8>>> {
        list_entries(texts::<Method>(m))
    }

    #[inline]
    fn name() -> (n: &'static str) {
        proof {
            reveal_strlit("access-control-allow-methods");
            crate::header::lemma_header_name("access-control-allow-methods");
        }
        "access-control-allow-methods"
    }

    #[inline]
    fn from_values(values: &mut Values) -> (r: Result<Option<AccessControlAllowMethods>, Error>) {
        match parse_comma_delimited(values) {
            Ok(Some(items)) => Ok(Some(AccessControlAllowMethods(items))),
            Ok(None) => Ok(None),
            Err(e) => Err(e),
        }
    }

    #[inline]
    fn to_values(&self, values: &mut ToValues) -> (r: Result<(), Error>) {
        let r = encode_comma_delimited(self.0.as_slice(), values);
        proof {
            lemma_one_entry(old(values).entries(), texts::<Method>(models(self.0@)));
        }
        r
    }
}

/// `Access-Control-Expose-Headers` header: the header names of a response that a script may read.
///
/// The header may be absent, and may be present with no item at all.
#[derive(Clone, Debug, PartialEq)]
pub struct AccessControlExposeHeaders(pub Vec<HeaderName>);

impl Header for AccessControlExposeHeaders {
    type Model = Seq<<HeaderName as ToHeaderValue>::Model>;

    open spec fn model(&self) -> Self::Model {
        models(self.0@)
    }

    open spec fn name_text() -> Seq<u8> {
        "access-control-expose-headers".spec_bytes()
    }

    open spec fn decoded(entries: Seq<Seq<u8>>) -> Result<Option<Self::Model>, ErrorKind> {
        comma_delimited::<HeaderName>(entries)
    }

    open spec fn taken(entries: Seq<Seq<u8>>) -> nat {
        comma_delimited_taken::<HeaderName>(entries)
    }

    open spec fn encoded(m: Self::Model) -> Option<Seq<Seq<u8>>> {
        list_entries(texts::<HeaderName>(m))
    }

    #[inline]
    fn name() -> (n: &'static str) {
        proof {
            reveal_strlit("access-control-expose-headers");
            crate::header::lemma_header_name("access-control-expose-headers");
        }
        "access-control-expose-headers"
    }

    #[inline]
    fn from_values(values: &mut Values) -> (r: Result<Option<AccessControlExposeHeaders>, Error>) {
        match parse_comma_delimited(values) {
            Ok(Some(items)) => Ok(Some(AccessControlExposeHeaders(items))),
            Ok(None) => Ok(None),
            Err(e) => Err(e),
        }
    }

    #[inline]
    fn to_values(&self, values: &mut ToValues) -> (r: Result<(), Error>) {
        let r = encode_comma_delimited(self.0.as_slice(), values);
        proof {
            lemma_one_entry(old(values).entries(), texts::<HeaderName>(models(self.0@)));
        }
        r
    }
}

/// `Access-Control-Request-Headers` header: the header names that the actual
/// request of a preflight will use.
///
/// The header may be absent, and may be present with no item at all.
#[derive(Clone, Debug, PartialEq)]
pub struct AccessControlRequestHeaders(pub Vec<HeaderName>);

impl Header for AccessControlRequestHeaders {
    type Model = Seq<<HeaderName as ToHeaderValue>::Model>;

    open spec fn model(&self) -> Self::Model {
        models(self.0@)
    }

    open spec fn name_text() -> Seq<u8> {
        "access-control-request-headers".spec_bytes()
    }

    open spec fn decoded(entries: Seq<Seq<u8>>) -> Result<Option<Self::Model>, ErrorKind> {
        comma_delimited::<HeaderName>(entries)
    }

    open spec fn taken(entries: Seq<Seq<u8>>) -> nat {
        comma_delimited_taken::<HeaderName>(entries)
    }

    open spec fn encoded(m: Self::Model) -> Option<Seq<Seq<u8>>> {
        list_entries(texts::<HeaderName>(m))
    }

    #[inline]
    fn name() -> (n: &'static str) {
        proof {
            reveal_strlit("access-control-request-headers");
            crate::header::lemma_header_name("access-control-request-headers");
        }
        "access-control-request-headers"
    }

    #[inline]
    fn from_values(values: &mut Values) -> (r: Result<Option<AccessControlRequestHeaders>, Error>) {
        match parse_comma_delimited(values) {
            Ok(Some(items)) => Ok(Some(AccessControlRequestHeaders(items))),
            Ok(None) => Ok(None),
            Err(e) => Err(e),
        }
    }

    #[inline]
    fn to_values(&self, values: &mut ToValues) -> (r: Result<(), Error>) {
        let r = encode_comma_delimited(self.0.as_slice(), values);
        proof {
            lemma_one_entry(old(values).entries(), texts::<HeaderName>(models(self.0@)));
        }
        r
    }
}

/// `Cache-Control` header: the directives for the caches along the way of a message.
///
/// The header may be absent, and may be present with no item at all.
#[derive(Clone, Debug, PartialEq)]
pub struct CacheControl(pub Vec<CacheDirective>);

impl Header for CacheControl {
    type Model = Seq<<CacheDirective as ToHeaderValue>::Model>;

    open spec fn model(&self) -> Self::Model {
        models(self.0@)
    }

    open spec fn name_text() -> Seq<u8> {
        "cache-control".spec_bytes()
    }

    open spec fn decoded(entries: Seq<Seq<u8>>) -> Result<Option<Self::Model>, ErrorKind> {
        comma_delimited::<CacheDirective>(entries)
    }

    open spec fn taken(entries: Seq<Seq<u8>>) -> nat {
        comma_delimited_taken::<CacheDirective>(entries)
    }

    open spec fn encoded(m: Self::Model) -> Option<Seq<Seq<u8>>> {
        list_entries(texts::<CacheDirective>(m))
    }

    #[inline]
    fn name() -> (n: &'static str) {
        proof {
            reveal_strlit("cache-control");
            crate::header::lemma_header_name("cache-control");
        }
        "cache-control"
    }

    #[inline]
    fn from_values(values: &mut Values) -> (r: Result<Option<CacheControl>, Error>) {
        match parse_comma_delimited(values) {
            Ok(Some(items)) => Ok(Some(CacheControl(items))),
            Ok(None) => Ok(None),
            Err(e) => Err(e),
        }
    }

    #[inline]
    fn to_values(&self, values: &mut ToValues) -> (r: Result<(), Error>) {
        let r = encode_comma_delimited(self.0.as_slice(), values);
        proof {
            lemma_one_entry(old(values).entries(), texts::<CacheDirective>(models(self.0@)));
        }
        r
    }
}

/// An `Accept-Encoding` header that was decoded is written, and read back,
/// as it was decoded: the one entry written is the normal form of the
/// entries read, with every coding in its canonical spelling and every
/// weight in its shortest form.
pub proof fn law_accept_encoding_round_trip(entries: Seq<Seq<u8>>)
    ensures
        AcceptEncoding::decoded(entries) matches Ok(Some(items)) ==> AcceptEncoding::encoded(
            items,
        ) matches Some(written) && AcceptEncoding::decoded(written) == Ok::<
            Option<Seq<(Seq<u8>, int)>>,
            ErrorKind,
        >(Some(items)),
{
    match AcceptEncoding::decoded(entries) {
        Ok(Some(items)) => {
            lemma_items_are_parsed::<QualityItem<ContentCoding>>(entries);
            assert forall|i: int| 0 <= i < items.len() implies element_is_faithful::<
                QualityItem<ContentCoding>,
            >(#[trigger] items[i]) by {
                let item = items[i];
                assert(is_parsed::<QualityItem<ContentCoding>>(item));
                let s = choose|s: Seq<u8>|
                    #[trigger] <QualityItem<ContentCoding> as FromHeaderValue>::parsed(s) == Some(
                        item,
                    );
                lemma_weight_bounds(s);
                let inner = match weight(s) {
                    Some((n, q)) => s.take(n as int),
                    None => s,
                };
                assert(canonical_coding(inner) == Some(item.0));
                law_canonical_coding(inner);
                lemma_canonical_is_faithful(item.0);
                lemma_quality_element_is_faithful::<ContentCoding>(item.0, item.1);
            }
            law_list_round_trip::<QualityItem<ContentCoding>>(items);
        },
        _ => {},
    }
}

} // verus!
