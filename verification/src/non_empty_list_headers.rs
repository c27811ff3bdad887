//! The headers that are a comma-delimited list of one item or more.

use vstd::prelude::*;
use vstd::string::StringSliceAdditionalSpecFns;
use language_tags::LanguageTag;
use crate::charset::{charset_text, law_canonical_charset, Charset};
use crate::content_coding::ContentCoding;
use crate::error::{Error, ErrorKind};
use crate::header::Header;
use crate::laws::{element_is_faithful, is_parsed, law_list_round_trip, lemma_items_are_parsed};
use crate::quality::{
    lemma_quality_element_is_faithful, lemma_token_is_faithful, lemma_weight_bounds, weight,
    QualityItem,
};
use crate::range_unit::RangeUnit;
use crate::util::{
    comma_delimited_taken, encode_comma_delimited, lemma_one_entry, list_entries, models,
    one_or_more, parse_one_or_more, texts, FromHeaderValue, ToHeaderValue, ToValues, Values,
};

verus! {

/// `Accept-Charset` header: the character sets that a client accepts in a
/// response, each with its weight.
///
/// The header holds one item or more: entries without any item are too few
/// values, and a value without items cannot be written.
#[derive(Clone, Debug, PartialEq)]
pub struct AcceptCharset(Vec<QualityItem<Charset>>);

impl AcceptCharset {
    /// The items of this header, in order.
    pub closed spec fn view(&self) -> Seq<QualityItem<Charset>> {
        self.0@
    }

    /// A header of the given items, of which there must be one at least.
    #[inline]
    pub fn new(values: Vec<QualityItem<Charset>>) -> (r: Result<AcceptCharset, Error>)
        ensures
            match r {
                Ok(v) => values@.len() > 0 && v@ == values@,
                Err(e) => values@.len() == 0 && e == Error(ErrorKind::TooFewValues),
            },
    {
        if values.len() == 0 {
            Err(Error::too_few_values())
        } else {
            Ok(AcceptCharset(values))
        }
    }

    /// A header of one item.
    #[inline]
    pub fn from_item(value: QualityItem<Charset>) -> (r: AcceptCharset)
        ensures
            r@ == seq![value],
    {
        let mut values: Vec<QualityItem<Charset>> = Vec::new();
        values.push(value);
        assert(values@ =~= seq![value]);
        AcceptCharset(values)
    }

    /// The items of this header, in order.
    #[inline]
    pub fn as_slice(&self) -> (r: &[QualityItem<Charset>])
        ensures
            r@ == self@,
    {
        self.0.as_slice()
    }
}

impl Header for AcceptCharset {
    type Model = Seq<<QualityItem<Charset> as ToHeaderValue>::Model>;

    open spec fn model(&self) -> Self::Model {
        models(self@)
    }

    open spec fn name_text() -> Seq<u8> {
        "accept-charset".spec_bytes()
    }

    open spec fn decoded(entries: Seq<Seq<u8>>) -> Result<Option<Self::Model>, ErrorKind> {
        one_or_more::<QualityItem<Charset>>(entries)
    }

    open spec fn taken(entries: Seq<Seq<u8>>) -> nat {
        comma_delimited_taken::<QualityItem<Charset>>(entries)
    }

    open spec fn encoded(m: Self::Model) -> Option<Seq<Seq<u8>>> {
        if m.len() == 0 {
            None
        } else {
            list_entries(texts::<QualityItem<Charset>>(m))
        }
    }

    #[inline]
    fn name() -> (n: &'static str) {
        proof {
            reveal_strlit("accept-charset");
            crate::header::lemma_header_name("accept-charset");
        }
        "accept-charset"
    }

    #[inline]
    fn from_values(values: &mut Values) -> (r: Result<Option<AcceptCharset>, Error>) {
        match parse_one_or_more(values) {
            Ok(Some(items)) => Ok(Some(AcceptCharset(items))),
            Ok(None) => Ok(None),
            Err(e) => Err(e),
        }
    }

    #[inline]
    fn to_values(&self, values: &mut ToValues) -> (r: Result<(), Error>) {
        if self.0.len() == 0 {
            return Err(Error::unencodable());
        }
        let r = encode_comma_delimited(self.0.as_slice(), values);
        proof {
            lemma_one_entry(old(values).entries(), texts::<QualityItem<Charset>>(models(self.0@)));
        }
        r
    }
}

/// `Accept-Ranges` header: the range units in which a server takes range requests.
///
/// The header holds one item or more: entries without any item are too few
/// values, and a value without items cannot be written.
#[derive(Clone, Debug, PartialEq)]
pub struct AcceptRanges(Vec<RangeUnit>);

impl AcceptRanges {
    /// The items of this header, in order.
    pub closed spec fn view(&self) -> Seq<RangeUnit> {
        self.0@
    }

    /// A header of the given items, of which there must be one at least.
    #[inline]
    pub fn new(values: Vec<RangeUnit>) -> (r: Result<AcceptRanges, Error>)
        ensures
            match r {
                Ok(v) => values@.len() > 0 && v@ == values@,
                Err(e) => values@.len() == 0 && e == Error(ErrorKind::TooFewValues),
            },
    {
        if values.len() == 0 {
            Err(Error::too_few_values())
        } else {
            Ok(AcceptRanges(values))
        }
    }

    /// A header of one item.
    #[inline]
    pub fn from_item(value: RangeUnit) -> (r: AcceptRanges)
        ensures
            r@ == seq![value],
    {
        let mut values: Vec<RangeUnit> = Vec::new();
        values.push(value);
        assert(values@ =~= seq![value]);
        AcceptRanges(values)
    }

    /// The items of this header, in order.
    #[inline]
    pub fn as_slice(&self) -> (r: &[RangeUnit])
        ensures
            r@ == self@,
    {
        self.0.as_slice()
    }
}

impl Header for AcceptRanges {
    type Model = Seq<<RangeUnit as ToHeaderValue>::Model>;

    open spec fn model(&self) -> Self::Model {
        models(self@)
    }

    open spec fn name_text() -> Seq<u8> {
        "accept-ranges".spec_bytes()
    }

    open spec fn decoded(entries: Seq<Seq<u8>>) -> Result<Option<Self::Model>, ErrorKind> {
        one_or_more::<RangeUnit>(entries)
    }

    open spec fn taken(entries: Seq<Seq<u8>>) -> nat {
        comma_delimited_taken::<RangeUnit>(entries)
    }

    open spec fn encoded(m: Self::Model) -> Option<Seq<Seq<u8>>> {
        if m.len() == 0 {
            None
        } else {
            list_entries(texts::<RangeUnit>(m))
        }
    }

    #[inline]
    fn name() -> (n: &'static str) {
        proof {
            reveal_strlit("accept-ranges");
            crate::header::lemma_header_name("accept-ranges");
        }
        "accept-ranges"
    }

    #[inline]
    fn from_values(values: &mut Values) -> (r: Result<Option<AcceptRanges>, Error>) {
        match parse_one_or_more(values) {
            Ok(Some(items)) => Ok(Some(AcceptRanges(items))),
            Ok(None) => Ok(None),
            Err(e) => Err(e),
        }
    }

    #[inline]
    fn to_values(&self, values: &mut ToValues) -> (r: Result<(), Error>) {
        if self.0.len() == 0 {
            return Err(Error::unencodable());
        }
        let r = encode_comma_delimited(self.0.as_slice(), values);
        proof {
            lemma_one_entry(old(values).entries(), texts::<RangeUnit>(models(self.0@)));
        }
        r
    }
}

/// `Content-Encoding` header: the content codings that were applied to the
/// representation, in the order in which they were applied.
///
/// The header holds one item or more: entries without any item are too few
/// values, and a value without items cannot be written.
#[derive(Clone, Debug, PartialEq)]
pub struct ContentEncoding(Vec<ContentCoding>);

impl ContentEncoding {
    /// The items of this header, in order.
    pub closed spec fn view(&self) -> Seq<ContentCoding> {
        self.0@
    }

    /// A header of the given items, of which there must be one at least.
    #[inline]
    pub fn new(values: Vec<ContentCoding>) -> (r: Result<ContentEncoding, Error>)
        ensures
            match r {
                Ok(v) => values@.len() > 0 && v@ == values@,
                Err(e) => values@.len() == 0 && e == Error(ErrorKind::TooFewValues),
            },
    {
        if values.len() == 0 {
            Err(Error::too_few_values())
        } else {
            Ok(ContentEncoding(values))
        }
    }

    /// A header of one item.
    #[inline]
    pub fn from_item(value: ContentCoding) -> (r: ContentEncoding)
        ensures
            r@ == seq![value],
    {
        let mut values: Vec<ContentCoding> = Vec::new();
        values.push(value);
        assert(values@ =~= seq![value]);
        ContentEncoding(values)
    }

    /// The items of this header, in order.
    #[inline]
    pub fn as_slice(&self) -> (r: &[ContentCoding])
        ensures
            r@ == self@,
    {
        self.0.as_slice()
    }
}

impl Header for ContentEncoding {
    type Model = Seq<<ContentCoding as ToHeaderValue>::Model>;

    open spec fn model(&self) -> Self::Model {
        models(self@)
    }

    open spec fn name_text() -> Seq<u8> {
        "content-encoding".spec_bytes()
    }

    open spec fn decoded(entries: Seq<Seq<u8>>) -> Result<Option<Self::Model>, ErrorKind> {
        one_or_more::<ContentCoding>(entries)
    }

    open spec fn taken(entries: Seq<Seq<u8>>) -> nat {
        comma_delimited_taken::<ContentCoding>(entries)
    }

    open spec fn encoded(m: Self::Model) -> Option<Seq<Seq<u8>>> {
        if m.len() == 0 {
            None
        } else {
            list_entries(texts::<ContentCoding>(m))
        }
    }

    #[inline]
    fn name() -> (n: &'static str) {
        proof {
            reveal_strlit("content-encoding");
            crate::header::lemma_header_name("content-encoding");
        }
        "content-encoding"
    }

    #[inline]
    fn from_values(values: &mut Values) -> (r: Result<Option<ContentEncoding>, Error>) {
        match parse_one_or_more(values) {
            Ok(Some(items)) => Ok(Some(ContentEncoding(items))),
            Ok(None) => Ok(None),
            Err(e) => Err(e),
        }
    }

    #[inline]
    fn to_values(&self, values: &mut ToValues) -> (r: Result<(), Error>) {
        if self.0.len() == 0 {
            return Err(Error::unencodable());
        }
        let r = encode_comma_delimited(self.0.as_slice(), values);
        proof {
            lemma_one_entry(old(values).entries(), texts::<ContentCoding>(models(self.0@)));
        }
        r
    }
}

/// `Content-Language` header: the natural languages of the audience that the
/// representation is meant for.
///
/// The header holds one item or more: entries without any item are too few
/// values, and a value without items cannot be written.
#[derive(Clone, Debug, PartialEq)]
pub struct ContentLanguage(Vec<QualityItem<LanguageTag>>);

impl ContentLanguage {
    /// The items of this header, in order.
    pub closed spec fn view(&self) -> Seq<QualityItem<LanguageTag>> {
        self.0@
    }

    /// A header of the given items, of which there must be one at least.
    #[inline]
    pub fn new(values: Vec<QualityItem<LanguageTag>>) -> (r: Result<ContentLanguage, Error>)
        ensures
            match r {
                Ok(v) => values@.len() > 0 && v@ == values@,
                Err(e) => values@.len() == 0 && e == Error(ErrorKind::TooFewValues),
            },
    {
        if values.len() == 0 {
            Err(Error::too_few_values())
        } else {
            Ok(ContentLanguage(values))
        }
    }

    /// A header of one item.
    #[inline]
    pub fn from_item(value: QualityItem<LanguageTag>) -> (r: ContentLanguage)
        ensures
            r@ == seq![value],
    {
        let mut values: Vec<QualityItem<LanguageTag>> = Vec::new();
        values.push(value);
        assert(values@ =~= seq![value]);
        ContentLanguage(values)
    }

    /// The items of this header, in order.
    #[inline]
    pub fn as_slice(&self) -> (r: &[QualityItem<LanguageTag>])
        ensures
            r@ == self@,
    {
        self.0.as_slice()
    }
}

impl Header for ContentLanguage {
    type Model = Seq<<QualityItem<LanguageTag> as ToHeaderValue>::Model>;

    open spec fn model(&self) -> Self::Model {
        models(self@)
    }

    open spec fn name_text() -> Seq<u8> {
        "content-language".spec_bytes()
    }

    open spec fn decoded(entries: Seq<Seq<u8>>) -> Result<Option<Self::Model>, ErrorKind> {
        one_or_more::<QualityItem<LanguageTag>>(entries)
    }

    open spec fn taken(entries: Seq<Seq<u8>>) -> nat {
        comma_delimited_taken::<QualityItem<LanguageTag>>(entries)
    }

    open spec fn encoded(m: Self::Model) -> Option<Seq<Seq<u8>>> {
        if m.len() == 0 {
            None
        } else {
            list_entries(texts::<QualityItem<LanguageTag>>(m))
        }
    }

    #[inline]
    fn name() -> (n: &'static str) {
        proof {
            reveal_strlit("content-language");
            crate::header::lemma_header_name("content-language");
        }
        "content-language"
    }

    #[inline]
    fn from_values(values: &mut Values) -> (r: Result<Option<ContentLanguage>, Error>) {
        match parse_one_or_more(values) {
            Ok(Some(items)) => Ok(Some(ContentLanguage(items))),
            Ok(None) => Ok(None),
            Err(e) => Err(e),
        }
    }

    #[inline]
    fn to_values(&self, values: &mut ToValues) -> (r: Result<(), Error>) {
        if self.0.len() == 0 {
            return Err(Error::unencodable());
        }
        let r = encode_comma_delimited(self.0.as_slice(), values);
        proof {
            lemma_one_entry(
                old(values).entries(),
                texts::<QualityItem<LanguageTag>>(models(self.0@)),
            );
        }
        r
    }
}

/// An `Accept-Charset` header that was decoded is written, and read back,
/// as it was decoded: the one entry written is the normal form of the
/// entries read.
pub proof fn law_accept_charset_round_trip(entries: Seq<Seq<u8>>)
    ensures
        AcceptCharset::decoded(entries) matches Ok(Some(items)) ==> AcceptCharset::encoded(
            items,
        ) matches Some(written) && AcceptCharset::decoded(written) == Ok::<
            Option<Seq<(Seq<u8>, int)>>,
            ErrorKind,
        >(Some(items)),
{
    match AcceptCharset::decoded(entries) {
        Ok(Some(items)) => {
            lemma_items_are_parsed::<QualityItem<Charset>>(entries);
            assert forall|i: int| 0 <= i < items.len() implies element_is_faithful::<
                QualityItem<Charset>,
            >(#[trigger] items[i]) by {
                let item = items[i];
                assert(is_parsed::<QualityItem<Charset>>(item));
                let s = choose|s: Seq<u8>|
                    #[trigger] <QualityItem<Charset> as FromHeaderValue>::parsed(s) == Some(item);
                lemma_weight_bounds(s);
                let inner = match weight(s) {
                    Some((n, q)) => s.take(n as int),
                    None => s,
                };
                assert(charset_text(inner) == Some(item.0));
                law_canonical_charset(inner);
                lemma_token_is_faithful::<Charset>(item.0);
                lemma_quality_element_is_faithful::<Charset>(item.0, item.1);
            }
            law_list_round_trip::<QualityItem<Charset>>(items);
        },
        _ => {},
    }
}

} // verus!
