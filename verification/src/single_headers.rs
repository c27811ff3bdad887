//! The headers that hold exactly one value.

use vstd::prelude::*;
use vstd::string::StringSliceAdditionalSpecFns;
use http::Method;
use mime::Mime;
use crate::content_range::ContentRangeSpec;
use crate::credentials::Credentials;
use crate::error::{Error, ErrorKind};
use crate::header::Header;
use crate::http_date::HttpDate;
use crate::util::{
    encode_single_value, parse_single_value, single_entry, single_value, single_value_taken,
    ToHeaderValue, ToValues, Values,
};

verus! {

/// `Access-Control-Max-Age` header: the number of seconds for which the
/// answer to a preflight may be kept.
#[derive(Clone, Debug, PartialEq)]
pub struct AccessControlMaxAge(pub u32);

impl Header for AccessControlMaxAge {
    type Model = <u32 as ToHeaderValue>::Model;

    open spec fn model(&self) -> Self::Model {
        self.0.model()
    }

    open spec fn name_text() -> Seq<u8> {
        "access-control-max-age".spec_bytes()
    }

    open spec fn decoded(entries: Seq<Seq<u8>>) -> Result<Option<Self::Model>, ErrorKind> {
        single_value::<u32>(entries)
    }

    open spec fn taken(entries: Seq<Seq<u8>>) -> nat {
        single_value_taken(entries)
    }

    open spec fn encoded(m: Self::Model) -> Option<Seq<Seq<u8>>> {
        single_entry(<u32 as ToHeaderValue>::rendered(m))
    }

    #[inline]
    fn name() -> (n: &'static str) {
        proof {
            reveal_strlit("access-control-max-age");
            crate::header::lemma_header_name("access-control-max-age");
        }
        "access-control-max-age"
    }

    #[inline]
    fn from_values(values: &mut Values) -> (r: Result<Option<AccessControlMaxAge>, Error>) {
        match parse_single_value(values) {
            Ok(Some(value)) => Ok(Some(AccessControlMaxAge(value))),
            Ok(None) => Ok(None),
            Err(e) => Err(e),
        }
    }

    #[inline]
    fn to_values(&self, values: &mut ToValues) -> (r: Result<(), Error>) {
        let r = encode_single_value(&self.0, values);
        proof {
            let t = <u32 as ToHeaderValue>::rendered(self.0.model());
            assert(old(values).entries().push(t) =~= old(values).entries() + seq![t]);
        }
        r
    }
}

/// `Access-Control-Request-Method` header: the method that the actual request
/// of a preflight will use.
#[derive(Clone, Debug, PartialEq)]
pub struct AccessControlRequestMethod(pub Method);

impl Header for AccessControlRequestMethod {
    type Model = <Method as ToHeaderValue>::Model;

    open spec fn model(&self) -> Self::Model {
        self.0.model()
    }

    open spec fn name_text() -> Seq<u8> {
        "access-control-request-method".spec_bytes()
    }

    open spec fn decoded(entries: Seq<Seq<u8>>) -> Result<Option<Self::Model>, ErrorKind> {
        single_value::<Method>(entries)
    }

    open spec fn taken(entries: Seq<Seq<u8>>) -> nat {
        single_value_taken(entries)
    }

    open spec fn encoded(m: Self::Model) -> Option<Seq<Seq<u8>>> {
        single_entry(<Method as ToHeaderValue>::rendered(m))
    }

    #[inline]
    fn name() -> (n: &'static str) {
        proof {
            reveal_strlit("access-control-request-method");
            crate::header::lemma_header_name("access-control-request-method");
        }
        "access-control-request-method"
    }

    #[inline]
    fn from_values(values: &mut Values) -> (r: Result<Option<AccessControlRequestMethod>, Error>) {
        match parse_single_value(values) {
            Ok(Some(value)) => Ok(Some(AccessControlRequestMethod(value))),
            Ok(None) => Ok(None),
            Err(e) => Err(e),
        }
    }

    #[inline]
    fn to_values(&self, values: &mut ToValues) -> (r: Result<(), Error>) {
        let r = encode_single_value(&self.0, values);
        proof {
            let t = <Method as ToHeaderValue>::rendered(self.0.model());
            assert(old(values).entries().push(t) =~= old(values).entries() + seq![t]);
        }
        r
    }
}

/// `Authorization` header: the credentials by which a user agent makes itself
/// known to an origin server.
#[derive(Clone, Debug, PartialEq)]
pub struct Authorization(pub Credentials);

impl Header for Authorization {
    type Model = <Credentials as ToHeaderValue>::Model;

    open spec fn model(&self) -> Self::Model {
        self.0.model()
    }

    open spec fn name_text() -> Seq<u8> {
        "authorization".spec_bytes()
    }

    open spec fn decoded(entries: Seq<Seq<u8>>) -> Result<Option<Self::Model>, ErrorKind> {
        single_value::<Credentials>(entries)
    }

    open spec fn taken(entries: Seq<Seq<u8>>) -> nat {
        single_value_taken(entries)
    }

    open spec fn encoded(m: Self::Model) -> Option<Seq<Seq<u8>>> {
        single_entry(<Credentials as ToHeaderValue>::rendered(m))
    }

    #[inline]
    fn name() -> (n: &'static str) {
        proof {
            reveal_strlit("authorization");
            crate::header::lemma_header_name("authorization");
        }
        "authorization"
    }

    #[inline]
    fn from_values(values: &mut Values) -> (r: Result<Option<Authorization>, Error>) {
        match parse_single_value(values) {
            Ok(Some(value)) => Ok(Some(Authorization(value))),
            Ok(None) => Ok(None),
            Err(e) => Err(e),
        }
    }

    #[inline]
    fn to_values(&self, values: &mut ToValues) -> (r: Result<(), Error>) {
        let r = encode_single_value(&self.0, values);
        proof {
            let t = <Credentials as ToHeaderValue>::rendered(self.0.model());
            assert(old(values).entries().push(t) =~= old(values).entries() + seq![t]);
        }
        r
    }
}

/// `Content-Location` header: a reference to the resource that the payload of
/// the message represents.
#[derive(Clone, Debug, PartialEq)]
pub struct ContentLocation(pub String);

impl Header for ContentLocation {
    type Model = <String as ToHeaderValue>::Model;

    open spec fn model(&self) -> Self::Model {
        self.0.model()
    }

    open spec fn name_text() -> Seq<u8> {
        "content-location".spec_bytes()
    }

    open spec fn decoded(entries: Seq<Seq<u8>>) -> Result<Option<Self::Model>, ErrorKind> {
        single_value::<String>(entries)
    }

    open spec fn taken(entries: Seq<Seq<u8>>) -> nat {
        single_value_taken(entries)
    }

    open spec fn encoded(m: Self::Model) -> Option<Seq<Seq<u8>>> {
        single_entry(<String as ToHeaderValue>::rendered(m))
    }

    #[inline]
    fn name() -> (n: &'static str) {
        proof {
            reveal_strlit("content-location");
            crate::header::lemma_header_name("content-location");
        }
        "content-location"
    }

    #[inline]
    fn from_values(values: &mut Values) -> (r: Result<Option<ContentLocation>, Error>) {
        match parse_single_value(values) {
            Ok(Some(value)) => Ok(Some(ContentLocation(value))),
            Ok(None) => Ok(None),
            Err(e) => Err(e),
        }
    }

    #[inline]
    fn to_values(&self, values: &mut ToValues) -> (r: Result<(), Error>) {
        let r = encode_single_value(&self.0, values);
        proof {
            let t = <String as ToHeaderValue>::rendered(self.0.model());
            assert(old(values).entries().push(t) =~= old(values).entries() + seq![t]);
        }
        r
    }
}

/// `Content-Range` header: the place of a partial representation within the whole.
#[derive(Clone, Debug, PartialEq)]
pub struct ContentRange(pub ContentRangeSpec);

impl Header for ContentRange {
    type Model = <ContentRangeSpec as ToHeaderValue>::Model;

    open spec fn model(&self) -> Self::Model {
        self.0.model()
    }

    open spec fn name_text() -> Seq<u8> {
        "content-range".spec_bytes()
    }

    open spec fn decoded(entries: Seq<Seq<u8>>) -> Result<Option<Self::Model>, ErrorKind> {
        single_value::<ContentRangeSpec>(entries)
    }

    open spec fn taken(entries: Seq<Seq<u8>>) -> nat {
        single_value_taken(entries)
    }

    open spec fn encoded(m: Self::Model) -> Option<Seq<Seq<u8>>> {
        single_entry(<ContentRangeSpec as ToHeaderValue>::rendered(m))
    }

    #[inline]
    fn name() -> (n: &'static str) {
        proof {
            reveal_strlit("content-range");
            crate::header::lemma_header_name("content-range");
        }
        "content-range"
    }

    #[inline]
    fn from_values(values: &mut Values) -> (r: Result<Option<ContentRange>, Error>) {
        match parse_single_value(values) {
            Ok(Some(value)) => Ok(Some(ContentRange(value))),
            Ok(None) => Ok(None),
            Err(e) => Err(e),
        }
    }

    #[inline]
    fn to_values(&self, values: &mut ToValues) -> (r: Result<(), Error>) {
        let r = encode_single_value(&self.0, values);
        proof {
            let t = <ContentRangeSpec as ToHeaderValue>::rendered(self.0.model());
            assert(old(values).entries().push(t) =~= old(values).entries() + seq![t]);
        }
        r
    }
}

/// `Content-Type` header: the media type of the representation.
#[derive(Clone, Debug, PartialEq)]
pub struct ContentType(pub Mime);

impl Header for ContentType {
    type Model = <Mime as ToHeaderValue>::Model;

    open spec fn model(&self) -> Self::Model {
        self.0.model()
    }

    open spec fn name_text() -> Seq<u8> {
        "content-type".spec_bytes()
    }

    open spec fn decoded(entries: Seq<Seq<u8>>) -> Result<Option<Self::Model>, ErrorKind> {
        single_value::<Mime>(entries)
    }

    open spec fn taken(entries: Seq<Seq<u8>>) -> nat {
        single_value_taken(entries)
    }

    open spec fn encoded(m: Self::Model) -> Option<Seq<Seq<u8>>> {
        single_entry(<Mime as ToHeaderValue>::rendered(m))
    }

    #[inline]
    fn name() -> (n: &'static str) {
        proof {
            reveal_strlit("content-type");
            crate::header::lemma_header_name("content-type");
        }
        "content-type"
    }

    #[inline]
    fn from_values(values: &mut Values) -> (r: Result<Option<ContentType>, Error>) {
        match parse_single_value(values) {
            Ok(Some(value)) => Ok(Some(ContentType(value))),
            Ok(None) => Ok(None),
            Err(e) => Err(e),
        }
    }

    #[inline]
    fn to_values(&self, values: &mut ToValues) -> (r: Result<(), Error>) {
        let r = encode_single_value(&self.0, values);
        proof {
            let t = <Mime as ToHeaderValue>::rendered(self.0.model());
            assert(old(values).entries().push(t) =~= old(values).entries() + seq![t]);
        }
        r
    }
}

/// `Expires` header: the date after which a response counts as stale.
#[derive(Clone, Debug, PartialEq)]
pub struct Expires(pub HttpDate);

impl Header for Expires {
    type Model = <HttpDate as ToHeaderValue>::Model;

    open spec fn model(&self) -> Self::Model {
        self.0.model()
    }

    open spec fn name_text() -> Seq<u8> {
        "expires".spec_bytes()
    }

    open spec fn decoded(entries: Seq<Seq<u8>>) -> Result<Option<Self::Model>, ErrorKind> {
        single_value::<HttpDate>(entries)
    }

    open spec fn taken(entries: Seq<Seq<u8>>) -> nat {
        single_value_taken(entries)
    }

    open spec fn encoded(m: Self::Model) -> Option<Seq<Seq<u8>>> {
        single_entry(<HttpDate as ToHeaderValue>::rendered(m))
    }

    #[inline]
    fn name() -> (n: &'static str) {
        proof {
            reveal_strlit("expires");
            crate::header::lemma_header_name("expires");
        }
        "expires"
    }

    #[inline]
    fn from_values(values: &mut Values) -> (r: Result<Option<Expires>, Error>) {
        match parse_single_value(values) {
            Ok(Some(value)) => Ok(Some(Expires(value))),
            Ok(None) => Ok(None),
            Err(e) => Err(e),
        }
    }

    #[inline]
    fn to_values(&self, values: &mut ToValues) -> (r: Result<(), Error>) {
        let r = encode_single_value(&self.0, values);
        proof {
            let t = <HttpDate as ToHeaderValue>::rendered(self.0.model());
            assert(old(values).entries().push(t) =~= old(values).entries() + seq![t]);
        }
        r
    }
}

/// `If-Modified-Since` header: the date since which the representation must
/// have changed for the request to be served anew.
#[derive(Clone, Debug, PartialEq)]
pub struct IfModifiedSince(pub HttpDate);

impl Header for IfModifiedSince {
    type Model = <HttpDate as ToHeaderValue>::Model;

    open spec fn model(&self) -> Self::Model {
        self.0.model()
    }

    open spec fn name_text() -> Seq<u8> {
        "if-modified-since".spec_bytes()
    }

    open spec fn decoded(entries: Seq<Seq<u8>>) -> Result<Option<Self::Model>, ErrorKind> {
        single_value::<HttpDate>(entries)
    }

    open spec fn taken(entries: Seq<Seq<u8>>) -> nat {
        single_value_taken(entries)
    }

    open spec fn encoded(m: Self::Model) -> Option<Seq<Seq<u8>>> {
        single_entry(<HttpDate as ToHeaderValue>::rendered(m))
    }

    #[inline]
    fn name() -> (n: &'static str) {
        proof {
            reveal_strlit("if-modified-since");
            crate::header::lemma_header_name("if-modified-since");
        }
        "if-modified-since"
    }

    #[inline]
    fn from_values(values: &mut Values) -> (r: Result<Option<IfModifiedSince>, Error>) {
        match parse_single_value(values) {
            Ok(Some(value)) => Ok(Some(IfModifiedSince(value))),
            Ok(None) => Ok(None),
            Err(e) => Err(e),
        }
    }

    #[inline]
    fn to_values(&self, values: &mut ToValues) -> (r: Result<(), Error>) {
        let r = encode_single_value(&self.0, values);
        proof {
            let t = <HttpDate as ToHeaderValue>::rendered(self.0.model());
            assert(old(values).entries().push(t) =~= old(values).entries() + seq![t]);
        }
        r
    }
}

/// `Location` header: a reference to the resource that a response points to.
#[derive(Clone, Debug, PartialEq)]
pub struct Location(pub String);

impl Header for Location {
    type Model = <String as ToHeaderValue>::Model;

    open spec fn model(&self) -> Self::Model {
        self.0.model()
    }

    open spec fn name_text() -> Seq<u8> {
        "location".spec_bytes()
    }

    open spec fn decoded(entries: Seq<Seq<u8>>) -> Result<Option<Self::Model>, ErrorKind> {
        single_value::<String>(entries)
    }

    open spec fn taken(entries: Seq<Seq<u8>>) -> nat {
        single_value_taken(entries)
    }

    open spec fn encoded(m: Self::Model) -> Option<Seq<Seq<u8>>> {
        single_entry(<String as ToHeaderValue>::rendered(m))
    }

    #[inline]
    fn name() -> (n: &'static str) {
        proof {
            reveal_strlit("location");
            crate::header::lemma_header_name("location");
        }
        "location"
    }

    #[inline]
    fn from_values(values: &mut Values) -> (r: Result<Option<Location>, Error>) {
        match parse_single_value(values) {
            Ok(Some(value)) => Ok(Some(Location(value))),
            Ok(None) => Ok(None),
            Err(e) => Err(e),
        }
    }

    #[inline]
    fn to_values(&self, values: &mut ToValues) -> (r: Result<(), Error>) {
        let r = encode_single_value(&self.0, values);
        proof {
            let t = <String as ToHeaderValue>::rendered(self.0.model());
            assert(old(values).entries().push(t) =~= old(values).entries() + seq![t]);
        }
        r
    }
}

/// `Proxy-Authorization` header: the credentials by which a user agent makes
/// itself known to a proxy.
#[derive(Clone, Debug, PartialEq)]
pub struct ProxyAuthorization(pub Credentials);

impl Header for ProxyAuthorization {
    type Model = <Credentials as ToHeaderValue>::Model;

    open spec fn model(&self) -> Self::Model {
        self.0.model()
    }

    open spec fn name_text() -> Seq<u8> {
        "proxy-authorization".spec_bytes()
    }

    open spec fn decoded(entries: Seq<Seq<u8>>) -> Result<Option<Self::Model>, ErrorKind> {
        single_value::<Credentials>(entries)
    }

    open spec fn taken(entries: Seq<Seq<u8>>) -> nat {
        single_value_taken(entries)
    }

    open spec fn encoded(m: Self::Model) -> Option<Seq<Seq<u8>>> {
        single_entry(<Credentials as ToHeaderValue>::rendered(m))
    }

    #[inline]
    fn name() -> (n: &'static str) {
        proof {
            reveal_strlit("proxy-authorization");
            crate::header::lemma_header_name("proxy-authorization");
        }
        "proxy-authorization"
    }

    #[inline]
    fn from_values(values: &mut Values) -> (r: Result<Option<ProxyAuthorization>, Error>) {
        match parse_single_value(values) {
            Ok(Some(value)) => Ok(Some(ProxyAuthorization(value))),
            Ok(None) => Ok(None),
            Err(e) => Err(e),
        }
    }

    #[inline]
    fn to_values(&self, values: &mut ToValues) -> (r: Result<(), Error>) {
        let r = encode_single_value(&self.0, values);
        proof {
            let t = <Credentials as ToHeaderValue>::rendered(self.0.model());
            assert(old(values).entries().push(t) =~= old(values).entries() + seq![t]);
        }
        r
    }
}

/// `Referer` header: a reference to the resource from which the target of the request was obtained.
#[derive(Clone, Debug, PartialEq)]
pub struct Referer(pub String);

impl Header for Referer {
    type Model = <String as ToHeaderValue>::Model;

    open spec fn model(&self) -> Self::Model {
        self.0.model()
    }

    open spec fn name_text() -> Seq<u8> {
        "referer".spec_bytes()
    }

    open spec fn decoded(entries: Seq<Seq<u8>>) -> Result<Option<Self::Model>, ErrorKind> {
        single_value::<String>(entries)
    }

    open spec fn taken(entries: Seq<Seq<u8>>) -> nat {
        single_value_taken(entries)
    }

    open spec fn encoded(m: Self::Model) -> Option<Seq<Seq<u8>>> {
        single_entry(<String as ToHeaderValue>::rendered(m))
    }

    #[inline]
    fn name() -> (n: &'static str) {
        proof {
            reveal_strlit("referer");
            crate::header::lemma_header_name("referer");
        }
        "referer"
    }

    #[inline]
    fn from_values(values: &mut Values) -> (r: Result<Option<Referer>, Error>) {
        match parse_single_value(values) {
            Ok(Some(value)) => Ok(Some(Referer(value))),
            Ok(None) => Ok(None),
            Err(e) => Err(e),
        }
    }

    #[inline]
    fn to_values(&self, values: &mut ToValues) -> (r: Result<(), Error>) {
        let r = encode_single_value(&self.0, values);
        proof {
            let t = <String as ToHeaderValue>::rendered(self.0.model());
            assert(old(values).entries().push(t) =~= old(values).entries() + seq![t]);
        }
        r
    }
}

/// `User-Agent` header: what is known of the user agent that makes the
/// request. The value is kept whole.
#[derive(Clone, Debug, PartialEq)]
pub struct UserAgent(pub String);

impl Header for UserAgent {
    type Model = <String as ToHeaderValue>::Model;

    open spec fn model(&self) -> Self::Model {
        self.0.model()
    }

    open spec fn name_text() -> Seq<u8> {
        "user-agent".spec_bytes()
    }

    open spec fn decoded(entries: Seq<Seq<u8>>) -> Result<Option<Self::Model>, ErrorKind> {
        single_value::<String>(entries)
    }

    open spec fn taken(entries: Seq<Seq<u8>>) -> nat {
        single_value_taken(entries)
    }

    open spec fn encoded(m: Self::Model) -> Option<Seq<Seq<u8>>> {
        single_entry(<String as ToHeaderValue>::rendered(m))
    }

    #[inline]
    fn name() -> (n: &'static str) {
        proof {
            reveal_strlit("user-agent");
            crate::header::lemma_header_name("user-agent");
        }
        "user-agent"
    }

    #[inline]
    fn from_values(values: &mut Values) -> (r: Result<Option<UserAgent>, Error>) {
        match parse_single_value(values) {
            Ok(Some(value)) => Ok(Some(UserAgent(value))),
            Ok(None) => Ok(None),
            Err(e) => Err(e),
        }
    }

    #[inline]
    fn to_values(&self, values: &mut ToValues) -> (r: Result<(), Error>) {
        let r = encode_single_value(&self.0, values);
        proof {
            let t = <String as ToHeaderValue>::rendered(self.0.model());
            assert(old(values).entries().push(t) =~= old(values).entries() + seq![t]);
        }
        r
    }
}

} // verus!
