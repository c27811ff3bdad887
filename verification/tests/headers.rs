use std::fmt::Debug;

use http::header::{HeaderMap, HeaderName, HeaderValue};
use http::Method;
use mime::Mime;
use typed_headers::header_map::map_key;
use typed_headers::{
    Accept, AcceptCharset, AcceptEncoding, AcceptLanguage, AcceptRanges,
    AccessControlAllowCredentials, AccessControlAllowHeaders, AccessControlAllowMethods,
    AccessControlAllowOrigin, AccessControlMaxAge, AccessControlRequestMethod, Authorization,
    CacheControl, CacheDirective, Charset, ContentCoding, ContentEncoding, ContentLength,
    ContentLocation, ContentRange, ContentRangeSpec, ContentType, Cookie, Credentials, Error,
    ErrorKind, Expires, Header, HeaderMapExt, Host, HttpDate, Origin, Pragma, ProxyAuthorization,
    AccessControlExposeHeaders, AccessControlRequestHeaders, ContentLanguage, IfModifiedSince,
    Location, Quality, QualityItem, Range, RangeUnit, Referer, ReferrerPolicy, RetryAfter,
    SetCookie, StrictTransportSecurity, Token68, UserAgent, Vary,
};

fn name_of<H: Header>() -> HeaderName {
    HeaderName::from_bytes(H::name().as_bytes()).unwrap()
}

fn map_of<H: Header>(values: &[&[u8]]) -> HeaderMap {
    let mut map = HeaderMap::new();
    for value in values {
        map.append(name_of::<H>(), HeaderValue::from_bytes(value).unwrap());
    }
    map
}

fn get<H: Header>(values: &[&str]) -> Result<Option<H>, Error> {
    let raw: Vec<&[u8]> = values.iter().map(|v| v.as_bytes()).collect();
    map_of::<H>(&raw).typed_get::<H>()
}

fn test_decode<H>(values: &[&str], expected: &H)
where
    H: Header + PartialEq + Debug,
{
    let header = get::<H>(values).unwrap().unwrap();
    assert_eq!(&header, expected);
}

fn test_encode<H>(header: &H, expected: &[&str])
where
    H: Header,
{
    let mut map = HeaderMap::new();
    map.typed_insert(header).unwrap();

    let values = map.get_all(name_of::<H>()).iter().collect::<Vec<_>>();
    assert_eq!(values.len(), expected.len());
    for (value, expected) in values.iter().zip(expected) {
        assert_eq!(value, expected);
    }
}

fn test_round_trip<H>(header: &H, expected: &[&str])
where
    H: Header + PartialEq + Debug,
{
    test_encode(header, expected);

    let mut map = HeaderMap::new();
    map.typed_insert(header).unwrap();
    let actual = map.typed_get::<H>().unwrap().unwrap();
    assert_eq!(header, &actual);
}

fn kind<H: Debug>(r: Result<Option<H>, Error>) -> ErrorKind {
    r.unwrap_err().0
}

#[test]
fn accept_rfc1() {
    test_round_trip(
        &Accept(vec![
            QualityItem::new("audio/*".parse().unwrap(), Quality::from_u16(200)),
            QualityItem::new("audio/basic".parse().unwrap(), Quality::from_u16(1000)),
        ]),
        &["audio/*; q=0.2, audio/basic"],
    );
}

#[test]
fn accept_rfc2() {
    test_round_trip(
        &Accept(vec![
            QualityItem::new("text/plain".parse().unwrap(), Quality::from_u16(500)),
            QualityItem::new("text/html".parse().unwrap(), Quality::from_u16(1000)),
            QualityItem::new("text/x-dvi".parse().unwrap(), Quality::from_u16(800)),
            QualityItem::new("text/x-c".parse().unwrap(), Quality::from_u16(1000)),
        ]),
        &["text/plain; q=0.5, text/html, text/x-dvi; q=0.8, text/x-c"],
    );
}

#[test]
fn rfc() {
    test_round_trip(
        &AcceptCharset::new(vec![
            QualityItem::new(Charset::iso_8859_5(), Quality::from_u16(1000)),
            QualityItem::new(Charset::new("unicode-1-1").unwrap(), Quality::from_u16(800)),
        ])
        .unwrap(),
        &["iso-8859-5, unicode-1-1; q=0.8"],
    );
}

#[test]
fn authorization_rfc1() {
    test_round_trip(
        &Authorization(Credentials::basic("Aladdin", "open sesame").unwrap()),
        &["Basic QWxhZGRpbjpvcGVuIHNlc2FtZQ=="],
    );
}

#[test]
fn authorization_rfc2() {
    test_round_trip(
        &Authorization(Credentials::bearer(
            Token68::new("fpKL54jvWmEGVoRdCNjG").unwrap(),
        )),
        &["Bearer fpKL54jvWmEGVoRdCNjG"],
    );
}

#[test]
fn proxy_authorization_rfc1() {
    test_round_trip(
        &ProxyAuthorization(Credentials::basic("Aladdin", "open sesame").unwrap()),
        &["Basic QWxhZGRpbjpvcGVuIHNlc2FtZQ=="],
    );
}

#[test]
fn proxy_authorization_rfc2() {
    test_round_trip(
        &ProxyAuthorization(Credentials::bearer(
            Token68::new("fpKL54jvWmEGVoRdCNjG").unwrap(),
        )),
        &["Bearer fpKL54jvWmEGVoRdCNjG"],
    );
}

#[test]
fn retry_after_rfc1() {
    test_round_trip(&RetryAfter::DelaySeconds(120), &["120"]);
}

#[test]
fn retry_after_rfc2() {
    test_round_trip(
        &RetryAfter::HttpDate(HttpDate::from_str("Fri, 31 Dec 1999 23:59:59 GMT").unwrap()),
        &["Fri, 31 Dec 1999 23:59:59 GMT"],
    );
}

#[test]
fn rfc850() {
    test_decode(
        &["Sunday, 06-Nov-94 08:49:37 GMT"],
        &RetryAfter::HttpDate(HttpDate::from_str("Sun, 06 Nov 1994 08:49:37 GMT").unwrap()),
    );
}

#[test]
fn asctime() {
    test_decode(
        &["Sun Nov  6 08:49:37 1994"],
        &RetryAfter::HttpDate(HttpDate::from_str("Sun, 06 Nov 1994 08:49:37 GMT").unwrap()),
    );
}

#[test]
fn vary_any() {
    test_round_trip(&Vary::Any, &["*"]);
}

#[test]
fn vary_foo() {
    test_round_trip(&Vary::Items(vec![HeaderName::from_static("foo")]), &["foo"]);
}

#[test]
fn vary_reads_a_wildcard_whatever_follows() {
    test_decode(&[" * ", "accept"], &Vary::Any);
    test_decode(
        &["Accept-Encoding, accept-language"],
        &Vary::Items(vec![
            HeaderName::from_static("accept-encoding"),
            HeaderName::from_static("accept-language"),
        ]),
    );
    assert_eq!(kind(get::<Vary>(&[","])), ErrorKind::TooFewValues);
    assert_eq!(kind(get::<Vary>(&["a b"])), ErrorKind::InvalidValue);
    assert_eq!(kind(get::<Vary>(&["a/b"])), ErrorKind::InvalidValue);
    test_decode(&["A\"b"], &Vary::Items(vec![HeaderName::from_bytes(b"a\"b").unwrap()]));
    assert!(get::<Vary>(&[]).unwrap().is_none());
    assert_eq!(
        HeaderMap::new().typed_insert(&Vary::Items(vec![])),
        Err(Error(ErrorKind::Unencodable))
    );
}

#[test]
fn http_date_second_matters() {
    let date = HttpDate::from_str("Sun, 06 Nov 1994 08:49:37 GMT").unwrap();
    assert_eq!(date.timestamp(), 784111777);
    assert_eq!(date.subsec_nanos(), 0);
    assert_eq!(date.to_string(), "Sun, 06 Nov 1994 08:49:37 GMT");
    assert_eq!(HttpDate::from_timestamp(0, 5).to_string(), "Thu, 01 Jan 1970 00:00:00 GMT");
    assert!(HttpDate::from_str("yesterday").is_err());
    assert!(HttpDate::from_str("Sun, 06 Nov 1994 08:49:37 CET").is_err());
    assert_eq!(HttpDate::from_timestamp(i64::MAX, 0).to_string(), "");
    test_round_trip(&Expires(date.clone()), &["Sun, 06 Nov 1994 08:49:37 GMT"]);
    assert_eq!(kind(get::<RetryAfter>(&["soon"])), ErrorKind::InvalidValue);
    assert_eq!(kind(get::<RetryAfter>(&["1", "2"])), ErrorKind::TooManyValues);
}

#[test]
fn list_round_trip_keeps_order() {
    test_round_trip(
        &AcceptEncoding(vec![
            QualityItem::new(ContentCoding::gzip(), Quality::from_u16(1000)),
            QualityItem::new(ContentCoding::identity(), Quality::from_u16(500)),
            QualityItem::new(ContentCoding::star(), Quality::from_u16(0)),
        ]),
        &["gzip, identity; q=0.5, *; q=0"],
    );
    test_decode(
        &["gzip;q=1.0, identity; q=0.5", "*;q=0"],
        &AcceptEncoding(vec![
            QualityItem::new(ContentCoding::gzip(), Quality::from_u16(1000)),
            QualityItem::new(ContentCoding::identity(), Quality::from_u16(500)),
            QualityItem::new(ContentCoding::star(), Quality::from_u16(0)),
        ]),
    );
    test_round_trip(
        &AcceptLanguage(vec![
            QualityItem::new("da".parse().unwrap(), Quality::from_u16(1000)),
            QualityItem::new("en-GB".parse().unwrap(), Quality::from_u16(800)),
        ]),
        &["da, en-GB; q=0.8"],
    );
}

#[test]
fn empty_list_is_present() {
    test_decode(&[" , ,"], &AcceptEncoding(vec![]));
    test_decode(&[""], &AcceptEncoding(vec![]));
    assert!(get::<AcceptEncoding>(&[]).unwrap().is_none());
    test_round_trip(&AcceptEncoding(vec![]), &[""]);
    assert_eq!(kind(get::<AcceptEncoding>(&["gzip, b@d"])), ErrorKind::InvalidValue);
}

#[test]
fn one_or_more_needs_an_item() {
    assert_eq!(kind(get::<ContentEncoding>(&[","])), ErrorKind::TooFewValues);
    assert_eq!(kind(get::<ContentEncoding>(&[""])), ErrorKind::TooFewValues);
    assert!(get::<ContentEncoding>(&[]).unwrap().is_none());
    assert_eq!(ContentEncoding::new(vec![]).unwrap_err().0, ErrorKind::TooFewValues);
    test_round_trip(&ContentEncoding::from_item(ContentCoding::gzip()), &["gzip"]);
    test_round_trip(
        &AcceptRanges::new(vec![RangeUnit::bytes(), RangeUnit::new("Pages").unwrap()]).unwrap(),
        &["bytes, pages"],
    );
    let read = get::<ContentEncoding>(&["x-gzip, DEFLATE"]).unwrap().unwrap();
    assert_eq!(read.as_slice(), &[ContentCoding::gzip(), ContentCoding::deflate()]);
    test_encode(&read, &["gzip, deflate"]);
}

#[test]
fn content_length_reconciles_copies() {
    test_decode(&["3"], &ContentLength(3));
    test_decode(&["3", "3"], &ContentLength(3));
    test_decode(&["3,3"], &ContentLength(3));
    test_decode(&["3, 3,", " 3 "], &ContentLength(3));
    assert_eq!(kind(get::<ContentLength>(&["3", "4"])), ErrorKind::InconsistentValues);
    assert_eq!(kind(get::<ContentLength>(&["3,4"])), ErrorKind::InconsistentValues);
    assert_eq!(kind(get::<ContentLength>(&["3", "x", "4"])), ErrorKind::InvalidValue);
    assert_eq!(kind(get::<ContentLength>(&["3, 4, x"])), ErrorKind::InconsistentValues);
    assert_eq!(kind(get::<ContentLength>(&[""])), ErrorKind::InvalidValue);
    assert_eq!(kind(get::<ContentLength>(&["  "])), ErrorKind::InvalidValue);
    assert_eq!(kind(get::<ContentLength>(&["3", " "])), ErrorKind::InvalidValue);
    assert_eq!(kind(get::<ContentLength>(&["three"])), ErrorKind::InvalidValue);
    assert_eq!(kind(get::<ContentLength>(&["18446744073709551616"])), ErrorKind::InvalidValue);
    test_decode(&["18446744073709551615"], &ContentLength(u64::MAX));
    assert!(get::<ContentLength>(&[","]).unwrap().is_none());
    assert!(get::<ContentLength>(&[]).unwrap().is_none());
    test_round_trip(&ContentLength(3495), &["3495"]);
    test_round_trip(&ContentLength(0), &["0"]);
}

#[test]
fn single_value_headers() {
    test_round_trip(&AccessControlMaxAge(531), &["531"]);
    test_decode(&["  531 "], &AccessControlMaxAge(531));
    assert_eq!(kind(get::<AccessControlMaxAge>(&["4294967296"])), ErrorKind::InvalidValue);
    assert_eq!(kind(get::<AccessControlMaxAge>(&["1", "1"])), ErrorKind::TooManyValues);
    test_round_trip(&AccessControlRequestMethod(Method::GET), &["GET"]);
    test_round_trip(
        &AccessControlRequestMethod(Method::from_bytes(b"XMODIFY").unwrap()),
        &["XMODIFY"],
    );
    assert_eq!(kind(get::<AccessControlRequestMethod>(&["G T"])), ErrorKind::InvalidValue);
    assert_eq!(kind(get::<AccessControlRequestMethod>(&["G#T"])), ErrorKind::InvalidValue);
    assert_eq!(kind(get::<AccessControlRequestMethod>(&[""])), ErrorKind::InvalidValue);
    test_round_trip(
        &ContentLocation("/hypertext/Overview.html".to_string()),
        &["/hypertext/Overview.html"],
    );
    test_round_trip(&UserAgent("CERN-LineMode/2.15 libwww/2.17b3".to_string()), &[
        "CERN-LineMode/2.15 libwww/2.17b3",
    ]);
    let html: Mime = "text/html; charset=utf-8".parse().unwrap();
    test_round_trip(&ContentType(html.clone()), &["text/html; charset=utf-8"]);
    assert_eq!(kind(get::<ContentType>(&["text"])), ErrorKind::InvalidValue);
    test_round_trip(
        &ContentRange(ContentRangeSpec::Bytes { range: Some((0, 9)), instance_length: None }),
        &["bytes 0-9/*"],
    );
    assert_eq!(
        HeaderMap::new().typed_insert(&ContentLocation("a\nb".to_string())),
        Err(Error(ErrorKind::Unencodable))
    );
}

#[test]
fn header_names_and_methods_in_lists() {
    test_round_trip(
        &AccessControlAllowHeaders(vec![
            HeaderName::from_static("accept-language"),
            HeaderName::from_static("date"),
        ]),
        &["accept-language, date"],
    );
    test_decode(
        &["ETag, Content-Length"],
        &AccessControlAllowHeaders(vec![
            HeaderName::from_static("etag"),
            HeaderName::from_static("content-length"),
        ]),
    );
    test_round_trip(
        &AccessControlAllowMethods(vec![
            Method::PUT,
            Method::DELETE,
            Method::from_bytes(b"XMODIFY").unwrap(),
        ]),
        &["PUT, DELETE, XMODIFY"],
    );
    test_round_trip(
        &CacheControl(vec![CacheDirective::NoCache, CacheDirective::MaxAge(30)]),
        &["no-cache, max-age=30"],
    );
}

#[test]
fn map_access() {
    let mut map = HeaderMap::new();
    map.insert("x-other", HeaderValue::from_static("1"));
    map.append("content-length", HeaderValue::from_static("1"));
    map.append("content-length", HeaderValue::from_static("1"));
    map.typed_insert(&ContentLength(7)).unwrap();
    assert_eq!(map.get_all("content-length").iter().count(), 1);
    assert_eq!(map.get("content-length").unwrap(), "7");
    assert_eq!(map.get("x-other").unwrap(), "1");
    assert_eq!(map.typed_get::<ContentLength>().unwrap(), Some(ContentLength(7)));
    assert_eq!(map.typed_remove::<ContentLength>().unwrap(), Some(ContentLength(7)));
    assert!(map.get("content-length").is_none());
    assert_eq!(map.typed_remove::<ContentLength>().unwrap(), None);
    assert_eq!(map.len(), 1);

    map.append("content-length", HeaderValue::from_static("x"));
    assert!(map.typed_remove::<ContentLength>().is_err());
    assert!(map.get("content-length").is_none());

    map.typed_insert(&SetCookie(vec!["a=1".to_string(), "b=2; Path=/".to_string()])).unwrap();
    let sent: Vec<_> = map.get_all("set-cookie").iter().collect();
    assert_eq!(sent, vec!["a=1", "b=2; Path=/"]);
    map.typed_insert(&SetCookie(vec![])).unwrap();
    assert_eq!(map.get_all("set-cookie").iter().count(), 2);
    assert!(map.typed_insert(&SetCookie(vec!["ok".to_string(), "b\rd".to_string()])).is_err());
    assert_eq!(map.get_all("set-cookie").iter().count(), 2);
    test_decode(&[" a=1 ", "b=2"], &SetCookie(vec!["a=1".to_string(), "b=2".to_string()]));
    assert!(get::<SetCookie>(&[]).unwrap().is_none());
    let raw: &[&[u8]] = &[b"\xff"];
    assert!(map_of::<SetCookie>(raw).typed_get::<SetCookie>().is_err());
    let raw: &[&[u8]] = &[b"\xff", b"a=1"];
    assert_eq!(
        map_of::<SetCookie>(raw).typed_get::<SetCookie>().unwrap(),
        Some(SetCookie(vec!["a=1".to_string()]))
    );
}

#[test]
fn values_that_are_not_visible_are_invalid() {
    let raw: &[&[u8]] = &[b"gzip\xe9"];
    assert_eq!(kind(map_of::<AcceptEncoding>(raw).typed_get::<AcceptEncoding>()), ErrorKind::InvalidValue);
    assert_eq!(kind(map_of::<ContentLength>(raw).typed_get::<ContentLength>()), ErrorKind::InvalidValue);
    assert_eq!(kind(map_of::<UserAgent>(raw).typed_get::<UserAgent>()), ErrorKind::InvalidValue);
    assert_eq!(kind(map_of::<Pragma>(raw).typed_get::<Pragma>()), ErrorKind::InvalidValue);
    assert_eq!(kind(map_of::<Cookie>(raw).typed_get::<Cookie>()), ErrorKind::InvalidValue);
}

#[test]
fn simple_bespoke_headers() {
    test_round_trip(&AccessControlAllowCredentials, &["true"]);
    test_decode(&["TRUE"], &AccessControlAllowCredentials);
    assert!(get::<AccessControlAllowCredentials>(&["false"]).unwrap().is_none());
    assert!(get::<AccessControlAllowCredentials>(&[]).unwrap().is_none());

    test_round_trip(&AccessControlAllowOrigin::Any, &["*"]);
    test_round_trip(&AccessControlAllowOrigin::Null, &["null"]);
    test_round_trip(
        &AccessControlAllowOrigin::Value("http://google.com/".to_string()),
        &["http://google.com/"],
    );
    test_decode(&[" *"], &AccessControlAllowOrigin::Value(" *".to_string()));

    test_round_trip(&Pragma::NoCache, &["no-cache"]);
    test_decode(&["No-Cache"], &Pragma::NoCache);
    test_round_trip(&Pragma::Ext("FooBar".to_string()), &["FooBar"]);
    assert_eq!(Pragma::Ext("x".to_string()).to_string(), "x");

    test_round_trip(&ReferrerPolicy::StrictOrigin, &["strict-origin"]);
    test_decode(&["never"], &ReferrerPolicy::NoReferrer);
    test_decode(&["default"], &ReferrerPolicy::NoReferrerWhenDowngrade);
    test_decode(&["always"], &ReferrerPolicy::UnsafeUrl);
    test_decode(&["origin, unknown", "Same-Origin, what"], &ReferrerPolicy::SameOrigin);
    assert_eq!(kind(get::<ReferrerPolicy>(&["what"])), ErrorKind::InvalidValue);
    assert_eq!(kind(get::<ReferrerPolicy>(&[""])), ErrorKind::InvalidValue);
    assert!(get::<ReferrerPolicy>(&[]).unwrap().is_none());
    assert_eq!(ReferrerPolicy::OriginWhenCrossOrigin.to_string(), "origin-when-cross-origin");

    test_round_trip(&StrictTransportSecurity::including_subdomains(31536000), &[
        "max-age=31536000; includeSubdomains",
    ]);
    test_round_trip(&Range::bytes(1, 100), &["bytes=1-100"]);
}

#[test]
fn host_and_origin() {
    test_round_trip(&Host::new("example.com", None).unwrap(), &["example.com"]);
    test_round_trip(&Host::new("example.com", Some(8080)).unwrap(), &["example.com:8080"]);
    let host = get::<Host>(&["[::1]:443"]).unwrap().unwrap();
    assert_eq!(host.host(), "[::1]");
    assert_eq!(host.port(), Some(443));
    assert_eq!(host.to_string(), "[::1]:443");
    assert_eq!(kind(get::<Host>(&["user@example.com"])), ErrorKind::InvalidValue);
    assert_eq!(kind(get::<Host>(&["exa mple"])), ErrorKind::InvalidValue);
    assert_eq!(kind(get::<Host>(&[""])), ErrorKind::InvalidValue);
    assert_eq!(kind(get::<Host>(&["a", "b"])), ErrorKind::TooManyValues);
    assert!(Host::new("a:1:2", None).is_err());
    let with_user = Host::new("user@example.com", Some(1)).unwrap();
    assert_eq!(with_user.host(), "example.com");
    assert_eq!(with_user.port(), Some(1));
    assert_eq!(Host::new("example.com:x", None).unwrap().port(), None);
    assert!(Host::new("]@[", None).is_err());

    let origin = Origin::new("https", "example.org", Some(443)).unwrap();
    assert_eq!(origin.scheme(), Some("https"));
    assert_eq!(origin.host().unwrap().host(), "example.org");
    assert!(!origin.is_null());
    test_round_trip(&origin, &["https://example.org:443"]);
    test_encode(&Origin::null(), &["null"]);
    assert!(Origin::null().is_null());
    assert_eq!(Origin::null().scheme(), None);
    assert!(Origin::null().host().is_none());
    assert!(get::<Origin>(&["null"]).unwrap().is_none());
    assert!(get::<Origin>(&["http:/x"]).unwrap().is_none());
    test_decode(&["http://web-platform.test:8000"], &Origin::new("http", "web-platform.test", Some(8000)).unwrap());
    assert!(Origin::from_str("://").is_err());
    assert!(Origin::from_str("a://b://c").is_err());
    assert_eq!(Origin::from_str("a://b:7").unwrap().scheme(), Some("a"));
}

#[test]
fn cookies() {
    let mut cookie = Cookie::new();
    cookie.append("foo", "bar");
    cookie.append("baz", "quux");
    cookie.append("foo", "again");
    assert_eq!(cookie.len(), 3);
    assert_eq!(cookie.get("foo"), Some("bar"));
    assert_eq!(cookie.get("nope"), None);
    test_encode(&cookie, &["foo=bar; baz=quux; foo=again"]);
    cookie.set("foo", "only");
    assert_eq!(cookie.len(), 2);
    test_encode(&cookie, &["baz=quux; foo=only"]);
    cookie.set("last", "1");
    test_encode(&cookie, &["baz=quux; foo=only; last=1"]);
    let mut iter = cookie.iter();
    assert_eq!(iter.next(), Some(("baz", "quux")));
    assert_eq!(iter.next(), Some(("foo", "only")));
    assert_eq!(iter.next(), Some(("last", "1")));
    assert_eq!(iter.next(), None);

    let read = get::<Cookie>(&["SID=31d4d96e407aad42; lang=en-US", "skipped; lang = de=x "])
        .unwrap()
        .unwrap();
    assert_eq!(read.len(), 2);
    assert_eq!(read.get("SID"), Some("31d4d96e407aad42"));
    assert_eq!(read.get("lang"), Some("de=x"));
    assert!(get::<Cookie>(&["nothing here"]).unwrap().is_none());
    assert!(get::<Cookie>(&[]).unwrap().is_none());

    let mut a = Cookie::new();
    a.append("x", "1");
    a.append("y", "2");
    let mut b = Cookie::new();
    b.append("y", "2");
    b.append("x", "1");
    assert!(a == b);
    b.set("x", "3");
    assert!(a != b);
    assert!(a != Cookie::new());
    test_round_trip(&a, &["x=1; y=2"]);
}

fn has_name<H: Header>(expected: &str) {
    assert_eq!(H::name(), expected);
    assert_eq!(map_key::<H>().as_str(), expected);
}

#[test]
fn every_header_has_a_name_that_the_map_knows() {
    has_name::<Accept>("accept");
    has_name::<AcceptCharset>("accept-charset");
    has_name::<AcceptEncoding>("accept-encoding");
    has_name::<AcceptLanguage>("accept-language");
    has_name::<AcceptRanges>("accept-ranges");
    has_name::<AccessControlAllowCredentials>("access-control-allow-credentials");
    has_name::<AccessControlAllowHeaders>("access-control-allow-headers");
    has_name::<AccessControlAllowMethods>("access-control-allow-methods");
    has_name::<AccessControlAllowOrigin>("access-control-allow-origin");
    has_name::<AccessControlExposeHeaders>("access-control-expose-headers");
    has_name::<AccessControlMaxAge>("access-control-max-age");
    has_name::<AccessControlRequestHeaders>("access-control-request-headers");
    has_name::<AccessControlRequestMethod>("access-control-request-method");
    has_name::<Authorization>("authorization");
    has_name::<CacheControl>("cache-control");
    has_name::<ContentEncoding>("content-encoding");
    has_name::<ContentLanguage>("content-language");
    has_name::<ContentLength>("content-length");
    has_name::<ContentLocation>("content-location");
    has_name::<ContentRange>("content-range");
    has_name::<ContentType>("content-type");
    has_name::<Cookie>("cookie");
    has_name::<Expires>("expires");
    has_name::<Host>("host");
    has_name::<IfModifiedSince>("if-modified-since");
    has_name::<Location>("location");
    has_name::<Origin>("origin");
    has_name::<Pragma>("pragma");
    has_name::<ProxyAuthorization>("proxy-authorization");
    has_name::<Range>("range");
    has_name::<Referer>("referer");
    has_name::<ReferrerPolicy>("referrer-policy");
    has_name::<RetryAfter>("retry-after");
    has_name::<SetCookie>("set-cookie");
    has_name::<StrictTransportSecurity>("strict-transport-security");
    has_name::<UserAgent>("user-agent");
    has_name::<Vary>("vary");
}

#[test]
fn a_full_map_takes_no_new_name() {
    let mut map = HeaderMap::new();
    for i in 0..32768 {
        let name = HeaderName::from_bytes(format!("x-{}", i).as_bytes()).unwrap();
        map.insert(name, HeaderValue::from_static("v"));
    }
    assert_eq!(map.keys_len(), 32768);
    assert_eq!(map.typed_insert(&ContentLength(1)), Err(Error(ErrorKind::TooManyValues)));
    assert_eq!(map.keys_len(), 32768);
    assert!(map.typed_get::<ContentLength>().unwrap().is_none());

    assert_eq!(map.typed_remove::<ContentLength>(), Ok(None));
    map.remove("x-0");
    map.typed_insert(&SetCookie(vec!["a=1".to_string()])).unwrap();
    assert_eq!(map.keys_len(), 32768);
    map.typed_insert(&SetCookie(vec!["b=2".to_string(), "c=3".to_string()])).unwrap();
    assert_eq!(
        map.typed_get::<SetCookie>(),
        Ok(Some(SetCookie(vec!["b=2".to_string(), "c=3".to_string()])))
    );
    assert_eq!(map.keys_len(), 32768);
}

#[test]
fn outside_values_are_copied_and_checked() {
    let accept = Accept(vec![QualityItem::new("text/html".parse().unwrap(), Quality::from_u16(1))]);
    assert_eq!(accept.clone(), accept);
    let kind_of = ContentType("application/json".parse().unwrap());
    assert_eq!(kind_of.clone(), kind_of);
    let method = AccessControlRequestMethod(Method::PATCH);
    assert_eq!(method.clone(), method);
    let names = AccessControlExposeHeaders(vec![HeaderName::from_static("etag")]);
    assert_eq!(names.clone(), names);
    test_round_trip(&AccessControlRequestHeaders(vec![HeaderName::from_static("date")]), &["date"]);
    let language = ContentLanguage::from_item(QualityItem::new(
        "mi".parse().unwrap(),
        Quality::from_u16(1000),
    ));
    assert_eq!(language.clone(), language);
    test_round_trip(&language, &["mi"]);
    assert_eq!(kind(get::<ContentLanguage>(&["not a tag"])), ErrorKind::InvalidValue);
    assert_eq!(kind(get::<AcceptLanguage>(&["en;q=0.5, e!"])), ErrorKind::InvalidValue);
    assert_eq!(kind(get::<Accept>(&["text/html, nonsense"])), ErrorKind::InvalidValue);
    test_decode(
        &["TEXT/HTML;q=0.3"],
        &Accept(vec![QualityItem::new("text/html".parse().unwrap(), Quality::from_u16(300))]),
    );
    test_round_trip(&Referer("http://www.example.org/".to_string()), &["http://www.example.org/"]);
    test_round_trip(&Location("/People.html#tim".to_string()), &["/People.html#tim"]);
    let since = IfModifiedSince(HttpDate::from_str("Sat, 29 Oct 1994 19:43:31 GMT").unwrap());
    test_round_trip(&since, &["Sat, 29 Oct 1994 19:43:31 GMT"]);

    let authority: http::uri::Authority = "user@example.org:81".parse().unwrap();
    let host = Host::checked_from_authority(&authority).unwrap();
    assert_eq!(host.host(), "example.org");
    assert_eq!(host.port(), Some(81));
    assert_eq!(Host::from_authority(&authority), host);
    let odd: http::uri::Authority = "]@[".parse().unwrap();
    assert_eq!(Host::checked_from_authority(&odd), None);
}
