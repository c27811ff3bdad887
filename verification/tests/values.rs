use typed_headers::auth_scheme::AuthScheme;
use typed_headers::cache_control::CacheDirective;
use typed_headers::charset::Charset;
use typed_headers::content_coding::ContentCoding;
use typed_headers::content_range::ContentRangeSpec;
use typed_headers::credentials::{has_ctr, Credentials};
use typed_headers::encoding::Encoding;
use typed_headers::error::{Error, ErrorKind};
use typed_headers::range::{from_comma_delimited, ByteRangeSpec, Range};
use typed_headers::range_unit::RangeUnit;
use typed_headers::strict_transport_security::StrictTransportSecurity;
use typed_headers::token68::{is_token68, Token68};
use typed_headers::util::{
    http_percent_encode, is_token, parse_extended_value, FromHeaderValue, ToHeaderValue,
};

#[test]
fn tokens() {
    assert!(is_token("gzip"));
    assert!(is_token("!#$%&'*+-.^_`|~09azAZ"));
    assert!(!is_token(""));
    assert!(!is_token("a b"));
    assert!(!is_token("a,b"));
    assert!(!is_token("a;b"));
    assert!(!is_token("a=b"));
    assert!(!is_token("a\"b"));
    assert!(!is_token("caf\u{e9}"));
    assert!(!is_token("a/b"));
    assert!(!is_token("\t"));
}

#[test]
fn token68_values() {
    assert!(is_token68(b"abc"));
    assert!(is_token68(b"QWxhZGRpbjpvcGVuIHNlc2FtZQ=="));
    assert!(is_token68(b"-._~+/09azAZ==="));
    assert!(!is_token68(b""));
    assert!(!is_token68(b"="));
    assert!(!is_token68(b"===="));
    assert!(!is_token68(b"a=b"));
    assert!(!is_token68(b"a b"));
    assert!(!is_token68(b"a,b"));
    let token = Token68::new("abc==").unwrap();
    assert_eq!(token.as_str(), "abc==");
    assert_eq!(token.to_header_value(), "abc==");
    assert_eq!(Token68::new("a b").unwrap_err().to_string(), "invalid base68");
    assert_eq!(Token68::from_bytes(b"xyz").unwrap(), Token68::new("xyz").unwrap());
    assert!(Token68::from_header_value(b"").is_err());
}

#[test]
fn content_codings_have_one_spelling() {
    assert_eq!(ContentCoding::new("x-gzip").unwrap(), ContentCoding::new("gzip").unwrap());
    assert_eq!(ContentCoding::new("x-gzip").unwrap(), ContentCoding::gzip());
    assert_eq!(ContentCoding::new("X-GZIP").unwrap().as_str(), "gzip");
    assert_eq!(ContentCoding::new("x-compress").unwrap().as_str(), "compress");
    assert_eq!(ContentCoding::new("Compress").unwrap(), ContentCoding::compress());
    assert_eq!(ContentCoding::new("BR").unwrap(), ContentCoding::brotli());
    assert_eq!(ContentCoding::new("deflate").unwrap(), ContentCoding::deflate());
    assert_eq!(ContentCoding::new("IDENTITY").unwrap(), ContentCoding::identity());
    assert_eq!(ContentCoding::new("*").unwrap(), ContentCoding::star());
    assert_eq!(ContentCoding::new("ZStd").unwrap().as_str(), "zstd");
    assert_eq!(ContentCoding::new("ZStd").unwrap(), ContentCoding::new("zstd").unwrap());
    assert_eq!(ContentCoding::new("a b").unwrap_err(), Error(ErrorKind::InvalidValue));
    assert!(ContentCoding::new("").is_err());
    assert_eq!(ContentCoding::new("x-gzip").unwrap().to_header_value(), "gzip");
}

#[test]
fn auth_schemes() {
    assert_eq!(AuthScheme::new("basic").unwrap(), AuthScheme::basic());
    assert_eq!(AuthScheme::new("BEARER").unwrap().as_str(), "Bearer");
    assert!(AuthScheme::new("bearer").unwrap().is_bearer());
    assert!(!AuthScheme::basic().is_bearer());
    assert_eq!(AuthScheme::new("Digest").unwrap().as_str(), "digest");
    assert!(!AuthScheme::new("Digest").unwrap().is_bearer());
    assert!(AuthScheme::new("a b").is_err());
}

#[test]
fn charsets() {
    assert_eq!(Charset::new("UTF-8").unwrap().as_str(), "utf-8");
    assert_eq!(Charset::new("utf-8").unwrap(), Charset::utf_8());
    assert_eq!(Charset::new("*").unwrap(), Charset::star());
    assert_eq!(Charset::new("KOI8-R").unwrap(), Charset::koi8_r());
    assert_eq!(Charset::new("iso-8859-10").unwrap(), Charset::iso_8859_10());
    assert_eq!(Charset::new("ISO-8859-1").unwrap(), Charset::iso_8859_1());
    assert_eq!(Charset::new("Unicode-1-1").unwrap().as_str(), "unicode-1-1");
    assert_eq!(Charset::new("Unicode-1-1").unwrap(), Charset::new("unicode-1-1").unwrap());
    assert!(Charset::new("utf-8").unwrap() != Charset::new("utf-16").unwrap());
    assert!(Charset::new("x").unwrap() != Charset::us_ascii());
    assert_eq!(Charset::new("utf 8").unwrap_err().to_string(), "invalid charset");
    assert_eq!(Charset::big5().to_header_value(), "big5");
    assert_eq!(Charset::iso_2022_jp_2().as_str(), "iso-2022-jp-2");
    assert_eq!(Charset::utf_32le().as_str(), "utf-32le");
}

#[test]
fn range_units() {
    assert_eq!(RangeUnit::new("BYTES").unwrap(), RangeUnit::bytes());
    assert_eq!(RangeUnit::new("none").unwrap(), RangeUnit::none());
    assert_eq!(RangeUnit::new("Pages").unwrap().as_str(), "pages");
    assert_eq!(RangeUnit::new("Pages").unwrap(), RangeUnit::new("pages").unwrap());
    assert!(RangeUnit::bytes() != RangeUnit::none());
    assert_eq!(RangeUnit::new("a b").unwrap_err().to_string(), "invalid range-unit");
}

#[test]
fn encodings() {
    assert_eq!(Encoding::new("chunked"), Encoding::chunked());
    assert_eq!(Encoding::new("br"), Encoding::brotli());
    assert_eq!(Encoding::new("gzip"), Encoding::gzip());
    assert_eq!(Encoding::new("deflate"), Encoding::deflate());
    assert_eq!(Encoding::new("compress"), Encoding::compress());
    assert_eq!(Encoding::new("identity"), Encoding::identity());
    assert_eq!(Encoding::new("trailers"), Encoding::trailers());
    assert!(Encoding::new("Chunked") != Encoding::chunked());
    assert_eq!(Encoding::new("Chunked").as_str(), "Chunked");
    assert_eq!(Encoding::new("what ever").to_string(), "what ever");
    assert_eq!(Encoding::trailers().as_str(), "trailers");
}

#[test]
fn satisfiable_ranges() {
    assert_eq!(ByteRangeSpec::FromTo(0, 0).to_satisfiable_range(3), Some((0, 0)));
    assert_eq!(ByteRangeSpec::FromTo(1, 2).to_satisfiable_range(3), Some((1, 2)));
    assert_eq!(ByteRangeSpec::FromTo(1, 5).to_satisfiable_range(3), Some((1, 2)));
    assert_eq!(ByteRangeSpec::FromTo(3, 3).to_satisfiable_range(3), None);
    assert_eq!(ByteRangeSpec::FromTo(2, 1).to_satisfiable_range(3), None);
    assert_eq!(ByteRangeSpec::FromTo(0, 0).to_satisfiable_range(0), None);
    assert_eq!(ByteRangeSpec::AllFrom(0).to_satisfiable_range(3), Some((0, 2)));
    assert_eq!(ByteRangeSpec::AllFrom(2).to_satisfiable_range(3), Some((2, 2)));
    assert_eq!(ByteRangeSpec::AllFrom(3).to_satisfiable_range(3), None);
    assert_eq!(ByteRangeSpec::AllFrom(0).to_satisfiable_range(0), None);
    assert_eq!(ByteRangeSpec::Last(1).to_satisfiable_range(3), Some((2, 2)));
    assert_eq!(ByteRangeSpec::Last(3).to_satisfiable_range(3), Some((0, 2)));
    assert_eq!(ByteRangeSpec::Last(5).to_satisfiable_range(3), Some((0, 2)));
    assert_eq!(ByteRangeSpec::Last(0).to_satisfiable_range(3), None);
    assert_eq!(ByteRangeSpec::Last(2).to_satisfiable_range(0), None);
    assert_eq!(
        ByteRangeSpec::FromTo(0, u64::MAX).to_satisfiable_range(u64::MAX),
        Some((0, u64::MAX - 1))
    );
}

#[test]
fn ranges() {
    assert_eq!(Range::from_str("bytes=1-100").unwrap(), Range::bytes(1, 100));
    assert_eq!(
        Range::from_str("bytes=1-100,200-").unwrap(),
        Range::Bytes(vec![ByteRangeSpec::FromTo(1, 100), ByteRangeSpec::AllFrom(200)])
    );
    assert_eq!(
        Range::from_str("bytes=1-100,-100").unwrap(),
        Range::Bytes(vec![ByteRangeSpec::FromTo(1, 100), ByteRangeSpec::Last(100)])
    );
    assert_eq!(
        Range::from_str("bytes= 1-2 , x, 5-4, ,7-").unwrap(),
        Range::Bytes(vec![ByteRangeSpec::FromTo(1, 2), ByteRangeSpec::AllFrom(7)])
    );
    assert_eq!(
        Range::from_str("custom=1-xxx").unwrap(),
        Range::Unregistered("custom".to_owned(), "1-xxx".to_owned())
    );
    assert_eq!(
        Range::from_str("custom=a=b").unwrap(),
        Range::Unregistered("custom".to_owned(), "a=b".to_owned())
    );
    assert!(Range::from_str("bytes=").is_err());
    assert!(Range::from_str("bytes=x").is_err());
    assert!(Range::from_str("bytes").is_err());
    assert!(Range::from_str("custom=").is_err());
    assert!(Range::from_str("=custom").is_err());
    assert!(Range::from_str("").is_err());
    assert_eq!(
        Range::bytes_multi(vec![(0, 1), (30, 40)]),
        Range::Bytes(vec![ByteRangeSpec::FromTo(0, 1), ByteRangeSpec::FromTo(30, 40)])
    );
    assert_eq!(Range::bytes_multi(vec![(0, 1), (30, 40)]).to_string(), "bytes=0-1,30-40");
    assert_eq!(
        Range::Bytes(vec![
            ByteRangeSpec::FromTo(0, 10),
            ByteRangeSpec::AllFrom(20),
            ByteRangeSpec::Last(100)
        ])
        .to_string(),
        "bytes=0-10,20-,-100"
    );
    assert_eq!(Range::Bytes(vec![]).to_string(), "bytes=");
    assert_eq!(
        Range::Unregistered("custom_unit".to_owned(), "xxx-yyy".to_owned()).to_string(),
        "custom_unit=xxx-yyy"
    );
    assert_eq!(ByteRangeSpec::from_str("-").unwrap_err(), Error(ErrorKind::InvalidValue));
    assert!(ByteRangeSpec::from_str("1").is_err());
    assert!(ByteRangeSpec::from_str("2-1").is_err());
    assert!(ByteRangeSpec::from_str("1-2-3").is_err());
    assert_eq!(ByteRangeSpec::from_str("+1-+2").unwrap(), ByteRangeSpec::FromTo(1, 2));
    assert_eq!(ByteRangeSpec::AllFrom(5).to_string(), "5-");
    let lenient: Vec<ByteRangeSpec> = from_comma_delimited(b"1-2,what,-3");
    assert_eq!(lenient, vec![ByteRangeSpec::FromTo(1, 2), ByteRangeSpec::Last(3)]);
}

#[test]
fn content_ranges() {
    let parse = |s: &str| ContentRangeSpec::from_str(s);
    assert_eq!(
        parse("bytes 0-499/500").unwrap(),
        ContentRangeSpec::Bytes { range: Some((0, 499)), instance_length: Some(500) }
    );
    assert_eq!(
        parse("bytes 0-499/*").unwrap(),
        ContentRangeSpec::Bytes { range: Some((0, 499)), instance_length: None }
    );
    assert_eq!(
        parse("bytes */500").unwrap(),
        ContentRangeSpec::Bytes { range: None, instance_length: Some(500) }
    );
    assert_eq!(
        parse("bytes */*").unwrap(),
        ContentRangeSpec::Bytes { range: None, instance_length: None }
    );
    assert_eq!(
        parse("seconds 1-2").unwrap(),
        ContentRangeSpec::Unregistered { unit: "seconds".to_owned(), resp: "1-2".to_owned() }
    );
    assert_eq!(
        parse("Bytes 1-2/3").unwrap(),
        ContentRangeSpec::Unregistered { unit: "Bytes".to_owned(), resp: "1-2/3".to_owned() }
    );
    assert_eq!(
        parse(" x").unwrap(),
        ContentRangeSpec::Unregistered { unit: "".to_owned(), resp: "x".to_owned() }
    );
    assert_eq!(parse("bytes 2-1/5").unwrap_err(), Error(ErrorKind::InvalidValue));
    assert!(parse("bytes").is_err());
    assert!(parse("bytes 1-2").is_err());
    assert!(parse("bytes 1/2").is_err());
    assert!(parse("bytes a-2/3").is_err());
    assert!(parse("bytes 1-b/3").is_err());
    assert!(parse("bytes 1-2/c").is_err());
    assert!(parse("bytes 1-2/3/4").is_err());
    assert!(parse("").is_err());
    assert_eq!(parse("bytes 0-499/500").unwrap().to_string(), "bytes 0-499/500");
    assert_eq!(parse("bytes */*").unwrap().to_string(), "bytes */*");
    assert_eq!(parse("seconds 1-2").unwrap().to_header_value(), "seconds 1-2");
}

#[test]
fn cache_directives() {
    let parse = |s: &str| CacheDirective::from_str(s);
    assert_eq!(parse("no-cache").unwrap(), CacheDirective::NoCache);
    assert_eq!(parse("no-store").unwrap(), CacheDirective::NoStore);
    assert_eq!(parse("no-transform").unwrap(), CacheDirective::NoTransform);
    assert_eq!(parse("only-if-cached").unwrap(), CacheDirective::OnlyIfCached);
    assert_eq!(parse("must-revalidate").unwrap(), CacheDirective::MustRevalidate);
    assert_eq!(parse("public").unwrap(), CacheDirective::Public);
    assert_eq!(parse("private").unwrap(), CacheDirective::Private);
    assert_eq!(parse("proxy-revalidate").unwrap(), CacheDirective::ProxyRevalidate);
    assert_eq!(parse("max-age=30").unwrap(), CacheDirective::MaxAge(30));
    assert_eq!(parse("max-age=\"30\"").unwrap(), CacheDirective::MaxAge(30));
    assert_eq!(parse("max-stale=1").unwrap(), CacheDirective::MaxStale(1));
    assert_eq!(parse("min-fresh=2").unwrap(), CacheDirective::MinFresh(2));
    assert_eq!(parse("s-maxage=4294967295").unwrap(), CacheDirective::SMaxAge(u32::MAX));
    assert_eq!(
        parse("community=\"UCI\"").unwrap(),
        CacheDirective::Extension("community".to_owned(), Some("UCI".to_owned()))
    );
    assert_eq!(parse("foo").unwrap(), CacheDirective::Extension("foo".to_owned(), None));
    assert_eq!(
        parse("No-Cache").unwrap(),
        CacheDirective::Extension("No-Cache".to_owned(), None)
    );
    assert_eq!(
        parse("a=b=c").unwrap(),
        CacheDirective::Extension("a".to_owned(), Some("b=c".to_owned()))
    );
    assert_eq!(
        parse("=v").unwrap(),
        CacheDirective::Extension("".to_owned(), Some("v".to_owned()))
    );
    assert_eq!(parse("").unwrap_err(), Error(ErrorKind::InvalidValue));
    assert!(parse("max-age=").is_err());
    assert!(parse("foo=").is_err());
    assert!(parse("max-age=x").is_err());
    assert!(parse("max-age=4294967296").is_err());
    assert!(parse("max-age=\"\"").is_err());
    assert_eq!(CacheDirective::MaxAge(30).to_string(), "max-age=30");
    assert_eq!(CacheDirective::MaxStale(0).to_string(), "max-stale=0");
    assert_eq!(CacheDirective::MinFresh(7).to_string(), "min-fresh=7");
    assert_eq!(CacheDirective::SMaxAge(9).to_string(), "s-maxage=9");
    assert_eq!(CacheDirective::OnlyIfCached.to_string(), "only-if-cached");
    assert_eq!(CacheDirective::Extension("foo".to_owned(), None).to_string(), "foo");
    assert_eq!(
        CacheDirective::Extension("foo".to_owned(), Some("bar".to_owned())).to_string(),
        "foo=bar"
    );
}

#[test]
fn strict_transport_security() {
    let parse = |s: &str| StrictTransportSecurity::from_str(s);
    assert_eq!(parse("max-age=31536000").unwrap(), StrictTransportSecurity::excluding_subdomains(31536000));
    assert_eq!(
        parse("max-age=15768000 ; includeSubDomains").unwrap(),
        StrictTransportSecurity { include_subdomains: true, max_age: 15768000 }
    );
    assert_eq!(
        parse("INCLUDESUBDOMAINS;Max-Age = \"7\"; preload; x=y;").unwrap(),
        StrictTransportSecurity::including_subdomains(7)
    );
    assert_eq!(parse("includeSubdomains").unwrap_err(), Error(ErrorKind::InvalidValue));
    assert!(parse("").is_err());
    assert!(parse("max-age=1; max-age=1").is_err());
    assert!(parse("max-age=1; includeSubdomains; includeSubdomains").is_err());
    assert!(parse("max-age=x").is_err());
    assert!(parse("max-age").is_err());
    assert_eq!(parse("max-age=1; includeSubdomains=x").unwrap().include_subdomains, false);
    assert_eq!(StrictTransportSecurity::including_subdomains(5).to_string(), "max-age=5; includeSubdomains");
    assert_eq!(StrictTransportSecurity::excluding_subdomains(5).to_string(), "max-age=5");
}

#[test]
fn credentials() {
    let basic = Credentials::basic("Aladdin", "open sesame").unwrap();
    assert_eq!(basic.scheme(), &AuthScheme::basic());
    assert_eq!(basic.token68().unwrap().as_str(), "QWxhZGRpbjpvcGVuIHNlc2FtZQ==");
    assert!(basic.as_bearer().is_none());
    assert_eq!(basic.to_string(), "Basic QWxhZGRpbjpvcGVuIHNlc2FtZQ==");
    assert_eq!(Credentials::basic("a:b", "c").unwrap_err(), Error(ErrorKind::InvalidValue));
    assert!(Credentials::basic("a\n", "c").is_err());
    assert!(Credentials::basic("a", "c\u{7f}").is_err());
    assert_eq!(Credentials::basic("", "a:b").unwrap().token68().unwrap().as_str(), "OmE6Yg==");
    assert!(has_ctr("a\tb"));
    assert!(!has_ctr("a b\u{e9}"));

    let bearer = Credentials::bearer(Token68::new("tok").unwrap());
    assert_eq!(bearer.as_bearer().unwrap().as_str(), "tok");
    assert!(Credentials::from_auth_scheme(AuthScheme::bearer()).as_bearer().is_none());
    assert_eq!(Credentials::from_auth_scheme(AuthScheme::bearer()).to_string(), "Bearer");
    assert!(Credentials::from_auth_scheme(AuthScheme::basic()).token68().is_none());

    assert_eq!(Credentials::from_str("bearer    tok").unwrap(), bearer);
    assert_eq!(
        Credentials::from_str("Digest").unwrap(),
        Credentials::from_auth_scheme(AuthScheme::new("digest").unwrap())
    );
    assert_eq!(
        Credentials::from_str("Custom abc=").unwrap(),
        Credentials::from_token68(AuthScheme::new("custom").unwrap(), Token68::new("abc=").unwrap())
    );
    assert_eq!(Credentials::from_str("").unwrap_err(), Error(ErrorKind::InvalidValue));
    assert!(Credentials::from_str("Basic ").is_err());
    assert!(Credentials::from_str("Basic a b").is_err());
    assert!(Credentials::from_str("Ba(sic abc").is_err());
    assert!(Credentials::from_str(" Basic abc").is_err());
}

#[test]
fn extended_values() {
    let value = parse_extended_value("UTF-8'en'%C2%A3%20and%20%E2%82%AC%20rates").unwrap();
    assert_eq!(value.charset, Charset::utf_8());
    assert_eq!(value.language_tag, Some("en".parse().unwrap()));
    assert_eq!(
        value.value,
        vec![
            194, 163, b' ', b'a', b'n', b'd', b' ', 226, 130, 172, b' ', b'r', b'a', b't', b'e',
            b's'
        ]
    );
    let value = parse_extended_value("iso-8859-1''%A3%2%zz'x").unwrap();
    assert_eq!(value.charset, Charset::iso_8859_1());
    assert_eq!(value.language_tag, None);
    assert_eq!(value.value, vec![163, b'%', b'2', b'%', b'z', b'z', b'\'', b'x']);
    assert_eq!(parse_extended_value("utf-8''").unwrap().value, Vec::<u8>::new());
    assert_eq!(parse_extended_value("").unwrap_err(), Error(ErrorKind::InvalidValue));
    assert!(parse_extended_value("utf-8").is_err());
    assert!(parse_extended_value("utf-8'en").is_err());
    assert!(parse_extended_value("'en'x").is_err());
    assert!(parse_extended_value("utf 8'en'x").is_err());
    assert!(parse_extended_value("utf-8'e!n'x").is_err());
}

struct HttpValue;

impl Clone for HttpValue {
    fn clone(&self) -> HttpValue {
        HttpValue
    }
}

impl percent_encoding::EncodeSet for HttpValue {
    fn contains(&self, byte: u8) -> bool {
        byte < 0x20 || byte > 0x7e || b" \"%'()*,/:;<->?[\\]{}".contains(&byte)
    }
}

#[test]
fn percent_encoding_of_every_byte() {
    assert_eq!(http_percent_encode(b"foo bar"), "foo%20bar");
    assert_eq!(http_percent_encode(b""), "");
    assert_eq!(http_percent_encode(&[0, 0x0f, 0x7f, 0xff, b'z', b'-']), "%00%0F%7F%FFz%2D");
    for byte in 0..=255u8 {
        let input = [b'a', byte, byte, b'0'];
        let expected = percent_encoding::percent_encode(&input, HttpValue).to_string();
        let written = http_percent_encode(&input);
        assert_eq!(written, expected);
        let back: Vec<u8> = percent_encoding::percent_decode(written.as_bytes()).collect();
        assert_eq!(back, input);
    }
}

#[test]
fn numbers_as_items() {
    assert_eq!(u64::from_header_value(b"42"), Ok(42));
    assert_eq!(u64::from_header_value(b"+42"), Ok(42));
    assert_eq!(u64::from_header_value(b"042"), Ok(42));
    assert_eq!(u64::from_header_value(b"18446744073709551615"), Ok(u64::MAX));
    assert_eq!(u64::from_header_value(b"18446744073709551616"), Err(Error::invalid_value()));
    assert!(u64::from_header_value(b"").is_err());
    assert!(u64::from_header_value(b"+").is_err());
    assert!(u64::from_header_value(b"-1").is_err());
    assert!(u64::from_header_value(b"1 ").is_err());
    assert!(u64::from_header_value(b"++1").is_err());
    assert_eq!(u32::from_header_value(b"4294967295"), Ok(u32::MAX));
    assert!(u32::from_header_value(b"4294967296").is_err());
    assert_eq!(u64::MAX.to_header_value(), "18446744073709551615");
    assert_eq!(0u64.to_header_value(), "0");
    assert_eq!(1900u32.to_header_value(), "1900");
    assert_eq!(String::from_header_value(b"any text"), Ok("any text".to_string()));
    assert!(String::from_header_value(b"\xff").is_err());
    for text in ["0", "7", "+7", "007", "", "+", "1a", "99999999999999999999", " 1"] {
        assert_eq!(u64::from_header_value(text.as_bytes()).ok(), text.parse::<u64>().ok());
        assert_eq!(u32::from_header_value(text.as_bytes()).ok(), text.parse::<u32>().ok());
    }
}
