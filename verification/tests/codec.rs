use typed_headers::content_coding::ContentCoding;
use typed_headers::error::{Error, ErrorKind};
use typed_headers::parsing;
use typed_headers::quality::{Quality, QualityItem};
use typed_headers::text::{
    bytes_eq_ignore_case, eq_ascii, split_bytes, split_in_two, trim_bytes, trim_matches_bytes,
};
use typed_headers::util::{
    check_valid_value, encode_comma_delimited, encode_single_value, parse_comma_delimited,
    parse_list_or_any, parse_one_or_more, parse_single_value, AnyOr, ToValues, Values,
};
use typed_headers::vec_map::VecMap;

fn raw(entries: &[&str]) -> Vec<Vec<u8>> {
    entries.iter().map(|e| e.as_bytes().to_vec()).collect()
}

fn texts(values: ToValues) -> Vec<String> {
    values.into_entries().into_iter().map(|e| String::from_utf8(e).unwrap()).collect()
}

#[test]
fn cursor_reads_from_the_front() {
    let entries = raw(&["a", "b"]);
    let mut values = Values::new(&entries);
    assert_eq!(values.len(), 2);
    assert_eq!(values.peek(), Some(&b"a"[..]));
    assert_eq!(values.next(), Some(&b"a"[..]));
    assert_eq!(values.len(), 1);
    values.drain();
    assert_eq!(values.len(), 0);
    assert_eq!(values.next(), None);
    assert_eq!(values.peek(), None);
}

#[test]
fn sink_refuses_what_no_value_can_hold() {
    let mut values = ToValues::new();
    assert_eq!(values.append(b"ok \t\xff".to_vec()), Ok(()));
    assert_eq!(values.append(b"a\nb".to_vec()), Err(Error::unencodable()));
    assert_eq!(values.append(b"a\x7fb".to_vec()), Err(Error::unencodable()));
    assert_eq!(values.append(Vec::new()), Ok(()));
    assert_eq!(values.into_entries(), vec![b"ok \t\xff".to_vec(), Vec::new()]);
    assert!(check_valid_value(b" ~\t\x80"));
    assert!(!check_valid_value(b"\x00"));
    assert!(!check_valid_value(b"\x1f"));
}

#[test]
fn single_value_reads_one_entry() {
    let entries = raw(&["  gzip ", "br"]);
    let mut values = Values::new(&entries);
    let read: Option<ContentCoding> = parse_single_value(&mut values).unwrap();
    assert_eq!(read, Some(ContentCoding::gzip()));
    assert_eq!(values.len(), 1);

    let entries = raw(&[]);
    let mut values = Values::new(&entries);
    let read: Option<ContentCoding> = parsing::parse_single_value(&mut values).unwrap();
    assert_eq!(read, None);

    let entries = raw(&["a b", "gzip"]);
    let mut values = Values::new(&entries);
    let read: Result<Option<ContentCoding>, Error> = parse_single_value(&mut values);
    assert_eq!(read, Err(Error::invalid_value()));
    assert_eq!(values.len(), 1);

    let entries = vec![b"gzip\x80".to_vec()];
    let mut values = Values::new(&entries);
    let read: Result<Option<ContentCoding>, Error> = parse_single_value(&mut values);
    assert_eq!(read, Err(Error::invalid_value()));
}

#[test]
fn list_reads_all_entries() {
    let entries = raw(&["gzip, ,br", "", " x-compress ,"]);
    let mut values = Values::new(&entries);
    let read: Vec<ContentCoding> = parse_comma_delimited(&mut values).unwrap().unwrap();
    assert_eq!(read, vec![ContentCoding::gzip(), ContentCoding::brotli(), ContentCoding::compress()]);
    assert_eq!(values.len(), 0);

    let entries = raw(&["gzip", "a b, br", "deflate", "zip"]);
    let mut values = Values::new(&entries);
    let read: Result<Option<Vec<ContentCoding>>, Error> = parse_comma_delimited(&mut values);
    assert_eq!(read, Err(Error::invalid_value()));
    assert_eq!(values.len(), 2);

    let entries = raw(&[]);
    let mut values = Values::new(&entries);
    let read: Option<Vec<ContentCoding>> = parse_comma_delimited(&mut values).unwrap();
    assert_eq!(read, None);

    let entries = raw(&[",", " "]);
    let mut values = Values::new(&entries);
    let read: Option<Vec<ContentCoding>> = parse_comma_delimited(&mut values).unwrap();
    assert_eq!(read, Some(vec![]));
    let mut values = Values::new(&entries);
    let read: Result<Option<Vec<ContentCoding>>, Error> = parse_one_or_more(&mut values);
    assert_eq!(read, Err(Error::too_few_values()));
    assert_eq!(values.len(), 0);
}

#[test]
fn bounded_lists() {
    let entries = raw(&["gzip, br"]);
    let read = |min, max| {
        let mut values = Values::new(&entries);
        let r: Result<Option<Vec<ContentCoding>>, Error> =
            parsing::parse_comma_delimited(&mut values, min, max);
        r.map(|v| v.map(|v| v.len())).map_err(|e| e.0)
    };
    assert_eq!(read(None, None), Ok(Some(2)));
    assert_eq!(read(Some(2), Some(2)), Ok(Some(2)));
    assert_eq!(read(Some(3), None), Err(ErrorKind::TooFewValues));
    assert_eq!(read(None, Some(1)), Err(ErrorKind::TooManyValues));
    assert_eq!(read(Some(3), Some(1)), Err(ErrorKind::TooFewValues));

    let items = vec![ContentCoding::gzip(), ContentCoding::brotli()];
    let write = |min, max| {
        let mut values = ToValues::new();
        let r = parsing::encode_comma_delimited(&items, &mut values, min, max);
        (r.map_err(|e| e.0), texts(values))
    };
    assert_eq!(write(None, None), (Ok(()), vec!["gzip, br".to_string()]));
    assert_eq!(write(Some(3), None), (Err(ErrorKind::TooFewValues), vec![]));
    assert_eq!(write(None, Some(1)), (Err(ErrorKind::TooManyValues), vec![]));
    let mut values = ToValues::new();
    parsing::encode_single_value(&ContentCoding::gzip(), &mut values).unwrap();
    assert_eq!(texts(values), vec!["gzip"]);
}

#[test]
fn wildcard_or_list() {
    let entries = raw(&["\t* ", "not, read"]);
    let mut values = Values::new(&entries);
    let read: Option<AnyOr<Vec<ContentCoding>>> = parse_list_or_any(&mut values).unwrap();
    assert!(matches!(read, Some(AnyOr::Any)));
    assert_eq!(values.len(), 0);

    let entries = raw(&["*, gzip"]);
    let mut values = Values::new(&entries);
    let read: Option<AnyOr<Vec<ContentCoding>>> = parse_list_or_any(&mut values).unwrap();
    match read {
        Some(AnyOr::Items(items)) => assert_eq!(items, vec![ContentCoding::star(), ContentCoding::gzip()]),
        _ => panic!("a list was expected"),
    }
    let entries = raw(&[" "]);
    let mut values = Values::new(&entries);
    let read: Result<Option<AnyOr<Vec<ContentCoding>>>, Error> = parse_list_or_any(&mut values);
    assert_eq!(read.err(), Some(Error::too_few_values()));
}

struct Raw(&'static str);

impl typed_headers::util::ToHeaderValue for Raw {
    type Model = ();

    fn to_header_value(&self) -> String {
        self.0.to_string()
    }
}

#[test]
fn encoding_joins_and_checks() {
    let mut values = ToValues::new();
    let items = vec![
        QualityItem::new(ContentCoding::gzip(), Quality::from_u16(1)),
        QualityItem::new(ContentCoding::new("Zip").unwrap(), Quality::from_u16(990)),
    ];
    encode_comma_delimited(&items, &mut values).unwrap();
    encode_single_value(&ContentCoding::star(), &mut values).unwrap();
    let none: Vec<ContentCoding> = vec![];
    encode_comma_delimited(&none, &mut values).unwrap();
    assert_eq!(texts(values), vec!["gzip; q=0.001, zip; q=0.99", "*", ""]);

    let fails = |items: Vec<Raw>| {
        let mut values = ToValues::new();
        let r = encode_comma_delimited(&items, &mut values);
        assert!(texts(values).is_empty());
        r
    };
    assert_eq!(fails(vec![Raw("a"), Raw("b,c")]), Err(Error::unencodable()));
    assert_eq!(fails(vec![Raw("a"), Raw("")]), Err(Error::unencodable()));
    assert_eq!(fails(vec![Raw("")]), Err(Error::unencodable()));
    assert_eq!(fails(vec![Raw("a\nb")]), Err(Error::unencodable()));
    let mut values = ToValues::new();
    assert_eq!(encode_single_value(&Raw("a\rb"), &mut values), Err(Error::unencodable()));
    assert_eq!(encode_single_value(&Raw("a, b"), &mut values), Ok(()));
    assert_eq!(encode_single_value("true", &mut values), Ok(()));
    assert_eq!(encode_single_value(&&7u64, &mut values), Ok(()));
    assert_eq!(encode_single_value(&"text".to_string(), &mut values), Ok(()));
    assert_eq!(texts(values), vec!["a, b", "true", "7", "text"]);
}

#[test]
fn text_helpers() {
    assert_eq!(trim_bytes(b" \t\r\n\x0b\x0c a b \t"), b"a b");
    assert_eq!(trim_bytes(b"   "), b"");
    assert_eq!(trim_bytes(b""), b"");
    assert_eq!(trim_bytes(b"\xa0x"), b"\xa0x");
    assert_eq!(trim_matches_bytes(b"\"\"a\"b\"", b'"'), b"a\"b");
    assert_eq!(trim_matches_bytes(b"\"\"\"", b'"'), b"");
    assert_eq!(split_bytes(b"a,,b,", b','), vec![&b"a"[..], &b""[..], &b"b"[..], &b""[..]]);
    assert_eq!(split_bytes(b"", b','), vec![&b""[..]]);
    assert_eq!(split_bytes(b",", b','), vec![&b""[..], &b""[..]]);
    assert_eq!(split_in_two(b"a=b=c", b'='), Some((&b"a"[..], &b"b=c"[..])));
    assert_eq!(split_in_two(b"abc", b'='), None);
    assert_eq!(split_in_two(b"=", b'='), Some((&b""[..], &b""[..])));
    assert!(bytes_eq_ignore_case(b"Max-Age", b"mAX-aGE"));
    assert!(!bytes_eq_ignore_case(b"[", b"{"));
    assert!(!bytes_eq_ignore_case(b"@", b"`"));
    assert!(eq_ascii(b"includeSubdomains", b"INCLUDESUBDOMAINS"));
    assert!(!eq_ascii(b"abc", b"abd"));
    assert!(!eq_ascii(b"abc", b"ab"));
    assert!(eq_ascii(b"\xffA", b"\xffa"));
    assert!(!eq_ascii(b"\xffA", b"\xfeA"));
    assert!(eq_ascii("\u{e9}X".as_bytes(), "\u{e9}x".as_bytes()));
}

#[test]
fn ordered_map() {
    let mut map: VecMap<u32, &str> = VecMap::with_capacity(4);
    assert_eq!(map.len(), 0);
    map.insert(1, "a");
    map.append(2, "b");
    map.append(1, "c");
    map.insert(1, "d");
    map.insert(3, "e");
    assert_eq!(map.iter(), &[(1, "d"), (2, "b"), (1, "c"), (3, "e")]);
    assert_eq!(map.get(&1), Some(&"d"));
    assert_eq!(map.get(&4), None);
    assert_eq!(map.find(&2), Some(&(2, "b")));
    map.remove_all(&1);
    assert_eq!(map.iter(), &[(2, "b"), (3, "e")]);
    map.remove_all(&7);
    assert_eq!(map.len(), 2);
    map.remove_all(&3);
    map.remove_all(&2);
    assert_eq!(map.len(), 0);
}
