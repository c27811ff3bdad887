use http::header::{HeaderName, HeaderValue};
use http::uri::Authority;
use http::Method;
use typed_headers::host::{check_host_defined, index_after_last, Host};
use typed_headers::http_date::HttpDate;
use typed_headers::items::{parse_language_tag, parse_mime};
use typed_headers::util::{check_valid_value, parse_extended_value, FromHeaderValue};

fn texts(alphabet: &[u8], max_len: usize) -> Vec<Vec<u8>> {
    let mut all: Vec<Vec<u8>> = vec![vec![]];
    let mut last: Vec<Vec<u8>> = vec![vec![]];
    for _ in 0..max_len {
        let mut next = Vec::new();
        for text in &last {
            for &b in alphabet {
                let mut longer = text.clone();
                longer.push(b);
                next.push(longer);
            }
        }
        all.extend(next.iter().cloned());
        last = next;
    }
    all
}

fn is_tchar(b: u8) -> bool {
    b.is_ascii_alphanumeric() || b"!#$%&'*+-.^_`|~".contains(&b)
}

fn is_method_byte(b: u8) -> bool {
    b.is_ascii_alphanumeric() || b"!*+-.^_`|~".contains(&b)
}

#[test]
fn names_methods_and_values_byte_by_byte() {
    for b in 0..=255u8 {
        for text in [vec![b], vec![b'a', b], vec![b; 64], vec![b; 65], vec![b; 200]] {
            let name = is_tchar(b) || b == b'"';
            assert_eq!(HeaderName::from_header_value(&text).is_ok(), name, "{}", b);
            assert_eq!(HeaderName::from_bytes(&text).is_ok(), name, "{}", b);
            if name {
                let read = HeaderName::from_header_value(&text).unwrap();
                assert_eq!(read.as_str().as_bytes(), text.to_ascii_lowercase());
            }
            assert_eq!(Method::from_header_value(&text).is_ok(), is_method_byte(b), "{}", b);
            if is_method_byte(b) {
                assert_eq!(Method::from_header_value(&text).unwrap().as_str().as_bytes(), text);
            }
            let value = (b >= 32 && b != 127) || b == b'\t';
            assert_eq!(check_valid_value(&text), value);
            assert_eq!(HeaderValue::from_bytes(&text).is_ok(), value);
            if value {
                let visible = (32..127).contains(&b) || b == b'\t';
                assert_eq!(HeaderValue::from_bytes(&text).unwrap().to_str().is_ok(), visible);
            }
        }
    }
    assert!(HeaderName::from_header_value(b"").is_err());
    assert!(Method::from_header_value(b"").is_err());
    assert!(HeaderName::from_header_value(&vec![b'a'; 65535]).is_ok());
    assert!(HeaderName::from_header_value(&vec![b'a'; 65536]).is_err());
    assert!(HeaderName::from_header_value(&vec![b'a'; 70000]).is_err());
}

fn host_part(text: &[u8]) -> Vec<u8> {
    let hp = &text[index_after_last(text, b'@')..];
    if hp[0] == b'[' {
        let close = hp.iter().position(|b| *b == b']').unwrap();
        hp[..close + 1].to_vec()
    } else {
        let colon = hp.iter().position(|b| *b == b':').unwrap_or(hp.len());
        hp[..colon].to_vec()
    }
}

fn port_part(text: &[u8]) -> Option<u16> {
    let after = index_after_last(text, b':');
    if after == 0 {
        None
    } else {
        std::str::from_utf8(&text[after..]).unwrap().parse::<u16>().ok()
    }
}

#[test]
fn hosts_and_ports_of_authorities() {
    let mut seen = 0;
    for text in texts(b"a:@[]1+", 6) {
        let parsed = Authority::from_shared(bytes::Bytes::from(&text[..]));
        let read = Host::from_authority_text(&text);
        match parsed {
            Err(_) => assert!(read.is_err()),
            Ok(authority) => {
                assert_eq!(authority.as_str().as_bytes(), &text[..]);
                assert_eq!(authority.port_u16(), port_part(&text));
                if check_host_defined(&text) {
                    seen += 1;
                    let host = read.unwrap();
                    assert_eq!(host.host().as_bytes(), &host_part(&text)[..]);
                    assert_eq!(host.host(), authority.host());
                    assert_eq!(host.port(), port_part(&text));
                    assert_eq!(Host::checked_from_authority(&authority), Some(host));
                } else {
                    assert!(read.is_err());
                    assert_eq!(Host::checked_from_authority(&authority), None);
                }
            }
        }
    }
    assert!(seen > 1000);
    assert_eq!(index_after_last(b"a@b@c", b'@'), 4);
    assert_eq!(index_after_last(b"abc", b'@'), 0);
    assert_eq!(index_after_last(b"", b'@'), 0);
}

fn hex(b: u8) -> Option<u8> {
    (b as char).to_digit(16).map(|d| d as u8)
}

fn percent_decoded(s: &[u8]) -> Vec<u8> {
    if s.is_empty() {
        return Vec::new();
    }
    if s[0] == b'%' && s.len() >= 3 {
        if let (Some(h), Some(l)) = (hex(s[1]), hex(s[2])) {
            let mut out = vec![h * 16 + l];
            out.extend(percent_decoded(&s[3..]));
            return out;
        }
    }
    let mut out = vec![s[0]];
    out.extend(percent_decoded(&s[1..]));
    out
}

#[test]
fn percent_decoding_of_short_texts() {
    for text in texts(b"%a2Gf", 6) {
        let mut whole = b"utf-8''".to_vec();
        whole.extend(&text);
        let value = parse_extended_value(std::str::from_utf8(&whole).unwrap()).unwrap();
        assert_eq!(value.value, percent_decoded(&text), "{:?}", text);
    }
}

#[test]
fn outside_readers_take_every_short_text() {
    let mut media = 0;
    for text in texts(b"t/;=\" *+", 6) {
        if let Some(mime) = parse_mime(&text) {
            media += 1;
            let written = mime.to_string();
            assert_eq!(parse_mime(written.as_bytes()), Some(mime));
        }
    }
    assert!(media > 0);
    let mut tags = 0;
    for text in texts(b"ax1- G", 6) {
        if let Some(tag) = parse_language_tag(&text) {
            tags += 1;
            let written = tag.to_string();
            assert_eq!(parse_language_tag(written.as_bytes()), Some(tag));
        }
    }
    assert!(tags > 0);
    for text in texts(b"S,1: GMT-", 5) {
        let s = std::str::from_utf8(&text).unwrap();
        assert!(HttpDate::from_str(s).is_err());
    }
    for text in [
        "\u{e9}",
        "text/\u{e9}",
        "Sun, 06 Nov 1994 08:49:37 GM\u{e9}",
        "Sun, 31 Nov 1994 08:49:37 GMT",
        "Mon, 06 Nov 1994 08:49:37 GMT",
        "Sun, 06 Nov 1994 24:49:37 GMT",
        "Sun, 06 Nov 99999 08:49:37 GMT",
        "Sunday, 06-Nov-94 08:49:37 GMT ",
    ] {
        assert!(parse_mime(text.as_bytes()).is_none());
        assert!(HttpDate::from_str(text).is_err(), "{}", text);
    }
    assert!(parse_language_tag("\u{e9}".as_bytes()).is_none());
    assert!(parse_mime(b"\xff").is_none());
    assert!(parse_language_tag(b"\xff").is_none());
}
