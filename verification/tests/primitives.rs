use typed_headers::number::{format_u64, parse_number};
use typed_headers::text::{
    bytes_as_str, bytes_eq, bytes_eq_ignore_case, bytes_to_string, check_visible_ascii,
    contains_byte, find_byte, lower_bytes, split_bytes, split_in_two, trim_bytes,
    trim_matches_bytes,
};
use typed_headers::token68::is_token68;
use typed_headers::util::is_token;

fn texts(alphabet: &[u8], max_len: usize) -> Vec<Vec<u8>> {
    let mut all: Vec<Vec<u8>> = vec![vec![]];
    let mut last: Vec<Vec<u8>> = vec![vec![]];
    for _ in 0..max_len {
        let mut next = Vec::new();
        for text in &last {
            for &b in alphabet {
                let mut longer = text.clone();
                longer.push(b);
                next.push(longer);
            }
        }
        all.extend(next.iter().cloned());
        last = next;
    }
    all
}

#[test]
fn trimming_is_the_trimming_of_strings() {
    for text in texts(b" \t\n\r\x0b\x0ca", 5) {
        let s = std::str::from_utf8(&text).unwrap();
        assert_eq!(trim_bytes(&text), s.trim().as_bytes(), "{:?}", s);
    }
    for text in texts(b"\"a ", 6) {
        let s = std::str::from_utf8(&text).unwrap();
        assert_eq!(trim_matches_bytes(&text, b'"'), s.trim_matches('"').as_bytes(), "{:?}", s);
    }
}

#[test]
fn splitting_is_the_splitting_of_strings() {
    for text in texts(b",a ", 6) {
        let s = std::str::from_utf8(&text).unwrap();
        let expected: Vec<&[u8]> = s.split(',').map(|p| p.as_bytes()).collect();
        assert_eq!(split_bytes(&text, b','), expected, "{:?}", s);
        let mut halves = s.splitn(2, ',');
        let expected = match (halves.next(), halves.next()) {
            (Some(a), Some(b)) => Some((a.as_bytes(), b.as_bytes())),
            _ => None,
        };
        assert_eq!(split_in_two(&text, b','), expected, "{:?}", s);
        assert_eq!(find_byte(&text, b','), s.find(',').unwrap_or(s.len()));
        assert_eq!(contains_byte(&text, b','), s.contains(','));
    }
}

#[test]
fn case_is_the_case_of_ascii() {
    let every: Vec<u8> = (0..=255u8).collect();
    assert_eq!(lower_bytes(&every), every.to_ascii_lowercase());
    for a in 0..=255u8 {
        for b in [a, a.wrapping_add(32), a.wrapping_sub(32), b'a', b'Z', b'[', b'@', b'`'] {
            assert_eq!(bytes_eq_ignore_case(&[a], &[b]), [a].eq_ignore_ascii_case(&[b]));
            assert_eq!(bytes_eq(&[a], &[b]), a == b);
        }
        let text = [a];
        let visible = (32..127).contains(&a) || a == b'\t';
        assert_eq!(check_visible_ascii(&text), visible);
        if let Ok(s) = std::str::from_utf8(&text) {
            let tchar = a.is_ascii_alphanumeric() || b"!#$%&'*+-.^_`|~".contains(&a);
            assert_eq!(is_token(s), tchar, "{}", a);
        }
        let data = a.is_ascii_alphanumeric() || b"-._~+/".contains(&a);
        assert_eq!(is_token68(&text), data, "{}", a);
        assert_eq!(is_token68(&[b'x', a]), data || a == b'=', "{}", a);
    }
    assert!(!bytes_eq_ignore_case(b"ab", b"a"));
    assert!(bytes_eq_ignore_case(b"", b""));
}

#[test]
fn numbers_are_the_numbers_of_strings() {
    for text in texts(b"+-0129 ", 4) {
        let s = std::str::from_utf8(&text).unwrap();
        assert_eq!(parse_number(&text, u64::MAX), s.parse::<u64>().ok(), "{:?}", s);
        assert_eq!(parse_number(&text, 255), s.parse::<u8>().ok().map(u64::from), "{:?}", s);
        assert_eq!(parse_number(&text, 0), s.parse::<u64>().ok().filter(|n| *n == 0));
    }
    for n in [0, 1, 9, 10, 99, 100, 12345, u64::MAX - 1, u64::MAX] {
        assert_eq!(format_u64(n), n.to_string().into_bytes());
        assert_eq!(parse_number(&format_u64(n), u64::MAX), Some(n));
    }
    assert_eq!(parse_number(b"18446744073709551616", u64::MAX), None);
    assert_eq!(parse_number(b"65536", 65535), None);
    assert_eq!(parse_number(b"65535", 65535), Some(65535));
}

#[test]
fn strings_and_bytes() {
    assert_eq!(bytes_to_string(b"caf\xc3\xa9".to_vec()), Some("caf\u{e9}".to_string()));
    assert_eq!(bytes_to_string(b"caf\xe9".to_vec()), None);
    assert_eq!(bytes_to_string(Vec::new()), Some(String::new()));
    assert_eq!(bytes_as_str(b"caf\xc3\xa9"), Some("caf\u{e9}"));
    assert_eq!(bytes_as_str(b"\xc3"), None);
}
