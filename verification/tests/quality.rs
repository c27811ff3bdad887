use typed_headers::error::Error;
use typed_headers::quality::{Quality, QualityItem, WeightParser};
use typed_headers::util::{FromHeaderValue, ToHeaderValue};

#[derive(Debug, Clone, PartialEq)]
struct Item;

impl ToHeaderValue for Item {
    type Model = ();

    fn to_header_value(&self) -> String {
        "item".to_string()
    }
}

impl FromHeaderValue for Item {
    fn from_header_value(s: &[u8]) -> Result<Item, Error> {
        if s == b"item" {
            Ok(Item)
        } else {
            Err(Error::invalid_value())
        }
    }
}

fn qitem(quality: u16) -> QualityItem<Item> {
    QualityItem {
        item: Item,
        quality: Quality::from_u16(quality),
    }
}

fn parse(s: &str) -> Result<QualityItem<Item>, Error> {
    QualityItem::<Item>::from_str(s)
}

#[test]
fn parse_ok() {
    assert_eq!(qitem(1000), parse("item").unwrap());
    assert_eq!(qitem(1000), parse("item; q=1").unwrap());
    assert_eq!(qitem(1000), parse("item; Q=1").unwrap());
    assert_eq!(qitem(1000), parse("item ;q=1").unwrap());
    assert_eq!(qitem(1000), parse("item; q=1.").unwrap());
    assert_eq!(qitem(1000), parse("item; q=1.0").unwrap());
    assert_eq!(qitem(1000), parse("item; q=1.00").unwrap());
    assert_eq!(qitem(1000), parse("item; q=1.000").unwrap());

    assert_eq!(qitem(0), parse("item; q=0").unwrap());
    assert_eq!(qitem(0), parse("item; q=0.").unwrap());
    assert_eq!(qitem(0), parse("item; q=0.0").unwrap());
    assert_eq!(qitem(0), parse("item; q=0.00").unwrap());
    assert_eq!(qitem(0), parse("item; q=0.000").unwrap());

    assert_eq!(qitem(100), parse("item; q=0.1").unwrap());
    assert_eq!(qitem(100), parse("item; q=0.10").unwrap());
    assert_eq!(qitem(100), parse("item; q=0.100").unwrap());
    assert_eq!(qitem(120), parse("item; q=0.12").unwrap());
    assert_eq!(qitem(120), parse("item; q=0.120").unwrap());
    assert_eq!(qitem(123), parse("item; q=0.123").unwrap());
}

#[test]
fn parse_err() {
    assert!(parse("item; q=").is_err());
    assert!(parse("item; q=.1").is_err());
    assert!(parse("item; q=1.1").is_err());
    assert!(parse("item; q=1.01").is_err());
    assert!(parse("item; q=1.001").is_err());
    assert!(parse("item; q=0.0001").is_err());
}

#[test]
fn display() {
    assert_eq!(qitem(1000).to_string(), "item");
    assert_eq!(qitem(0).to_string(), "item; q=0");
    assert_eq!(qitem(1).to_string(), "item; q=0.001");
    assert_eq!(qitem(10).to_string(), "item; q=0.01");
    assert_eq!(qitem(100).to_string(), "item; q=0.1");
}

#[test]
fn weight_offsets() {
    let (end, q) = WeightParser::parse(b"text/html;q=0.8").unwrap();
    assert_eq!(end, 9);
    assert_eq!(q.as_u16(), 800);
    let (end, q) = WeightParser::parse(b"a \t; \tq=0.25  ").unwrap();
    assert_eq!(end, 1);
    assert_eq!(q.as_u16(), 250);
    assert!(WeightParser::parse(b"text/html").is_none());
    assert!(WeightParser::parse(b"q=0.5").is_none());
    assert!(WeightParser::parse(b"a;x=0.5").is_none());
    assert!(WeightParser::parse(b"a;q=2").is_none());
    assert!(WeightParser::parse(b"a;q=0.5x").is_none());
    assert_eq!(WeightParser::parse(b";q=1").unwrap().0, 0);
}

#[test]
fn every_quality_is_read_back() {
    for q in 0..=1000u16 {
        let text = qitem(q).to_string();
        let back = parse(&text).unwrap();
        assert_eq!(back.quality.as_u16(), q, "{}", text);
    }
}

#[test]
fn checked_quality() {
    assert_eq!(Quality::checked_from_u16(1000).unwrap().as_u16(), 1000);
    assert!(Quality::checked_from_u16(1001).is_none());
}

#[test]
fn reading_twice_changes_nothing() {
    for text in [
        "item",
        "item;q=0.50",
        "item ; Q=0.500 ",
        "item\t;\tq=1.000",
        "item; q=0.",
        "item;q=0.007",
        "item;q=1",
    ] {
        let first = parse(text).unwrap();
        let written = first.to_string();
        let second = parse(&written).unwrap();
        assert_eq!(first, second);
        assert_eq!(second.to_string(), written);
    }
    assert_eq!(parse("item;q=0.50").unwrap().to_string(), "item; q=0.5");
    assert_eq!(parse("item; q=0.500 ").unwrap().to_string(), "item; q=0.5");
}

#[test]
fn scanner_steps() {
    let mut parser = WeightParser::new(b"ab \t7");
    assert_eq!(parser.position(), 5);
    assert_eq!(parser.peek(), Some(b'7'));
    assert_eq!(parser.eat(b'8'), None);
    assert_eq!(parser.digit(), Some(7));
    assert_eq!(parser.digit(), None);
    parser.ows();
    assert_eq!(parser.position(), 2);
    assert_eq!(parser.qvalue(), None);
    assert_eq!(parser.position(), 2);
    assert_eq!(parser.eat(b'b'), Some(()));
    assert_eq!(parser.next(), Some(b'a'));
    assert_eq!(parser.next(), None);
    assert_eq!(parser.peek(), None);

    let mut parser = WeightParser::new(b"x=0.25");
    assert_eq!(parser.qvalue(), Some(250));
    assert_eq!(parser.position(), 2);
    let mut parser = WeightParser::new(b"x=1.25");
    assert_eq!(parser.qvalue(), None);
    assert_eq!(parser.position(), 6);
    let mut parser = WeightParser::new(b"=1");
    assert_eq!(parser.qvalue(), Some(1000));
    assert_eq!(parser.position(), 1);
    let mut parser = WeightParser::new(b"1");
    assert_eq!(parser.qvalue(), None);
    let mut parser = WeightParser::new(b"01.000");
    assert_eq!(parser.qvalue(), Some(1000));
    assert_eq!(parser.position(), 1);
}

#[test]
fn qualities_are_ordered_as_their_weights() {
    let low = Quality::from_u16(1);
    let high = Quality::from_u16(1000);
    assert!(low < high);
    assert!(high > low);
    assert!(low <= low);
    assert!(Quality::from_u16(0) < low);
    assert_eq!(low.partial_cmp(&high), Some(low.cmp(&high)));
    assert_eq!(high.partial_cmp(&low), Some(high.cmp(&low)));
    assert_eq!(low.partial_cmp(&low), Some(low.cmp(&low)));
    assert_eq!(low.max(high), high);
}

#[test]
fn an_item_text_that_ends_like_a_weight_is_not_read_back() {
    let first = QualityItem::<String>::from_str("a;q=0.5;q=1").unwrap();
    assert_eq!(first.item, "a;q=0.5");
    assert_eq!(first.quality.as_u16(), 1000);
    let written = first.to_string();
    assert_eq!(written, "a;q=0.5");
    let second = QualityItem::<String>::from_str(&written).unwrap();
    assert_eq!(second.item, "a");
    assert_eq!(second.quality.as_u16(), 500);
}
