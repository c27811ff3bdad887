//! What holds of the generic codecs: the laws that relate reading and
//! writing.

use vstd::prelude::*;
use crate::error::ErrorKind;
use crate::text::{
    index_of, is_ows, is_visible, is_visible_ascii, is_whitespace, lemma_index_of,
    lemma_index_of_absent, lemma_split_append, lemma_trim_blank, lemma_trim_clean, split, trim,
};
use crate::util::{
    AnyOr, FromHeaderValue, all_list_elements, comma_delimited, comma_delimited_text, entry_items,
    escaped, hex_digit, hex_value, is_list_element, is_value_byte, joined, list_items, list_or_any,
    list_or_any_taken, needs_escape, one_or_more, parsed_pieces, percent_decoded, percent_encoded,
    separator, texts,
};

verus! {

/// The text of octets that begin with the octet `b` begins with what `b`
/// is written as.
proof fn lemma_percent_encoded_first(b: u8, rest: Seq<u8>)
    ensures
        percent_encoded(seq![b] + rest) == escaped(b) + percent_encoded(rest),
    decreases rest.len(),
{
    let all = seq![b] + rest;
    if rest.len() == 0 {
        assert(all.drop_last() =~= Seq::<u8>::empty());
        assert(percent_encoded(all.drop_last()) =~= Seq::<u8>::empty());
        assert(percent_encoded(all) =~= escaped(b));
        assert(escaped(b) + percent_encoded(rest) =~= escaped(b));
    } else {
        lemma_percent_encoded_first(b, rest.drop_last());
        assert(all.drop_last() =~= seq![b] + rest.drop_last());
        assert(all.last() == rest.last());
        assert(percent_encoded(all) =~= escaped(b) + percent_encoded(rest.drop_last()) + escaped(
            rest.last(),
        ));
    }
}

/// A hexadecimal digit stands for the number that it was written for.
proof fn lemma_hex_digit(n: u8)
    requires
        n < 16,
    ensures
        hex_value(hex_digit(n)) == Some(n),
        hex_digit(n) != '%' as u8,
{
}

/// What an octet is written as, before any text, stands for the octet
/// before what the text stands for.
proof fn lemma_percent_decoded_first(b: u8, text: Seq<u8>)
    ensures
        percent_decoded(escaped(b) + text) == seq![b] + percent_decoded(text),
{
    let all = escaped(b) + text;
    if needs_escape(b) {
        lemma_hex_digit(b / 16);
        lemma_hex_digit(b % 16);
        assert(all[0] == '%' as u8);
        assert(all[1] == hex_digit(b / 16));
        assert(all[2] == hex_digit(b % 16));
        assert(all.skip(3) =~= text);
        assert((b / 16) * 16 + b % 16 == b);
    } else {
        assert(all[0] == b);
        assert(b != '%' as u8);
        assert(all.skip(1) =~= text);
    }
}

/// Octets that are percent-encoded and decoded again are the same octets.
pub proof fn law_percent_round_trip(octets: Seq<u8>)
    ensures
        percent_decoded(percent_encoded(octets)) == octets,
    decreases octets.len(),
{
    if octets.len() == 0 {
        assert(percent_encoded(octets) =~= Seq::<u8>::empty());
        assert(percent_decoded(Seq::<u8>::empty()) =~= Seq::<u8>::empty());
    } else {
        let b = octets[0];
        let rest = octets.drop_first();
        assert(octets =~= seq![b] + rest);
        lemma_percent_encoded_first(b, rest);
        lemma_percent_decoded_first(b, percent_encoded(rest));
        law_percent_round_trip(rest);
    }
}

/// What makes an item fit for a list that is read back as it was written:
/// its text is read as the item, is visible ASCII, is not empty, holds no
/// comma, and has no white space at either end.
pub open spec fn element_is_faithful<T: FromHeaderValue>(item: T::Model) -> bool {
    let text = T::rendered(item);
    &&& T::parsed(text) == Some(item)
    &&& is_visible_ascii(text)
    &&& text.len() > 0
    &&& !text.contains(',' as u8)
    &&& !is_whitespace(text[0])
    &&& !is_whitespace(text.last())
}

/// What no piece at all, and what one more piece, denotes.
proof fn lemma_parsed_pieces_step<T: FromHeaderValue>(pieces: Seq<Seq<u8>>, piece: Seq<u8>)
    ensures
        parsed_pieces::<T>(Seq::<Seq<u8>>::empty()) == Some(Seq::<T::Model>::empty()),
        parsed_pieces::<T>(pieces.push(piece)) == match parsed_pieces::<T>(pieces) {
            None => None,
            Some(items) => if trim(piece).len() == 0 {
                Some(items)
            } else {
                match T::parsed(trim(piece)) {
                    Some(item) => Some(items.push(item)),
                    None => None,
                }
            },
        },
{
    assert(pieces.push(piece).drop_last() =~= pieces);
    assert(pieces.push(piece).last() == piece);
}

/// The joined text of faithful items is visible ASCII.
proof fn lemma_joined_visible<T: FromHeaderValue>(items: Seq<T::Model>)
    requires
        forall|i: int| 0 <= i < items.len() ==> element_is_faithful::<T>(#[trigger] items[i]),
    ensures
        is_visible_ascii(joined(texts::<T>(items))),
        all_list_elements(texts::<T>(items)),
    decreases items.len(),
{
    let ts = texts::<T>(items);
    assert forall|i: int| 0 <= i < ts.len() implies is_list_element(#[trigger] ts[i]) by {
        assert(element_is_faithful::<T>(items[i]));
    }
    if items.len() == 1 {
        assert(element_is_faithful::<T>(items[0]));
    } else if items.len() > 1 {
        let head = items.drop_last();
        assert forall|i: int| 0 <= i < head.len() implies element_is_faithful::<T>(
            #[trigger] head[i],
        ) by {
            assert(head[i] == items[i]);
        }
        lemma_joined_visible::<T>(head);
        assert(ts.drop_last() =~= texts::<T>(head));
        let front = joined(texts::<T>(head));
        let t = ts.last();
        assert(element_is_faithful::<T>(items.last()));
        let whole = joined(ts);
        assert(whole =~= front + separator() + t);
        assert forall|i: int| 0 <= i < whole.len() implies is_visible(
            #[trigger] whole[i],
        ) by {
            if i < front.len() {
                assert(whole[i] == front[i]);
            } else if i >= front.len() + 2 {
                assert(whole[i] == t[i - front.len() - 2]);
            }
        }
    }
}

/// A space and text without a comma hold no comma.
proof fn lemma_spaced_has_no_comma(t: Seq<u8>)
    requires
        !t.contains(',' as u8),
    ensures
        !(seq![' ' as u8] + t).contains(',' as u8),
{
    let y = seq![' ' as u8] + t;
    if y.contains(',' as u8) {
        let i = choose|i: int| 0 <= i < y.len() && y[i] == ',' as u8;
        assert(t[i - 1] == ',' as u8);
        assert(t.contains(',' as u8));
    }
}

/// The pieces of the joined text of faithful items denote the items.
proof fn lemma_joined_pieces<T: FromHeaderValue>(items: Seq<T::Model>)
    requires
        forall|i: int| 0 <= i < items.len() ==> element_is_faithful::<T>(#[trigger] items[i]),
    ensures
        parsed_pieces::<T>(split(joined(texts::<T>(items)), ',' as u8)) == Some(items),
    decreases items.len(),
{
    let ts = texts::<T>(items);
    let sep = ',' as u8;
    let none = Seq::<Seq<u8>>::empty();
    if items.len() == 0 {
        let blank = Seq::<u8>::empty();
        lemma_parsed_pieces_step::<T>(none, blank);
        assert(split(joined(ts), sep) =~= none.push(blank));
        assert(items =~= Seq::<T::Model>::empty());
    } else {
        let last = items.last();
        let t = ts.last();
        assert(element_is_faithful::<T>(last));
        lemma_trim_clean(t);
        if items.len() == 1 {
            lemma_index_of_absent(t, sep);
            lemma_parsed_pieces_step::<T>(none, t);
            assert(split(joined(ts), sep) =~= none.push(t));
            assert(Seq::<T::Model>::empty().push(last) =~= items);
        } else {
            let head = items.drop_last();
            assert forall|i: int| 0 <= i < head.len() implies element_is_faithful::<T>(
                #[trigger] head[i],
            ) by {
                assert(head[i] == items[i]);
            }
            lemma_joined_pieces::<T>(head);
            assert(ts.drop_last() =~= texts::<T>(head));
            let front = joined(texts::<T>(head));
            let y = seq![' ' as u8] + t;
            assert(joined(ts) =~= front + seq![sep] + y);
            lemma_spaced_has_no_comma(t);
            lemma_split_append(front, y, sep);
            lemma_parsed_pieces_step::<T>(split(front, sep), y);
            assert(head.push(last) =~= items);
        }
    }
}

/// A list of faithful items is read back as it was written: it is encoded
/// as the texts of its items, joined by a comma and a space, and that one
/// entry decodes to the same items in the same order.
pub proof fn law_list_round_trip<T: FromHeaderValue>(items: Seq<T::Model>)
    requires
        forall|i: int| 0 <= i < items.len() ==> element_is_faithful::<T>(#[trigger] items[i]),
    ensures
        comma_delimited_text(texts::<T>(items)) == Some(joined(texts::<T>(items))),
        comma_delimited::<T>(seq![joined(texts::<T>(items))]) == Ok::<
            Option<Seq<T::Model>>,
            ErrorKind,
        >(Some(items)),
{
    lemma_joined_pieces::<T>(items);
    lemma_joined_visible::<T>(items);
    let text = joined(texts::<T>(items));
    assert forall|i: int| 0 <= i < text.len() implies is_value_byte(#[trigger] text[i]) by {
        assert(is_visible(text[i]));
    }
    let entries = seq![text];
    assert(entries.drop_last() =~= Seq::<Seq<u8>>::empty());
    assert(list_items::<T>(Seq::<Seq<u8>>::empty()) == Some(Seq::<T::Model>::empty()));
    assert(Seq::<T::Model>::empty() + items =~= items);
}

/// Text that holds commas, spaces and tabs only.
pub open spec fn is_blank_list(s: Seq<u8>) -> bool {
    forall|i: int| 0 <= i < s.len() ==> #[trigger] s[i] == ',' as u8 || is_ows(s[i])
}

/// A blank piece before other pieces does not change what they denote.
proof fn lemma_blank_piece_first<T: FromHeaderValue>(piece: Seq<u8>, rest: Seq<Seq<u8>>)
    requires
        trim(piece).len() == 0,
    ensures
        parsed_pieces::<T>(seq![piece] + rest) == parsed_pieces::<T>(rest),
    decreases rest.len(),
{
    let all = seq![piece] + rest;
    let none = Seq::<Seq<u8>>::empty();
    if rest.len() == 0 {
        lemma_parsed_pieces_step::<T>(none, piece);
        assert(all =~= none.push(piece));
        assert(rest =~= none);
    } else {
        let head = rest.drop_last();
        lemma_blank_piece_first::<T>(piece, head);
        lemma_parsed_pieces_step::<T>(seq![piece] + head, rest.last());
        lemma_parsed_pieces_step::<T>(head, rest.last());
        assert(all =~= (seq![piece] + head).push(rest.last()));
        assert(rest =~= head.push(rest.last()));
    }
}

/// The pieces of blank text denote no item.
proof fn lemma_blank_pieces<T: FromHeaderValue>(s: Seq<u8>)
    requires
        is_blank_list(s),
    ensures
        parsed_pieces::<T>(split(s, ',' as u8)) == Some(Seq::<T::Model>::empty()),
    decreases s.len(),
{
    let sep = ',' as u8;
    let k = index_of(s, sep) as int;
    lemma_index_of(s, sep);
    let first = if k >= s.len() {
        s
    } else {
        s.take(k)
    };
    assert forall|i: int| 0 <= i < first.len() implies is_whitespace(
        #[trigger] first[i],
    ) by {
        assert(first[i] == s[i]);
        assert(s[i] != sep);
    }
    lemma_trim_blank(first);
    if k >= s.len() {
        let none = Seq::<Seq<u8>>::empty();
        lemma_parsed_pieces_step::<T>(none, s);
        assert(split(s, sep) =~= none.push(s));
    } else {
        let rest = s.skip(k + 1);
        assert forall|i: int| 0 <= i < rest.len() implies #[trigger] rest[i] == sep
            || is_ows(rest[i]) by {
            assert(rest[i] == s[i + k + 1]);
        }
        lemma_blank_pieces::<T>(rest);
        lemma_blank_piece_first::<T>(first, split(rest, sep));
    }
}

/// Blank entries denote no item.
proof fn lemma_blank_entries<T: FromHeaderValue>(entries: Seq<Seq<u8>>)
    requires
        forall|i: int| 0 <= i < entries.len() ==> is_blank_list(#[trigger] entries[i]),
    ensures
        list_items::<T>(entries) == Some(Seq::<T::Model>::empty()),
    decreases entries.len(),
{
    if entries.len() > 0 {
        let head = entries.drop_last();
        assert forall|i: int| 0 <= i < head.len() implies is_blank_list(#[trigger] head[i]) by {
            assert(head[i] == entries[i]);
        }
        lemma_blank_entries::<T>(head);
        let e = entries.last();
        assert(is_blank_list(e));
        lemma_blank_pieces::<T>(e);
        assert forall|i: int| 0 <= i < e.len() implies is_visible(
            #[trigger] e[i],
        ) by {}
        assert(Seq::<T::Model>::empty() + Seq::<T::Model>::empty() =~= Seq::<T::Model>::empty());
    }
}

/// A header of one item or more is absent where there is no entry, and has
/// too few values where there are entries but all of them are blank: made
/// of commas, spaces and tabs only, as a lone comma is.
pub proof fn law_one_or_more<T: FromHeaderValue>(entries: Seq<Seq<u8>>)
    ensures
        entries.len() == 0 ==> one_or_more::<T>(entries) == Ok::<Option<Seq<T::Model>>, ErrorKind>(
            None,
        ),
        entries.len() > 0 && (forall|i: int|
            0 <= i < entries.len() ==> is_blank_list(#[trigger] entries[i])) ==> one_or_more::<T>(
            entries,
        ) == Err::<Option<Seq<T::Model>>, ErrorKind>(ErrorKind::TooFewValues),
{
    if entries.len() > 0 && (forall|i: int|
        0 <= i < entries.len() ==> is_blank_list(#[trigger] entries[i])) {
        lemma_blank_entries::<T>(entries);
    }
}

/// Entries that begin with the wildcard are the wildcard, whatever follows
/// the first entry, and all of them are read.
pub proof fn law_wildcard<T: FromHeaderValue>(entries: Seq<Seq<u8>>)
    requires
        entries.len() > 0,
        entries[0] == seq!['*' as u8],
    ensures
        list_or_any::<T>(entries) == Ok::<Option<AnyOr<Seq<T::Model>>>, ErrorKind>(
            Some(AnyOr::Any),
        ),
        list_or_any_taken::<T>(entries) == entries.len(),
{
    lemma_trim_clean(entries[0]);
}

/// An item that some text denotes.
pub open spec fn is_parsed<T: FromHeaderValue>(item: T::Model) -> bool {
    exists|s: Seq<u8>| #[trigger] T::parsed(s) == Some(item)
}

/// What pieces denote are items that some text denotes.
pub proof fn lemma_pieces_are_parsed<T: FromHeaderValue>(pieces: Seq<Seq<u8>>)
    ensures
        parsed_pieces::<T>(pieces) matches Some(items) ==> forall|i: int|
            0 <= i < items.len() ==> is_parsed::<T>(#[trigger] items[i]),
    decreases pieces.len(),
{
    if pieces.len() > 0 {
        lemma_pieces_are_parsed::<T>(pieces.drop_last());
        match parsed_pieces::<T>(pieces) {
            None => {},
            Some(items) => {
                let head = parsed_pieces::<T>(pieces.drop_last())->0;
                let e = trim(pieces.last());
                assert forall|i: int| 0 <= i < items.len() implies is_parsed::<T>(
                    #[trigger] items[i],
                ) by {
                    if i < head.len() {
                        assert(items[i] == head[i]);
                    } else {
                        assert(T::parsed(e) == Some(items[i]));
                    }
                }
            },
        }
    }
}

/// What the entries of a list denote are items that some text denotes.
pub proof fn lemma_items_are_parsed<T: FromHeaderValue>(entries: Seq<Seq<u8>>)
    ensures
        list_items::<T>(entries) matches Some(items) ==> forall|i: int|
            0 <= i < items.len() ==> is_parsed::<T>(#[trigger] items[i]),
    decreases entries.len(),
{
    if entries.len() > 0 {
        lemma_items_are_parsed::<T>(entries.drop_last());
        match list_items::<T>(entries) {
            None => {},
            Some(items) => {
                let head = list_items::<T>(entries.drop_last())->0;
                let more = entry_items::<T>(entries.last())->0;
                lemma_pieces_are_parsed::<T>(split(entries.last(), ',' as u8));
                assert forall|i: int| 0 <= i < items.len() implies is_parsed::<T>(
                    #[trigger] items[i],
                ) by {
                    if i < head.len() {
                        assert(items[i] == head[i]);
                    } else {
                        assert(items[i] == more[i - head.len()]);
                    }
                }
            },
        }
    }
}

} // verus!
