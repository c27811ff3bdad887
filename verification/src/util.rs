//! The grammar primitives and the generic codecs that the header catalog is
//! built from.

use vstd::prelude::*;
use vstd::string::StringSliceAdditionalSpecFns;
use vstd::utf8::{encode_utf8, valid_utf8};
use language_tags::LanguageTag;
use crate::charset::{charset_text, Charset};
use crate::error::{Error, ErrorKind};
use crate::items::{language_tag_parsed, language_tag_text, parse_language_tag};
use crate::text::{
    check_visible_ascii, is_alpha, is_digit, is_visible_ascii, push_all, split, split_bytes,
    split_in_two, split_once, trim, trim_bytes,
};

verus! {

/// A `tchar` of the HTTP grammar: a letter, a digit, or one of
/// ``!#$%&'*+-.^_`|~``.
pub open spec fn is_tchar(b: u8) -> bool {
    is_alpha(b) || is_digit(b) || b == '!' as u8 || b == '#' as u8 || b == '$' as u8 || b
        == '%' as u8 || b == '&' as u8 || b == '\'' as u8 || b == '*' as u8 || b == '+' as u8 || b
        == '-' as u8 || b == '.' as u8 || b == '^' as u8 || b == '_' as u8 || b == '`' as u8 || b
        == '|' as u8 || b == '~' as u8
}

/// A `token` of the HTTP grammar: one or more `tchar`s.
pub open spec fn is_token_text(s: Seq<u8>) -> bool {
    s.len() > 0 && forall|i: int| 0 <= i < s.len() ==> is_tchar(#[trigger] s[i])
}

/// Tells whether `b` is a `tchar`.
pub fn byte_is_tchar(b: u8) -> (r: bool)
    ensures
        r == is_tchar(b),
{
    ('a' as u8 <= b && b <= 'z' as u8) || ('A' as u8 <= b && b <= 'Z' as u8) || ('0' as u8 <= b
        && b <= '9' as u8) || b == '!' as u8 || b == '#' as u8 || b == '$' as u8 || b == '%' as u8
        || b == '&' as u8 || b == '\'' as u8 || b == '*' as u8 || b == '+' as u8 || b == '-' as u8
        || b == '.' as u8 || b == '^' as u8 || b == '_' as u8 || b == '`' as u8 || b == '|' as u8
        || b == '~' as u8
}

/// Tells whether the bytes are a `token`.
pub fn is_token_bytes(s: &[u8]) -> (r: bool)
    ensures
        r == is_token_text(s@),
{
    if s.len() == 0 {
        return false;
    }
    let mut i: usize = 0;
    while i < s.len()
        invariant
            i <= s.len(),
            forall|j: int| 0 <= j < i ==> is_tchar(#[trigger] s@[j]),
        decreases s.len() - i,
    {
        if !byte_is_tchar(s[i]) {
            return false;
        }
        i += 1;
    }
    true
}

/// Tells whether `s` is a `token`: non-empty, and made of `tchar`s only.
#[inline]
pub fn is_token(s: &str) -> (r: bool)
    ensures
        r == is_token_text(s.spec_bytes()),
{
    is_token_bytes(s.as_bytes())
}

/// A value that has a text form in a header.
///
/// `Model` is the mathematical value that an item stands for, `model` the
/// value of an item, and `rendered` the text of such a value; the text that
/// `to_header_value` returns is held to the two.
///
/// Every implementation in this crate states `model` and `rendered` and is
/// proved against them. The two have defaults, so that an implementation
/// elsewhere need only say how its values are written; it is then taken at
/// its word, and what is proved of a header built on it holds as far as its
/// `to_header_value` returns `rendered` of its model.
pub trait ToHeaderValue {
    type Model;

    /// The value that this item stands for.
    open spec fn model(&self) -> Self::Model {
        arbitrary()
    }

    /// The text of a value.
    open spec fn rendered(m: Self::Model) -> Seq<u8> {
        arbitrary()
    }

    /// The text of this item.
    fn to_header_value(&self) -> (s: String)
        ensures
            encode_utf8(s@) == Self::rendered(self.model()),
    ;
}

/// A value that can be read from its text form in a header.
///
/// `parsed` says which texts denote a value, and which value; a text that
/// denotes none is an invalid value. As in [`ToHeaderValue`], every
/// implementation in this crate states `parsed` and is proved against it,
/// and one elsewhere may leave it out and is then taken at its word.
pub trait FromHeaderValue: ToHeaderValue + Sized {
    /// The value that the text `s` denotes, if it denotes one.
    open spec fn parsed(s: Seq<u8>) -> Option<Self::Model> {
        arbitrary()
    }

    /// Reads an item from its text.
    fn from_header_value(s: &[u8]) -> (r: Result<Self, Error>)
        ensures
            match r {
                Ok(v) => Self::parsed(s@) == Some(v.model()),
                Err(e) => Self::parsed(s@) is None && e == Error(ErrorKind::InvalidValue),
            },
    ;
}

/// A byte that may stand in a header value on the wire: anything from 32
/// up but 127, or a horizontal tab.
pub open spec fn is_value_byte(b: u8) -> bool {
    (b >= 32 && b != 127) || b == 9
}

/// Text that may be sent as one header value.
pub open spec fn is_valid_value(s: Seq<u8>) -> bool {
    forall|i: int| 0 <= i < s.len() ==> is_value_byte(#[trigger] s[i])
}

/// Tells whether `s` may be sent as one header value.
pub fn check_valid_value(s: &[u8]) -> (r: bool)
    ensures
        r == is_valid_value(s@),
{
    let mut i: usize = 0;
    while i < s.len()
        invariant
            i <= s.len(),
            forall|j: int| 0 <= j < i ==> is_value_byte(#[trigger] s@[j]),
        decreases s.len() - i,
    {
        let b: u8 = s[i];
        if !((b >= 32 && b != 127) || b == 9) {
            return false;
        }
        i += 1;
    }
    true
}

/// The raw entries of a list of byte strings.
pub open spec fn raw_entries(entries: Seq<Vec<u8>>) -> Seq<Seq<u8>> {
    Seq::new(entries.len(), |i: int| entries[i]@)
}

/// The raw entries that a message holds for one header name, in order, with
/// a position: decoding a header reads entries from the front.
pub struct Values<'a> {
    entries: &'a [Vec<u8>],
    next: usize,
}

impl<'a> Values<'a> {
    #[verifier::type_invariant]
    spec fn in_bounds(self) -> bool {
        self.next <= self.entries@.len()
    }

    /// The entries not yet read.
    pub closed spec fn remaining(self) -> Seq<Seq<u8>> {
        raw_entries(self.entries@).skip(self.next as int)
    }

    /// All entries of one header name, none of them read yet.
    pub fn new(entries: &'a [Vec<u8>]) -> (v: Values<'a>)
        ensures
            v.remaining() == raw_entries(entries@),
    {
        assert(raw_entries(entries@).skip(0) =~= raw_entries(entries@));
        Values { entries, next: 0 }
    }

    /// Reads the next entry, if one is left.
    pub fn next(&mut self) -> (r: Option<&'a [u8]>)
        ensures
            match r {
                Some(e) => old(self).remaining().len() > 0 && e@ == old(self).remaining()[0]
                    && final(self).remaining() == old(self).remaining().skip(1),
                None => old(self).remaining().len() == 0 && final(self).remaining()
                    == old(self).remaining(),
            },
    {
        proof {
            use_type_invariant(&*self);
        }
        if self.next < self.entries.len() {
            let e = self.entries[self.next].as_slice();
            self.next = self.next + 1;
            assert(self.remaining() =~= old(self).remaining().skip(1));
            Some(e)
        } else {
            None
        }
    }

    /// The next entry, if one is left, without reading it.
    pub fn peek(&self) -> (r: Option<&'a [u8]>)
        ensures
            match r {
                Some(e) => self.remaining().len() > 0 && e@ == self.remaining()[0],
                None => self.remaining().len() == 0,
            },
    {
        proof {
            use_type_invariant(self);
        }
        if self.next < self.entries.len() {
            Some(self.entries[self.next].as_slice())
        } else {
            None
        }
    }

    /// Reads all entries that are left, and drops them.
    pub fn drain(&mut self)
        ensures
            final(self).remaining() == Seq::<Seq<u8>>::empty(),
    {
        proof {
            use_type_invariant(&*self);
        }
        self.next = self.entries.len();
        assert(self.remaining() =~= Seq::<Seq<u8>>::empty());
    }

    /// Number of entries not yet read.
    pub fn len(&self) -> (n: usize)
        ensures
            n == self.remaining().len(),
    {
        proof {
            use_type_invariant(self);
        }
        self.entries.len() - self.next
    }
}

/// The raw entries written for one header: every one of them is text that
/// may be sent as a header value.
pub struct ToValues {
    entries: Vec<Vec<u8>>,
}

impl ToValues {
    #[verifier::type_invariant]
    spec fn all_valid(self) -> bool {
        forall|i: int| 0 <= i < self.entries@.len() ==> is_valid_value(#[trigger] self.entries@[i]@)
    }

    /// The entries written so far.
    pub closed spec fn entries(self) -> Seq<Seq<u8>> {
        raw_entries(self.entries@)
    }

    /// A sink that holds no entry.
    pub fn new() -> (v: ToValues)
        ensures
            v.entries() == Seq::<Seq<u8>>::empty(),
    {
        let v = ToValues { entries: Vec::new() };
        assert(v.entries() =~= Seq::<Seq<u8>>::empty());
        v
    }

    /// Writes one more entry. The entry is refused as unencodable, and
    /// nothing is written, where it holds a byte that a header value cannot
    /// hold.
    pub fn append(&mut self, value: Vec<u8>) -> (r: Result<(), Error>)
        ensures
            match r {
                Ok(_) => is_valid_value(value@) && final(self).entries()
                    == old(self).entries().push(value@),
                Err(e) => !is_valid_value(value@) && e == Error(ErrorKind::Unencodable)
                    && final(self).entries() == old(self).entries(),
            },
    {
        proof {
            use_type_invariant(&*self);
        }
        if check_valid_value(value.as_slice()) {
            let mut taken = ToValues { entries: Vec::new() };
            core::mem::swap(self, &mut taken);
            let mut entries = taken.entries;
            entries.push(value);
            *self = ToValues { entries };
            assert(self.entries() =~= old(self).entries().push(value@));
            Ok(())
        } else {
            Err(Error::unencodable())
        }
    }

    /// The entries written, in order.
    pub fn into_entries(self) -> (r: Vec<Vec<u8>>)
        ensures
            raw_entries(r@) == self.entries(),
            forall|i: int| 0 <= i < r@.len() ==> is_valid_value(#[trigger] r@[i]@),
    {
        proof {
            use_type_invariant(&self);
        }
        self.entries
    }
}

/// The models of a sequence of items.
pub open spec fn models<T: ToHeaderValue>(items: Seq<T>) -> Seq<T::Model> {
    Seq::new(items.len(), |i: int| items[i].model())
}

/// The outcome of decoding, over models: absent, a value, or an error kind.
pub open spec fn outcome<T: ToHeaderValue>(r: Result<Option<T>, Error>) -> Result<
    Option<T::Model>,
    ErrorKind,
> {
    match r {
        Ok(Some(v)) => Ok(Some(v.model())),
        Ok(None) => Ok(None),
        Err(e) => Err(e.0),
    }
}

/// The outcome of decoding a list, over models.
pub open spec fn list_outcome<T: ToHeaderValue>(r: Result<Option<Vec<T>>, Error>) -> Result<
    Option<Seq<T::Model>>,
    ErrorKind,
> {
    match r {
        Ok(Some(v)) => Ok(Some(models(v@))),
        Ok(None) => Ok(None),
        Err(e) => Err(e.0),
    }
}

/// What a header of exactly one value decodes to: absent where there is no
/// entry, else the value that the first entry, read as text and trimmed,
/// denotes. An entry that is not visible ASCII, or denotes nothing, is an
/// invalid value.
pub open spec fn single_value<T: FromHeaderValue>(entries: Seq<Seq<u8>>) -> Result<
    Option<T::Model>,
    ErrorKind,
> {
    if entries.len() == 0 {
        Ok(None)
    } else if !is_visible_ascii(entries[0]) {
        Err(ErrorKind::InvalidValue)
    } else {
        match T::parsed(trim(entries[0])) {
            Some(v) => Ok(Some(v)),
            None => Err(ErrorKind::InvalidValue),
        }
    }
}

/// Number of entries that decoding a single value reads: the first, if there
/// is one.
pub open spec fn single_value_taken(entries: Seq<Seq<u8>>) -> nat {
    if entries.len() == 0 {
        0
    } else {
        1
    }
}

/// Decodes a header of exactly one value from its first raw entry.
pub fn parse_single_value<T: FromHeaderValue>(values: &mut Values) -> (r: Result<Option<T>, Error>)
    ensures
        outcome(r) == single_value::<T>(old(values).remaining()),
        final(values).remaining() == old(values).remaining().skip(
            single_value_taken(old(values).remaining()) as int,
        ),
{
    match values.next() {
        Some(value) => {
            if !check_visible_ascii(value) {
                return Err(Error::invalid_value());
            }
            match T::from_header_value(trim_bytes(value)) {
                Ok(v) => Ok(Some(v)),
                Err(e) => Err(e),
            }
        },
        None => {
            assert(old(values).remaining().skip(0) =~= old(values).remaining());
            Ok(None)
        },
    }
}

/// What a sequence of comma-separated pieces denotes: every piece is
/// trimmed, empty pieces are dropped, and each of the others must denote an
/// item. One piece that denotes nothing spoils the whole.
pub open spec fn parsed_pieces<T: FromHeaderValue>(pieces: Seq<Seq<u8>>) -> Option<Seq<T::Model>>
    decreases pieces.len(),
{
    if pieces.len() == 0 {
        Some(Seq::empty())
    } else {
        match parsed_pieces::<T>(pieces.drop_last()) {
            None => None,
            Some(items) => {
                let e = trim(pieces.last());
                if e.len() == 0 {
                    Some(items)
                } else {
                    match T::parsed(e) {
                        Some(item) => Some(items.push(item)),
                        None => None,
                    }
                }
            },
        }
    }
}

/// The items that one raw entry of a list header denotes.
pub open spec fn entry_items<T: FromHeaderValue>(raw: Seq<u8>) -> Option<Seq<T::Model>> {
    if !is_visible_ascii(raw) {
        None
    } else {
        parsed_pieces::<T>(split(raw, ',' as u8))
    }
}

/// The items that the raw entries of a list header denote together: those
/// of the first entry, then those of the second, and so on.
pub open spec fn list_items<T: FromHeaderValue>(entries: Seq<Seq<u8>>) -> Option<Seq<T::Model>>
    decreases entries.len(),
{
    if entries.len() == 0 {
        Some(Seq::empty())
    } else {
        match list_items::<T>(entries.drop_last()) {
            None => None,
            Some(items) => match entry_items::<T>(entries.last()) {
                Some(more) => Some(items + more),
                None => None,
            },
        }
    }
}

/// Number of entries at the front that denote items.
pub open spec fn leading_good_entries<T: FromHeaderValue>(entries: Seq<Seq<u8>>) -> nat
    decreases entries.len(),
{
    if entries.len() > 0 && entry_items::<T>(entries[0]) is Some {
        1 + leading_good_entries::<T>(entries.drop_first())
    } else {
        0
    }
}

/// What a comma-delimited list header decodes to: absent where there is no
/// entry; else the items of all entries, in order. A header whose entries
/// hold no item at all is present, with an empty list.
pub open spec fn comma_delimited<T: FromHeaderValue>(entries: Seq<Seq<u8>>) -> Result<
    Option<Seq<T::Model>>,
    ErrorKind,
> {
    if entries.len() == 0 {
        Ok(None)
    } else {
        match list_items::<T>(entries) {
            Some(items) => Ok(Some(items)),
            None => Err(ErrorKind::InvalidValue),
        }
    }
}

/// Number of entries that decoding a list reads: all of them, or, where one
/// is invalid, those up to and including the first invalid one.
pub open spec fn comma_delimited_taken<T: FromHeaderValue>(entries: Seq<Seq<u8>>) -> nat {
    if leading_good_entries::<T>(entries) < entries.len() {
        leading_good_entries::<T>(entries) + 1
    } else {
        entries.len()
    }
}

/// Pieces that denote nothing up to some point denote nothing as a whole.
pub proof fn lemma_parsed_pieces_prefix<T: FromHeaderValue>(pieces: Seq<Seq<u8>>, k: int)
    requires
        0 <= k <= pieces.len(),
        parsed_pieces::<T>(pieces.take(k)) is None,
    ensures
        parsed_pieces::<T>(pieces) is None,
    decreases pieces.len() - k,
{
    if k == pieces.len() {
        assert(pieces.take(k) =~= pieces);
    } else {
        assert(pieces.drop_last().take(k) =~= pieces.take(k));
        lemma_parsed_pieces_prefix::<T>(pieces.drop_last(), k);
    }
}

/// Entries that denote nothing up to some point denote nothing as a whole.
pub proof fn lemma_list_items_prefix<T: FromHeaderValue>(entries: Seq<Seq<u8>>, k: int)
    requires
        0 <= k <= entries.len(),
        list_items::<T>(entries.take(k)) is None,
    ensures
        list_items::<T>(entries) is None,
    decreases entries.len() - k,
{
    if k == entries.len() {
        assert(entries.take(k) =~= entries);
    } else {
        assert(entries.drop_last().take(k) =~= entries.take(k));
        lemma_list_items_prefix::<T>(entries.drop_last(), k);
    }
}

/// The first entry that denotes nothing, where all before it denote items,
/// is where the good entries end.
pub proof fn lemma_leading_good_entries<T: FromHeaderValue>(entries: Seq<Seq<u8>>, k: int)
    requires
        0 <= k <= entries.len(),
        forall|j: int| 0 <= j < k ==> entry_items::<T>(#[trigger] entries[j]) is Some,
        k < entries.len() ==> entry_items::<T>(entries[k]) is None,
    ensures
        leading_good_entries::<T>(entries) == k,
    decreases entries.len(),
{
    if k > 0 {
        let rest = entries.drop_first();
        assert(entry_items::<T>(entries[0]) is Some);
        assert forall|j: int| 0 <= j < k - 1 implies entry_items::<T>(
            #[trigger] rest[j],
        ) is Some by {
            assert(rest[j] == entries[j + 1]);
        }
        if k < entries.len() {
            assert(rest[k - 1] == entries[k]);
        }
        lemma_leading_good_entries::<T>(rest, k - 1);
    }
}

/// Reads the items of one raw entry of a list header and appends them to
/// `out`. Where the entry is invalid, `out` may have gained some items.
fn parse_entry_items<T: FromHeaderValue>(value: &[u8], out: &mut Vec<T>) -> (r: Result<
    (),
    Error,
>)
    ensures
        match r {
            Ok(_) => entry_items::<T>(value@) matches Some(items) && models(final(out)@) == models(
                old(out)@,
            ) + items,
            Err(e) => entry_items::<T>(value@) is None && e == Error(ErrorKind::InvalidValue),
        },
{
    if !check_visible_ascii(value) {
        return Err(Error::invalid_value());
    }
    let pieces = split_bytes(value, ',' as u8);
    let ghost all = split(value@, ',' as u8);
    let ghost before = models(out@);
    let mut j: usize = 0;
    assert(all.take(0) =~= Seq::<Seq<u8>>::empty());
    assert(before + Seq::<T::Model>::empty() =~= before);
    while j < pieces.len()
        invariant
            j <= pieces.len(),
            is_visible_ascii(value@),
            all == split(value@, ',' as u8),
            pieces@.len() == all.len(),
            forall|i: int| 0 <= i < pieces@.len() ==> (#[trigger] pieces@[i])@ == all[i],
            parsed_pieces::<T>(all.take(j as int)) matches Some(items) && models(out@) == before
                + items,
        decreases pieces.len() - j,
    {
        let elem = trim_bytes(pieces[j]);
        proof {
            assert(all.take(j + 1).drop_last() =~= all.take(j as int));
            assert(all.take(j + 1).last() == all[j as int]);
        }
        if elem.len() != 0 {
            match T::from_header_value(elem) {
                Ok(item) => {
                    let ghost items = parsed_pieces::<T>(all.take(j as int))->0;
                    let ghost old_out = out@;
                    out.push(item);
                    assert(models(out@) =~= models(old_out).push(item.model()));
                    assert(before + items.push(item.model()) =~= (before + items).push(
                        item.model(),
                    ));
                },
                Err(e) => {
                    proof {
                        lemma_parsed_pieces_prefix::<T>(all, j + 1);
                    }
                    return Err(e);
                },
            }
        }
        j += 1;
    }
    assert(all.take(all.len() as int) =~= all);
    Ok(())
}

/// Decodes a comma-delimited list header from all of its raw entries.
pub fn parse_comma_delimited<T: FromHeaderValue>(values: &mut Values) -> (r: Result<
    Option<Vec<T>>,
    Error,
>)
    ensures
        list_outcome(r) == comma_delimited::<T>(old(values).remaining()),
        final(values).remaining() == old(values).remaining().skip(
            comma_delimited_taken::<T>(old(values).remaining()) as int,
        ),
{
    let mut out: Vec<T> = Vec::new();
    let mut empty = true;
    let ghost all = values.remaining();
    let ghost mut k: int = 0;
    assert(all.take(0) =~= Seq::<Seq<u8>>::empty());
    assert(all.skip(0) =~= all);
    assert(models(out@) =~= Seq::<T::Model>::empty());
    loop
        invariant
            0 <= k <= all.len(),
            all == old(values).remaining(),
            values.remaining() == all.skip(k),
            empty <==> k == 0,
            list_items::<T>(all.take(k)) == Some(models(out@)),
            forall|j: int| 0 <= j < k ==> entry_items::<T>(#[trigger] all[j]) is Some,
        ensures
            k == all.len(),
            values.remaining() == all.skip(k),
            empty <==> k == 0,
            list_items::<T>(all) == Some(models(out@)),
            leading_good_entries::<T>(all) == all.len(),
        decreases all.len() - k,
    {
        match values.next() {
            None => {
                proof {
                    assert(all.take(k) =~= all);
                    lemma_leading_good_entries::<T>(all, k);
                }
                break ;
            },
            Some(value) => {
                empty = false;
                proof {
                    assert(all.skip(k)[0] == all[k]);
                    assert(all.skip(k).skip(1) =~= all.skip(k + 1));
                    assert(all.take(k + 1).drop_last() =~= all.take(k));
                    assert(all.take(k + 1).last() == all[k]);
                }
                match parse_entry_items::<T>(value, &mut out) {
                    Ok(_) => {},
                    Err(e) => {
                        proof {
                            lemma_list_items_prefix::<T>(all, k + 1);
                            lemma_leading_good_entries::<T>(all, k);
                        }
                        return Err(e);
                    },
                }
                proof {
                    k = k + 1;
                }
            },
        }
    }
    if empty {
        Ok(None)
    } else {
        Ok(Some(out))
    }
}

/// The text of one header value: what is written for a value of one item.
pub open spec fn single_text<T: ToHeaderValue>(m: T::Model) -> Seq<u8> {
    T::rendered(m)
}

/// Encodes a header of exactly one value as one raw entry. The value is
/// refused as unencodable, and nothing is written, where its text holds a
/// byte that a header value cannot hold.
pub fn encode_single_value<T: ToHeaderValue + ?Sized>(
    value: &T,
    values: &mut ToValues,
) -> (r: Result<(), Error>)
    ensures
        match r {
            Ok(_) => is_valid_value(T::rendered(value.model())) && final(values).entries()
                == old(values).entries().push(T::rendered(value.model())),
            Err(e) => !is_valid_value(T::rendered(value.model())) && e == Error(
                ErrorKind::Unencodable,
            ) && final(values).entries() == old(values).entries(),
        },
{
    let text = value.to_header_value();
    let mut bytes: Vec<u8> = Vec::new();
    push_all(&mut bytes, text.as_str().as_bytes());
    assert(bytes@ =~= encode_utf8(text@));
    values.append(bytes)
}

/// The separator written between the elements of a list: a comma and a
/// space.
pub open spec fn separator() -> Seq<u8> {
    seq![',' as u8, ' ' as u8]
}

/// The texts of a sequence of items.
pub open spec fn texts<T: ToHeaderValue>(items: Seq<T::Model>) -> Seq<Seq<u8>> {
    Seq::new(items.len(), |i: int| T::rendered(items[i]))
}

/// Element texts joined by a comma and a space.
pub open spec fn joined(elements: Seq<Seq<u8>>) -> Seq<u8>
    decreases elements.len(),
{
    if elements.len() == 0 {
        Seq::empty()
    } else if elements.len() == 1 {
        elements[0]
    } else {
        joined(elements.drop_last()) + separator() + elements.last()
    }
}

/// An element text that can stand in a list: not empty, and without a
/// comma.
pub open spec fn is_list_element(e: Seq<u8>) -> bool {
    e.len() > 0 && !e.contains(',' as u8)
}

/// Every text can stand in a list.
pub open spec fn all_list_elements(elements: Seq<Seq<u8>>) -> bool {
    forall|i: int| 0 <= i < elements.len() ==> is_list_element(#[trigger] elements[i])
}

/// What a list of items encodes to: its element texts joined by a comma
/// and a space. It cannot be encoded where an element text is empty or
/// holds a comma, since the list would read back as another one, nor where
/// the whole holds a byte that a header value cannot hold.
pub open spec fn comma_delimited_text(elements: Seq<Seq<u8>>) -> Option<Seq<u8>> {
    if all_list_elements(elements) && is_valid_value(joined(elements)) {
        Some(joined(elements))
    } else {
        None
    }
}

/// Encodes a list of items as one raw entry, or refuses it as unencodable
/// and writes nothing.
pub fn encode_comma_delimited<T: ToHeaderValue>(elements: &[T], values: &mut ToValues) -> (r:
    Result<(), Error>)
    ensures
        match r {
            Ok(_) => comma_delimited_text(texts::<T>(models(elements@))) matches Some(text)
                && final(values).entries() == old(values).entries().push(text),
            Err(e) => comma_delimited_text(texts::<T>(models(elements@))) is None && e == Error(
                ErrorKind::Unencodable,
            ) && final(values).entries() == old(values).entries(),
        },
{
    let ghost all = texts::<T>(models(elements@));
    let mut out: Vec<u8> = Vec::new();
    let mut i: usize = 0;
    assert(all.take(0) =~= Seq::<Seq<u8>>::empty());
    while i < elements.len()
        invariant
            i <= elements.len(),
            all == texts::<T>(models(elements@)),
            all.len() == elements@.len(),
            out@ == joined(all.take(i as int)),
            all_list_elements(all.take(i as int)),
        decreases elements.len() - i,
    {
        let text = elements[i].to_header_value();
        let bytes = text.as_str().as_bytes();
        proof {
            assert(bytes@ == all[i as int]);
            assert(all.take(i + 1).drop_last() =~= all.take(i as int));
            assert(all.take(i + 1).last() == all[i as int]);
        }
        if bytes.len() == 0 || crate::text::contains_byte(bytes, ',' as u8) {
            assert(!is_list_element(all[i as int]));
            return Err(Error::unencodable());
        }
        if i > 0 {
            out.push(',' as u8);
            out.push(' ' as u8);
            assert(out@ =~= joined(all.take(i as int)) + separator());
        }
        push_all(&mut out, bytes);
        proof {
            let next = all.take(i + 1);
            if i == 0 {
                assert(out@ =~= all[0]);
            }
            assert forall|j: int| 0 <= j < next.len() implies is_list_element(
                #[trigger] next[j],
            ) by {
                if j < i {
                    assert(next[j] == all.take(i as int)[j]);
                }
            }
        }
        i += 1;
    }
    assert(all.take(all.len() as int) =~= all);
    values.append(out)
}


/// Where a list decodes without a fault, every entry was read.
pub proof fn lemma_comma_delimited_taken<T: FromHeaderValue>(entries: Seq<Seq<u8>>)
    requires
        list_items::<T>(entries) is Some,
    ensures
        comma_delimited_taken::<T>(entries) == entries.len(),
        leading_good_entries::<T>(entries) == entries.len(),
    decreases entries.len(),
{
    if entries.len() > 0 {
        lemma_list_items_all_good::<T>(entries);
        lemma_leading_good_entries::<T>(entries, entries.len() as int);
    }
}

/// Where a list decodes without a fault, every entry denotes items.
pub proof fn lemma_list_items_all_good<T: FromHeaderValue>(entries: Seq<Seq<u8>>)
    requires
        list_items::<T>(entries) is Some,
    ensures
        forall|j: int| 0 <= j < entries.len() ==> entry_items::<T>(#[trigger] entries[j]) is Some,
    decreases entries.len(),
{
    if entries.len() > 0 {
        lemma_list_items_all_good::<T>(entries.drop_last());
        assert forall|j: int| 0 <= j < entries.len() implies entry_items::<T>(
            #[trigger] entries[j],
        ) is Some by {
            if j < entries.len() - 1 {
                assert(entries[j] == entries.drop_last()[j]);
            }
        }
    }
}

/// What a list header of one or more items decodes to: as a
/// comma-delimited list, but entries that hold no item at all are too few
/// values.
pub open spec fn one_or_more<T: FromHeaderValue>(entries: Seq<Seq<u8>>) -> Result<
    Option<Seq<T::Model>>,
    ErrorKind,
> {
    match comma_delimited::<T>(entries) {
        Ok(Some(items)) => if items.len() == 0 {
            Err(ErrorKind::TooFewValues)
        } else {
            Ok(Some(items))
        },
        other => other,
    }
}

/// Decodes a list header of one or more items from all of its raw
/// entries.
pub fn parse_one_or_more<T: FromHeaderValue>(values: &mut Values) -> (r: Result<
    Option<Vec<T>>,
    Error,
>)
    ensures
        list_outcome(r) == one_or_more::<T>(old(values).remaining()),
        r matches Ok(Some(v)) ==> v@.len() > 0,
        final(values).remaining() == old(values).remaining().skip(
            comma_delimited_taken::<T>(old(values).remaining()) as int,
        ),
{
    match parse_comma_delimited::<T>(values) {
        Ok(Some(items)) => {
            if items.len() == 0 {
                Err(Error::too_few_values())
            } else {
                Ok(Some(items))
            }
        },
        Ok(None) => Ok(None),
        Err(e) => Err(e),
    }
}

/// A list, or the wildcard that stands for every value.
pub enum AnyOr<L> {
    Any,
    Items(L),
}

/// What a header that is a wildcard or a list decodes to: absent where
/// there is no entry; the wildcard where the first entry, trimmed, is `*`,
/// whatever follows it; else a list of one or more items.
pub open spec fn list_or_any<T: FromHeaderValue>(entries: Seq<Seq<u8>>) -> Result<
    Option<AnyOr<Seq<T::Model>>>,
    ErrorKind,
> {
    if entries.len() == 0 {
        Ok(None)
    } else if trim(entries[0]) == seq!['*' as u8] {
        Ok(Some(AnyOr::Any))
    } else {
        match one_or_more::<T>(entries) {
            Ok(Some(items)) => Ok(Some(AnyOr::Items(items))),
            Ok(None) => Ok(None),
            Err(e) => Err(e),
        }
    }
}

/// Number of entries that decoding a wildcard or a list reads: all of
/// them, or, where one is invalid, those up to and including the first
/// invalid one.
pub open spec fn list_or_any_taken<T: FromHeaderValue>(entries: Seq<Seq<u8>>) -> nat {
    if entries.len() > 0 && trim(entries[0]) == seq!['*' as u8] {
        entries.len()
    } else {
        comma_delimited_taken::<T>(entries)
    }
}

/// Decodes a header that is a wildcard or a list of one or more items.
pub fn parse_list_or_any<T: FromHeaderValue>(values: &mut Values) -> (r: Result<
    Option<AnyOr<Vec<T>>>,
    Error,
>)
    ensures
        match r {
            Ok(Some(AnyOr::Any)) => list_or_any::<T>(old(values).remaining()) == Ok::<
                Option<AnyOr<Seq<T::Model>>>,
                ErrorKind,
            >(Some(AnyOr::Any)),
            Ok(Some(AnyOr::Items(v))) => v@.len() > 0 && list_or_any::<T>(
                old(values).remaining(),
            ) == Ok::<Option<AnyOr<Seq<T::Model>>>, ErrorKind>(Some(AnyOr::Items(models(v@)))),
            Ok(None) => list_or_any::<T>(old(values).remaining()) == Ok::<
                Option<AnyOr<Seq<T::Model>>>,
                ErrorKind,
            >(None),
            Err(e) => list_or_any::<T>(old(values).remaining()) == Err::<
                Option<AnyOr<Seq<T::Model>>>,
                ErrorKind,
            >(e.0),
        },
        final(values).remaining() == old(values).remaining().skip(
            list_or_any_taken::<T>(old(values).remaining()) as int,
        ),
{
    match values.peek() {
        None => {},
        Some(first) => {
            let t = trim_bytes(first);
            if t.len() == 1 && t[0] == '*' as u8 {
                assert(t@ =~= seq!['*' as u8]);
                values.drain();
                assert(old(values).remaining().skip(old(values).remaining().len() as int)
                    =~= Seq::<Seq<u8>>::empty());
                return Ok(Some(AnyOr::Any));
            }
            assert(t@ != seq!['*' as u8]);
        },
    }
    match parse_one_or_more::<T>(values) {
        Ok(Some(items)) => Ok(Some(AnyOr::Items(items))),
        Ok(None) => Ok(None),
        Err(e) => Err(e),
    }
}

/// The raw entries that a list is written as: one entry that holds the
/// joined text, or `None` for a list that cannot be written.
pub open spec fn list_entries(elements: Seq<Seq<u8>>) -> Option<Seq<Seq<u8>>> {
    match comma_delimited_text(elements) {
        Some(text) => Some(seq![text]),
        None => None,
    }
}

/// The raw entries that a single value is written as: one entry that holds
/// its text, or `None` for a text that no header value can hold.
pub open spec fn single_entry(text: Seq<u8>) -> Option<Seq<Seq<u8>>> {
    if is_valid_value(text) {
        Some(seq![text])
    } else {
        None
    }
}

/// Writing the one entry of a list is adding the entries of the list.
pub proof fn lemma_one_entry(before: Seq<Seq<u8>>, elements: Seq<Seq<u8>>)
    ensures
        comma_delimited_text(elements) matches Some(text) ==> list_entries(elements) == Some(
            seq![text],
        ) && before.push(text) == before + seq![text],
{
    match comma_delimited_text(elements) {
        Some(text) => {
            assert(before.push(text) =~= before + seq![text]);
        },
        None => {},
    }
}

/// An extended parameter value: a value tagged with the character set
/// that it is written in and, optionally, with its language.
#[derive(Clone, Debug, PartialEq)]
pub struct ExtendedValue {
    /// The character set that is used to encode the `value` to a string.
    pub charset: Charset,
    /// The human language details of the `value`, if available.
    pub language_tag: Option<LanguageTag>,
    /// The parameter value, as expressed in octets.
    pub value: Vec<u8>,
}

/// What an `ExtendedValue` stands for: the text of the charset, the text of
/// the language tag, and the octets of the value.
pub struct ExtendedValueModel {
    pub charset: Seq<u8>,
    pub language_tag: Option<Seq<u8>>,
    pub value: Seq<u8>,
}

/// The number that a hexadecimal digit stands for.
pub open spec fn hex_value(b: u8) -> Option<u8> {
    if '0' as u8 <= b && b <= '9' as u8 {
        Some((b - '0' as u8) as u8)
    } else if 'a' as u8 <= b && b <= 'f' as u8 {
        Some((b - 'a' as u8 + 10) as u8)
    } else if 'A' as u8 <= b && b <= 'F' as u8 {
        Some((b - 'A' as u8 + 10) as u8)
    } else {
        None
    }
}

/// The octets that percent-encoded text stands for: `%` and two
/// hexadecimal digits stand for one octet; every other byte, and a `%`
/// without two such digits, stands for itself.
pub open spec fn percent_decoded(s: Seq<u8>) -> Seq<u8>
    decreases s.len(),
{
    if s.len() == 0 {
        Seq::empty()
    } else if s[0] == '%' as u8 && s.len() >= 3 && hex_value(s[1]) is Some && hex_value(
        s[2],
    ) is Some {
        seq![(hex_value(s[1])->0 * 16 + hex_value(s[2])->0) as u8] + percent_decoded(s.skip(3))
    } else {
        seq![s[0]] + percent_decoded(s.skip(1))
    }
}

/// `percent_encoding::percent_decode`, collected: the octets that
/// percent-encoded text stands for.
#[verifier::external_body]
fn percent_decode(input: &[u8]) -> (r: Vec<u8>)
    ensures
        r@ == percent_decoded(input@),
{
    percent_encoding::percent_decode(input).collect()
}

/// The language that the text between the quotes denotes: none for the
/// empty text, else a language tag. The outer `None` stands for text that
/// is neither.
pub open spec fn extended_language(s: Seq<u8>) -> Option<Option<Seq<u8>>> {
    if s.len() == 0 {
        Some(None)
    } else if valid_utf8(s) && language_tag_parsed(s) is Some {
        Some(language_tag_parsed(s))
    } else {
        None
    }
}

/// The extended value that `s` denotes: a charset, a single quote, an
/// optional language tag, a single quote, and percent-encoded octets.
pub open spec fn extended_value(s: Seq<u8>) -> Option<ExtendedValueModel> {
    match split_once(s, '\'' as u8) {
        None => None,
        Some((charset, rest)) => match split_once(rest, '\'' as u8) {
            None => None,
            Some((language, value)) => match (charset_text(charset), extended_language(language)) {
                (Some(charset), Some(language_tag)) => Some(
                    ExtendedValueModel { charset, language_tag, value: percent_decoded(value) },
                ),
                _ => None,
            },
        },
    }
}

impl ExtendedValue {
    /// What this value stands for.
    pub open spec fn view(&self) -> ExtendedValueModel {
        ExtendedValueModel {
            charset: self.charset.text(),
            language_tag: match self.language_tag {
                Some(tag) => Some(language_tag_text(tag)),
                None => None,
            },
            value: self.value@,
        }
    }
}

/// Parses an extended parameter value, as a parameter whose name ends with
/// `*` holds it.
pub fn parse_extended_value(val: &str) -> (r: Result<ExtendedValue, Error>)
    ensures
        match r {
            Ok(v) => extended_value(val.spec_bytes()) == Some(v@),
            Err(e) => extended_value(val.spec_bytes()) is None && e == Error(
                ErrorKind::InvalidValue,
            ),
        },
{
    let (charset, rest) = match split_in_two(val.as_bytes(), '\'' as u8) {
        None => {
            return Err(Error::invalid_value());
        },
        Some(halves) => halves,
    };
    let (language, value) = match split_in_two(rest, '\'' as u8) {
        None => {
            return Err(Error::invalid_value());
        },
        Some(halves) => halves,
    };
    let charset = match Charset::from_bytes(charset) {
        Ok(charset) => charset,
        Err(_) => {
            return Err(Error::invalid_value());
        },
    };
    let language_tag = if language.len() == 0 {
        None
    } else {
        match parse_language_tag(language) {
            Some(tag) => Some(tag),
            None => {
                return Err(Error::invalid_value());
            },
        }
    };
    let value = percent_decode(value);
    Ok(ExtendedValue { charset, language_tag, value })
}

/// A byte that is written as `%` and two hexadecimal digits in a header
/// value: a control character, a byte that is not ASCII, or one of the
/// marks that a parameter value cannot hold.
pub open spec fn needs_escape(b: u8) -> bool {
    b < 0x20 || b > 0x7E || b == ' ' as u8 || b == '"' as u8 || b == '%' as u8 || b == '\'' as u8
        || b == '(' as u8 || b == ')' as u8 || b == '*' as u8 || b == ',' as u8 || b == '/' as u8
        || b == ':' as u8 || b == ';' as u8 || b == '<' as u8 || b == '-' as u8 || b == '>' as u8
        || b == '?' as u8 || b == '[' as u8 || b == '\\' as u8 || b == ']' as u8 || b == '{' as u8
        || b == '}' as u8
}

/// The hexadecimal digit of a number below 16, in upper case.
pub open spec fn hex_digit(n: u8) -> u8 {
    if n < 10 {
        ('0' as u8 + n) as u8
    } else {
        ('A' as u8 + n - 10) as u8
    }
}

/// What one octet is written as.
pub open spec fn escaped(b: u8) -> Seq<u8> {
    if needs_escape(b) {
        seq!['%' as u8, hex_digit(b / 16), hex_digit(b % 16)]
    } else {
        seq![b]
    }
}

/// The percent-encoded text of octets.
pub open spec fn percent_encoded(s: Seq<u8>) -> Seq<u8>
    decreases s.len(),
{
    if s.len() == 0 {
        Seq::empty()
    } else {
        percent_encoded(s.drop_last()) + escaped(s.last())
    }
}

/// The hexadecimal digit of a number below 16.
fn hex_digit_of(n: u8) -> (r: u8)
    requires
        n < 16,
    ensures
        r == hex_digit(n),
        r < 128,
{
    if n < 10 {
        '0' as u8 + n
    } else {
        'A' as u8 + (n - 10)
    }
}

/// Tells whether `b` is written as `%` and two hexadecimal digits.
fn byte_needs_escape(b: u8) -> (r: bool)
    ensures
        r == needs_escape(b),
{
    b < 0x20 || b > 0x7E || b == ' ' as u8 || b == '"' as u8 || b == '%' as u8 || b == '\'' as u8
        || b == '(' as u8 || b == ')' as u8 || b == '*' as u8 || b == ',' as u8 || b == '/' as u8
        || b == ':' as u8 || b == ';' as u8 || b == '<' as u8 || b == '-' as u8 || b == '>' as u8
        || b == '?' as u8 || b == '[' as u8 || b == '\\' as u8 || b == ']' as u8 || b == '{' as u8
        || b == '}' as u8
}

/// Percent-encodes octets for a header value. The text is ASCII.
pub fn http_percent_encode(bytes: &[u8]) -> (r: String)
    ensures
        encode_utf8(r@) == percent_encoded(bytes@),
        crate::text::is_ascii(percent_encoded(bytes@)),
{
    let mut out: Vec<u8> = Vec::new();
    let mut i: usize = 0;
    assert(bytes@.take(0) =~= Seq::<u8>::empty());
    while i < bytes.len()
        invariant
            i <= bytes.len(),
            out@ == percent_encoded(bytes@.take(i as int)),
            crate::text::is_ascii(out@),
        decreases bytes.len() - i,
    {
        let b = bytes[i];
        proof {
            assert(bytes@.take(i + 1).drop_last() =~= bytes@.take(i as int));
            assert(bytes@.take(i + 1).last() == b);
        }
        let ghost before = out@;
        if byte_needs_escape(b) {
            out.push('%' as u8);
            out.push(hex_digit_of(b / 16));
            out.push(hex_digit_of(b % 16));
        } else {
            out.push(b);
        }
        assert(out@ =~= before + escaped(b));
        i += 1;
    }
    proof {
        assert(bytes@.take(bytes@.len() as int) =~= bytes@);
        crate::text::lemma_ascii_is_utf8(out@);
    }
    crate::text::utf8_to_string(out)
}

} // verus!
