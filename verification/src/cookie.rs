//! The `Cookie` header.

use vstd::prelude::*;
use vstd::std_specs::cmp::PartialEqSpecImpl;
use vstd::string::StringSliceAdditionalSpecFns;
use vstd::utf8::encode_utf8;
use crate::error::{Error, ErrorKind};
use crate::header::Header;
use crate::text::{
    ascii_to_string, check_visible_ascii, is_ascii, is_visible_ascii, lemma_visible_is_ascii,
    push_all, split, split_bytes, split_in_two, split_once, trim, trim_bytes,
};
use crate::util::{is_valid_value, ToValues, Values};
use crate::vec_map::{first_match, without_key, VecMap};

verus! {

/// The name of a cookie: text that is compared byte by byte.
#[derive(Clone, Debug)]
pub struct CookieName(String);

impl CookieName {
    /// The bytes of the name.
    pub closed spec fn text(&self) -> Seq<u8> {
        encode_utf8(self.0@)
    }

    /// The name made of the given text.
    pub fn new(name: &str) -> (r: CookieName)
        ensures
            r.text() == name.spec_bytes(),
    {
        CookieName(name.to_owned())
    }

    /// The name as a string slice.
    pub fn as_str(&self) -> (r: &str)
        ensures
            r.spec_bytes() == self.text(),
    {
        self.0.as_str()
    }
}

impl PartialEq for CookieName {
    fn eq(&self, other: &CookieName) -> (r: bool) {
        proof {
            vstd::utf8::encode_utf8_decode_utf8(self.0@);
            vstd::utf8::encode_utf8_decode_utf8(other.0@);
        }
        self.0 == other.0
    }
}

impl PartialEqSpecImpl for CookieName {
    open spec fn obeys_eq_spec() -> bool {
        true
    }

    open spec fn eq_spec(&self, other: &CookieName) -> bool {
        self.text() == other.text()
    }
}

/// `Cookie` header: the cookies that a user agent sends to a server, as
/// pairs of a name and a value, in order. A name may occur more than once.
#[derive(Clone, Debug)]
pub struct Cookie(VecMap<CookieName, String>);

/// The pairs of names and values, as bytes.
pub open spec fn pairs(entries: Seq<(CookieName, String)>) -> Seq<(Seq<u8>, Seq<u8>)> {
    Seq::new(entries.len(), |i: int| (entries[i].0.text(), encode_utf8(entries[i].1@)))
}

/// Index of the first pair of the name `key`, or the number of pairs if
/// there is none.
pub open spec fn first_of(all: Seq<(Seq<u8>, Seq<u8>)>, key: Seq<u8>) -> int
    decreases all.len(),
{
    if all.len() == 0 {
        0
    } else {
        let i = first_of(all.drop_last(), key);
        if i < all.len() - 1 {
            i
        } else if all.last().0 == key {
            all.len() - 1
        } else {
            all.len() as int
        }
    }
}

/// The pairs whose name is not `key`, in order.
pub open spec fn without(all: Seq<(Seq<u8>, Seq<u8>)>, key: Seq<u8>) -> Seq<(Seq<u8>, Seq<u8>)>
    decreases all.len(),
{
    if all.len() == 0 {
        Seq::empty()
    } else if all[0].0 == key {
        without(all.drop_first(), key)
    } else {
        seq![all[0]] + without(all.drop_first(), key)
    }
}

/// The pairs after `value` was put under `key`: the first pair of that name
/// is replaced, or, if there is none, a pair is added at the end.
pub open spec fn with_pair(all: Seq<(Seq<u8>, Seq<u8>)>, key: Seq<u8>, value: Seq<u8>) -> Seq<
    (Seq<u8>, Seq<u8>),
> {
    if first_of(all, key) < all.len() {
        all.update(first_of(all, key), (key, value))
    } else {
        all.push((key, value))
    }
}

/// The pairs after the pieces between semicolons of one raw entry were
/// read, starting from `seed`: a piece with `=` puts what stands after the
/// first `=` under what stands before it, both trimmed; a piece without
/// `=` is passed over.
pub open spec fn read_pieces(pieces: Seq<Seq<u8>>, seed: Seq<(Seq<u8>, Seq<u8>)>) -> Seq<
    (Seq<u8>, Seq<u8>),
>
    decreases pieces.len(),
{
    if pieces.len() == 0 {
        seed
    } else {
        let all = read_pieces(pieces.drop_last(), seed);
        match split_once(pieces.last(), '=' as u8) {
            Some((key, value)) => with_pair(all, trim(key), trim(value)),
            None => all,
        }
    }
}

/// The pairs that the raw entries hold together; `None` where an entry is
/// not visible ASCII.
pub open spec fn read_entries(entries: Seq<Seq<u8>>) -> Option<Seq<(Seq<u8>, Seq<u8>)>>
    decreases entries.len(),
{
    if entries.len() == 0 {
        Some(Seq::empty())
    } else {
        match read_entries(entries.drop_last()) {
            None => None,
            Some(all) => if is_visible_ascii(entries.last()) {
                Some(read_pieces(split(entries.last(), ';' as u8), all))
            } else {
                None
            },
        }
    }
}

/// The text of one pair: the name, `=`, and the value.
pub open spec fn pair_text(p: (Seq<u8>, Seq<u8>)) -> Seq<u8> {
    p.0.push('=' as u8) + p.1
}

/// The text of the pairs: their texts, joined by a semicolon and a space.
pub open spec fn cookie_text(all: Seq<(Seq<u8>, Seq<u8>)>) -> Seq<u8>
    decreases all.len(),
{
    if all.len() == 0 {
        Seq::empty()
    } else if all.len() == 1 {
        pair_text(all[0])
    } else {
        cookie_text(all.drop_last()).push(';' as u8).push(' ' as u8) + pair_text(all.last())
    }
}

/// Entries that fail up to some point fail as a whole.
proof fn lemma_read_entries_prefix(entries: Seq<Seq<u8>>, k: int)
    requires
        0 <= k <= entries.len(),
        read_entries(entries.take(k)) is None,
    ensures
        read_entries(entries) is None,
    decreases entries.len() - k,
{
    if k == entries.len() {
        assert(entries.take(k) =~= entries);
    } else {
        assert(entries.drop_last().take(k) =~= entries.take(k));
        lemma_read_entries_prefix(entries.drop_last(), k);
    }
}

/// The first entry of a name is the first pair of its text.
proof fn lemma_first_match(entries: Seq<(CookieName, String)>, key: CookieName)
    ensures
        first_match(entries, key) == first_of(pairs(entries), key.text()),
        0 <= first_match(entries, key) <= entries.len(),
    decreases entries.len(),
{
    crate::vec_map::lemma_first_match_range(entries, key);
    if entries.len() > 0 {
        lemma_first_match(entries.drop_last(), key);
        assert(pairs(entries).drop_last() =~= pairs(entries.drop_last()));
        assert(pairs(entries).last().0 == entries.last().0.text());
    }
}

/// Removing the entries of a name removes the pairs of its text.
proof fn lemma_without_key(entries: Seq<(CookieName, String)>, key: CookieName)
    ensures
        pairs(without_key(entries, key)) == without(pairs(entries), key.text()),
    decreases entries.len(),
{
    if entries.len() > 0 {
        lemma_without_key(entries.drop_first(), key);
        assert(pairs(entries).drop_first() =~= pairs(entries.drop_first()));
        assert(pairs(entries)[0].0 == entries[0].0.text());
        if key.text() != entries[0].0.text() {
            assert(pairs(seq![entries[0]] + without_key(entries.drop_first(), key)) =~= seq![
                pairs(entries)[0],
            ] + pairs(without_key(entries.drop_first(), key)));
        }
    } else {
        assert(pairs(without_key(entries, key)) =~= Seq::<(Seq<u8>, Seq<u8>)>::empty());
    }
}

/// A trimmed part of visible text is ASCII.
proof fn lemma_trimmed_part_ascii(part: Seq<u8>)
    requires
        is_ascii(part),
    ensures
        is_ascii(trim(part)),
{
    crate::text::lemma_leading_whitespace_bound(part);
    let a = crate::text::trim_start(part);
    crate::text::lemma_trailing_whitespace_bound(a);
    assert forall|i: int| 0 <= i < trim(part).len() implies #[trigger] trim(part)[i] < 128 by {
        assert(trim(part)[i] == part[i + crate::text::leading_whitespace(part)]);
    }
}

impl Cookie {
    /// The pairs of names and values, in order.
    pub closed spec fn view(&self) -> Seq<(Seq<u8>, Seq<u8>)> {
        pairs(self.0@)
    }

    /// Creates a new `Cookie` header, without any pair.
    pub fn new() -> (r: Cookie)
        ensures
            r@ == Seq::<(Seq<u8>, Seq<u8>)>::empty(),
    {
        let r = Cookie(VecMap::with_capacity(0));
        assert(r@ =~= Seq::<(Seq<u8>, Seq<u8>)>::empty());
        r
    }

    /// Sets a name and value for the `Cookie`.
    ///
    /// This removes all other pairs of the same name, and adds the new one
    /// at the end.
    pub fn set(&mut self, key: &str, value: &str)
        ensures
            final(self)@ == without(old(self)@, key.spec_bytes()).push(
                (key.spec_bytes(), value.spec_bytes()),
            ),
    {
        let key = CookieName::new(key);
        let value = value.to_owned();
        proof {
            lemma_without_key(self.0@, key);
        }
        self.0.remove_all(&key);
        let ghost mid = self.0@;
        self.0.append(key, value);
        assert(pairs(mid.push((key, value))) =~= pairs(mid).push(
            (key.text(), encode_utf8(value@)),
        ));
    }

    /// Appends a name and value for the `Cookie`, whatever pairs of that
    /// name it holds.
    pub fn append(&mut self, key: &str, value: &str)
        ensures
            final(self)@ == old(self)@.push((key.spec_bytes(), value.spec_bytes())),
    {
        let key = CookieName::new(key);
        let value = value.to_owned();
        let ghost mid = self.0@;
        self.0.append(key, value);
        assert(pairs(mid.push((key, value))) =~= pairs(mid).push(
            (key.text(), encode_utf8(value@)),
        ));
    }

    /// Gets the value of the first pair of a name, if there is one.
    pub fn get(&self, key: &str) -> (r: Option<&str>)
        ensures
            match r {
                Some(v) => first_of(self@, key.spec_bytes()) < self@.len() && v.spec_bytes()
                    == self@[first_of(self@, key.spec_bytes())].1,
                None => first_of(self@, key.spec_bytes()) == self@.len(),
            },
    {
        let key = CookieName::new(key);
        proof {
            lemma_first_match(self.0@, key);
        }
        match self.0.get(&key) {
            Some(v) => Some(v.as_str()),
            None => None,
        }
    }

    /// The pairs, in insertion order.
    pub fn iter(&self) -> (r: CookieIter<'_>)
        ensures
            r.rest() == self@,
    {
        let entries = self.0.iter();
        assert(pairs(entries@.skip(0)) =~= pairs(entries@));
        CookieIter { entries, next: 0 }
    }

    /// Number of pairs.
    pub fn len(&self) -> (n: usize)
        ensures
            n == self@.len(),
    {
        self.0.len()
    }

    /// The text of the pairs.
    pub fn write(&self) -> (out: Vec<u8>)
        ensures
            out@ == cookie_text(self@),
    {
        let mut out: Vec<u8> = Vec::new();
        let entries = self.0.iter();
        let ghost all = pairs(entries@);
        let mut i: usize = 0;
        assert(all.take(0) =~= Seq::<(Seq<u8>, Seq<u8>)>::empty());
        while i < entries.len()
            invariant
                i <= entries.len(),
                all == pairs(entries@),
                out@ == cookie_text(all.take(i as int)),
            decreases entries.len() - i,
        {
            proof {
                assert(all.take(i + 1).drop_last() =~= all.take(i as int));
                assert(all.take(i + 1).last() == all[i as int]);
            }
            if i > 0 {
                out.push(';' as u8);
                out.push(' ' as u8);
            }
            let ghost head = out@;
            push_all(&mut out, entries[i].0.as_str().as_bytes());
            out.push('=' as u8);
            push_all(&mut out, entries[i].1.as_str().as_bytes());
            assert(out@ =~= head + pair_text(all[i as int]));
            i += 1;
        }
        assert(all.take(all.len() as int) =~= all);
        out
    }
}

/// The pairs of a `Cookie` that are still to be handed out.
#[derive(Debug)]
pub struct CookieIter<'a> {
    entries: &'a [(CookieName, String)],
    next: usize,
}

impl<'a> CookieIter<'a> {
    #[verifier::type_invariant]
    spec fn in_bounds(self) -> bool {
        self.next <= self.entries@.len()
    }

    /// The pairs not yet handed out.
    pub closed spec fn rest(self) -> Seq<(Seq<u8>, Seq<u8>)> {
        pairs(self.entries@.skip(self.next as int))
    }

    /// Hands out the next pair, if one is left.
    pub fn next(&mut self) -> (r: Option<(&'a str, &'a str)>)
        ensures
            match r {
                Some((k, v)) => old(self).rest().len() > 0 && old(self).rest()[0] == (
                    k.spec_bytes(),
                    v.spec_bytes(),
                ) && final(self).rest() == old(self).rest().skip(1),
                None => old(self).rest().len() == 0 && final(self).rest() == old(self).rest(),
            },
    {
        proof {
            use_type_invariant(&*self);
        }
        if self.next < self.entries.len() {
            let e = &self.entries[self.next];
            self.next = self.next + 1;
            assert(self.rest() =~= old(self).rest().skip(1));
            Some((e.0.as_str(), e.1.as_str()))
        } else {
            None
        }
    }
}

/// Reads the pairs of one raw entry into `map`.
fn read_entry(value: &[u8], map: &mut VecMap<CookieName, String>)
    requires
        is_visible_ascii(value@),
    ensures
        pairs(final(map)@) == read_pieces(split(value@, ';' as u8), pairs(old(map)@)),
{
    let pieces = split_bytes(value, ';' as u8);
    let ghost all = split(value@, ';' as u8);
    let ghost seed = pairs(map@);
    let mut j: usize = 0;
    assert(all.take(0) =~= Seq::<Seq<u8>>::empty());
    proof {
        lemma_visible_is_ascii(value@);
        crate::text::lemma_split_ascii(value@, ';' as u8);
    }
    while j < pieces.len()
        invariant
            j <= pieces.len(),
            pieces@.len() == all.len(),
            forall|i: int| 0 <= i < pieces@.len() ==> (#[trigger] pieces@[i])@ == all[i],
            forall|i: int| 0 <= i < all.len() ==> is_ascii(#[trigger] all[i]),
            pairs(map@) == read_pieces(all.take(j as int), seed),
        decreases pieces.len() - j,
    {
        proof {
            assert(all.take(j + 1).drop_last() =~= all.take(j as int));
            assert(all.take(j + 1).last() == all[j as int]);
            assert(is_ascii(all[j as int]));
        }
        match split_in_two(pieces[j], '=' as u8) {
            Some((key, val)) => {
                proof {
                    let piece = all[j as int];
                    let i = crate::text::index_of(piece, '=' as u8) as int;
                    crate::text::lemma_index_of(piece, '=' as u8);
                    assert(is_ascii(piece.take(i)));
                    assert(is_ascii(piece.skip(i + 1)));
                    lemma_trimmed_part_ascii(key@);
                    lemma_trimmed_part_ascii(val@);
                    crate::text::lemma_ascii_is_utf8(trim(key@));
                    crate::text::lemma_ascii_is_utf8(trim(val@));
                }
                let key = CookieName(ascii_to_string(trim_bytes(key)));
                let value = ascii_to_string(trim_bytes(val));
                let ghost mid = map@;
                proof {
                    lemma_first_match(mid, key);
                }
                map.insert(key, value);
                proof {
                    let i = first_match(mid, key);
                    if i < mid.len() {
                        assert(pairs(mid.update(i, (key, value))) =~= pairs(mid).update(
                            i,
                            (key.text(), encode_utf8(value@)),
                        ));
                    } else {
                        assert(pairs(mid.push((key, value))) =~= pairs(mid).push(
                            (key.text(), encode_utf8(value@)),
                        ));
                    }
                }
            },
            None => {},
        }
        j += 1;
    }
    assert(all.take(all.len() as int) =~= all);
}

impl Header for Cookie {
    type Model = Seq<(Seq<u8>, Seq<u8>)>;

    open spec fn model(&self) -> Seq<(Seq<u8>, Seq<u8>)> {
        self@
    }

    open spec fn name_text() -> Seq<u8> {
        "cookie".spec_bytes()
    }

    /// Entries that hold no pair at all count as absent; an entry that is not
    /// visible ASCII is an invalid value.
    open spec fn decoded(entries: Seq<Seq<u8>>) -> Result<
        Option<Seq<(Seq<u8>, Seq<u8>)>>,
        ErrorKind,
    > {
        match read_entries(entries) {
            None => Err(ErrorKind::InvalidValue),
            Some(all) => if all.len() == 0 {
                Ok(None)
            } else {
                Ok(Some(all))
            },
        }
    }

    open spec fn taken(entries: Seq<Seq<u8>>) -> nat {
        entries.len()
    }

    open spec fn encoded(m: Seq<(Seq<u8>, Seq<u8>)>) -> Option<Seq<Seq<u8>>> {
        if is_valid_value(cookie_text(m)) {
            Some(seq![cookie_text(m)])
        } else {
            None
        }
    }

    fn name() -> (n: &'static str) {
        proof {
            reveal_strlit("cookie");
            crate::header::lemma_header_name("cookie");
        }
        "cookie"
    }

    fn from_values(values: &mut Values) -> (r: Result<Option<Cookie>, Error>) {
        let mut vec_map: VecMap<CookieName, String> = VecMap::with_capacity(0);
        let ghost all = values.remaining();
        let ghost mut k: int = 0;
        assert(all.take(0) =~= Seq::<Seq<u8>>::empty());
        assert(all.skip(0) =~= all);
        assert(pairs(vec_map@) =~= Seq::<(Seq<u8>, Seq<u8>)>::empty());
        loop
            invariant
                0 <= k <= all.len(),
                all == old(values).remaining(),
                values.remaining() == all.skip(k),
                read_entries(all.take(k)) == Some(pairs(vec_map@)),
            ensures
                values.remaining() == all.skip(all.len() as int),
                read_entries(all) == Some(pairs(vec_map@)),
            decreases all.len() - k,
        {
            match values.next() {
                None => {
                    assert(all.take(k) =~= all);
                    break ;
                },
                Some(cookies_raw) => {
                    proof {
                        assert(all.skip(k)[0] == all[k]);
                        assert(all.skip(k).skip(1) =~= all.skip(k + 1));
                        assert(all.take(k + 1).drop_last() =~= all.take(k));
                        assert(all.take(k + 1).last() == all[k]);
                    }
                    if !check_visible_ascii(cookies_raw) {
                        proof {
                            lemma_read_entries_prefix(all, k + 1);
                        }
                        return Err(Error::invalid_value());
                    }
                    read_entry(cookies_raw, &mut vec_map);
                    proof {
                        k = k + 1;
                    }
                },
            }
        }
        if vec_map.len() != 0 {
            Ok(Some(Cookie(vec_map)))
        } else {
            Ok(None)
        }
    }

    #[inline]
    fn to_values(&self, values: &mut ToValues) -> (r: Result<(), Error>) {
        let out = self.write();
        let r = values.append(out);
        proof {
            let t = cookie_text(self@);
            assert(old(values).entries().push(t) =~= old(values).entries() + seq![t]);
        }
        r
    }
}

impl PartialEq for Cookie {
    /// Two cookies are equal where they hold as many pairs, and the second
    /// has, for the name of every pair of the first, the value of that pair as
    /// the first value of that name.
    fn eq(&self, other: &Cookie) -> (r: bool) {
        if self.0.len() != other.0.len() {
            return false;
        }
        let entries = self.0.iter();
        let mut i: usize = 0;
        while i < entries.len()
            invariant
                i <= entries.len(),
                entries@ == self.0@,
                self.0@.len() == other.0@.len(),
                forall|j: int| 0 <= j < i ==> other.holds(#[trigger] self@[j]),
            decreases entries.len() - i,
        {
            let key = &entries[i].0;
            let value = &entries[i].1;
            proof {
                lemma_first_match(other.0@, *key);
                vstd::utf8::encode_utf8_decode_utf8(value@);
            }
            match other.0.get(key) {
                Some(v) => {
                    proof {
                        vstd::utf8::encode_utf8_decode_utf8(v@);
                    }
                    if !(*v == *value) {
                        assert(!other.holds(self@[i as int]));
                        return false;
                    }
                },
                None => {
                    assert(!other.holds(self@[i as int]));
                    return false;
                },
            }
            i += 1;
        }
        true
    }
}

impl Cookie {
    /// Whether the first value that this cookie has for the name of the pair
    /// is the value of the pair.
    pub open spec fn holds(&self, pair: (Seq<u8>, Seq<u8>)) -> bool {
        first_of(self@, pair.0) < self@.len() && self@[first_of(self@, pair.0)].1 == pair.1
    }
}

impl PartialEqSpecImpl for Cookie {
    open spec fn obeys_eq_spec() -> bool {
        true
    }

    open spec fn eq_spec(&self, other: &Cookie) -> bool {
        self@.len() == other@.len() && forall|j: int|
            0 <= j < self@.len() ==> other.holds(#[trigger] self@[j])
    }
}

} // verus!
