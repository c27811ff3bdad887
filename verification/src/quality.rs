//! Quality values: the optional `;q=` weight that follows an item of a
//! content negotiation header.
//!
//! The weight is recognised from the right end of an element, so that the
//! item's own text is never scanned: whatever stands before a well-formed
//! weight is the item.

use vstd::prelude::*;
use vstd::string::StringSliceAdditionalSpecFns;
use vstd::utf8::encode_utf8;
use crate::error::{Error, ErrorKind};
use crate::text::{is_ascii, is_digit, is_ows, lemma_ascii_is_utf8, push_all, utf8_to_string};
use crate::util::{FromHeaderValue, ToHeaderValue};

verus! {

/// Number of spaces and tabs at the back of `s`.
pub open spec fn trailing_ows(s: Seq<u8>) -> nat
    decreases s.len(),
{
    if s.len() > 0 && is_ows(s.last()) {
        1 + trailing_ows(s.drop_last())
    } else {
        0
    }
}

/// `s` without the spaces and tabs at its back.
pub open spec fn strip_ows(s: Seq<u8>) -> Seq<u8> {
    s.take(s.len() - trailing_ows(s))
}

/// Number of decimal digits at the back of `s`, counted up to `limit`.
pub open spec fn trailing_digits(s: Seq<u8>, limit: nat) -> nat
    decreases limit,
{
    if limit > 0 && s.len() > 0 && is_digit(s.last()) {
        1 + trailing_digits(s.drop_last(), (limit - 1) as nat)
    } else {
        0
    }
}

/// The number that a decimal digit stands for.
pub open spec fn digit_value(b: u8) -> int {
    b - '0' as u8
}

/// Thousandths denoted by at most three fraction digits: the first counts
/// hundreds, the second tens, the third units.
pub open spec fn fraction(d: Seq<u8>) -> int {
    (if d.len() > 0 {
        100 * digit_value(d[0])
    } else {
        0
    }) + (if d.len() > 1 {
        10 * digit_value(d[1])
    } else {
        0
    }) + (if d.len() > 2 {
        digit_value(d[2])
    } else {
        0
    })
}

/// The qvalue that `s` ends with, as the number of bytes it takes and the
/// thousandths it denotes.
///
/// A qvalue is `0` or `1` directly after `=`, or `0` or `1`, a dot, and at
/// most three digits, all of them `0` after `1`.
pub open spec fn qvalue_at_end(s: Seq<u8>) -> Option<(nat, int)> {
    let n = s.len() as int;
    if n >= 2 && s[n - 2] == '=' as u8 && (s[n - 1] == '0' as u8 || s[n - 1] == '1' as u8) {
        Some((1, 1000 * digit_value(s[n - 1])))
    } else {
        let k = trailing_digits(s, 3) as int;
        let f = fraction(s.skip(n - k));
        if n >= k + 2 && s[n - k - 1] == '.' as u8 && (s[n - k - 2] == '0' as u8 || (s[n - k - 2]
            == '1' as u8 && f == 0)) {
            Some(
                (
                    (k + 2) as nat,
                    if s[n - k - 2] == '1' as u8 {
                        1000
                    } else {
                        f
                    },
                ),
            )
        } else {
            None
        }
    }
}

/// The weight that the element `s` ends with, as the length of the item text
/// before it and the quality in thousandths; `None` where `s` ends with no
/// well-formed weight.
///
/// Read from the right: optional white space, a qvalue, `=`, `q` or `Q`,
/// optional white space, `;`, optional white space. The item text is what
/// stands before all of that.
pub open spec fn weight(s: Seq<u8>) -> Option<(nat, int)> {
    let t = strip_ows(s);
    match qvalue_at_end(t) {
        None => None,
        Some((n, q)) => {
            let a = t.take(t.len() - n);
            if a.len() >= 2 && a.last() == '=' as u8 && (a[a.len() - 2] == 'q' as u8 || a[a.len()
                - 2] == 'Q' as u8) {
                let b = strip_ows(a.take(a.len() - 2));
                if b.len() >= 1 && b.last() == ';' as u8 {
                    Some((strip_ows(b.drop_last()).len(), q))
                } else {
                    None
                }
            } else {
                None
            }
        },
    }
}

/// The fraction digits written for a quality between 1 and 999: three
/// digits, without the zeros at the end.
pub open spec fn fraction_digits(q: int) -> Seq<u8> {
    let d0 = ('0' as u8 + q / 100) as u8;
    let d1 = ('0' as u8 + (q / 10) % 10) as u8;
    let d2 = ('0' as u8 + q % 10) as u8;
    if q % 10 != 0 {
        seq![d0, d1, d2]
    } else if q % 100 != 0 {
        seq![d0, d1]
    } else {
        seq![d0]
    }
}

/// The text `; q=0`.
pub open spec fn zero_weight_text() -> Seq<u8> {
    seq![';' as u8, ' ' as u8, 'q' as u8, '=' as u8, '0' as u8]
}

/// The weight written after an item of quality `q`: nothing for 1000,
/// `; q=0` for 0, and otherwise `; q=0.` with the fraction digits.
pub open spec fn weight_text(q: int) -> Seq<u8> {
    if q == 1000 {
        Seq::empty()
    } else if q == 0 {
        zero_weight_text()
    } else {
        zero_weight_text().push('.' as u8) + fraction_digits(q)
    }
}

/// A quality value: a weight between 0 and 1 with three fraction digits,
/// held in thousandths, from 0 to 1000. Quality values are ordered as their
/// weights.
#[derive(Debug, Copy, Clone, PartialEq, Eq, Ord)]
pub struct Quality(u16);

impl Quality {
    #[verifier::type_invariant]
    spec fn in_range(self) -> bool {
        self.0 <= 1000
    }

    /// The quality in thousandths.
    pub closed spec fn value(self) -> int {
        self.0 as int
    }

    /// Creates a quality value from a number of thousandths between 0 and
    /// 1000 inclusive.
    pub fn from_u16(quality: u16) -> (q: Quality)
        requires
            quality <= 1000,
        ensures
            q.value() == quality,
    {
        Quality(quality)
    }

    /// Creates a quality value from a number of thousandths, if it is at most
    /// 1000.
    pub fn checked_from_u16(quality: u16) -> (r: Option<Quality>)
        ensures
            match r {
                Some(q) => quality <= 1000 && q.value() == quality,
                None => quality > 1000,
            },
    {
        if quality <= 1000 {
            Some(Quality(quality))
        } else {
            None
        }
    }

    /// Returns the quality in thousandths.
    pub fn as_u16(&self) -> (r: u16)
        ensures
            r == self.value(),
            r <= 1000,
    {
        proof {
            use_type_invariant(self);
        }
        self.0
    }
}

/// A value paired with its quality.
///
/// An element without a weight has the quality 1000. The weight is looked for
/// at the right end of an element, whatever the item is; so the text of an
/// item type must not itself end with what reads as a weight, nor with a
/// space or a tab, or an item would not be read back as it was written.
/// [`item_text_is_faithful`] states what is asked of an item text.
#[derive(Debug, Clone, PartialEq)]
pub struct QualityItem<T> {
    pub item: T,
    pub quality: Quality,
}

impl<T> QualityItem<T> {
    /// Creates a new quality item.
    pub fn new(item: T, quality: Quality) -> (r: QualityItem<T>)
        ensures
            r.item == item,
            r.quality == quality,
    {
        QualityItem { item, quality }
    }
}

impl<T: ToHeaderValue> QualityItem<T> {
    /// The element text of this item: the item's own text, then the weight.
    pub fn to_string(&self) -> (s: String)
        ensures
            encode_utf8(s@) == T::rendered(self.item.model()) + weight_text(self.quality.value()),
    {
        self.to_header_value()
    }
}

impl<T: FromHeaderValue> QualityItem<T> {
    /// Reads an element: an item, and the weight after it if there is one.
    pub fn from_str(s: &str) -> (r: Result<QualityItem<T>, Error>)
        ensures
            match r {
                Ok(v) => Self::parsed(s.spec_bytes()) == Some(v.model()),
                Err(e) => Self::parsed(s.spec_bytes()) is None && e == Error(
                    ErrorKind::InvalidValue,
                ),
            },
    {
        Self::from_header_value(s.as_bytes())
    }
}

impl<T: ToHeaderValue> ToHeaderValue for QualityItem<T> {
    type Model = (T::Model, int);

    open spec fn model(&self) -> Self::Model {
        (self.item.model(), self.quality.value())
    }

    open spec fn rendered(m: Self::Model) -> Seq<u8> {
        T::rendered(m.0) + weight_text(m.1)
    }

    fn to_header_value(&self) -> (s: String) {
        let item = self.item.to_header_value();
        let mut out: Vec<u8> = Vec::new();
        push_all(&mut out, item.as_str().as_bytes());
        let ghost head = out@;
        proof {
            vstd::utf8::encode_utf8_valid_utf8(item@);
            assert(head =~= encode_utf8(item@));
        }
        let q = self.quality.as_u16();
        if q != 1000 {
            out.push(';' as u8);
            out.push(' ' as u8);
            out.push('q' as u8);
            out.push('=' as u8);
            out.push('0' as u8);
            if q != 0 {
                out.push('.' as u8);
                let d0: u8 = (q / 100) as u8;
                let d1: u8 = ((q / 10) % 10) as u8;
                let d2: u8 = (q % 10) as u8;
                out.push('0' as u8 + d0);
                if d1 != 0 || d2 != 0 {
                    out.push('0' as u8 + d1);
                }
                if d2 != 0 {
                    out.push('0' as u8 + d2);
                }
            }
        }
        proof {
            let w = weight_text(q as int);
            assert(out@ =~= head + w);
            assert(is_ascii(w));
            lemma_ascii_is_utf8(w);
            vstd::utf8::valid_utf8_concat(head, w);
        }
        utf8_to_string(out)
    }
}

impl<T: FromHeaderValue> FromHeaderValue for QualityItem<T> {
    open spec fn parsed(s: Seq<u8>) -> Option<Self::Model> {
        match weight(s) {
            Some((n, q)) => match T::parsed(s.take(n as int)) {
                Some(item) => Some((item, q)),
                None => None,
            },
            None => match T::parsed(s) {
                Some(item) => Some((item, 1000)),
                None => None,
            },
        }
    }

    fn from_header_value(s: &[u8]) -> (r: Result<Self, Error>) {
        match WeightParser::parse(s) {
            Some((remaining, quality)) => {
                proof {
                    lemma_weight_bounds(s@);
                }
                let text = vstd::slice::slice_subrange(s, 0, remaining);
                match T::from_header_value(text) {
                    Ok(item) => Ok(QualityItem { item, quality }),
                    Err(e) => Err(e),
                }
            },
            None => {
                match T::from_header_value(s) {
                    Ok(item) => Ok(QualityItem { item, quality: Quality(1000) }),
                    Err(e) => Err(e),
                }
            },
        }
    }
}

/// `strip_ows` gives a prefix that does not end with a space or a tab.
pub proof fn lemma_strip_ows(s: Seq<u8>)
    ensures
        trailing_ows(s) <= s.len(),
        strip_ows(s).len() == 0 || !is_ows(strip_ows(s).last()),
    decreases s.len(),
{
    if s.len() > 0 && is_ows(s.last()) {
        lemma_strip_ows(s.drop_last());
        assert(strip_ows(s) =~= strip_ows(s.drop_last()));
    } else {
        assert(strip_ows(s) =~= s);
    }
}

/// A weight lies within the element and denotes a quality between 0 and
/// 1000.
pub proof fn lemma_weight_bounds(s: Seq<u8>)
    ensures
        weight(s) matches Some((n, q)) ==> n <= s.len() && 0 <= q <= 1000,
{
    reveal_with_fuel(trailing_digits, 4);
    lemma_strip_ows(s);
    let t = strip_ows(s);
    match qvalue_at_end(t) {
        None => {},
        Some((n, q)) => {
            let a = t.take(t.len() - n);
            if a.len() >= 2 {
                let b = strip_ows(a.take(a.len() - 2));
                lemma_strip_ows(a.take(a.len() - 2));
                if b.len() >= 1 {
                    lemma_strip_ows(b.drop_last());
                }
            }
            let k = trailing_digits(t, 3) as int;
            let d = t.skip(t.len() - k);
            assert(forall|i: int| 0 <= i < k ==> is_digit(#[trigger] d[i])) by {
                assert(k >= 1 ==> d[k - 1] == t.last());
                assert(k >= 2 ==> d[k - 2] == t.drop_last().last());
                assert(k >= 3 ==> d[k - 3] == t.drop_last().drop_last().last());
            }
        },
    }
}

/// An element ends with a weight only if it holds `=` and `;`.
pub proof fn lemma_weight_needs_marks(s: Seq<u8>)
    ensures
        weight(s) is Some ==> s.contains('=' as u8) && s.contains(';' as u8),
{
    lemma_strip_ows(s);
    let t = strip_ows(s);
    match qvalue_at_end(t) {
        None => {},
        Some((n, q)) => {
            reveal_with_fuel(trailing_digits, 4);
            let a = t.take(t.len() - n);
            if weight(s) is Some {
                assert(a.last() == s[a.len() - 1]);
                let a2 = a.take(a.len() - 2);
                lemma_strip_ows(a2);
                let b = strip_ows(a2);
                assert(b.last() == s[b.len() - 1]);
            }
        },
    }
}

/// The text `; q=`.
pub open spec fn weight_mark() -> Seq<u8> {
    seq![';' as u8, ' ' as u8, 'q' as u8, '=' as u8]
}

/// What stands before `; q=` is found again as the item text, provided that
/// it does not end with a space or a tab.
proof fn lemma_mark_after_item(t: Seq<u8>)
    requires
        t.len() == 0 || !is_ows(t.last()),
    ensures
        ({
            let a = t + weight_mark();
            let b = strip_ows(a.take(a.len() - 2));
            &&& a.last() == '=' as u8
            &&& a[a.len() - 2] == 'q' as u8
            &&& b.len() >= 1
            &&& b.last() == ';' as u8
            &&& strip_ows(b.drop_last()) == t
        }),
{
    reveal_with_fuel(trailing_ows, 3);
    let a = t + weight_mark();
    let a2 = a.take(a.len() - 2);
    assert(a2 =~= t + seq![';' as u8, ' ' as u8]);
    assert(a2.drop_last() =~= t + seq![';' as u8]);
    assert(trailing_ows(a2) == 1);
    assert(strip_ows(a2) =~= t + seq![';' as u8]);
    let b = strip_ows(a2);
    assert(b.drop_last() =~= t);
    assert(strip_ows(t) =~= t);
}

/// The fraction digits written for a quality denote that quality.
proof fn lemma_fraction_digits(q: int)
    requires
        0 < q < 1000,
    ensures
        1 <= fraction_digits(q).len() <= 3,
        forall|i: int|
            0 <= i < fraction_digits(q).len() ==> is_digit(#[trigger] fraction_digits(q)[i]),
        fraction(fraction_digits(q)) == q,
{
}

/// At most three digits after a byte that is no digit are counted in
/// full.
proof fn lemma_trailing_digits_counted(p: Seq<u8>, f: Seq<u8>)
    requires
        p.len() > 0,
        !is_digit(p.last()),
        f.len() <= 3,
        forall|i: int| 0 <= i < f.len() ==> is_digit(#[trigger] f[i]),
    ensures
        trailing_digits(p + f, 3) == f.len(),
{
    reveal_with_fuel(trailing_digits, 4);
    let s = p + f;
    if f.len() == 0 {
        assert(s =~= p);
    } else {
        assert(s.last() == f.last());
        let s1 = s.drop_last();
        assert(s1 =~= p + f.drop_last());
        if f.len() == 1 {
            assert(s1 =~= p);
        } else {
            assert(s1.last() == f[f.len() - 2]);
            let s2 = s1.drop_last();
            assert(s2 =~= p + f.drop_last().drop_last());
            if f.len() == 2 {
                assert(s2 =~= p);
            } else {
                assert(s2.last() == f[0]);
            }
        }
    }
}

/// A qvalue written after `=` with a fraction is read back.
proof fn lemma_qvalue_of_written(a: Seq<u8>, q: int)
    requires
        0 < q < 1000,
        a.len() > 0,
        a.last() == '=' as u8,
    ensures
        qvalue_at_end(a + seq!['0' as u8, '.' as u8] + fraction_digits(q)) == Some(
            ((fraction_digits(q).len() + 2) as nat, q),
        ),
{
    let f = fraction_digits(q);
    let k = f.len() as int;
    let p = a + seq!['0' as u8, '.' as u8];
    let s = p + f;
    let n = s.len() as int;
    lemma_fraction_digits(q);
    assert(p.last() == '.' as u8);
    lemma_trailing_digits_counted(p, f);
    assert(s.skip(n - k) =~= f);
    assert(s[n - k - 1] == p[p.len() - 1]);
    assert(s[n - k - 2] == p[p.len() - 2]);
    assert(s[n - 1] == f[k - 1]);
    assert(is_digit(f[k - 1]));
    assert(s[n - 2] != '=' as u8) by {
        if k == 1 {
            assert(s[n - 2] == p[p.len() - 1]);
        } else {
            assert(s[n - 2] == f[k - 2]);
            assert(is_digit(f[k - 2]));
        }
    }
}

/// An element made of an item text, `; q=` and a qvalue ends with the weight
/// that the qvalue denotes.
proof fn lemma_weight_of_parts(t: Seq<u8>, tail: Seq<u8>, q: int)
    requires
        t.len() == 0 || !is_ows(t.last()),
        tail.len() > 0,
        !is_ows(tail.last()),
        qvalue_at_end(t + weight_mark() + tail) == Some((tail.len(), q)),
    ensures
        weight(t + weight_mark() + tail) == Some((t.len(), q)),
{
    let a = t + weight_mark();
    let s = a + tail;
    lemma_mark_after_item(t);
    assert(s.last() == tail.last());
    assert(trailing_ows(s) == 0);
    assert(strip_ows(s) =~= s);
    assert(s.take(s.len() - tail.len()) =~= a);
}

/// The weight written for a quality below 1000 is read back as that quality,
/// and what stands before it is the item text, provided that this text does
/// not end with a space or a tab.
pub proof fn lemma_weight_of_written(t: Seq<u8>, q: int)
    requires
        0 <= q < 1000,
        t.len() == 0 || !is_ows(t.last()),
    ensures
        weight(t + weight_text(q)) == Some((t.len(), q)),
{
    let a = t + weight_mark();
    if q == 0 {
        let tail = seq!['0' as u8];
        let s = a + tail;
        assert(t + weight_text(q) =~= s);
        assert(s[s.len() - 2] == '=' as u8);
        assert(s[s.len() - 1] == '0' as u8);
        assert(qvalue_at_end(s) == Some((1nat, 0int)));
        lemma_weight_of_parts(t, tail, q);
    } else {
        let f = fraction_digits(q);
        let tail = seq!['0' as u8, '.' as u8] + f;
        lemma_fraction_digits(q);
        lemma_qvalue_of_written(a, q);
        assert(t + weight_text(q) =~= a + tail);
        assert(a + tail =~= a + seq!['0' as u8, '.' as u8] + f);
        assert(tail.last() == f.last());
        assert(is_digit(f[f.len() - 1]));
        lemma_weight_of_parts(t, tail, q);
    }
}

/// What makes an item text safe to put before a weight: it is read back as
/// the same item, it does not itself end with a weight, and it does not end
/// with a space or a tab.
pub open spec fn item_text_is_faithful<T: FromHeaderValue>(item: T::Model) -> bool {
    let text = T::rendered(item);
    &&& T::parsed(text) == Some(item)
    &&& weight(text) is None
    &&& text.len() == 0 || !is_ows(text.last())
}

/// Reading an element, writing the result and reading that again gives the
/// first result: one pass through the reader and the writer brings an
/// element to its normal form. The text written may differ from the element
/// read (`q=0.50` is written `q=0.5`).
///
/// This holds for every element whose item has a faithful text.
pub proof fn law_quality_item_normal_form<T: FromHeaderValue>(s: Seq<u8>)
    requires
        QualityItem::<T>::parsed(s) matches Some(v) ==> item_text_is_faithful::<T>(v.0),
    ensures
        QualityItem::<T>::parsed(s) matches Some(v) ==> QualityItem::<T>::parsed(
            QualityItem::<T>::rendered(v),
        ) == Some(v),
{
    match QualityItem::<T>::parsed(s) {
        None => {},
        Some(v) => {
            lemma_weight_bounds(s);
            let text = T::rendered(v.0);
            if v.1 == 1000 {
                assert(text + weight_text(1000) =~= text);
            } else {
                lemma_weight_of_written(text, v.1);
                assert((text + weight_text(v.1)).take(text.len() as int) =~= text);
            }
        },
    }
}

/// Every byte of `s` from `from` up to, but without, `to` is a space or a
/// tab.
pub open spec fn all_ows(s: Seq<u8>, from: int, to: int) -> bool {
    forall|i: int| from <= i < to ==> is_ows(#[trigger] s[i])
}

/// The quality that a qvalue text denotes, in thousandths: `0` or `1`, or
/// `0` or `1`, a dot, and at most three digits, all of them `0` after `1`.
pub open spec fn qvalue_text(v: Seq<u8>) -> Option<int> {
    if v.len() == 1 {
        if v[0] == '0' as u8 {
            Some(0)
        } else if v[0] == '1' as u8 {
            Some(1000)
        } else {
            None
        }
    } else if 2 <= v.len() <= 5 && v[1] == '.' as u8 && (forall|i: int|
        2 <= i < v.len() ==> is_digit(#[trigger] v[i])) {
        if v[0] == '0' as u8 {
            Some(fraction(v.skip(2)))
        } else if v[0] == '1' as u8 && fraction(v.skip(2)) == 0 {
            Some(1000)
        } else {
            None
        }
    } else {
        None
    }
}

/// The element `s` is an item text of `n` bytes and a weight of quality
/// `q`, with the semicolon at `semi`, the `q` at `mark` and the end of the
/// qvalue at `end`:
///
/// ```text
/// element = item OWS ";" OWS ( "q" / "Q" ) "=" qvalue OWS
/// ```
///
/// where the item text does not end with a space or a tab.
pub open spec fn weight_at(s: Seq<u8>, n: int, semi: int, mark: int, end: int, q: int) -> bool {
    &&& 0 <= n <= semi < mark
    &&& mark + 2 < end <= s.len()
    &&& n == 0 || !is_ows(s[n - 1])
    &&& all_ows(s, n, semi)
    &&& s[semi] == ';' as u8
    &&& all_ows(s, semi + 1, mark)
    &&& s[mark] == 'q' as u8 || s[mark] == 'Q' as u8
    &&& s[mark + 1] == '=' as u8
    &&& qvalue_text(s.subrange(mark + 2, end)) == Some(q)
    &&& all_ows(s, end, s.len() as int)
}

/// `strip_ows` cuts exactly the spaces and tabs at the end.
pub proof fn lemma_strip_ows_at(s: Seq<u8>, e: int)
    requires
        0 <= e <= s.len(),
        all_ows(s, e, s.len() as int),
        e == 0 || !is_ows(s[e - 1]),
    ensures
        strip_ows(s) == s.take(e),
    decreases s.len() - e,
{
    if e == s.len() {
        assert(strip_ows(s) =~= s);
        assert(s.take(e) =~= s);
    } else {
        assert(is_ows(s.last()));
        let t = s.drop_last();
        assert(all_ows(t, e, t.len() as int)) by {
            assert forall|i: int| e <= i < t.len() implies is_ows(#[trigger] t[i]) by {
                assert(t[i] == s[i]);
            }
        }
        lemma_strip_ows_at(t, e);
        lemma_strip_ows(t);
        assert(strip_ows(s) =~= strip_ows(t));
        assert(t.take(e) =~= s.take(e));
    }
}

/// What `strip_ows` cuts is spaces and tabs.
pub proof fn lemma_stripped_is_ows(s: Seq<u8>)
    ensures
        all_ows(s, strip_ows(s).len() as int, s.len() as int),
        strip_ows(s) == s.take(strip_ows(s).len() as int),
    decreases s.len(),
{
    lemma_strip_ows(s);
    if s.len() > 0 && is_ows(s.last()) {
        let t = s.drop_last();
        lemma_stripped_is_ows(t);
        lemma_strip_ows(t);
        assert(strip_ows(s) =~= strip_ows(t));
        assert forall|i: int| strip_ows(s).len() <= i < s.len() implies is_ows(#[trigger] s[i]) by {
            if i < t.len() {
                assert(s[i] == t[i]);
            }
        }
    } else {
        assert(strip_ows(s) =~= s);
    }
    assert(strip_ows(s) =~= s.take(strip_ows(s).len() as int));
}

/// The digits that `trailing_digits` counts are digits.
proof fn lemma_trailing_digits_are_digits(s: Seq<u8>)
    ensures
        trailing_digits(s, 3) <= 3,
        trailing_digits(s, 3) <= s.len(),
        forall|i: int| s.len() - trailing_digits(s, 3) <= i < s.len() ==> is_digit(#[trigger] s[i]),
{
    reveal_with_fuel(trailing_digits, 4);
    let n = s.len() as int;
    let k = trailing_digits(s, 3) as int;
    if k >= 1 {
        assert(is_digit(s[n - 1]));
    }
    if k >= 2 {
        assert(s.drop_last().last() == s[n - 2]);
    }
    if k >= 3 {
        assert(s.drop_last().drop_last().last() == s[n - 3]);
    }
}

/// A qvalue text at the end of a text, after `=`, is the qvalue that the
/// text ends with.
proof fn lemma_qvalue_text_at_end(t: Seq<u8>, start: int, q: int)
    requires
        0 < start < t.len(),
        t[start - 1] == '=' as u8,
        qvalue_text(t.skip(start)) == Some(q),
    ensures
        qvalue_at_end(t) == Some(((t.len() - start) as nat, q)),
{
    let v = t.skip(start);
    let n = t.len() as int;
    if v.len() == 1 {
        assert(t[n - 1] == v[0]);
    } else {
        let f = v.skip(2);
        let p = t.take(start + 2);
        assert(t =~= p + f);
        assert(p.last() == v[1]);
        assert forall|i: int| 0 <= i < f.len() implies is_digit(#[trigger] f[i]) by {
            assert(f[i] == v[i + 2]);
        }
        lemma_trailing_digits_counted(p, f);
        let k = f.len() as int;
        assert(t.skip(n - k) =~= f);
        assert(t[n - k - 1] == v[1]);
        assert(t[n - k - 2] == v[0]);
        if k == 0 {
            assert(t[n - 1] == '.' as u8);
        } else {
            assert(t[n - 2] != '=' as u8) by {
                if k == 1 {
                    assert(t[n - 2] == v[1]);
                } else {
                    assert(t[n - 2] == f[k - 2]);
                    assert(is_digit(f[k - 2]));
                }
            }
        }
    }
}

/// The qvalue that a text ends with is a qvalue text.
proof fn lemma_qvalue_at_end_is_text(t: Seq<u8>)
    ensures
        qvalue_at_end(t) matches Some((n, q)) ==> 1 <= n <= t.len() && qvalue_text(
            t.skip(t.len() - n),
        ) == Some(q),
{
    match qvalue_at_end(t) {
        None => {},
        Some((vl, q)) => {
            let n = t.len() as int;
            if n >= 2 && t[n - 2] == '=' as u8 && (t[n - 1] == '0' as u8 || t[n - 1] == '1' as u8) {
                let v = t.skip(n - 1);
                assert(v.len() == 1);
                assert(v[0] == t[n - 1]);
            } else {
                lemma_trailing_digits_are_digits(t);
                let k = trailing_digits(t, 3) as int;
                let v = t.skip(n - k - 2);
                assert(v[0] == t[n - k - 2]);
                assert(v[1] == t[n - k - 1]);
                assert(v.skip(2) =~= t.skip(n - k));
                assert forall|i: int| 2 <= i < v.len() implies is_digit(#[trigger] v[i]) by {
                    assert(v[i] == t[n - k - 2 + i]);
                }
            }
        },
    }
}

/// An element that follows the grammar of a weighted item ends with the
/// weight that the grammar gives it.
pub proof fn law_weight_is_complete(s: Seq<u8>, n: int, semi: int, mark: int, end: int, q: int)
    requires
        weight_at(s, n, semi, mark, end, q),
    ensures
        weight(s) == Some((n as nat, q)),
{
    let v = s.subrange(mark + 2, end);
    assert(v.len() >= 1);
    assert(v.last() == s[end - 1]);
    assert(!is_ows(s[end - 1])) by {
        if v.len() >= 2 && v.len() > 2 {
            assert(is_digit(v[v.len() - 1]));
        }
    }
    lemma_strip_ows_at(s, end);
    let t = s.take(end);
    assert(t.skip(mark + 2) =~= v);
    assert(t[mark + 1] == s[mark + 1]);
    lemma_qvalue_text_at_end(t, mark + 2, q);
    let a = t.take(mark + 2);
    assert(a =~= s.take(mark + 2));
    assert(a.last() == s[mark + 1]);
    assert(a[a.len() - 2] == s[mark]);
    let a2 = a.take(a.len() - 2);
    assert(a2 =~= s.take(mark));
    assert(all_ows(a2, semi + 1, a2.len() as int)) by {
        assert forall|i: int| semi + 1 <= i < a2.len() implies is_ows(#[trigger] a2[i]) by {
            assert(a2[i] == s[i]);
        }
    }
    assert(a2[semi] == s[semi]);
    lemma_strip_ows_at(a2, semi + 1);
    let b = a2.take(semi + 1);
    assert(b.last() == s[semi]);
    let c = b.drop_last();
    assert(c =~= s.take(semi));
    assert(all_ows(c, n, c.len() as int)) by {
        assert forall|i: int| n <= i < c.len() implies is_ows(#[trigger] c[i]) by {
            assert(c[i] == s[i]);
        }
    }
    if n > 0 {
        assert(c[n - 1] == s[n - 1]);
    }
    lemma_strip_ows_at(c, n);
}

/// An element that ends with a weight follows the grammar of a weighted
/// item, with the item text that the weight leaves.
pub proof fn law_weight_is_sound(s: Seq<u8>)
    ensures
        weight(s) matches Some((n, q)) ==> exists|semi: int, mark: int, end: int|
            weight_at(s, n as int, semi, mark, end, q),
{
    match weight(s) {
        None => {},
        Some((n, q)) => {
            lemma_strip_ows(s);
            lemma_stripped_is_ows(s);
            let t = strip_ows(s);
            let end = t.len() as int;
            lemma_qvalue_at_end_is_text(t);
            let found = qvalue_at_end(t)->0;
            let vl = found.0 as int;
            let a = t.take(end - vl);
            let mark = end - vl - 2;
            let a2 = a.take(a.len() - 2);
            lemma_strip_ows(a2);
            lemma_stripped_is_ows(a2);
            let b = strip_ows(a2);
            let semi = b.len() - 1;
            let c = b.drop_last();
            lemma_strip_ows(c);
            lemma_stripped_is_ows(c);
            assert(strip_ows(c).len() == n);
            assert(t.skip(end - vl) =~= s.subrange(mark + 2, end));
            assert(a.last() == s[mark + 1]);
            assert(a[a.len() - 2] == s[mark]);
            assert(b.last() == s[semi]);
            assert(all_ows(s, semi + 1, mark)) by {
                assert forall|i: int| semi + 1 <= i < mark implies is_ows(#[trigger] s[i]) by {
                    assert(a2[i] == s[i]);
                }
            }
            assert(all_ows(s, n as int, semi)) by {
                assert forall|i: int| n <= i < semi implies is_ows(#[trigger] s[i]) by {
                    assert(c[i] == s[i]);
                }
            }
            if n > 0 {
                assert(strip_ows(c).last() == s[n - 1]);
            }
            assert(weight_at(s, n as int, semi, mark, end, q));
        },
    }
}

/// The weight written for a quality is visible ASCII without a comma, and
/// ends with a digit where it is not empty.
proof fn lemma_weight_text_shape(q: int)
    requires
        0 <= q <= 1000,
    ensures
        crate::text::is_visible_ascii(weight_text(q)),
        !weight_text(q).contains(',' as u8),
        q != 1000 ==> weight_text(q).len() > 0 && is_digit(weight_text(q).last()),
{
    let w = weight_text(q);
    if 0 < q < 1000 {
        lemma_fraction_digits(q);
        let f = fraction_digits(q);
        assert forall|i: int| 0 <= i < w.len() implies crate::text::is_visible(#[trigger] w[i])
            && w[i] != ',' as u8 by {
            if i >= 6 {
                assert(w[i] == f[i - 6]);
                assert(is_digit(f[i - 6]));
            }
        }
        assert(w.last() == f.last());
    }
    if w.contains(',' as u8) {
        let i = choose|i: int| 0 <= i < w.len() && w[i] == ',' as u8;
        assert(crate::text::is_visible(w[i]) && w[i] != ',' as u8);
    }
}

/// An item with a faithful text that can stand in a list makes, with any
/// quality, an element that can stand in a list and is read back as it was
/// written.
pub proof fn lemma_quality_element_is_faithful<T: FromHeaderValue>(item: T::Model, q: int)
    requires
        0 <= q <= 1000,
        item_text_is_faithful::<T>(item),
        crate::laws::element_is_faithful::<T>(item),
    ensures
        crate::laws::element_is_faithful::<QualityItem<T>>((item, q)),
{
    let text = T::rendered(item);
    let w = weight_text(q);
    let whole = text + w;
    lemma_weight_text_shape(q);
    if q == 1000 {
        assert(whole =~= text);
    } else {
        lemma_weight_of_written(text, q);
        assert(whole.take(text.len() as int) =~= text);
        assert(whole.last() == w.last());
    }
    assert(whole[0] == text[0]);
    assert forall|i: int| 0 <= i < whole.len() implies crate::text::is_visible(
        #[trigger] whole[i],
    ) by {
        if i < text.len() {
            assert(whole[i] == text[i]);
        } else {
            assert(whole[i] == w[i - text.len()]);
        }
    }
    if whole.contains(',' as u8) {
        let i = choose|i: int| 0 <= i < whole.len() && whole[i] == ',' as u8;
        if i < text.len() {
            assert(text[i] == ',' as u8);
            assert(text.contains(',' as u8));
        } else {
            assert(w[i - text.len()] == ',' as u8);
            assert(w.contains(',' as u8));
        }
    }
}

/// An item whose text is a token, and is read as the item, has a faithful
/// text, before a weight and in a list.
pub proof fn lemma_token_is_faithful<T: FromHeaderValue>(item: T::Model)
    requires
        crate::util::is_token_text(T::rendered(item)),
        T::parsed(T::rendered(item)) == Some(item),
    ensures
        item_text_is_faithful::<T>(item),
        crate::laws::element_is_faithful::<T>(item),
{
    let text = T::rendered(item);
    assert forall|i: int| 0 <= i < text.len() implies crate::text::is_visible(#[trigger] text[i])
        && text[i] != ',' as u8 && text[i] != '=' as u8 && !crate::text::is_whitespace(text[i]) by {
        assert(crate::util::is_tchar(text[i]));
    }
    if text.contains(',' as u8) {
        let i = choose|i: int| 0 <= i < text.len() && text[i] == ',' as u8;
        assert(crate::util::is_tchar(text[i]));
    }
    if text.contains('=' as u8) {
        let i = choose|i: int| 0 <= i < text.len() && text[i] == '=' as u8;
        assert(crate::util::is_tchar(text[i]));
    }
    lemma_weight_needs_marks(text);
    assert(!crate::text::is_whitespace(text[0]));
    assert(!crate::text::is_whitespace(text.last()));
}

/// A scanner that reads an element from its right end.
pub struct WeightParser<'a> {
    bytes: &'a [u8],
    len: usize,
}

impl<'a> WeightParser<'a> {
    #[verifier::type_invariant]
    spec fn in_bounds(self) -> bool {
        self.len <= self.bytes@.len()
    }

    /// The bytes not yet read: a prefix of the element.
    pub closed spec fn remaining(self) -> Seq<u8> {
        self.bytes@.take(self.len as int)
    }

    /// The element that the scanner was made for.
    pub closed spec fn source(self) -> Seq<u8> {
        self.bytes@
    }

    /// A scanner at the right end of `s`.
    pub fn new(s: &'a [u8]) -> (p: WeightParser<'a>)
        ensures
            p.remaining() == s@,
            p.source() == s@,
    {
        assert(s@.take(s@.len() as int) =~= s@);
        WeightParser { bytes: s, len: s.len() }
    }

    /// Number of bytes not yet read.
    pub fn position(&self) -> (n: usize)
        ensures
            n == self.remaining().len(),
    {
        proof {
            use_type_invariant(self);
        }
        self.len
    }

    /// The weight that `s` ends with: the length of the item text before it,
    /// and the quality.
    pub fn parse(s: &'a [u8]) -> (r: Option<(usize, Quality)>)
        ensures
            match r {
                Some((n, q)) => weight(s@) == Some((n as nat, q.value())),
                None => weight(s@) is None,
            },
    {
        let mut parser = WeightParser::new(s);
        parser.ows();
        let ghost t = parser.remaining();
        let qvalue = match parser.qvalue() {
            Some(q) => q,
            None => {
                return None;
            },
        };
        let ghost a = parser.remaining();
        if parser.eat('=' as u8).is_none() {
            return None;
        }
        if parser.eat('q' as u8).is_none() {
            if parser.eat('Q' as u8).is_none() {
                return None;
            }
        }
        proof {
            assert(parser.remaining() =~= a.take(a.len() - 2));
            assert(a[a.len() - 2] == a.drop_last().last());
        }
        parser.ows();
        let ghost b = parser.remaining();
        if parser.eat(';' as u8).is_none() {
            return None;
        }
        parser.ows();
        let remaining = parser.position();
        Some((remaining, Quality(qvalue)))
    }

    /// Reads the qvalue that the unread bytes end with. Where they end with
    /// none, nothing is read.
    pub fn qvalue(&mut self) -> (r: Option<u16>)
        ensures
            final(self).source() == old(self).source(),
            match r {
                Some(q) => qvalue_at_end(old(self).remaining()) matches Some((n, v)) && v == q
                    && q <= 1000 && final(self).remaining() == old(self).remaining().take(
                    old(self).remaining().len() - n,
                ),
                None => qvalue_at_end(old(self).remaining()) is None && final(self).remaining()
                    == old(self).remaining(),
            },
    {
        proof {
            use_type_invariant(&*self);
        }
        let start = self.len;
        let r = self.scan_qvalue();
        if r.is_none() {
            self.len = start;
        }
        r
    }

    /// Reads the qvalue that the unread bytes end with; where they end with
    /// none, some of its bytes may have been read.
    fn scan_qvalue(&mut self) -> (r: Option<u16>)
        ensures
            final(self).source() == old(self).source(),
            match r {
                Some(q) => qvalue_at_end(old(self).remaining()) matches Some((n, v)) && v == q
                    && q <= 1000 && final(self).remaining() == old(self).remaining().take(
                    old(self).remaining().len() - n,
                ),
                None => qvalue_at_end(old(self).remaining()) is None,
            },
    {
        let ghost s = self.remaining();
        let ghost n = s.len() as int;
        proof {
            reveal_with_fuel(trailing_digits, 4);
        }
        let mut value: u16 = match self.digit() {
            Some(v) => {
                if v <= 1 && self.peek() == Some('=' as u8) {
                    assert(s[n - 2] == s.drop_last().last());
                    return Some(v * 1000);
                }
                assert(n >= 2 ==> s[n - 2] == s.drop_last().last());
                v
            },
            None => {
                if self.peek() != Some('.' as u8) {
                    return None;
                }
                0
            },
        };
        let ghost s1 = self.remaining();
        match self.digit() {
            Some(digit1) => {
                let ghost s2 = self.remaining();
                match self.digit() {
                    Some(digit2) => {
                        value = value + digit1 * 10 + digit2 * 100;
                    },
                    None => {
                        value = value * 10 + digit1 * 100;
                    },
                }
            },
            None => {
                value = value * 100;
            },
        }
        let ghost k = trailing_digits(s, 3) as int;
        let ghost rest = self.remaining();
        proof {
            assert(rest =~= s.take(n - k));
            assert(value == fraction(s.skip(n - k)));
            assert(n - k - 1 >= 0 ==> s[n - k - 1] == rest.last());
        }
        if self.eat('.' as u8).is_none() {
            return None;
        }
        proof {
            assert(self.remaining() =~= s.take(n - k - 1));
            assert(n - k - 2 >= 0 ==> s[n - k - 2] == self.remaining().last());
        }
        match self.peek() {
            None => None,
            Some(b) => {
                if b == '0' as u8 {
                    self.next();
                    assert(self.remaining() =~= s.take(n - (k + 2)));
                    Some(value)
                } else if b == '1' as u8 && value == 0 {
                    self.next();
                    assert(self.remaining() =~= s.take(n - (k + 2)));
                    Some(1000)
                } else {
                    None
                }
            },
        }
    }

    /// Reads one decimal digit, if the unread bytes end with one.
    pub fn digit(&mut self) -> (r: Option<u16>)
        ensures
            final(self).source() == old(self).source(),
            match r {
                Some(d) => old(self).remaining().len() > 0 && is_digit(
                    old(self).remaining().last(),
                ) && d == digit_value(old(self).remaining().last()) && final(self).remaining()
                    == old(self).remaining().drop_last(),
                None => (old(self).remaining().len() == 0 || !is_digit(
                    old(self).remaining().last(),
                )) && final(self).remaining() == old(self).remaining(),
            },
    {
        match self.peek() {
            None => None,
            Some(v) => {
                if '0' as u8 <= v && v <= '9' as u8 {
                    self.next();
                    Some((v - '0' as u8) as u16)
                } else {
                    None
                }
            },
        }
    }

    /// Skips the spaces and tabs that the unread bytes end with.
    pub fn ows(&mut self)
        ensures
            final(self).source() == old(self).source(),
            final(self).remaining() == strip_ows(old(self).remaining()),
    {
        let ghost s = self.remaining();
        loop
            invariant
                self.source() == old(self).source(),
                s == old(self).remaining(),
                self.remaining().len() <= s.len(),
                self.remaining() == s.take(self.remaining().len() as int),
                trailing_ows(s) == (s.len() - self.remaining().len()) + trailing_ows(
                    self.remaining(),
                ),
            ensures
                self.source() == old(self).source(),
                self.remaining() == strip_ows(s),
            decreases self.remaining().len(),
        {
            match self.peek() {
                None => {
                    break ;
                },
                Some(b) => {
                    if b == ' ' as u8 || b == '\t' as u8 {
                        let ghost before = self.remaining();
                        self.next();
                        assert(self.remaining() =~= s.take(before.len() - 1));
                    } else {
                        break ;
                    }
                },
            }
        }
    }

    /// The last unread byte, if any is left.
    pub fn peek(&self) -> (r: Option<u8>)
        ensures
            match r {
                Some(b) => self.remaining().len() > 0 && b == self.remaining().last(),
                None => self.remaining().len() == 0,
            },
    {
        proof {
            use_type_invariant(self);
        }
        if self.len > 0 {
            Some(self.bytes[self.len - 1])
        } else {
            None
        }
    }

    /// Reads the last unread byte, if any is left.
    pub fn next(&mut self) -> (r: Option<u8>)
        ensures
            final(self).source() == old(self).source(),
            match r {
                Some(b) => old(self).remaining().len() > 0 && b == old(self).remaining().last()
                    && final(self).remaining() == old(self).remaining().drop_last(),
                None => old(self).remaining().len() == 0 && final(self).remaining()
                    == old(self).remaining(),
            },
    {
        proof {
            use_type_invariant(&*self);
        }
        if self.len > 0 {
            let b = self.bytes[self.len - 1];
            self.len = self.len - 1;
            assert(self.remaining() =~= old(self).remaining().drop_last());
            Some(b)
        } else {
            None
        }
    }

    /// Reads the last unread byte if it is `value`.
    pub fn eat(&mut self, value: u8) -> (r: Option<()>)
        ensures
            final(self).source() == old(self).source(),
            r is Some <==> old(self).remaining().len() > 0 && old(self).remaining().last()
                == value,
            final(self).remaining() == if r is Some {
                old(self).remaining().drop_last()
            } else {
                old(self).remaining()
            },
    {
        if self.peek() == Some(value) {
            self.next();
            Some(())
        } else {
            None
        }
    }
}

} // verus!
