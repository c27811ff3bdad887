//! The `Range` header.

use vstd::prelude::*;
use vstd::string::StringSliceAdditionalSpecFns;
use vstd::utf8::{encode_utf8, valid_utf8};
use crate::error::{Error, ErrorKind};
use crate::header::Header;
use crate::number::{
    decimal_digits, lemma_decimal_digits_are_digits, parse_decimal, parse_u64, push_decimal,
};
use crate::text::{
    bytes_eq, bytes_to_string, is_ascii, lemma_ascii_is_utf8, push_all, split, split_bytes,
    split_in_two, split_once, trim, trim_bytes, utf8_to_string,
};
use crate::util::{
    encode_single_value, parse_single_value, single_value, single_value_taken, FromHeaderValue,
    ToHeaderValue, ToValues, Values,
};

verus! {

/// `Range` header: the part of a representation that a request asks for, as
/// a set of byte ranges or in a unit of its own.
#[derive(PartialEq, Clone, Debug)]
pub enum Range {
    /// Byte ranges.
    Bytes(Vec<ByteRangeSpec>),
    /// A range in another unit: the unit, then the range set as it was
    /// written.
    Unregistered(String, String),
}

/// One range of a byte range set.
#[derive(PartialEq, Clone, Debug)]
pub enum ByteRangeSpec {
    /// All bytes from the first to the second position ("x-y").
    FromTo(u64, u64),
    /// All bytes from a position on ("x-").
    AllFrom(u64),
    /// The last bytes, as many as given ("-x").
    Last(u64),
}

/// What a `Range` value stands for.
pub enum RangeModel {
    Bytes(Seq<ByteRangeSpec>),
    Unregistered(Seq<u8>, Seq<u8>),
}

/// The least of two positions.
pub open spec fn least(a: u64, b: u64) -> u64 {
    if a <= b {
        a
    } else {
        b
    }
}

/// The satisfiable range that `spec` denotes in a representation of
/// `full_length` bytes, as an inclusive pair `(from, to)` with
/// `from <= to < full_length`; `None` where it denotes none.
pub open spec fn satisfiable_range(spec: ByteRangeSpec, full_length: u64) -> Option<(u64, u64)> {
    if full_length == 0 {
        None
    } else {
        match spec {
            ByteRangeSpec::FromTo(from, to) => if from < full_length && from <= to {
                Some((from, least(to, (full_length - 1) as u64)))
            } else {
                None
            },
            ByteRangeSpec::AllFrom(from) => if from < full_length {
                Some((from, (full_length - 1) as u64))
            } else {
                None
            },
            ByteRangeSpec::Last(last) => if last > 0 {
                if last > full_length {
                    Some((0, (full_length - 1) as u64))
                } else {
                    Some(((full_length - last) as u64, (full_length - 1) as u64))
                }
            } else {
                None
            },
        }
    }
}

/// The byte range that `s` denotes: `-x`, `x-`, or `x-y` with `x <= y`.
pub open spec fn byte_range_spec(s: Seq<u8>) -> Option<ByteRangeSpec> {
    match split_once(s, '-' as u8) {
        None => None,
        Some((start, end)) => if start.len() == 0 {
            match parse_decimal(end, u64::MAX as nat) {
                Some(n) => Some(ByteRangeSpec::Last(n as u64)),
                None => None,
            }
        } else if end.len() == 0 {
            match parse_decimal(start, u64::MAX as nat) {
                Some(n) => Some(ByteRangeSpec::AllFrom(n as u64)),
                None => None,
            }
        } else {
            match (parse_decimal(start, u64::MAX as nat), parse_decimal(end, u64::MAX as nat)) {
                (Some(a), Some(b)) => if a <= b {
                    Some(ByteRangeSpec::FromTo(a as u64, b as u64))
                } else {
                    None
                },
                _ => None,
            }
        },
    }
}

/// The text of a byte range.
pub open spec fn byte_range_text(spec: ByteRangeSpec) -> Seq<u8> {
    match spec {
        ByteRangeSpec::FromTo(from, to) => decimal_digits(from as nat).push('-' as u8)
            + decimal_digits(to as nat),
        ByteRangeSpec::Last(pos) => seq!['-' as u8] + decimal_digits(pos as nat),
        ByteRangeSpec::AllFrom(pos) => decimal_digits(pos as nat).push('-' as u8),
    }
}

/// The items among comma-separated pieces: every piece is trimmed, and a
/// piece that is empty or denotes no item is passed over.
pub open spec fn lenient_items<T: FromHeaderValue>(pieces: Seq<Seq<u8>>) -> Seq<T::Model>
    decreases pieces.len(),
{
    if pieces.len() == 0 {
        Seq::empty()
    } else {
        let items = lenient_items::<T>(pieces.drop_last());
        let e = trim(pieces.last());
        if e.len() == 0 {
            items
        } else {
            match T::parsed(e) {
                Some(item) => items.push(item),
                None => items,
            }
        }
    }
}

/// The texts of byte ranges, joined by commas.
pub open spec fn byte_ranges_text(ranges: Seq<ByteRangeSpec>) -> Seq<u8>
    decreases ranges.len(),
{
    if ranges.len() == 0 {
        Seq::empty()
    } else if ranges.len() == 1 {
        byte_range_text(ranges[0])
    } else {
        byte_ranges_text(ranges.drop_last()).push(',' as u8) + byte_range_text(ranges.last())
    }
}

/// The text `bytes=`.
pub open spec fn bytes_prefix() -> Seq<u8> {
    "bytes".spec_bytes().push('=' as u8)
}

/// The text of a `Range` value.
pub open spec fn range_text(m: RangeModel) -> Seq<u8> {
    match m {
        RangeModel::Bytes(ranges) => bytes_prefix() + byte_ranges_text(ranges),
        RangeModel::Unregistered(unit, set) => unit.push('=' as u8) + set,
    }
}

/// The `Range` value that `s` denotes: `bytes=` and a set of at least one
/// byte range, where what denotes no range is passed over; or another
/// unit, `=` and a range set, neither of them empty.
pub open spec fn range_value(s: Seq<u8>) -> Option<RangeModel> {
    match split_once(s, '=' as u8) {
        None => None,
        Some((unit, set)) => if unit == "bytes".spec_bytes() {
            let ranges = lenient_items::<ByteRangeSpec>(split(set, ',' as u8));
            if ranges.len() == 0 {
                None
            } else {
                Some(RangeModel::Bytes(ranges))
            }
        } else if unit.len() > 0 && set.len() > 0 && valid_utf8(unit) && valid_utf8(set) {
            Some(RangeModel::Unregistered(unit, set))
        } else {
            None
        },
    }
}

impl ByteRangeSpec {
    /// Given the full length of the entity, attempts to normalize the byte
    /// range into a satisfiable end-inclusive `(from, to)` range.
    ///
    /// The resulting range lies within `0 <= from <= to < full_length`. If
    /// the byte range is unsatisfiable, `None` is returned.
    pub fn to_satisfiable_range(&self, full_length: u64) -> (r: Option<(u64, u64)>)
        ensures
            r == satisfiable_range(*self, full_length),
            r matches Some((from, to)) ==> from <= to < full_length,
    {
        if full_length == 0 {
            return None;
        }
        match *self {
            ByteRangeSpec::FromTo(from, to) => {
                if from < full_length && from <= to {
                    let last = full_length - 1;
                    Some(
                        (
                            from,
                            if to <= last {
                                to
                            } else {
                                last
                            },
                        ),
                    )
                } else {
                    None
                }
            },
            ByteRangeSpec::AllFrom(from) => {
                if from < full_length {
                    Some((from, full_length - 1))
                } else {
                    None
                }
            },
            ByteRangeSpec::Last(last) => {
                if last > 0 {
                    if last > full_length {
                        Some((0, full_length - 1))
                    } else {
                        Some((full_length - last, full_length - 1))
                    }
                } else {
                    None
                }
            },
        }
    }

    /// Reads one byte range.
    pub fn from_str(s: &str) -> (r: Result<ByteRangeSpec, Error>)
        ensures
            match r {
                Ok(v) => byte_range_spec(s.spec_bytes()) == Some(v),
                Err(e) => byte_range_spec(s.spec_bytes()) is None && e == Error(
                    ErrorKind::InvalidValue,
                ),
            },
    {
        Self::from_header_value(s.as_bytes())
    }

    /// Appends the text of this byte range to `out`.
    pub fn write_to(&self, out: &mut Vec<u8>)
        ensures
            final(out)@ == old(out)@ + byte_range_text(*self),
    {
        match *self {
            ByteRangeSpec::FromTo(from, to) => {
                push_decimal(out, from);
                out.push('-' as u8);
                push_decimal(out, to);
                assert(out@ =~= old(out)@ + byte_range_text(*self));
            },
            ByteRangeSpec::Last(pos) => {
                out.push('-' as u8);
                push_decimal(out, pos);
                assert(out@ =~= old(out)@ + byte_range_text(*self));
            },
            ByteRangeSpec::AllFrom(pos) => {
                push_decimal(out, pos);
                out.push('-' as u8);
                assert(out@ =~= old(out)@ + byte_range_text(*self));
            },
        }
    }

    /// The text of this byte range.
    pub fn to_string(&self) -> (s: String)
        ensures
            encode_utf8(s@) == byte_range_text(*self),
    {
        self.to_header_value()
    }
}

/// The text of a byte range is ASCII.
pub proof fn lemma_byte_range_text_ascii(spec: ByteRangeSpec)
    ensures
        is_ascii(byte_range_text(spec)),
{
    match spec {
        ByteRangeSpec::FromTo(from, to) => {
            lemma_decimal_digits_are_digits(from as nat);
            lemma_decimal_digits_are_digits(to as nat);
        },
        ByteRangeSpec::Last(pos) => {
            lemma_decimal_digits_are_digits(pos as nat);
        },
        ByteRangeSpec::AllFrom(pos) => {
            lemma_decimal_digits_are_digits(pos as nat);
        },
    }
}

/// The text of a set of byte ranges is ASCII.
pub proof fn lemma_byte_ranges_text_ascii(ranges: Seq<ByteRangeSpec>)
    ensures
        is_ascii(byte_ranges_text(ranges)),
    decreases ranges.len(),
{
    if ranges.len() == 0 {
    } else if ranges.len() == 1 {
        lemma_byte_range_text_ascii(ranges[0]);
    } else {
        lemma_byte_ranges_text_ascii(ranges.drop_last());
        lemma_byte_range_text_ascii(ranges.last());
    }
}

impl ToHeaderValue for ByteRangeSpec {
    type Model = ByteRangeSpec;

    open spec fn model(&self) -> ByteRangeSpec {
        *self
    }

    open spec fn rendered(m: ByteRangeSpec) -> Seq<u8> {
        byte_range_text(m)
    }

    fn to_header_value(&self) -> (s: String) {
        let mut out: Vec<u8> = Vec::new();
        self.write_to(&mut out);
        proof {
            lemma_byte_range_text_ascii(*self);
            assert(out@ =~= byte_range_text(*self));
            lemma_ascii_is_utf8(out@);
        }
        utf8_to_string(out)
    }
}

impl FromHeaderValue for ByteRangeSpec {
    open spec fn parsed(s: Seq<u8>) -> Option<ByteRangeSpec> {
        byte_range_spec(s)
    }

    fn from_header_value(s: &[u8]) -> (r: Result<Self, Error>) {
        match split_in_two(s, '-' as u8) {
            None => Err(Error::invalid_value()),
            Some((start, end)) => {
                if start.len() == 0 {
                    match parse_u64(end) {
                        Some(n) => Ok(ByteRangeSpec::Last(n)),
                        None => Err(Error::invalid_value()),
                    }
                } else if end.len() == 0 {
                    match parse_u64(start) {
                        Some(n) => Ok(ByteRangeSpec::AllFrom(n)),
                        None => Err(Error::invalid_value()),
                    }
                } else {
                    match (parse_u64(start), parse_u64(end)) {
                        (Some(a), Some(b)) => {
                            if a <= b {
                                Ok(ByteRangeSpec::FromTo(a, b))
                            } else {
                                Err(Error::invalid_value())
                            }
                        },
                        _ => Err(Error::invalid_value()),
                    }
                }
            },
        }
    }
}

/// Reads the items of a comma-separated text, passing over what denotes no
/// item.
pub fn from_comma_delimited<T: FromHeaderValue>(s: &[u8]) -> (r: Vec<T>)
    ensures
        crate::util::models(r@) == lenient_items::<T>(split(s@, ',' as u8)),
{
    let pieces = split_bytes(s, ',' as u8);
    let ghost all = split(s@, ',' as u8);
    let mut out: Vec<T> = Vec::new();
    let mut j: usize = 0;
    assert(all.take(0) =~= Seq::<Seq<u8>>::empty());
    assert(crate::util::models(out@) =~= Seq::<T::Model>::empty());
    while j < pieces.len()
        invariant
            j <= pieces.len(),
            pieces@.len() == all.len(),
            forall|i: int| 0 <= i < pieces@.len() ==> (#[trigger] pieces@[i])@ == all[i],
            crate::util::models(out@) == lenient_items::<T>(all.take(j as int)),
        decreases pieces.len() - j,
    {
        let elem = trim_bytes(pieces[j]);
        proof {
            assert(all.take(j + 1).drop_last() =~= all.take(j as int));
            assert(all.take(j + 1).last() == all[j as int]);
        }
        if elem.len() != 0 {
            match T::from_header_value(elem) {
                Ok(item) => {
                    let ghost old_out = out@;
                    out.push(item);
                    assert(crate::util::models(out@) =~= crate::util::models(old_out).push(
                        item.model(),
                    ));
                },
                Err(_) => {},
            }
        }
        j += 1;
    }
    assert(all.take(all.len() as int) =~= all);
    out
}

impl Range {
    /// What this value stands for.
    pub open spec fn view(&self) -> RangeModel {
        match self {
            Range::Bytes(ranges) => RangeModel::Bytes(ranges@),
            Range::Unregistered(unit, set) => RangeModel::Unregistered(
                encode_utf8(unit@),
                encode_utf8(set@),
            ),
        }
    }

    /// The most common byte range header: the bytes from `from` to `to`.
    pub fn bytes(from: u64, to: u64) -> (r: Range)
        ensures
            r@ == RangeModel::Bytes(seq![ByteRangeSpec::FromTo(from, to)]),
    {
        let mut ranges: Vec<ByteRangeSpec> = Vec::new();
        ranges.push(ByteRangeSpec::FromTo(from, to));
        assert(ranges@ =~= seq![ByteRangeSpec::FromTo(from, to)]);
        Range::Bytes(ranges)
    }

    /// A byte range header with several ranges, each given as its first and
    /// last position.
    pub fn bytes_multi(ranges: Vec<(u64, u64)>) -> (r: Range)
        ensures
            r@ == RangeModel::Bytes(
                Seq::new(
                    ranges@.len(),
                    |i: int| ByteRangeSpec::FromTo(ranges@[i].0, ranges@[i].1),
                ),
            ),
    {
        let mut out: Vec<ByteRangeSpec> = Vec::new();
        let mut i: usize = 0;
        while i < ranges.len()
            invariant
                i <= ranges.len(),
                out@.len() == i,
                forall|j: int|
                    0 <= j < i ==> out@[j] == ByteRangeSpec::FromTo(ranges@[j].0, ranges@[j].1),
            decreases ranges.len() - i,
        {
            out.push(ByteRangeSpec::FromTo(ranges[i].0, ranges[i].1));
            i += 1;
        }
        assert(out@ =~= Seq::new(
            ranges@.len(),
            |i: int| ByteRangeSpec::FromTo(ranges@[i].0, ranges@[i].1),
        ));
        Range::Bytes(out)
    }

    /// Reads a `Range` value.
    pub fn from_str(s: &str) -> (r: Result<Range, Error>)
        ensures
            match r {
                Ok(v) => range_value(s.spec_bytes()) == Some(v@),
                Err(e) => range_value(s.spec_bytes()) is None && e == Error(
                    ErrorKind::InvalidValue,
                ),
            },
    {
        Self::from_header_value(s.as_bytes())
    }

    /// The text of this value.
    pub fn to_string(&self) -> (s: String)
        ensures
            encode_utf8(s@) == range_text(self@),
    {
        self.to_header_value()
    }
}

impl ToHeaderValue for Range {
    type Model = RangeModel;

    open spec fn model(&self) -> RangeModel {
        self@
    }

    open spec fn rendered(m: RangeModel) -> Seq<u8> {
        range_text(m)
    }

    fn to_header_value(&self) -> (s: String) {
        let mut out: Vec<u8> = Vec::new();
        match self {
            Range::Bytes(ranges) => {
                push_all(&mut out, "bytes".as_bytes());
                out.push('=' as u8);
                let ghost head = out@;
                assert(head =~= bytes_prefix());
                let mut i: usize = 0;
                assert(ranges@.take(0) =~= Seq::<ByteRangeSpec>::empty());
                assert(head + Seq::<u8>::empty() =~= head);
                while i < ranges.len()
                    invariant
                        i <= ranges.len(),
                        out@ == head + byte_ranges_text(ranges@.take(i as int)),
                    decreases ranges.len() - i,
                {
                    if i != 0 {
                        out.push(',' as u8);
                    }
                    proof {
                        assert(ranges@.take(i + 1).drop_last() =~= ranges@.take(i as int));
                        assert(ranges@.take(i + 1).last() == ranges@[i as int]);
                    }
                    ranges[i].write_to(&mut out);
                    assert(out@ =~= head + byte_ranges_text(ranges@.take(i + 1)));
                    i += 1;
                }
                proof {
                    assert(ranges@.take(ranges@.len() as int) =~= ranges@);
                    lemma_byte_ranges_text_ascii(ranges@);
                    reveal_strlit("bytes");
                    broadcast use vstd::string::is_ascii_spec_bytes;
                    assert(vstd::string::is_ascii("bytes"));
                    assert(is_ascii(out@));
                    lemma_ascii_is_utf8(out@);
                }
            },
            Range::Unregistered(unit, range_str) => {
                push_all(&mut out, unit.as_str().as_bytes());
                out.push('=' as u8);
                push_all(&mut out, range_str.as_str().as_bytes());
                proof {
                    let u = encode_utf8(unit@);
                    let r = encode_utf8(range_str@);
                    vstd::utf8::encode_utf8_valid_utf8(unit@);
                    vstd::utf8::encode_utf8_valid_utf8(range_str@);
                    let eq = seq!['=' as u8];
                    lemma_ascii_is_utf8(eq);
                    vstd::utf8::valid_utf8_concat(u, eq);
                    vstd::utf8::valid_utf8_concat(u + eq, r);
                    assert(out@ =~= u + eq + r);
                    assert(out@ =~= range_text(self@));
                }
            },
        }
        utf8_to_string(out)
    }
}

impl FromHeaderValue for Range {
    open spec fn parsed(s: Seq<u8>) -> Option<RangeModel> {
        range_value(s)
    }

    fn from_header_value(s: &[u8]) -> (r: Result<Self, Error>) {
        match split_in_two(s, '=' as u8) {
            None => Err(Error::invalid_value()),
            Some((unit, set)) => {
                if bytes_eq(unit, "bytes".as_bytes()) {
                    let ranges: Vec<ByteRangeSpec> = from_comma_delimited(set);
                    assert(crate::util::models(ranges@) =~= ranges@);
                    if ranges.len() == 0 {
                        return Err(Error::invalid_value());
                    }
                    Ok(Range::Bytes(ranges))
                } else if unit.len() != 0 && set.len() != 0 {
                    let unit_text = bytes_to_string(vstd::slice::slice_to_vec(unit));
                    let set_text = bytes_to_string(vstd::slice::slice_to_vec(set));
                    match (unit_text, set_text) {
                        (Some(u), Some(r)) => Ok(Range::Unregistered(u, r)),
                        _ => Err(Error::invalid_value()),
                    }
                } else {
                    Err(Error::invalid_value())
                }
            },
        }
    }
}

impl Header for Range {
    type Model = RangeModel;

    open spec fn model(&self) -> RangeModel {
        self@
    }

    open spec fn name_text() -> Seq<u8> {
        "range".spec_bytes()
    }

    open spec fn decoded(entries: Seq<Seq<u8>>) -> Result<Option<RangeModel>, ErrorKind> {
        single_value::<Range>(entries)
    }

    open spec fn taken(entries: Seq<Seq<u8>>) -> nat {
        single_value_taken(entries)
    }

    open spec fn encoded(m: RangeModel) -> Option<Seq<Seq<u8>>> {
        if crate::util::is_valid_value(range_text(m)) {
            Some(seq![range_text(m)])
        } else {
            None
        }
    }

    fn name() -> (n: &'static str) {
        proof {
            reveal_strlit("range");
            crate::header::lemma_header_name("range");
        }
        "range"
    }

    #[inline]
    fn from_values(values: &mut Values) -> (r: Result<Option<Range>, Error>) {
        parse_single_value(values)
    }

    #[inline]
    fn to_values(&self, values: &mut ToValues) -> (r: Result<(), Error>) {
        let r = encode_single_value(self, values);
        proof {
            let t = range_text(self@);
            assert(old(values).entries().push(t) =~= old(values).entries() + seq![t]);
        }
        r
    }
}

} // verus!
