//! The `Content-Length` header.

use vstd::prelude::*;
use vstd::string::StringSliceAdditionalSpecFns;
use crate::error::{Error, ErrorKind};
use crate::header::Header;
use crate::number::{
    decimal_digits, format_u64, lemma_decimal_digits_are_digits, parse_decimal, parse_u64,
};
use crate::text::{check_visible_ascii, is_visible_ascii, split, split_bytes, trim, trim_bytes};
use crate::util::{ToValues, Values};

verus! {

/// `Content-Length` header: the size of the payload body in octets.
///
/// A message may repeat the header, or fold several lengths into one entry,
/// as long as all of them agree. Lengths that differ are inconsistent
/// values; text that is no length is an invalid value.
#[derive(Clone, Debug, PartialEq)]
pub struct ContentLength(pub u64);

/// The length agreed on after the comma-separated pieces of one entry,
/// starting from `seed`. Empty pieces are passed over. The first piece that
/// is no number makes the whole an invalid value; the first piece that
/// differs from the length agreed on before it makes the values
/// inconsistent.
pub open spec fn agreed_pieces(pieces: Seq<Seq<u8>>, seed: Option<nat>) -> Result<
    Option<nat>,
    ErrorKind,
>
    decreases pieces.len(),
{
    if pieces.len() == 0 {
        Ok(seed)
    } else {
        match agreed_pieces(pieces.drop_last(), seed) {
            Err(k) => Err(k),
            Ok(agreed) => {
                let e = trim(pieces.last());
                if e.len() == 0 {
                    Ok(agreed)
                } else {
                    match parse_decimal(e, u64::MAX as nat) {
                        None => Err(ErrorKind::InvalidValue),
                        Some(n) => match agreed {
                            Some(m) => if m == n {
                                Ok(agreed)
                            } else {
                                Err(ErrorKind::InconsistentValues)
                            },
                            None => Ok(Some(n)),
                        },
                    }
                }
            },
        }
    }
}

/// The length agreed on after one raw entry, starting from `seed`. An entry
/// that is not visible ASCII, or is blank, is an invalid value.
pub open spec fn agreed_entry(raw: Seq<u8>, seed: Option<nat>) -> Result<Option<nat>, ErrorKind> {
    if !is_visible_ascii(raw) || trim(raw).len() == 0 {
        Err(ErrorKind::InvalidValue)
    } else {
        agreed_pieces(split(raw, ',' as u8), seed)
    }
}

/// The length that all raw entries agree on: `Ok(None)` where they hold no
/// length at all, and the first fault where there is one.
pub open spec fn agreed_length(entries: Seq<Seq<u8>>) -> Result<Option<nat>, ErrorKind>
    decreases entries.len(),
{
    if entries.len() == 0 {
        Ok(None)
    } else {
        match agreed_length(entries.drop_last()) {
            Err(k) => Err(k),
            Ok(agreed) => agreed_entry(entries.last(), agreed),
        }
    }
}

/// Pieces that fail up to some point fail in the same way as a whole.
proof fn lemma_agreed_pieces_prefix(pieces: Seq<Seq<u8>>, seed: Option<nat>, k: int)
    requires
        0 <= k <= pieces.len(),
        agreed_pieces(pieces.take(k), seed) is Err,
    ensures
        agreed_pieces(pieces, seed) == agreed_pieces(pieces.take(k), seed),
    decreases pieces.len() - k,
{
    if k == pieces.len() {
        assert(pieces.take(k) =~= pieces);
    } else {
        assert(pieces.drop_last().take(k) =~= pieces.take(k));
        lemma_agreed_pieces_prefix(pieces.drop_last(), seed, k);
    }
}

/// Entries that fail up to some point fail in the same way as a whole.
proof fn lemma_agreed_length_prefix(entries: Seq<Seq<u8>>, k: int)
    requires
        0 <= k <= entries.len(),
        agreed_length(entries.take(k)) is Err,
    ensures
        agreed_length(entries) == agreed_length(entries.take(k)),
    decreases entries.len() - k,
{
    if k == entries.len() {
        assert(entries.take(k) =~= entries);
    } else {
        assert(entries.drop_last().take(k) =~= entries.take(k));
        lemma_agreed_length_prefix(entries.drop_last(), k);
    }
}

/// Reconciles the lengths of one raw entry with the length agreed on so
/// far.
pub fn reconcile_entry(value: &[u8], agreed: Option<u64>) -> (r: Result<Option<u64>, Error>)
    ensures
        match r {
            Ok(next) => agreed_entry(value@, lengths(agreed)) == Ok::<Option<nat>, ErrorKind>(
                lengths(next),
            ),
            Err(e) => agreed_entry(value@, lengths(agreed)) == Err::<Option<nat>, ErrorKind>(e.0),
        },
{
    if !check_visible_ascii(value) {
        return Err(Error::invalid_value());
    }
    if trim_bytes(value).len() == 0 {
        return Err(Error::invalid_value());
    }
    let pieces = split_bytes(value, ',' as u8);
    let ghost all = split(value@, ',' as u8);
    let ghost seed = lengths(agreed);
    let mut length = agreed;
    let mut j: usize = 0;
    assert(all.take(0) =~= Seq::<Seq<u8>>::empty());
    while j < pieces.len()
        invariant
            j <= pieces.len(),
            is_visible_ascii(value@),
            trim(value@).len() != 0,
            all == split(value@, ',' as u8),
            seed == lengths(agreed),
            pieces@.len() == all.len(),
            forall|i: int| 0 <= i < pieces@.len() ==> (#[trigger] pieces@[i])@ == all[i],
            agreed_pieces(all.take(j as int), seed) == Ok::<Option<nat>, ErrorKind>(
                lengths(length),
            ),
        decreases pieces.len() - j,
    {
        let elem = trim_bytes(pieces[j]);
        proof {
            assert(all.take(j + 1).drop_last() =~= all.take(j as int));
            assert(all.take(j + 1).last() == all[j as int]);
        }
        if elem.len() != 0 {
            match parse_u64(elem) {
                None => {
                    proof {
                        lemma_agreed_pieces_prefix(all, seed, j + 1);
                    }
                    return Err(Error::invalid_value());
                },
                Some(n) => {
                    match length {
                        Some(m) => {
                            if m != n {
                                proof {
                                    lemma_agreed_pieces_prefix(all, seed, j + 1);
                                }
                                return Err(Error::inconsistent_values());
                            }
                        },
                        None => {
                            length = Some(n);
                        },
                    }
                },
            }
        }
        j += 1;
    }
    assert(all.take(all.len() as int) =~= all);
    Ok(length)
}

/// An optional length as a number.
pub open spec fn lengths(v: Option<u64>) -> Option<nat> {
    match v {
        Some(n) => Some(n as nat),
        None => None,
    }
}

/// One copy of a length agrees with nothing before it, and with the same
/// length before it.
proof fn lemma_one_copy(n: u64, seed: Option<nat>)
    requires
        seed is None || seed == Some(n as nat),
    ensures
        agreed_entry(decimal_digits(n as nat), seed) == Ok::<Option<nat>, ErrorKind>(
            Some(n as nat),
        ),
{
    let d = decimal_digits(n as nat);
    lemma_decimal_digits_are_digits(n as nat);
    crate::number::lemma_format_then_parse(n as nat, u64::MAX as nat);
    assert(crate::text::is_digit(d[0]));
    assert(crate::text::is_digit(d.last()));
    crate::text::lemma_trim_clean(d);
    assert forall|i: int| 0 <= i < d.len() implies crate::text::is_visible(#[trigger] d[i]) by {
        assert(crate::text::is_digit(d[i]));
    }
    assert(!d.contains(',' as u8)) by {
        if d.contains(',' as u8) {
            let i = choose|i: int| 0 <= i < d.len() && d[i] == ',' as u8;
            assert(crate::text::is_digit(d[i]));
        }
    }
    crate::text::lemma_index_of_absent(d, ',' as u8);
    let pieces = split(d, ',' as u8);
    assert(pieces =~= seq![d]);
    assert(pieces.drop_last() =~= Seq::<Seq<u8>>::empty());
    assert(agreed_pieces(Seq::<Seq<u8>>::empty(), seed) == Ok::<Option<nat>, ErrorKind>(seed));
}

/// Any number of copies of one length agree on it.
proof fn lemma_copies(n: u64, copies: nat)
    ensures
        agreed_length(Seq::new(copies, |i: int| decimal_digits(n as nat))) == Ok::<
            Option<nat>,
            ErrorKind,
        >(
            if copies == 0 {
                None
            } else {
                Some(n as nat)
            },
        ),
    decreases copies,
{
    let entries = Seq::new(copies, |i: int| decimal_digits(n as nat));
    if copies > 0 {
        lemma_copies(n, (copies - 1) as nat);
        assert(entries.drop_last() =~= Seq::new(
            (copies - 1) as nat,
            |i: int| decimal_digits(n as nat),
        ));
        let seed: Option<nat> = if copies == 1 {
            None
        } else {
            Some(n as nat)
        };
        lemma_one_copy(n, seed);
    }
}

/// A length that is repeated decodes to that length: copies of one length
/// are reconciled, however many there are.
pub proof fn law_identical_lengths_agree(n: u64, copies: nat)
    requires
        copies > 0,
    ensures
        ContentLength::decoded(Seq::new(copies, |i: int| decimal_digits(n as nat))) == Ok::<
            Option<nat>,
            ErrorKind,
        >(Some(n as nat)),
{
    lemma_copies(n, copies);
}

/// Two lengths that differ are inconsistent.
pub proof fn law_different_lengths_disagree(a: u64, b: u64)
    requires
        a != b,
    ensures
        ContentLength::decoded(seq![decimal_digits(a as nat), decimal_digits(b as nat)]) == Err::<
            Option<nat>,
            ErrorKind,
        >(ErrorKind::InconsistentValues),
{
    let entries = seq![decimal_digits(a as nat), decimal_digits(b as nat)];
    let first = entries.drop_last();
    assert(first =~= seq![decimal_digits(a as nat)]);
    assert(first.drop_last() =~= Seq::<Seq<u8>>::empty());
    assert(agreed_length(Seq::<Seq<u8>>::empty()) == Ok::<Option<nat>, ErrorKind>(None));
    lemma_one_copy(a, None);
    assert(first.last() == decimal_digits(a as nat));
    assert(agreed_length(first) == Ok::<Option<nat>, ErrorKind>(Some(a as nat)));
    let d = decimal_digits(b as nat);
    lemma_decimal_digits_are_digits(b as nat);
    crate::number::lemma_format_then_parse(b as nat, u64::MAX as nat);
    assert(crate::text::is_digit(d[0]));
    assert(crate::text::is_digit(d.last()));
    crate::text::lemma_trim_clean(d);
    assert forall|i: int| 0 <= i < d.len() implies crate::text::is_visible(#[trigger] d[i]) by {
        assert(crate::text::is_digit(d[i]));
    }
    assert(!d.contains(',' as u8)) by {
        if d.contains(',' as u8) {
            let i = choose|i: int| 0 <= i < d.len() && d[i] == ',' as u8;
            assert(crate::text::is_digit(d[i]));
        }
    }
    crate::text::lemma_index_of_absent(d, ',' as u8);
    let pieces = split(d, ',' as u8);
    assert(pieces =~= seq![d]);
    assert(pieces.drop_last() =~= Seq::<Seq<u8>>::empty());
    assert(agreed_pieces(Seq::<Seq<u8>>::empty(), Some(a as nat)) == Ok::<Option<nat>, ErrorKind>(
        Some(a as nat),
    ));
    assert(agreed_entry(d, Some(a as nat)) == Err::<Option<nat>, ErrorKind>(
        ErrorKind::InconsistentValues,
    ));
    assert(entries.last() == d);
}

impl Header for ContentLength {
    type Model = nat;

    open spec fn model(&self) -> nat {
        self.0 as nat
    }

    open spec fn name_text() -> Seq<u8> {
        "content-length".spec_bytes()
    }

    open spec fn decoded(entries: Seq<Seq<u8>>) -> Result<Option<nat>, ErrorKind> {
        agreed_length(entries)
    }

    open spec fn taken(entries: Seq<Seq<u8>>) -> nat {
        entries.len()
    }

    open spec fn encoded(m: nat) -> Option<Seq<Seq<u8>>> {
        Some(seq![decimal_digits(m)])
    }

    fn name() -> (n: &'static str) {
        proof {
            reveal_strlit("content-length");
            crate::header::lemma_header_name("content-length");
        }
        "content-length"
    }

    fn from_values(values: &mut Values) -> (r: Result<Option<ContentLength>, Error>) {
        let mut length: Option<u64> = None;
        let ghost all = values.remaining();
        let ghost mut k: int = 0;
        assert(all.take(0) =~= Seq::<Seq<u8>>::empty());
        assert(all.skip(0) =~= all);
        loop
            invariant
                0 <= k <= all.len(),
                all == old(values).remaining(),
                values.remaining() == all.skip(k),
                agreed_length(all.take(k)) == Ok::<Option<nat>, ErrorKind>(lengths(length)),
            ensures
                values.remaining() == all.skip(all.len() as int),
                agreed_length(all) == Ok::<Option<nat>, ErrorKind>(lengths(length)),
            decreases all.len() - k,
        {
            match values.next() {
                None => {
                    assert(all.take(k) =~= all);
                    break ;
                },
                Some(value) => {
                    proof {
                        assert(all.skip(k)[0] == all[k]);
                        assert(all.skip(k).skip(1) =~= all.skip(k + 1));
                        assert(all.take(k + 1).drop_last() =~= all.take(k));
                        assert(all.take(k + 1).last() == all[k]);
                    }
                    match reconcile_entry(value, length) {
                        Ok(next) => {
                            length = next;
                        },
                        Err(e) => {
                            proof {
                                lemma_agreed_length_prefix(all, k + 1);
                            }
                            return Err(e);
                        },
                    }
                    proof {
                        k = k + 1;
                    }
                },
            }
        }
        match length {
            Some(n) => Ok(Some(ContentLength(n))),
            None => Ok(None),
        }
    }

    fn to_values(&self, values: &mut ToValues) -> (r: Result<(), Error>) {
        let text = format_u64(self.0);
        proof {
            lemma_decimal_digits_are_digits(self.0 as nat);
            let d = decimal_digits(self.0 as nat);
            assert forall|i: int| 0 <= i < d.len() implies crate::util::is_value_byte(
                #[trigger] d[i],
            ) by {
                assert(crate::text::is_digit(d[i]));
            }
        }
        let r = values.append(text);
        proof {
            let d = decimal_digits(self.0 as nat);
            assert(old(values).entries().push(d) =~= old(values).entries() + seq![d]);
        }
        r
    }
}

} // verus!
