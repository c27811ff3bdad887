//! What every typed header has in common.

use vstd::prelude::*;
use vstd::string::StringSliceAdditionalSpecFns;
use crate::error::{Error, ErrorKind};
use crate::util::{is_tchar, ToValues, Values};

verus! {

/// A byte that may stand in a header name: a `tchar` or a double quote.
pub open spec fn is_name_byte(b: u8) -> bool {
    is_tchar(b) || b == '"' as u8
}

/// Text that is a header name: not empty, short enough to be held, and made
/// of name bytes.
pub open spec fn is_header_name(s: Seq<u8>) -> bool {
    0 < s.len() < 65536 && forall|i: int| 0 <= i < s.len() ==> is_name_byte(#[trigger] s[i])
}

/// A string of name bytes that is not empty, and is short enough, is a
/// header name.
pub proof fn lemma_header_name(name: &str)
    requires
        0 < name@.len() < 65536,
        vstd::string::is_ascii(name),
        forall|i: int| 0 <= i < name@.len() ==> is_name_byte((#[trigger] name@[i]) as u8),
    ensures
        is_header_name(name.spec_bytes()),
{
    broadcast use vstd::string::is_ascii_spec_bytes;
    let b = name.spec_bytes();
    assert forall|i: int| 0 <= i < b.len() implies is_name_byte(#[trigger] b[i]) by {
        assert(b[i] == name@[i] as u8);
    }
}

/// `b` is what is left of `a` after some entries were read from its front.
pub open spec fn is_rest_of(b: Seq<Seq<u8>>, a: Seq<Seq<u8>>) -> bool {
    exists|k: int| 0 <= k <= a.len() && b == #[trigger] a.skip(k)
}

/// A typed header: a value that is decoded from, and encoded to, the raw
/// entries that a message holds under one header name.
///
/// `decoded` says what a sequence of raw entries means, and `taken` how many
/// of them a successful decoding reads; `encoded` gives the entries that a
/// value is written as, or `None` for a value that cannot be written. The
/// executable methods are held to these.
pub trait Header: Sized {
    type Model;

    /// The mathematical value that a header stands for.
    spec fn model(&self) -> Self::Model;

    /// The name of the header, as `name` returns it.
    spec fn name_text() -> Seq<u8>;

    /// What the raw entries of the name mean: absent, a value, or the kind of
    /// the fault in them.
    spec fn decoded(entries: Seq<Seq<u8>>) -> Result<Option<Self::Model>, ErrorKind>;

    /// Number of entries, from the front, that decoding reads where it
    /// succeeds.
    spec fn taken(entries: Seq<Seq<u8>>) -> nat;

    /// The raw entries that a value is written as, or `None` for a value
    /// that cannot be written.
    spec fn encoded(m: Self::Model) -> Option<Seq<Seq<u8>>>;

    /// The name of this header, in lower case.
    fn name() -> (n: &'static str)
        ensures
            n.spec_bytes() == Self::name_text(),
            is_header_name(Self::name_text()),
    ;

    /// Decodes the header from the raw entries of its name.
    ///
    /// No entry at all means that the header is absent: `Ok(None)`. Entries
    /// that are left unread after a successful decoding are for the caller
    /// to judge.
    fn from_values(values: &mut Values) -> (r: Result<Option<Self>, Error>)
        ensures
            match r {
                Ok(Some(v)) => Self::decoded(old(values).remaining()) matches Ok(Some(m)) && m
                    == v.model(),
                Ok(None) => Self::decoded(old(values).remaining()) matches Ok(None),
                Err(e) => Self::decoded(old(values).remaining()) matches Err(k) && k == e.0,
            },
            r is Ok ==> Self::taken(old(values).remaining()) <= old(values).remaining().len()
                && final(values).remaining() == old(values).remaining().skip(
                Self::taken(old(values).remaining()) as int,
            ),
            is_rest_of(final(values).remaining(), old(values).remaining()),
    ;

    /// Encodes the header as raw entries, written to `values` in order.
    ///
    /// A value that cannot be written is refused as unencodable; entries
    /// written before the fault was found stay written.
    fn to_values(&self, values: &mut ToValues) -> (r: Result<(), Error>)
        ensures
            match r {
                Ok(_) => Self::encoded(self.model()) matches Some(entries)
                    && final(values).entries() == old(values).entries() + entries,
                Err(e) => Self::encoded(self.model()) is None && e == Error(
                    ErrorKind::Unencodable,
                ) && old(values).entries().is_prefix_of(final(values).entries()),
            },
    ;
}

/// The outcome of decoding a header, over models.
pub open spec fn header_outcome<H: Header>(r: Result<Option<H>, Error>) -> Result<
    Option<H::Model>,
    ErrorKind,
> {
    match r {
        Ok(Some(v)) => Ok(Some(v.model())),
        Ok(None) => Ok(None),
        Err(e) => Err(e.0),
    }
}

} // verus!
