//! The generic codecs with bounds on the number of elements.

use vstd::prelude::*;
use crate::error::{Error, ErrorKind};
use crate::util::{
    comma_delimited, comma_delimited_taken, comma_delimited_text, is_valid_value, list_outcome,
    models, outcome, single_value, single_value_taken, texts, FromHeaderValue, ToHeaderValue,
    ToValues, Values,
};

verus! {

/// Decodes a header of exactly one value from its first raw entry.
pub fn parse_single_value<T: FromHeaderValue>(values: &mut Values) -> (r: Result<Option<T>, Error>)
    ensures
        outcome(r) == single_value::<T>(old(values).remaining()),
        final(values).remaining() == old(values).remaining().skip(
            single_value_taken(old(values).remaining()) as int,
        ),
{
    crate::util::parse_single_value(values)
}

/// Encodes a header of exactly one value as one raw entry, or refuses it
/// and writes nothing.
pub fn encode_single_value<T: ToHeaderValue + ?Sized>(
    value: &T,
    values: &mut ToValues,
) -> (r: Result<(), Error>)
    ensures
        match r {
            Ok(_) => is_valid_value(T::rendered(value.model())) && final(values).entries()
                == old(values).entries().push(T::rendered(value.model())),
            Err(e) => !is_valid_value(T::rendered(value.model())) && e == Error(
                ErrorKind::Unencodable,
            ) && final(values).entries() == old(values).entries(),
        },
{
    crate::util::encode_single_value(value, values)
}

/// Whether a number of elements lies below a lower bound.
pub open spec fn below(count: nat, min: Option<usize>) -> bool {
    min matches Some(m) && count < m
}

/// Whether a number of elements lies above an upper bound.
pub open spec fn above(count: nat, max: Option<usize>) -> bool {
    max matches Some(m) && count > m
}

/// What a comma-delimited list header with bounds on its length decodes
/// to: as without bounds, but a list that is present with fewer items than
/// `min` is too few values, and one with more than `max` too many.
pub open spec fn bounded_list<T: FromHeaderValue>(
    entries: Seq<Seq<u8>>,
    min: Option<usize>,
    max: Option<usize>,
) -> Result<Option<Seq<T::Model>>, ErrorKind> {
    match comma_delimited::<T>(entries) {
        Ok(Some(items)) => if below(items.len(), min) {
            Err(ErrorKind::TooFewValues)
        } else if above(items.len(), max) {
            Err(ErrorKind::TooManyValues)
        } else {
            Ok(Some(items))
        },
        other => other,
    }
}

/// Decodes a comma-delimited list header whose number of items is
/// bounded.
pub fn parse_comma_delimited<T: FromHeaderValue>(
    values: &mut Values,
    min: Option<usize>,
    max: Option<usize>,
) -> (r: Result<Option<Vec<T>>, Error>)
    ensures
        list_outcome(r) == bounded_list::<T>(old(values).remaining(), min, max),
        final(values).remaining() == old(values).remaining().skip(
            comma_delimited_taken::<T>(old(values).remaining()) as int,
        ),
{
    match crate::util::parse_comma_delimited::<T>(values) {
        Ok(Some(out)) => {
            if let Some(min) = min {
                if out.len() < min {
                    return Err(Error::too_few_values());
                }
            }
            if let Some(max) = max {
                if out.len() > max {
                    return Err(Error::too_many_values());
                }
            }
            Ok(Some(out))
        },
        Ok(None) => Ok(None),
        Err(e) => Err(e),
    }
}

/// What a list whose number of elements is bounded encodes to: the error of
/// a length out of bounds, else the joined text, or the error of a list
/// that cannot be written.
pub open spec fn bounded_text(elements: Seq<Seq<u8>>, min: Option<usize>, max: Option<usize>)
    -> Result<Seq<u8>, ErrorKind> {
    if below(elements.len(), min) {
        Err(ErrorKind::TooFewValues)
    } else if above(elements.len(), max) {
        Err(ErrorKind::TooManyValues)
    } else {
        match comma_delimited_text(elements) {
            Some(text) => Ok(text),
            None => Err(ErrorKind::Unencodable),
        }
    }
}

/// Encodes a list whose number of elements is bounded as one raw entry, or
/// refuses it and writes nothing.
pub fn encode_comma_delimited<T: ToHeaderValue>(
    elements: &[T],
    values: &mut ToValues,
    min: Option<usize>,
    max: Option<usize>,
) -> (r: Result<(), Error>)
    ensures
        match r {
            Ok(_) => bounded_text(texts::<T>(models(elements@)), min, max) matches Ok(text)
                && final(values).entries() == old(values).entries().push(text),
            Err(e) => bounded_text(texts::<T>(models(elements@)), min, max) == Err::<
                Seq<u8>,
                ErrorKind,
            >(e.0) && final(values).entries() == old(values).entries(),
        },
{
    let count = elements.len();
    if let Some(min) = min {
        if count < min {
            return Err(Error::too_few_values());
        }
    }
    if let Some(max) = max {
        if count > max {
            return Err(Error::too_many_values());
        }
    }
    crate::util::encode_comma_delimited(elements, values)
}

} // verus!
