//! Typed access to a header map.

use vstd::prelude::*;
use http::header::{HeaderMap, HeaderName, HeaderValue};
use crate::error::{Error, ErrorKind};
use crate::header::{header_outcome, Header};
use crate::http_types::{
    header_name_from_bytes, header_value_from_bytes, map_append, map_contains_key, map_entries,
    map_get_all, map_insert, map_keys_len, map_remove, name_text, values_of, MAX_NAMES,
};
use crate::text::to_lower;
use crate::util::{is_valid_value, raw_entries, ToValues, Values};

verus! {

/// What the raw entries of one name mean as a header, judged as a whole: a
/// successful decoding that leaves entries unread is too many values.
pub open spec fn judged<H: Header>(entries: Seq<Seq<u8>>) -> Result<Option<H::Model>, ErrorKind> {
    match H::decoded(entries) {
        Ok(v) => if H::taken(entries) < entries.len() {
            Err(ErrorKind::TooManyValues)
        } else {
            Ok(v)
        },
        Err(k) => Err(k),
    }
}

/// The name under which a header map holds the header `H`.
pub open spec fn map_name<H: Header>() -> Seq<u8> {
    to_lower(H::name_text())
}

/// Whether a map that holds `entries` can take a value of the name `name`:
/// it has an entry of that name, or room for another name.
pub open spec fn has_room(entries: Map<Seq<u8>, Seq<Seq<u8>>>, name: Seq<u8>) -> bool {
    entries.contains_key(name) || entries.dom().len() < MAX_NAMES
}

/// Typed getters and setters for a header map.
pub trait HeaderMapExt {
    /// What the map holds: the values under every name, in order.
    spec fn entries(&self) -> Map<Seq<u8>, Seq<Seq<u8>>>;

    /// Retrieves the specified header from the map, if present.
    ///
    /// Entries that the header does not read make the whole too many
    /// values.
    fn typed_get<H: Header>(&self) -> (r: Result<Option<H>, Error>)
        ensures
            header_outcome(r) == judged::<H>(values_of(self.entries(), map_name::<H>())),
    ;

    /// Inserts the provided header into the map.
    ///
    /// This overwrites any existing entries for that header. A header that
    /// encodes to no entry at all leaves the map as it is. The map is left as
    /// it is, too, where the header cannot be written: because it is
    /// unencodable, or because the map is full and there are too many
    /// values.
    fn typed_insert<H: Header>(&mut self, header: &H) -> (r: Result<(), Error>)
        ensures
            match r {
                Ok(_) => {
                    &&& H::encoded(header.model()) matches Some(es)
                    &&& es.len() == 0 || has_room(old(self).entries(), map_name::<H>())
                    &&& final(self).entries() == (if es.len() == 0 {
                        old(self).entries()
                    } else {
                        old(self).entries().insert(map_name::<H>(), es)
                    })
                },
                Err(e) => final(self).entries() == old(self).entries() && (if H::encoded(
                    header.model(),
                ) is None {
                    e == Error(ErrorKind::Unencodable)
                } else {
                    e == Error(ErrorKind::TooManyValues) && H::encoded(header.model())->0.len() > 0
                        && !has_room(old(self).entries(), map_name::<H>())
                }),
            },
    ;

    /// Removes and returns the specified header from the map, if present.
    ///
    /// The header is removed even if it does not decode.
    fn typed_remove<H: Header>(&mut self) -> (r: Result<Option<H>, Error>)
        ensures
            header_outcome(r) == H::decoded(values_of(old(self).entries(), map_name::<H>())),
            final(self).entries() == old(self).entries().remove(map_name::<H>()),
    ;
}

/// The name of the header `H` as the map knows it.
pub fn map_key<H: Header>() -> (n: HeaderName)
    ensures
        name_text(n) == map_name::<H>(),
{
    header_name_from_bytes(H::name().as_bytes()).unwrap()
}

impl HeaderMapExt for HeaderMap<HeaderValue> {
    open spec fn entries(&self) -> Map<Seq<u8>, Seq<Seq<u8>>> {
        map_entries(*self)
    }

    fn typed_get<H: Header>(&self) -> (r: Result<Option<H>, Error>) {
        let name = map_key::<H>();
        let raw = map_get_all(self, &name);
        let mut values = Values::new(raw.as_slice());
        match H::from_values(&mut values) {
            Ok(header) => {
                if values.len() > 0 {
                    Err(Error::too_many_values())
                } else {
                    Ok(header)
                }
            },
            Err(e) => Err(e),
        }
    }

    fn typed_insert<H: Header>(&mut self, header: &H) -> (r: Result<(), Error>) {
        let name = map_key::<H>();
        let mut sink = ToValues::new();
        match header.to_values(&mut sink) {
            Ok(_) => {},
            Err(e) => {
                return Err(e);
            },
        }
        let entries = sink.into_entries();
        let ghost es = raw_entries(entries@);
        assert(es =~= H::encoded(header.model())->0) by {
            assert(Seq::<Seq<u8>>::empty() + es =~= es);
        }
        if entries.len() == 0 {
            return Ok(());
        }
        if !map_contains_key(self, &name) && map_keys_len(self) >= MAX_NAMES {
            return Err(Error::too_many_values());
        }
        let ghost before = map_entries(*self);
        let ghost key = name_text(name);
        let mut i: usize = 0;
        while i < entries.len()
            invariant
                i <= entries.len(),
                entries@.len() > 0,
                es == raw_entries(entries@),
                key == name_text(name),
                forall|j: int|
                    0 <= j < entries@.len() ==> is_valid_value(#[trigger] entries@[j]@),
                i == 0 ==> map_entries(*self) == before && has_room(before, key),
                i > 0 ==> map_entries(*self) == before.insert(key, es.take(i as int)),
            decreases entries.len() - i,
        {
            let value = header_value_from_bytes(entries[i].as_slice()).unwrap();
            let ghost now = map_entries(*self);
            if i == 0 {
                map_insert(self, name.clone(), value);
                assert(es.take(1) =~= seq![entries@[0]@]);
            } else {
                map_append(self, name.clone(), value);
                assert(values_of(now, key).push(entries@[i as int]@) =~= es.take(i + 1));
                assert(map_entries(*self) =~= before.insert(key, es.take(i + 1)));
            }
            i += 1;
        }
        assert(es.take(es.len() as int) =~= es);
        Ok(())
    }

    fn typed_remove<H: Header>(&mut self) -> (r: Result<Option<H>, Error>) {
        let name = map_key::<H>();
        let raw = map_get_all(self, &name);
        let mut values = Values::new(raw.as_slice());
        let r = H::from_values(&mut values);
        map_remove(self, &name);
        r
    }
}

} // verus!
