//! The `Vary` header.

use vstd::prelude::*;
use vstd::string::StringSliceAdditionalSpecFns;
use http::header::HeaderName;
use crate::error::{Error, ErrorKind};
use crate::header::Header;
use crate::util::{
    encode_comma_delimited, lemma_one_entry, list_entries, list_or_any, list_or_any_taken, models,
    parse_list_or_any, texts, AnyOr, ToValues, Values,
};

verus! {

/// `Vary` header: the parts of a request, besides the method and the
/// target, that decide which representation a response holds; either every
/// part of it, written `*`, or a list of header names.
#[derive(Clone, Debug, PartialEq)]
pub enum Vary {
    /// Every part of the request.
    Any,
    /// The header names listed; one or more.
    Items(Vec<HeaderName>),
}

impl Vary {
    /// What this value stands for.
    pub open spec fn view(&self) -> AnyOr<Seq<Seq<u8>>> {
        match self {
            Vary::Any => AnyOr::Any,
            Vary::Items(items) => AnyOr::Items(models(items@)),
        }
    }
}

impl Header for Vary {
    type Model = AnyOr<Seq<Seq<u8>>>;

    open spec fn model(&self) -> Self::Model {
        self@
    }

    open spec fn name_text() -> Seq<u8> {
        "vary".spec_bytes()
    }

    open spec fn decoded(entries: Seq<Seq<u8>>) -> Result<Option<Self::Model>, ErrorKind> {
        list_or_any::<HeaderName>(entries)
    }

    open spec fn taken(entries: Seq<Seq<u8>>) -> nat {
        list_or_any_taken::<HeaderName>(entries)
    }

    open spec fn encoded(m: Self::Model) -> Option<Seq<Seq<u8>>> {
        match m {
            AnyOr::Any => Some(seq![seq!['*' as u8]]),
            AnyOr::Items(items) => if items.len() == 0 {
                None
            } else {
                list_entries(texts::<HeaderName>(items))
            },
        }
    }

    #[inline]
    fn name() -> (n: &'static str) {
        proof {
            reveal_strlit("vary");
            crate::header::lemma_header_name("vary");
        }
        "vary"
    }

    #[inline]
    fn from_values(values: &mut Values) -> (r: Result<Option<Vary>, Error>) {
        match parse_list_or_any::<HeaderName>(values) {
            Ok(Some(AnyOr::Any)) => Ok(Some(Vary::Any)),
            Ok(Some(AnyOr::Items(items))) => Ok(Some(Vary::Items(items))),
            Ok(None) => Ok(None),
            Err(e) => Err(e),
        }
    }

    #[inline]
    fn to_values(&self, values: &mut ToValues) -> (r: Result<(), Error>) {
        match self {
            Vary::Any => {
                let mut star: Vec<u8> = Vec::new();
                star.push('*' as u8);
                assert(star@ =~= seq!['*' as u8]);
                let r = values.append(star);
                assert(old(values).entries().push(seq!['*' as u8]) =~= old(values).entries()
                    + seq![seq!['*' as u8]]);
                r
            },
            Vary::Items(items) => {
                if items.len() == 0 {
                    return Err(Error::unencodable());
                }
                let r = encode_comma_delimited(items.as_slice(), values);
                proof {
                    lemma_one_entry(old(values).entries(), texts::<HeaderName>(models(items@)));
                }
                r
            },
        }
    }
}

} // verus!
