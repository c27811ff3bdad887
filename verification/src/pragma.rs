//! The `Pragma` header.

use vstd::prelude::*;
use vstd::string::StringSliceAdditionalSpecFns;
use vstd::utf8::encode_utf8;
use crate::error::{Error, ErrorKind};
use crate::header::Header;
use crate::text::{
    ascii_to_string, bytes_eq, check_visible_ascii, is_visible_ascii, lemma_visible_is_ascii,
    lower_bytes, push_all, to_lower,
};
use crate::util::{is_valid_value, ToValues, Values};

verus! {

/// The `Pragma` header of HTTP/1.0: `no-cache`, or a directive of some
/// implementation.
#[derive(Clone, PartialEq, Debug)]
pub enum Pragma {
    /// The value `no-cache`, in any case.
    NoCache,
    /// Every other value.
    Ext(String),
}

/// What a `Pragma` stands for.
pub enum PragmaModel {
    NoCache,
    Ext(Seq<u8>),
}

/// What the value of the header denotes.
pub open spec fn pragma_value(s: Seq<u8>) -> PragmaModel {
    if to_lower(s) == "no-cache".spec_bytes() {
        PragmaModel::NoCache
    } else {
        PragmaModel::Ext(s)
    }
}

/// The text of a value of the header.
pub open spec fn pragma_text(m: PragmaModel) -> Seq<u8> {
    match m {
        PragmaModel::NoCache => "no-cache".spec_bytes(),
        PragmaModel::Ext(s) => s,
    }
}

impl Pragma {
    /// What this value stands for.
    pub open spec fn view(&self) -> PragmaModel {
        match self {
            Pragma::NoCache => PragmaModel::NoCache,
            Pragma::Ext(s) => PragmaModel::Ext(encode_utf8(s@)),
        }
    }

    /// The text of this value.
    pub fn to_string(&self) -> (s: String)
        ensures
            encode_utf8(s@) == pragma_text(self@),
    {
        match self {
            Pragma::NoCache => "no-cache".to_owned(),
            Pragma::Ext(s) => s.clone(),
        }
    }
}

impl Header for Pragma {
    type Model = PragmaModel;

    open spec fn model(&self) -> PragmaModel {
        self@
    }

    open spec fn name_text() -> Seq<u8> {
        "pragma".spec_bytes()
    }

    open spec fn decoded(entries: Seq<Seq<u8>>) -> Result<Option<PragmaModel>, ErrorKind> {
        if entries.len() == 0 {
            Ok(None)
        } else if !is_visible_ascii(entries[0]) {
            Err(ErrorKind::InvalidValue)
        } else {
            Ok(Some(pragma_value(entries[0])))
        }
    }

    open spec fn taken(entries: Seq<Seq<u8>>) -> nat {
        if entries.len() == 0 {
            0
        } else {
            1
        }
    }

    open spec fn encoded(m: PragmaModel) -> Option<Seq<Seq<u8>>> {
        if is_valid_value(pragma_text(m)) {
            Some(seq![pragma_text(m)])
        } else {
            None
        }
    }

    fn name() -> (n: &'static str) {
        proof {
            reveal_strlit("pragma");
            crate::header::lemma_header_name("pragma");
        }
        "pragma"
    }

    #[inline]
    fn from_values(values: &mut Values) -> (r: Result<Option<Pragma>, Error>) {
        match values.next() {
            Some(value) => {
                if !check_visible_ascii(value) {
                    return Err(Error::invalid_value());
                }
                let lowered = lower_bytes(value);
                if bytes_eq(lowered.as_slice(), "no-cache".as_bytes()) {
                    Ok(Some(Pragma::NoCache))
                } else {
                    proof {
                        lemma_visible_is_ascii(value@);
                    }
                    Ok(Some(Pragma::Ext(ascii_to_string(value))))
                }
            },
            None => {
                assert(old(values).remaining().skip(0) =~= old(values).remaining());
                Ok(None)
            },
        }
    }

    #[inline]
    fn to_values(&self, values: &mut ToValues) -> (r: Result<(), Error>) {
        let mut text: Vec<u8> = Vec::new();
        match self {
            Pragma::NoCache => {
                push_all(&mut text, "no-cache".as_bytes());
            },
            Pragma::Ext(s) => {
                push_all(&mut text, s.as_str().as_bytes());
            },
        }
        proof {
            let t = pragma_text(self@);
            assert(text@ =~= t);
            assert(old(values).entries().push(t) =~= old(values).entries() + seq![t]);
        }
        values.append(text)
    }
}

} // verus!
