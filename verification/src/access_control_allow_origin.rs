//! The `Access-Control-Allow-Origin` header.

use vstd::prelude::*;
use vstd::string::StringSliceAdditionalSpecFns;
use vstd::utf8::encode_utf8;
use crate::error::{Error, ErrorKind};
use crate::header::Header;
use crate::text::{
    ascii_to_string, bytes_eq, check_visible_ascii, is_visible_ascii, lemma_visible_is_ascii,
    push_all,
};
use crate::util::{is_valid_value, ToValues, Values};

verus! {

/// `Access-Control-Allow-Origin` header: tells with which origins a
/// response may be shared.
#[derive(Clone, PartialEq, Debug)]
pub enum AccessControlAllowOrigin {
    /// Every origin, written `*`.
    Any,
    /// A hidden origin, written `null`.
    Null,
    /// One origin.
    Value(String),
}

/// What an `AccessControlAllowOrigin` stands for.
pub enum AllowOriginModel {
    Any,
    Null,
    Value(Seq<u8>),
}

/// What the value of the header denotes.
pub open spec fn allow_origin_value(s: Seq<u8>) -> AllowOriginModel {
    if s == "*".spec_bytes() {
        AllowOriginModel::Any
    } else if s == "null".spec_bytes() {
        AllowOriginModel::Null
    } else {
        AllowOriginModel::Value(s)
    }
}

/// The text of a value of the header.
pub open spec fn allow_origin_text(m: AllowOriginModel) -> Seq<u8> {
    match m {
        AllowOriginModel::Any => "*".spec_bytes(),
        AllowOriginModel::Null => "null".spec_bytes(),
        AllowOriginModel::Value(url) => url,
    }
}

impl AccessControlAllowOrigin {
    /// What this value stands for.
    pub open spec fn view(&self) -> AllowOriginModel {
        match self {
            AccessControlAllowOrigin::Any => AllowOriginModel::Any,
            AccessControlAllowOrigin::Null => AllowOriginModel::Null,
            AccessControlAllowOrigin::Value(url) => AllowOriginModel::Value(encode_utf8(url@)),
        }
    }
}

impl Header for AccessControlAllowOrigin {
    type Model = AllowOriginModel;

    open spec fn model(&self) -> AllowOriginModel {
        self@
    }

    open spec fn name_text() -> Seq<u8> {
        "access-control-allow-origin".spec_bytes()
    }

    open spec fn decoded(entries: Seq<Seq<u8>>) -> Result<Option<AllowOriginModel>, ErrorKind> {
        if entries.len() == 0 {
            Ok(None)
        } else if !is_visible_ascii(entries[0]) {
            Err(ErrorKind::InvalidValue)
        } else {
            Ok(Some(allow_origin_value(entries[0])))
        }
    }

    open spec fn taken(entries: Seq<Seq<u8>>) -> nat {
        if entries.len() == 0 {
            0
        } else {
            1
        }
    }

    open spec fn encoded(m: AllowOriginModel) -> Option<Seq<Seq<u8>>> {
        if is_valid_value(allow_origin_text(m)) {
            Some(seq![allow_origin_text(m)])
        } else {
            None
        }
    }

    fn name() -> (n: &'static str) {
        proof {
            reveal_strlit("access-control-allow-origin");
            crate::header::lemma_header_name("access-control-allow-origin");
        }
        "access-control-allow-origin"
    }

    #[inline]
    fn from_values(values: &mut Values) -> (r: Result<Option<AccessControlAllowOrigin>, Error>) {
        match values.next() {
            Some(line) => {
                if !check_visible_ascii(line) {
                    return Err(Error::invalid_value());
                }
                if bytes_eq(line, "*".as_bytes()) {
                    Ok(Some(AccessControlAllowOrigin::Any))
                } else if bytes_eq(line, "null".as_bytes()) {
                    Ok(Some(AccessControlAllowOrigin::Null))
                } else {
                    proof {
                        lemma_visible_is_ascii(line@);
                    }
                    Ok(Some(AccessControlAllowOrigin::Value(ascii_to_string(line))))
                }
            },
            None => {
                assert(old(values).remaining().skip(0) =~= old(values).remaining());
                Ok(None)
            },
        }
    }

    #[inline]
    fn to_values(&self, values: &mut ToValues) -> (r: Result<(), Error>) {
        let mut text: Vec<u8> = Vec::new();
        match self {
            AccessControlAllowOrigin::Any => {
                push_all(&mut text, "*".as_bytes());
            },
            AccessControlAllowOrigin::Null => {
                push_all(&mut text, "null".as_bytes());
            },
            AccessControlAllowOrigin::Value(url) => {
                push_all(&mut text, url.as_str().as_bytes());
            },
        }
        proof {
            let t = allow_origin_text(self@);
            assert(text@ =~= t);
            assert(old(values).entries().push(t) =~= old(values).entries() + seq![t]);
        }
        values.append(text)
    }
}

} // verus!
