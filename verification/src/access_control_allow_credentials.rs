//! The `Access-Control-Allow-Credentials` header.

use vstd::prelude::*;
use vstd::string::StringSliceAdditionalSpecFns;
use crate::error::{Error, ErrorKind};
use crate::header::Header;
use crate::text::{bytes_eq, check_visible_ascii, is_visible_ascii, lower_bytes, push_all, to_lower};
use crate::util::{is_value_byte, ToValues, Values};

verus! {

/// `Access-Control-Allow-Credentials` header: tells that the response to a
/// request may be shown when the request was made with credentials.
///
/// The one value that the header can have is `true`, so the type holds
/// nothing: a header with another value counts as absent.
#[derive(Clone, PartialEq, Debug)]
pub struct AccessControlAllowCredentials;

impl Header for AccessControlAllowCredentials {
    type Model = ();

    open spec fn model(&self) -> () {
        ()
    }

    open spec fn name_text() -> Seq<u8> {
        "access-control-allow-credentials".spec_bytes()
    }

    open spec fn decoded(entries: Seq<Seq<u8>>) -> Result<Option<()>, ErrorKind> {
        if entries.len() == 0 {
            Ok(None)
        } else if !is_visible_ascii(entries[0]) {
            Err(ErrorKind::InvalidValue)
        } else if to_lower(entries[0]) == "true".spec_bytes() {
            Ok(Some(()))
        } else {
            Ok(None)
        }
    }

    open spec fn taken(entries: Seq<Seq<u8>>) -> nat {
        if entries.len() == 0 {
            0
        } else {
            1
        }
    }

    open spec fn encoded(m: ()) -> Option<Seq<Seq<u8>>> {
        Some(seq!["true".spec_bytes()])
    }

    fn name() -> (n: &'static str) {
        proof {
            reveal_strlit("access-control-allow-credentials");
            crate::header::lemma_header_name("access-control-allow-credentials");
        }
        "access-control-allow-credentials"
    }

    #[inline]
    fn from_values(values: &mut Values) -> (r: Result<
        Option<AccessControlAllowCredentials>,
        Error,
    >) {
        match values.next() {
            Some(value) => {
                if !check_visible_ascii(value) {
                    return Err(Error::invalid_value());
                }
                let text = lower_bytes(value);
                if bytes_eq(text.as_slice(), "true".as_bytes()) {
                    return Ok(Some(AccessControlAllowCredentials));
                }
                Ok(None)
            },
            None => {
                assert(old(values).remaining().skip(0) =~= old(values).remaining());
                Ok(None)
            },
        }
    }

    #[inline]
    fn to_values(&self, values: &mut ToValues) -> (r: Result<(), Error>) {
        let mut text: Vec<u8> = Vec::new();
        push_all(&mut text, "true".as_bytes());
        proof {
            reveal_strlit("true");
            broadcast use vstd::string::is_ascii_spec_bytes;
            assert(vstd::string::is_ascii("true"));
            let t = "true".spec_bytes();
            assert(text@ =~= t);
            assert forall|i: int| 0 <= i < t.len() implies is_value_byte(#[trigger] t[i]) by {}
            assert(old(values).entries().push(t) =~= old(values).entries() + seq![t]);
        }
        values.append(text)
    }
}

} // verus!
