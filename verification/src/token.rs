//! Helpers for values that are a registered name or an extension token.

use vstd::prelude::*;
use vstd::string::StringSliceAdditionalSpecFns;
use vstd::utf8::encode_utf8;
use crate::text::{is_ascii, lemma_ascii_is_utf8, lower_bytes, to_lower, utf8_to_string};
use crate::util::{is_tchar, is_token_bytes, is_token_text};

verus! {

/// A token is ASCII, and so is its lower-case form.
pub proof fn lemma_token_is_ascii(s: Seq<u8>)
    requires
        is_token_text(s),
    ensures
        is_ascii(s),
        is_ascii(to_lower(s)),
{
    assert forall|i: int| 0 <= i < s.len() implies #[trigger] s[i] < 128 by {
        assert(is_tchar(s[i]));
    }
    assert forall|i: int| 0 <= i < to_lower(s).len() implies #[trigger] to_lower(s)[i] < 128 by {
        assert(is_tchar(s[i]));
    }
}

/// A string of `tchar`s that is not empty is a token.
pub proof fn lemma_token_literal(name: &str)
    requires
        name@.len() > 0,
        vstd::string::is_ascii(name),
        forall|i: int| 0 <= i < name@.len() ==> is_tchar((#[trigger] name@[i]) as u8),
    ensures
        is_token_text(name.spec_bytes()),
{
    broadcast use vstd::string::is_ascii_spec_bytes;
    let b = name.spec_bytes();
    assert forall|i: int| 0 <= i < b.len() implies is_tchar(#[trigger] b[i]) by {
        assert(b[i] == name@[i] as u8);
    }
}

/// The lower-case form of a token is a token.
pub proof fn lemma_lowered_token_is_token(s: Seq<u8>)
    requires
        is_token_text(s),
    ensures
        is_token_text(to_lower(s)),
{
    assert forall|i: int| 0 <= i < to_lower(s).len() implies is_tchar(
        #[trigger] to_lower(s)[i],
    ) by {
        assert(is_tchar(s[i]));
    }
}

/// The lower-case form of `s` as a string, if `s` is a token.
pub fn lowered_token(s: &[u8]) -> (r: Option<String>)
    ensures
        match r {
            Some(name) => is_token_text(s@) && encode_utf8(name@) == to_lower(s@),
            None => !is_token_text(s@),
        },
{
    if is_token_bytes(s) {
        let lowered = lower_bytes(s);
        proof {
            lemma_token_is_ascii(s@);
            lemma_ascii_is_utf8(lowered@);
        }
        Some(utf8_to_string(lowered))
    } else {
        None
    }
}

} // verus!
