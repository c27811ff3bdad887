//! The `token68` credential syntax.

use vstd::prelude::*;
use vstd::string::StringSliceAdditionalSpecFns;
use vstd::utf8::encode_utf8;
use crate::error::Error;
use crate::text::{is_alpha, is_digit, trailing_run};
use crate::util::{FromHeaderValue, ToHeaderValue};

verus! {

/// A byte of `token68` data before the padding: a letter, a digit, or one
/// of `-._~+/`.
pub open spec fn is_token68_byte(b: u8) -> bool {
    is_alpha(b) || is_digit(b) || b == '-' as u8 || b == '.' as u8 || b == '_' as u8 || b
        == '~' as u8 || b == '+' as u8 || b == '/' as u8
}

/// A `token68`: one or more data bytes, then any number of `=`.
pub open spec fn is_token68_text(s: Seq<u8>) -> bool {
    let n = s.len() - trailing_run(s, '=' as u8);
    n > 0 && forall|i: int| 0 <= i < n ==> is_token68_byte(#[trigger] s[i])
}

/// Tells whether `b` is a `token68` data byte.
pub fn byte_is_token68(b: u8) -> (r: bool)
    ensures
        r == is_token68_byte(b),
{
    ('a' as u8 <= b && b <= 'z' as u8) || ('A' as u8 <= b && b <= 'Z' as u8) || ('0' as u8 <= b
        && b <= '9' as u8) || b == '-' as u8 || b == '.' as u8 || b == '_' as u8 || b == '~' as u8
        || b == '+' as u8 || b == '/' as u8
}

/// Tells whether the bytes are a `token68`.
pub fn is_token68(s: &[u8]) -> (r: bool)
    ensures
        r == is_token68_text(s@),
{
    let mut end: usize = s.len();
    assert(s@.take(end as int) =~= s@);
    while end > 0 && s[end - 1] == '=' as u8
        invariant
            end <= s.len(),
            trailing_run(s@, '=' as u8) == (s.len() - end) + trailing_run(
                s@.take(end as int),
                '=' as u8,
            ),
        decreases end,
    {
        assert(s@.take(end as int).last() == s@[end - 1]);
        assert(s@.take(end as int).drop_last() =~= s@.take(end - 1));
        end -= 1;
    }
    proof {
        if end > 0 {
            assert(s@.take(end as int).last() == s@[end - 1]);
        }
        assert(trailing_run(s@, '=' as u8) == s.len() - end);
    }
    if end == 0 {
        return false;
    }
    let mut i: usize = 0;
    while i < end
        invariant
            i <= end <= s.len(),
            end > 0,
            trailing_run(s@, '=' as u8) == s.len() - end,
            forall|j: int| 0 <= j < i ==> is_token68_byte(#[trigger] s@[j]),
        decreases end - i,
    {
        if !byte_is_token68(s[i]) {
            return false;
        }
        i += 1;
    }
    true
}

/// A `token68` value: the credential data of an authentication header.
#[derive(Debug, Clone, PartialEq, Eq)]
pub struct Token68(pub(crate) String);

/// The error of text that is no `token68`.
#[derive(Debug)]
pub struct InvalidToken68(());

impl Token68 {
    /// The text of this value.
    pub closed spec fn text(&self) -> Seq<u8> {
        encode_utf8(self.0@)
    }

    /// Constructs a new `token68` value.
    #[inline]
    pub fn new(s: &str) -> (r: Result<Token68, InvalidToken68>)
        ensures
            match r {
                Ok(v) => is_token68_text(s.spec_bytes()) && v.text() == s.spec_bytes(),
                Err(_) => !is_token68_text(s.spec_bytes()),
            },
    {
        if is_token68(s.as_bytes()) {
            Ok(Token68(s.to_owned()))
        } else {
            Err(InvalidToken68(()))
        }
    }

    /// Constructs a new `token68` value from its bytes.
    pub fn from_bytes(s: &[u8]) -> (r: Result<Token68, InvalidToken68>)
        ensures
            match r {
                Ok(v) => is_token68_text(s@) && v.text() == s@,
                Err(_) => !is_token68_text(s@),
            },
    {
        if is_token68(s) {
            proof {
                lemma_token68_is_ascii(s@);
                crate::text::lemma_ascii_is_utf8(s@);
            }
            Ok(Token68(crate::text::ascii_to_string(s)))
        } else {
            Err(InvalidToken68(()))
        }
    }

    /// A value that holds the given text as it is.
    pub(crate) fn from_text(s: String) -> (r: Token68)
        ensures
            r.text() == encode_utf8(s@),
    {
        Token68(s)
    }

    /// Returns the value as a string.
    #[inline]
    pub fn as_str(&self) -> (r: &str)
        ensures
            r.spec_bytes() == self.text(),
    {
        self.0.as_str()
    }
}

/// A `token68` is ASCII.
pub proof fn lemma_token68_is_ascii(s: Seq<u8>)
    requires
        is_token68_text(s),
    ensures
        crate::text::is_ascii(s),
{
    crate::text::lemma_trailing_run_all(s, '=' as u8);
    let n = s.len() - trailing_run(s, '=' as u8);
    assert forall|i: int| 0 <= i < s.len() implies #[trigger] s[i] < 128 by {
        if i < n {
            assert(is_token68_byte(s[i]));
        }
    }
}

impl InvalidToken68 {
    /// What this error says.
    pub fn to_string(&self) -> (s: String)
        ensures
            s@ == "invalid base68"@,
    {
        "invalid base68".to_owned()
    }
}

impl ToHeaderValue for Token68 {
    type Model = Seq<u8>;

    open spec fn model(&self) -> Seq<u8> {
        self.text()
    }

    open spec fn rendered(m: Seq<u8>) -> Seq<u8> {
        m
    }

    fn to_header_value(&self) -> (s: String) {
        self.as_str().to_owned()
    }
}

impl FromHeaderValue for Token68 {
    open spec fn parsed(s: Seq<u8>) -> Option<Seq<u8>> {
        if is_token68_text(s) {
            Some(s)
        } else {
            None
        }
    }

    fn from_header_value(s: &[u8]) -> (r: Result<Self, Error>) {
        match Self::from_bytes(s) {
            Ok(v) => Ok(v),
            Err(_) => Err(Error::invalid_value()),
        }
    }
}

} // verus!
