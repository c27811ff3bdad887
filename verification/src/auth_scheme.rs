//! Authentication schemes.

use vstd::prelude::*;
use vstd::string::StringSliceAdditionalSpecFns;
use vstd::utf8::encode_utf8;
use crate::error::{Error, ErrorKind};
use crate::text::{bytes_eq_ignore_case, eq_ignore_case, to_lower};
use crate::token::lowered_token;
use crate::util::{is_token_text, FromHeaderValue, ToHeaderValue};

verus! {

#[derive(Debug, Clone, PartialEq, Eq)]
enum Inner {
    Basic,
    Bearer,
    Other(String),
}

/// An authorization scheme: `Basic`, `Bearer`, or an extension token.
#[derive(Debug, Clone, PartialEq, Eq)]
pub struct AuthScheme(Inner);

/// The canonical text of the scheme that `s` names: the registered
/// spelling for `Basic` and `Bearer` in any case, the lower-case form for
/// any other token, and nothing for text that is no token.
pub open spec fn canonical_scheme(s: Seq<u8>) -> Option<Seq<u8>> {
    if eq_ignore_case(s, "Basic".spec_bytes()) {
        Some("Basic".spec_bytes())
    } else if eq_ignore_case(s, "Bearer".spec_bytes()) {
        Some("Bearer".spec_bytes())
    } else if is_token_text(s) {
        Some(to_lower(s))
    } else {
        None
    }
}

impl AuthScheme {
    /// The canonical text of this scheme.
    pub closed spec fn text(&self) -> Seq<u8> {
        match self.0 {
            Inner::Basic => "Basic".spec_bytes(),
            Inner::Bearer => "Bearer".spec_bytes(),
            Inner::Other(s) => encode_utf8(s@),
        }
    }

    /// Whether this is the `Bearer` scheme.
    pub closed spec fn is_bearer_scheme(&self) -> bool {
        self.0 is Bearer
    }

    /// Basic authentication.
    pub fn basic() -> (r: AuthScheme)
        ensures
            r.text() == "Basic".spec_bytes(),
            !r.is_bearer_scheme(),
    {
        AuthScheme(Inner::Basic)
    }

    /// Bearer authentication.
    pub fn bearer() -> (r: AuthScheme)
        ensures
            r.text() == "Bearer".spec_bytes(),
            r.is_bearer_scheme(),
    {
        AuthScheme(Inner::Bearer)
    }

    /// Constructs a scheme from its name.
    ///
    /// An error is returned if the name is not a valid token.
    pub fn new(s: &str) -> (r: Result<AuthScheme, Error>)
        ensures
            match r {
                Ok(v) => canonical_scheme(s.spec_bytes()) == Some(v.text()) && (
                v.is_bearer_scheme() <==> eq_ignore_case(s.spec_bytes(), "Bearer".spec_bytes())
                    && !eq_ignore_case(s.spec_bytes(), "Basic".spec_bytes())),
                Err(e) => canonical_scheme(s.spec_bytes()) is None && e == Error(
                    ErrorKind::InvalidValue,
                ),
            },
    {
        Self::from_bytes(s.as_bytes())
    }

    /// Constructs a scheme from the bytes of its name.
    pub fn from_bytes(s: &[u8]) -> (r: Result<AuthScheme, Error>)
        ensures
            match r {
                Ok(v) => canonical_scheme(s@) == Some(v.text()) && (v.is_bearer_scheme()
                    <==> eq_ignore_case(s@, "Bearer".spec_bytes()) && !eq_ignore_case(
                    s@,
                    "Basic".spec_bytes(),
                )),
                Err(e) => canonical_scheme(s@) is None && e == Error(ErrorKind::InvalidValue),
            },
    {
        if bytes_eq_ignore_case(s, "Basic".as_bytes()) {
            return Ok(AuthScheme(Inner::Basic));
        }
        if bytes_eq_ignore_case(s, "Bearer".as_bytes()) {
            return Ok(AuthScheme(Inner::Bearer));
        }
        match lowered_token(s) {
            Some(name) => Ok(AuthScheme(Inner::Other(name))),
            None => Err(Error::invalid_value()),
        }
    }

    /// Returns the canonical text of this scheme.
    pub fn as_str(&self) -> (r: &str)
        ensures
            r.spec_bytes() == self.text(),
    {
        match &self.0 {
            Inner::Basic => "Basic",
            Inner::Bearer => "Bearer",
            Inner::Other(s) => s.as_str(),
        }
    }

    /// Tells whether this is the `Bearer` scheme.
    pub fn is_bearer(&self) -> (r: bool)
        ensures
            r == self.is_bearer_scheme(),
    {
        match &self.0 {
            Inner::Bearer => true,
            _ => false,
        }
    }
}

impl ToHeaderValue for AuthScheme {
    type Model = Seq<u8>;

    open spec fn model(&self) -> Seq<u8> {
        self.text()
    }

    open spec fn rendered(m: Seq<u8>) -> Seq<u8> {
        m
    }

    fn to_header_value(&self) -> (s: String) {
        self.as_str().to_owned()
    }
}

impl FromHeaderValue for AuthScheme {
    open spec fn parsed(s: Seq<u8>) -> Option<Seq<u8>> {
        canonical_scheme(s)
    }

    fn from_header_value(s: &[u8]) -> (r: Result<Self, Error>) {
        Self::from_bytes(s)
    }
}

} // verus!
