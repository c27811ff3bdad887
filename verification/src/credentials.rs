//! Authentication credentials.

use vstd::prelude::*;
use vstd::string::StringSliceAdditionalSpecFns;
use vstd::utf8::encode_utf8;
use crate::auth_scheme::{canonical_scheme, AuthScheme};
use crate::error::{Error, ErrorKind};
use crate::text::{
    contains_byte, find_byte, index_of, leading_run, lemma_ascii_is_utf8, push_all, utf8_to_string,
};
use crate::token68::{is_token68_text, Token68};
use crate::util::{FromHeaderValue, ToHeaderValue};

verus! {

#[derive(Debug, Clone, PartialEq, Eq)]
enum Info {
    Nothing,
    Token68(Token68),
}

/// Authentication credentials: a scheme, and the data that go with it.
#[derive(Debug, Clone, PartialEq, Eq)]
pub struct Credentials {
    scheme: AuthScheme,
    info: Info,
}

/// The base64 text of `input`, in the standard alphabet and with padding:
/// what `base64::encode` returns.
pub uninterp spec fn base64_text(input: Seq<u8>) -> Seq<u8>;

/// `base64::encode`: the base64 text of the input. An input so long that
/// the length of its text cannot be told makes the call panic, so it is
/// not admitted.
#[verifier::external_body]
fn base64_encode(input: &[u8]) -> (r: String)
    requires
        input@.len() < usize::MAX / 2,
    ensures
        encode_utf8(r@) == base64_text(input@),
{
    base64::encode(input)
}

/// An ASCII control character.
pub open spec fn is_control(b: u8) -> bool {
    b < 32 || b == 127
}

/// Whether `s` holds an ASCII control character.
pub open spec fn has_control(s: Seq<u8>) -> bool {
    exists|i: int| 0 <= i < s.len() && is_control(#[trigger] s[i])
}

/// Tells whether `s` holds an ASCII control character.
pub fn has_ctr(s: &str) -> (r: bool)
    ensures
        r == has_control(s.spec_bytes()),
{
    let b = s.as_bytes();
    let mut i: usize = 0;
    while i < b.len()
        invariant
            i <= b.len(),
            b@ == s.spec_bytes(),
            forall|j: int| 0 <= j < i ==> !is_control(#[trigger] b@[j]),
        decreases b.len() - i,
    {
        if b[i] < 32 || b[i] == 127 {
            assert(is_control(b@[i as int]));
            return true;
        }
        i += 1;
    }
    false
}

/// The user-id and the password as they are encoded: joined by a colon.
pub open spec fn user_pass(user_id: Seq<u8>, password: Seq<u8>) -> Seq<u8> {
    user_id.push(':' as u8) + password
}

/// Whether a user-id and a password can make Basic credentials: neither
/// holds a control character, the user-id holds no colon, and the two are
/// not too long to be encoded.
pub open spec fn basic_allowed(user_id: Seq<u8>, password: Seq<u8>) -> bool {
    &&& !user_id.contains(':' as u8)
    &&& !has_control(user_id)
    &&& !has_control(password)
    &&& user_id.len() + 1 + password.len() < usize::MAX / 2
}

/// The credentials that `s` denotes: a scheme alone, or a scheme, spaces
/// and `token68` data.
pub open spec fn credentials_value(s: Seq<u8>) -> Option<(Seq<u8>, Option<Seq<u8>>)> {
    let i = index_of(s, ' ' as u8) as int;
    match canonical_scheme(s.take(i)) {
        None => None,
        Some(scheme) => if i >= s.len() {
            Some((scheme, None))
        } else {
            let rest = s.skip(i + 1);
            let info = rest.skip(leading_run(rest, ' ' as u8) as int);
            if is_token68_text(info) {
                Some((scheme, Some(info)))
            } else {
                None
            }
        },
    }
}

/// The text of credentials: the scheme, and the data after a space.
pub open spec fn credentials_text(m: (Seq<u8>, Option<Seq<u8>>)) -> Seq<u8> {
    match m.1 {
        None => m.0,
        Some(token) => m.0.push(' ' as u8) + token,
    }
}

impl Credentials {
    /// What these credentials stand for: the text of the scheme, and the
    /// `token68` data.
    pub closed spec fn view(&self) -> (Seq<u8>, Option<Seq<u8>>) {
        (
            self.scheme.text(),
            match self.info {
                Info::Nothing => None,
                Info::Token68(token) => Some(token.text()),
            },
        )
    }

    /// Whether the scheme of these credentials is `Bearer`.
    pub closed spec fn has_bearer_scheme(&self) -> bool {
        self.scheme.is_bearer_scheme()
    }

    /// Creates credentials from just an auth-scheme.
    #[inline]
    pub fn from_auth_scheme(scheme: AuthScheme) -> (r: Credentials)
        ensures
            r@ == (scheme.text(), None::<Seq<u8>>),
            r.has_bearer_scheme() == scheme.is_bearer_scheme(),
    {
        Credentials { scheme, info: Info::Nothing }
    }

    /// Creates credentials from an auth-scheme and token68 data.
    #[inline]
    pub fn from_token68(scheme: AuthScheme, token: Token68) -> (r: Credentials)
        ensures
            r@ == (scheme.text(), Some(token.text())),
            r.has_bearer_scheme() == scheme.is_bearer_scheme(),
    {
        Credentials { scheme, info: Info::Token68(token) }
    }

    /// Creates Bearer authentication credentials.
    #[inline]
    pub fn bearer(token: Token68) -> (r: Credentials)
        ensures
            r@ == ("Bearer".spec_bytes(), Some(token.text())),
            r.has_bearer_scheme(),
    {
        Credentials::from_token68(AuthScheme::bearer(), token)
    }

    /// Creates Basic authentication credentials: the base64 text of the
    /// user-id, a colon and the password.
    #[inline]
    pub fn basic(user_id: &str, password: &str) -> (r: Result<Credentials, Error>)
        ensures
            match r {
                Ok(v) => basic_allowed(user_id.spec_bytes(), password.spec_bytes()) && v@ == (
                    "Basic".spec_bytes(),
                    Some(base64_text(user_pass(user_id.spec_bytes(), password.spec_bytes()))),
                ) && !v.has_bearer_scheme(),
                Err(e) => !basic_allowed(user_id.spec_bytes(), password.spec_bytes()) && e
                    == Error(ErrorKind::InvalidValue),
            },
    {
        if contains_byte(user_id.as_bytes(), ':' as u8) || has_ctr(user_id) {
            return Err(Error::invalid_value());
        }
        if has_ctr(password) {
            return Err(Error::invalid_value());
        }
        let limit = usize::MAX / 2;
        if user_id.as_bytes().len() >= limit || password.as_bytes().len() >= limit
            - user_id.as_bytes().len() - 1 {
            return Err(Error::invalid_value());
        }
        let mut token: Vec<u8> = Vec::new();
        push_all(&mut token, user_id.as_bytes());
        token.push(':' as u8);
        push_all(&mut token, password.as_bytes());
        assert(token@ =~= user_pass(user_id.spec_bytes(), password.spec_bytes()));
        let token = Token68::from_text(base64_encode(token.as_slice()));
        Ok(Credentials::from_token68(AuthScheme::basic(), token))
    }

    /// Returns the auth-scheme associated with the credentials.
    #[inline]
    pub fn scheme(&self) -> (r: &AuthScheme)
        ensures
            r.text() == self@.0,
            r.is_bearer_scheme() == self.has_bearer_scheme(),
    {
        &self.scheme
    }

    /// Returns the token68 value associated with the credentials if
    /// present.
    #[inline]
    pub fn token68(&self) -> (r: Option<&Token68>)
        ensures
            match r {
                Some(t) => self@.1 == Some(t.text()),
                None => self@.1 is None,
            },
    {
        match &self.info {
            Info::Nothing => None,
            Info::Token68(token) => Some(token),
        }
    }

    /// Returns the bearer token if this contains Bearer credentials.
    #[inline]
    pub fn as_bearer(&self) -> (r: Option<&Token68>)
        ensures
            match r {
                Some(t) => self.has_bearer_scheme() && self@.1 == Some(t.text()),
                None => !self.has_bearer_scheme() || self@.1 is None,
            },
    {
        if !self.scheme.is_bearer() {
            return None;
        }
        self.token68()
    }

    /// Reads credentials.
    pub fn from_str(s: &str) -> (r: Result<Credentials, Error>)
        ensures
            match r {
                Ok(v) => credentials_value(s.spec_bytes()) == Some(v@),
                Err(e) => credentials_value(s.spec_bytes()) is None && e == Error(
                    ErrorKind::InvalidValue,
                ),
            },
    {
        Self::from_header_value(s.as_bytes())
    }

    /// The text of these credentials.
    pub fn to_string(&self) -> (s: String)
        ensures
            encode_utf8(s@) == credentials_text(self@),
    {
        self.to_header_value()
    }
}

impl ToHeaderValue for Credentials {
    type Model = (Seq<u8>, Option<Seq<u8>>);

    open spec fn model(&self) -> (Seq<u8>, Option<Seq<u8>>) {
        self@
    }

    open spec fn rendered(m: (Seq<u8>, Option<Seq<u8>>)) -> Seq<u8> {
        credentials_text(m)
    }

    fn to_header_value(&self) -> (s: String) {
        match &self.info {
            Info::Nothing => self.scheme.as_str().to_owned(),
            Info::Token68(token) => {
                let mut out: Vec<u8> = Vec::new();
                let scheme = self.scheme.as_str();
                let data = token.as_str();
                push_all(&mut out, scheme.as_bytes());
                out.push(' ' as u8);
                push_all(&mut out, data.as_bytes());
                proof {
                    let a = scheme.spec_bytes();
                    let b = data.spec_bytes();
                    vstd::utf8::encode_utf8_valid_utf8(scheme@);
                    vstd::utf8::encode_utf8_valid_utf8(data@);
                    let sp = seq![' ' as u8];
                    lemma_ascii_is_utf8(sp);
                    vstd::utf8::valid_utf8_concat(a, sp);
                    vstd::utf8::valid_utf8_concat(a + sp, b);
                    assert(out@ =~= a + sp + b);
                    assert(out@ =~= credentials_text(self@));
                }
                utf8_to_string(out)
            },
        }
    }
}

impl FromHeaderValue for Credentials {
    open spec fn parsed(s: Seq<u8>) -> Option<(Seq<u8>, Option<Seq<u8>>)> {
        credentials_value(s)
    }

    fn from_header_value(s: &[u8]) -> (r: Result<Self, Error>) {
        let i = find_byte(s, ' ' as u8);
        let auth_scheme = match AuthScheme::from_bytes(vstd::slice::slice_subrange(s, 0, i)) {
            Ok(scheme) => scheme,
            Err(e) => {
                return Err(e);
            },
        };
        if i >= s.len() {
            return Ok(Credentials::from_auth_scheme(auth_scheme));
        }
        let rest = vstd::slice::slice_subrange(s, i + 1, s.len());
        let mut start: usize = 0;
        assert(rest@.skip(0) =~= rest@);
        while start < rest.len() && rest[start] == ' ' as u8
            invariant
                start <= rest.len(),
                leading_run(rest@, ' ' as u8) == start + leading_run(
                    rest@.skip(start as int),
                    ' ' as u8,
                ),
            decreases rest.len() - start,
        {
            assert(rest@.skip(start as int).drop_first() =~= rest@.skip(start + 1));
            start += 1;
        }
        proof {
            if start < rest.len() {
                assert(rest@.skip(start as int)[0] == rest@[start as int]);
            }
        }
        let info = vstd::slice::slice_subrange(rest, start, rest.len());
        assert(info@ =~= rest@.skip(start as int));
        match Token68::from_bytes(info) {
            Ok(token) => Ok(Credentials::from_token68(auth_scheme, token)),
            Err(_) => Err(Error::invalid_value()),
        }
    }
}

} // verus!
