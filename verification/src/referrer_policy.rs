//! The `Referrer-Policy` header.

use vstd::prelude::*;
use vstd::string::StringSliceAdditionalSpecFns;
use vstd::utf8::encode_utf8;
use crate::error::{Error, ErrorKind};
use crate::header::Header;
use crate::text::{bytes_eq, lower_bytes, push_all, to_lower};
use crate::util::{
    comma_delimited, comma_delimited_taken, is_valid_value, models, parse_comma_delimited,
    ToValues, Values,
};

verus! {

/// `Referrer-Policy` header: which referrer information a user agent sends
/// with the requests that it makes from a resource.
#[derive(Clone, Copy, PartialEq, Eq, Debug)]
pub enum ReferrerPolicy {
    /// `no-referrer`
    NoReferrer,
    /// `no-referrer-when-downgrade`
    NoReferrerWhenDowngrade,
    /// `same-origin`
    SameOrigin,
    /// `origin`
    Origin,
    /// `origin-when-cross-origin`
    OriginWhenCrossOrigin,
    /// `unsafe-url`
    UnsafeUrl,
    /// `strict-origin`
    StrictOrigin,
    /// `strict-origin-when-cross-origin`
    StrictOriginWhenCrossOrigin,
}

/// The policy that a token in lower case names; the older names `never`,
/// `default` and `always` are known too.
pub open spec fn policy_of(token: Seq<u8>) -> Option<ReferrerPolicy> {
    if token == "no-referrer".spec_bytes() || token == "never".spec_bytes() {
        Some(ReferrerPolicy::NoReferrer)
    } else if token == "no-referrer-when-downgrade".spec_bytes() || token
        == "default".spec_bytes() {
        Some(ReferrerPolicy::NoReferrerWhenDowngrade)
    } else if token == "same-origin".spec_bytes() {
        Some(ReferrerPolicy::SameOrigin)
    } else if token == "origin".spec_bytes() {
        Some(ReferrerPolicy::Origin)
    } else if token == "origin-when-cross-origin".spec_bytes() {
        Some(ReferrerPolicy::OriginWhenCrossOrigin)
    } else if token == "strict-origin".spec_bytes() {
        Some(ReferrerPolicy::StrictOrigin)
    } else if token == "strict-origin-when-cross-origin".spec_bytes() {
        Some(ReferrerPolicy::StrictOriginWhenCrossOrigin)
    } else if token == "unsafe-url".spec_bytes() || token == "always".spec_bytes() {
        Some(ReferrerPolicy::UnsafeUrl)
    } else {
        None
    }
}

/// The policy that a list of tokens asks for: the last token that names a
/// policy decides; tokens that name none are passed over.
pub open spec fn last_policy(tokens: Seq<Seq<u8>>) -> Option<ReferrerPolicy>
    decreases tokens.len(),
{
    if tokens.len() == 0 {
        None
    } else {
        match policy_of(to_lower(tokens.last())) {
            Some(p) => Some(p),
            None => last_policy(tokens.drop_last()),
        }
    }
}

/// The text of a policy.
pub open spec fn policy_text(p: ReferrerPolicy) -> Seq<u8> {
    match p {
        ReferrerPolicy::NoReferrer => "no-referrer".spec_bytes(),
        ReferrerPolicy::NoReferrerWhenDowngrade => "no-referrer-when-downgrade".spec_bytes(),
        ReferrerPolicy::SameOrigin => "same-origin".spec_bytes(),
        ReferrerPolicy::Origin => "origin".spec_bytes(),
        ReferrerPolicy::OriginWhenCrossOrigin => "origin-when-cross-origin".spec_bytes(),
        ReferrerPolicy::StrictOrigin => "strict-origin".spec_bytes(),
        ReferrerPolicy::StrictOriginWhenCrossOrigin =>
            "strict-origin-when-cross-origin".spec_bytes(),
        ReferrerPolicy::UnsafeUrl => "unsafe-url".spec_bytes(),
    }
}

/// The policy that a token names, without regard to case.
pub fn policy_of_token(token: &[u8]) -> (r: Option<ReferrerPolicy>)
    ensures
        r == policy_of(to_lower(token@)),
{
    let lowered = lower_bytes(token);
    let slice = lowered.as_slice();
    if bytes_eq(slice, "no-referrer".as_bytes()) || bytes_eq(slice, "never".as_bytes()) {
        Some(ReferrerPolicy::NoReferrer)
    } else if bytes_eq(slice, "no-referrer-when-downgrade".as_bytes()) || bytes_eq(
        slice,
        "default".as_bytes(),
    ) {
        Some(ReferrerPolicy::NoReferrerWhenDowngrade)
    } else if bytes_eq(slice, "same-origin".as_bytes()) {
        Some(ReferrerPolicy::SameOrigin)
    } else if bytes_eq(slice, "origin".as_bytes()) {
        Some(ReferrerPolicy::Origin)
    } else if bytes_eq(slice, "origin-when-cross-origin".as_bytes()) {
        Some(ReferrerPolicy::OriginWhenCrossOrigin)
    } else if bytes_eq(slice, "strict-origin".as_bytes()) {
        Some(ReferrerPolicy::StrictOrigin)
    } else if bytes_eq(slice, "strict-origin-when-cross-origin".as_bytes()) {
        Some(ReferrerPolicy::StrictOriginWhenCrossOrigin)
    } else if bytes_eq(slice, "unsafe-url".as_bytes()) || bytes_eq(slice, "always".as_bytes()) {
        Some(ReferrerPolicy::UnsafeUrl)
    } else {
        None
    }
}

/// The policy that a list of tokens asks for.
pub fn chosen_policy(headers: &[String]) -> (r: Option<ReferrerPolicy>)
    ensures
        r == last_policy(models(headers@)),
{
    let ghost tokens = models(headers@);
    let mut i: usize = headers.len();
    assert(tokens.take(i as int) =~= tokens);
    while i > 0
        invariant
            i <= headers.len(),
            tokens == models(headers@),
            last_policy(tokens) == last_policy(tokens.take(i as int)),
        decreases i,
    {
        i -= 1;
        proof {
            assert(tokens.take(i + 1).last() == tokens[i as int]);
            assert(tokens.take(i + 1).drop_last() =~= tokens.take(i as int));
        }
        match policy_of_token(headers[i].as_str().as_bytes()) {
            Some(p) => {
                return Some(p);
            },
            None => {},
        }
    }
    None
}

impl ReferrerPolicy {
    /// The text of this policy.
    pub fn as_str(&self) -> (r: &'static str)
        ensures
            r.spec_bytes() == policy_text(*self),
    {
        match self {
            ReferrerPolicy::NoReferrer => "no-referrer",
            ReferrerPolicy::NoReferrerWhenDowngrade => "no-referrer-when-downgrade",
            ReferrerPolicy::SameOrigin => "same-origin",
            ReferrerPolicy::Origin => "origin",
            ReferrerPolicy::OriginWhenCrossOrigin => "origin-when-cross-origin",
            ReferrerPolicy::StrictOrigin => "strict-origin",
            ReferrerPolicy::StrictOriginWhenCrossOrigin => "strict-origin-when-cross-origin",
            ReferrerPolicy::UnsafeUrl => "unsafe-url",
        }
    }

    /// The text of this policy, as a string of its own.
    pub fn to_string(&self) -> (s: String)
        ensures
            encode_utf8(s@) == policy_text(*self),
    {
        self.as_str().to_owned()
    }
}

impl Header for ReferrerPolicy {
    type Model = ReferrerPolicy;

    open spec fn model(&self) -> ReferrerPolicy {
        *self
    }

    open spec fn name_text() -> Seq<u8> {
        "referrer-policy".spec_bytes()
    }

    /// Absent where there is no entry. The entries are read as a
    /// comma-delimited list of tokens; a list in which no token names a
    /// policy is an invalid value.
    open spec fn decoded(entries: Seq<Seq<u8>>) -> Result<Option<ReferrerPolicy>, ErrorKind> {
        match comma_delimited::<String>(entries) {
            Err(k) => Err(k),
            Ok(None) => Ok(None),
            Ok(Some(tokens)) => match last_policy(tokens) {
                Some(p) => Ok(Some(p)),
                None => Err(ErrorKind::InvalidValue),
            },
        }
    }

    open spec fn taken(entries: Seq<Seq<u8>>) -> nat {
        comma_delimited_taken::<String>(entries)
    }

    open spec fn encoded(m: ReferrerPolicy) -> Option<Seq<Seq<u8>>> {
        if is_valid_value(policy_text(m)) {
            Some(seq![policy_text(m)])
        } else {
            None
        }
    }

    fn name() -> (n: &'static str) {
        proof {
            reveal_strlit("referrer-policy");
            crate::header::lemma_header_name("referrer-policy");
        }
        "referrer-policy"
    }

    #[inline]
    fn from_values(values: &mut Values) -> (r: Result<Option<ReferrerPolicy>, Error>) {
        let headers: Vec<String> = match parse_comma_delimited::<String>(values) {
            Err(e) => {
                return Err(e);
            },
            Ok(None) => {
                return Ok(None);
            },
            Ok(Some(headers)) => headers,
        };
        match chosen_policy(headers.as_slice()) {
            Some(p) => Ok(Some(p)),
            None => Err(Error::invalid_value()),
        }
    }

    #[inline]
    fn to_values(&self, values: &mut ToValues) -> (r: Result<(), Error>) {
        let mut text: Vec<u8> = Vec::new();
        push_all(&mut text, self.as_str().as_bytes());
        proof {
            let t = policy_text(*self);
            assert(text@ =~= t);
            assert(old(values).entries().push(t) =~= old(values).entries() + seq![t]);
        }
        values.append(text)
    }
}

} // verus!
