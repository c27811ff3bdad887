//! The `Strict-Transport-Security` header.

use vstd::prelude::*;
use vstd::string::StringSliceAdditionalSpecFns;
use vstd::utf8::encode_utf8;
use crate::error::{Error, ErrorKind};
use crate::header::Header;
use crate::number::{
    decimal_digits, lemma_decimal_digits_are_digits, parse_decimal, parse_u64, push_decimal,
};
use crate::text::{
    eq_ascii, eq_ignore_case, is_ascii, lemma_ascii_is_utf8, push_all, split, split_bytes,
    split_in_two, split_once, trim, trim_bytes, trim_matches, trim_matches_bytes, utf8_to_string,
};
use crate::util::{
    encode_single_value, parse_single_value, single_value, single_value_taken, FromHeaderValue,
    ToHeaderValue, ToValues, Values,
};

verus! {

/// `Strict-Transport-Security` header: tells a user agent to reach the
/// host over secure connections only.
#[derive(Clone, PartialEq, Debug)]
pub struct StrictTransportSecurity {
    /// Whether the policy holds of the subdomains of the host too.
    pub include_subdomains: bool,
    /// Number of seconds for which the user agent is to remember the policy.
    pub max_age: u64,
}

/// One directive of the header.
pub enum Directive {
    MaxAge(u64),
    IncludeSubdomains,
    Unknown,
}

/// The directive that one trimmed piece denotes: `includeSubdomains` in any
/// case; `max-age`, in any case, `=` and a number that may stand in double
/// quotes; or, for everything else, an unknown directive. A `max-age`
/// without a number denotes nothing.
pub open spec fn directive(sub: Seq<u8>) -> Option<Directive> {
    if eq_ignore_case(sub, "includeSubdomains".spec_bytes()) {
        Some(Directive::IncludeSubdomains)
    } else {
        match split_once(sub, '=' as u8) {
            Some((left, right)) => if eq_ignore_case(trim(left), "max-age".spec_bytes()) {
                match parse_decimal(trim_matches(trim(right), '"' as u8), u64::MAX as nat) {
                    Some(n) => Some(Directive::MaxAge(n as u64)),
                    None => None,
                }
            } else {
                Some(Directive::Unknown)
            },
            None => Some(Directive::Unknown),
        }
    }
}

/// The age and the subdomain flag gathered from the pieces between
/// semicolons, read in order. Nothing is gathered where a directive denotes
/// nothing, or where `max-age` or `includeSubdomains` stands twice.
pub open spec fn gathered(pieces: Seq<Seq<u8>>) -> Option<(Option<u64>, bool)>
    decreases pieces.len(),
{
    if pieces.len() == 0 {
        Some((None, false))
    } else {
        match gathered(pieces.drop_last()) {
            None => None,
            Some((age, sub)) => match directive(trim(pieces.last())) {
                None => None,
                Some(Directive::MaxAge(n)) => if age is None {
                    Some((Some(n), sub))
                } else {
                    None
                },
                Some(Directive::IncludeSubdomains) => if !sub {
                    Some((age, true))
                } else {
                    None
                },
                Some(Directive::Unknown) => Some((age, sub)),
            },
        }
    }
}

/// The policy that `s` denotes: directives between semicolons, among them
/// exactly one `max-age`.
pub open spec fn policy_value(s: Seq<u8>) -> Option<StrictTransportSecurity> {
    match gathered(split(s, ';' as u8)) {
        Some((Some(age), sub)) => Some(
            StrictTransportSecurity { include_subdomains: sub, max_age: age },
        ),
        _ => None,
    }
}

/// The text of a policy.
pub open spec fn policy_text(m: StrictTransportSecurity) -> Seq<u8> {
    let age = "max-age=".spec_bytes() + decimal_digits(m.max_age as nat);
    if m.include_subdomains {
        age + "; includeSubdomains".spec_bytes()
    } else {
        age
    }
}

/// Pieces that fail up to some point fail as a whole.
proof fn lemma_gathered_prefix(pieces: Seq<Seq<u8>>, k: int)
    requires
        0 <= k <= pieces.len(),
        gathered(pieces.take(k)) is None,
    ensures
        gathered(pieces) is None,
    decreases pieces.len() - k,
{
    if k == pieces.len() {
        assert(pieces.take(k) =~= pieces);
    } else {
        assert(pieces.drop_last().take(k) =~= pieces.take(k));
        lemma_gathered_prefix(pieces.drop_last(), k);
    }
}

/// Reads one directive.
fn parse_directive(sub: &[u8]) -> (r: Option<Directive>)
    ensures
        r == directive(sub@),
{
    if eq_ascii(sub, "includeSubdomains".as_bytes()) {
        return Some(Directive::IncludeSubdomains);
    }
    match split_in_two(sub, '=' as u8) {
        Some((left, right)) => {
            if eq_ascii(trim_bytes(left), "max-age".as_bytes()) {
                match parse_u64(trim_matches_bytes(trim_bytes(right), '"' as u8)) {
                    Some(n) => Some(Directive::MaxAge(n)),
                    None => None,
                }
            } else {
                Some(Directive::Unknown)
            }
        },
        None => Some(Directive::Unknown),
    }
}

impl StrictTransportSecurity {
    /// A policy that includes subdomains.
    pub fn including_subdomains(max_age: u64) -> (r: StrictTransportSecurity)
        ensures
            r == (StrictTransportSecurity { max_age: max_age, include_subdomains: true }),
    {
        StrictTransportSecurity { max_age: max_age, include_subdomains: true }
    }

    /// A policy that excludes subdomains.
    pub fn excluding_subdomains(max_age: u64) -> (r: StrictTransportSecurity)
        ensures
            r == (StrictTransportSecurity { max_age: max_age, include_subdomains: false }),
    {
        StrictTransportSecurity { max_age: max_age, include_subdomains: false }
    }

    /// Reads a policy.
    pub fn from_str(s: &str) -> (r: Result<StrictTransportSecurity, Error>)
        ensures
            match r {
                Ok(v) => policy_value(s.spec_bytes()) == Some(v),
                Err(e) => policy_value(s.spec_bytes()) is None && e == Error(
                    ErrorKind::InvalidValue,
                ),
            },
    {
        Self::from_header_value(s.as_bytes())
    }

    /// The text of this policy.
    pub fn to_string(&self) -> (s: String)
        ensures
            encode_utf8(s@) == policy_text(*self),
    {
        self.to_header_value()
    }
}

impl ToHeaderValue for StrictTransportSecurity {
    type Model = StrictTransportSecurity;

    open spec fn model(&self) -> StrictTransportSecurity {
        *self
    }

    open spec fn rendered(m: StrictTransportSecurity) -> Seq<u8> {
        policy_text(m)
    }

    fn to_header_value(&self) -> (s: String) {
        let mut out: Vec<u8> = Vec::new();
        push_all(&mut out, "max-age=".as_bytes());
        push_decimal(&mut out, self.max_age);
        if self.include_subdomains {
            push_all(&mut out, "; includeSubdomains".as_bytes());
        }
        proof {
            assert(out@ =~= policy_text(*self));
            reveal_strlit("max-age=");
            reveal_strlit("; includeSubdomains");
            broadcast use vstd::string::is_ascii_spec_bytes;
            assert(vstd::string::is_ascii("max-age="));
            assert(vstd::string::is_ascii("; includeSubdomains"));
            lemma_decimal_digits_are_digits(self.max_age as nat);
            assert(is_ascii("max-age=".spec_bytes()));
            assert(is_ascii("; includeSubdomains".spec_bytes()));
            assert(is_ascii(out@));
            lemma_ascii_is_utf8(out@);
        }
        utf8_to_string(out)
    }
}

impl FromHeaderValue for StrictTransportSecurity {
    open spec fn parsed(s: Seq<u8>) -> Option<StrictTransportSecurity> {
        policy_value(s)
    }

    fn from_header_value(s: &[u8]) -> (r: Result<Self, Error>) {
        let pieces = split_bytes(s, ';' as u8);
        let ghost all = split(s@, ';' as u8);
        let mut age: Option<u64> = None;
        let mut sub: bool = false;
        let mut j: usize = 0;
        assert(all.take(0) =~= Seq::<Seq<u8>>::empty());
        while j < pieces.len()
            invariant
                j <= pieces.len(),
                all == split(s@, ';' as u8),
                pieces@.len() == all.len(),
                forall|i: int| 0 <= i < pieces@.len() ==> (#[trigger] pieces@[i])@ == all[i],
                gathered(all.take(j as int)) == Some((age, sub)),
            decreases pieces.len() - j,
        {
            proof {
                assert(all.take(j + 1).drop_last() =~= all.take(j as int));
                assert(all.take(j + 1).last() == all[j as int]);
            }
            match parse_directive(trim_bytes(pieces[j])) {
                None => {
                    proof {
                        lemma_gathered_prefix(all, j + 1);
                    }
                    return Err(Error::invalid_value());
                },
                Some(Directive::MaxAge(n)) => {
                    if age.is_some() {
                        proof {
                            lemma_gathered_prefix(all, j + 1);
                        }
                        return Err(Error::invalid_value());
                    }
                    age = Some(n);
                },
                Some(Directive::IncludeSubdomains) => {
                    if sub {
                        proof {
                            lemma_gathered_prefix(all, j + 1);
                        }
                        return Err(Error::invalid_value());
                    }
                    sub = true;
                },
                Some(Directive::Unknown) => {},
            }
            j += 1;
        }
        assert(all.take(all.len() as int) =~= all);
        match age {
            Some(age) => Ok(StrictTransportSecurity { max_age: age, include_subdomains: sub }),
            None => Err(Error::invalid_value()),
        }
    }
}

impl Header for StrictTransportSecurity {
    type Model = StrictTransportSecurity;

    open spec fn model(&self) -> StrictTransportSecurity {
        *self
    }

    open spec fn name_text() -> Seq<u8> {
        "strict-transport-security".spec_bytes()
    }

    open spec fn decoded(entries: Seq<Seq<u8>>) -> Result<
        Option<StrictTransportSecurity>,
        ErrorKind,
    > {
        single_value::<StrictTransportSecurity>(entries)
    }

    open spec fn taken(entries: Seq<Seq<u8>>) -> nat {
        single_value_taken(entries)
    }

    open spec fn encoded(m: StrictTransportSecurity) -> Option<Seq<Seq<u8>>> {
        if crate::util::is_valid_value(policy_text(m)) {
            Some(seq![policy_text(m)])
        } else {
            None
        }
    }

    fn name() -> (n: &'static str) {
        proof {
            reveal_strlit("strict-transport-security");
            crate::header::lemma_header_name("strict-transport-security");
        }
        "strict-transport-security"
    }

    #[inline]
    fn from_values(values: &mut Values) -> (r: Result<Option<Self>, Error>) {
        parse_single_value(values)
    }

    #[inline]
    fn to_values(&self, values: &mut ToValues) -> (r: Result<(), Error>) {
        let r = encode_single_value(self, values);
        proof {
            let t = policy_text(*self);
            assert(old(values).entries().push(t) =~= old(values).entries() + seq![t]);
        }
        r
    }
}

} // verus!
