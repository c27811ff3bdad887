//! The directives of the `Cache-Control` header.

use vstd::prelude::*;
use vstd::string::StringSliceAdditionalSpecFns;
use vstd::utf8::{encode_utf8, valid_utf8};
use crate::error::{Error, ErrorKind};
use crate::number::{
    decimal_digits, lemma_decimal_digits_are_digits, parse_decimal, parse_u32, push_decimal,
};
use crate::text::{
    bytes_eq, bytes_to_string, find_byte, index_of, is_ascii, lemma_ascii_is_utf8, push_all,
    trim_matches, trim_matches_bytes, utf8_to_string,
};
use crate::util::{FromHeaderValue, ToHeaderValue};

verus! {

/// One directive of the `Cache-Control` header.
#[derive(PartialEq, Clone, Debug)]
pub enum CacheDirective {
    /// "no-cache"
    NoCache,
    /// "no-store"
    NoStore,
    /// "no-transform"
    NoTransform,
    /// "only-if-cached"
    OnlyIfCached,
    /// "max-age=delta"
    MaxAge(u32),
    /// "max-stale=delta"
    MaxStale(u32),
    /// "min-fresh=delta"
    MinFresh(u32),
    /// "must-revalidate"
    MustRevalidate,
    /// "public"
    Public,
    /// "private"
    Private,
    /// "proxy-revalidate"
    ProxyRevalidate,
    /// "s-maxage=delta"
    SMaxAge(u32),
    /// An extension directive, with an argument or without.
    Extension(String, Option<String>),
}

/// What a `CacheDirective` stands for.
pub enum CacheDirectiveModel {
    NoCache,
    NoStore,
    NoTransform,
    OnlyIfCached,
    MaxAge(u32),
    MaxStale(u32),
    MinFresh(u32),
    MustRevalidate,
    Public,
    Private,
    ProxyRevalidate,
    SMaxAge(u32),
    Extension(Seq<u8>, Option<Seq<u8>>),
}

/// The directive that a name without argument denotes.
pub open spec fn plain_directive(s: Seq<u8>) -> Option<CacheDirectiveModel> {
    if s == "no-cache".spec_bytes() {
        Some(CacheDirectiveModel::NoCache)
    } else if s == "no-store".spec_bytes() {
        Some(CacheDirectiveModel::NoStore)
    } else if s == "no-transform".spec_bytes() {
        Some(CacheDirectiveModel::NoTransform)
    } else if s == "only-if-cached".spec_bytes() {
        Some(CacheDirectiveModel::OnlyIfCached)
    } else if s == "must-revalidate".spec_bytes() {
        Some(CacheDirectiveModel::MustRevalidate)
    } else if s == "public".spec_bytes() {
        Some(CacheDirectiveModel::Public)
    } else if s == "private".spec_bytes() {
        Some(CacheDirectiveModel::Private)
    } else if s == "proxy-revalidate".spec_bytes() {
        Some(CacheDirectiveModel::ProxyRevalidate)
    } else {
        None
    }
}

/// The directive that a name with the argument `arg` denotes, where `arg`
/// has lost the double quotes around it.
pub open spec fn argument_directive(name: Seq<u8>, arg: Seq<u8>) -> Option<CacheDirectiveModel> {
    let seconds = parse_decimal(arg, u32::MAX as nat);
    if name == "max-age".spec_bytes() {
        match seconds {
            Some(n) => Some(CacheDirectiveModel::MaxAge(n as u32)),
            None => None,
        }
    } else if name == "max-stale".spec_bytes() {
        match seconds {
            Some(n) => Some(CacheDirectiveModel::MaxStale(n as u32)),
            None => None,
        }
    } else if name == "min-fresh".spec_bytes() {
        match seconds {
            Some(n) => Some(CacheDirectiveModel::MinFresh(n as u32)),
            None => None,
        }
    } else if name == "s-maxage".spec_bytes() {
        match seconds {
            Some(n) => Some(CacheDirectiveModel::SMaxAge(n as u32)),
            None => None,
        }
    } else if valid_utf8(name) && valid_utf8(arg) {
        Some(CacheDirectiveModel::Extension(name, Some(arg)))
    } else {
        None
    }
}

/// The directive that `s` denotes: one of the registered names; a
/// registered name, `=` and a number of seconds; or an extension, with an
/// argument after the first `=` or without. The empty text, and a text
/// that ends with its first `=`, denote nothing.
pub open spec fn cache_directive(s: Seq<u8>) -> Option<CacheDirectiveModel> {
    match plain_directive(s) {
        Some(d) => Some(d),
        None => if s.len() == 0 {
            None
        } else {
            let idx = index_of(s, '=' as u8) as int;
            if idx >= s.len() {
                if valid_utf8(s) {
                    Some(CacheDirectiveModel::Extension(s, None))
                } else {
                    None
                }
            } else if idx + 1 < s.len() {
                argument_directive(s.take(idx), trim_matches(s.skip(idx + 1), '"' as u8))
            } else {
                None
            }
        },
    }
}

/// The text of a directive.
pub open spec fn cache_directive_text(m: CacheDirectiveModel) -> Seq<u8> {
    match m {
        CacheDirectiveModel::NoCache => "no-cache".spec_bytes(),
        CacheDirectiveModel::NoStore => "no-store".spec_bytes(),
        CacheDirectiveModel::NoTransform => "no-transform".spec_bytes(),
        CacheDirectiveModel::OnlyIfCached => "only-if-cached".spec_bytes(),
        CacheDirectiveModel::MaxAge(secs) => "max-age=".spec_bytes() + decimal_digits(secs as nat),
        CacheDirectiveModel::MaxStale(secs) => "max-stale=".spec_bytes() + decimal_digits(
            secs as nat,
        ),
        CacheDirectiveModel::MinFresh(secs) => "min-fresh=".spec_bytes() + decimal_digits(
            secs as nat,
        ),
        CacheDirectiveModel::MustRevalidate => "must-revalidate".spec_bytes(),
        CacheDirectiveModel::Public => "public".spec_bytes(),
        CacheDirectiveModel::Private => "private".spec_bytes(),
        CacheDirectiveModel::ProxyRevalidate => "proxy-revalidate".spec_bytes(),
        CacheDirectiveModel::SMaxAge(secs) => "s-maxage=".spec_bytes() + decimal_digits(
            secs as nat,
        ),
        CacheDirectiveModel::Extension(name, None) => name,
        CacheDirectiveModel::Extension(name, Some(arg)) => name.push('=' as u8) + arg,
    }
}

/// The text of a name followed by a number of seconds.
fn seconds_text(name: &str, secs: u32) -> (s: String)
    requires
        vstd::string::is_ascii(name),
    ensures
        encode_utf8(s@) == name.spec_bytes() + decimal_digits(secs as nat),
{
    let mut out: Vec<u8> = Vec::new();
    push_all(&mut out, name.as_bytes());
    push_decimal(&mut out, secs as u64);
    proof {
        broadcast use vstd::string::is_ascii_spec_bytes;
        lemma_decimal_digits_are_digits(secs as nat);
        assert(out@ =~= name.spec_bytes() + decimal_digits(secs as nat));
        assert(is_ascii(name.spec_bytes()));
        assert(is_ascii(out@));
        lemma_ascii_is_utf8(out@);
    }
    utf8_to_string(out)
}

impl CacheDirective {
    /// What this directive stands for.
    pub open spec fn view(&self) -> CacheDirectiveModel {
        match self {
            CacheDirective::NoCache => CacheDirectiveModel::NoCache,
            CacheDirective::NoStore => CacheDirectiveModel::NoStore,
            CacheDirective::NoTransform => CacheDirectiveModel::NoTransform,
            CacheDirective::OnlyIfCached => CacheDirectiveModel::OnlyIfCached,
            CacheDirective::MaxAge(n) => CacheDirectiveModel::MaxAge(*n),
            CacheDirective::MaxStale(n) => CacheDirectiveModel::MaxStale(*n),
            CacheDirective::MinFresh(n) => CacheDirectiveModel::MinFresh(*n),
            CacheDirective::MustRevalidate => CacheDirectiveModel::MustRevalidate,
            CacheDirective::Public => CacheDirectiveModel::Public,
            CacheDirective::Private => CacheDirectiveModel::Private,
            CacheDirective::ProxyRevalidate => CacheDirectiveModel::ProxyRevalidate,
            CacheDirective::SMaxAge(n) => CacheDirectiveModel::SMaxAge(*n),
            CacheDirective::Extension(name, arg) => CacheDirectiveModel::Extension(
                encode_utf8(name@),
                match arg {
                    Some(a) => Some(encode_utf8(a@)),
                    None => None,
                },
            ),
        }
    }

    /// Reads a directive.
    pub fn from_str(s: &str) -> (r: Result<CacheDirective, Error>)
        ensures
            match r {
                Ok(v) => cache_directive(s.spec_bytes()) == Some(v@),
                Err(e) => cache_directive(s.spec_bytes()) is None && e == Error(
                    ErrorKind::InvalidValue,
                ),
            },
    {
        Self::from_header_value(s.as_bytes())
    }

    /// The text of this directive.
    pub fn to_string(&self) -> (s: String)
        ensures
            encode_utf8(s@) == cache_directive_text(self@),
    {
        self.to_header_value()
    }
}

impl ToHeaderValue for CacheDirective {
    type Model = CacheDirectiveModel;

    open spec fn model(&self) -> CacheDirectiveModel {
        self@
    }

    open spec fn rendered(m: CacheDirectiveModel) -> Seq<u8> {
        cache_directive_text(m)
    }

    fn to_header_value(&self) -> (s: String) {
        proof {
            reveal_strlit("max-age=");
            reveal_strlit("max-stale=");
            reveal_strlit("min-fresh=");
            reveal_strlit("s-maxage=");
        }
        match self {
            CacheDirective::NoCache => "no-cache".to_owned(),
            CacheDirective::NoStore => "no-store".to_owned(),
            CacheDirective::NoTransform => "no-transform".to_owned(),
            CacheDirective::OnlyIfCached => "only-if-cached".to_owned(),
            CacheDirective::MaxAge(secs) => seconds_text("max-age=", *secs),
            CacheDirective::MaxStale(secs) => seconds_text("max-stale=", *secs),
            CacheDirective::MinFresh(secs) => seconds_text("min-fresh=", *secs),
            CacheDirective::MustRevalidate => "must-revalidate".to_owned(),
            CacheDirective::Public => "public".to_owned(),
            CacheDirective::Private => "private".to_owned(),
            CacheDirective::ProxyRevalidate => "proxy-revalidate".to_owned(),
            CacheDirective::SMaxAge(secs) => seconds_text("s-maxage=", *secs),
            CacheDirective::Extension(name, None) => name.clone(),
            CacheDirective::Extension(name, Some(arg)) => {
                let mut out: Vec<u8> = Vec::new();
                push_all(&mut out, name.as_str().as_bytes());
                out.push('=' as u8);
                push_all(&mut out, arg.as_str().as_bytes());
                proof {
                    let n = encode_utf8(name@);
                    let a = encode_utf8(arg@);
                    vstd::utf8::encode_utf8_valid_utf8(name@);
                    vstd::utf8::encode_utf8_valid_utf8(arg@);
                    let eq = seq!['=' as u8];
                    lemma_ascii_is_utf8(eq);
                    vstd::utf8::valid_utf8_concat(n, eq);
                    vstd::utf8::valid_utf8_concat(n + eq, a);
                    assert(out@ =~= n + eq + a);
                    assert(out@ =~= cache_directive_text(self@));
                }
                utf8_to_string(out)
            },
        }
    }
}

/// Reads a number of seconds.
fn parse_seconds(arg: &[u8]) -> (r: Option<u32>)
    ensures
        match r {
            Some(n) => parse_decimal(arg@, u32::MAX as nat) == Some(n as nat),
            None => parse_decimal(arg@, u32::MAX as nat) is None,
        },
{
    parse_u32(arg)
}

impl FromHeaderValue for CacheDirective {
    open spec fn parsed(s: Seq<u8>) -> Option<CacheDirectiveModel> {
        cache_directive(s)
    }

    fn from_header_value(s: &[u8]) -> (r: Result<Self, Error>) {
        if bytes_eq(s, "no-cache".as_bytes()) {
            return Ok(CacheDirective::NoCache);
        }
        if bytes_eq(s, "no-store".as_bytes()) {
            return Ok(CacheDirective::NoStore);
        }
        if bytes_eq(s, "no-transform".as_bytes()) {
            return Ok(CacheDirective::NoTransform);
        }
        if bytes_eq(s, "only-if-cached".as_bytes()) {
            return Ok(CacheDirective::OnlyIfCached);
        }
        if bytes_eq(s, "must-revalidate".as_bytes()) {
            return Ok(CacheDirective::MustRevalidate);
        }
        if bytes_eq(s, "public".as_bytes()) {
            return Ok(CacheDirective::Public);
        }
        if bytes_eq(s, "private".as_bytes()) {
            return Ok(CacheDirective::Private);
        }
        if bytes_eq(s, "proxy-revalidate".as_bytes()) {
            return Ok(CacheDirective::ProxyRevalidate);
        }
        if s.len() == 0 {
            return Err(Error::invalid_value());
        }
        let idx = find_byte(s, '=' as u8);
        if idx >= s.len() {
            return match bytes_to_string(vstd::slice::slice_to_vec(s)) {
                Some(name) => Ok(CacheDirective::Extension(name, None)),
                None => Err(Error::invalid_value()),
            };
        }
        if idx + 1 >= s.len() {
            return Err(Error::invalid_value());
        }
        let left = vstd::slice::slice_subrange(s, 0, idx);
        let right = trim_matches_bytes(vstd::slice::slice_subrange(s, idx + 1, s.len()), '"' as u8);
        if bytes_eq(left, "max-age".as_bytes()) {
            return match parse_seconds(right) {
                Some(n) => Ok(CacheDirective::MaxAge(n)),
                None => Err(Error::invalid_value()),
            };
        }
        if bytes_eq(left, "max-stale".as_bytes()) {
            return match parse_seconds(right) {
                Some(n) => Ok(CacheDirective::MaxStale(n)),
                None => Err(Error::invalid_value()),
            };
        }
        if bytes_eq(left, "min-fresh".as_bytes()) {
            return match parse_seconds(right) {
                Some(n) => Ok(CacheDirective::MinFresh(n)),
                None => Err(Error::invalid_value()),
            };
        }
        if bytes_eq(left, "s-maxage".as_bytes()) {
            return match parse_seconds(right) {
                Some(n) => Ok(CacheDirective::SMaxAge(n)),
                None => Err(Error::invalid_value()),
            };
        }
        let name = bytes_to_string(vstd::slice::slice_to_vec(left));
        let arg = bytes_to_string(vstd::slice::slice_to_vec(right));
        match (name, arg) {
            (Some(name), Some(arg)) => Ok(CacheDirective::Extension(name, Some(arg))),
            _ => Err(Error::invalid_value()),
        }
    }
}

} // verus!
