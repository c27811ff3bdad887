//! The `Host` header.

use vstd::prelude::*;
use vstd::string::StringSliceAdditionalSpecFns;
use vstd::utf8::encode_utf8;
use http::uri::Authority;
use crate::error::{Error, ErrorKind};
use crate::header::Header;
use crate::http_types::{
    after_last, authority_as_str, authority_from_bytes, authority_host, authority_port,
    authority_text, host_and_port, host_is_defined, host_part, is_authority, port_part,
};
use crate::number::{decimal_digits, lemma_decimal_digits_are_digits, push_decimal};
use crate::text::{contains_byte, lemma_ascii_is_utf8, push_all, utf8_to_string};
use crate::util::{is_valid_value, ToValues, Values};

verus! {

/// The `Host` header: the host and the port of the target of a request.
#[derive(Debug, Clone, PartialEq)]
pub struct Host {
    host: String,
    port: Option<u16>,
}

/// Index after the last `b` in `s`; 0 if there is none.
pub fn index_after_last(s: &[u8], b: u8) -> (r: usize)
    ensures
        r == after_last(s@, b),
        r <= s@.len(),
{
    let mut i: usize = s.len();
    assert(s@.take(i as int) =~= s@);
    while i > 0 && s[i - 1] != b
        invariant
            i <= s.len(),
            after_last(s@, b) == after_last(s@.take(i as int), b),
        decreases i,
    {
        assert(s@.take(i as int).last() == s@[i - 1]);
        assert(s@.take(i as int).drop_last() =~= s@.take(i - 1));
        i -= 1;
    }
    proof {
        if i > 0 {
            assert(s@.take(i as int).last() == s@[i - 1]);
        }
    }
    i
}

/// Tells whether the authority text has a host that can be told.
pub fn check_host_defined(text: &[u8]) -> (r: bool)
    ensures
        r == host_is_defined(text@),
{
    let start = index_after_last(text, '@' as u8);
    let hp = vstd::slice::slice_subrange(text, start, text.len());
    assert(hp@ =~= host_and_port(text@));
    if hp.len() == 0 {
        return false;
    }
    if hp[0] == '[' as u8 {
        contains_byte(hp, ']' as u8)
    } else {
        true
    }
}

/// The text of the authority made of a host name and an optional port.
pub open spec fn authority_of(host: Seq<u8>, port: Option<u16>) -> Seq<u8> {
    match port {
        Some(p) => host.push(':' as u8) + decimal_digits(p as nat),
        None => host,
    }
}

/// The host and the port that an authority text denotes; `None` where the
/// text is no authority, or has no host that can be told.
pub open spec fn host_of_authority(text: Seq<u8>) -> Option<(Seq<u8>, Option<u16>)> {
    if is_authority(text) && host_is_defined(text) {
        Some((host_part(text), port_part(text)))
    } else {
        None
    }
}

/// What the value of a `Host` header denotes: as an authority, but one
/// with user information denotes nothing.
pub open spec fn host_value(text: Seq<u8>) -> Option<(Seq<u8>, Option<u16>)> {
    if text.contains('@' as u8) {
        None
    } else {
        host_of_authority(text)
    }
}

/// The text of a `Host` value.
pub open spec fn host_text(m: (Seq<u8>, Option<u16>)) -> Seq<u8> {
    authority_of(m.0, m.1)
}

impl Host {
    /// What this value stands for: the host, and the port.
    pub closed spec fn view(&self) -> (Seq<u8>, Option<u16>) {
        (encode_utf8(self.host@), self.port)
    }

    /// Creates a `Host` from a host name and an optional port. The two are
    /// put together and read as an authority, which may refuse them.
    #[inline]
    pub fn new(host: &str, port: Option<u16>) -> (r: Result<Host, Error>)
        ensures
            match r {
                Ok(v) => host_of_authority(authority_of(host.spec_bytes(), port)) == Some(v@),
                Err(e) => host_of_authority(authority_of(host.spec_bytes(), port)) is None && e
                    == Error(ErrorKind::InvalidValue),
            },
    {
        let mut text: Vec<u8> = Vec::new();
        push_all(&mut text, host.as_bytes());
        match port {
            Some(port) => {
                text.push(':' as u8);
                push_decimal(&mut text, port as u64);
            },
            None => {},
        }
        assert(text@ =~= authority_of(host.spec_bytes(), port));
        Self::from_authority_text(text.as_slice())
    }

    /// Creates a `Host` from the text of an authority.
    pub fn from_authority_text(text: &[u8]) -> (r: Result<Host, Error>)
        ensures
            match r {
                Ok(v) => host_of_authority(text@) == Some(v@),
                Err(e) => host_of_authority(text@) is None && e == Error(ErrorKind::InvalidValue),
            },
    {
        match authority_from_bytes(text) {
            None => Err(Error::invalid_value()),
            Some(authority) => {
                if !check_host_defined(text) {
                    return Err(Error::invalid_value());
                }
                Ok(Host::from_authority(&authority))
            },
        }
    }

    /// Creates a `Host` from an authority, which must have a host that can
    /// be told.
    ///
    /// The user information of the authority is not included.
    #[inline]
    pub fn from_authority(authority: &Authority) -> (r: Host)
        requires
            host_is_defined(authority_text(*authority)),
        ensures
            r@ == (host_part(authority_text(*authority)), port_part(authority_text(*authority))),
    {
        Host { host: authority_host(authority).to_owned(), port: authority_port(authority) }
    }

    /// Creates a `Host` from an authority, if it has a host that can be
    /// told.
    pub fn checked_from_authority(authority: &Authority) -> (r: Option<Host>)
        ensures
            match r {
                Some(v) => host_is_defined(authority_text(*authority)) && v@ == (
                    host_part(authority_text(*authority)),
                    port_part(authority_text(*authority)),
                ),
                None => !host_is_defined(authority_text(*authority)),
            },
    {
        if check_host_defined(authority_as_str(authority).as_bytes()) {
            Some(Host::from_authority(authority))
        } else {
            None
        }
    }

    /// Returns the host.
    #[inline]
    pub fn host(&self) -> (r: &str)
        ensures
            r.spec_bytes() == self@.0,
    {
        self.host.as_str()
    }

    /// Returns the port.
    #[inline]
    pub fn port(&self) -> (r: Option<u16>)
        ensures
            r == self@.1,
    {
        self.port
    }

    /// Appends the text of this value to `out`.
    pub fn write_to(&self, out: &mut Vec<u8>)
        ensures
            final(out)@ == old(out)@ + host_text(self@),
    {
        push_all(out, self.host.as_str().as_bytes());
        match self.port {
            Some(port) => {
                out.push(':' as u8);
                push_decimal(out, port as u64);
            },
            None => {},
        }
        assert(out@ =~= old(out)@ + host_text(self@));
    }

    /// The text of this value: the host, and the port after a colon.
    pub fn to_string(&self) -> (s: String)
        ensures
            encode_utf8(s@) == host_text(self@),
    {
        let mut out: Vec<u8> = Vec::new();
        self.write_to(&mut out);
        proof {
            vstd::utf8::encode_utf8_valid_utf8(self.host@);
            lemma_host_text_utf8(self@);
            assert(out@ =~= host_text(self@));
        }
        utf8_to_string(out)
    }
}

/// The text of a `Host` value whose host is well-formed UTF-8 is
/// well-formed UTF-8.
pub proof fn lemma_host_text_utf8(m: (Seq<u8>, Option<u16>))
    requires
        vstd::utf8::valid_utf8(m.0),
    ensures
        vstd::utf8::valid_utf8(host_text(m)),
{
    match m.1 {
        Some(p) => {
            lemma_decimal_digits_are_digits(p as nat);
            let tail = seq![':' as u8] + decimal_digits(p as nat);
            lemma_ascii_is_utf8(tail);
            vstd::utf8::valid_utf8_concat(m.0, tail);
            assert(host_text(m) =~= m.0 + tail);
        },
        None => {},
    }
}

impl Header for Host {
    type Model = (Seq<u8>, Option<u16>);

    open spec fn model(&self) -> (Seq<u8>, Option<u16>) {
        self@
    }

    open spec fn name_text() -> Seq<u8> {
        "host".spec_bytes()
    }

    open spec fn decoded(entries: Seq<Seq<u8>>) -> Result<
        Option<(Seq<u8>, Option<u16>)>,
        ErrorKind,
    > {
        if entries.len() == 0 {
            Ok(None)
        } else {
            match host_value(entries[0]) {
                Some(v) => Ok(Some(v)),
                None => Err(ErrorKind::InvalidValue),
            }
        }
    }

    open spec fn taken(entries: Seq<Seq<u8>>) -> nat {
        if entries.len() == 0 {
            0
        } else {
            1
        }
    }

    open spec fn encoded(m: (Seq<u8>, Option<u16>)) -> Option<Seq<Seq<u8>>> {
        if is_valid_value(host_text(m)) {
            Some(seq![host_text(m)])
        } else {
            None
        }
    }

    #[inline]
    fn name() -> (n: &'static str) {
        proof {
            reveal_strlit("host");
            crate::header::lemma_header_name("host");
        }
        "host"
    }

    #[inline]
    fn from_values(values: &mut Values) -> (r: Result<Option<Host>, Error>) {
        let value = match values.next() {
            Some(value) => value,
            None => {
                assert(old(values).remaining().skip(0) =~= old(values).remaining());
                return Ok(None);
            },
        };
        if contains_byte(value, '@' as u8) {
            return Err(Error::invalid_value());
        }
        match Host::from_authority_text(value) {
            Ok(host) => Ok(Some(host)),
            Err(e) => Err(e),
        }
    }

    #[inline]
    fn to_values(&self, values: &mut ToValues) -> (r: Result<(), Error>) {
        let mut out: Vec<u8> = Vec::new();
        self.write_to(&mut out);
        assert(out@ =~= host_text(self@));
        let r = values.append(out);
        proof {
            let t = host_text(self@);
            assert(old(values).entries().push(t) =~= old(values).entries() + seq![t]);
        }
        r
    }
}

} // verus!
