//! The `Origin` header.

use vstd::prelude::*;
use vstd::string::StringSliceAdditionalSpecFns;
use vstd::utf8::{encode_utf8, valid_utf8};
use crate::error::{Error, ErrorKind};
use crate::header::Header;
use crate::host::{host_of_authority, host_text, Host};
use crate::text::{bytes_to_string, check_visible_ascii, is_visible_ascii, push_all};
use crate::util::{is_valid_value, ToValues, Values};

verus! {

/// The `Origin` header: the scheme and the host from which a request comes,
/// or `null` where the origin is hidden.
#[derive(PartialEq, Clone, Debug)]
pub struct Origin(OriginOrNull);

#[derive(PartialEq, Clone, Debug)]
enum OriginOrNull {
    Origin {
        /// The scheme, such as http or https.
        scheme: String,
        /// The host and the port.
        host: Host,
    },
    Null,
}

/// What an `Origin` stands for.
pub enum OriginModel {
    Origin { scheme: Seq<u8>, host: (Seq<u8>, Option<u16>) },
    Null,
}

/// The text `://`.
pub open spec fn scheme_mark() -> Seq<u8> {
    seq![':' as u8, '/' as u8, '/' as u8]
}

/// Index of the first `://` in `s`, or `s.len()` if there is none.
pub open spec fn scheme_end(s: Seq<u8>) -> nat
    decreases s.len(),
{
    if s.len() < 3 {
        s.len()
    } else if s.take(3) == scheme_mark() {
        0
    } else {
        1 + scheme_end(s.drop_first())
    }
}

/// The origin that `s` denotes: a scheme, `://`, and an authority with a
/// host.
pub open spec fn origin_value(s: Seq<u8>) -> Option<OriginModel> {
    let idx = scheme_end(s) as int;
    if idx >= s.len() {
        None
    } else {
        match host_of_authority(s.skip(idx + 3)) {
            Some(host) => if valid_utf8(s.take(idx)) {
                Some(OriginModel::Origin { scheme: s.take(idx), host })
            } else {
                None
            },
            None => None,
        }
    }
}

/// The text of an origin.
pub open spec fn origin_text(m: OriginModel) -> Seq<u8> {
    match m {
        OriginModel::Origin { scheme, host } => scheme + scheme_mark() + host_text(host),
        OriginModel::Null => "null".spec_bytes(),
    }
}

/// `scheme_end` is at most the length, and leaves room for the mark where
/// it is below the length.
pub proof fn lemma_scheme_end(s: Seq<u8>)
    ensures
        scheme_end(s) <= s.len(),
        scheme_end(s) < s.len() ==> scheme_end(s) + 3 <= s.len(),
    decreases s.len(),
{
    if s.len() >= 3 && s.take(3) != scheme_mark() {
        lemma_scheme_end(s.drop_first());
    }
}

/// Index of the first `://` in `s`, or `s.len()`.
pub fn find_scheme_end(s: &[u8]) -> (r: usize)
    ensures
        r == scheme_end(s@),
        r <= s@.len(),
        r < s@.len() ==> r + 3 <= s@.len(),
{
    let n = s.len();
    let mut i: usize = 0;
    assert(s@.skip(0) =~= s@);
    while n - i >= 3
        invariant
            i <= n,
            n == s@.len(),
            scheme_end(s@) == i + scheme_end(s@.skip(i as int)),
        decreases n - i,
    {
        let ghost rest = s@.skip(i as int);
        if s[i] == ':' as u8 && s[i + 1] == '/' as u8 && s[i + 2] == '/' as u8 {
            assert(rest.take(3) =~= scheme_mark());
            return i;
        }
        proof {
            assert(rest.take(3)[0] == s@[i as int]);
            assert(rest.take(3)[1] == s@[i + 1]);
            assert(rest.take(3)[2] == s@[i + 2]);
            assert(rest.drop_first() =~= s@.skip(i + 1));
        }
        i += 1;
    }
    proof {
        lemma_scheme_end(s@.skip(i as int));
    }
    n
}

impl Origin {
    /// What this value stands for.
    pub closed spec fn view(&self) -> OriginModel {
        match self.0 {
            OriginOrNull::Origin { scheme, host } => OriginModel::Origin {
                scheme: encode_utf8(scheme@),
                host: host@,
            },
            OriginOrNull::Null => OriginModel::Null,
        }
    }

    /// Creates a new `Origin` from a scheme, a host name and an optional
    /// port. The host name and the port are read as for [`Host::new`].
    pub fn new(scheme: &str, hostname: &str, port: Option<u16>) -> (r: Result<Origin, Error>)
        ensures
            match r {
                Ok(v) => host_of_authority(
                    crate::host::authority_of(hostname.spec_bytes(), port),
                ) matches Some(host) && v@ == (OriginModel::Origin {
                    scheme: scheme.spec_bytes(),
                    host,
                }),
                Err(e) => host_of_authority(
                    crate::host::authority_of(hostname.spec_bytes(), port),
                ) is None && e == Error(ErrorKind::InvalidValue),
            },
    {
        match Host::new(hostname, port) {
            Ok(host) => Ok(Origin(OriginOrNull::Origin { scheme: scheme.to_owned(), host })),
            Err(e) => Err(e),
        }
    }

    /// Creates a `null` origin.
    pub fn null() -> (r: Origin)
        ensures
            r@ == OriginModel::Null,
    {
        Origin(OriginOrNull::Null)
    }

    /// Checks whether this origin is `null`.
    pub fn is_null(&self) -> (r: bool)
        ensures
            r == (self@ is Null),
    {
        match &self.0 {
            OriginOrNull::Null => true,
            _ => false,
        }
    }

    /// The scheme, such as http or https.
    pub fn scheme(&self) -> (r: Option<&str>)
        ensures
            match r {
                Some(s) => self@ matches OriginModel::Origin { scheme, .. } && s.spec_bytes()
                    == scheme,
                None => self@ is Null,
            },
    {
        match &self.0 {
            OriginOrNull::Origin { scheme, .. } => Some(scheme.as_str()),
            _ => None,
        }
    }

    /// The host and the port.
    pub fn host(&self) -> (r: Option<&Host>)
        ensures
            match r {
                Some(h) => self@ matches OriginModel::Origin { host, .. } && h@ == host,
                None => self@ is Null,
            },
    {
        match &self.0 {
            OriginOrNull::Origin { host, .. } => Some(host),
            _ => None,
        }
    }

    /// Reads an origin.
    pub fn from_str(s: &str) -> (r: Result<Origin, Error>)
        ensures
            match r {
                Ok(v) => origin_value(s.spec_bytes()) == Some(v@),
                Err(e) => origin_value(s.spec_bytes()) is None && e == Error(
                    ErrorKind::InvalidValue,
                ),
            },
    {
        Self::from_bytes(s.as_bytes())
    }

    /// Reads an origin from its bytes.
    pub fn from_bytes(s: &[u8]) -> (r: Result<Origin, Error>)
        ensures
            match r {
                Ok(v) => origin_value(s@) == Some(v@),
                Err(e) => origin_value(s@) is None && e == Error(ErrorKind::InvalidValue),
            },
    {
        let idx = find_scheme_end(s);
        if idx >= s.len() {
            return Err(Error::invalid_value());
        }
        let scheme = vstd::slice::slice_subrange(s, 0, idx);
        let etc = vstd::slice::slice_subrange(s, idx + 3, s.len());
        let host = match Host::from_authority_text(etc) {
            Ok(host) => host,
            Err(e) => {
                return Err(e);
            },
        };
        match bytes_to_string(vstd::slice::slice_to_vec(scheme)) {
            Some(scheme) => Ok(Origin(OriginOrNull::Origin { scheme, host })),
            None => Err(Error::invalid_value()),
        }
    }

    /// The text of this origin.
    pub fn write(&self) -> (out: Vec<u8>)
        ensures
            out@ == origin_text(self@),
    {
        let mut out: Vec<u8> = Vec::new();
        match &self.0 {
            OriginOrNull::Origin { scheme, host } => {
                push_all(&mut out, scheme.as_str().as_bytes());
                out.push(':' as u8);
                out.push('/' as u8);
                out.push('/' as u8);
                host.write_to(&mut out);
                assert(out@ =~= origin_text(self@));
            },
            OriginOrNull::Null => {
                push_all(&mut out, "null".as_bytes());
                assert(out@ =~= origin_text(self@));
            },
        }
        out
    }
}

impl Header for Origin {
    type Model = OriginModel;

    open spec fn model(&self) -> OriginModel {
        self@
    }

    open spec fn name_text() -> Seq<u8> {
        "origin".spec_bytes()
    }

    /// Absent where there is no entry. An entry that is not visible ASCII is
    /// an invalid value; one that is visible but denotes no origin counts as
    /// absent.
    open spec fn decoded(entries: Seq<Seq<u8>>) -> Result<Option<OriginModel>, ErrorKind> {
        if entries.len() == 0 {
            Ok(None)
        } else if !is_visible_ascii(entries[0]) {
            Err(ErrorKind::InvalidValue)
        } else {
            Ok(origin_value(entries[0]))
        }
    }

    open spec fn taken(entries: Seq<Seq<u8>>) -> nat {
        if entries.len() == 0 {
            0
        } else {
            1
        }
    }

    open spec fn encoded(m: OriginModel) -> Option<Seq<Seq<u8>>> {
        if is_valid_value(origin_text(m)) {
            Some(seq![origin_text(m)])
        } else {
            None
        }
    }

    fn name() -> (n: &'static str) {
        proof {
            reveal_strlit("origin");
            crate::header::lemma_header_name("origin");
        }
        "origin"
    }

    fn from_values(values: &mut Values) -> (r: Result<Option<Origin>, Error>) {
        match values.next() {
            Some(line) => {
                if !check_visible_ascii(line) {
                    return Err(Error::invalid_value());
                }
                match Origin::from_bytes(line) {
                    Ok(v) => Ok(Some(v)),
                    Err(_) => Ok(None),
                }
            },
            None => {
                assert(old(values).remaining().skip(0) =~= old(values).remaining());
                Ok(None)
            },
        }
    }

    #[inline]
    fn to_values(&self, values: &mut ToValues) -> (r: Result<(), Error>) {
        let out = self.write();
        let r = values.append(out);
        proof {
            let t = origin_text(self@);
            assert(old(values).entries().push(t) =~= old(values).entries() + seq![t]);
        }
        r
    }
}

} // verus!
