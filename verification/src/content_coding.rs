//! Content codings, as named in `Accept-Encoding` and `Content-Encoding`.

use vstd::prelude::*;
use vstd::string::StringSliceAdditionalSpecFns;
use vstd::utf8::encode_utf8;
use crate::error::{Error, ErrorKind};
use crate::laws::element_is_faithful;
use crate::quality::{
    item_text_is_faithful, law_quality_item_normal_form, lemma_token_is_faithful,
    lemma_weight_bounds, weight, QualityItem,
};
use crate::text::{bytes_eq_ignore_case, eq_ignore_case, lemma_to_lower_idempotent, lower, to_lower};
use crate::token::{lemma_lowered_token_is_token, lowered_token};
use crate::util::{is_tchar, is_token_text, FromHeaderValue, ToHeaderValue};

verus! {

#[derive(Debug, Clone, PartialEq, Eq)]
enum Inner {
    Brotli,
    Gzip,
    Deflate,
    Compress,
    Identity,
    Star,
    Other(String),
}

/// A content coding: one of the registered codings, the wildcard, or an
/// extension token.
#[derive(Debug, Clone, PartialEq, Eq)]
pub struct ContentCoding(Inner);

/// The registered spelling that `s` names, without regard to case: a
/// registered name or one of its aliases.
pub open spec fn registered_coding(s: Seq<u8>) -> Option<Seq<u8>> {
    if eq_ignore_case(s, "br".spec_bytes()) {
        Some("br".spec_bytes())
    } else if eq_ignore_case(s, "gzip".spec_bytes()) || eq_ignore_case(s, "x-gzip".spec_bytes()) {
        Some("gzip".spec_bytes())
    } else if eq_ignore_case(s, "deflate".spec_bytes()) {
        Some("deflate".spec_bytes())
    } else if eq_ignore_case(s, "compress".spec_bytes()) || eq_ignore_case(
        s,
        "x-compress".spec_bytes(),
    ) {
        Some("compress".spec_bytes())
    } else if eq_ignore_case(s, "identity".spec_bytes()) {
        Some("identity".spec_bytes())
    } else if eq_ignore_case(s, "*".spec_bytes()) {
        Some("*".spec_bytes())
    } else {
        None
    }
}

/// The canonical text of the coding that `s` names: the registered
/// spelling for a registered name or alias, the lower-case form for any
/// other token, and nothing for text that is no token.
pub open spec fn canonical_coding(s: Seq<u8>) -> Option<Seq<u8>> {
    match registered_coding(s) {
        Some(name) => Some(name),
        None => if is_token_text(s) {
            Some(to_lower(s))
        } else {
            None
        },
    }
}

impl ContentCoding {
    /// The Brotli coding, `br`.
    pub fn brotli() -> (r: ContentCoding)
        ensures
            r.text() == "br".spec_bytes(),
    {
        ContentCoding(Inner::Brotli)
    }

    /// The Gzip coding, `gzip`.
    pub fn gzip() -> (r: ContentCoding)
        ensures
            r.text() == "gzip".spec_bytes(),
    {
        ContentCoding(Inner::Gzip)
    }

    /// The Deflate coding, `deflate`.
    pub fn deflate() -> (r: ContentCoding)
        ensures
            r.text() == "deflate".spec_bytes(),
    {
        ContentCoding(Inner::Deflate)
    }

    /// The Compress coding, `compress`.
    pub fn compress() -> (r: ContentCoding)
        ensures
            r.text() == "compress".spec_bytes(),
    {
        ContentCoding(Inner::Compress)
    }

    /// The identity coding, `identity`.
    pub fn identity() -> (r: ContentCoding)
        ensures
            r.text() == "identity".spec_bytes(),
    {
        ContentCoding(Inner::Identity)
    }

    /// The wildcard `*`: every coding is acceptable.
    pub fn star() -> (r: ContentCoding)
        ensures
            r.text() == "*".spec_bytes(),
    {
        ContentCoding(Inner::Star)
    }

    /// The canonical text of this coding.
    pub closed spec fn text(&self) -> Seq<u8> {
        match self.0 {
            Inner::Brotli => "br".spec_bytes(),
            Inner::Gzip => "gzip".spec_bytes(),
            Inner::Deflate => "deflate".spec_bytes(),
            Inner::Compress => "compress".spec_bytes(),
            Inner::Identity => "identity".spec_bytes(),
            Inner::Star => "*".spec_bytes(),
            Inner::Other(s) => encode_utf8(s@),
        }
    }

    /// Constructs a coding from its name.
    ///
    /// An error is returned if the name is not a valid token.
    pub fn new(s: &str) -> (r: Result<ContentCoding, Error>)
        ensures
            match r {
                Ok(v) => canonical_coding(s.spec_bytes()) == Some(v.text()),
                Err(e) => canonical_coding(s.spec_bytes()) is None && e == Error(
                    ErrorKind::InvalidValue,
                ),
            },
    {
        Self::from_bytes(s.as_bytes())
    }

    /// Constructs a coding from the bytes of its name.
    pub fn from_bytes(s: &[u8]) -> (r: Result<ContentCoding, Error>)
        ensures
            match r {
                Ok(v) => canonical_coding(s@) == Some(v.text()),
                Err(e) => canonical_coding(s@) is None && e == Error(ErrorKind::InvalidValue),
            },
    {
        if bytes_eq_ignore_case(s, "br".as_bytes()) {
            return Ok(ContentCoding(Inner::Brotli));
        }
        if bytes_eq_ignore_case(s, "gzip".as_bytes()) {
            return Ok(ContentCoding(Inner::Gzip));
        }
        if bytes_eq_ignore_case(s, "x-gzip".as_bytes()) {
            return Ok(ContentCoding(Inner::Gzip));
        }
        if bytes_eq_ignore_case(s, "deflate".as_bytes()) {
            return Ok(ContentCoding(Inner::Deflate));
        }
        if bytes_eq_ignore_case(s, "compress".as_bytes()) {
            return Ok(ContentCoding(Inner::Compress));
        }
        if bytes_eq_ignore_case(s, "x-compress".as_bytes()) {
            return Ok(ContentCoding(Inner::Compress));
        }
        if bytes_eq_ignore_case(s, "identity".as_bytes()) {
            return Ok(ContentCoding(Inner::Identity));
        }
        if bytes_eq_ignore_case(s, "*".as_bytes()) {
            return Ok(ContentCoding(Inner::Star));
        }
        match lowered_token(s) {
            Some(name) => Ok(ContentCoding(Inner::Other(name))),
            None => Err(Error::invalid_value()),
        }
    }

    /// Returns the canonical text of this coding.
    pub fn as_str(&self) -> (r: &str)
        ensures
            r.spec_bytes() == self.text(),
    {
        match &self.0 {
            Inner::Brotli => "br",
            Inner::Gzip => "gzip",
            Inner::Deflate => "deflate",
            Inner::Compress => "compress",
            Inner::Identity => "identity",
            Inner::Star => "*",
            Inner::Other(s) => s.as_str(),
        }
    }
}

/// The bytes of the registered names and of their aliases.
proof fn lemma_registered_names()
    ensures
        "br".spec_bytes() == seq!['b' as u8, 'r' as u8],
        "gzip".spec_bytes() == seq!['g' as u8, 'z' as u8, 'i' as u8, 'p' as u8],
        "x-gzip".spec_bytes() == seq![
            'x' as u8,
            '-' as u8,
            'g' as u8,
            'z' as u8,
            'i' as u8,
            'p' as u8,
        ],
        "deflate".spec_bytes() == seq![
            'd' as u8,
            'e' as u8,
            'f' as u8,
            'l' as u8,
            'a' as u8,
            't' as u8,
            'e' as u8,
        ],
        "compress".spec_bytes() == seq![
            'c' as u8,
            'o' as u8,
            'm' as u8,
            'p' as u8,
            'r' as u8,
            'e' as u8,
            's' as u8,
            's' as u8,
        ],
        "x-compress".spec_bytes() == seq![
            'x' as u8,
            '-' as u8,
            'c' as u8,
            'o' as u8,
            'm' as u8,
            'p' as u8,
            'r' as u8,
            'e' as u8,
            's' as u8,
            's' as u8,
        ],
        "identity".spec_bytes() == seq![
            'i' as u8,
            'd' as u8,
            'e' as u8,
            'n' as u8,
            't' as u8,
            'i' as u8,
            't' as u8,
            'y' as u8,
        ],
        "*".spec_bytes() == seq!['*' as u8],
{
    broadcast use vstd::string::is_ascii_spec_bytes;
    reveal_strlit("br");
    reveal_strlit("gzip");
    reveal_strlit("x-gzip");
    reveal_strlit("deflate");
    reveal_strlit("compress");
    reveal_strlit("x-compress");
    reveal_strlit("identity");
    reveal_strlit("*");
    assert(vstd::string::is_ascii("br"));
    assert(vstd::string::is_ascii("gzip"));
    assert(vstd::string::is_ascii("x-gzip"));
    assert(vstd::string::is_ascii("deflate"));
    assert(vstd::string::is_ascii("compress"));
    assert(vstd::string::is_ascii("x-compress"));
    assert(vstd::string::is_ascii("identity"));
    assert(vstd::string::is_ascii("*"));
    assert("br".spec_bytes() =~= seq!['b' as u8, 'r' as u8]);
    assert("gzip".spec_bytes() =~= seq!['g' as u8, 'z' as u8, 'i' as u8, 'p' as u8]);
    assert("x-gzip".spec_bytes() =~= seq![
        'x' as u8,
        '-' as u8,
        'g' as u8,
        'z' as u8,
        'i' as u8,
        'p' as u8,
    ]);
    assert("deflate".spec_bytes() =~= seq![
        'd' as u8,
        'e' as u8,
        'f' as u8,
        'l' as u8,
        'a' as u8,
        't' as u8,
        'e' as u8,
    ]);
    assert("compress".spec_bytes() =~= seq![
        'c' as u8,
        'o' as u8,
        'm' as u8,
        'p' as u8,
        'r' as u8,
        'e' as u8,
        's' as u8,
        's' as u8,
    ]);
    assert("x-compress".spec_bytes() =~= seq![
        'x' as u8,
        '-' as u8,
        'c' as u8,
        'o' as u8,
        'm' as u8,
        'p' as u8,
        'r' as u8,
        'e' as u8,
        's' as u8,
        's' as u8,
    ]);
    assert("identity".spec_bytes() =~= seq![
        'i' as u8,
        'd' as u8,
        'e' as u8,
        'n' as u8,
        't' as u8,
        'i' as u8,
        't' as u8,
        'y' as u8,
    ]);
    assert("*".spec_bytes() =~= seq!['*' as u8]);
}

/// Texts that are equal without regard to case have the same length and,
/// place by place, the same lower-case byte.
proof fn lemma_eq_ignore_case(a: Seq<u8>, b: Seq<u8>)
    ensures
        eq_ignore_case(a, b) <==> a.len() == b.len() && forall|i: int|
            0 <= i < a.len() ==> lower(#[trigger] a[i]) == lower(b[i]),
{
    if eq_ignore_case(a, b) {
        assert(to_lower(a).len() == to_lower(b).len());
        assert forall|i: int| 0 <= i < a.len() implies lower(#[trigger] a[i])
            == lower(b[i]) by {
            assert(to_lower(a)[i] == to_lower(b)[i]);
        }
    }
    if a.len() == b.len() && forall|i: int|
        0 <= i < a.len() ==> lower(#[trigger] a[i]) == lower(b[i]) {
        assert(to_lower(a) =~= to_lower(b));
    }
}

/// A registered name names itself, and nothing before it in the order in
/// which names are looked up.
proof fn lemma_registered_is_canonical(name: Seq<u8>)
    requires
        name == "br".spec_bytes() || name == "gzip".spec_bytes() || name
            == "deflate".spec_bytes() || name == "compress".spec_bytes() || name
            == "identity".spec_bytes() || name == "*".spec_bytes(),
    ensures
        registered_coding(name) == Some(name),
{
    lemma_registered_names();
    lemma_eq_ignore_case(name, "br".spec_bytes());
    lemma_eq_ignore_case(name, "gzip".spec_bytes());
    lemma_eq_ignore_case(name, "x-gzip".spec_bytes());
    lemma_eq_ignore_case(name, "deflate".spec_bytes());
    lemma_eq_ignore_case(name, "compress".spec_bytes());
    lemma_eq_ignore_case(name, "x-compress".spec_bytes());
    lemma_eq_ignore_case(name, "identity".spec_bytes());
    lemma_eq_ignore_case(name, "*".spec_bytes());
    if name == "gzip".spec_bytes() {
        assert(name[0] == 'g' as u8);
    } else if name == "deflate".spec_bytes() {
        assert(name[0] == 'd' as u8);
    } else if name == "compress".spec_bytes() {
        assert(name[0] == 'c' as u8);
    } else if name == "identity".spec_bytes() {
        assert(name[0] == 'i' as u8);
    } else if name == "*".spec_bytes() {
        assert(name[0] == '*' as u8);
    }
}

/// Every spelling of a coding has the same canonical text, and that text
/// is a spelling of its own: an alias such as `x-gzip`, in any case, names
/// the coding that `gzip` names and is written `gzip`; a name read from its
/// canonical text is read as the same coding.
pub proof fn law_canonical_coding(s: Seq<u8>)
    ensures
        eq_ignore_case(s, "x-gzip".spec_bytes()) || eq_ignore_case(s, "gzip".spec_bytes())
            ==> canonical_coding(s) == Some("gzip".spec_bytes()),
        eq_ignore_case(s, "x-compress".spec_bytes()) || eq_ignore_case(
            s,
            "compress".spec_bytes(),
        ) ==> canonical_coding(s) == Some("compress".spec_bytes()),
        canonical_coding(s) matches Some(text) ==> canonical_coding(text) == Some(text),
{
    lemma_registered_names();
    lemma_eq_ignore_case(s, "br".spec_bytes());
    lemma_eq_ignore_case(s, "gzip".spec_bytes());
    lemma_eq_ignore_case(s, "x-gzip".spec_bytes());
    lemma_eq_ignore_case(s, "deflate".spec_bytes());
    lemma_eq_ignore_case(s, "compress".spec_bytes());
    lemma_eq_ignore_case(s, "x-compress".spec_bytes());
    lemma_eq_ignore_case(s, "identity".spec_bytes());
    lemma_eq_ignore_case(s, "*".spec_bytes());
    if eq_ignore_case(s, "x-gzip".spec_bytes()) || eq_ignore_case(s, "gzip".spec_bytes()) {
        assert(!eq_ignore_case(s, "br".spec_bytes()));
    }
    if eq_ignore_case(s, "x-compress".spec_bytes()) || eq_ignore_case(
        s,
        "compress".spec_bytes(),
    ) {
        assert(!eq_ignore_case(s, "br".spec_bytes()));
        assert(lower(s[0]) == 'x' as u8 || lower(s[0]) == 'c' as u8);
        assert(!eq_ignore_case(s, "gzip".spec_bytes()));
        if eq_ignore_case(s, "x-compress".spec_bytes()) {
            assert(lower(s[2]) == 'c' as u8);
        }
        assert(!eq_ignore_case(s, "x-gzip".spec_bytes()));
        assert(!eq_ignore_case(s, "deflate".spec_bytes()));
    }
    match canonical_coding(s) {
        None => {},
        Some(text) => {
            match registered_coding(s) {
                Some(name) => {
                    lemma_registered_is_canonical(name);
                },
                None => {
                    lemma_to_lower_idempotent(s);
                    lemma_lowered_token_is_token(s);
                    assert(registered_coding(to_lower(s)) is None);
                },
            }
        },
    }
}

/// A canonical text is a token, and so an item text that is read back as
/// the same coding, before a weight and in a list.
pub proof fn lemma_canonical_is_faithful(text: Seq<u8>)
    requires
        canonical_coding(text) == Some(text),
    ensures
        is_token_text(text),
        item_text_is_faithful::<ContentCoding>(text),
        element_is_faithful::<ContentCoding>(text),
{
    lemma_registered_names();
    assert(is_token_text(text)) by {
        match registered_coding(text) {
            Some(name) => {
                assert(name == text);
                assert forall|i: int| 0 <= i < text.len() implies is_tchar(#[trigger] text[i]) by {}
            },
            None => {},
        }
    }
    lemma_token_is_faithful::<ContentCoding>(text);
}

/// A weighted content coding that was read is written, and read back, as
/// it was read: reading brings every spelling of it to one normal form.
pub proof fn law_weighted_coding_normal_form(s: Seq<u8>)
    ensures
        <QualityItem<ContentCoding> as FromHeaderValue>::parsed(s) matches Some(v) ==> <QualityItem<
            ContentCoding,
        > as FromHeaderValue>::parsed(
            <QualityItem<ContentCoding> as ToHeaderValue>::rendered(v),
        ) == Some(v),
{
    match <QualityItem<ContentCoding> as FromHeaderValue>::parsed(s) {
        None => {},
        Some(v) => {
            lemma_weight_bounds(s);
            let inner = match weight(s) {
                Some((n, q)) => s.take(n as int),
                None => s,
            };
            assert(canonical_coding(inner) == Some(v.0));
            law_canonical_coding(inner);
            lemma_canonical_is_faithful(v.0);
            law_quality_item_normal_form::<ContentCoding>(s);
        },
    }
}

impl ToHeaderValue for ContentCoding {
    type Model = Seq<u8>;

    open spec fn model(&self) -> Seq<u8> {
        self.text()
    }

    open spec fn rendered(m: Seq<u8>) -> Seq<u8> {
        m
    }

    fn to_header_value(&self) -> (s: String) {
        self.as_str().to_owned()
    }
}

impl FromHeaderValue for ContentCoding {
    open spec fn parsed(s: Seq<u8>) -> Option<Seq<u8>> {
        canonical_coding(s)
    }

    fn from_header_value(s: &[u8]) -> (r: Result<Self, Error>) {
        Self::from_bytes(s)
    }
}

} // verus!
