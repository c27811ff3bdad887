//! Character sets, as named in `Accept-Charset` and in extended parameter
//! values.

use vstd::prelude::*;
use vstd::string::StringSliceAdditionalSpecFns;
use vstd::utf8::encode_utf8;
use crate::error::Error;
use crate::text::{bytes_eq_ignore_case, eq_ignore_case, lemma_to_lower_idempotent, to_lower};
use crate::token::{lemma_lowered_token_is_token, lemma_token_literal, lowered_token};
use crate::util::{is_token_text, FromHeaderValue, ToHeaderValue};

verus! {

/// Number of registered charsets.
pub const REGISTERED_CHARSETS: u8 = 32;

#[derive(Debug, Clone, PartialEq, Eq)]
enum Inner {
    Registered(u8),
    Other(String),
}

/// A character set: one of the registered names, or an extension token.
#[derive(Debug, Clone, PartialEq, Eq)]
pub struct Charset(Inner);

/// The error of a charset name that is no token.
#[derive(Debug)]
pub struct InvalidCharset(());

/// The registered charset names, in the order in which a name is looked up.
pub open spec fn registered_charset(i: u8) -> Seq<u8> {
    match i {
        0 => "*".spec_bytes(),
        1 => "us-ascii".spec_bytes(),
        2 => "iso-8859-1".spec_bytes(),
        3 => "iso-8859-2".spec_bytes(),
        4 => "iso-8859-3".spec_bytes(),
        5 => "iso-8859-4".spec_bytes(),
        6 => "iso-8859-5".spec_bytes(),
        7 => "iso-8859-6".spec_bytes(),
        8 => "iso-8859-7".spec_bytes(),
        9 => "iso-8859-8".spec_bytes(),
        10 => "iso-8859-9".spec_bytes(),
        11 => "iso-8859-10".spec_bytes(),
        12 => "shift-jis".spec_bytes(),
        13 => "euc-jp".spec_bytes(),
        14 => "iso-2022-kr".spec_bytes(),
        15 => "euc-kr".spec_bytes(),
        16 => "iso-2022-jp".spec_bytes(),
        17 => "iso-2022-jp-2".spec_bytes(),
        18 => "iso-8859-6-e".spec_bytes(),
        19 => "iso-8859-6-i".spec_bytes(),
        20 => "iso-8859-8-e".spec_bytes(),
        21 => "iso-8859-8-i".spec_bytes(),
        22 => "utf-8".spec_bytes(),
        23 => "utf-16be".spec_bytes(),
        24 => "utf-16le".spec_bytes(),
        25 => "utf-16".spec_bytes(),
        26 => "utf-32".spec_bytes(),
        27 => "utf-32be".spec_bytes(),
        28 => "utf-32le".spec_bytes(),
        29 => "gb2312".spec_bytes(),
        30 => "big5".spec_bytes(),
        _ => "koi8-r".spec_bytes(),
    }
}

/// Index of the first registered name that equals `s` without regard to
/// case, looking at the names below `limit` only; `limit` if there is none.
pub open spec fn registered_index(s: Seq<u8>, limit: int) -> int
    decreases limit,
{
    if limit <= 0 {
        0
    } else {
        let i = registered_index(s, limit - 1);
        if i < limit - 1 {
            i
        } else if eq_ignore_case(s, registered_charset((limit - 1) as u8)) {
            limit - 1
        } else {
            limit
        }
    }
}

/// The text of the charset that `s` names: the registered spelling where
/// `s` is a registered name in any case, the lower-case form of `s` where it
/// is another token, and nothing for text that is no token.
pub open spec fn charset_text(s: Seq<u8>) -> Option<Seq<u8>> {
    let i = registered_index(s, REGISTERED_CHARSETS as int);
    if i < REGISTERED_CHARSETS {
        Some(registered_charset(i as u8))
    } else if is_token_text(s) {
        Some(to_lower(s))
    } else {
        None
    }
}

/// The registered charset name of index `i`.
fn registered_name(i: u8) -> (r: &'static str)
    ensures
        r.spec_bytes() == registered_charset(i),
{
    match i {
        0 => "*",
        1 => "us-ascii",
        2 => "iso-8859-1",
        3 => "iso-8859-2",
        4 => "iso-8859-3",
        5 => "iso-8859-4",
        6 => "iso-8859-5",
        7 => "iso-8859-6",
        8 => "iso-8859-7",
        9 => "iso-8859-8",
        10 => "iso-8859-9",
        11 => "iso-8859-10",
        12 => "shift-jis",
        13 => "euc-jp",
        14 => "iso-2022-kr",
        15 => "euc-kr",
        16 => "iso-2022-jp",
        17 => "iso-2022-jp-2",
        18 => "iso-8859-6-e",
        19 => "iso-8859-6-i",
        20 => "iso-8859-8-e",
        21 => "iso-8859-8-i",
        22 => "utf-8",
        23 => "utf-16be",
        24 => "utf-16le",
        25 => "utf-16",
        26 => "utf-32",
        27 => "utf-32be",
        28 => "utf-32le",
        29 => "gb2312",
        30 => "big5",
        _ => "koi8-r",
    }
}

impl Charset {
    /// The text of this charset.
    pub closed spec fn text(&self) -> Seq<u8> {
        match self.0 {
            Inner::Registered(i) => registered_charset(i),
            Inner::Other(s) => encode_utf8(s@),
        }
    }

    /// The charset `*`.
    pub fn star() -> (r: Charset)
        ensures
            r.text() == registered_charset(0),
    {
        Charset(Inner::Registered(0))
    }

    /// The charset `us-ascii`.
    pub fn us_ascii() -> (r: Charset)
        ensures
            r.text() == registered_charset(1),
    {
        Charset(Inner::Registered(1))
    }

    /// The charset `iso-8859-1`.
    pub fn iso_8859_1() -> (r: Charset)
        ensures
            r.text() == registered_charset(2),
    {
        Charset(Inner::Registered(2))
    }

    /// The charset `iso-8859-2`.
    pub fn iso_8859_2() -> (r: Charset)
        ensures
            r.text() == registered_charset(3),
    {
        Charset(Inner::Registered(3))
    }

    /// The charset `iso-8859-3`.
    pub fn iso_8859_3() -> (r: Charset)
        ensures
            r.text() == registered_charset(4),
    {
        Charset(Inner::Registered(4))
    }

    /// The charset `iso-8859-4`.
    pub fn iso_8859_4() -> (r: Charset)
        ensures
            r.text() == registered_charset(5),
    {
        Charset(Inner::Registered(5))
    }

    /// The charset `iso-8859-5`.
    pub fn iso_8859_5() -> (r: Charset)
        ensures
            r.text() == registered_charset(6),
    {
        Charset(Inner::Registered(6))
    }

    /// The charset `iso-8859-6`.
    pub fn iso_8859_6() -> (r: Charset)
        ensures
            r.text() == registered_charset(7),
    {
        Charset(Inner::Registered(7))
    }

    /// The charset `iso-8859-7`.
    pub fn iso_8859_7() -> (r: Charset)
        ensures
            r.text() == registered_charset(8),
    {
        Charset(Inner::Registered(8))
    }

    /// The charset `iso-8859-8`.
    pub fn iso_8859_8() -> (r: Charset)
        ensures
            r.text() == registered_charset(9),
    {
        Charset(Inner::Registered(9))
    }

    /// The charset `iso-8859-9`.
    pub fn iso_8859_9() -> (r: Charset)
        ensures
            r.text() == registered_charset(10),
    {
        Charset(Inner::Registered(10))
    }

    /// The charset `iso-8859-10`.
    pub fn iso_8859_10() -> (r: Charset)
        ensures
            r.text() == registered_charset(11),
    {
        Charset(Inner::Registered(11))
    }

    /// The charset `shift-jis`.
    pub fn shift_jis() -> (r: Charset)
        ensures
            r.text() == registered_charset(12),
    {
        Charset(Inner::Registered(12))
    }

    /// The charset `euc-jp`.
    pub fn euc_jp() -> (r: Charset)
        ensures
            r.text() == registered_charset(13),
    {
        Charset(Inner::Registered(13))
    }

    /// The charset `iso-2022-kr`.
    pub fn iso_2022_kr() -> (r: Charset)
        ensures
            r.text() == registered_charset(14),
    {
        Charset(Inner::Registered(14))
    }

    /// The charset `euc-kr`.
    pub fn euc_kr() -> (r: Charset)
        ensures
            r.text() == registered_charset(15),
    {
        Charset(Inner::Registered(15))
    }

    /// The charset `iso-2022-jp`.
    pub fn iso_2022_jp() -> (r: Charset)
        ensures
            r.text() == registered_charset(16),
    {
        Charset(Inner::Registered(16))
    }

    /// The charset `iso-2022-jp-2`.
    pub fn iso_2022_jp_2() -> (r: Charset)
        ensures
            r.text() == registered_charset(17),
    {
        Charset(Inner::Registered(17))
    }

    /// The charset `iso-8859-6-e`.
    pub fn iso_8859_6_e() -> (r: Charset)
        ensures
            r.text() == registered_charset(18),
    {
        Charset(Inner::Registered(18))
    }

    /// The charset `iso-8859-6-i`.
    pub fn iso_8859_6_i() -> (r: Charset)
        ensures
            r.text() == registered_charset(19),
    {
        Charset(Inner::Registered(19))
    }

    /// The charset `iso-8859-8-e`.
    pub fn iso_8859_8_e() -> (r: Charset)
        ensures
            r.text() == registered_charset(20),
    {
        Charset(Inner::Registered(20))
    }

    /// The charset `iso-8859-8-i`.
    pub fn iso_8859_8_i() -> (r: Charset)
        ensures
            r.text() == registered_charset(21),
    {
        Charset(Inner::Registered(21))
    }

    /// The charset `utf-8`.
    pub fn utf_8() -> (r: Charset)
        ensures
            r.text() == registered_charset(22),
    {
        Charset(Inner::Registered(22))
    }

    /// The charset `utf-16be`.
    pub fn utf_16be() -> (r: Charset)
        ensures
            r.text() == registered_charset(23),
    {
        Charset(Inner::Registered(23))
    }

    /// The charset `utf-16le`.
    pub fn utf_16le() -> (r: Charset)
        ensures
            r.text() == registered_charset(24),
    {
        Charset(Inner::Registered(24))
    }

    /// The charset `utf-16`.
    pub fn utf_16() -> (r: Charset)
        ensures
            r.text() == registered_charset(25),
    {
        Charset(Inner::Registered(25))
    }

    /// The charset `utf-32`.
    pub fn utf_32() -> (r: Charset)
        ensures
            r.text() == registered_charset(26),
    {
        Charset(Inner::Registered(26))
    }

    /// The charset `utf-32be`.
    pub fn utf_32be() -> (r: Charset)
        ensures
            r.text() == registered_charset(27),
    {
        Charset(Inner::Registered(27))
    }

    /// The charset `utf-32le`.
    pub fn utf_32le() -> (r: Charset)
        ensures
            r.text() == registered_charset(28),
    {
        Charset(Inner::Registered(28))
    }

    /// The charset `gb2312`.
    pub fn gb2312() -> (r: Charset)
        ensures
            r.text() == registered_charset(29),
    {
        Charset(Inner::Registered(29))
    }

    /// The charset `big5`.
    pub fn big5() -> (r: Charset)
        ensures
            r.text() == registered_charset(30),
    {
        Charset(Inner::Registered(30))
    }

    /// The charset `koi8-r`.
    pub fn koi8_r() -> (r: Charset)
        ensures
            r.text() == registered_charset(31),
    {
        Charset(Inner::Registered(31))
    }

    /// Constructs a charset from its name.
    ///
    /// An error is returned if the name is not a valid token.
    pub fn new(charset: &str) -> (r: Result<Charset, InvalidCharset>)
        ensures
            match r {
                Ok(v) => charset_text(charset.spec_bytes()) == Some(v.text()),
                Err(_) => charset_text(charset.spec_bytes()) is None,
            },
    {
        Self::from_bytes(charset.as_bytes())
    }

    /// Constructs a charset from the bytes of its name.
    pub fn from_bytes(s: &[u8]) -> (r: Result<Charset, InvalidCharset>)
        ensures
            match r {
                Ok(v) => charset_text(s@) == Some(v.text()),
                Err(_) => charset_text(s@) is None,
            },
    {
        let mut i: u8 = 0;
        while i < REGISTERED_CHARSETS
            invariant
                i <= REGISTERED_CHARSETS,
                registered_index(s@, i as int) == i,
            decreases REGISTERED_CHARSETS - i,
        {
            if bytes_eq_ignore_case(s, registered_name(i).as_bytes()) {
                proof {
                    lemma_registered_index_found(s@, i as int, REGISTERED_CHARSETS as int);
                }
                return Ok(Charset(Inner::Registered(i)));
            }
            i += 1;
        }
        match lowered_token(s) {
            Some(name) => Ok(Charset(Inner::Other(name))),
            None => Err(InvalidCharset(())),
        }
    }

    /// Returns the text of this charset.
    pub fn as_str(&self) -> (r: &str)
        ensures
            r.spec_bytes() == self.text(),
    {
        match &self.0 {
            Inner::Registered(i) => registered_name(*i),
            Inner::Other(s) => s.as_str(),
        }
    }
}

/// A name found below some limit is the name found below every larger
/// limit.
proof fn lemma_registered_index_found(s: Seq<u8>, i: int, limit: int)
    requires
        0 <= i < limit <= 256,
        registered_index(s, i) == i,
        eq_ignore_case(s, registered_charset(i as u8)),
    ensures
        registered_index(s, limit) == i,
    decreases limit - i,
{
    if limit > i + 1 {
        lemma_registered_index_found(s, i, limit - 1);
    }
}

/// What the index of a name says: the name at the index equals the text
/// without regard to case, and no name before it does; or, where the index
/// is the limit, no name below the limit does.
proof fn lemma_registered_index(s: Seq<u8>, limit: int)
    requires
        0 <= limit <= 256,
    ensures
        0 <= registered_index(s, limit) <= limit,
        forall|k: int|
            0 <= k < registered_index(s, limit) ==> !eq_ignore_case(
                s,
                #[trigger] registered_charset(k as u8),
            ),
        registered_index(s, limit) < limit ==> eq_ignore_case(
            s,
            registered_charset(registered_index(s, limit) as u8),
        ),
    decreases limit,
{
    if limit > 0 {
        lemma_registered_index(s, limit - 1);
    }
}

/// Texts that are equal without regard to case name the same charset.
proof fn lemma_same_registered_index(s: Seq<u8>, t: Seq<u8>, limit: int)
    requires
        0 <= limit <= 256,
        eq_ignore_case(s, t),
    ensures
        registered_index(s, limit) == registered_index(t, limit),
    decreases limit,
{
    if limit > 0 {
        lemma_same_registered_index(s, t, limit - 1);
    }
}

/// Every registered charset name is a token.
proof fn lemma_registered_charsets_are_tokens(i: u8)
    ensures
        is_token_text(registered_charset(i)),
{
    match i {
        0 => {
            reveal_strlit("*");
            lemma_token_literal("*");
        },
        1 => {
            reveal_strlit("us-ascii");
            lemma_token_literal("us-ascii");
        },
        2 => {
            reveal_strlit("iso-8859-1");
            lemma_token_literal("iso-8859-1");
        },
        3 => {
            reveal_strlit("iso-8859-2");
            lemma_token_literal("iso-8859-2");
        },
        4 => {
            reveal_strlit("iso-8859-3");
            lemma_token_literal("iso-8859-3");
        },
        5 => {
            reveal_strlit("iso-8859-4");
            lemma_token_literal("iso-8859-4");
        },
        6 => {
            reveal_strlit("iso-8859-5");
            lemma_token_literal("iso-8859-5");
        },
        7 => {
            reveal_strlit("iso-8859-6");
            lemma_token_literal("iso-8859-6");
        },
        8 => {
            reveal_strlit("iso-8859-7");
            lemma_token_literal("iso-8859-7");
        },
        9 => {
            reveal_strlit("iso-8859-8");
            lemma_token_literal("iso-8859-8");
        },
        10 => {
            reveal_strlit("iso-8859-9");
            lemma_token_literal("iso-8859-9");
        },
        11 => {
            reveal_strlit("iso-8859-10");
            lemma_token_literal("iso-8859-10");
        },
        12 => {
            reveal_strlit("shift-jis");
            lemma_token_literal("shift-jis");
        },
        13 => {
            reveal_strlit("euc-jp");
            lemma_token_literal("euc-jp");
        },
        14 => {
            reveal_strlit("iso-2022-kr");
            lemma_token_literal("iso-2022-kr");
        },
        15 => {
            reveal_strlit("euc-kr");
            lemma_token_literal("euc-kr");
        },
        16 => {
            reveal_strlit("iso-2022-jp");
            lemma_token_literal("iso-2022-jp");
        },
        17 => {
            reveal_strlit("iso-2022-jp-2");
            lemma_token_literal("iso-2022-jp-2");
        },
        18 => {
            reveal_strlit("iso-8859-6-e");
            lemma_token_literal("iso-8859-6-e");
        },
        19 => {
            reveal_strlit("iso-8859-6-i");
            lemma_token_literal("iso-8859-6-i");
        },
        20 => {
            reveal_strlit("iso-8859-8-e");
            lemma_token_literal("iso-8859-8-e");
        },
        21 => {
            reveal_strlit("iso-8859-8-i");
            lemma_token_literal("iso-8859-8-i");
        },
        22 => {
            reveal_strlit("utf-8");
            lemma_token_literal("utf-8");
        },
        23 => {
            reveal_strlit("utf-16be");
            lemma_token_literal("utf-16be");
        },
        24 => {
            reveal_strlit("utf-16le");
            lemma_token_literal("utf-16le");
        },
        25 => {
            reveal_strlit("utf-16");
            lemma_token_literal("utf-16");
        },
        26 => {
            reveal_strlit("utf-32");
            lemma_token_literal("utf-32");
        },
        27 => {
            reveal_strlit("utf-32be");
            lemma_token_literal("utf-32be");
        },
        28 => {
            reveal_strlit("utf-32le");
            lemma_token_literal("utf-32le");
        },
        29 => {
            reveal_strlit("gb2312");
            lemma_token_literal("gb2312");
        },
        30 => {
            reveal_strlit("big5");
            lemma_token_literal("big5");
        },
        _ => {
            reveal_strlit("koi8-r");
            lemma_token_literal("koi8-r");
        },
    }
}

/// The text of a charset is a text of its own: a name that is read from
/// the text of a charset names that charset. The text is a token.
pub proof fn law_canonical_charset(s: Seq<u8>)
    ensures
        charset_text(s) matches Some(text) ==> charset_text(text) == Some(text) && is_token_text(
            text,
        ),
{
    let n = REGISTERED_CHARSETS as int;
    lemma_registered_index(s, n);
    match charset_text(s) {
        None => {},
        Some(text) => {
            let i = registered_index(s, n);
            if i < n {
                lemma_same_registered_index(s, text, n);
                lemma_registered_charsets_are_tokens(i as u8);
            } else {
                lemma_to_lower_idempotent(s);
                assert(eq_ignore_case(s, text)) by {
                    assert(to_lower(text) =~= to_lower(s));
                }
                lemma_same_registered_index(s, text, n);
                lemma_lowered_token_is_token(s);
            }
        },
    }
}

impl InvalidCharset {
    /// What this error says.
    pub fn to_string(&self) -> (s: String)
        ensures
            s@ == "invalid charset"@,
    {
        "invalid charset".to_owned()
    }
}

impl ToHeaderValue for Charset {
    type Model = Seq<u8>;

    open spec fn model(&self) -> Seq<u8> {
        self.text()
    }

    open spec fn rendered(m: Seq<u8>) -> Seq<u8> {
        m
    }

    fn to_header_value(&self) -> (s: String) {
        self.as_str().to_owned()
    }
}

impl FromHeaderValue for Charset {
    open spec fn parsed(s: Seq<u8>) -> Option<Seq<u8>> {
        charset_text(s)
    }

    fn from_header_value(s: &[u8]) -> (r: Result<Self, Error>) {
        match Self::from_bytes(s) {
            Ok(v) => Ok(v),
            Err(_) => Err(Error::invalid_value()),
        }
    }
}

} // verus!
