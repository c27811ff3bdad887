//! Transfer codings, as named in `TE` and `Transfer-Encoding`.

use vstd::prelude::*;
use vstd::string::StringSliceAdditionalSpecFns;
use vstd::utf8::encode_utf8;
use crate::text::bytes_eq;

verus! {

#[derive(Debug, Clone, PartialEq, Eq)]
enum Inner {
    Chunked,
    Brotli,
    Gzip,
    Deflate,
    Compress,
    Identity,
    Trailers,
    Other(String),
}

/// A transfer coding: one of the registered codings, or any other name.
#[derive(Debug, Clone, PartialEq, Eq)]
pub struct Encoding(Inner);

impl Encoding {
    /// The name of this coding.
    pub closed spec fn text(&self) -> Seq<u8> {
        match self.0 {
            Inner::Chunked => "chunked".spec_bytes(),
            Inner::Brotli => "br".spec_bytes(),
            Inner::Gzip => "gzip".spec_bytes(),
            Inner::Deflate => "deflate".spec_bytes(),
            Inner::Compress => "compress".spec_bytes(),
            Inner::Identity => "identity".spec_bytes(),
            Inner::Trailers => "trailers".spec_bytes(),
            Inner::Other(s) => encode_utf8(s@),
        }
    }

    /// Whether this coding is none of the registered ones.
    pub closed spec fn is_other(&self) -> bool {
        self.0 is Other
    }

    /// Whether `s` is the name of a registered coding, in lower case.
    pub open spec fn is_registered(s: Seq<u8>) -> bool {
        s == "chunked".spec_bytes() || s == "br".spec_bytes() || s == "gzip".spec_bytes() || s
            == "deflate".spec_bytes() || s == "compress".spec_bytes() || s
            == "identity".spec_bytes() || s == "trailers".spec_bytes()
    }

    /// The coding `chunked`.
    pub fn chunked() -> (r: Encoding)
        ensures
            r.text() == "chunked".spec_bytes(),
            !r.is_other(),
    {
        Encoding(Inner::Chunked)
    }

    /// The coding `br`.
    pub fn brotli() -> (r: Encoding)
        ensures
            r.text() == "br".spec_bytes(),
            !r.is_other(),
    {
        Encoding(Inner::Brotli)
    }

    /// The coding `gzip`.
    pub fn gzip() -> (r: Encoding)
        ensures
            r.text() == "gzip".spec_bytes(),
            !r.is_other(),
    {
        Encoding(Inner::Gzip)
    }

    /// The coding `deflate`.
    pub fn deflate() -> (r: Encoding)
        ensures
            r.text() == "deflate".spec_bytes(),
            !r.is_other(),
    {
        Encoding(Inner::Deflate)
    }

    /// The coding `compress`.
    pub fn compress() -> (r: Encoding)
        ensures
            r.text() == "compress".spec_bytes(),
            !r.is_other(),
    {
        Encoding(Inner::Compress)
    }

    /// The coding `identity`.
    pub fn identity() -> (r: Encoding)
        ensures
            r.text() == "identity".spec_bytes(),
            !r.is_other(),
    {
        Encoding(Inner::Identity)
    }

    /// The coding `trailers`.
    pub fn trailers() -> (r: Encoding)
        ensures
            r.text() == "trailers".spec_bytes(),
            !r.is_other(),
    {
        Encoding(Inner::Trailers)
    }

    /// The coding of the given name. A registered name, in lower case,
    /// gives the registered coding; every other name is kept as it is.
    pub fn new(encoding: &str) -> (r: Encoding)
        ensures
            r.text() == encoding.spec_bytes(),
            r.is_other() <==> !Self::is_registered(encoding.spec_bytes()),
    {
        let b = encoding.as_bytes();
        if bytes_eq(b, "chunked".as_bytes()) {
            Encoding(Inner::Chunked)
        } else if bytes_eq(b, "br".as_bytes()) {
            Encoding(Inner::Brotli)
        } else if bytes_eq(b, "gzip".as_bytes()) {
            Encoding(Inner::Gzip)
        } else if bytes_eq(b, "deflate".as_bytes()) {
            Encoding(Inner::Deflate)
        } else if bytes_eq(b, "compress".as_bytes()) {
            Encoding(Inner::Compress)
        } else if bytes_eq(b, "identity".as_bytes()) {
            Encoding(Inner::Identity)
        } else if bytes_eq(b, "trailers".as_bytes()) {
            Encoding(Inner::Trailers)
        } else {
            Encoding(Inner::Other(encoding.to_owned()))
        }
    }

    /// Returns the name of this coding.
    pub fn as_str(&self) -> (r: &str)
        ensures
            r.spec_bytes() == self.text(),
    {
        match &self.0 {
            Inner::Chunked => "chunked",
            Inner::Brotli => "br",
            Inner::Gzip => "gzip",
            Inner::Deflate => "deflate",
            Inner::Compress => "compress",
            Inner::Identity => "identity",
            Inner::Trailers => "trailers",
            Inner::Other(s) => s.as_str(),
        }
    }

    /// The name of this coding, as a string of its own.
    pub fn to_string(&self) -> (s: String)
        ensures
            encode_utf8(s@) == self.text(),
    {
        self.as_str().to_owned()
    }
}

} // verus!
