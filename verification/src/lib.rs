//! Typed HTTP header values: grammar-aware decoding of raw header entries into
//! typed values, and encoding of typed values back into their wire form.
//!
//! The library takes a pedantic view of parsing: it supports what the HTTP
//! RFCs specify, and reports everything else as an error rather than guess.
//!
//! The core is the generic codec in [`util`] and the quality values in
//! [`quality`]; the headers of the catalog are built from the two. The
//! [`HeaderMapExt`] trait adds typed getters and setters to `http::HeaderMap`.

pub mod error;
pub mod text;
pub mod number;
pub mod util;
pub mod parsing;
pub mod laws;
pub mod quality;
pub mod quality_order;
pub mod header;
pub mod http_types;
pub mod header_map;
pub mod items;
pub mod content_length;
pub mod token;
pub mod content_coding;
pub mod auth_scheme;
pub mod charset;
pub mod range_unit;
pub mod token68;
pub mod credentials;
pub mod encoding;
pub mod vec_map;
pub mod range;
pub mod content_range;
pub mod strict_transport_security;
pub mod cache_control;
pub mod host;
pub mod origin;
pub mod http_date;
pub mod retry_after;
pub mod list_headers;
pub mod non_empty_list_headers;
pub mod single_headers;
pub mod vary;
pub mod access_control_allow_credentials;
pub mod access_control_allow_origin;
pub mod pragma;
pub mod referrer_policy;
pub mod set_cookie;
pub mod cookie;

pub use access_control_allow_credentials::AccessControlAllowCredentials;
pub use access_control_allow_origin::AccessControlAllowOrigin;
pub use auth_scheme::AuthScheme;
pub use cache_control::CacheDirective;
pub use charset::{Charset, InvalidCharset};
pub use content_coding::ContentCoding;
pub use content_length::ContentLength;
pub use content_range::ContentRangeSpec;
pub use cookie::{Cookie, CookieIter};
pub use credentials::Credentials;
pub use encoding::Encoding;
pub use error::{Error, ErrorKind};
pub use header::Header;
pub use header_map::HeaderMapExt;
pub use host::Host;
pub use http_date::HttpDate;
pub use list_headers::{
    Accept, AcceptEncoding, AcceptLanguage, AccessControlAllowHeaders, AccessControlAllowMethods,
    AccessControlExposeHeaders, AccessControlRequestHeaders, CacheControl,
};
pub use non_empty_list_headers::{AcceptCharset, AcceptRanges, ContentEncoding, ContentLanguage};
pub use origin::Origin;
pub use pragma::Pragma;
pub use quality::{Quality, QualityItem};
pub use range::{ByteRangeSpec, Range};
pub use range_unit::{InvalidRangeUnit, RangeUnit};
pub use referrer_policy::ReferrerPolicy;
pub use retry_after::RetryAfter;
pub use set_cookie::SetCookie;
pub use single_headers::{
    AccessControlMaxAge, AccessControlRequestMethod, Authorization, ContentLocation, ContentRange,
    ContentType, Expires, IfModifiedSince, Location, ProxyAuthorization, Referer, UserAgent,
};
pub use strict_transport_security::StrictTransportSecurity;
pub use token68::{InvalidToken68, Token68};
pub use util::{ToValues, Values};
pub use vary::Vary;
