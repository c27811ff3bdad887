//! The types of the `http` crate that the library lives with, and what is
//! taken for granted of them.
//!
//! Nothing in this file is proved. Each function here wraps one operation
//! of `http` and states what it does, as the source of `http` shows it; the
//! rest of the library is verified against these statements.

use vstd::prelude::*;
use vstd::string::StringSliceAdditionalSpecFns;
use http::header::{HeaderMap, HeaderName, HeaderValue};
use http::uri::Authority;
use http::Method;
use crate::header::is_header_name;
use crate::number::parse_decimal;
use crate::text::{index_of, is_alpha, is_digit, to_lower};
use crate::util::{is_valid_value, raw_entries};

verus! {

/// `http::header::HeaderMap`, held as an opaque value.
#[verifier::external_type_specification]
#[verifier::external_body]
#[verifier::reject_recursive_types(T)]
pub struct ExHeaderMap<T>(HeaderMap<T>);

/// `http::header::HeaderName`, held as an opaque value.
#[verifier::external_type_specification]
#[verifier::external_body]
pub struct ExHeaderName(HeaderName);

/// `http::header::HeaderValue`, held as an opaque value.
#[verifier::external_type_specification]
#[verifier::external_body]
pub struct ExHeaderValue(HeaderValue);

/// `http::Method`, held as an opaque value.
#[verifier::external_type_specification]
#[verifier::external_body]
pub struct ExMethod(Method);

/// `http::uri::Authority`, held as an opaque value.
#[verifier::external_type_specification]
#[verifier::external_body]
pub struct ExAuthority(Authority);

/// The text of a header name: what `HeaderName::as_str` returns.
pub uninterp spec fn name_text(name: HeaderName) -> Seq<u8>;

/// The bytes of a header value: what `HeaderValue::as_bytes` returns.
pub uninterp spec fn value_bytes(value: HeaderValue) -> Seq<u8>;

/// What a header map holds: for every name that it has an entry of, the
/// bytes of the values under that name, in the order in which they are
/// handed out.
pub uninterp spec fn map_entries(map: HeaderMap<HeaderValue>) -> Map<Seq<u8>, Seq<Seq<u8>>>;

/// The text of a method: what `Method::as_str` returns.
pub uninterp spec fn method_text(method: Method) -> Seq<u8>;

/// The text of an authority: what `Authority::as_str` returns.
pub uninterp spec fn authority_text(authority: Authority) -> Seq<u8>;

/// Whether `Authority::from_shared` accepts the text.
pub uninterp spec fn is_authority(s: Seq<u8>) -> bool;

/// The number of names that a header map can hold.
pub const MAX_NAMES: usize = 32768;

/// The values that `entries` holds under `name`; none where it has no
/// entry of that name.
pub open spec fn values_of(entries: Map<Seq<u8>, Seq<Seq<u8>>>, name: Seq<u8>) -> Seq<Seq<u8>> {
    if entries.contains_key(name) {
        entries[name]
    } else {
        Seq::empty()
    }
}

/// A byte that may stand in a method: a letter, a digit, or one of
/// ``!*+-.^_`|~``.
pub open spec fn is_method_byte(b: u8) -> bool {
    is_alpha(b) || is_digit(b) || b == '!' as u8 || b == '*' as u8 || b == '+' as u8 || b
        == '-' as u8 || b == '.' as u8 || b == '^' as u8 || b == '_' as u8 || b == '`' as u8 || b
        == '|' as u8 || b == '~' as u8
}

/// Text that is a method: one or more method bytes.
pub open spec fn is_method(s: Seq<u8>) -> bool {
    s.len() > 0 && forall|i: int| 0 <= i < s.len() ==> is_method_byte(#[trigger] s[i])
}

/// Index after the last occurrence of `b` in `s`; 0 if there is none.
pub open spec fn after_last(s: Seq<u8>, b: u8) -> nat
    decreases s.len(),
{
    if s.len() == 0 {
        0
    } else if s.last() == b {
        s.len()
    } else {
        after_last(s.drop_last(), b)
    }
}

/// The part of an authority after its user information.
pub open spec fn host_and_port(text: Seq<u8>) -> Seq<u8> {
    text.skip(after_last(text, '@' as u8) as int)
}

/// Whether an authority has a host that can be told: what follows the user
/// information is not empty, and an opening bracket at its start is closed.
pub open spec fn host_is_defined(text: Seq<u8>) -> bool {
    let hp = host_and_port(text);
    hp.len() > 0 && (hp[0] == '[' as u8 ==> hp.contains(']' as u8))
}

/// The host of an authority: an address in brackets with its brackets, or
/// what stands before the first colon.
pub open spec fn host_part(text: Seq<u8>) -> Seq<u8> {
    let hp = host_and_port(text);
    if hp.len() > 0 && hp[0] == '[' as u8 {
        hp.take(index_of(hp, ']' as u8) as int + 1)
    } else {
        hp.take(index_of(hp, ':' as u8) as int)
    }
}

/// The port of an authority: the number after the last colon, if there is
/// a colon and a number of 16 bits after it.
pub open spec fn port_part(text: Seq<u8>) -> Option<u16> {
    let i = after_last(text, ':' as u8);
    if i == 0 {
        None
    } else {
        match parse_decimal(text.skip(i as int), u16::MAX as nat) {
            Some(n) => Some(n as u16),
            None => None,
        }
    }
}

/// `HeaderName::from_bytes`: a name is made of text that is a header name,
/// and holds that text in lower case. Longer text makes the call panic, so
/// it is not admitted.
#[verifier::external_body]
pub(crate) fn header_name_from_bytes(src: &[u8]) -> (r: Option<HeaderName>)
    requires
        src@.len() < 65536,
    ensures
        r is Some <==> is_header_name(src@),
        r matches Some(n) ==> name_text(n) == to_lower(src@),
{
    HeaderName::from_bytes(src).ok()
}

/// `HeaderName::as_str`: the text of a name.
#[verifier::external_body]
pub(crate) fn header_name_as_str(name: &HeaderName) -> (r: &str)
    ensures
        r.spec_bytes() == name_text(*name),
{
    name.as_str()
}

/// `HeaderName`'s `Clone`: a name with the same text.
pub assume_specification[ <HeaderName as Clone>::clone ](name: &HeaderName) -> (r: HeaderName)
    ensures
        name_text(r) == name_text(*name),
;

/// `Method`'s `Clone`: a method with the same text.
pub assume_specification[ <Method as Clone>::clone ](method: &Method) -> (r: Method)
    ensures
        method_text(r) == method_text(*method),
;

/// `HeaderValue::from_bytes`: a value is made of bytes that a header value
/// may hold, and holds those bytes.
#[verifier::external_body]
pub(crate) fn header_value_from_bytes(src: &[u8]) -> (r: Option<HeaderValue>)
    ensures
        r is Some <==> is_valid_value(src@),
        r matches Some(v) ==> value_bytes(v) == src@,
{
    HeaderValue::from_bytes(src).ok()
}

/// `HeaderMap::get_all`: the values that the map holds under a name, each
/// as its bytes.
#[verifier::external_body]
pub(crate) fn map_get_all(map: &HeaderMap<HeaderValue>, name: &HeaderName) -> (r: Vec<Vec<u8>>)
    ensures
        raw_entries(r@) == values_of(map_entries(*map), name_text(*name)),
{
    map.get_all(name).iter().map(|v| v.as_bytes().to_vec()).collect()
}

/// `HeaderMap::contains_key`: whether the map has an entry of a name.
#[verifier::external_body]
pub(crate) fn map_contains_key(map: &HeaderMap<HeaderValue>, name: &HeaderName) -> (r: bool)
    ensures
        r == map_entries(*map).contains_key(name_text(*name)),
{
    map.contains_key(name)
}

/// `HeaderMap::keys_len`: the number of names that the map has an entry
/// of.
#[verifier::external_body]
pub(crate) fn map_keys_len(map: &HeaderMap<HeaderValue>) -> (r: usize)
    ensures
        r == map_entries(*map).dom().len(),
{
    map.keys_len()
}

/// `HeaderMap::insert`: the value becomes the only one under its name. A
/// new name for a map that is full makes the call panic, so it is not
/// admitted.
#[verifier::external_body]
pub(crate) fn map_insert(map: &mut HeaderMap<HeaderValue>, name: HeaderName, value: HeaderValue)
    requires
        map_entries(*old(map)).contains_key(name_text(name)) || map_entries(*old(map)).dom().len()
            < MAX_NAMES,
    ensures
        map_entries(*final(map)) == map_entries(*old(map)).insert(
            name_text(name),
            seq![value_bytes(value)],
        ),
{
    map.insert(name, value);
}

/// `HeaderMap::append`: the value becomes the last one under its name. A
/// new name for a map that is full makes the call panic, so it is not
/// admitted.
#[verifier::external_body]
pub(crate) fn map_append(map: &mut HeaderMap<HeaderValue>, name: HeaderName, value: HeaderValue)
    requires
        map_entries(*old(map)).contains_key(name_text(name)) || map_entries(*old(map)).dom().len()
            < MAX_NAMES,
    ensures
        map_entries(*final(map)) == map_entries(*old(map)).insert(
            name_text(name),
            values_of(map_entries(*old(map)), name_text(name)).push(value_bytes(value)),
        ),
{
    map.append(name, value);
}

/// `HeaderMap::remove`: no value is left under the name.
#[verifier::external_body]
pub(crate) fn map_remove(map: &mut HeaderMap<HeaderValue>, name: &HeaderName)
    ensures
        map_entries(*final(map)) == map_entries(*old(map)).remove(name_text(*name)),
{
    map.remove(name);
}

/// `Method::from_bytes`: a method is made of text that is a method, and
/// holds that text.
#[verifier::external_body]
pub(crate) fn method_from_bytes(src: &[u8]) -> (r: Option<Method>)
    ensures
        r is Some <==> is_method(src@),
        r matches Some(m) ==> method_text(m) == src@,
{
    Method::from_bytes(src).ok()
}

/// `Method::as_str`: the text of a method.
#[verifier::external_body]
pub(crate) fn method_as_str(method: &Method) -> (r: &str)
    ensures
        r.spec_bytes() == method_text(*method),
{
    method.as_str()
}

/// `Authority::from_shared`: an authority is made of the text that the
/// call accepts, and holds that text.
#[verifier::external_body]
pub(crate) fn authority_from_bytes(src: &[u8]) -> (r: Option<Authority>)
    ensures
        r is Some <==> is_authority(src@),
        r matches Some(a) ==> authority_text(a) == src@,
{
    Authority::from_shared(bytes::Bytes::from(src)).ok()
}

/// `Authority::as_str`: the text of an authority.
#[verifier::external_body]
pub(crate) fn authority_as_str(authority: &Authority) -> (r: &str)
    ensures
        r.spec_bytes() == authority_text(*authority),
{
    authority.as_str()
}

/// `Authority::host`: the host of an authority. An authority without a
/// host that can be told makes the call panic, so it is not admitted.
#[verifier::external_body]
pub(crate) fn authority_host(authority: &Authority) -> (r: &str)
    requires
        host_is_defined(authority_text(*authority)),
    ensures
        r.spec_bytes() == host_part(authority_text(*authority)),
{
    authority.host()
}

/// `Authority::port_u16`: the port of an authority.
#[verifier::external_body]
pub(crate) fn authority_port(authority: &Authority) -> (r: Option<u16>)
    ensures
        r == port_part(authority_text(*authority)),
{
    authority.port_u16()
}

} // verus!
