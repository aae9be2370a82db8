//! What sticky sessions and routing read off the headers of a request.

use std::borrow::Cow;

use vstd::prelude::*;
use vstd::string::*;

use crate::request;
use crate::sticky::MAX_AFFINITY_KEY_LEN;
use crate::text;

pub mod laws;

verus! {

/// The header map of the `http` crate.
#[verifier::external_type_specification]
#[verifier::external_body]
#[verifier::reject_recursive_types(T)]
pub struct ExHeaderMap<T>(http::HeaderMap<T>);

/// A header's value in the `http` crate.
#[verifier::external_type_specification]
#[verifier::external_body]
pub struct ExHeaderValue(http::HeaderValue);

/// What a header map holds: for each header name that `get` can look up, in small letters, the
/// bytes of its values in the order in which they were added.
pub uninterp spec fn header_values(headers: http::HeaderMap<http::HeaderValue>) -> Map<
    Seq<char>,
    Seq<Seq<u8>>,
>;

/// Calls `http::HeaderMap::get` with a name, and copies the bytes of the value.
///
/// The name may be written in capitals. Of several values `get` gives the first. A name that no
/// header can have is in no map.
#[verifier::external_body]
fn header_value(headers: &http::HeaderMap<http::HeaderValue>, name: &str) -> (r: Option<Vec<u8>>)
    ensures
        (match r {
            Some(value) => header_values(*headers).contains_key(text::lowered(name@)) && value@
                == header_values(*headers)[text::lowered(name@)][0],
            None => !header_values(*headers).contains_key(text::lowered(name@)),
        }),
{
    match headers.get(name) {
        Some(value) => Some(value.as_bytes().to_vec()),
        None => None,
    }
}

/// Whether a byte of a header's value is text.
pub open spec fn visible(b: u8) -> bool {
    32 <= b < 127 || b == 9
}

/// The text of a header's value, if all of it is text.
pub open spec fn visible_text(value: Seq<u8>) -> Option<Seq<char>> {
    if forall|i: int| 0 <= i < value.len() ==> visible(#[trigger] value[i]) {
        Some(Seq::new(value.len(), |i: int| value[i] as char))
    } else {
        None
    }
}

/// The text of the first value of a header.
pub open spec fn header_text(
    headers: http::HeaderMap<http::HeaderValue>,
    name: Seq<char>,
) -> Option<Seq<char>> {
    let values = header_values(headers);
    if values.contains_key(text::lowered(name)) {
        visible_text(values[text::lowered(name)][0])
    } else {
        None
    }
}

/// Whether a string that may be missing holds these characters.
pub open spec fn is_text(s: Option<String>, t: Option<Seq<char>>) -> bool {
    match s {
        Some(s) => t == Some(s@),
        None => t is None,
    }
}

/// Reads a header's value as text.
pub fn value_text(value: &Vec<u8>) -> (r: Option<String>)
    ensures
        is_text(r, visible_text(value@)),
{
    let mut out = String::new();
    let mut i: usize = 0;
    while i < value.len()
        invariant
            i <= value@.len(),
            forall|j: int| 0 <= j < i ==> visible(#[trigger] value@[j]),
            out@ == Seq::new(i as nat, |j: int| value@[j] as char),
        decreases value@.len() - i,
    {
        let b = value[i];
        if !((32 <= b && b < 127) || b == 9) {
            assert(!visible(value@[i as int]));
            return None;
        }
        out.push(b as char);
        i += 1;
    }
    Some(out)
}

fn read_header(headers: &http::HeaderMap<http::HeaderValue>, name: &str) -> (r: Option<String>)
    ensures
        is_text(r, header_text(*headers, name@)),
{
    match header_value(headers, name) {
        Some(value) => value_text(&value),
        None => None,
    }
}

/// The host that a request is for, in the form in which hosts are compared.
pub open spec fn request_host(headers: http::HeaderMap<http::HeaderValue>) -> Option<Seq<char>> {
    let host = match header_text(headers, "host"@) {
        Some(host) => Some(host),
        None => header_text(headers, ":authority"@),
    };
    match host {
        Some(host) => Some(request::host_key(host)),
        None => None,
    }
}

/// The host that a request is for: without its port, and in small letters.
pub fn extract_host(headers: &http::HeaderMap<http::HeaderValue>) -> (r: Option<String>)
    ensures
        is_text(r, request_host(*headers)),
{
    let host = match read_header(headers, "host") {
        Some(host) => host,
        None => match read_header(headers, ":authority") {
            Some(host) => host,
            None => return None,
        },
    };
    match request::normalize_host(host.as_str()) {
        Cow::Owned(host) => Some(host),
        Cow::Borrowed(host) => Some(host.to_owned()),
    }
}

/// Whether `key` can be an affinity key: it is not empty, and not too long in bytes.
pub open spec fn key_ok(key: Seq<char>) -> bool {
    0 < key.len() && vstd::utf8::encode_utf8(key).len() <= MAX_AFFINITY_KEY_LEN
}

fn is_key(key: &str) -> (r: bool)
    ensures
        r == key_ok(key@),
{
    !key.is_empty() && key.as_bytes().len() <= MAX_AFFINITY_KEY_LEN
}

/// The affinity key in one `name=value` pair of a cookie header.
pub open spec fn pair_value(pair: Seq<char>, cookie_name: Seq<char>) -> Option<Seq<char>> {
    let pair = text::trimmed(pair);
    let eq = text::first_from(pair, '=', 0);
    if eq < pair.len() && pair.take(eq) == cookie_name && key_ok(text::trimmed(pair.skip(eq + 1))) {
        Some(text::trimmed(pair.skip(eq + 1)))
    } else {
        None
    }
}

/// The affinity key in the first of `pairs` that has one.
pub open spec fn first_pair_value(pairs: Seq<Seq<char>>, cookie_name: Seq<char>) -> Option<
    Seq<char>,
>
    decreases pairs.len(),
{
    if pairs.len() == 0 {
        None
    } else {
        match pair_value(pairs[0], cookie_name) {
            Some(key) => Some(key),
            None => first_pair_value(pairs.drop_first(), cookie_name),
        }
    }
}

/// The affinity key in a cookie header.
pub open spec fn cookie_key(cookies: Seq<char>, cookie_name: Seq<char>) -> Option<Seq<char>> {
    first_pair_value(text::split(cookies, ';'), cookie_name)
}

fn read_pair(pair: &str, cookie_name: &str) -> (r: Option<String>)
    ensures
        is_text(r, pair_value(pair@, cookie_name@)),
{
    let pair = text::trim(pair);
    let chars = text::chars_of(pair);
    let eq = text::find_from(&chars, '=', 0);
    if eq == chars.len() {
        return None;
    }
    let name = pair.substring_char(0, eq);
    let value = pair.substring_char(eq + 1, chars.len());
    assert(name@ =~= pair@.take(eq as int));
    assert(value@ =~= pair@.skip(eq + 1));
    if !text::same(name, cookie_name) {
        return None;
    }
    let value = text::trim(value);
    if is_key(value) {
        Some(value.to_owned())
    } else {
        None
    }
}

/// Finds the affinity key in a cookie header.
pub fn find_cookie_key(cookies: &str, cookie_name: &str) -> (r: Option<String>)
    ensures
        is_text(r, cookie_key(cookies@, cookie_name@)),
{
    let chars = text::chars_of(cookies);
    let mut start: usize = 0;
    assert(cookies@.skip(0) =~= cookies@);
    loop
        invariant
            start <= chars@.len(),
            chars@ == cookies@,
            cookie_key(cookies@, cookie_name@) == cookie_key(
                cookies@.skip(start as int),
                cookie_name@,
            ),
        decreases chars@.len() - start,
    {
        let end = text::find_from(&chars, ';', start);
        let ghost rest = cookies@.skip(start as int);
        let pair = cookies.substring_char(start, end);
        proof {
            text::lemma_first_behind(cookies@, ';', start as int, 0);
            let all = text::split(rest, ';');
            assert(pair@ =~= rest.take(end - start));
            if end < chars@.len() {
                assert(rest.skip(end - start + 1) =~= cookies@.skip(end + 1));
                assert(all.drop_first() =~= text::split(cookies@.skip(end + 1), ';'));
            } else {
                assert(pair@ =~= rest);
                assert(all =~= seq![rest]);
                assert(all.drop_first() =~= Seq::empty());
                assert(first_pair_value(all.drop_first(), cookie_name@) is None);
            }
            assert(all[0] == pair@);
        }
        let found = read_pair(pair, cookie_name);
        if found.is_some() {
            return found;
        }
        if end == chars.len() {
            return None;
        }
        start = end + 1;
    }
}

/// The affinity key that a request's cookies bring.
pub open spec fn request_cookie_key(
    headers: http::HeaderMap<http::HeaderValue>,
    cookie_name: Seq<char>,
) -> Option<Seq<char>> {
    match header_text(headers, "cookie"@) {
        Some(cookies) => cookie_key(cookies, cookie_name),
        None => None,
    }
}

/// The affinity key that a request's cookies bring.
pub fn extract_cookie_value(
    headers: &http::HeaderMap<http::HeaderValue>,
    cookie_name: &str,
) -> (r: Option<String>)
    ensures
        is_text(r, request_cookie_key(*headers, cookie_name@)),
{
    match read_header(headers, "cookie") {
        Some(cookies) => find_cookie_key(cookies.as_str(), cookie_name),
        None => None,
    }
}

/// The affinity key in a header's text.
pub open spec fn header_key(value: Seq<char>) -> Option<Seq<char>> {
    if key_ok(text::trimmed(value)) {
        Some(text::trimmed(value))
    } else {
        None
    }
}

/// The affinity key that a request's header brings.
pub open spec fn request_header_key(
    headers: http::HeaderMap<http::HeaderValue>,
    header_name: Seq<char>,
) -> Option<Seq<char>> {
    match header_text(headers, header_name) {
        Some(value) => header_key(value),
        None => None,
    }
}

/// The affinity key that a request's header brings.
pub fn extract_header_value(
    headers: &http::HeaderMap<http::HeaderValue>,
    header_name: &str,
) -> (r: Option<String>)
    ensures
        is_text(r, request_header_key(*headers, header_name@)),
{
    match read_header(headers, header_name) {
        Some(value) => {
            let value = text::trim(value.as_str());
            if is_key(value) {
                Some(value.to_owned())
            } else {
                None
            }
        },
        None => None,
    }
}

} // verus!
