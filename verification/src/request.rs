//! What routing reads off a request: its host, its path and its path's first segment.

use std::borrow::Cow;

use vstd::prelude::*;
use vstd::string::*;

use crate::text;

pub mod laws;

verus! {

/// `host` without its port.
///
/// A host that starts with `[` keeps everything up to the first `]`. Any other host loses its last
/// `:` and what follows, if only digits follow and something stands before.
pub open spec fn host_without_port(host: Seq<char>) -> Seq<char> {
    if host.len() > 0 && host[0] == '[' {
        let end = text::first_from(host, ']', 1);
        if end < host.len() {
            host.take(end + 1)
        } else {
            host
        }
    } else {
        let colon = text::last_before(host, ':', host.len() as int);
        if colon > 0 && (forall|i: int|
            colon < i < host.len() ==> text::ascii_digit(#[trigger] host[i])) {
            host.take(colon)
        } else {
            host
        }
    }
}

/// `host` without its port and in small letters: the form in which hosts are compared.
pub open spec fn host_key(host: Seq<char>) -> Seq<char> {
    text::lowered(host_without_port(host))
}

/// The first non-empty segment of `path`.
pub open spec fn first_segment(path: Seq<char>) -> Option<Seq<char>> {
    let start = segment_start(path, 0);
    if start < path.len() {
        Some(path.subrange(start, text::first_from(path, '/', start)))
    } else {
        None
    }
}

/// The index of the first character at or after `i` that is no `/`, or `path.len()`.
pub open spec fn segment_start(path: Seq<char>, i: int) -> int
    decreases path.len() - i,
{
    if i >= path.len() {
        path.len() as int
    } else if path[i] == '/' {
        segment_start(path, i + 1)
    } else {
        i
    }
}

/// `path_and_query` with the leading `/segment` stripped from its path.
///
/// `None` when the path is neither `/segment` nor starts with `/segment/`. The query is kept.
pub open spec fn without_segment(path_and_query: Seq<char>, segment: Seq<char>) -> Option<
    Seq<char>,
> {
    let q = text::first_from(path_and_query, '?', 0);
    let path = path_and_query.take(q);
    let prefix = seq!['/'] + segment;
    if prefix.is_prefix_of(path) && (path.len() == prefix.len() || path[prefix.len() as int]
        == '/') {
        let rest = if path.len() == prefix.len() {
            seq!['/']
        } else {
            path.skip(prefix.len() as int)
        };
        Some(rest + path_and_query.skip(q))
    } else {
        None
    }
}

/// Strips the port from a host.
pub fn strip_port_str(host: &str) -> (r: &str)
    ensures
        r@ == host_without_port(host@),
{
    let chars = text::chars_of(host);
    if chars.len() > 0 && chars[0] == '[' {
        let end = text::find_from(&chars, ']', 1);
        if end < chars.len() {
            return host.substring_char(0, end + 1);
        }
        return host;
    }
    let mut i: usize = chars.len();
    while i > 0 && chars[i - 1] != ':'
        invariant
            i <= chars@.len(),
            text::last_before(chars@, ':', chars@.len() as int) == text::last_before(
                chars@,
                ':',
                i as int,
            ),
        decreases i,
    {
        i -= 1;
    }
    if i <= 1 {
        return host;
    }
    let mut j: usize = i;
    while j < chars.len()
        invariant
            1 < i <= j <= chars@.len(),
            chars@ == host@,
            !(host@.len() > 0 && host@[0] == '['),
            text::last_before(chars@, ':', chars@.len() as int) == i - 1,
            forall|k: int| i <= k < j ==> text::ascii_digit(#[trigger] chars@[k]),
        decreases chars@.len() - j,
    {
        if !('0' <= chars[j] && chars[j] <= '9') {
            assert(!text::ascii_digit(host@[j as int]));
            return host;
        }
        j += 1;
    }
    host.substring_char(0, i - 1)
}

/// Brings a host into the form in which hosts are compared, allocating only where it has capitals.
pub fn normalize_host(host: &str) -> (r: Cow<'_, str>)
    ensures
        r@ == host_key(host@),
        r is Owned <==> exists|i: int|
            0 <= i < host_without_port(host@).len() && text::ascii_upper(
                #[trigger] host_without_port(host@)[i],
            ),
{
    let stripped = strip_port_str(host);
    if text::has_upper(stripped) {
        Cow::Owned(text::to_lower(stripped))
    } else {
        assert(text::lowered(stripped@) =~= stripped@);
        Cow::Borrowed(stripped)
    }
}

/// The first non-empty segment of a request path.
pub fn extract_first_path_segment(path: &str) -> (r: Option<&str>)
    ensures
        (match r {
            Some(segment) => first_segment(path@) == Some(segment@),
            None => first_segment(path@) is None,
        }),
{
    let chars = text::chars_of(path);
    let mut i: usize = 0;
    while i < chars.len() && chars[i] == '/'
        invariant
            i <= chars@.len(),
            segment_start(chars@, 0) == segment_start(chars@, i as int),
        decreases chars@.len() - i,
    {
        i += 1;
    }
    if i == chars.len() {
        return None;
    }
    let end = text::find_from(&chars, '/', i);
    Some(path.substring_char(i, end))
}

/// Strips the leading `/segment` from the path of `path_and_query`, allocating only for a query.
pub fn strip_first_path_segment<'a>(path_and_query: &'a str, segment: &str) -> (r: Option<
    Cow<'a, str>,
>)
    ensures
        (match r {
            Some(rewritten) => without_segment(path_and_query@, segment@) == Some(rewritten@),
            None => without_segment(path_and_query@, segment@) is None,
        }),
        r matches Some(rewritten) ==> (rewritten is Owned <==> path_and_query@.contains('?')),
{
    let chars = text::chars_of(path_and_query);
    let seg = text::chars_of(segment);
    let q = text::find_from(&chars, '?', 0);
    let ghost path = path_and_query@.take(q as int);
    let ghost prefix = seq!['/'] + segment@;
    assert(path_and_query@.contains('?') <==> q < chars@.len());
    if q == 0 || chars[0] != '/' || seg.len() > q - 1 {
        assert(!prefix.is_prefix_of(path)) by {
            assert(prefix[0] == '/');
            if prefix.len() <= path.len() {
                assert(path.subrange(0, prefix.len() as int)[0] == chars@[0]);
            }
        }
        return None;
    }
    let mut i: usize = 0;
    while i < seg.len()
        invariant
            i <= seg@.len() < q <= chars@.len(),
            chars@ == path_and_query@,
            seg@ == segment@,
            path == path_and_query@.take(q as int),
            prefix == seq!['/'] + segment@,
            q == text::first_from(path_and_query@, '?', 0),
            forall|j: int| 0 <= j < i ==> chars@[j + 1] == seg@[j],
        decreases seg@.len() - i,
    {
        if chars[i + 1] != seg[i] {
            assert(path[i + 1] != prefix[i + 1]);
            return None;
        }
        i += 1;
    }
    assert(prefix.is_prefix_of(path)) by {
        assert forall|j: int| 0 <= j < prefix.len() implies prefix[j] == path[j] by {
            if j > 0 {
                assert(chars@[(j - 1) + 1] == seg@[j - 1]);
            }
        }
    }
    let n: usize = seg.len() + 1;
    if n < q && chars[n] != '/' {
        return None;
    }
    let rewritten: &'a str = if n == q {
        "/"
    } else {
        path_and_query.substring_char(n, q)
    };
    proof {
        reveal_strlit("/");
        assert("/"@ =~= seq!['/']);
        assert(path.skip(n as int) =~= path_and_query@.subrange(n as int, q as int));
    }
    if q == chars.len() {
        assert(path_and_query@.skip(q as int) =~= Seq::<char>::empty());
        assert(rewritten@ + Seq::<char>::empty() =~= rewritten@);
        Some(Cow::Borrowed(rewritten))
    } else {
        let query = path_and_query.substring_char(q, chars.len());
        assert(query@ =~= path_and_query@.skip(q as int));
        let mut out = rewritten.to_owned();
        out.append(query);
        Some(Cow::Owned(out))
    }
}

} // verus!
