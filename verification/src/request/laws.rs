//! What holds of hosts and paths whatever the request.

use std::borrow::Cow;

use vstd::prelude::*;

use super::{
    extract_first_path_segment, first_segment, host_key, host_without_port, normalize_host,
    segment_start, strip_first_path_segment, strip_port_str, without_segment,
};
use crate::text;
use crate::text::laws::{law_last_found, law_small_letters, only_digits, small_form};

verus! {

/// Small letters change nothing about where a character that is no letter stands.
proof fn lemma_first_lowered(s: Seq<char>, c: char, i: int)
    requires
        0 <= i <= s.len(),
        !text::ascii_alphanumeric(c),
    ensures
        text::first_from(text::lowered(s), c, i) == text::first_from(s, c, i),
        i <= text::first_from(s, c, i) <= s.len(),
    decreases s.len() - i,
{
    if i < s.len() {
        lemma_lower(s[i], c);
        lemma_first_lowered(s, c, i + 1);
    }
}

proof fn lemma_last_lowered(s: Seq<char>, c: char, i: int)
    requires
        0 <= i <= s.len(),
        !text::ascii_alphanumeric(c),
    ensures
        text::last_before(text::lowered(s), c, i) == text::last_before(s, c, i),
        -1 <= text::last_before(s, c, i) < i,
    decreases i,
{
    if i > 0 {
        lemma_lower(s[i - 1], c);
        lemma_last_lowered(s, c, i - 1);
    }
}

proof fn lemma_lower(x: char, c: char)
    ensures
        !text::ascii_alphanumeric(c) ==> (text::lower_char(x) == c <==> x == c),
        text::ascii_digit(text::lower_char(x)) == text::ascii_digit(x),
        text::lower_char(text::lower_char(x)) == text::lower_char(x),
{
}

/// Stripping the port and taking small letters can change places.
proof fn lemma_port_lowered(host: Seq<char>)
    ensures
        host_without_port(text::lowered(host)) == text::lowered(host_without_port(host)),
{
    let low = text::lowered(host);
    if host.len() > 0 {
        lemma_lower(host[0], '[');
        lemma_first_lowered(host, ']', 1);
    }
    lemma_last_lowered(host, ':', host.len() as int);
    assert forall|i: int| 0 <= i < host.len() implies text::ascii_digit(#[trigger] low[i])
        == text::ascii_digit(host[i]) by {
        lemma_lower(host[i], ':');
    }
    let colon = text::last_before(host, ':', host.len() as int);
    let digits_low = forall|i: int|
        colon < i < low.len() ==> text::ascii_digit(#[trigger] low[i]);
    let digits = forall|i: int|
        colon < i < host.len() ==> text::ascii_digit(#[trigger] host[i]);
    assert(digits == digits_low) by {
        if digits_low {
            assert forall|i: int| colon < i < host.len() implies text::ascii_digit(
                #[trigger] host[i],
            ) by {
                assert(text::ascii_digit(low[i]));
            }
        }
    }
    assert(host_without_port(low) =~= text::lowered(host_without_port(host)));
}

/// Hosts that differ in case alone are the same host.
pub proof fn law_hosts_compare_without_case(a: Seq<char>, b: Seq<char>)
    requires
        text::lowered(a) == text::lowered(b),
    ensures
        host_key(a) == host_key(b),
{
    lemma_port_lowered(a);
    lemma_port_lowered(b);
}

proof fn lemma_last_is(s: Seq<char>, c: char, p: int, i: int)
    requires
        0 <= p < i <= s.len(),
        s[p] == c,
        forall|k: int| p < k < i ==> s[k] != c,
    ensures
        text::last_before(s, c, i) == p,
    decreases i,
{
    if i - 1 != p {
        lemma_last_is(s, c, p, i - 1);
    }
}

proof fn lemma_last_absent(s: Seq<char>, c: char, i: int)
    requires
        0 <= i <= s.len(),
        !s.contains(c),
    ensures
        text::last_before(s, c, i) == -1,
    decreases i,
{
    if i > 0 {
        assert(s.contains(s[i - 1]));
        lemma_last_absent(s, c, i - 1);
    }
}

/// A port makes no difference to the host.
pub proof fn law_hosts_compare_without_port(host: Seq<char>, port: Seq<char>)
    requires
        host.len() > 0,
        host[0] != '[',
        !host.contains(':'),
        forall|i: int| 0 <= i < port.len() ==> text::ascii_digit(#[trigger] port[i]),
    ensures
        host_key(host + seq![':'] + port) == host_key(host),
        host_key(host) == text::lowered(host),
{
    let full = host + seq![':'] + port;
    let n = host.len() as int;
    assert(full[0] == host[0]);
    assert forall|k: int| n < k < full.len() implies text::ascii_digit(#[trigger] full[k])
        && full[k] != ':' by {
        assert(full[k] == port[k - n - 1]);
    }
    lemma_last_is(full, ':', n, full.len() as int);
    assert(full.take(n) =~= host);
    lemma_last_absent(host, ':', n);
}

/// Nothing behind the brackets of an IPv6 address makes a difference to the host.
pub proof fn law_bracketed_hosts_compare_without_port(inner: Seq<char>, rest: Seq<char>)
    requires
        !inner.contains(']'),
    ensures
        host_key(seq!['['] + inner + seq![']'] + rest) == text::lowered(
            seq!['['] + inner + seq![']'],
        ),
{
    let host = seq!['['] + inner + seq![']'];
    let full = host + rest;
    let end = inner.len() as int + 1;
    assert forall|k: int| 1 <= k < end implies full[k] != ']' by {
        assert(full[k] == inner[k - 1]);
        assert(inner.contains(inner[k - 1]));
    }
    assert(full[end] == ']');
    text::lemma_first_is(full, ']', end, 1);
    assert(full.take(end + 1) =~= host);
}

/// A path that leads into the segment loses it and keeps the rest and its query: `/s` becomes `/`,
/// `/s/x` becomes `/x`, and `/s?q` becomes `/?q`.
pub proof fn law_segment_is_stripped(segment: Seq<char>, rest: Seq<char>)
    requires
        !segment.contains('?'),
        rest.len() == 0 || rest[0] == '/' || rest[0] == '?',
    ensures
        without_segment(seq!['/'] + segment + rest, segment) == Some(
            if rest.len() > 0 && rest[0] == '/' {
                rest
            } else {
                seq!['/'] + rest
            },
        ),
{
    let full = seq!['/'] + segment + rest;
    let prefix = seq!['/'] + segment;
    let n = prefix.len() as int;
    let q = n + text::first_from(rest, '?', 0);
    text::lemma_first_found(rest, '?', 0);
    assert(text::first_from(full, '?', 0) == q) by {
        assert forall|k: int| 0 <= k < q implies full[k] != '?' by {
            if 0 < k < n {
                assert(full[k] == segment[k - 1]);
                assert(segment.contains(segment[k - 1]));
            } else if k >= n {
                assert(full[k] == rest[k - n]);
            }
        }
        if q < full.len() {
            assert(full[q] == rest[q - n]);
        }
        text::lemma_first_is(full, '?', q, 0);
    }
    let path = full.take(q);
    assert(prefix.is_prefix_of(path)) by {
        assert(path.take(n) =~= prefix);
    }
    if rest.len() > 0 && rest[0] == '/' {
        assert(q > n) by {
            assert(text::first_from(rest, '?', 0) != 0);
        }
        assert(path[n] == rest[0]);
        assert(path.skip(n) + full.skip(q) =~= rest);
    } else {
        assert(q == n);
        assert(full.skip(q) =~= rest);
    }
}

/// The path by whose first segment a request was routed is rewritten, unless it starts with more
/// than one slash.
pub proof fn law_matched_path_is_rewritten(path: Seq<char>, query: Seq<char>, segment: Seq<char>)
    requires
        first_segment(path) == Some(segment),
        path.len() > 1,
        path[0] == '/',
        path[1] != '/',
        !path.contains('?'),
        query.len() == 0 || query[0] == '?',
    ensures
        without_segment(path + query, segment) is Some,
{
    assert(segment_start(path, 1) == 1);
    assert(segment_start(path, 0) == 1);
    text::lemma_first_found(path, '/', 1);
    let end = text::first_from(path, '/', 1);
    let rest = path.skip(end) + query;
    assert(path + query =~= seq!['/'] + segment + rest);
    if end < path.len() {
        assert(rest[0] == path[end]);
    } else {
        assert(rest =~= query);
    }
    assert(!segment.contains('?')) by {
        if segment.contains('?') {
            let k = choose|k: int| 0 <= k < segment.len() && segment[k] == '?';
            assert(path[k + 1] == '?');
        }
    }
    law_segment_is_stripped(segment, rest);
}

/// Only a path whose first segment is exactly the given one is rewritten.
pub proof fn law_other_segments_are_kept(path_and_query: Seq<char>, segment: Seq<char>)
    requires
        segment.len() > 0,
        !segment.contains('/'),
        without_segment(path_and_query, segment) is Some,
    ensures
        first_segment(path_and_query.take(text::first_from(path_and_query, '?', 0))) == Some(
            segment,
        ),
{
    text::lemma_first_found(path_and_query, '?', 0);
    let q = text::first_from(path_and_query, '?', 0);
    let path = path_and_query.take(q);
    let prefix = seq!['/'] + segment;
    let n = prefix.len() as int;
    assert(prefix.is_prefix_of(path));
    assert forall|k: int| 0 <= k < n implies path[k] == prefix[k] by {}
    assert(path[1] == segment[0]);
    assert(segment.contains(segment[0]));
    assert(segment_start(path, 1) == 1);
    assert(segment_start(path, 0) == 1);
    assert forall|k: int| 1 <= k < n implies path[k] != '/' by {
        assert(path[k] == segment[k - 1]);
        assert(segment.contains(segment[k - 1]));
    }
    text::lemma_first_is(path, '/', n, 1);
    assert(path.subrange(1, n) =~= segment);
}

/// Whether `name` is the host in `text`, which may bring a port.
///
/// In brackets it is what they enclose, brackets included. Otherwise it is what stands before a `:`
/// that only digits follow, and where there is no such `:` with something before it, all of the
/// text.
pub open spec fn host_part(text: Seq<char>, name: Seq<char>) -> bool {
    if text.len() > 0 && text[0] == '[' {
        if text.contains(']') {
            &&& 0 < name.len() <= text.len()
            &&& name == text.take(name.len() as int)
            &&& name.last() == ']'
            &&& !name.drop_last().contains(']')
        } else {
            name == text
        }
    } else {
        ||| {
            &&& 0 < name.len() < text.len()
            &&& name == text.take(name.len() as int)
            &&& text[name.len() as int] == ':'
            &&& only_digits(text.skip(name.len() as int + 1))
        }
        ||| {
            &&& name == text
            &&& forall|k: int|
                0 < k < text.len() && #[trigger] text[k] == ':' ==> !only_digits(text.skip(k + 1))
        }
    }
}

/// A text has one host.
pub proof fn law_one_host(text: Seq<char>, a: Seq<char>, b: Seq<char>)
    requires
        host_part(text, a),
        host_part(text, b),
    ensures
        a == b,
{
    if text.len() > 0 && text[0] == '[' {
        if text.contains(']') {
            if a.len() < b.len() {
                assert(b.drop_last()[a.len() - 1] == a.last());
            }
            if b.len() < a.len() {
                assert(a.drop_last()[b.len() - 1] == b.last());
            }
            assert(a =~= b);
        }
    } else if a.len() < b.len() && b.len() < text.len() {
        assert(text.skip(a.len() as int + 1)[b.len() - a.len() - 1] == text[b.len() as int]);
    } else if b.len() < a.len() && a.len() < text.len() {
        assert(text.skip(b.len() as int + 1)[a.len() - b.len() - 1] == text[a.len() as int]);
    } else if a.len() < b.len() {
        assert(text[a.len() as int] == ':');
    } else if b.len() < a.len() {
        assert(text[b.len() as int] == ':');
    }
}

/// What is left without the port is the host.
pub proof fn law_host_without_port(text: Seq<char>)
    ensures
        host_part(text, host_without_port(text)),
{
    let name = host_without_port(text);
    if text.len() > 0 && text[0] == '[' {
        text::lemma_first_found(text, ']', 1);
        let end = text::first_from(text, ']', 1);
        if end < text.len() {
            assert(text[end] == ']');
            assert(name.last() == ']');
            assert forall|k: int| 0 <= k < name.drop_last().len() implies name.drop_last()[k]
                != ']' by {
                assert(name.drop_last()[k] == text[k]);
            }
        } else {
            assert(!text.contains(']'));
        }
    } else {
        law_last_found(text, ':', text.len() as int);
        let colon = text::last_before(text, ':', text.len() as int);
        let digits = forall|i: int|
            colon < i < text.len() ==> text::ascii_digit(#[trigger] text[i]);
        if colon > 0 && digits {
            assert forall|i: int| 0 <= i < text.skip(colon + 1).len() implies 48
                <= #[trigger] text.skip(colon + 1)[i] as int <= 57 by {
                assert(text::ascii_digit(text[colon + 1 + i]));
            }
        } else {
            assert forall|k: int| 0 < k < text.len() && #[trigger] text[k] == ':' implies
                !only_digits(text.skip(k + 1)) by {
                if only_digits(text.skip(k + 1)) {
                    assert forall|i: int| k < i < text.len() implies text::ascii_digit(
                        #[trigger] text[i],
                    ) by {
                        assert(text.skip(k + 1)[i - k - 1] == text[i]);
                    }
                    assert(k <= colon);
                    if k < colon {
                        assert(text::ascii_digit(text[colon]));
                    }
                    assert(digits);
                }
            }
        }
    }
}

/// [`strip_port_str`] gives the host of a text.
pub proof fn law_strip_port(host: &str, r: &str)
    requires
        call_ensures(strip_port_str, (host,), r),
    ensures
        host_part(host@, r@),
{
    law_host_without_port(host@);
}

/// [`normalize_host`] gives the host of a text in small letters, and changes nothing else about it.
pub proof fn law_normalize_host(host: &str, r: Cow<'_, str>, name: Seq<char>)
    requires
        call_ensures(normalize_host, (host,), r),
        host_part(host@, name),
    ensures
        small_form(name, r@),
{
    lemma_host_key(host@, name);
}

/// The form in which hosts are compared is the host in small letters.
pub proof fn lemma_host_key(text: Seq<char>, name: Seq<char>)
    requires
        host_part(text, name),
    ensures
        small_form(name, host_key(text)),
        host_key(text) == text::lowered(name),
{
    law_host_without_port(text);
    law_one_host(text, name, host_without_port(text));
    law_small_letters(name);
}

/// A name that is not bracketed and holds no `:` is the host, with a port or without.
pub proof fn law_names_are_hosts(name: Seq<char>, port: Seq<char>)
    requires
        name.len() > 0,
        name[0] != '[',
        !name.contains(':'),
        only_digits(port),
    ensures
        host_part(name, name),
        host_part(name + seq![':'] + port, name),
{
    let full = name + seq![':'] + port;
    assert(full[0] == name[0]);
    assert(full.take(name.len() as int) =~= name);
    assert(full.skip(name.len() as int + 1) =~= port);
    assert forall|k: int| 0 < k < name.len() && #[trigger] name[k] == ':' implies !only_digits(
        name.skip(k + 1),
    ) by {
        assert(name.contains(name[k]));
    }
}

/// Whether `s` is made of slashes.
pub open spec fn only_slashes(s: Seq<char>) -> bool {
    forall|i: int| 0 <= i < s.len() ==> #[trigger] s[i] == '/'
}

/// Whether `segment` is the first segment of `path` that is not empty: slashes stand before it, and
/// behind it nothing or a slash.
pub open spec fn leads_path(path: Seq<char>, segment: Seq<char>) -> bool {
    exists|n: int|
        {
            &&& 0 <= n
            &&& n + segment.len() <= path.len()
            &&& only_slashes(#[trigger] path.take(n))
            &&& path.subrange(n, n + segment.len()) == segment
            &&& segment.len() > 0
            &&& !segment.contains('/')
            &&& n + segment.len() < path.len() ==> path[n + segment.len()] == '/'
        }
}

proof fn lemma_segment_start(path: Seq<char>, i: int)
    requires
        0 <= i <= path.len(),
    ensures
        i <= segment_start(path, i) <= path.len(),
        forall|k: int| i <= k < segment_start(path, i) ==> #[trigger] path[k] == '/',
        segment_start(path, i) < path.len() ==> path[segment_start(path, i)] != '/',
    decreases path.len() - i,
{
    if i < path.len() && path[i] == '/' {
        lemma_segment_start(path, i + 1);
    }
}

/// The first segment is the one that leads the path, and there is none exactly where the path is
/// made of slashes.
pub proof fn law_first_segment(path: Seq<char>)
    ensures
        first_segment(path) matches Some(segment) ==> leads_path(path, segment),
        first_segment(path) is None <==> only_slashes(path),
        forall|segment: Seq<char>| #[trigger]
            leads_path(path, segment) ==> first_segment(path) == Some(segment),
{
    let start = segment_start(path, 0);
    lemma_segment_start(path, 0);
    if start < path.len() {
        text::lemma_first_found(path, '/', start);
        let end = text::first_from(path, '/', start);
        let segment = path.subrange(start, end);
        assert(end > start);
        assert(only_slashes(path.take(start)));
        assert forall|k: int| 0 <= k < segment.len() implies segment[k] != '/' by {
            assert(segment[k] == path[start + k]);
        }
        assert(leads_path(path, segment));
        assert(path[start] != '/');
        assert forall|other: Seq<char>| #[trigger] leads_path(path, other) implies other
            == segment by {
            let n = choose|n: int|
                {
                    &&& 0 <= n
                    &&& n + other.len() <= path.len()
                    &&& only_slashes(#[trigger] path.take(n))
                    &&& path.subrange(n, n + other.len()) == other
                    &&& other.len() > 0
                    &&& !other.contains('/')
                    &&& n + other.len() < path.len() ==> path[n + other.len()] == '/'
                };
            if n > start {
                assert(path.take(n)[start] == '/');
            }
            if n < start {
                assert(path[n] == '/');
                assert(other[0] == path[n]);
                assert(other.contains(other[0]));
            }
            assert(n == start);
            if n + other.len() < end {
                assert(path[n + other.len()] == '/');
            }
            if n + other.len() > end {
                assert(other[end - start] == path[end]);
                assert(other.contains(other[end - start]));
            }
            assert(other =~= segment);
        }
    } else {
        assert(only_slashes(path));
        assert forall|other: Seq<char>| !#[trigger] leads_path(path, other) by {
            if leads_path(path, other) {
                let n = choose|n: int|
                    {
                        &&& 0 <= n
                        &&& n + other.len() <= path.len()
                        &&& only_slashes(#[trigger] path.take(n))
                        &&& path.subrange(n, n + other.len()) == other
                        &&& other.len() > 0
                        &&& !other.contains('/')
                        &&& n + other.len() < path.len() ==> path[n + other.len()] == '/'
                    };
                assert(other[0] == path[n]);
                assert(other.contains(other[0]));
            }
        }
    }
}

/// [`extract_first_path_segment`] gives the segment that leads the path.
pub proof fn law_extract_first_path_segment(path: &str, r: Option<&str>)
    requires
        call_ensures(extract_first_path_segment, (path,), r),
    ensures
        r matches Some(segment) ==> leads_path(path@, segment@),
        r is None <==> only_slashes(path@),
        forall|segment: Seq<char>| #[trigger]
            leads_path(path@, segment) ==> r is Some && r->0@ == segment,
{
    law_first_segment(path@);
}

/// Whether a path and query are `/segment` with `rest` behind it, which is empty or starts a
/// further segment or the query.
pub open spec fn leads_into(
    path_and_query: Seq<char>,
    segment: Seq<char>,
    rest: Seq<char>,
) -> bool {
    &&& path_and_query == seq!['/'] + segment + rest
    &&& rest.len() == 0 || rest[0] == '/' || rest[0] == '?'
    &&& !segment.contains('?')
}

/// What is left of `rest` behind a segment that is stripped: all of it, with a slash before it
/// where it has none.
pub open spec fn rooted(rest: Seq<char>) -> Seq<char> {
    if rest.len() > 0 && rest[0] == '/' {
        rest
    } else {
        seq!['/'] + rest
    }
}

/// What is stripped is stripped off a path that leads into the segment, and nothing else is lost.
pub proof fn law_only_the_segment_is_stripped(path_and_query: Seq<char>, segment: Seq<char>)
    ensures
        without_segment(path_and_query, segment) is Some <==> exists|rest: Seq<char>| #[trigger]
            leads_into(path_and_query, segment, rest),
        forall|rest: Seq<char>| #[trigger]
            leads_into(path_and_query, segment, rest) ==> without_segment(path_and_query, segment)
                == Some(rooted(rest)),
{
    assert forall|rest: Seq<char>| #[trigger] leads_into(
        path_and_query,
        segment,
        rest,
    ) implies without_segment(path_and_query, segment) == Some(rooted(rest)) by {
        law_segment_is_stripped(segment, rest);
    }
    if without_segment(path_and_query, segment) is Some {
        text::lemma_first_found(path_and_query, '?', 0);
        let q = text::first_from(path_and_query, '?', 0);
        let path = path_and_query.take(q);
        let prefix = seq!['/'] + segment;
        let n = prefix.len() as int;
        assert(prefix.is_prefix_of(path));
        let rest = path_and_query.skip(n);
        assert forall|k: int| 0 <= k < n implies path_and_query[k] == prefix[k] by {
            assert(path[k] == prefix[k]);
        }
        assert(path_and_query =~= seq!['/'] + segment + rest);
        assert(!segment.contains('?')) by {
            if segment.contains('?') {
                let k = choose|k: int| 0 <= k < segment.len() && segment[k] == '?';
                assert(prefix[k + 1] == '?');
                assert(path_and_query[k + 1] == '?');
            }
        }
        if rest.len() > 0 {
            assert(rest[0] == path_and_query[n]);
            if n < q {
                assert(path[n] == path_and_query[n]);
            }
        }
        assert(leads_into(path_and_query, segment, rest));
    }
}

/// [`strip_first_path_segment`] takes the segment off a path that leads into it, and keeps all of
/// the rest and of the query.
pub proof fn law_strip_first_path_segment(
    path_and_query: &str,
    segment: &str,
    r: Option<Cow<'_, str>>,
)
    requires
        call_ensures(strip_first_path_segment, (path_and_query, segment), r),
    ensures
        r is Some <==> exists|rest: Seq<char>| #[trigger]
            leads_into(path_and_query@, segment@, rest),
        forall|rest: Seq<char>| #[trigger]
            leads_into(path_and_query@, segment@, rest) ==> r is Some && r->0@ == rooted(rest),
{
    law_only_the_segment_is_stripped(path_and_query@, segment@);
}

/// Texts are copied only where they change: a host that has a capital letter, and a path that has a
/// query behind it.
pub proof fn law_copied_where_changed(
    host: &str,
    stripped: &str,
    normal: Cow<'_, str>,
    path_and_query: &str,
    segment: &str,
    rewritten: Option<Cow<'_, str>>,
)
    requires
        call_ensures(strip_port_str, (host,), stripped),
        call_ensures(normalize_host, (host,), normal),
        call_ensures(strip_first_path_segment, (path_and_query, segment), rewritten),
    ensures
        normal is Owned <==> exists|i: int|
            0 <= i < stripped@.len() && 65 <= #[trigger] stripped@[i] as int <= 90,
        rewritten is Some ==> (rewritten->0 is Owned <==> path_and_query@.contains('?')),
{
    if normal is Owned {
        let i = choose|i: int|
            0 <= i < host_without_port(host@).len() && text::ascii_upper(
                #[trigger] host_without_port(host@)[i],
            );
        assert(65 <= stripped@[i] as int <= 90);
    }
    if exists|i: int| 0 <= i < stripped@.len() && 65 <= #[trigger] stripped@[i] as int <= 90 {
        let i = choose|i: int|
            0 <= i < stripped@.len() && 65 <= #[trigger] stripped@[i] as int <= 90;
        assert(text::ascii_upper(host_without_port(host@)[i]));
    }
}

} // verus!
