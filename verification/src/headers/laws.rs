//! What holds of affinity keys that travel in cookies.

use vstd::prelude::*;

use super::{
    cookie_key, extract_cookie_value, extract_header_value, extract_host, find_cookie_key,
    first_pair_value, header_text, header_values, key_ok, pair_value, request_cookie_key,
    request_header_key, request_host, value_text, visible, visible_text,
};
use crate::request::laws::{host_part, lemma_host_key};
use crate::sticky::{generated_key, set_cookie, StickySessionConfig};
use crate::text;
use crate::text::laws::{
    law_small_letters, law_trimmed, law_trimming, no_outer_blanks, only_blanks, small_form,
};

verus! {

/// Whether `s` holds no `;`, and no white space at either end.
pub open spec fn cookie_safe(s: Seq<char>) -> bool {
    !s.contains(';') && text::trimmed(s) == s
}

proof fn lemma_start_bounds(s: Seq<char>, i: int)
    requires
        0 <= i <= s.len(),
    ensures
        i <= text::text_start(s, i) <= s.len(),
    decreases s.len() - i,
{
    if i < s.len() && text::white_space(s[i]) {
        lemma_start_bounds(s, i + 1);
    }
}

proof fn lemma_end_bounds(s: Seq<char>, from: int, j: int)
    requires
        0 <= from <= j <= s.len(),
    ensures
        from <= text::text_end(s, from, j) <= j,
    decreases j - from,
{
    if j > from && text::white_space(s[j - 1]) {
        lemma_end_bounds(s, from, j - 1);
    }
}

/// A text that trimming leaves as it is starts and ends with no white space, and the other way
/// round.
proof fn lemma_trimmed(s: Seq<char>)
    ensures
        s.len() > 0 ==> (text::trimmed(s) == s <==> !text::white_space(s[0]) && !text::white_space(
            s.last(),
        )),
{
    if s.len() > 0 {
        let a = text::text_start(s, 0);
        let n = s.len() as int;
        lemma_start_bounds(s, 0);
        lemma_end_bounds(s, a, n);
        if text::trimmed(s) == s {
            assert(text::trimmed(s).len() == n);
            assert(a == 0 && text::text_end(s, a, n) == n);
            if text::white_space(s[0]) {
                lemma_start_bounds(s, 1);
            }
            if text::white_space(s[n - 1]) {
                lemma_end_bounds(s, 0, n - 1);
            }
        }
        if !text::white_space(s[0]) && !text::white_space(s.last()) {
            assert(text::trimmed(s) =~= s);
        }
    }
}

/// A client that sends its cookie back is known by the same affinity key, also where the cookie's
/// attributes follow.
pub proof fn law_cookie_brings_key_back(
    cookie_name: Seq<char>,
    key: Seq<char>,
    attributes: Seq<char>,
)
    requires
        cookie_safe(cookie_name),
        cookie_name.len() > 0,
        !cookie_name.contains('='),
        cookie_safe(key),
        key_ok(key),
        attributes.len() == 0 || attributes[0] == ';',
    ensures
        cookie_key(cookie_name + seq!['='] + key + attributes, cookie_name) == Some(key),
{
    let pair = cookie_name + seq!['='] + key;
    let full = pair + attributes;
    let n = cookie_name.len() as int;
    assert forall|k: int| 0 <= k < pair.len() implies full[k] != ';' by {
        if k < n {
            assert(full[k] == cookie_name[k]);
            assert(cookie_name.contains(cookie_name[k]));
        } else if k > n {
            assert(full[k] == key[k - n - 1]);
            assert(key.contains(key[k - n - 1]));
        }
    }
    text::lemma_first_is(full, ';', pair.len() as int, 0);
    let pieces = text::split(full, ';');
    assert(full.take(pair.len() as int) =~= pair);
    assert(pieces[0] == pair) by {
        if attributes.len() == 0 {
            assert(full =~= pair);
        }
    }
    assert(pair[0] == cookie_name[0]);
    assert(pair.last() == key.last());
    lemma_trimmed(cookie_name);
    lemma_trimmed(key);
    lemma_trimmed(pair);
    assert forall|k: int| 0 <= k < n implies pair[k] != '=' by {
        assert(pair[k] == cookie_name[k]);
        assert(cookie_name.contains(cookie_name[k]));
    }
    text::lemma_first_is(pair, '=', n, 0);
    assert(pair.take(n) =~= cookie_name);
    assert(pair.skip(n + 1) =~= key);
    assert(pair_value(pair, cookie_name) == Some(key));
    assert(first_pair_value(pieces, cookie_name) == Some(key));
}

/// Whether `s` is made of hexadecimal digits as they are written.
spec fn hexadecimal(s: Seq<char>) -> bool {
    forall|i: int|
        0 <= i < s.len() ==> text::ascii_digit(#[trigger] s[i]) || 'a' <= s[i] <= 'f'
}

proof fn lemma_numeral_hexadecimal(n: nat)
    ensures
        hexadecimal(text::numeral(n, 16)),
        text::numeral(n, 16).len() > 0,
    decreases n,
{
    if n >= 16 {
        lemma_numeral_hexadecimal(n / 16);
    }
}

proof fn lemma_numeral_short(n: nat, bound: nat, digits: nat)
    requires
        digits > 0,
        n < bound,
        bound == vstd::arithmetic::power::pow(16, digits),
    ensures
        text::numeral(n, 16).len() <= digits,
    decreases digits,
{
    if n >= 16 {
        if digits == 1 {
            vstd::arithmetic::power::lemma_pow1(16);
        } else {
            let smaller = vstd::arithmetic::power::pow(16, (digits - 1) as nat);
            vstd::arithmetic::power::lemma_pow_adds(16, 1, (digits - 1) as nat);
            vstd::arithmetic::power::lemma_pow1(16);
            assert(bound == 16 * smaller);
            lemma_numeral_short(n / 16, smaller as nat, (digits - 1) as nat);
        }
    }
}

/// A character of ASCII is one byte.
proof fn lemma_ascii_bytes(s: Seq<char>)
    requires
        hexadecimal(s),
    ensures
        vstd::utf8::encode_utf8(s).len() == s.len(),
    decreases s.len(),
{
    if s.len() > 0 {
        let rest = s.drop_first();
        assert forall|i: int| 0 <= i < rest.len() implies text::ascii_digit(#[trigger] rest[i])
            || 'a' <= rest[i] <= 'f' by {
            assert(rest[i] == s[i + 1]);
        }
        assert(text::ascii_digit(s[0]) || 'a' <= s[0] <= 'f');
        lemma_ascii_bytes(rest);
    }
}

/// An affinity key that was made up can be brought back in a cookie.
pub proof fn law_generated_keys_are_accepted(now_nanos: u128, tick: u64)
    ensures
        key_ok(generated_key(now_nanos, tick)),
        cookie_safe(generated_key(now_nanos, tick)),
{
    let a = text::numeral(now_nanos as nat, 16);
    let b = text::numeral(tick as nat, 16);
    let key = generated_key(now_nanos, tick);
    lemma_numeral_hexadecimal(now_nanos as nat);
    lemma_numeral_hexadecimal(tick as nat);
    lemma_u128_digits();
    lemma_numeral_short(now_nanos as nat, vstd::arithmetic::power::pow(16, 32) as nat, 32);
    lemma_numeral_short(tick as nat, vstd::arithmetic::power::pow(16, 16) as nat, 16);
    assert(hexadecimal(key)) by {
        assert forall|i: int| 0 <= i < key.len() implies text::ascii_digit(#[trigger] key[i])
            || 'a' <= key[i] <= 'f' by {
            if i < a.len() {
                assert(key[i] == a[i]);
            } else {
                assert(key[i] == b[i - a.len()]);
            }
        }
    }
    assert(!key.contains(';'));
    lemma_ascii_bytes(key);
    lemma_trimmed(key);
}

proof fn lemma_u128_digits()
    ensures
        vstd::arithmetic::power::pow(16, 16) == 0x1_0000_0000_0000_0000,
        vstd::arithmetic::power::pow(16, 32) == u128::MAX + 1,
{
    reveal_with_fuel(vstd::arithmetic::power::pow, 17);
    vstd::arithmetic::power::lemma_pow_adds(16, 16, 16);
}

/// The cookie that hands out an affinity key brings it back.
pub proof fn law_set_cookie_brings_key_back(config: StickySessionConfig, key: Seq<char>)
    requires
        cookie_safe(config.cookie_name@),
        config.cookie_name@.len() > 0,
        !config.cookie_name@.contains('='),
        cookie_safe(key),
        key_ok(key),
    ensures
        cookie_key(set_cookie(config, key), config.cookie_name@) == Some(key),
{
    reveal_strlit("=");
    reveal_strlit("; Max-Age=");
    let name = config.cookie_name@;
    let full = set_cookie(config, key);
    let n = (name.len() + 1 + key.len()) as int;
    let pair = name + seq!['='] + key;
    assert(full.take(n) =~= pair);
    assert(full =~= pair + full.skip(n));
    assert(full[n] == "; Max-Age="@[0]);
    law_cookie_brings_key_back(name, key, full.skip(n));
}

/// Whether a byte can stand in the text of a header: a tab, or what ASCII prints.
pub open spec fn prints(b: u8) -> bool {
    b == 9 || 32 <= b <= 126
}

/// Whether bytes are this text, byte by character.
pub open spec fn spells(value: Seq<u8>, t: Seq<char>) -> bool {
    &&& value.len() == t.len()
    &&& forall|i: int|
        0 <= i < value.len() ==> prints(#[trigger] value[i]) && t[i] as int == value[i] as int
}

/// Whether the first value of a header is this text. Names are given in small letters.
pub open spec fn header_is(
    headers: http::HeaderMap<http::HeaderValue>,
    name: Seq<char>,
    t: Seq<char>,
) -> bool {
    header_values(headers).contains_key(name) && spells(header_values(headers)[name][0], t)
}

/// Whether there is no such header, or its first value holds a byte that no text has.
pub open spec fn header_lacks(headers: http::HeaderMap<http::HeaderValue>, name: Seq<char>) -> bool {
    header_values(headers).contains_key(name) ==> exists|i: int|
        0 <= i < header_values(headers)[name][0].len() && !prints(
            #[trigger] header_values(headers)[name][0][i],
        )
}

/// The text of a header's value is its bytes, where all of them are text.
pub proof fn law_value_text(value: &Vec<u8>, r: Option<String>, t: Seq<char>)
    requires
        call_ensures(value_text, (value,), r),
    ensures
        spells(value@, t) ==> r is Some && r->0@ == t,
        r is None <==> exists|i: int| 0 <= i < value@.len() && !prints(#[trigger] value@[i]),
{
    lemma_visible(value@, t);
}

proof fn lemma_visible(value: Seq<u8>, t: Seq<char>)
    ensures
        spells(value, t) ==> visible_text(value) == Some(t),
        visible_text(value) is None <==> exists|i: int|
            0 <= i < value.len() && !prints(#[trigger] value[i]),
{
    if spells(value, t) {
        assert forall|i: int| 0 <= i < value.len() implies visible(#[trigger] value[i]) by {
            assert(prints(value[i]));
        }
        let read = Seq::new(value.len(), |i: int| value[i] as char);
        assert forall|i: int| 0 <= i < t.len() implies read[i] == t[i] by {
            assert(prints(value[i]) && t[i] as int == value[i] as int);
        }
        assert(read =~= t);
    }
    if visible_text(value) is None {
        let i = choose|i: int| 0 <= i < value.len() && !visible(#[trigger] value[i]);
        assert(!prints(value[i]));
    }
    if exists|i: int| 0 <= i < value.len() && !prints(#[trigger] value[i]) {
        let i = choose|i: int| 0 <= i < value.len() && !prints(#[trigger] value[i]);
        assert(!visible(value[i]));
    }
}

proof fn lemma_header_text(
    headers: http::HeaderMap<http::HeaderValue>,
    name: Seq<char>,
    small: Seq<char>,
    t: Seq<char>,
)
    requires
        small_form(name, small),
    ensures
        header_is(headers, small, t) ==> header_text(headers, name) == Some(t),
        header_lacks(headers, small) ==> header_text(headers, name) is None,
{
    law_small_letters(name);
    assert(text::lowered(name) == small);
    if header_values(headers).contains_key(small) {
        lemma_visible(header_values(headers)[small][0], t);
    }
}

proof fn lemma_names_are_small()
    ensures
        small_form("host"@, "host"@),
        small_form(":authority"@, ":authority"@),
        small_form("cookie"@, "cookie"@),
{
    reveal_strlit("host");
    reveal_strlit(":authority");
    reveal_strlit("cookie");
}

/// A request's host is that of its `Host` header: what it names, without the port, in small letters,
/// and nothing else. Without a `Host` header it is that of `:authority`, and without both there is
/// none.
pub proof fn law_extract_host(
    headers: &http::HeaderMap<http::HeaderValue>,
    r: Option<String>,
    t: Seq<char>,
    name: Seq<char>,
)
    requires
        call_ensures(extract_host, (headers,), r),
        host_part(t, name),
    ensures
        header_is(*headers, "host"@, t) ==> r is Some && small_form(name, r->0@),
        header_lacks(*headers, "host"@) && header_is(*headers, ":authority"@, t) ==> r is Some
            && small_form(name, r->0@),
        header_lacks(*headers, "host"@) && header_lacks(*headers, ":authority"@) ==> r is None,
{
    lemma_request_host(*headers, t, name);
}

/// The same of the host by which requests are routed.
pub proof fn lemma_request_host(
    headers: http::HeaderMap<http::HeaderValue>,
    t: Seq<char>,
    name: Seq<char>,
)
    requires
        host_part(t, name),
    ensures
        header_is(headers, "host"@, t) ==> request_host(headers) is Some && small_form(
            name,
            request_host(headers)->0,
        ),
        header_lacks(headers, "host"@) && header_is(headers, ":authority"@, t) ==> request_host(
            headers,
        ) is Some && small_form(name, request_host(headers)->0),
        header_lacks(headers, "host"@) && header_lacks(headers, ":authority"@) ==> request_host(
            headers,
        ) is None,
{
    lemma_names_are_small();
    lemma_header_text(headers, "host"@, "host"@, t);
    lemma_header_text(headers, ":authority"@, ":authority"@, t);
    lemma_host_key(t, name);
}

/// Whether `key` can be an affinity key: it is not empty, takes at most 256 bytes, and neither
/// starts nor ends with a blank.
pub open spec fn key_fits(key: Seq<char>) -> bool {
    0 < key.len() && vstd::utf8::encode_utf8(key).len() <= 256 && no_outer_blanks(key)
}

/// The key in an affinity header is what stands between its blanks, and there is none where that is
/// empty or too long, or where there is no such header. The name of the header may be given in
/// capitals.
pub proof fn law_extract_header_value(
    headers: &http::HeaderMap<http::HeaderValue>,
    header_name: &str,
    small: Seq<char>,
    before: Seq<char>,
    key: Seq<char>,
    behind: Seq<char>,
    r: Option<String>,
)
    requires
        call_ensures(extract_header_value, (headers, header_name), r),
        small_form(header_name@, small),
        only_blanks(before),
        only_blanks(behind),
        no_outer_blanks(key),
    ensures
        header_is(*headers, small, before + key + behind) && key_fits(key) ==> r is Some && r->0@
            == key,
        header_is(*headers, small, before + key + behind) && !key_fits(key) ==> r is None,
        header_lacks(*headers, small) ==> r is None,
{
    lemma_header_text(*headers, header_name@, small, before + key + behind);
    law_trimming(before, key, behind);
}

/// Whether a text is the pair `name=key`, with blanks where a cookie may have them.
pub open spec fn pair_of(
    pair: Seq<char>,
    name: Seq<char>,
    key: Seq<char>,
    before: Seq<char>,
    between: Seq<char>,
    behind: Seq<char>,
) -> bool {
    &&& pair == before + name + seq!['='] + between + key + behind
    &&& only_blanks(before)
    &&& only_blanks(between)
    &&& only_blanks(behind)
    &&& key_fits(key)
}

proof fn lemma_pair_read(
    pair: Seq<char>,
    name: Seq<char>,
    key: Seq<char>,
    before: Seq<char>,
    between: Seq<char>,
    behind: Seq<char>,
)
    requires
        pair_of(pair, name, key, before, between, behind),
        name.len() > 0,
        no_outer_blanks(name),
        !name.contains('='),
    ensures
        pair_value(pair, name) == Some(key),
{
    let inner = name + seq!['='] + between + key;
    let n = name.len() as int;
    assert(pair =~= before + inner + behind);
    assert(inner[0] == name[0]);
    assert(inner.last() == key.last());
    law_trimming(before, inner, behind);
    assert forall|k: int| 0 <= k < n implies inner[k] != '=' by {
        assert(inner[k] == name[k]);
        assert(name.contains(name[k]));
    }
    assert(inner[n] == '=');
    text::lemma_first_is(inner, '=', n, 0);
    assert(inner.take(n) =~= name);
    let value = inner.skip(n + 1);
    let none = Seq::<char>::empty();
    assert(value =~= between + key + none);
    law_trimming(between, key, none);
}

/// A pair that brings a key has the cookie's name, an equals sign and the key.
#[verifier::spinoff_prover]
proof fn lemma_pair_has_name(pair: Seq<char>, name: Seq<char>) -> (r: (
    Seq<char>,
    Seq<char>,
    Seq<char>,
))
    requires
        pair_value(pair, name) is Some,
    ensures
        pair_of(pair, name, pair_value(pair, name)->0, r.0, r.1, r.2),
{
    let key = pair_value(pair, name)->0;
    let outer = law_trimmed(pair);
    let inner = text::trimmed(pair);
    text::lemma_first_found(inner, '=', 0);
    let eq = text::first_from(inner, '=', 0);
    let value = inner.skip(eq + 1);
    let around = law_trimmed(value);
    let behind = around.1 + outer.1;
    lemma_blanks_together(around.1, outer.1);
    let head = name + seq!['='];
    assert(inner.take(eq) == name);
    assert(inner =~= head + value);
    lemma_pair_put_together(pair, outer.0, head, around.0, key, around.1, outer.1);
    assert(outer.0 + head + around.0 + key + behind =~= outer.0 + name + seq!['='] + around.0 + key
        + behind);
    (outer.0, around.0, behind)
}

proof fn lemma_blanks_together(a: Seq<char>, b: Seq<char>)
    requires
        only_blanks(a),
        only_blanks(b),
    ensures
        only_blanks(a + b),
{
    assert forall|i: int| 0 <= i < (a + b).len() implies text::laws::blank(#[trigger] (a + b)[i]) by {
        if i < a.len() {
            assert((a + b)[i] == a[i]);
        } else {
            assert((a + b)[i] == b[i - a.len()]);
        }
    }
}

#[verifier::spinoff_prover]
proof fn lemma_pair_put_together(
    pair: Seq<char>,
    a: Seq<char>,
    head: Seq<char>,
    b: Seq<char>,
    key: Seq<char>,
    c: Seq<char>,
    d: Seq<char>,
)
    requires
        pair == a + (head + (b + key + c)) + d,
    ensures
        pair == a + head + b + key + (c + d),
{
    assert(a + (head + (b + key + c)) + d =~= a + head + b + key + (c + d));
}

/// Cookies are read pair by pair, and the first that brings a key counts.
pub proof fn law_cookies_are_read_in_turn(
    pair: Seq<char>,
    more: Seq<char>,
    cookie_name: Seq<char>,
)
    requires
        !pair.contains(';'),
    ensures
        cookie_key(pair, cookie_name) == pair_value(pair, cookie_name),
        cookie_key(pair + seq![';'] + more, cookie_name) == (match pair_value(pair, cookie_name) {
            Some(key) => Some(key),
            None => cookie_key(more, cookie_name),
        }),
{
    let n = pair.len() as int;
    assert forall|k: int| 0 <= k < n implies pair[k] != ';' by {
        assert(pair.contains(pair[k]));
    }
    text::lemma_first_is(pair, ';', n, 0);
    let alone = text::split(pair, ';');
    assert(alone =~= seq![pair]);
    assert(alone[0] == pair);
    assert(alone.drop_first() =~= Seq::empty());
    assert(first_pair_value(alone.drop_first(), cookie_name) is None);
    let full = pair + seq![';'] + more;
    assert(full[n] == ';');
    assert forall|k: int| 0 <= k < n implies full[k] != ';' by {
        assert(full[k] == pair[k]);
    }
    text::lemma_first_is(full, ';', n, 0);
    assert(full.take(n) =~= pair);
    assert(full.skip(n + 1) =~= more);
    let all = text::split(full, ';');
    assert(all == seq![pair] + text::split(more, ';'));
    assert(all[0] == pair);
    assert(all.drop_first() =~= text::split(more, ';'));
}

/// Whether `name=` stands somewhere in a text.
pub open spec fn names_cookie(s: Seq<char>, name: Seq<char>) -> bool {
    exists|k: int|
        0 <= k && k + name.len() < s.len() && #[trigger] s.subrange(k, k + name.len() as int)
            == name && s[k + name.len()] == '='
}

/// Cookies that nowhere name the affinity cookie bring no key, and those behind them are read as
/// if they stood alone.
proof fn lemma_other_cookies(front: Seq<char>, more: Seq<char>, name: Seq<char>)
    requires
        !names_cookie(front, name),
    ensures
        cookie_key(front, name) is None,
        cookie_key(front + seq![';'] + more, name) == cookie_key(more, name),
    decreases front.len(),
{
    text::lemma_first_found(front, ';', 0);
    let i = text::first_from(front, ';', 0);
    let pair = front.take(i);
    assert(!pair.contains(';'));
    if pair_value(pair, name) is Some {
        let key = pair_value(pair, name)->0;
        let w = lemma_pair_has_name(pair, name);
        let k = w.0.len() as int;
        assert(pair == w.0 + name + seq!['='] + w.1 + key + w.2);
        assert(pair.len() > k + name.len());
        assert forall|j: int| 0 <= j < name.len() implies front.subrange(
            k,
            k + name.len() as int,
        )[j] == name[j] by {
            assert(front[k + j] == pair[k + j]);
        }
        assert(front.subrange(k, k + name.len() as int) =~= name);
        assert(pair[k + name.len()] == '=');
        assert(front[k + name.len()] == '=');
        assert(names_cookie(front, name));
    }
    if i < front.len() {
        let rest = front.skip(i + 1);
        if names_cookie(rest, name) {
            let k = choose|k: int|
                0 <= k && k + name.len() < rest.len() && #[trigger] rest.subrange(
                    k,
                    k + name.len() as int,
                ) == name && rest[k + name.len()] == '=';
            assert(front.subrange(i + 1 + k, i + 1 + k + name.len() as int) =~= rest.subrange(
                k,
                k + name.len() as int,
            ));
            assert(front[i + 1 + k + name.len()] == rest[k + name.len()]);
            assert(names_cookie(front, name));
        }
        lemma_other_cookies(rest, more, name);
        assert(front =~= pair + seq![';'] + rest);
        law_cookies_are_read_in_turn(pair, rest, name);
        assert(front + seq![';'] + more =~= pair + seq![';'] + (rest + seq![';'] + more));
        law_cookies_are_read_in_turn(pair, rest + seq![';'] + more, name);
    } else {
        assert(pair =~= front);
        law_cookies_are_read_in_turn(pair, more, name);
    }
}

/// Whether cookies hold a pair before any other that has the cookie's name: in front of it stands
/// nothing, or other cookies and a `;`, and behind it nothing, or a `;` and whatever else.
pub open spec fn cookies_hold(
    cookies: Seq<char>,
    name: Seq<char>,
    front: Option<Seq<char>>,
    pair: Seq<char>,
    back: Option<Seq<char>>,
) -> bool {
    &&& front matches Some(front) ==> !names_cookie(front, name)
    &&& !pair.contains(';')
    &&& cookies == (match front {
        Some(front) => front + seq![';'],
        None => Seq::empty(),
    }) + pair + (match back {
        Some(back) => seq![';'] + back,
        None => Seq::empty(),
    })
}

/// The affinity key in a cookie header is the value behind `name=`, wherever among other cookies it
/// stands, without the blanks around it, if it fits.
pub proof fn law_cookie_is_found(
    cookies: Seq<char>,
    name: Seq<char>,
    key: Seq<char>,
    front: Option<Seq<char>>,
    pair: Seq<char>,
    back: Option<Seq<char>>,
    before: Seq<char>,
    between: Seq<char>,
    behind: Seq<char>,
)
    requires
        cookies_hold(cookies, name, front, pair, back),
        pair_of(pair, name, key, before, between, behind),
        name.len() > 0,
        no_outer_blanks(name),
        !name.contains('='),
    ensures
        cookie_key(cookies, name) == Some(key),
{
    lemma_pair_read(pair, name, key, before, between, behind);
    let tail = pair + (match back {
        Some(back) => seq![';'] + back,
        None => Seq::empty(),
    });
    match back {
        Some(back) => {
            assert(tail =~= pair + seq![';'] + back);
            law_cookies_are_read_in_turn(pair, back, name);
        },
        None => {
            assert(tail =~= pair);
            law_cookies_are_read_in_turn(pair, pair, name);
        },
    }
    match front {
        Some(front) => {
            assert(cookies =~= front + seq![';'] + tail);
            lemma_other_cookies(front, tail, name);
        },
        None => {
            assert(cookies =~= tail);
        },
    }
}

/// [`find_cookie_key`] finds the key behind the cookie's name, and nothing where the cookie is
/// nowhere named.
pub proof fn law_find_cookie_key(
    cookies: &str,
    cookie_name: &str,
    r: Option<String>,
    key: Seq<char>,
    front: Option<Seq<char>>,
    pair: Seq<char>,
    back: Option<Seq<char>>,
    before: Seq<char>,
    between: Seq<char>,
    behind: Seq<char>,
)
    requires
        call_ensures(find_cookie_key, (cookies, cookie_name), r),
        cookie_name@.len() > 0,
        no_outer_blanks(cookie_name@),
        !cookie_name@.contains('='),
    ensures
        cookies_hold(cookies@, cookie_name@, front, pair, back) && pair_of(
            pair,
            cookie_name@,
            key,
            before,
            between,
            behind,
        ) ==> r is Some && r->0@ == key,
        !names_cookie(cookies@, cookie_name@) ==> r is None,
{
    if cookies_hold(cookies@, cookie_name@, front, pair, back) && pair_of(
        pair,
        cookie_name@,
        key,
        before,
        between,
        behind,
    ) {
        law_cookie_is_found(
            cookies@,
            cookie_name@,
            key,
            front,
            pair,
            back,
            before,
            between,
            behind,
        );
    }
    if !names_cookie(cookies@, cookie_name@) {
        lemma_other_cookies(cookies@, cookies@, cookie_name@);
    }
}

/// A request's affinity cookie is looked for in its `Cookie` header.
pub proof fn law_extract_cookie_value(
    headers: &http::HeaderMap<http::HeaderValue>,
    cookie_name: &str,
    r: Option<String>,
    cookies: Seq<char>,
    key: Seq<char>,
    front: Option<Seq<char>>,
    pair: Seq<char>,
    back: Option<Seq<char>>,
    before: Seq<char>,
    between: Seq<char>,
    behind: Seq<char>,
)
    requires
        call_ensures(extract_cookie_value, (headers, cookie_name), r),
        cookie_name@.len() > 0,
        no_outer_blanks(cookie_name@),
        !cookie_name@.contains('='),
    ensures
        header_is(*headers, "cookie"@, cookies) && cookies_hold(
            cookies,
            cookie_name@,
            front,
            pair,
            back,
        ) && pair_of(pair, cookie_name@, key, before, between, behind) ==> r is Some && r->0@
            == key,
        header_is(*headers, "cookie"@, cookies) && !names_cookie(cookies, cookie_name@)
            ==> r is None,
        header_lacks(*headers, "cookie"@) ==> r is None,
{
    lemma_names_are_small();
    lemma_header_text(*headers, "cookie"@, "cookie"@, cookies);
    if header_is(*headers, "cookie"@, cookies) && cookies_hold(
        cookies,
        cookie_name@,
        front,
        pair,
        back,
    ) && pair_of(pair, cookie_name@, key, before, between, behind) {
        law_cookie_is_found(cookies, cookie_name@, key, front, pair, back, before, between, behind);
    }
    if header_is(*headers, "cookie"@, cookies) && !names_cookie(cookies, cookie_name@) {
        lemma_other_cookies(cookies, cookies, cookie_name@);
    }
}

/// The affinity cookie of a request, over what its `Cookie` header holds.
pub proof fn lemma_affinity_cookie(
    headers: http::HeaderMap<http::HeaderValue>,
    name: Seq<char>,
    cookies: Seq<char>,
)
    ensures
        header_is(headers, "cookie"@, cookies) ==> request_cookie_key(headers, name) == cookie_key(
            cookies,
            name,
        ),
        header_is(headers, "cookie"@, cookies) && !names_cookie(cookies, name)
            ==> request_cookie_key(headers, name) is None,
        header_lacks(headers, "cookie"@) ==> request_cookie_key(headers, name) is None,
{
    lemma_names_are_small();
    lemma_header_text(headers, "cookie"@, "cookie"@, cookies);
    if !names_cookie(cookies, name) {
        lemma_other_cookies(cookies, cookies, name);
    }
}

/// The affinity header of a request, over what it holds.
pub proof fn lemma_affinity_header(
    headers: http::HeaderMap<http::HeaderValue>,
    name: Seq<char>,
    small: Seq<char>,
    before: Seq<char>,
    key: Seq<char>,
    behind: Seq<char>,
)
    requires
        small_form(name, small),
        only_blanks(before),
        only_blanks(behind),
        no_outer_blanks(key),
    ensures
        header_is(headers, small, before + key + behind) && key_fits(key) ==> request_header_key(
            headers,
            name,
        ) == Some(key),
        header_is(headers, small, before + key + behind) && !key_fits(key) ==> request_header_key(
            headers,
            name,
        ) is None,
        header_lacks(headers, small) ==> request_header_key(headers, name) is None,
{
    lemma_header_text(headers, name, small, before + key + behind);
    law_trimming(before, key, behind);
}

} // verus!
