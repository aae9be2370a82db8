//! Text primitives: searching, splitting, trimming and formatting over the characters of a string.

use vstd::prelude::*;
use vstd::string::*;

pub mod laws;

verus! {

/// The index of the first `c` in `s` at or after `i`, or `s.len()` when there is none.
pub open spec fn first_from(s: Seq<char>, c: char, i: int) -> int
    decreases s.len() - i,
{
    if i >= s.len() {
        s.len() as int
    } else if s[i] == c {
        i
    } else {
        first_from(s, c, i + 1)
    }
}

/// The index of the last `c` in `s` before `i`, or `-1` when there is none.
pub open spec fn last_before(s: Seq<char>, c: char, i: int) -> int
    decreases i,
{
    if i <= 0 {
        -1
    } else if s[i - 1] == c {
        i - 1
    } else {
        last_before(s, c, i - 1)
    }
}

/// The pieces of `s` between the occurrences of `c`; a string without `c` is one piece.
pub open spec fn split(s: Seq<char>, c: char) -> Seq<Seq<char>>
    decreases s.len(),
{
    let i = first_from(s, c, 0);
    if 0 <= i < s.len() {
        seq![s.take(i)] + split(s.skip(i + 1), c)
    } else {
        seq![s]
    }
}

/// Searching from `k + i` is searching from `i` behind the first `k` characters.
pub proof fn lemma_first_behind(s: Seq<char>, c: char, k: int, i: int)
    requires
        0 <= k <= s.len(),
        0 <= i <= s.len() - k,
    ensures
        first_from(s.skip(k), c, i) == first_from(s, c, k + i) - k,
        i <= first_from(s.skip(k), c, i) <= s.len() - k,
    decreases s.len() - k - i,
{
    if i < s.len() - k && s[k + i] != c {
        lemma_first_behind(s, c, k, i + 1);
    }
}

/// The first `c` is where it stands with none before it.
pub proof fn lemma_first_is(s: Seq<char>, c: char, p: int, i: int)
    requires
        0 <= i <= p <= s.len(),
        p < s.len() ==> s[p] == c,
        forall|k: int| i <= k < p ==> s[k] != c,
    ensures
        first_from(s, c, i) == p,
    decreases p - i,
{
    if i < p {
        lemma_first_is(s, c, p, i + 1);
    }
}

/// What is found is a `c`, and the first.
pub proof fn lemma_first_found(s: Seq<char>, c: char, i: int)
    requires
        0 <= i <= s.len(),
    ensures
        i <= first_from(s, c, i) <= s.len(),
        first_from(s, c, i) < s.len() ==> s[first_from(s, c, i)] == c,
        forall|k: int| i <= k < first_from(s, c, i) ==> s[k] != c,
    decreases s.len() - i,
{
    if i < s.len() && s[i] != c {
        lemma_first_found(s, c, i + 1);
    }
}

/// Unicode's `White_Space` property.
pub open spec fn white_space(c: char) -> bool {
    ||| '\u{9}' <= c <= '\u{d}'
    ||| c == '\u{20}'
    ||| c == '\u{85}'
    ||| c == '\u{a0}'
    ||| c == '\u{1680}'
    ||| '\u{2000}' <= c <= '\u{200a}'
    ||| c == '\u{2028}'
    ||| c == '\u{2029}'
    ||| c == '\u{202f}'
    ||| c == '\u{205f}'
    ||| c == '\u{3000}'
}

/// The index of the first character at or after `i` that is no white space, or `s.len()`.
pub open spec fn text_start(s: Seq<char>, i: int) -> int
    decreases s.len() - i,
{
    if i >= s.len() {
        s.len() as int
    } else if white_space(s[i]) {
        text_start(s, i + 1)
    } else {
        i
    }
}

/// The index behind the last character in `from..j` that is no white space, or `from`.
pub open spec fn text_end(s: Seq<char>, from: int, j: int) -> int
    decreases j - from,
{
    if j <= from {
        from
    } else if white_space(s[j - 1]) {
        text_end(s, from, j - 1)
    } else {
        j
    }
}

/// `s` without the white space at its two ends.
pub open spec fn trimmed(s: Seq<char>) -> Seq<char> {
    let a = text_start(s, 0);
    s.subrange(a, text_end(s, a, s.len() as int))
}

pub open spec fn ascii_upper(c: char) -> bool {
    'A' <= c <= 'Z'
}

pub open spec fn ascii_digit(c: char) -> bool {
    '0' <= c <= '9'
}

pub open spec fn ascii_alphanumeric(c: char) -> bool {
    ascii_digit(c) || ascii_upper(c) || 'a' <= c <= 'z'
}

/// `c` with an ASCII capital replaced by its small letter.
pub open spec fn lower_char(c: char) -> char {
    if ascii_upper(c) {
        (c as u8 + 32) as char
    } else {
        c
    }
}

/// `s` with every ASCII capital replaced by its small letter.
pub open spec fn lowered(s: Seq<char>) -> Seq<char> {
    Seq::new(s.len(), |i: int| lower_char(s[i]))
}

/// The digit `d` as it is written, small letters standing for ten and above.
pub open spec fn digit(d: int) -> char {
    if d < 10 {
        ('0' as int + d) as char
    } else {
        ('a' as int + d - 10) as char
    }
}

/// `n` written in `base` without leading zeros.
pub open spec fn numeral(n: nat, base: nat) -> Seq<char>
    decreases n,
{
    if base < 2 || n < base {
        seq![digit(n as int)]
    } else {
        proof {
            assert(n / base < n) by (nonlinear_arith)
                requires
                    2 <= base <= n,
            ;
        }
        numeral(n / base, base).push(digit((n % base) as int))
    }
}

/// `String::push` appends one character.
pub assume_specification[ String::push ](s: &mut String, c: char)
    ensures
        final(s)@ == old(s)@.push(c),
;

/// The characters of a string as a vector.
pub fn chars_of(s: &str) -> (r: Vec<char>)
    ensures
        r@ == s@,
{
    let mut r: Vec<char> = Vec::new();
    for c in it: s.chars()
        invariant
            r@ == it.seq().take(it.index()),
            it.seq() == s@,
    {
        r.push(c);
    }
    r
}

/// Whether two strings hold the same characters.
pub fn same(a: &str, b: &str) -> (r: bool)
    ensures
        r == (a@ == b@),
{
    let x = chars_of(a);
    let y = chars_of(b);
    if x.len() != y.len() {
        return false;
    }
    let mut i: usize = 0;
    while i < x.len()
        invariant
            i <= x@.len() == y@.len(),
            x@ == a@,
            y@ == b@,
            forall|j: int| 0 <= j < i ==> x@[j] == y@[j],
        decreases x@.len() - i,
    {
        if x[i] != y[i] {
            return false;
        }
        i += 1;
    }
    assert(a@ =~= b@);
    true
}

/// The index of the first `c` at or after `from`.
pub fn find_from(chars: &Vec<char>, c: char, from: usize) -> (r: usize)
    requires
        from <= chars@.len(),
    ensures
        r == first_from(chars@, c, from as int),
        from <= r <= chars@.len(),
        r < chars@.len() ==> chars@[r as int] == c,
        forall|j: int| from <= j < r ==> chars@[j] != c,
{
    let mut i: usize = from;
    while i < chars.len() && chars[i] != c
        invariant
            from <= i <= chars@.len(),
            forall|j: int| from <= j < i ==> chars@[j] != c,
            first_from(chars@, c, i as int) == first_from(chars@, c, from as int),
        decreases chars@.len() - i,
    {
        i += 1;
    }
    i
}

pub fn is_white_space(c: char) -> (r: bool)
    ensures
        r == white_space(c),
{
    ('\u{9}' <= c && c <= '\u{d}') || c == '\u{20}' || c == '\u{85}' || c == '\u{a0}' || c
        == '\u{1680}' || ('\u{2000}' <= c && c <= '\u{200a}') || c == '\u{2028}' || c == '\u{2029}'
        || c == '\u{202f}' || c == '\u{205f}' || c == '\u{3000}'
}

/// Drops the white space at both ends of a string.
pub fn trim(s: &str) -> (r: &str)
    ensures
        r@ == trimmed(s@),
{
    let chars = chars_of(s);
    let mut a: usize = 0;
    while a < chars.len() && is_white_space(chars[a])
        invariant
            a <= chars@.len(),
            text_start(chars@, 0) == text_start(chars@, a as int),
        decreases chars@.len() - a,
    {
        a += 1;
    }
    let mut b: usize = chars.len();
    while a < b && is_white_space(chars[b - 1])
        invariant
            a <= b <= chars@.len(),
            text_end(chars@, a as int, chars@.len() as int) == text_end(
                chars@,
                a as int,
                b as int,
            ),
        decreases b - a,
    {
        b -= 1;
    }
    s.substring_char(a, b)
}

pub fn is_ascii_upper(c: char) -> (r: bool)
    ensures
        r == ascii_upper(c),
{
    'A' <= c && c <= 'Z'
}

pub fn to_lower_char(c: char) -> (r: char)
    ensures
        r == lower_char(c),
{
    if is_ascii_upper(c) {
        (c as u8 + 32) as char
    } else {
        c
    }
}

/// Replaces every ASCII capital by its small letter.
pub fn to_lower(s: &str) -> (r: String)
    ensures
        r@ == lowered(s@),
{
    let mut r = String::new();
    for c in it: s.chars()
        invariant
            r@ == lowered(s@).take(it.index()),
            it.seq() == s@,
    {
        r.push(to_lower_char(c));
    }
    r
}

/// Whether some character is an ASCII capital.
pub fn has_upper(s: &str) -> (r: bool)
    ensures
        r == exists|i: int| 0 <= i < s@.len() && ascii_upper(#[trigger] s@[i]),
{
    for c in it: s.chars()
        invariant
            it.seq() == s@,
            forall|i: int| 0 <= i < it.index() ==> !ascii_upper(#[trigger] s@[i]),
    {
        if is_ascii_upper(c) {
            assert(ascii_upper(s@[it.index()]));
            return true;
        }
    }
    false
}

/// Writes `n` in `base`, without leading zeros.
pub fn to_numeral(n: u128, base: u128) -> (r: String)
    requires
        2 <= base <= 16,
    ensures
        r@ == numeral(n as nat, base as nat),
    decreases n,
{
    let d: u8 = (n % base) as u8;
    let c: char = if d < 10 {
        (48u8 + d) as char
    } else {
        (97u8 + (d - 10)) as char
    };
    let mut r = if n < base {
        String::new()
    } else {
        assert(n / base < n) by (nonlinear_arith)
            requires
                2 <= base <= n,
        ;
        to_numeral(n / base, base)
    };
    proof {
        if n < base {
            vstd::arithmetic::div_mod::lemma_small_mod(n as nat, base as nat);
        }
        assert(c == digit((n as nat % base as nat) as int));
    }
    r.push(c);
    r
}

/// Two numbers that are written alike are the same number.
pub proof fn lemma_numeral_injective(a: nat, b: nat, base: nat)
    requires
        2 <= base <= 16,
        numeral(a, base) == numeral(b, base),
    ensures
        a == b,
    decreases a,
{
    let x = numeral(a, base);
    let y = numeral(b, base);
    assert(x.last() == digit((a % base) as int)) by {
        if a < base {
            vstd::arithmetic::div_mod::lemma_small_mod(a, base);
        }
    }
    assert(y.last() == digit((b % base) as int)) by {
        if b < base {
            vstd::arithmetic::div_mod::lemma_small_mod(b, base);
        }
    }
    vstd::arithmetic::div_mod::lemma_mod_bound(a as int, base as int);
    vstd::arithmetic::div_mod::lemma_mod_bound(b as int, base as int);
    assert(a % base == b % base);
    if a < base || b < base {
        if a >= base {
            lemma_numeral_nonempty(a / base, base);
            assert(x.len() > 1);
        }
        if b >= base {
            lemma_numeral_nonempty(b / base, base);
            assert(y.len() > 1);
        }
        vstd::arithmetic::div_mod::lemma_small_mod(a, base);
        vstd::arithmetic::div_mod::lemma_small_mod(b, base);
    } else {
        assert(x.drop_last() =~= numeral(a / base, base));
        assert(y.drop_last() =~= numeral(b / base, base));
        assert(a / base < a) by (nonlinear_arith)
            requires
                2 <= base <= a,
        ;
        lemma_numeral_injective(a / base, b / base, base);
        vstd::arithmetic::div_mod::lemma_fundamental_div_mod(a as int, base as int);
        vstd::arithmetic::div_mod::lemma_fundamental_div_mod(b as int, base as int);
    }
}

/// A number takes at least one digit.
pub proof fn lemma_numeral_nonempty(n: nat, base: nat)
    ensures
        numeral(n, base).len() > 0,
    decreases n,
{
}

} // verus!
