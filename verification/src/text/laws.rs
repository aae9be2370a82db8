//! What the text primitives do, said of the characters alone.

use vstd::prelude::*;

use super::{
    ascii_alphanumeric, ascii_digit, ascii_upper, chars_of, find_from, first_from, is_ascii_upper,
    is_white_space, last_before, lemma_first_found, lemma_numeral_nonempty, lowered, numeral, same,
    split, text_end, text_start, to_lower, to_lower_char, to_numeral, trim, trimmed, white_space,
};

verus! {

/// Whether `b` is `a` with each capital of ASCII replaced by its small letter and nothing else
/// changed.
pub open spec fn small_form(a: Seq<char>, b: Seq<char>) -> bool {
    &&& b.len() == a.len()
    &&& forall|i: int|
        0 <= i < a.len() ==> #[trigger] b[i] as int == (if 65 <= a[i] as int <= 90 {
            a[i] as int + 32
        } else {
            a[i] as int
        })
}

/// Whether two texts differ in the case of ASCII letters at most.
pub open spec fn same_but_case(a: Seq<char>, b: Seq<char>) -> bool {
    &&& a.len() == b.len()
    &&& forall|i: int|
        0 <= i < a.len() ==> #[trigger] a[i] == #[trigger] b[i] || (65 <= a[i] as int <= 90
            && b[i] as int == a[i] as int + 32) || (65 <= b[i] as int <= 90 && a[i] as int
            == b[i] as int + 32)
}

/// Whether `s` is made of the digits `0` to `9`.
pub open spec fn only_digits(s: Seq<char>) -> bool {
    forall|i: int| 0 <= i < s.len() ==> 48 <= #[trigger] s[i] as int <= 57
}

/// Whether a character is blank, by its number.
pub open spec fn blank(c: char) -> bool {
    let n = c as int;
    ||| 9 <= n <= 13
    ||| n == 32
    ||| n == 133
    ||| n == 160
    ||| n == 5760
    ||| 8192 <= n <= 8202
    ||| n == 8232
    ||| n == 8233
    ||| n == 8239
    ||| n == 8287
    ||| n == 12288
}

/// Whether `s` is made of blanks.
pub open spec fn only_blanks(s: Seq<char>) -> bool {
    forall|i: int| 0 <= i < s.len() ==> blank(#[trigger] s[i])
}

/// Whether `s` neither starts nor ends with a blank.
pub open spec fn no_outer_blanks(s: Seq<char>) -> bool {
    s.len() > 0 ==> !blank(s[0]) && !blank(s.last())
}

/// Small letters: of the same length, and each character is the small letter of a capital of ASCII
/// or the character itself.
pub proof fn law_small_letters(s: Seq<char>)
    ensures
        small_form(s, lowered(s)),
        forall|t: Seq<char>| #[trigger] small_form(s, t) ==> t == lowered(s),
{
    assert forall|t: Seq<char>| #[trigger] small_form(s, t) implies t == lowered(s) by {
        assert(t =~= lowered(s)) by {
            assert forall|i: int| 0 <= i < t.len() implies t[i] == lowered(s)[i] by {
                assert(t[i] as int == lowered(s)[i] as int);
            }
        }
    }
}

/// What [`to_lower`] gives is the small form of its argument.
pub proof fn law_to_lower(s: &str, r: String)
    requires
        call_ensures(to_lower, (s,), r),
    ensures
        small_form(s@, r@),
{
    law_small_letters(s@);
}

/// Texts have the same small form exactly when they differ in case at most.
pub proof fn law_small_letters_compare_without_case(a: Seq<char>, b: Seq<char>)
    ensures
        lowered(a) == lowered(b) <==> same_but_case(a, b),
{
    let x = lowered(a);
    let y = lowered(b);
    if x == y {
        assert(a.len() == x.len() && b.len() == y.len());
        assert forall|i: int| 0 <= i < a.len() implies #[trigger] a[i] == #[trigger] b[i] || (65
            <= a[i] as int <= 90 && b[i] as int == a[i] as int + 32) || (65 <= b[i] as int <= 90
            && a[i] as int == b[i] as int + 32) by {
            assert(x[i] == y[i]);
            assert(x[i] as int == y[i] as int);
            if a[i] as int == b[i] as int {
                assert(a[i] == b[i]);
            }
        }
    }
    if same_but_case(a, b) {
        assert forall|i: int| 0 <= i < a.len() implies x[i] == y[i] by {
            assert(a[i] == b[i] || true);
            assert(x[i] as int == y[i] as int);
        }
        assert(x =~= y);
    }
}

/// The classes of ASCII characters.
pub proof fn law_ascii_classes(c: char)
    ensures
        ascii_upper(c) <==> 65 <= c as int <= 90,
        ascii_digit(c) <==> 48 <= c as int <= 57,
        ascii_alphanumeric(c) <==> 48 <= c as int <= 57 || 65 <= c as int <= 90 || 97 <= c as int
            <= 122,
        white_space(c) <==> blank(c),
{
}

/// Two strings are [`same`] exactly when they have the same characters.
pub proof fn law_same(a: &str, b: &str, r: bool)
    requires
        call_ensures(same, (a, b), r),
    ensures
        r <==> a@.len() == b@.len() && forall|i: int| 0 <= i < a@.len() ==> a@[i] == b@[i],
{
    if a@.len() == b@.len() && forall|i: int| 0 <= i < a@.len() ==> a@[i] == b@[i] {
        assert(a@ =~= b@);
    }
}

/// The last `c` before `i` is where it stands with none behind it.
pub proof fn law_last_found(s: Seq<char>, c: char, i: int)
    requires
        0 <= i <= s.len(),
    ensures
        -1 <= last_before(s, c, i) < i,
        last_before(s, c, i) >= 0 ==> s[last_before(s, c, i)] == c,
        forall|k: int| last_before(s, c, i) < k < i ==> s[k] != c,
    decreases i,
{
    if i > 0 && s[i - 1] != c {
        law_last_found(s, c, i - 1);
    }
}

proof fn lemma_text_start(s: Seq<char>, i: int, p: int)
    requires
        0 <= i <= p <= s.len(),
        forall|k: int| i <= k < p ==> blank(#[trigger] s[k]),
        p < s.len() ==> !blank(s[p]),
    ensures
        text_start(s, i) == p,
    decreases p - i,
{
    if i < p {
        law_ascii_classes(s[i]);
        lemma_text_start(s, i + 1, p);
    } else if i < s.len() {
        law_ascii_classes(s[i]);
    }
}

proof fn lemma_text_end(s: Seq<char>, from: int, j: int, q: int)
    requires
        0 <= from <= q <= j <= s.len(),
        forall|k: int| q <= k < j ==> blank(#[trigger] s[k]),
        q > from ==> !blank(s[q - 1]),
    ensures
        text_end(s, from, j) == q,
    decreases j - q,
{
    if j > q {
        law_ascii_classes(s[j - 1]);
        lemma_text_end(s, from, j - 1, q);
    } else if j > from {
        law_ascii_classes(s[j - 1]);
    }
}

/// Trimming drops the blanks at both ends and keeps everything between them.
pub proof fn law_trimming(before: Seq<char>, s: Seq<char>, behind: Seq<char>)
    requires
        only_blanks(before),
        only_blanks(behind),
        no_outer_blanks(s),
    ensures
        trimmed(before + s + behind) == s,
{
    let full = before + s + behind;
    let n = before.len() as int;
    if s.len() > 0 {
        assert(full[n] == s[0]);
        assert forall|k: int| 0 <= k < n implies blank(#[trigger] full[k]) by {
            assert(full[k] == before[k]);
        }
        lemma_text_start(full, 0, n);
        let q = n + s.len();
        assert(full[q - 1] == s.last());
        assert forall|k: int| q <= k < full.len() implies blank(#[trigger] full[k]) by {
            assert(full[k] == behind[k - q]);
        }
        lemma_text_end(full, n, full.len() as int, q);
        assert(full.subrange(n, q) =~= s);
    } else {
        assert forall|k: int| 0 <= k < full.len() implies blank(#[trigger] full[k]) by {
            if k < n {
                assert(full[k] == before[k]);
            } else {
                assert(full[k] == behind[k - n]);
            }
        }
        lemma_text_start(full, 0, full.len() as int);
        lemma_text_end(full, full.len() as int, full.len() as int, full.len() as int);
        assert(trimmed(full) =~= s);
    }
}

proof fn lemma_start_found(s: Seq<char>, i: int)
    requires
        0 <= i <= s.len(),
    ensures
        i <= text_start(s, i) <= s.len(),
        forall|k: int| i <= k < text_start(s, i) ==> blank(#[trigger] s[k]),
        text_start(s, i) < s.len() ==> !blank(s[text_start(s, i)]),
    decreases s.len() - i,
{
    if i < s.len() {
        law_ascii_classes(s[i]);
        if white_space(s[i]) {
            lemma_start_found(s, i + 1);
        }
    }
}

proof fn lemma_end_found(s: Seq<char>, from: int, j: int)
    requires
        0 <= from <= j <= s.len(),
    ensures
        from <= text_end(s, from, j) <= j,
        forall|k: int| text_end(s, from, j) <= k < j ==> blank(#[trigger] s[k]),
        text_end(s, from, j) > from ==> !blank(s[text_end(s, from, j) - 1]),
    decreases j - from,
{
    if j > from {
        law_ascii_classes(s[j - 1]);
        if white_space(s[j - 1]) {
            lemma_end_found(s, from, j - 1);
        }
    }
}

/// What trimming leaves neither starts nor ends with a blank, and only blanks are dropped.
pub proof fn law_trimmed(s: Seq<char>) -> (r: (Seq<char>, Seq<char>))
    ensures
        s == r.0 + trimmed(s) + r.1,
        only_blanks(r.0),
        only_blanks(r.1),
        no_outer_blanks(trimmed(s)),
{
    let a = text_start(s, 0);
    lemma_start_found(s, 0);
    lemma_end_found(s, a, s.len() as int);
    let b = text_end(s, a, s.len() as int);
    let before = s.take(a);
    let behind = s.skip(b);
    assert forall|i: int| 0 <= i < behind.len() implies blank(#[trigger] behind[i]) by {
        assert(behind[i] == s[b + i]);
    }
    assert(s =~= before + trimmed(s) + behind);
    (before, behind)
}

/// Whether `t` is what is left of `s` without the blanks at both ends.
pub open spec fn trims_to(s: Seq<char>, t: Seq<char>) -> bool {
    &&& no_outer_blanks(t)
    &&& exists|before: Seq<char>, behind: Seq<char>|
        only_blanks(before) && only_blanks(behind) && s == #[trigger] (before + t + behind)
}

/// What trimming leaves is what is left without the blanks at both ends, and nothing else is.
pub proof fn law_trims_to(s: Seq<char>, t: Seq<char>)
    ensures
        trims_to(s, t) <==> t == trimmed(s),
{
    let around = law_trimmed(s);
    assert(s == around.0 + trimmed(s) + around.1);
    if trims_to(s, t) {
        let (before, behind) = choose|before: Seq<char>, behind: Seq<char>|
            only_blanks(before) && only_blanks(behind) && s == #[trigger] (before + t + behind);
        law_trimming(before, t, behind);
    }
}

/// [`trim`] keeps what stands between the blanks at both ends.
pub proof fn law_trim(s: &str, r: &str, before: Seq<char>, kept: Seq<char>, behind: Seq<char>)
    requires
        call_ensures(trim, (s,), r),
        s@ == before + kept + behind,
        only_blanks(before),
        only_blanks(behind),
        no_outer_blanks(kept),
    ensures
        r@ == kept,
{
    law_trimming(before, kept, behind);
}

/// The pieces with a `c` between each and the next.
pub open spec fn joined(pieces: Seq<Seq<char>>, c: char) -> Seq<char>
    decreases pieces.len(),
{
    if pieces.len() == 0 {
        Seq::empty()
    } else if pieces.len() == 1 {
        pieces[0]
    } else {
        pieces[0] + seq![c] + joined(pieces.drop_first(), c)
    }
}

/// Splitting loses nothing: the pieces hold no `c`, and joined by `c` they are the text again.
pub proof fn law_split(s: Seq<char>, c: char)
    ensures
        split(s, c).len() > 0,
        joined(split(s, c), c) == s,
        forall|i: int| 0 <= i < split(s, c).len() ==> !(#[trigger] split(s, c)[i]).contains(c),
    decreases s.len(),
{
    lemma_first_found(s, c, 0);
    let i = first_from(s, c, 0);
    let all = split(s, c);
    if i < s.len() {
        let rest = split(s.skip(i + 1), c);
        law_split(s.skip(i + 1), c);
        assert(all == seq![s.take(i)] + rest);
        assert(all.drop_first() =~= rest);
        assert(s.take(i) + seq![c] + s.skip(i + 1) =~= s);
        assert forall|k: int| 0 <= k < all.len() implies !(#[trigger] all[k]).contains(c) by {
            if k > 0 {
                assert(all[k] == rest[k - 1]);
            }
        }
    } else {
        assert(all =~= seq![s]);
        assert forall|k: int| 0 <= k < all.len() implies !(#[trigger] all[k]).contains(c) by {
            assert(all[k] == s);
        }
    }
}

/// The number that a digit stands for.
pub open spec fn digit_value(c: char) -> int {
    if c as int <= 57 {
        c as int - 48
    } else {
        c as int - 87
    }
}

/// The number that digits in a base stand for.
pub open spec fn number_read(digits: Seq<char>, base: int) -> int
    decreases digits.len(),
{
    if digits.len() == 0 {
        0
    } else {
        number_read(digits.drop_last(), base) * base + digit_value(digits.last())
    }
}

/// A numeral reads as its number, in digits of its base, small letters standing for ten and above,
/// and without leading zeros.
pub proof fn law_numerals(n: nat, base: nat)
    requires
        2 <= base <= 16,
    ensures
        number_read(numeral(n, base), base as int) == n,
        forall|i: int|
            0 <= i < numeral(n, base).len() ==> {
                let c = (#[trigger] numeral(n, base)[i]) as int;
                (48 <= c <= 57 || 97 <= c <= 102) && digit_value(numeral(n, base)[i]) < base
            },
        numeral(n, base).len() > 0,
        n > 0 ==> numeral(n, base)[0] != '0',
    decreases n,
{
    reveal_with_fuel(number_read, 2);
    let s = numeral(n, base);
    if n < base {
        assert(s.drop_last() =~= Seq::<char>::empty());
    } else {
        assert(n / base < n) by (nonlinear_arith)
            requires
                2 <= base <= n,
        ;
        assert(0 < n / base) by (nonlinear_arith)
            requires
                2 <= base <= n,
        ;
        law_numerals(n / base, base);
        lemma_numeral_nonempty(n / base, base);
        vstd::arithmetic::div_mod::lemma_mod_bound(n as int, base as int);
        vstd::arithmetic::div_mod::lemma_fundamental_div_mod(n as int, base as int);
        assert(base as int * (n as int / base as int) == (n as int / base as int) * base as int)
            by (nonlinear_arith);
        let before = numeral(n / base, base);
        assert(s.drop_last() =~= before);
        assert(digit_value(s.last()) == n % base);
        assert(s[0] == before[0]);
        assert forall|i: int| 0 <= i < s.len() implies {
            let c = (#[trigger] s[i]) as int;
            (48 <= c <= 57 || 97 <= c <= 102) && digit_value(s[i]) < base
        } by {
            if i < before.len() {
                assert(s[i] == before[i]);
            }
        }
    }
}

/// What [`to_numeral`] writes reads as the number.
pub proof fn law_to_numeral(n: u128, base: u128, r: String)
    requires
        call_ensures(to_numeral, (n, base), r),
        2 <= base <= 16,
    ensures
        number_read(r@, base as int) == n,
        r@.len() > 0,
        n > 0 ==> r@[0] != '0',
{
    law_numerals(n as nat, base as nat);
}

/// The small functions on characters and their lists.
pub proof fn law_characters(
    c: char,
    is_blank: bool,
    is_capital: bool,
    small: char,
    s: &str,
    chars: Vec<char>,
    list: &Vec<char>,
    from: usize,
    at: usize,
)
    requires
        call_ensures(is_white_space, (c,), is_blank),
        call_ensures(is_ascii_upper, (c,), is_capital),
        call_ensures(to_lower_char, (c,), small),
        call_ensures(chars_of, (s,), chars),
        from <= list@.len(),
        call_ensures(find_from, (list, c, from), at),
    ensures
        is_blank <==> blank(c),
        is_capital <==> 65 <= c as int <= 90,
        small as int == (if 65 <= c as int <= 90 {
            c as int + 32
        } else {
            c as int
        }),
        chars@ == s@,
        from <= at <= list@.len(),
        at < list@.len() ==> list@[at as int] == c,
        forall|k: int| from <= k < at ==> list@[k] != c,
{
    law_ascii_classes(c);
}

} // verus!
