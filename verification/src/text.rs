//! Text as sequences of characters: conversions, decimal numbers, search
//! and replacement.

use vstd::prelude::*;

verus! {

/// `String::push` appends the given character to the end of the string.
pub assume_specification[ String::push ](s: &mut String, c: char)
    ensures
        final(s)@ == old(s)@.push(c),
;

/// The characters of `s`, in order.
pub fn chars_of(s: &str) -> (v: Vec<char>)
    ensures
        v@ == s@,
{
    let mut v: Vec<char> = Vec::new();
    for c in it: s.chars()
        invariant
            v@ == it.seq().take(it.index()),
            it.seq() == s@,
    {
        v.push(c);
    }
    v
}

/// The string made of the characters `v[from..to]`.
pub fn string_of(v: &[char], from: usize, to: usize) -> (s: String)
    requires
        from <= to <= v@.len(),
    ensures
        s@ == v@.subrange(from as int, to as int),
{
    let mut s = String::new();
    let mut i: usize = from;
    while i < to
        invariant
            from <= i <= to <= v@.len(),
            s@ == v@.subrange(from as int, i as int),
        decreases to - i,
    {
        s.push(v[i]);
        i += 1;
        assert(v@.subrange(from as int, i as int) == v@.subrange(from as int, i - 1).push(
            v@[i - 1],
        ));
    }
    s
}

/// Appends the characters `v[from..to]` to `out`.
pub fn push_range(out: &mut Vec<char>, v: &[char], from: usize, to: usize)
    requires
        from <= to <= v@.len(),
    ensures
        final(out)@ == old(out)@ + v@.subrange(from as int, to as int),
{
    let mut i: usize = from;
    assert(out@ + v@.subrange(from as int, from as int) =~= out@);
    while i < to
        invariant
            from <= i <= to <= v@.len(),
            out@ == old(out)@ + v@.subrange(from as int, i as int),
        decreases to - i,
    {
        out.push(v[i]);
        i += 1;
        assert(old(out)@ + v@.subrange(from as int, i as int) =~= (old(out)@ + v@.subrange(
            from as int,
            i - 1,
        )).push(v@[i - 1]));
    }
}

/// The text `tok` stands in `s` at position `i`.
pub open spec fn text_at(s: Seq<char>, i: int, tok: Seq<char>) -> bool {
    0 <= i && i + tok.len() <= s.len() && s.subrange(i, i + tok.len()) == tok
}

/// Whether `tok` stands in `s` at position `i`.
pub fn text_here(s: &[char], i: usize, tok: &[char]) -> (r: bool)
    ensures
        r == text_at(s@, i as int, tok@),
{
    if i > s.len() || s.len() - i < tok.len() {
        return false;
    }
    let mut k: usize = 0;
    while k < tok.len()
        invariant
            i + tok@.len() <= s@.len() <= usize::MAX,
            k <= tok@.len(),
            s@.subrange(i as int, i + k) == tok@.subrange(0, k as int),
        decreases tok@.len() - k,
    {
        if s[i + k] != tok[k] {
            proof {
                let whole = s@.subrange(i as int, i + tok@.len());
                assert(whole[k as int] == s@[i + k]);
            }
            return false;
        }
        k += 1;
        assert(s@.subrange(i as int, i + k) =~= s@.subrange(i as int, i + k - 1).push(
            s@[i + k - 1],
        ));
        assert(tok@.subrange(0, k as int) =~= tok@.subrange(0, k - 1).push(tok@[k - 1]));
    }
    assert(tok@.subrange(0, k as int) =~= tok@);
    true
}

/// Whether two texts hold the same characters.
pub fn same_text(a: &[char], b: &[char]) -> (r: bool)
    ensures
        r == (a@ == b@),
{
    if a.len() != b.len() {
        return false;
    }
    let r = text_here(a, 0, b);
    proof {
        assert(a@.subrange(0, a@.len() as int) =~= a@);
    }
    r
}

/// The decimal digit that stands for `d`, for `d` below ten.
pub open spec fn digit_of(d: nat) -> char {
    if d == 0 {
        '0'
    } else if d == 1 {
        '1'
    } else if d == 2 {
        '2'
    } else if d == 3 {
        '3'
    } else if d == 4 {
        '4'
    } else if d == 5 {
        '5'
    } else if d == 6 {
        '6'
    } else if d == 7 {
        '7'
    } else if d == 8 {
        '8'
    } else {
        '9'
    }
}

/// The number `n` written in decimal, without leading zeros.
pub open spec fn decimal(n: nat) -> Seq<char>
    decreases n,
{
    if n < 10 {
        seq![digit_of(n)]
    } else {
        decimal(n / 10).push(digit_of(n % 10))
    }
}

fn digit_char(d: u64) -> (c: char)
    requires
        d < 10,
    ensures
        c == digit_of(d as nat),
{
    match d {
        0 => '0',
        1 => '1',
        2 => '2',
        3 => '3',
        4 => '4',
        5 => '5',
        6 => '6',
        7 => '7',
        8 => '8',
        _ => '9',
    }
}

/// Appends `n`, written in decimal, to `out`.
pub fn push_decimal(out: &mut Vec<char>, n: u64)
    ensures
        final(out)@ == old(out)@ + decimal(n as nat),
    decreases n,
{
    if n >= 10 {
        push_decimal(out, n / 10);
    }
    out.push(digit_char(n % 10));
    proof {
        if n >= 10 {
            assert(old(out)@ + decimal(n as nat) =~= (old(out)@ + decimal((n / 10) as nat)).push(
                digit_of((n % 10) as nat),
            ));
        } else {
            assert(old(out)@ + decimal(n as nat) =~= old(out)@.push(digit_of(n as nat)));
        }
    }
}

/// What a decimal digit stands for.
pub open spec fn digit_value(c: char) -> nat {
    (c as nat - '0' as nat) as nat
}

/// The number that a run of decimal digits stands for: each digit in turn
/// is added to ten times what came before.
pub open spec fn digits_value(digits: Seq<char>) -> nat
    decreases digits.len(),
{
    if digits.len() == 0 {
        0
    } else {
        digits_value(digits.drop_last()) * 10 + digit_value(digits.last())
    }
}

/// Every character of `digits` is a decimal digit.
pub open spec fn all_digits(digits: Seq<char>) -> bool {
    forall|i: int| 0 <= i < digits.len() ==> '0' <= #[trigger] digits[i] <= '9'
}

/// Ten to the power `k`.
pub open spec fn pow10(k: nat) -> nat
    decreases k,
{
    if k == 0 {
        1
    } else {
        10 * pow10((k - 1) as nat)
    }
}

/// A run of `k` digits stands for a number below ten to the power `k`.
pub proof fn lemma_digits_value_bound(digits: Seq<char>)
    requires
        all_digits(digits),
    ensures
        digits_value(digits) < pow10(digits.len()),
    decreases digits.len(),
{
    if digits.len() > 0 {
        lemma_digits_value_bound(digits.drop_last());
        assert(digit_value(digits.last()) <= 9);
    }
}

/// Ten to the power nineteen fits in 64 bits, and the powers grow.
pub proof fn lemma_pow10_fits(k: nat)
    requires
        k <= 19,
    ensures
        pow10(k) <= 10_000_000_000_000_000_000,
    decreases 19 - k,
{
    if k < 19 {
        lemma_pow10_fits(k + 1);
    } else {
        reveal_with_fuel(pow10, 20);
    }
}

/// The number that the digits of `digits` stand for.
pub fn number_of(digits: &[char]) -> (n: u64)
    requires
        all_digits(digits@),
        digits@.len() <= 19,
    ensures
        n == digits_value(digits@),
{
    let mut n: u64 = 0;
    let mut i: usize = 0;
    assert(digits@.take(0) =~= Seq::<char>::empty());
    while i < digits.len()
        invariant
            i <= digits@.len() <= 19,
            all_digits(digits@),
            n == digits_value(digits@.take(i as int)),
        decreases digits@.len() - i,
    {
        let c = digits[i];
        proof {
            let next = digits@.take(i + 1);
            assert(next.drop_last() =~= digits@.take(i as int));
            assert(next.last() == c);
            assert(all_digits(next));
            lemma_digits_value_bound(next);
            lemma_pow10_fits(next.len());
        }
        n = n * 10 + (c as u64 - '0' as u64);
        i += 1;
    }
    assert(digits@.take(i as int) =~= digits@);
    n
}

/// `s` from position `i` on, with a space put into every `}}`: pairs are
/// taken from left to right and do not overlap.
pub open spec fn braces_parted_from(s: Seq<char>, i: int) -> Seq<char>
    decreases s.len() - i,
{
    if i < 0 || i >= s.len() {
        Seq::empty()
    } else if i + 1 < s.len() && s[i] == '}' && s[i + 1] == '}' {
        seq!['}', ' ', '}'] + braces_parted_from(s, i + 2)
    } else {
        seq![s[i]] + braces_parted_from(s, i + 1)
    }
}

/// `s` with every `}}` replaced by `} }`.
pub open spec fn braces_parted(s: Seq<char>) -> Seq<char> {
    braces_parted_from(s, 0)
}

/// Appends `s` to `out`, with every `}}` replaced by `} }`.
pub fn push_braces_parted(out: &mut Vec<char>, s: &[char])
    ensures
        final(out)@ == old(out)@ + braces_parted(s@),
{
    let mut i: usize = 0;
    while i < s.len()
        invariant
            i <= s@.len(),
            old(out)@ + braces_parted(s@) == out@ + braces_parted_from(s@, i as int),
        decreases s@.len() - i,
    {
        if s.len() - i > 1 && s[i] == '}' && s[i + 1] == '}' {
            proof {
                let rest = braces_parted_from(s@, i + 2);
                assert(out@ + (seq!['}', ' ', '}'] + rest) =~= out@.push('}').push(' ').push('}')
                    + rest);
            }
            out.push('}');
            out.push(' ');
            out.push('}');
            i += 2;
        } else {
            proof {
                let rest = braces_parted_from(s@, i + 1);
                assert(out@ + (seq![s@[i as int]] + rest) =~= out@.push(s@[i as int]) + rest);
            }
            out.push(s[i]);
            i += 1;
        }
    }
    assert(out@ + Seq::<char>::empty() =~= out@);
}

/// The last position at or before `p` where `needle` stands in `hay`.
pub open spec fn last_at_or_before(hay: Seq<char>, needle: Seq<char>, p: int) -> Option<int>
    decreases p + 1,
{
    if p < 0 {
        None
    } else if text_at(hay, p, needle) {
        Some(p)
    } else {
        last_at_or_before(hay, needle, p - 1)
    }
}

/// The last position where `needle` stands in `hay`.
pub open spec fn last_occurrence(hay: Seq<char>, needle: Seq<char>) -> Option<int> {
    last_at_or_before(hay, needle, hay.len() - needle.len())
}

/// What `last_at_or_before` finds is an occurrence with none after it up to
/// `p`, and it finds nothing only where there is none.
pub proof fn lemma_last_at_or_before(hay: Seq<char>, needle: Seq<char>, p: int)
    ensures
        match last_at_or_before(hay, needle, p) {
            Some(q) => 0 <= q <= p && text_at(hay, q, needle) && forall|r: int|
                q < r <= p ==> !text_at(hay, r, needle),
            None => forall|r: int| 0 <= r <= p ==> !text_at(hay, r, needle),
        },
    decreases p + 1,
{
    if p >= 0 && !text_at(hay, p, needle) {
        lemma_last_at_or_before(hay, needle, p - 1);
    }
}

/// The last occurrence is an occurrence, and no occurrence follows it; where
/// there is none, the needle stands nowhere.
pub proof fn lemma_last_occurrence(hay: Seq<char>, needle: Seq<char>)
    ensures
        match last_occurrence(hay, needle) {
            Some(q) => text_at(hay, q, needle) && forall|r: int| q < r ==> !text_at(hay, r, needle),
            None => forall|r: int| !text_at(hay, r, needle),
        },
{
    lemma_last_at_or_before(hay, needle, hay.len() - needle.len());
}

/// The last position where `needle` stands in `hay`.
pub fn find_last(hay: &[char], needle: &[char]) -> (r: Option<usize>)
    ensures
        match r {
            Some(q) => last_occurrence(hay@, needle@) == Some(q as int) && q + needle@.len()
                <= hay@.len(),
            None => last_occurrence(hay@, needle@) is None,
        },
{
    if hay.len() < needle.len() {
        return None;
    }
    let mut p: usize = hay.len() - needle.len();
    loop
        invariant
            p + needle@.len() <= hay@.len(),
            last_occurrence(hay@, needle@) == last_at_or_before(hay@, needle@, p as int),
        decreases p,
    {
        if text_here(hay, p, needle) {
            return Some(p);
        }
        if p == 0 {
            assert(last_at_or_before(hay@, needle@, -1) is None);
            return None;
        }
        p -= 1;
    }
}

/// The texts of a list of strings, in order.
pub open spec fn strings_view(v: Seq<String>) -> Seq<Seq<char>> {
    Seq::new(v.len(), |i: int| v[i]@)
}

/// Appending one string appends its text.
pub proof fn lemma_strings_view_push(v: Seq<String>, s: String)
    ensures
        strings_view(v.push(s)) == strings_view(v).push(s@),
{
    assert(strings_view(v.push(s)) =~= strings_view(v).push(s@));
}

/// Appends the characters of `text` to `out`.
pub fn push_text(out: &mut Vec<char>, text: &str)
    ensures
        final(out)@ == old(out)@ + text@,
{
    let mut chars = chars_of(text);
    out.append(&mut chars);
}

/// The string made of the characters of `v`.
pub fn string_from(v: &Vec<char>) -> (s: String)
    ensures
        s@ == v@,
{
    let s = string_of(v.as_slice(), 0, v.len());
    assert(v@.subrange(0, v@.len() as int) =~= v@);
    s
}

/// Whether two strings hold the same text.
pub fn same_str(a: &str, b: &str) -> (r: bool)
    ensures
        r == (a@ == b@),
{
    let x = chars_of(a);
    let y = chars_of(b);
    same_text(x.as_slice(), y.as_slice())
}

/// No `}}` stands in `t`.
pub open spec fn no_brace_pair(t: Seq<char>) -> bool {
    forall|k: int| 0 <= k && k + 1 < t.len() ==> !(#[trigger] t[k] == '}' && t[k + 1] == '}')
}

/// No `}}}` stands in `s`.
pub open spec fn no_brace_triple(s: Seq<char>) -> bool {
    forall|k: int|
        0 <= k && k + 2 < s.len() ==> !(#[trigger] s[k] == '}' && s[k + 1] == '}' && s[k + 2]
            == '}')
}

/// In a text without `}}}`, what parting the braces from `i` on gives holds
/// no `}}`, and starts with `}` only where `s` has one at `i`.
pub proof fn lemma_braces_parted_from(s: Seq<char>, i: int)
    requires
        no_brace_triple(s),
        0 <= i <= s.len(),
    ensures
        no_brace_pair(braces_parted_from(s, i)),
        braces_parted_from(s, i).len() > 0 && braces_parted_from(s, i)[0] == '}' ==> i < s.len()
            && s[i] == '}',
    decreases s.len() - i,
{
    let out = braces_parted_from(s, i);
    if i < s.len() {
        if i + 1 < s.len() && s[i] == '}' && s[i + 1] == '}' {
            lemma_braces_parted_from(s, i + 2);
            let rest = braces_parted_from(s, i + 2);
            assert(s[i] == '}' && s[i + 1] == '}');
            assert forall|k: int| 0 <= k && k + 1 < out.len() implies !(#[trigger] out[k] == '}'
                && out[k + 1] == '}') by {
                if k >= 3 {
                    assert(out[k] == rest[k - 3]);
                    assert(out[k + 1] == rest[k - 2]);
                }
            }
        } else {
            lemma_braces_parted_from(s, i + 1);
            let rest = braces_parted_from(s, i + 1);
            assert forall|k: int| 0 <= k && k + 1 < out.len() implies !(#[trigger] out[k] == '}'
                && out[k + 1] == '}') by {
                if k >= 1 {
                    assert(out[k] == rest[k - 1]);
                    assert(out[k + 1] == rest[k]);
                }
            }
        }
    }
}

/// Parting the braces leaves no `}}`, in a text that has no `}}}`. (From
/// `}}}` a `}}` is left: only the first two braces are a pair.)
pub proof fn lemma_braces_parted(s: Seq<char>)
    requires
        no_brace_triple(s),
    ensures
        no_brace_pair(braces_parted(s)),
{
    lemma_braces_parted_from(s, 0);
}

/// A digit stands for the number that it was written for.
pub proof fn lemma_digit_round_trip(d: nat)
    requires
        d < 10,
    ensures
        digit_value(digit_of(d)) == d,
        '0' <= digit_of(d) <= '9',
{
}

/// A number written in decimal is read back as itself: its digits are
/// decimal digits, and they stand for the number.
pub proof fn lemma_decimal_round_trip(n: nat)
    ensures
        all_digits(decimal(n)),
        digits_value(decimal(n)) == n,
        decimal(n).len() >= 1,
    decreases n,
{
    if n < 10 {
        lemma_digit_round_trip(n);
        let ds = decimal(n);
        assert(ds.drop_last() =~= Seq::<char>::empty());
        assert(digits_value(ds.drop_last()) == 0);
        assert(ds.last() == digit_of(n));
    } else {
        lemma_decimal_round_trip(n / 10);
        lemma_digit_round_trip(n % 10);
        let ds = decimal(n);
        assert(ds.drop_last() =~= decimal(n / 10));
        assert(ds.last() == digit_of(n % 10));
    }
}

/// A number with thirteen digits is written with thirteen characters: such
/// are the identifiers that the store gives between the years 2001 and 2286.
pub proof fn lemma_thirteen_digits(n: nat)
    requires
        1_000_000_000_000 <= n < 10_000_000_000_000,
    ensures
        decimal(n).len() == 13,
{
    reveal_with_fuel(decimal, 14);
}

/// A number below ten to the power `k` is written with at most `k` digits,
/// and one that is at least ten to the power `k - 1` with at least `k`.
pub proof fn lemma_decimal_len(n: nat, k: nat)
    requires
        k >= 1,
    ensures
        n < pow10(k) ==> decimal(n).len() <= k,
        n >= pow10((k - 1) as nat) ==> decimal(n).len() >= k,
    decreases k,
{
    if n >= 10 {
        if k >= 2 {
            lemma_decimal_len(n / 10, (k - 1) as nat);
        } else {
            assert(pow10(1) == 10) by {
                reveal_with_fuel(pow10, 2);
            }
        }
    } else if k >= 2 {
        lemma_pow10_grows((k - 1) as nat);
    }
}

/// Ten to any power from one on is at least ten.
pub proof fn lemma_pow10_grows(k: nat)
    requires
        k >= 1,
    ensures
        pow10(k) >= 10,
    decreases k,
{
    if k >= 2 {
        lemma_pow10_grows((k - 1) as nat);
    } else {
        reveal_with_fuel(pow10, 2);
    }
}

} // verus!
