//! Decimal text for unsigned machine integers, as JSON writes them:
//! no sign, no leading zeros, at least one digit.

use vstd::prelude::*;

verus! {

/// The character for one decimal digit.
pub open spec fn digit_char(d: nat) -> char {
    if d == 0 {
        '0'
    } else if d == 1 {
        '1'
    } else if d == 2 {
        '2'
    } else if d == 3 {
        '3'
    } else if d == 4 {
        '4'
    } else if d == 5 {
        '5'
    } else if d == 6 {
        '6'
    } else if d == 7 {
        '7'
    } else if d == 8 {
        '8'
    } else {
        '9'
    }
}

/// The canonical decimal text of an unsigned number.
pub open spec fn dec_of(n: nat) -> Seq<char>
    decreases n,
{
    if n < 10 {
        seq![digit_char(n)]
    } else {
        dec_of(n / 10) + seq![digit_char(n % 10)]
    }
}

/// Whether a character is a decimal digit.
pub open spec fn is_digit(c: char) -> bool {
    '0' <= c && c <= '9'
}

/// The numeric value of a digit character.
pub open spec fn digit_val(c: char) -> nat {
    if c == '0' {
        0
    } else if c == '1' {
        1
    } else if c == '2' {
        2
    } else if c == '3' {
        3
    } else if c == '4' {
        4
    } else if c == '5' {
        5
    } else if c == '6' {
        6
    } else if c == '7' {
        7
    } else if c == '8' {
        8
    } else {
        9
    }
}

/// The index of the first non-digit at or after `i`.
pub open spec fn digits_end(s: Seq<char>, i: int) -> int
    decreases s.len() - i,
{
    if 0 <= i < s.len() && is_digit(s[i]) {
        digits_end(s, i + 1)
    } else {
        i
    }
}

/// The value of the digit run `s[i..j)`, most significant first.
pub open spec fn digits_val(s: Seq<char>, i: int, j: int) -> nat
    decreases j - i,
{
    if i < j {
        digits_val(s, i, j - 1) * 10 + digit_val(s[j - 1])
    } else {
        0
    }
}

/// Parse of an unsigned integer at `i`: the digit run starting there must be
/// nonempty, must not start with a superfluous zero, and its value must fit
/// the machine word; the result carries the value and the index just past
/// the run.
pub open spec fn spec_parse_usize(s: Seq<char>, i: int) -> Option<(usize, int)> {
    let j = digits_end(s, i);
    if j == i {
        None
    } else if s[i] == '0' && j > i + 1 {
        None
    } else if digits_val(s, i, j) > usize::MAX as nat {
        None
    } else {
        Some((digits_val(s, i, j) as usize, j))
    }
}

/// Where the digit run ends, relative to where it starts.
pub proof fn lemma_digits_end_bounds(s: Seq<char>, i: int)
    requires
        0 <= i <= s.len(),
    ensures
        i <= digits_end(s, i) <= s.len(),
    decreases s.len() - i,
{
    if i < s.len() && is_digit(s[i]) {
        lemma_digits_end_bounds(s, i + 1);
    }
}

/// Every character of the digit run is a digit, and the run is maximal.
pub proof fn lemma_digits_end_props(s: Seq<char>, i: int)
    requires
        0 <= i <= s.len(),
    ensures
        forall|t: int| i <= t < digits_end(s, i) ==> is_digit(#[trigger] s[t]),
        digits_end(s, i) == s.len() || !is_digit(s[digits_end(s, i)]),
    decreases s.len() - i,
{
    lemma_digits_end_bounds(s, i);
    if i < s.len() && is_digit(s[i]) {
        lemma_digits_end_props(s, i + 1);
    }
}

/// A longer digit run never has a smaller value.
pub proof fn lemma_digits_val_monotone(s: Seq<char>, i: int, j1: int, j2: int)
    requires
        i <= j1 <= j2,
    ensures
        digits_val(s, i, j2) >= digits_val(s, i, j1),
    decreases j2 - j1,
{
    if j1 < j2 {
        lemma_digits_val_monotone(s, i, j1, j2 - 1);
        assert(digits_val(s, i, j2) == digits_val(s, i, j2 - 1) * 10 + digit_val(s[j2 - 1]));
        assert(digits_val(s, i, j2 - 1) * 10 >= digits_val(s, i, j2 - 1));
    }
}

/// Each digit character carries its digit's value.
pub proof fn lemma_digit_char_val(d: nat)
    requires
        d < 10,
    ensures
        is_digit(digit_char(d)),
        digit_val(digit_char(d)) == d,
{
}

/// Decimal text is nonempty, all digits, and starts with `'0'` only for
/// zero itself.
pub proof fn lemma_dec_of_props(n: nat)
    ensures
        dec_of(n).len() >= 1,
        forall|t: int| 0 <= t < dec_of(n).len() ==> is_digit(#[trigger] dec_of(n)[t]),
        dec_of(n)[0] == '0' <==> n == 0,
    decreases n,
{
    if n < 10 {
        lemma_digit_char_val(n);
    } else {
        lemma_dec_of_props(n / 10);
        lemma_digit_char_val(n % 10);
        assert forall|t: int| 0 <= t < dec_of(n).len() implies is_digit(#[trigger] dec_of(n)[t]) by {
            if t < dec_of(n / 10).len() {
                assert(dec_of(n)[t] == dec_of(n / 10)[t]);
            } else {
                assert(dec_of(n)[t] == digit_char(n % 10));
            }
        }
        assert(dec_of(n)[0] == dec_of(n / 10)[0]);
    }
}

/// The value of an embedded decimal text is the number it was written from.
pub proof fn lemma_digits_val_of_dec(s: Seq<char>, i: int, n: nat)
    requires
        0 <= i,
        i + dec_of(n).len() <= s.len(),
        s.subrange(i, i + dec_of(n).len() as int) == dec_of(n),
    ensures
        digits_val(s, i, i + dec_of(n).len() as int) == n,
    decreases n,
{
    let l = dec_of(n).len() as int;
    if n < 10 {
        assert(s[i] == dec_of(n)[0]);
        lemma_digit_char_val(n);
        assert(digits_val(s, i, i) == 0);
        assert(digits_val(s, i, i + 1) == digit_val(s[i]));
    } else {
        let lp = dec_of(n / 10).len() as int;
        assert(dec_of(n) == dec_of(n / 10) + seq![digit_char(n % 10)]);
        assert(l == lp + 1);
        assert(s.subrange(i, i + lp) =~= dec_of(n / 10)) by {
            assert(forall|t: int|
                0 <= t < lp ==> s.subrange(i, i + l)[t] == #[trigger] dec_of(n)[t]);
        }
        lemma_digits_val_of_dec(s, i, n / 10);
        assert(s[i + l - 1] == dec_of(n)[l - 1]);
        assert(dec_of(n)[l - 1] == digit_char(n % 10));
        lemma_digit_char_val(n % 10);
        assert(digits_val(s, i, i + l) == digits_val(s, i, i + lp) * 10 + digit_val(s[i + l - 1]));
        assert((n / 10) * 10 + n % 10 == n);
    }
}

/// A maximal digit run ends exactly where the digits stop.
pub proof fn lemma_digits_end_of_run(s: Seq<char>, i: int, j: int)
    requires
        0 <= i <= j <= s.len(),
        forall|t: int| i <= t < j ==> is_digit(#[trigger] s[t]),
        j == s.len() || !is_digit(s[j]),
    ensures
        digits_end(s, i) == j,
    decreases j - i,
{
    if i < j {
        lemma_digits_end_of_run(s, i + 1, j);
    }
}

/// Reading an embedded decimal text yields the number it was written from:
/// the run is nonempty, canonical, in range, and followed by a non-digit.
pub proof fn lemma_parse_usize_complete(s: Seq<char>, i: int, n: nat)
    requires
        0 <= i,
        i + dec_of(n).len() <= s.len(),
        s.subrange(i, i + dec_of(n).len() as int) == dec_of(n),
        n <= usize::MAX as nat,
        i + dec_of(n).len() == s.len() || !is_digit(s[i + dec_of(n).len() as int]),
    ensures
        spec_parse_usize(s, i) == Some((n as usize, i + dec_of(n).len() as int)),
{
    let l = dec_of(n).len() as int;
    lemma_dec_of_props(n);
    assert forall|t: int| i <= t < i + l implies is_digit(#[trigger] s[t]) by {
        assert(s.subrange(i, i + l)[t - i] == dec_of(n)[t - i]);
        assert(s[t] == dec_of(n)[t - i]);
    }
    lemma_digits_end_of_run(s, i, i + l);
    lemma_digits_val_of_dec(s, i, n);
    assert(s[i] == dec_of(n)[0]);
    if n == 0 {
        assert(l == 1);
    } else {
        assert(s[i] != '0');
    }
}

/// Append one digit character.
fn push_digit(out: &mut String, d: usize)
    requires
        d < 10,
    ensures
        final(out)@ == old(out)@ + seq![digit_char(d as nat)],
{
    proof {
        reveal_strlit("0");
        reveal_strlit("1");
        reveal_strlit("2");
        reveal_strlit("3");
        reveal_strlit("4");
        reveal_strlit("5");
        reveal_strlit("6");
        reveal_strlit("7");
        reveal_strlit("8");
        reveal_strlit("9");
    }
    match d {
        0 => out.append("0"),
        1 => out.append("1"),
        2 => out.append("2"),
        3 => out.append("3"),
        4 => out.append("4"),
        5 => out.append("5"),
        6 => out.append("6"),
        7 => out.append("7"),
        8 => out.append("8"),
        _ => out.append("9"),
    }
    proof {
        assert(final(out)@ =~= old(out)@ + seq![digit_char(d as nat)]);
    }
}

/// Append the canonical decimal text of a number.
pub fn push_dec(out: &mut String, n: usize)
    ensures
        final(out)@ == old(out)@ + dec_of(n as nat),
    decreases n,
{
    if n < 10 {
        push_digit(out, n);
    } else {
        push_dec(out, n / 10);
        push_digit(out, n % 10);
        proof {
            assert(final(out)@ =~= old(out)@ + dec_of(n as nat));
        }
    }
}

/// Whether a character is a decimal digit.
pub fn char_is_digit(c: char) -> (r: bool)
    ensures
        r == is_digit(c),
{
    '0' <= c && c <= '9'
}

/// The numeric value of a digit character.
pub fn digit_value(c: char) -> (r: usize)
    requires
        is_digit(c),
    ensures
        r == digit_val(c),
{
    if c == '0' {
        0
    } else if c == '1' {
        1
    } else if c == '2' {
        2
    } else if c == '3' {
        3
    } else if c == '4' {
        4
    } else if c == '5' {
        5
    } else if c == '6' {
        6
    } else if c == '7' {
        7
    } else if c == '8' {
        8
    } else {
        9
    }
}

/// Read an unsigned integer at position `i`, exactly as
/// [`spec_parse_usize`] describes.
pub fn parse_usize_at(s: &Vec<char>, i: usize) -> (r: Option<(usize, usize)>)
    requires
        i <= s@.len(),
    ensures
        (match r {
            Some(p) => spec_parse_usize(s@, i as int) == Some((p.0, p.1 as int)) && i < p.1
                <= s@.len(),
            None => spec_parse_usize(s@, i as int) is None,
        }),
{
    proof {
        lemma_digits_end_bounds(s@, i as int);
        lemma_digits_end_props(s@, i as int);
    }
    let n = s.len();
    if i == n {
        return None;
    }
    let c0 = s[i];
    if !char_is_digit(c0) {
        return None;
    }
    if c0 == '0' {
        // A run that starts with zero is the single digit zero.
        if i + 1 < n {
            let c1 = s[i + 1];
            if char_is_digit(c1) {
                proof {
                    assert(is_digit(s@[i as int]));
                    assert(is_digit(s@[i as int + 1]));
                    assert(digits_end(s@, i as int) == digits_end(s@, i as int + 1));
                    assert(digits_end(s@, i as int + 1) == digits_end(s@, i as int + 2));
                    lemma_digits_end_bounds(s@, i as int + 2);
                    assert(s@[i as int] == '0');
                }
                return None;
            }
        }
        proof {
            assert(is_digit(s@[i as int]));
            assert(digits_end(s@, i as int) == digits_end(s@, i as int + 1));
            assert(digits_end(s@, i as int + 1) == i + 1);
            assert(digits_val(s@, i as int, i as int) == 0);
            assert(digits_val(s@, i as int, i as int + 1) == digit_val(s@[i as int]));
        }
        return Some((0, i + 1));
    }
    let mut j = i;
    let mut val: usize = 0;
    while j < n && char_is_digit(s[j])
        invariant
            i <= j <= n,
            n == s@.len(),
            digits_end(s@, i as int) == digits_end(s@, j as int),
            val == digits_val(s@, i as int, j as int),
            forall|t: int| i <= t < j ==> is_digit(#[trigger] s@[t]),
        decreases n - j,
    {
        let d = digit_value(s[j]);
        proof {
            assert(digits_val(s@, i as int, j as int + 1) == val * 10 + digit_val(s@[j as int]));
            lemma_digits_end_props(s@, j as int);
            lemma_digits_end_bounds(s@, j as int + 1);
        }
        let scaled = match val.checked_mul(10) {
            Some(scaled) => scaled,
            None => {
                proof {
                    assert(digits_end(s@, i as int) >= j + 1);
                    lemma_digits_val_monotone(s@, i as int, j as int + 1, digits_end(s@, i as int));
                }
                return None;
            },
        };
        val = match scaled.checked_add(d) {
            Some(total) => total,
            None => {
                proof {
                    assert(digits_end(s@, i as int) >= j + 1);
                    lemma_digits_val_monotone(s@, i as int, j as int + 1, digits_end(s@, i as int));
                }
                return None;
            },
        };
        j += 1;
    }
    proof {
        assert(digits_end(s@, j as int) == j);
    }
    Some((val, j))
}

} // verus!
