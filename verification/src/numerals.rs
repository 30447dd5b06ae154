//! Decimal numerals over character sequences: reading unsigned integers from
//! digit spans of a record line, and writing them back when a record is
//! serialized. Both directions are verified against one pair of spec
//! functions, which is what makes the parse/serialize round trip provable.

use vstd::prelude::*;

verus! {

/// Ten to the power `e`.
pub open spec fn pow10(e: nat) -> nat
    decreases e,
{
    if e == 0 {
        1
    } else {
        10 * pow10((e - 1) as nat)
    }
}

/// `c` is a decimal digit.
pub open spec fn is_digit_char(c: char) -> bool {
    '0' as u32 <= c as u32 <= '9' as u32
}

/// The value of a single digit character.
pub open spec fn digit_val(c: char) -> nat
    recommends
        is_digit_char(c),
{
    (c as u32 - '0' as u32) as nat
}

/// The digit character for a value below ten.
pub open spec fn digit_char(d: nat) -> char
    recommends
        d < 10,
{
    if d == 0 {
        '0'
    } else if d == 1 {
        '1'
    } else if d == 2 {
        '2'
    } else if d == 3 {
        '3'
    } else if d == 4 {
        '4'
    } else if d == 5 {
        '5'
    } else if d == 6 {
        '6'
    } else if d == 7 {
        '7'
    } else if d == 8 {
        '8'
    } else {
        '9'
    }
}

/// Every character of `s` is a decimal digit.
pub open spec fn all_digits(s: Seq<char>) -> bool {
    forall|i: int| 0 <= i < s.len() ==> is_digit_char(#[trigger] s[i])
}

/// The value of `s` read as a decimal numeral, most significant digit first.
pub open spec fn digits_val(s: Seq<char>) -> nat
    decreases s.len(),
{
    if s.len() == 0 {
        0
    } else {
        10 * digits_val(s.drop_last()) + digit_val(s.last())
    }
}

/// The canonical decimal numeral of `n`: no leading zeros, except that zero
/// itself is written "0".
pub open spec fn digits_of(n: nat) -> Seq<char>
    decreases n,
{
    if n < 10 {
        seq![digit_char(n)]
    } else {
        digits_of(n / 10).push(digit_char(n % 10))
    }
}

/// The decimal numeral of `n` padded with leading zeros to at least `w`
/// digits.
pub open spec fn padded_digits(n: nat, w: nat) -> Seq<char>
    decreases n + w,
{
    if n < 10 && w <= 1 {
        seq![digit_char(n)]
    } else {
        padded_digits(n / 10, if w <= 1 {
            0
        } else {
            (w - 1) as nat
        }).push(digit_char(n % 10))
    }
}

/// Reading a span of characters as an unsigned integer: `None` when the span
/// holds a non-digit or does not fit in `u64`. The empty span reads as zero.
pub open spec fn spec_digits_opt(s: Seq<char>) -> Option<u64> {
    if !all_digits(s) || digits_val(s) > u64::MAX {
        None
    } else {
        Some(digits_val(s) as u64)
    }
}

pub proof fn lemma_pow10_pos(e: nat)
    ensures
        pow10(e) >= 1,
    decreases e,
{
    if e > 0 {
        lemma_pow10_pos((e - 1) as nat);
    }
}

pub proof fn lemma_pow10_increases(a: nat, b: nat)
    requires
        a <= b,
    ensures
        pow10(a) <= pow10(b),
    decreases b,
{
    if a < b {
        lemma_pow10_increases(a, (b - 1) as nat);
        lemma_pow10_pos((b - 1) as nat);
    }
}

/// The digit character of a value below ten reads back as that value.
pub proof fn lemma_digit_char_val(d: nat)
    requires
        d < 10,
    ensures
        is_digit_char(digit_char(d)),
        digit_val(digit_char(d)) == d,
{
}

/// Every character the canonical numeral holds is a digit.
pub proof fn lemma_digits_of_all_digits(n: nat)
    ensures
        all_digits(digits_of(n)),
        digits_of(n).len() >= 1,
    decreases n,
{
    if n >= 10 {
        lemma_digits_of_all_digits(n / 10);
        assert forall|i: int| 0 <= i < digits_of(n).len() implies is_digit_char(
            #[trigger] digits_of(n)[i],
        ) by {
            if i < digits_of(n / 10).len() {
                assert(digits_of(n)[i] == digits_of(n / 10)[i]);
            }
        }
    }
}

/// Reading the canonical numeral back gives the number.
pub proof fn lemma_digits_of_val(n: nat)
    ensures
        digits_val(digits_of(n)) == n,
    decreases n,
{
    if n < 10 {
        lemma_digit_char_val(n);
        assert(digits_val(Seq::<char>::empty()) == 0);
        assert(digits_of(n).drop_last() =~= Seq::<char>::empty());
        assert(digits_of(n).last() == digit_char(n));
    } else {
        lemma_digits_of_val(n / 10);
        lemma_digit_char_val(n % 10);
        assert(digits_of(n).drop_last() =~= digits_of(n / 10));
        assert(digits_of(n).last() == digit_char(n % 10));
        assert(digits_val(digits_of(n)) == 10 * (n / 10) + n % 10);
        assert(10 * (n / 10) + n % 10 == n) by (nonlinear_arith);
    }
}

/// The canonical numeral of a number below `pow10(e)` has at most `e` digits
/// (for positive `e`).
pub proof fn lemma_digits_of_len(n: nat, e: nat)
    requires
        e >= 1,
        n < pow10(e),
    ensures
        digits_of(n).len() <= e,
    decreases n,
{
    if n >= 10 {
        assert(pow10(e) == 10 * pow10((e - 1) as nat));
        lemma_digits_of_len(n / 10, (e - 1) as nat);
    }
}

/// Every character of a padded numeral is a digit.
pub proof fn lemma_padded_digits_all_digits(n: nat, w: nat)
    ensures
        all_digits(padded_digits(n, w)),
        padded_digits(n, w).len() >= 1,
    decreases n + w,
{
    if !(n < 10 && w <= 1) {
        let w2: nat = if w <= 1 {
            0
        } else {
            (w - 1) as nat
        };
        lemma_padded_digits_all_digits(n / 10, w2);
        assert forall|i: int| 0 <= i < padded_digits(n, w).len() implies is_digit_char(
            #[trigger] padded_digits(n, w)[i],
        ) by {
            if i < padded_digits(n / 10, w2).len() {
                assert(padded_digits(n, w)[i] == padded_digits(n / 10, w2)[i]);
            }
        }
    }
}

/// Reading a padded numeral back gives the number.
pub proof fn lemma_padded_digits_val(n: nat, w: nat)
    ensures
        digits_val(padded_digits(n, w)) == n,
    decreases n + w,
{
    if n < 10 && w <= 1 {
        lemma_digit_char_val(n);
        assert(digits_val(Seq::<char>::empty()) == 0);
        assert(padded_digits(n, w).drop_last() =~= Seq::<char>::empty());
        assert(padded_digits(n, w).last() == digit_char(n));
    } else {
        let w2: nat = if w <= 1 {
            0
        } else {
            (w - 1) as nat
        };
        lemma_padded_digits_val(n / 10, w2);
        lemma_digit_char_val(n % 10);
        assert(padded_digits(n, w).drop_last() =~= padded_digits(n / 10, w2));
        assert(padded_digits(n, w).last() == digit_char(n % 10));
        assert(digits_val(padded_digits(n, w)) == 10 * (n / 10) + n % 10);
        assert(10 * (n / 10) + n % 10 == n) by (nonlinear_arith);
    }
}

/// A numeral below `pow10(w)` padded to `w` digits has exactly `w` digits.
pub proof fn lemma_padded_digits_len(n: nat, w: nat)
    requires
        w >= 1,
        n < pow10(w),
    ensures
        padded_digits(n, w).len() == w,
    decreases n + w,
{
    if !(n < 10 && w <= 1) {
        assert(pow10(w) == 10 * pow10((w - 1) as nat));
        lemma_padded_digits_len(n / 10, (w - 1) as nat);
    }
}

/// Decimal reading distributes over concatenation: the left part is shifted
/// by as many digit positions as the right part is long.
pub proof fn lemma_digits_val_concat(a: Seq<char>, b: Seq<char>)
    ensures
        digits_val(a + b) == digits_val(a) * pow10(b.len()) + digits_val(b),
    decreases b.len(),
{
    if b.len() == 0 {
        assert(a + b =~= a);
        assert(pow10(0) == 1);
        assert(digits_val(b) == 0);
    } else {
        lemma_digits_val_concat(a, b.drop_last());
        let s = a + b;
        assert(s.len() == a.len() + b.len());
        assert(digits_val(s) == 10 * digits_val(s.drop_last()) + digit_val(s.last()));
        assert(s.drop_last() =~= a + b.drop_last());
        assert(s.last() == b.last());
        assert(digits_val(s) == 10 * digits_val(a + b.drop_last()) + digit_val(b.last()));
        assert(digits_val(b) == 10 * digits_val(b.drop_last()) + digit_val(b.last()));
        assert(b.drop_last().len() == b.len() - 1);
        assert(pow10(b.len()) == 10 * pow10(b.drop_last().len()));
        assert(digits_val(s) == digits_val(a) * pow10(b.len()) + digits_val(b))
            by (nonlinear_arith)
            requires
                digits_val(s) == 10 * digits_val(a + b.drop_last()) + digit_val(b.last()),
                digits_val(a + b.drop_last()) == digits_val(a) * pow10(b.drop_last().len())
                    + digits_val(b.drop_last()),
                digits_val(b) == 10 * digits_val(b.drop_last()) + digit_val(b.last()),
                pow10(b.len()) == 10 * pow10(b.drop_last().len()),
        ;
    }
}

/// A numeral is at least as large as the reading of any of its prefixes,
/// scaled by the remaining digit positions.
pub proof fn lemma_digits_val_prefix(s: Seq<char>, i: int)
    requires
        0 <= i <= s.len(),
    ensures
        digits_val(s) >= digits_val(s.subrange(0, i)),
{
    let a = s.subrange(0, i);
    let b = s.subrange(i, s.len() as int);
    assert(s =~= a + b);
    lemma_digits_val_concat(a, b);
    lemma_pow10_pos(b.len());
    assert(digits_val(a) * pow10(b.len()) >= digits_val(a) * 1) by (nonlinear_arith)
        requires
            pow10(b.len()) >= 1,
    ;
}

/// Ten to the power `e`, for exponents whose power fits in `u64`.
pub fn pow10_u64(e: u32) -> (r: u64)
    requires
        e <= 19,
    ensures
        r == pow10(e as nat),
{
    proof {
        assert(pow10(19) == 10_000_000_000_000_000_000) by {
            reveal_with_fuel(pow10, 20);
        }
    }
    let mut r: u64 = 1;
    let mut i: u32 = 0;
    while i < e
        invariant
            i <= e <= 19,
            r == pow10(i as nat),
            pow10(19) == 10_000_000_000_000_000_000,
        decreases e - i,
    {
        proof {
            lemma_pow10_increases((i + 1) as nat, 19);
        }
        r = r * 10;
        i = i + 1;
    }
    r
}

/// Read the characters of `s` between `from` and `to` as an unsigned decimal
/// integer; the empty span reads as zero.
pub fn parse_digits_opt(s: &str, from: usize, to: usize) -> (r: Option<u64>)
    requires
        from <= to <= s@.len(),
    ensures
        r == spec_digits_opt(s@.subrange(from as int, to as int)),
{
    let ghost span = s@.subrange(from as int, to as int);
    let mut acc: u64 = 0;
    let mut i: usize = from;
    while i < to
        invariant
            from <= i <= to <= s@.len(),
            all_digits(span.subrange(0, i - from)),
            acc == digits_val(span.subrange(0, i - from)),
            span == s@.subrange(from as int, to as int),
        decreases to - i,
    {
        let c = s.get_char(i);
        proof {
            assert(span[i - from] == c);
        }
        if c < '0' || c > '9' {
            proof {
                assert(span[i - from] == c && !is_digit_char(c));
            }
            return None;
        }
        let d: u64 = (c as u32 - 48) as u64;
        proof {
            assert('0' as u32 == 48);
        }
        if acc > (u64::MAX - d) / 10 {
            proof {
                let pre = span.subrange(0, i + 1 - from);
                assert(pre.drop_last() =~= span.subrange(0, i - from));
                assert(digits_val(pre) == 10 * acc + d);
                assert(10 * acc + d > u64::MAX) by (nonlinear_arith)
                    requires
                        acc > (u64::MAX - d) / 10,
                        d < 10,
                ;
                lemma_digits_val_prefix(span, i + 1 - from);
            }
            return None;
        }
        proof {
            assert(10 * acc + d <= u64::MAX) by (nonlinear_arith)
                requires
                    acc <= (u64::MAX - d) / 10,
                    d < 10,
            ;
            let pre = span.subrange(0, i + 1 - from);
            assert(pre.drop_last() =~= span.subrange(0, i - from));
            assert(pre.last() == c);
            assert(all_digits(pre)) by {
                assert(forall|j: int|
                    0 <= j < pre.len() - 1 ==> pre[j] == #[trigger] span.subrange(0, i - from)[j]);
            }
        }
        acc = acc * 10 + d;
        i = i + 1;
    }
    proof {
        assert(span.subrange(0, to - from) =~= span);
    }
    Some(acc)
}

/// One digit as a string slice.
fn digit_str(d: u64) -> (r: &'static str)
    requires
        d < 10,
    ensures
        r@ =~= seq![digit_char(d as nat)],
{
    proof {
        reveal_strlit("0");
        reveal_strlit("1");
        reveal_strlit("2");
        reveal_strlit("3");
        reveal_strlit("4");
        reveal_strlit("5");
        reveal_strlit("6");
        reveal_strlit("7");
        reveal_strlit("8");
        reveal_strlit("9");
    }
    if d == 0 {
        "0"
    } else if d == 1 {
        "1"
    } else if d == 2 {
        "2"
    } else if d == 3 {
        "3"
    } else if d == 4 {
        "4"
    } else if d == 5 {
        "5"
    } else if d == 6 {
        "6"
    } else if d == 7 {
        "7"
    } else if d == 8 {
        "8"
    } else {
        "9"
    }
}

/// Append the canonical decimal numeral of `n` to `out`.
pub fn push_digits(out: &mut String, n: u64)
    ensures
        final(out)@ == old(out)@ + digits_of(n as nat),
    decreases n,
{
    if n < 10 {
        out.append(digit_str(n));
    } else {
        push_digits(out, n / 10);
        out.append(digit_str(n % 10));
        proof {
            assert(old(out)@ + digits_of((n / 10) as nat) + seq![digit_char((n % 10) as nat)]
                =~= old(out)@ + digits_of(n as nat));
        }
    }
}

/// Append the decimal numeral of `n`, padded with leading zeros to at least
/// `w` digits, to `out`.
pub fn push_digits_padded(out: &mut String, n: u64, w: u32)
    ensures
        final(out)@ == old(out)@ + padded_digits(n as nat, w as nat),
    decreases n + w,
{
    if n < 10 && w <= 1 {
        out.append(digit_str(n));
    } else {
        let w2: u32 = if w <= 1 {
            0
        } else {
            w - 1
        };
        push_digits_padded(out, n / 10, w2);
        out.append(digit_str(n % 10));
        proof {
            assert(old(out)@ + padded_digits((n / 10) as nat, w2 as nat) + seq![
                digit_char((n % 10) as nat),
            ] =~= old(out)@ + padded_digits(n as nat, w as nat));
        }
    }
}

} // verus!
