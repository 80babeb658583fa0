//! Plain decimal numbers, read exactly into fixed-point integers.

use vstd::prelude::*;

verus! {

/// Whether `b` is an ASCII digit.
pub open spec fn is_digit(b: u8) -> bool {
    48 <= b <= 57
}

/// Whether every byte of `s` is an ASCII digit.
pub open spec fn all_digits(s: Seq<u8>) -> bool {
    forall|i: int| 0 <= i < s.len() ==> is_digit(#[trigger] s[i])
}

/// The number that the digits of `s` write, most significant first.
pub open spec fn digits_value(s: Seq<u8>) -> nat
    decreases s.len(),
{
    if s.len() == 0 {
        0
    } else {
        digits_value(s.drop_last()) * 10 + (s.last() - 48) as nat
    }
}

/// Ten to the power `n`.
pub open spec fn pow10(n: nat) -> nat
    decreases n,
{
    if n == 0 {
        1
    } else {
        10 * pow10((n - 1) as nat)
    }
}

/// How many digits `text` begins with.
pub open spec fn leading_digits(text: Seq<u8>) -> nat
    decreases text.len(),
{
    if text.len() > 0 && is_digit(text[0]) {
        1 + leading_digits(text.drop_first())
    } else {
        0
    }
}

/// The fraction digits `frac` as a count of units of `10^-decimals`:
/// digits past the last kept decimal are dropped, missing ones count as zero.
pub open spec fn fraction_value(frac: Seq<u8>, decimals: nat) -> nat {
    if frac.len() >= decimals {
        digits_value(frac.take(decimals as int))
    } else {
        digits_value(frac) * pow10((decimals - frac.len()) as nat)
    }
}

/// The value of the plain decimal `text` in units of `10^-decimals`.
///
/// A plain decimal is one to eighteen digits, alone or followed by a point
/// and at least one digit; it has no sign, exponent or blank. The value
/// keeps at most `decimals` decimals, eighteen at most, and drops the rest.
/// Any other text has no value.
pub open spec fn decimal_value(text: Seq<u8>, decimals: nat) -> Option<nat> {
    let n = leading_digits(text);
    let whole = text.take(n as int);
    let rest = text.skip(n as int);
    if n < 1 || n > 18 || decimals > 18 {
        None
    } else if rest.len() == 0 {
        Some(digits_value(whole) * pow10(decimals))
    } else if rest[0] == 46 && rest.len() >= 2 && all_digits(rest.skip(1)) {
        Some(digits_value(whole) * pow10(decimals) + fraction_value(rest.skip(1), decimals))
    } else {
        None
    }
}

/// Powers of ten multiply as their exponents add.
pub proof fn lemma_pow10_add(a: nat, b: nat)
    ensures
        pow10(a + b) == pow10(a) * pow10(b),
    decreases b,
{
    if b == 0 {
        assert(pow10(a) * 1 == pow10(a));
    } else {
        lemma_pow10_add(a, (b - 1) as nat);
        assert(pow10(a + b) == 10 * pow10((a + b - 1) as nat));
        assert(10 * (pow10(a) * pow10((b - 1) as nat)) == pow10(a) * (10 * pow10((b - 1) as nat)))
            by (nonlinear_arith);
    }
}

/// Powers of ten grow with the exponent, and up to the thirty-sixth they
/// fit 128 bits.
pub proof fn lemma_pow10_bounds(a: nat, b: nat)
    requires
        a <= b,
    ensures
        1 <= pow10(a) <= pow10(b),
        b <= 36 ==> pow10(b) <= 1_000_000_000_000_000_000_000_000_000_000_000_000,
{
    lemma_pow10_monotonic(0, a);
    lemma_pow10_monotonic(a, b);
    if b <= 36 {
        lemma_pow10_monotonic(b, 36);
        lemma_pow10_36();
    }
}

proof fn lemma_pow10_monotonic(a: nat, b: nat)
    requires
        a <= b,
    ensures
        1 <= pow10(a) <= pow10(b),
    decreases b,
{
    if a < b {
        lemma_pow10_monotonic(a, (b - 1) as nat);
    } else if a > 0 {
        lemma_pow10_monotonic((a - 1) as nat, (a - 1) as nat);
    }
}

proof fn lemma_pow10_36()
    ensures
        pow10(36) == 1_000_000_000_000_000_000_000_000_000_000_000_000,
{
    assert(pow10(6) == 1_000_000) by {
        reveal_with_fuel(pow10, 7);
    }
    lemma_pow10_add(6, 6);
    assert(pow10(12) == 1_000_000_000_000) by (nonlinear_arith)
        requires
            pow10(12) == pow10(6) * pow10(6),
            pow10(6) == 1_000_000,
    ;
    lemma_pow10_add(12, 6);
    assert(pow10(18) == 1_000_000_000_000_000_000) by (nonlinear_arith)
        requires
            pow10(18) == pow10(12) * pow10(6),
            pow10(12) == 1_000_000_000_000,
            pow10(6) == 1_000_000,
    ;
    lemma_pow10_add(18, 18);
    assert(pow10(36) == 1_000_000_000_000_000_000_000_000_000_000_000_000) by (nonlinear_arith)
        requires
            pow10(36) == pow10(18) * pow10(18),
            pow10(18) == 1_000_000_000_000_000_000,
    ;
}

/// A run of `n` digits writes a number below `10^n`.
pub proof fn lemma_digits_below_pow10(s: Seq<u8>)
    requires
        all_digits(s),
    ensures
        digits_value(s) < pow10(s.len()),
    decreases s.len(),
{
    if s.len() > 0 {
        let head = s.drop_last();
        assert forall|i: int| 0 <= i < head.len() implies is_digit(#[trigger] head[i]) by {
            assert(head[i] == s[i]);
        }
        lemma_digits_below_pow10(head);
        assert(is_digit(s[s.len() - 1]));
    }
}

/// A text whose first `n` bytes are digits, and which ends there or goes on
/// with another byte, begins with exactly `n` digits.
pub proof fn lemma_leading_digits(text: Seq<u8>, n: nat)
    requires
        n <= text.len(),
        all_digits(text.take(n as int)),
        n == text.len() || !is_digit(text[n as int]),
    ensures
        leading_digits(text) == n,
    decreases n,
{
    if n > 0 {
        assert(text.take(n as int)[0] == text[0]);
        let tail = text.drop_first();
        assert forall|i: int| 0 <= i < n - 1 implies is_digit(
            #[trigger] tail.take((n - 1) as int)[i],
        ) by {
            assert(tail.take((n - 1) as int)[i] == text.take(n as int)[i + 1]);
        }
        lemma_leading_digits(tail, (n - 1) as nat);
    }
}

/// The value of an optional 128-bit count, as a natural number.
pub open spec fn count_view(r: Option<u128>) -> Option<nat> {
    match r {
        Some(v) => Some(v as nat),
        None => None,
    }
}

/// Reads the plain decimal `text` as a count of units of `10^-decimals`.
///
/// Gives the value exactly where the text is a plain decimal and at most
/// eighteen decimals are asked for, and nothing otherwise.
pub fn parse_decimal(text: &[u8], decimals: u8) -> (r: Option<u128>)
    ensures
        count_view(r) == decimal_value(text@, decimals as nat),
{
    if decimals > 18 {
        return None;
    }
    let len = text.len();
    let mut i: usize = 0;
    let mut acc: u128 = 0;
    while i < len && text[i] >= 48 && text[i] <= 57
        invariant
            i <= len,
            len == text.len(),
            i <= 18,
            all_digits(text@.take(i as int)),
            acc == digits_value(text@.take(i as int)),
            acc < pow10(i as nat),
        decreases len - i,
    {
        if i == 18 {
            proof {
                lemma_too_many_digits(text@);
            }
            return None;
        }
        proof {
            lemma_pow10_bounds(i as nat, 36);
            assert(text@.take(i + 1).drop_last() =~= text@.take(i as int));
            assert forall|k: int| 0 <= k < i + 1 implies is_digit(
                #[trigger] text@.take(i + 1)[k],
            ) by {
                if k < i {
                    assert(text@.take(i + 1)[k] == text@.take(i as int)[k]);
                }
            }
        }
        acc = acc * 10 + (text[i] - 48) as u128;
        i = i + 1;
    }
    proof {
        lemma_leading_digits(text@, i as nat);
    }
    if i == 0 {
        return None;
    }
    let ghost whole = text@.take(i as int);
    let ghost rest = text@.skip(i as int);
    let mut used: u8 = 0;
    if i < len {
        assert(rest[0] == text@[i as int]);
        if text[i] != 46 || i + 1 == len {
            return None;
        }
        let ghost frac = rest.skip(1);
        let start = i + 1;
        let mut j: usize = start;
        assert(frac.take(0) =~= Seq::<u8>::empty());
        assert(acc * 1 == acc);
        while j < len
            invariant
                start <= j <= len,
                len == text.len(),
                start == i + 1,
                1 <= i <= 18,
                decimals <= 18,
                frac == text@.skip(i as int).skip(1),
                frac.len() == len - start,
                leading_digits(text@) == i,
                text@[i as int] == 46,
                decimals <= 18,
                all_digits(frac.take(j - start)),
                used <= decimals,
                used == if j - start < decimals {
                    j - start
                } else {
                    decimals as int
                },
                acc == digits_value(whole) * pow10(used as nat) + digits_value(
                    frac.take(used as int),
                ),
                digits_value(whole) < pow10(i as nat),
                digits_value(frac.take(used as int)) < pow10(used as nat),
            decreases len - j,
        {
            assert(frac[j - start] == text@[j as int]);
            if text[j] < 48 || text[j] > 57 {
                proof {
                    assert(!is_digit(frac[j - start]));
                    assert(!all_digits(frac));
                    assert(text@.skip(i as int)[0] == 46);
                }
                return None;
            }
            proof {
                assert forall|k: int| 0 <= k < j - start + 1 implies is_digit(
                    #[trigger] frac.take(j - start + 1)[k],
                ) by {
                    if k < j - start {
                        assert(frac.take(j - start + 1)[k] == frac.take(j - start)[k]);
                    }
                }
            }
            if used < decimals {
                proof {
                    let kept = frac.take(used as int);
                    let more = frac.take(used + 1);
                    assert(more.drop_last() =~= kept);
                    assert(more.last() == text@[j as int]);
                    lemma_pow10_add(i as nat, used as nat);
                    lemma_pow10_bounds((i + used) as nat, 35);
                    lemma_pow10_bounds(35, 36);
                    assert(acc < pow10((i + used) as nat)) by (nonlinear_arith)
                        requires
                            acc == digits_value(whole) * pow10(used as nat) + digits_value(kept),
                            digits_value(whole) + 1 <= pow10(i as nat),
                            digits_value(kept) < pow10(used as nat),
                            pow10((i + used) as nat) == pow10(i as nat) * pow10(used as nat),
                    ;
                    assert(digits_value(whole) * pow10((used + 1) as nat) == (digits_value(whole)
                        * pow10(used as nat)) * 10) by (nonlinear_arith)
                        requires
                            pow10((used + 1) as nat) == 10 * pow10(used as nat),
                    ;
                    assert forall|k: int| 0 <= k < more.len() implies is_digit(
                        #[trigger] more[k],
                    ) by {
                        assert(more[k] == frac.take(j - start + 1)[k]);
                    }
                    lemma_digits_below_pow10(more);
                }
                acc = acc * 10 + (text[j] - 48) as u128;
                used = used + 1;
            }
            j = j + 1;
        }
        assert(frac.take(frac.len() as int) =~= frac);
        assert(all_digits(frac));
    } else {
        assert(rest.len() == 0);
        assert(acc * 1 == acc);
        assert(Seq::<u8>::empty().take(0) =~= Seq::<u8>::empty());
    }
    let ghost frac = if i < len {
        rest.skip(1)
    } else {
        Seq::<u8>::empty()
    };
    let ghost low = digits_value(frac.take(used as int));
    let ghost kept = used;
    assert(frac.len() >= decimals ==> used == decimals);
    assert(frac.len() < decimals ==> used == frac.len() && frac.take(used as int) =~= frac);
    while used < decimals
        invariant
            kept <= used <= decimals <= 18,
            1 <= i <= 18,
            digits_value(whole) < pow10(i as nat),
            low < pow10(kept as nat),
            acc == digits_value(whole) * pow10(used as nat) + low * pow10((used - kept) as nat),
        decreases decimals - used,
    {
        proof {
            lemma_pow10_add(i as nat, used as nat);
            lemma_pow10_add(kept as nat, (used - kept) as nat);
            lemma_pow10_bounds((i + used) as nat, 35);
            lemma_pow10_bounds(35, 36);
            lemma_pow10_bounds(0, (used - kept) as nat);
            assert(acc < pow10((i + used) as nat)) by (nonlinear_arith)
                requires
                    acc == digits_value(whole) * pow10(used as nat) + low * pow10(
                        (used - kept) as nat,
                    ),
                    digits_value(whole) + 1 <= pow10(i as nat),
                    low + 1 <= pow10(kept as nat),
                    pow10((used - kept) as nat) >= 1,
                    pow10(used as nat) == pow10(kept as nat) * pow10((used - kept) as nat),
                    pow10((i + used) as nat) == pow10(i as nat) * pow10(used as nat),
            ;
            assert((digits_value(whole) * pow10(used as nat) + low * pow10((used - kept) as nat))
                * 10 == digits_value(whole) * pow10((used + 1) as nat) + low * pow10(
                (used + 1 - kept) as nat,
            )) by (nonlinear_arith)
                requires
                    pow10((used + 1) as nat) == 10 * pow10(used as nat),
                    pow10((used + 1 - kept) as nat) == 10 * pow10((used - kept) as nat),
            ;
        }
        acc = acc * 10;
        used = used + 1;
    }
    proof {
        if frac.len() >= decimals {
            assert(pow10(0) == 1);
            assert(low * 1 == low);
        }
        if i == len {
            assert(low == 0);
            assert(0 * pow10((used - kept) as nat) == 0);
        }
    }
    Some(acc)
}

proof fn lemma_too_many_digits(text: Seq<u8>)
    requires
        text.len() > 18,
        all_digits(text.take(19)),
    ensures
        leading_digits(text) > 18,
    decreases text.len(),
{
    lemma_at_least_digits(text, 19);
}

proof fn lemma_at_least_digits(text: Seq<u8>, n: nat)
    requires
        n <= text.len(),
        all_digits(text.take(n as int)),
    ensures
        leading_digits(text) >= n,
    decreases n,
{
    if n > 0 {
        assert(text.take(n as int)[0] == text[0]);
        let tail = text.drop_first();
        assert forall|i: int| 0 <= i < n - 1 implies is_digit(
            #[trigger] tail.take((n - 1) as int)[i],
        ) by {
            assert(tail.take((n - 1) as int)[i] == text.take(n as int)[i + 1]);
        }
        lemma_at_least_digits(tail, (n - 1) as nat);
    }
}

} // verus!
