//! Fixed-width decimal rendering of the numeric token claims, with the
//! round-trip and uniqueness lemmas the codec's contracts rest on. A claim
//! value travels as exactly twenty ASCII digits, so every value has one
//! rendering and every rendering one value.

use vstd::prelude::*;

verus! {

/// The width every rendered claim value has.
pub const CLAIM_DIGITS: usize = 20;

pub open spec fn pow10(w: nat) -> nat
    decreases w,
{
    if w == 0 {
        1
    } else {
        10 * pow10((w - 1) as nat)
    }
}

pub open spec fn is_digit(b: u8) -> bool {
    48 <= b <= 57
}

pub open spec fn all_digits(s: Seq<u8>) -> bool {
    forall|i: int| 0 <= i < s.len() ==> is_digit(#[trigger] s[i])
}

/// `n` written in decimal, zero-padded to `width` bytes; only the `width`
/// lowest digits survive.
pub open spec fn spec_padded_digits(width: nat, n: nat) -> Seq<u8>
    decreases width,
{
    if width == 0 {
        Seq::empty()
    } else {
        spec_padded_digits((width - 1) as nat, n / 10) + seq![(48 + n % 10) as u8]
    }
}

/// The value a run of ASCII digits denotes.
pub open spec fn spec_digits_val(s: Seq<u8>) -> nat
    decreases s.len(),
{
    if s.len() == 0 {
        0
    } else {
        spec_digits_val(s.drop_last()) * 10 + (s.last() - 48) as nat
    }
}

pub proof fn lemma_padded_digits_wf(width: nat, n: nat)
    ensures
        spec_padded_digits(width, n).len() == width,
        all_digits(spec_padded_digits(width, n)),
    decreases width,
{
    if width > 0 {
        lemma_padded_digits_wf((width - 1) as nat, n / 10);
        assert forall|i: int| 0 <= i < width implies is_digit(
            #[trigger] spec_padded_digits(width, n)[i],
        ) by {
            if i < width - 1 {
                assert(spec_padded_digits(width, n)[i] == spec_padded_digits(
                    (width - 1) as nat,
                    n / 10,
                )[i]);
            }
        }
    }
}

/// Rendering then reading gives back the value, modulo the window the width
/// can hold.
pub proof fn lemma_val_of_padded(width: nat, n: nat)
    ensures
        spec_digits_val(spec_padded_digits(width, n)) == n % pow10(width),
    decreases width,
{
    if width == 0 {
        assert(n % 1 == 0) by (nonlinear_arith);
    } else {
        let rest = spec_padded_digits((width - 1) as nat, n / 10);
        lemma_padded_digits_wf((width - 1) as nat, n / 10);
        lemma_val_of_padded((width - 1) as nat, n / 10);
        let s = spec_padded_digits(width, n);
        assert(s.drop_last() =~= rest);
        assert(s.last() == (48 + n % 10) as u8);
        assert(spec_digits_val(s) == ((n / 10) % pow10((width - 1) as nat)) * 10 + n % 10);
        lemma_pow10_pos((width - 1) as nat);
        lemma_mod_digit_split(n, pow10((width - 1) as nat));
    }
}

pub proof fn lemma_pow10_pos(w: nat)
    ensures
        pow10(w) >= 1,
    decreases w,
{
    if w > 0 {
        lemma_pow10_pos((w - 1) as nat);
    }
}

/// For d >= 1: n % (10 * d) splits into the higher digits modulo d and the
/// lowest digit.
proof fn lemma_mod_digit_split(n: nat, d: nat)
    requires
        d >= 1,
    ensures
        n % (10 * d) == ((n / 10) % d) * 10 + n % 10,
    decreases n,
{
    if n < 10 * d {
        assert(n % (10 * d) == n) by {
            vstd::arithmetic::div_mod::lemma_small_mod(n, 10 * d);
        }
        assert(n / 10 < d) by (nonlinear_arith)
            requires
                n < 10 * d,
                d >= 1,
        ;
        vstd::arithmetic::div_mod::lemma_small_mod((n / 10) as nat, d);
        assert(n == (n / 10) * 10 + n % 10) by (nonlinear_arith);
    } else {
        let m = (n - 10 * d) as nat;
        lemma_mod_digit_split(m, d);
        assert(m % (10 * d) == n % (10 * d)) by (nonlinear_arith)
            requires
                n >= 10 * d,
                d >= 1,
                m == n - 10 * d,
        ;
        assert(m / 10 + d == n / 10) by (nonlinear_arith)
            requires
                n >= 10 * d,
                d >= 1,
                m == n - 10 * d,
        ;
        assert((m / 10) % d == (n / 10) % d) by (nonlinear_arith)
            requires
                m / 10 + d == n / 10,
                d >= 1,
        ;
        assert(m % 10 == n % 10) by (nonlinear_arith)
            requires
                n >= 10 * d,
                d >= 1,
                m == n - 10 * d,
        ;
    }
}

/// Every run of digits is the rendering of its own value: renderings are
/// unique.
pub proof fn lemma_padded_of_val(s: Seq<u8>)
    requires
        all_digits(s),
    ensures
        spec_padded_digits(s.len(), spec_digits_val(s)) == s,
    decreases s.len(),
{
    if s.len() > 0 {
        let front = s.drop_last();
        assert(all_digits(front)) by {
            assert(forall|i: int| 0 <= i < s.len() - 1 ==> front[i] == #[trigger] s[i]);
        }
        lemma_padded_of_val(front);
        let v = spec_digits_val(s);
        let d = (s.last() - 48) as nat;
        assert(v == spec_digits_val(front) * 10 + d);
        assert(v / 10 == spec_digits_val(front) && v % 10 == d) by (nonlinear_arith)
            requires
                v == spec_digits_val(front) * 10 + d,
                d < 10,
        ;
        assert(spec_padded_digits(s.len(), v) =~= s);
    }
}

pub proof fn lemma_val_of_padded_small(width: nat, n: nat)
    requires
        n < pow10(width),
    ensures
        spec_digits_val(spec_padded_digits(width, n)) == n,
{
    lemma_val_of_padded(width, n);
    vstd::arithmetic::div_mod::lemma_small_mod(n, pow10(width));
}

/// Twenty digits cover every `u64`.
pub proof fn lemma_u64_fits_claim_digits(n: u64)
    ensures
        (n as nat) < pow10(CLAIM_DIGITS as nat),
{
    reveal_with_fuel(pow10, 21);
    assert(pow10(20) == 100000000000000000000);
}

/// Appends the fixed-width decimal rendering of `n`.
pub fn push_padded_digits(out: &mut Vec<u8>, width: usize, n: u64)
    ensures
        final(out)@ == old(out)@ + spec_padded_digits(width as nat, n as nat),
    decreases width,
{
    if width == 0 {
        proof {
            assert(out@ =~= old(out)@ + spec_padded_digits(0, n as nat));
        }
    } else {
        push_padded_digits(out, width - 1, n / 10);
        out.push(48 + (n % 10) as u8);
        proof {
            assert((n / 10) as nat == (n as nat) / 10);
            assert((n % 10) as nat == (n as nat) % 10);
            assert(out@ =~= old(out)@ + spec_padded_digits(width as nat, n as nat));
        }
    }
}

/// Reads a run of ASCII digits back as a `u64`: `None` when a byte is not a
/// digit or the value does not fit.
pub fn parse_digits_u64(s: &[u8]) -> (r: Option<u64>)
    requires
        s@.len() <= 20,
    ensures
        match r {
            Some(v) => all_digits(s@) && v as nat == spec_digits_val(s@) && spec_digits_val(s@)
                <= u64::MAX,
            None => !all_digits(s@) || spec_digits_val(s@) > u64::MAX,
        },
{
    let n = s.len();
    let mut acc: u128 = 0;
    let mut i: usize = 0;
    proof {
        assert(s@.take(0) =~= Seq::<u8>::empty());
    }
    while i < n
        invariant
            0 <= i <= n,
            n == s@.len() <= 20,
            all_digits(s@.take(i as int)),
            acc as nat == spec_digits_val(s@.take(i as int)),
            (acc as nat) < pow10(i as nat),
        decreases n - i,
    {
        let b = s[i];
        if b < 48 || b > 57 {
            proof {
                assert(!is_digit(s@[i as int]));
            }
            return None;
        }
        proof {
            lemma_pow10_le_20(i as nat);
            assert(acc * 10 + 9 < pow10((i + 1) as nat)) by (nonlinear_arith)
                requires
                    acc as nat + 1 <= pow10(i as nat),
                    pow10((i + 1) as nat) == 10 * pow10(i as nat),
            ;
            assert(s@.take(i + 1).drop_last() =~= s@.take(i as int));
            assert(s@.take(i + 1).last() == s@[i as int]);
        }
        acc = acc * 10 + ((b - 48) as u128);
        i += 1;
        proof {
            assert(all_digits(s@.take(i as int))) by {
                assert(forall|j: int|
                    0 <= j < i ==> s@.take(i as int)[j] == #[trigger] s@[j]);
            }
        }
    }
    proof {
        assert(s@.take(n as int) =~= s@);
    }
    if acc > u64::MAX as u128 {
        None
    } else {
        Some(acc as u64)
    }
}

/// pow10 grows monotonically up to the claim width, and stays within `u128`.
proof fn lemma_pow10_le_20(w: nat)
    requires
        w <= 20,
    ensures
        pow10((w + 1) as nat) == 10 * pow10(w),
        pow10((w + 1) as nat) <= pow10(21),
        pow10(21) < u128::MAX,
    decreases 21 - w,
{
    reveal_with_fuel(pow10, 22);
    assert(pow10(21) == 1000000000000000000000);
    if w < 20 {
        lemma_pow10_le_20((w + 1) as nat);
    }
}

} // verus!
