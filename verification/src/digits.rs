//! Little-endian strings of base-256 digits and the numbers they stand for.
use vstd::prelude::*;

verus! {

/// `256` to the power `k`.
pub open spec fn pow256(k: nat) -> nat
    decreases k,
{
    if k == 0 {
        1
    } else {
        256 * pow256((k - 1) as nat)
    }
}

/// `2` to the power `k`.
pub open spec fn two_pow(k: nat) -> nat
    decreases k,
{
    if k == 0 {
        1
    } else {
        2 * two_pow((k - 1) as nat)
    }
}

/// The number that the digits `s` stand for, least significant digit first.
pub open spec fn le_value(s: Seq<u8>) -> nat
    decreases s.len(),
{
    if s.len() == 0 {
        0
    } else {
        s[0] as nat + 256 * le_value(s.drop_first())
    }
}

/// The shortest digit string of `n`: no digit for zero, and otherwise a last
/// digit that is not zero.
pub open spec fn min_digits(n: nat) -> Seq<u8>
    decreases n,
{
    if n == 0 {
        Seq::<u8>::empty()
    } else {
        seq![(n % 256) as u8] + min_digits(n / 256)
    }
}

/// A digit string is minimal when it does not end in a zero digit.
pub open spec fn is_minimal(s: Seq<u8>) -> bool {
    s.len() == 0 || s.last() != 0
}

/// The digits `s`, cut or extended with zero digits to exactly `len` digits.
pub open spec fn fit(s: Seq<u8>, len: nat) -> Seq<u8> {
    Seq::new(
        len,
        |i: int|
            if i < s.len() {
                s[i]
            } else {
                0u8
            },
    )
}

/// Every power of 256 is positive.
pub proof fn lemma_pow256_positive(k: nat)
    ensures
        pow256(k) > 0,
    decreases k,
{
    if k > 0 {
        lemma_pow256_positive((k - 1) as nat);
    }
}

/// A larger exponent gives a power of 256 that is not smaller.
pub proof fn lemma_pow256_monotonic(j: nat, k: nat)
    requires
        j <= k,
    ensures
        pow256(j) <= pow256(k),
    decreases k,
{
    if j < k {
        lemma_pow256_monotonic(j, (k - 1) as nat);
    }
}

/// `256^4` is `2^32`.
pub proof fn lemma_pow256_4()
    ensures
        pow256(4) == 0x1_0000_0000,
{
    reveal_with_fuel(pow256, 5);
}

/// `256^16` is `2^128`.
pub proof fn lemma_pow256_16()
    ensures
        pow256(16) == 0x1_0000_0000_0000_0000_0000_0000_0000_0000,
{
    reveal_with_fuel(pow256, 17);
}

/// `256^15` is `2^120`.
pub proof fn lemma_pow256_15()
    ensures
        pow256(15) == 0x1_0000_0000_0000_0000_0000_0000_0000_00,
{
    reveal_with_fuel(pow256, 16);
}

/// Every power of 2 is positive.
pub proof fn lemma_two_pow_positive(k: nat)
    ensures
        two_pow(k) > 0,
    decreases k,
{
    if k > 0 {
        lemma_two_pow_positive((k - 1) as nat);
    }
}

/// The power of 2 by a sum is the product of the powers.
pub proof fn lemma_two_pow_adds(j: nat, k: nat)
    ensures
        two_pow(j + k) == two_pow(j) * two_pow(k),
    decreases j,
{
    if j == 0 {
        assert(two_pow(0) * two_pow(k) == two_pow(k)) by (nonlinear_arith)
            requires
                two_pow(0) == 1,
        ;
    } else {
        lemma_two_pow_adds((j - 1) as nat, k);
        assert(two_pow(j + k) == 2 * two_pow((j + k - 1) as nat));
        assert(((j - 1) as nat) + k == (j + k - 1) as nat);
        assert(2 * (two_pow((j - 1) as nat) * two_pow(k)) == (2 * two_pow((j - 1) as nat))
            * two_pow(k)) by (nonlinear_arith);
    }
}

/// A larger exponent gives a power of 2 that is not smaller.
pub proof fn lemma_two_pow_monotonic(j: nat, k: nat)
    requires
        j <= k,
    ensures
        two_pow(j) <= two_pow(k),
    decreases k,
{
    if j < k {
        lemma_two_pow_monotonic(j, (k - 1) as nat);
    }
}

/// Eight doublings make one digit: `2^(8k) == 256^k`.
pub proof fn lemma_two_pow_is_pow256(k: nat)
    ensures
        two_pow(8 * k) == pow256(k),
    decreases k,
{
    if k > 0 {
        lemma_two_pow_is_pow256((k - 1) as nat);
        lemma_two_pow_adds(8, (8 * (k - 1)) as nat);
        assert(two_pow(8) == 256) by {
            reveal_with_fuel(two_pow, 9);
        }
        assert(8 + (8 * (k - 1)) as nat == 8 * k);
    }
}

/// A string of `n` digits stands for a number below `256^n`.
pub proof fn lemma_le_value_bound(s: Seq<u8>)
    ensures
        le_value(s) < pow256(s.len()),
    decreases s.len(),
{
    if s.len() > 0 {
        lemma_le_value_bound(s.drop_first());
    }
}

/// Appending a digit adds it at the weight of its position.
pub proof fn lemma_le_value_push(s: Seq<u8>, d: u8)
    ensures
        le_value(s.push(d)) == le_value(s) + d as nat * pow256(s.len()),
    decreases s.len(),
{
    if s.len() == 0 {
        assert(s.push(d).drop_first() =~= Seq::<u8>::empty());
        assert(le_value(s.push(d)) == d as nat + 256 * le_value(Seq::<u8>::empty()));
        assert(d as nat * pow256(0) == d as nat) by (nonlinear_arith)
            requires
                pow256(0) == 1,
        ;
    } else {
        let t = s.drop_first();
        lemma_le_value_push(t, d);
        assert(s.push(d).drop_first() =~= t.push(d));
        assert(s.push(d)[0] == s[0]);
        assert(le_value(s.push(d)) == s[0] as nat + 256 * le_value(t.push(d)));
        assert(pow256(s.len()) == 256 * pow256(t.len()));
        assert(256 * (d as nat * pow256(t.len())) == d as nat * (256 * pow256(t.len())))
            by (nonlinear_arith);
    }
}

/// A number splits at any position into its low digits and its high digits.
pub proof fn lemma_le_value_split(s: Seq<u8>, k: int)
    requires
        0 <= k <= s.len(),
    ensures
        le_value(s) == le_value(s.subrange(0, k)) + pow256(k as nat) * le_value(
            s.subrange(k, s.len() as int),
        ),
    decreases s.len() - k,
{
    if k == s.len() {
        assert(s.subrange(0, k) =~= s);
        assert(s.subrange(k, s.len() as int) =~= Seq::<u8>::empty());
        assert(pow256(k as nat) * le_value(Seq::<u8>::empty()) == 0) by (nonlinear_arith)
            requires
                le_value(Seq::<u8>::empty()) == 0,
        ;
    } else {
        lemma_le_value_split(s, k + 1);
        let low = s.subrange(0, k);
        let high = s.subrange(k, s.len() as int);
        assert(s.subrange(0, k + 1) =~= low.push(s[k]));
        lemma_le_value_push(low, s[k]);
        assert(high.drop_first() =~= s.subrange(k + 1, s.len() as int));
        assert(high[0] == s[k]);
        let rest = le_value(s.subrange(k + 1, s.len() as int));
        assert(pow256((k + 1) as nat) == 256 * pow256(k as nat));
        assert(le_value(high) == s[k] as nat + 256 * rest);
        assert(pow256(k as nat) * (s[k] as nat + 256 * rest) == s[k] as nat * pow256(k as nat) + (
        256 * pow256(k as nat)) * rest) by (nonlinear_arith);
    }
}

/// Zero digits at the end do not change the number.
pub proof fn lemma_le_value_fit_longer(s: Seq<u8>, len: nat)
    requires
        s.len() <= len,
    ensures
        le_value(fit(s, len)) == le_value(s),
    decreases len - s.len(),
{
    if s.len() == len {
        assert(fit(s, len) =~= s);
    } else {
        lemma_le_value_fit_longer(s, (len - 1) as nat);
        let shorter = fit(s, (len - 1) as nat);
        assert(fit(s, len) =~= shorter.push(0u8));
        lemma_le_value_push(shorter, 0u8);
    }
}

/// Cutting a string to `len` digits reduces the number modulo `256^len`.
pub proof fn lemma_le_value_fit(s: Seq<u8>, len: nat)
    ensures
        le_value(fit(s, len)) == le_value(s) % pow256(len),
{
    lemma_pow256_positive(len);
    if s.len() <= len {
        lemma_le_value_fit_longer(s, len);
        lemma_le_value_bound(s);
        lemma_pow256_monotonic(s.len(), len);
        vstd::arithmetic::div_mod::lemma_small_mod(le_value(s), pow256(len));
    } else {
        let low = s.subrange(0, len as int);
        let high = s.subrange(len as int, s.len() as int);
        assert(fit(s, len) =~= low);
        lemma_le_value_split(s, len as int);
        lemma_le_value_bound(low);
        let m = pow256(len) as int;
        vstd::arithmetic::div_mod::lemma_mod_multiples_vanish(
            le_value(high) as int,
            le_value(low) as int,
            m,
        );
        vstd::arithmetic::div_mod::lemma_small_mod(le_value(low), pow256(len));
        assert(m * le_value(high) + le_value(low) == le_value(s));
    }
}

/// The number is zero exactly when every digit is zero.
pub proof fn lemma_le_value_zero(s: Seq<u8>)
    ensures
        le_value(s) == 0 <==> (forall|i: int| 0 <= i < s.len() ==> s[i] == 0),
    decreases s.len(),
{
    if s.len() > 0 {
        let t = s.drop_first();
        lemma_le_value_zero(t);
        if le_value(s) == 0 {
            assert forall|i: int| 0 <= i < s.len() implies s[i] == 0 by {
                if i > 0 {
                    assert(s[i] == t[i - 1]);
                }
            }
        }
        if forall|i: int| 0 <= i < s.len() ==> s[i] == 0 {
            assert forall|i: int| 0 <= i < t.len() implies t[i] == 0 by {
                assert(t[i] == s[i + 1]);
            }
        }
    }
}

/// The shortest digit string of a number stands for that number.
pub proof fn lemma_min_digits_value(n: nat)
    ensures
        le_value(min_digits(n)) == n,
        is_minimal(min_digits(n)),
    decreases n,
{
    if n > 0 {
        lemma_min_digits_value(n / 256);
        let head = seq![(n % 256) as u8];
        let tail = min_digits(n / 256);
        assert((head + tail).drop_first() =~= tail);
        assert((head + tail)[0] == (n % 256) as u8);
        if tail.len() > 0 {
            assert((head + tail).last() == tail.last());
        }
    }
}

/// A minimal digit string is the shortest digit string of its number.
pub proof fn lemma_minimal_is_min_digits(s: Seq<u8>)
    requires
        is_minimal(s),
    ensures
        min_digits(le_value(s)) == s,
    decreases s.len(),
{
    if s.len() == 0 {
    } else {
        let t = s.drop_first();
        let n = le_value(s);
        if t.len() > 0 {
            assert(t.last() == s.last());
        }
        lemma_minimal_is_min_digits(t);
        lemma_le_value_zero(s);
        assert(n != 0) by {
            if n == 0 {
                assert(s[s.len() - 1] == 0);
            }
        }
        assert(n % 256 == s[0] as nat && n / 256 == le_value(t)) by {
            let d = s[0] as int;
            let r = le_value(t) as int;
            vstd::arithmetic::div_mod::lemma_fundamental_div_mod_converse(n as int, 256, r, d);
        }
        assert(seq![(n % 256) as u8] + min_digits(n / 256) =~= s);
    }
}

/// Two digit strings of one length that stand for one number are equal.
pub proof fn lemma_le_value_injective(s: Seq<u8>, t: Seq<u8>)
    requires
        s.len() == t.len(),
        le_value(s) == le_value(t),
    ensures
        s == t,
    decreases s.len(),
{
    if s.len() > 0 {
        let n = le_value(s);
        vstd::arithmetic::div_mod::lemma_fundamental_div_mod_converse(
            n as int,
            256,
            le_value(s.drop_first()) as int,
            s[0] as int,
        );
        vstd::arithmetic::div_mod::lemma_fundamental_div_mod_converse(
            n as int,
            256,
            le_value(t.drop_first()) as int,
            t[0] as int,
        );
        lemma_le_value_injective(s.drop_first(), t.drop_first());
        assert(s =~= seq![s[0]] + s.drop_first());
        assert(t =~= seq![t[0]] + t.drop_first());
    }
    assert(s =~= t);
}

/// A string of zero digits followed by one digit stands for that digit at the
/// weight of its position.
pub proof fn lemma_le_value_single(s: Seq<u8>, k: int)
    requires
        0 <= k < s.len(),
        forall|i: int| 0 <= i < s.len() && i != k ==> s[i] == 0,
    ensures
        le_value(s) == s[k] as nat * pow256(k as nat),
{
    let low = s.subrange(0, k);
    let high = s.subrange(k, s.len() as int);
    lemma_le_value_split(s, k);
    lemma_le_value_zero(low);
    assert(le_value(low) == 0);
    let rest = high.drop_first();
    assert forall|i: int| 0 <= i < rest.len() implies rest[i] == 0 by {
        assert(rest[i] == s[k + 1 + i]);
    }
    lemma_le_value_zero(rest);
    assert(high[0] == s[k]);
    assert(le_value(high) == s[k] as nat);
    assert(pow256(k as nat) * (s[k] as nat) == s[k] as nat * pow256(k as nat))
        by (nonlinear_arith);
}

/// The first `len` digits of `n`, least significant first.
pub open spec fn digits_of(n: nat, len: nat) -> Seq<u8>
    decreases len,
{
    if len == 0 {
        Seq::<u8>::empty()
    } else {
        seq![(n % 256) as u8] + digits_of(n / 256, (len - 1) as nat)
    }
}

/// The first `len` digits of `n` stand for `n` modulo `256^len`.
pub proof fn lemma_digits_of_value(n: nat, len: nat)
    ensures
        digits_of(n, len).len() == len,
        le_value(digits_of(n, len)) == n % pow256(len),
    decreases len,
{
    if len > 0 {
        let rest = digits_of(n / 256, (len - 1) as nat);
        lemma_digits_of_value(n / 256, (len - 1) as nat);
        let whole = seq![(n % 256) as u8] + rest;
        assert(whole.drop_first() =~= rest);
        assert(whole[0] == (n % 256) as u8);
        lemma_pow256_positive((len - 1) as nat);
        vstd::arithmetic::div_mod::lemma_mod_breakdown(
            n as int,
            256,
            pow256((len - 1) as nat) as int,
        );
    }
}

/// Taking as many digits of a number as its string has gives the string back.
pub proof fn lemma_digits_of_le_value(s: Seq<u8>)
    ensures
        digits_of(le_value(s), s.len()) == s,
    decreases s.len(),
{
    if s.len() > 0 {
        let t = s.drop_first();
        let n = le_value(s);
        lemma_digits_of_le_value(t);
        vstd::arithmetic::div_mod::lemma_fundamental_div_mod_converse(
            n as int,
            256,
            le_value(t) as int,
            s[0] as int,
        );
        assert(seq![(n % 256) as u8] + digits_of(n / 256, (s.len() - 1) as nat) =~= s);
    }
}

} // verus!
