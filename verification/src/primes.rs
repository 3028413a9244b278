//! Why exponents wrap in the group of a prime: Fermat's little theorem.
//!
//! For a prime `p` and a number `a` that `p` does not divide, the numbers
//! `a, 2a, ..., (p-1)a` are, modulo `p`, the numbers `1, ..., p-1` in another
//! order. Their product is therefore `(p-1)!` as well as `a^(p-1) * (p-1)!`
//! modulo `p`, and since `p` does not divide `(p-1)!`, `a^(p-1)` is 1.
use crate::elgamal::KeyView;
use vstd::arithmetic::div_mod::{
    lemma_fundamental_div_mod, lemma_mod_equivalence, lemma_mod_multiples_basic,
    lemma_mul_mod_noop, lemma_mul_mod_noop_left, lemma_small_mod,
};
use vstd::arithmetic::power::{lemma_pow0, lemma_pow_positive, pow};
use vstd::prelude::*;
use vstd::set_lib::{lemma_int_range, lemma_len_subset, set_int_range};

verus! {

/// Whether `p` is a prime: at least 2, and divisible by no number in between
/// 1 and itself.
pub open spec fn is_prime(p: nat) -> bool {
    p >= 2 && forall|d: nat| 1 < d < p ==> #[trigger] (p % d) != 0
}

/// The product of the numbers from 1 to `n`.
pub open spec fn factorial(n: nat) -> int
    decreases n,
{
    if n == 0 {
        1
    } else {
        n * factorial((n - 1) as nat)
    }
}

/// The product of the numbers of a sequence.
pub open spec fn seq_product(s: Seq<int>) -> int
    decreases s.len(),
{
    if s.len() == 0 {
        1
    } else {
        seq_product(s.drop_last()) * s.last()
    }
}

/// The first `n` multiples of `a`, each reduced modulo `p`.
pub open spec fn residues(a: int, p: int, n: nat) -> Seq<int> {
    Seq::new(n, |i: int| (a * (i + 1)) % p)
}

/// A prime that divides a product of a smaller positive number and another
/// number divides the other number.
pub proof fn lemma_prime_divides_other(p: nat, a: nat, b: int)
    requires
        is_prime(p),
        0 < a < p,
        (a * b) % (p as int) == 0,
    ensures
        b % (p as int) == 0,
    decreases a,
{
    let pi = p as int;
    let ai = a as int;
    if a == 1 {
        assert(ai * b == b) by (nonlinear_arith)
            requires
                ai == 1,
        ;
    } else {
        let q = pi / ai;
        let r = pi % ai;
        lemma_fundamental_div_mod(pi, ai);
        assert(p % a != 0);
        let k = (ai * b) / pi;
        lemma_fundamental_div_mod(ai * b, pi);
        assert(r * b == (b - q * k) * pi) by (nonlinear_arith)
            requires
                pi == ai * q + r,
                ai * b == pi * k,
        ;
        lemma_mod_multiples_basic(b - q * k, pi);
        lemma_prime_divides_other(p, r as nat, b);
    }
}

/// A prime that divides a product divides one of its factors.
pub proof fn lemma_prime_divides_factor(p: nat, a: int, b: int)
    requires
        is_prime(p),
        a % (p as int) != 0,
        (a * b) % (p as int) == 0,
    ensures
        b % (p as int) == 0,
{
    let pi = p as int;
    let reduced = a % pi;
    lemma_mul_mod_noop_left(a, b, pi);
    vstd::arithmetic::div_mod::lemma_mod_bound(a, pi);
    lemma_prime_divides_other(p, reduced as nat, b);
}

/// A prime divides no factorial of a smaller number.
pub proof fn lemma_prime_spares_factorial(p: nat, n: nat)
    requires
        is_prime(p),
        n < p,
    ensures
        factorial(n) % (p as int) != 0,
        factorial(n) > 0,
    decreases n,
{
    if n == 0 {
        lemma_small_mod(1, p);
    } else {
        lemma_prime_spares_factorial(p, (n - 1) as nat);
        let rest = factorial((n - 1) as nat);
        assert(n * rest > 0) by (nonlinear_arith)
            requires
                n > 0,
                rest > 0,
        ;
        if factorial(n) % (p as int) == 0 {
            lemma_small_mod(n, p);
            lemma_prime_divides_factor(p, n as int, rest);
        }
    }
}

/// Taking a number out of a sequence divides the product by it.
pub proof fn lemma_product_remove(s: Seq<int>, k: int)
    requires
        0 <= k < s.len(),
    ensures
        seq_product(s) == s[k] * seq_product(s.remove(k)),
    decreases s.len(),
{
    if k == s.len() - 1 {
        assert(s.remove(k) =~= s.drop_last());
        assert(seq_product(s.drop_last()) * s.last() == s[k] * seq_product(s.drop_last()))
            by (nonlinear_arith)
            requires
                s.last() == s[k],
        ;
    } else {
        let front = s.drop_last();
        lemma_product_remove(front, k);
        let shorter = s.remove(k);
        assert(shorter.drop_last() =~= front.remove(k));
        assert(shorter.last() == s.last());
        assert(front[k] == s[k]);
        let x = seq_product(front.remove(k));
        assert((s[k] * x) * s.last() == s[k] * (x * s.last())) by (nonlinear_arith);
    }
}

/// The product of `n` different numbers from 1 to `n` is the factorial of
/// `n`.
pub proof fn lemma_product_of_permutation(s: Seq<int>, n: nat)
    requires
        s.len() == n,
        s.no_duplicates(),
        forall|i: int| 0 <= i < s.len() ==> 1 <= #[trigger] s[i] <= n,
    ensures
        seq_product(s) == factorial(n),
    decreases n,
{
    if n > 0 {
        if forall|i: int| 0 <= i < s.len() ==> #[trigger] s[i] != n {
            // n different numbers do not fit below n
            s.unique_seq_to_set();
            lemma_int_range(1, n as int);
            assert(s.to_set().subset_of(set_int_range(1, n as int))) by {
                assert forall|x: int| s.to_set().contains(x) implies set_int_range(
                    1,
                    n as int,
                ).contains(x) by {
                    let i = choose|i: int| 0 <= i < s.len() && s[i] == x;
                    assert(1 <= s[i] <= n && s[i] != n);
                }
            }
            lemma_len_subset(s.to_set(), set_int_range(1, n as int));
            assert(false);
        }
        let k = choose|k: int| 0 <= k < s.len() && s[k] == n;
        let rest = s.remove(k);
        s.remove_ensures(k);
        assert forall|i: int| 0 <= i < rest.len() implies 1 <= #[trigger] rest[i] <= n - 1 by {
            if i < k {
                assert(rest[i] == s[i]);
                assert(s[i] != s[k]);
            } else {
                assert(rest[i] == s[i + 1]);
                assert(s[i + 1] != s[k]);
            }
        }
        assert(rest.no_duplicates()) by {
            assert forall|i: int, j: int|
                0 <= i < rest.len() && 0 <= j < rest.len() && i != j implies rest[i] != rest[j] by {
                let from_i = if i < k {
                    i
                } else {
                    i + 1
                };
                let from_j = if j < k {
                    j
                } else {
                    j + 1
                };
                assert(rest[i] == s[from_i] && rest[j] == s[from_j]);
                assert(s[from_i] != s[from_j]);
            }
        }
        lemma_product_of_permutation(rest, (n - 1) as nat);
        lemma_product_remove(s, k);
    }
}

/// The product of the first `n` multiples of `a`, each reduced modulo `p`,
/// is `a^n * n!` modulo `p`.
pub proof fn lemma_residue_product(a: int, p: int, n: nat)
    requires
        p > 0,
    ensures
        seq_product(residues(a, p, n)) % p == (pow(a, n) * factorial(n)) % p,
    decreases n,
{
    if n == 0 {
        lemma_pow0(a);
        assert(pow(a, 0) * factorial(0) == 1);
    } else {
        let s = residues(a, p, n);
        let before = residues(a, p, (n - 1) as nat);
        lemma_residue_product(a, p, (n - 1) as nat);
        assert(s.drop_last() =~= before);
        assert(s.last() == (a * n) % p);
        let x = seq_product(before);
        let y = pow(a, (n - 1) as nat) * factorial((n - 1) as nat);
        // x * ((a n) % p) is x * (a n), which is y * (a n), modulo p
        lemma_mul_mod_noop(x, (a * n) % p, p);
        vstd::arithmetic::div_mod::lemma_mod_twice(a * n, p);
        lemma_mul_mod_noop(x, a * n, p);
        lemma_mul_mod_noop(y, a * n, p);
        assert(pow(a, n) == a * pow(a, (n - 1) as nat)) by {
            reveal(pow);
        }
        assert(y * (a * n) == pow(a, n) * factorial(n)) by (nonlinear_arith)
            requires
                y == pow(a, (n - 1) as nat) * factorial((n - 1) as nat),
                pow(a, n) == a * pow(a, (n - 1) as nat),
                factorial(n) == n * factorial((n - 1) as nat),
        ;
    }
}

/// Fermat's little theorem: a prime `p` that does not divide `a` divides
/// `a^(p-1) - 1`.
pub proof fn lemma_fermat(a: nat, p: nat)
    requires
        is_prime(p),
        a % p != 0,
    ensures
        pow(a as int, (p - 1) as nat) % (p as int) == 1,
{
    let pi = p as int;
    let ai = a as int;
    let n = (p - 1) as nat;
    let s = residues(ai, pi, n);
    assert forall|i: int| 0 <= i < s.len() implies 1 <= #[trigger] s[i] <= n by {
        vstd::arithmetic::div_mod::lemma_mod_pos_bound(ai * (i + 1), pi);
        if s[i] == 0 {
            lemma_prime_divides_factor(p, ai, i + 1);
            lemma_small_mod((i + 1) as nat, p);
        }
    }
    assert(s.no_duplicates()) by {
        assert forall|i: int, j: int|
            0 <= i < s.len() && 0 <= j < s.len() && i != j implies s[i] != s[j] by {
            if s[i] == s[j] {
                let (low, high) = if i < j {
                    (i, j)
                } else {
                    (j, i)
                };
                lemma_mod_equivalence(ai * (high + 1), ai * (low + 1), pi);
                assert(ai * (high + 1) - ai * (low + 1) == ai * (high - low)) by (nonlinear_arith);
                lemma_prime_divides_factor(p, ai, high - low);
                lemma_small_mod((high - low) as nat, p);
            }
        }
    }
    lemma_product_of_permutation(s, n);
    lemma_residue_product(ai, pi, n);
    lemma_prime_spares_factorial(p, n);
    let f = factorial(n);
    let power = pow(ai, n);
    // power * f and f agree modulo p, so p divides f * (power - 1)
    lemma_mod_equivalence(power * f, f, pi);
    assert(power * f - f == f * (power - 1)) by (nonlinear_arith);
    lemma_prime_divides_factor(p, f, power - 1);
    assert(a > 0) by {
        if a == 0 {
            lemma_small_mod(0, p);
        }
    }
    lemma_pow_positive(ai, n);
    lemma_small_mod(1, p);
    lemma_mod_equivalence(power, 1, pi);
}

/// In the group of a prime exponents wrap.
pub proof fn lemma_prime_key_wraps(key: KeyView)
    requires
        key.in_prime_group(),
    ensures
        key.exponents_wrap(),
{
    lemma_fermat(key.g, key.p);
    lemma_fermat(key.h, key.p);
}

} // verus!
