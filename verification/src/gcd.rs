//! Greatest common divisor of a list of unsigned integers.
//!
//! The contracts describe the result by divisibility: it divides every
//! element, and every number that divides every element divides it. With the
//! convention that zero divides only zero this also covers the empty list and
//! lists of zeros, whose greatest common divisor is `0`.

use vstd::arithmetic::div_mod::{
    lemma_fundamental_div_mod, lemma_mod_multiples_basic, lemma_mod_self_0, lemma_small_mod,
};
use vstd::prelude::*;

verus! {

/// `d` divides `n` over the natural numbers. Zero divides only zero.
pub open spec fn divides(d: nat, n: nat) -> bool {
    if d == 0 {
        n == 0
    } else {
        n % d == 0
    }
}

/// `d` divides both `a` and `b`.
pub open spec fn common_divisor(d: nat, a: nat, b: nat) -> bool {
    divides(d, a) && divides(d, b)
}

/// `g` is the greatest common divisor of `a` and `b`: a common divisor that
/// every common divisor divides.
pub open spec fn is_gcd(g: nat, a: nat, b: nat) -> bool {
    &&& common_divisor(g, a, b)
    &&& forall|d: nat| #[trigger] common_divisor(d, a, b) ==> divides(d, g)
}

/// `d` divides every element of `s`.
pub open spec fn divides_all(d: nat, s: Seq<u32>) -> bool {
    forall|i: int| 0 <= i < s.len() ==> divides(d, #[trigger] s[i] as nat)
}

/// `g` is the greatest common divisor of the elements of `s`.
pub open spec fn is_gcd_of(g: nat, s: Seq<u32>) -> bool {
    &&& divides_all(g, s)
    &&& forall|d: nat| #[trigger] divides_all(d, s) ==> divides(d, g)
}

/// The value that repeated remainders reach from the pair `(a, b)`.
pub open spec fn euclid(a: nat, b: nat) -> nat
    decreases b,
{
    if b == 0 {
        a
    } else {
        euclid(b, a % b)
    }
}

/// Pairwise reduction of `s` from the left, `0` for the empty sequence.
pub open spec fn euclid_fold(s: Seq<u32>) -> nat
    decreases s.len(),
{
    if s.len() == 0 {
        0
    } else if s.len() == 1 {
        s[0] as nat
    } else {
        euclid(euclid_fold(s.drop_last()), s.last() as nat)
    }
}

/// A multiple of `d` is divisible by `d`.
pub proof fn lemma_divides_multiple(d: nat, k: nat)
    ensures
        divides(d, d * k),
{
    if d == 0 {
        assert(d * k == 0) by (nonlinear_arith)
            requires
                d == 0,
        ;
    } else {
        lemma_mod_multiples_basic(k as int, d as int);
        assert(d * k == k * d) by (nonlinear_arith);
    }
}

/// A number divisible by `d` is `d` times its quotient by `d`.
pub proof fn lemma_divides_quotient(d: nat, n: nat)
    requires
        divides(d, n),
    ensures
        n == d * (n / d),
{
    if d == 0 {
        assert(d * (n / d) == 0) by (nonlinear_arith)
            requires
                d == 0,
        ;
    } else {
        lemma_fundamental_div_mod(n as int, d as int);
    }
}

/// Every number divides itself and divides zero.
pub proof fn lemma_divides_self_and_zero(d: nat)
    ensures
        divides(d, d),
        divides(d, 0),
{
    if d > 0 {
        lemma_mod_self_0(d as int);
        lemma_small_mod(0, d);
    }
}

/// Divisibility is transitive.
pub proof fn lemma_divides_transitive(a: nat, b: nat, c: nat)
    requires
        divides(a, b),
        divides(b, c),
    ensures
        divides(a, c),
{
    lemma_divides_quotient(a, b);
    lemma_divides_quotient(b, c);
    let p = b / a;
    let q = c / b;
    assert(c == a * (p * q)) by (nonlinear_arith)
        requires
            b == a * p,
            c == b * q,
    ;
    lemma_divides_multiple(a, p * q);
}

/// Two numbers that divide each other are equal.
pub proof fn lemma_divides_antisymmetric(a: nat, b: nat)
    requires
        divides(a, b),
        divides(b, a),
    ensures
        a == b,
{
    lemma_divides_quotient(a, b);
    lemma_divides_quotient(b, a);
    let p = b / a;
    let q = a / b;
    assert(a == b) by (nonlinear_arith)
        requires
            b == a * p,
            a == b * q,
    ;
}

/// One step of the remainder sequence keeps the set of common divisors.
pub proof fn lemma_remainder_keeps_common_divisors(d: nat, a: nat, b: nat)
    requires
        b > 0,
    ensures
        common_divisor(d, a, b) == common_divisor(d, b, a % b),
{
    let q = a / b;
    let r = a % b;
    lemma_fundamental_div_mod(a as int, b as int);
    if divides(d, b) {
        lemma_divides_quotient(d, b);
        let kb = b / d;
        if divides(d, a) {
            lemma_divides_quotient(d, a);
            let ka = a / d;
            assert(ka >= kb * q && r == d * ((ka - kb * q) as nat)) by (nonlinear_arith)
                requires
                    a == d * ka,
                    b == d * kb,
                    a == b * q + r,
                    d > 0,
                    r >= 0,
            ;
            lemma_divides_multiple(d, (ka - kb * q) as nat);
        }
        if divides(d, r) {
            lemma_divides_quotient(d, r);
            let kr = r / d;
            assert(a == d * (kb * q + kr)) by (nonlinear_arith)
                requires
                    r == d * kr,
                    b == d * kb,
                    a == b * q + r,
            ;
            lemma_divides_multiple(d, kb * q + kr);
        }
    }
}

/// The remainder sequence ends in the greatest common divisor.
pub proof fn lemma_euclid_is_gcd(a: nat, b: nat)
    ensures
        is_gcd(euclid(a, b), a, b),
    decreases b,
{
    let g = euclid(a, b);
    if b == 0 {
        lemma_divides_self_and_zero(a);
    } else {
        lemma_euclid_is_gcd(b, a % b);
        lemma_remainder_keeps_common_divisors(g, a, b);
        assert forall|d: nat| #[trigger] common_divisor(d, a, b) implies divides(d, g) by {
            lemma_remainder_keeps_common_divisors(d, a, b);
        }
    }
}

/// Two numbers have exactly one greatest common divisor.
pub proof fn lemma_gcd_unique(g: nat, h: nat, a: nat, b: nat)
    requires
        is_gcd(g, a, b),
        is_gcd(h, a, b),
    ensures
        g == h,
{
    lemma_divides_antisymmetric(g, h);
}

/// A sequence has exactly one greatest common divisor.
pub proof fn lemma_gcd_of_unique(g: nat, h: nat, s: Seq<u32>)
    requires
        is_gcd_of(g, s),
        is_gcd_of(h, s),
    ensures
        g == h,
{
    lemma_divides_antisymmetric(g, h);
}

/// Extending a sequence by one element replaces its greatest common divisor
/// `g` by the greatest common divisor of `g` and the new element.
pub proof fn lemma_gcd_of_push(g: nat, s: Seq<u32>, x: u32, h: nat)
    requires
        is_gcd_of(g, s),
        is_gcd(h, g, x as nat),
    ensures
        is_gcd_of(h, s.push(x)),
{
    let t = s.push(x);
    assert forall|i: int| 0 <= i < t.len() implies divides(h, #[trigger] t[i] as nat) by {
        if i < s.len() {
            lemma_divides_transitive(h, g, s[i] as nat);
        }
    }
    assert forall|d: nat| #[trigger] divides_all(d, t) implies divides(d, h) by {
        assert forall|i: int| 0 <= i < s.len() implies divides(d, #[trigger] s[i] as nat) by {
            assert(t[i] == s[i]);
        }
        assert(divides_all(d, s));
        assert(t[s.len() as int] == x);
        assert(common_divisor(d, g, x as nat));
    }
}

/// The pairwise reduction of a sequence is its greatest common divisor.
pub proof fn lemma_euclid_fold_is_gcd_of(s: Seq<u32>)
    ensures
        is_gcd_of(euclid_fold(s), s),
    decreases s.len(),
{
    if s.len() == 0 {
        lemma_divides_self_and_zero(0);
    } else if s.len() == 1 {
        let x = s[0] as nat;
        lemma_divides_self_and_zero(x);
    } else {
        let init = s.drop_last();
        lemma_euclid_fold_is_gcd_of(init);
        lemma_euclid_is_gcd(euclid_fold(init), s.last() as nat);
        lemma_gcd_of_push(euclid_fold(init), init, s.last(), euclid_fold(s));
        assert(init.push(s.last()) =~= s);
    }
}

/// Greatest common divisor of two numbers by repeated remainder.
pub fn gcd_two(a: u32, b: u32) -> (g: u32)
    ensures
        is_gcd(g as nat, a as nat, b as nat),
        g == euclid(a as nat, b as nat),
{
    let mut x: u32 = a;
    let mut y: u32 = b;
    while y != 0
        invariant
            euclid(x as nat, y as nat) == euclid(a as nat, b as nat),
        decreases y,
    {
        let r: u32 = x % y;
        x = y;
        y = r;
    }
    proof {
        lemma_euclid_is_gcd(a as nat, b as nat);
    }
    x
}

/// Greatest common divisor of all the numbers in `numbers`.
///
/// The empty list gives `0`, and a list of one number gives that number.
pub fn gcd(numbers: &[u32]) -> (g: u32)
    ensures
        is_gcd_of(g as nat, numbers@),
        g == euclid_fold(numbers@),
{
    proof {
        lemma_euclid_fold_is_gcd_of(numbers@);
    }
    if numbers.len() == 0 {
        return 0;
    }
    let mut acc: u32 = numbers[0];
    let mut i: usize = 1;
    while i < numbers.len()
        invariant
            1 <= i <= numbers.len(),
            acc == euclid_fold(numbers@.take(i as int)),
        decreases numbers.len() - i,
    {
        assert(numbers@.take(i + 1).drop_last() =~= numbers@.take(i as int));
        acc = gcd_two(acc, numbers[i]);
        i += 1;
    }
    assert(numbers@.take(i as int) =~= numbers@);
    acc
}

} // verus!
