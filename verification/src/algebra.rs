//! Factorial, Fibonacci numbers and integer powers on `u64`.
//!
//! Each function computes in wrapping 64-bit arithmetic, so its result is the
//! mathematical value reduced modulo 2^64. Where the mathematical value fits
//! in a `u64` the result is that value itself.

use vstd::arithmetic::div_mod::{lemma_add_mod_noop, lemma_mul_mod_noop_left, lemma_small_mod};
use vstd::arithmetic::power::{lemma0_pow, lemma_pow_positive, pow};
use vstd::prelude::*;

verus! {

/// The number of values of a `u64`, 2^64.
pub open spec fn u64_range() -> nat {
    0x1_0000_0000_0000_0000
}

/// The product of the integers from `1` to `n`.
pub open spec fn factorial_of(n: nat) -> nat
    decreases n,
{
    if n == 0 {
        1
    } else {
        n * factorial_of((n - 1) as nat)
    }
}

/// The `n`-th number of the sequence 0, 1, 1, 2, 3, 5, ... in which each
/// number is the sum of the two before it.
pub open spec fn fibonacci_of(n: nat) -> nat
    decreases n,
{
    if n < 2 {
        n
    } else {
        fibonacci_of((n - 1) as nat) + fibonacci_of((n - 2) as nat)
    }
}

/// The factorial does not decrease as its argument grows.
pub proof fn lemma_factorial_increases(m: nat, n: nat)
    requires
        m <= n,
    ensures
        1 <= factorial_of(m) <= factorial_of(n),
    decreases n,
{
    if n == 0 {
    } else if m == n {
        lemma_factorial_increases(0, (n - 1) as nat);
        assert(factorial_of(n) >= 1) by (nonlinear_arith)
            requires
                factorial_of(n) == n * factorial_of((n - 1) as nat),
                n >= 1,
                factorial_of((n - 1) as nat) >= 1,
        ;
    } else {
        lemma_factorial_increases(m, (n - 1) as nat);
        assert(factorial_of(n) >= factorial_of((n - 1) as nat)) by (nonlinear_arith)
            requires
                factorial_of(n) == n * factorial_of((n - 1) as nat),
                n >= 1,
        ;
    }
}

/// The factorials of the numbers up to 20 fit in a `u64`.
pub proof fn lemma_factorial_fits(n: nat)
    requires
        n <= 20,
    ensures
        factorial_of(n) < u64_range(),
{
    assert(factorial_of(20) == 2432902008176640000) by {
        reveal_with_fuel(factorial_of, 21);
    }
    lemma_factorial_increases(n, 20);
}

/// The Fibonacci numbers do not decrease as the index grows.
pub proof fn lemma_fibonacci_increases(m: nat, n: nat)
    requires
        m <= n,
    ensures
        fibonacci_of(m) <= fibonacci_of(n),
    decreases n,
{
    if m < n {
        lemma_fibonacci_increases(m, (n - 1) as nat);
    }
}

/// Six steps along the sequence at once: from two neighbours `a` and `b` to
/// the neighbours `5a + 8b` and `8a + 13b` six indices further on.
proof fn lemma_fibonacci_six_steps(n: nat, a: nat, b: nat)
    requires
        fibonacci_of(n) == a,
        fibonacci_of(n + 1) == b,
    ensures
        fibonacci_of(n + 6) == 5 * a + 8 * b,
        fibonacci_of(n + 7) == 8 * a + 13 * b,
{
    reveal_with_fuel(fibonacci_of, 7);
}

/// The value of the Fibonacci number with index 93.
proof fn lemma_fibonacci_93()
    ensures
        fibonacci_of(93) == 12200160415121876738,
{
    assert(fibonacci_of(3) == 2 && fibonacci_of(4) == 3) by {
        reveal_with_fuel(fibonacci_of, 5);
    }
    lemma_fibonacci_six_steps(3, 2, 3);
    lemma_fibonacci_six_steps(9, 34, 55);
    lemma_fibonacci_six_steps(15, 610, 987);
    lemma_fibonacci_six_steps(21, 10946, 17711);
    lemma_fibonacci_six_steps(27, 196418, 317811);
    lemma_fibonacci_six_steps(33, 3524578, 5702887);
    lemma_fibonacci_six_steps(39, 63245986, 102334155);
    lemma_fibonacci_six_steps(45, 1134903170, 1836311903);
    lemma_fibonacci_six_steps(51, 20365011074, 32951280099);
    lemma_fibonacci_six_steps(57, 365435296162, 591286729879);
    lemma_fibonacci_six_steps(63, 6557470319842, 10610209857723);
    lemma_fibonacci_six_steps(69, 117669030460994, 190392490709135);
    lemma_fibonacci_six_steps(75, 2111485077978050, 3416454622906707);
    lemma_fibonacci_six_steps(81, 37889062373143906, 61305790721611591);
    lemma_fibonacci_six_steps(87, 679891637638612258, 1100087778366101931);
}

/// The Fibonacci numbers up to index 93 fit in a `u64`.
pub proof fn lemma_fibonacci_fits(n: nat)
    requires
        n <= 93,
    ensures
        fibonacci_of(n) < u64_range(),
{
    lemma_fibonacci_93();
    lemma_fibonacci_increases(n, 93);
}

/// The factorial of `n`, reduced modulo 2^64.
///
/// The result is exact up to `n == 20`, the largest argument whose factorial
/// fits in a `u64`.
pub fn factorial(n: u64) -> (r: u64)
    ensures
        r == factorial_of(n as nat) % u64_range(),
        n <= 20 ==> r == factorial_of(n as nat),
{
    let mut acc: u64 = 1;
    let mut i: u64 = 0;
    proof {
        lemma_small_mod(1, u64_range());
    }
    while i < n
        invariant
            i <= n,
            acc == factorial_of(i as nat) % u64_range(),
        decreases n - i,
    {
        i = i + 1;
        proof {
            let before = factorial_of((i - 1) as nat);
            lemma_mul_mod_noop_left(before as int, i as int, u64_range() as int);
            assert(before * i == i * before) by (nonlinear_arith);
        }
        acc = acc.wrapping_mul(i);
    }
    proof {
        if n <= 20 {
            lemma_factorial_fits(n as nat);
            lemma_small_mod(factorial_of(n as nat), u64_range());
        }
    }
    acc
}

/// The `n`-th Fibonacci number, reduced modulo 2^64, by direct recursion.
///
/// The result is exact up to `n == 93`, the largest index whose Fibonacci
/// number fits in a `u64`. The running time grows exponentially with `n`.
pub fn fibonacci(n: u64) -> (r: u64)
    ensures
        r == fibonacci_of(n as nat) % u64_range(),
        n <= 93 ==> r == fibonacci_of(n as nat),
    decreases n,
{
    proof {
        if n <= 93 {
            lemma_fibonacci_fits(n as nat);
            lemma_small_mod(fibonacci_of(n as nat), u64_range());
        }
    }
    match n {
        0 => 0,
        1 => 1,
        _ => {
            let a: u64 = fibonacci(n - 1);
            let b: u64 = fibonacci(n - 2);
            proof {
                lemma_add_mod_noop(
                    fibonacci_of((n - 1) as nat) as int,
                    fibonacci_of((n - 2) as nat) as int,
                    u64_range() as int,
                );
            }
            a.wrapping_add(b)
        },
    }
}

/// `base` raised to the power `exp`, reduced modulo 2^64, by `exp`
/// multiplications. The power with exponent `0` is `1`.
pub fn power(base: u64, exp: u64) -> (r: u64)
    ensures
        r == pow(base as int, exp as nat) % (u64_range() as int),
        pow(base as int, exp as nat) < u64_range() ==> r == pow(base as int, exp as nat),
{
    let mut result: u64 = 1;
    let mut done: u64 = 0;
    proof {
        reveal(pow);
        lemma_small_mod(1, u64_range());
    }
    while done < exp
        invariant
            done <= exp,
            result == pow(base as int, done as nat) % (u64_range() as int),
        decreases exp - done,
    {
        proof {
            let before = pow(base as int, done as nat);
            reveal(pow);
            lemma_mul_mod_noop_left(before, base as int, u64_range() as int);
            assert(before * base == base * before) by (nonlinear_arith);
        }
        result = result.wrapping_mul(base);
        done = done + 1;
    }
    proof {
        let exact = pow(base as int, exp as nat);
        if base > 0 {
            lemma_pow_positive(base as int, exp as nat);
        } else if exp > 0 {
            lemma0_pow(exp as nat);
        }
        if 0 <= exact < u64_range() {
            lemma_small_mod(exact as nat, u64_range());
        }
    }
    result
}

} // verus!
