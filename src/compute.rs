use vstd::prelude::*;

verus! {

/// Why a factorial was not computed.
#[derive(Debug, Clone, Copy, PartialEq, Eq, Structural)]
pub enum ComputeError {
    /// The input is above the largest whose factorial fits in a `u64`.
    OutOfRange,
}

/// The largest input whose factorial fits in a `u64`.
pub const MAX_FACTORIAL_INPUT: i32 = 20;

/// `n!`, with every `n <= 0` giving 1.
pub open spec fn factorial(n: int) -> nat
    decreases n,
{
    if n <= 0 {
        1
    } else {
        (n * factorial(n - 1)) as nat
    }
}

/// The factorial grows with its input.
pub proof fn lemma_factorial_monotone(a: int, b: int)
    requires
        a <= b,
    ensures
        factorial(a) <= factorial(b),
    decreases b - a,
{
    if a < b {
        lemma_factorial_monotone(a, b - 1);
        if b > 0 {
            assert(factorial(b - 1) <= b * factorial(b - 1)) by (nonlinear_arith)
                requires b > 0;
        }
    }
}

/// Every factorial up to `MAX_FACTORIAL_INPUT` fits in a `u64`.
pub proof fn lemma_factorial_fits(n: int)
    requires
        n <= MAX_FACTORIAL_INPUT,
    ensures
        factorial(n) <= u64::MAX,
{
    reveal_with_fuel(factorial, 21);
    assert(factorial(20) == 2432902008176640000);
    lemma_factorial_monotone(n, 20);
}

/// The factorial of the largest admitted input's successor does not fit.
pub proof fn lemma_factorial_past_range()
    ensures
        factorial(MAX_FACTORIAL_INPUT + 1) > u64::MAX,
{
    reveal_with_fuel(factorial, 22);
    assert(factorial(21) == 51090942171709440000);
}

} // verus!
