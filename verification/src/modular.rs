//! Arithmetic modulo an even number, with signed representatives: the
//! arithmetic of the machine's signed integers when they wrap around.
use vstd::arithmetic::div_mod::*;
use vstd::prelude::*;

verus! {

/// The integer in `-half .. half` that is congruent to `x` modulo `2 * half`.
pub open spec fn wrap(x: int, half: int) -> int {
    let r = x % (2 * half);
    if r >= half {
        r - 2 * half
    } else {
        r
    }
}

/// `wrap` lands in `-half .. half`.
pub proof fn lemma_wrap_range(x: int, half: int)
    requires
        half > 0,
    ensures
        -half <= wrap(x, half) < half,
{
    lemma_mod_bound(x, 2 * half);
}

/// `wrap` picks a representative of the residue class of its argument.
pub proof fn lemma_wrap_congruent(x: int, half: int)
    requires
        half > 0,
    ensures
        wrap(x, half) % (2 * half) == x % (2 * half),
{
    let r = x % (2 * half);
    lemma_mod_bound(x, 2 * half);
    lemma_mod_twice(x, 2 * half);
    if r >= half {
        lemma_mod_sub_multiples_vanish(r, 2 * half);
    }
}

/// Two integers wrap to the same representative exactly when they are
/// congruent.
pub proof fn lemma_wrap_eq(x: int, y: int, half: int)
    requires
        half > 0,
    ensures
        wrap(x, half) == wrap(y, half) <==> x % (2 * half) == y % (2 * half),
{
    lemma_mod_bound(x, 2 * half);
    lemma_mod_bound(y, 2 * half);
}

/// An integer in `-half .. half` is its own representative.
pub proof fn lemma_wrap_small(a: int, half: int)
    requires
        -half <= a < half,
    ensures
        wrap(a, half) == a,
{
    if a >= 0 {
        lemma_small_mod(a as nat, (2 * half) as nat);
    } else {
        lemma_small_mod((a + 2 * half) as nat, (2 * half) as nat);
        lemma_mod_add_multiples_vanish(a, 2 * half);
    }
}

/// The representative of a sum of two integers in `-half .. half`: the sum
/// itself, or the sum moved by `2 * half` back into the range.
pub proof fn lemma_wrap_sum(s: int, half: int)
    requires
        -2 * half <= s < 2 * half,
    ensures
        wrap(s, half) == (if s >= half {
            s - 2 * half
        } else if s < -half {
            s + 2 * half
        } else {
            s
        }),
{
    if s >= half {
        lemma_mod_sub_multiples_vanish(s, 2 * half);
        lemma_wrap_eq(s, s - 2 * half, half);
        lemma_wrap_small(s - 2 * half, half);
    } else if s < -half {
        lemma_mod_add_multiples_vanish(s, 2 * half);
        lemma_wrap_eq(s, s + 2 * half, half);
        lemma_wrap_small(s + 2 * half, half);
    } else {
        lemma_wrap_small(s, half);
    }
}

/// Wrapped addition is associative.
pub proof fn lemma_plus_associates(a: int, b: int, c: int, half: int)
    requires
        half > 0,
    ensures
        wrap(wrap(a + b, half) + c, half) == wrap(a + wrap(b + c, half), half),
{
    let m = 2 * half;
    lemma_wrap_congruent(a + b, half);
    lemma_wrap_congruent(b + c, half);
    lemma_add_mod_noop(wrap(a + b, half), c, m);
    lemma_add_mod_noop(a + b, c, m);
    lemma_add_mod_noop(a, wrap(b + c, half), m);
    lemma_add_mod_noop(a, b + c, m);
    lemma_wrap_eq(wrap(a + b, half) + c, a + wrap(b + c, half), half);
}

/// Wrapped subtraction undoes wrapped addition.
pub proof fn lemma_plus_minus_cancels(a: int, b: int, half: int)
    requires
        -half <= a < half,
    ensures
        wrap(wrap(a + b, half) - b, half) == a,
{
    let m = 2 * half;
    lemma_wrap_congruent(a + b, half);
    lemma_sub_mod_noop(wrap(a + b, half), b, m);
    lemma_sub_mod_noop(a + b, b, m);
    lemma_wrap_eq(wrap(a + b, half) - b, a, half);
    lemma_wrap_small(a, half);
}

/// Wrapped multiplication is associative.
pub proof fn lemma_times_associates(a: int, b: int, c: int, half: int)
    requires
        half > 0,
    ensures
        wrap(wrap(a * b, half) * c, half) == wrap(a * wrap(b * c, half), half),
{
    let m = 2 * half;
    lemma_wrap_congruent(a * b, half);
    lemma_wrap_congruent(b * c, half);
    lemma_mul_mod_noop(wrap(a * b, half), c, m);
    lemma_mul_mod_noop(a * b, c, m);
    lemma_mul_mod_noop(a, wrap(b * c, half), m);
    lemma_mul_mod_noop(a, b * c, m);
    assert((a * b) * c == a * (b * c)) by (nonlinear_arith);
    lemma_wrap_eq(wrap(a * b, half) * c, a * wrap(b * c, half), half);
}

/// Wrapped multiplication distributes over wrapped addition from the left.
pub proof fn lemma_times_distributes_left(a: int, b: int, c: int, half: int)
    requires
        half > 0,
    ensures
        wrap(a * wrap(b + c, half), half) == wrap(wrap(a * b, half) + wrap(a * c, half), half),
{
    let m = 2 * half;
    lemma_wrap_congruent(b + c, half);
    lemma_wrap_congruent(a * b, half);
    lemma_wrap_congruent(a * c, half);
    lemma_mul_mod_noop(a, wrap(b + c, half), m);
    lemma_mul_mod_noop(a, b + c, m);
    lemma_add_mod_noop(wrap(a * b, half), wrap(a * c, half), m);
    lemma_add_mod_noop(a * b, a * c, m);
    assert(a * (b + c) == a * b + a * c) by (nonlinear_arith);
    lemma_wrap_eq(a * wrap(b + c, half), wrap(a * b, half) + wrap(a * c, half), half);
}

/// Wrapped multiplication distributes over wrapped addition from the right.
pub proof fn lemma_times_distributes_right(a: int, b: int, c: int, half: int)
    requires
        half > 0,
    ensures
        wrap(wrap(a + b, half) * c, half) == wrap(wrap(a * c, half) + wrap(b * c, half), half),
{
    let m = 2 * half;
    lemma_wrap_congruent(a + b, half);
    lemma_wrap_congruent(a * c, half);
    lemma_wrap_congruent(b * c, half);
    lemma_mul_mod_noop(wrap(a + b, half), c, m);
    lemma_mul_mod_noop(a + b, c, m);
    lemma_add_mod_noop(wrap(a * c, half), wrap(b * c, half), m);
    lemma_add_mod_noop(a * c, b * c, m);
    assert((a + b) * c == a * c + b * c) by (nonlinear_arith);
    lemma_wrap_eq(wrap(a + b, half) * c, wrap(a * c, half) + wrap(b * c, half), half);
}

} // verus!
