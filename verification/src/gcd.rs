//! Greatest common divisor by Euclid's algorithm.

use vstd::prelude::*;

verus! {

/// `d` divides `n` exactly.
pub open spec fn divides(d: int, n: int) -> bool {
    exists|k: int| n == #[trigger] (d * k)
}

/// Taking `n` modulo a positive `m` neither gains nor loses common
/// divisors: `d` divides both `m` and `n % m` exactly when it divides
/// both `n` and `m`.
proof fn lemma_divides_mod(d: int, n: int, m: int)
    requires
        m > 0,
    ensures
        (divides(d, n) && divides(d, m)) ==> divides(d, n % m),
        (divides(d, m) && divides(d, n % m)) ==> divides(d, n),
{
    vstd::arithmetic::div_mod::lemma_fundamental_div_mod(n, m);
    if divides(d, n) && divides(d, m) {
        let a = choose|k: int| n == #[trigger] (d * k);
        let b = choose|k: int| m == #[trigger] (d * k);
        assert(n % m == d * (a - b * (n / m))) by (nonlinear_arith)
            requires
                n == d * a,
                m == d * b,
                n == m * (n / m) + n % m,
        ;
        assert(divides(d, n % m));
    }
    if divides(d, m) && divides(d, n % m) {
        let b = choose|k: int| m == #[trigger] (d * k);
        let c = choose|k: int| n % m == #[trigger] (d * k);
        assert(n == d * (b * (n / m) + c)) by (nonlinear_arith)
            requires
                m == d * b,
                n % m == d * c,
                n == m * (n / m) + n % m,
        ;
        assert(divides(d, n));
    }
}

proof fn lemma_common_divisors_mod(n: int, m: int)
    requires
        m > 0,
    ensures
        forall|d: int|
            (divides(d, m) && divides(d, n % m)) <==> (divides(d, n) && divides(d, m)),
{
    assert forall|d: int|
        (divides(d, m) && divides(d, n % m)) <==> (divides(d, n) && divides(d, m)) by {
        lemma_divides_mod(d, n, m);
    }
}

/// Euclid's algorithm. The result divides both arguments, and every
/// common divisor of the arguments divides the result, which makes it
/// the greatest common divisor whenever one argument is nonzero.
pub fn gcd(n: u64, m: u64) -> (g: u64)
    ensures
        divides(g as int, n as int),
        divides(g as int, m as int),
        forall|d: int| divides(d, n as int) && divides(d, m as int) ==> divides(d, g as int),
{
    let mut x = n;
    let mut y = m;
    while y != 0
        invariant
            forall|d: int|
                (divides(d, x as int) && divides(d, y as int)) <==> (divides(d, n as int)
                    && divides(d, m as int)),
        decreases y,
    {
        proof {
            lemma_common_divisors_mod(x as int, y as int);
        }
        let t = y;
        y = x % y;
        x = t;
    }
    proof {
        assert(x as int == (x as int) * 1);
        assert(0int == (x as int) * 0);
        assert(divides(x as int, x as int));
        assert(divides(x as int, 0));
    }
    x
}

} // verus!
