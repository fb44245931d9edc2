//! The user program's work: finding the primes below a bound by trial division.
use vstd::prelude::*;

verus! {

/// The user program lists the primes below this bound.
pub const MAX_PRIME: u32 = 100;

/// `n` is prime: at least 2, and no number from 2 up to `n` divides it.
pub open spec fn is_prime_spec(n: int) -> bool {
    n >= 2 && forall|j: int| 2 <= j < n ==> #[trigger] (n % j) != 0
}

/// The primes from 2 up to `hi` (excluded), in increasing order.
pub open spec fn primes_below_spec(hi: int) -> Seq<u32>
    decreases hi,
{
    if hi <= 2 {
        seq![]
    } else {
        let s = primes_below_spec(hi - 1);
        if is_prime_spec(hi - 1) {
            s.push((hi - 1) as u32)
        } else {
            s
        }
    }
}

/// Whether `n` is prime, by trying every divisor from 2 up to `n`.
pub fn is_prime(n: u32) -> (r: bool)
    ensures
        r == is_prime_spec(n as int),
{
    if n < 2 {
        return false;
    }
    let mut j: u32 = 2;
    while j < n
        invariant
            2 <= j <= n,
            forall|k: int| 2 <= k < j ==> #[trigger] (n as int % k) != 0,
        decreases n - j,
    {
        if n % j == 0 {
            assert((n as int) % (j as int) == 0);
            return false;
        }
        j = j + 1;
    }
    true
}

/// The primes below `max`, in increasing order.
pub fn primes_below(max: u32) -> (v: Vec<u32>)
    ensures
        v@ == primes_below_spec(max as int),
{
    let mut v: Vec<u32> = Vec::new();
    let mut i: u32 = 2;
    if max <= 2 {
        return v;
    }
    while i < max
        invariant
            2 <= i <= max,
            v@ == primes_below_spec(i as int),
        decreases max - i,
    {
        if is_prime(i) {
            v.push(i);
        }
        i = i + 1;
    }
    v
}

/// The list of primes below `hi` holds exactly the primes below `hi`, each once, in
/// increasing order.
pub proof fn lemma_primes_below(hi: int)
    requires
        hi <= u32::MAX + 1,
    ensures
        forall|k: int| 0 <= k < primes_below_spec(hi).len() ==> is_prime_spec(
            #[trigger] primes_below_spec(hi)[k] as int,
        ) && primes_below_spec(hi)[k] < hi,
        forall|k: int, l: int|
            0 <= k < l < primes_below_spec(hi).len() ==> #[trigger] primes_below_spec(hi)[k]
                < #[trigger] primes_below_spec(hi)[l],
        forall|p: int| 2 <= p < hi && is_prime_spec(p) ==> primes_below_spec(hi).contains(p as u32),
    decreases hi,
{
    if hi > 2 {
        lemma_primes_below(hi - 1);
        let s = primes_below_spec(hi - 1);
        if is_prime_spec(hi - 1) {
            assert(primes_below_spec(hi) == s.push((hi - 1) as u32));
            assert forall|p: int| 2 <= p < hi && is_prime_spec(p) implies primes_below_spec(
                hi,
            ).contains(p as u32) by {
                if p == hi - 1 {
                    assert(primes_below_spec(hi)[s.len() as int] == p as u32);
                } else {
                    let k = choose|k: int| 0 <= k < s.len() && s[k] == p as u32;
                    assert(primes_below_spec(hi)[k] == p as u32);
                }
            }
        }
    }
}

/// A number is prime exactly when it is at least 2 and is not the product of two numbers that
/// are both at least 2.
pub proof fn lemma_prime_iff_no_factors(n: int)
    ensures
        is_prime_spec(n) <==> n >= 2 && forall|a: int, b: int| 2 <= a && 2 <= b ==> #[trigger] (a * b) != n,
{
    if is_prime_spec(n) {
        assert forall|a: int, b: int| 2 <= a && 2 <= b implies #[trigger] (a * b) != n by {
            if a * b == n {
                assert(a < n) by (nonlinear_arith)
                    requires 2 <= a, 2 <= b, a * b == n;
                vstd::arithmetic::div_mod::lemma_mod_multiples_basic(b, a);
                assert(b * a == n) by (nonlinear_arith)
                    requires a * b == n;
                assert(n % a == 0);
            }
        }
    } else if n >= 2 {
        let j = choose|j: int| 2 <= j < n && #[trigger] (n % j) == 0;
        let b = n / j;
        vstd::arithmetic::div_mod::lemma_fundamental_div_mod(n, j);
        assert(n == j * b);
        if b < 2 {
            assert(j * b <= j || j * b <= 0) by (nonlinear_arith)
                requires j >= 2, b < 2;
        }
        assert(j * b == n);
    }
}

} // verus!
