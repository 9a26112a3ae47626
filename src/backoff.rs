//! Jittered retry delays.
use rand::Rng;
use vstd::prelude::*;

verus! {

/// `2^n` over the integers.
pub open spec fn pow2(n: nat) -> int
    decreases n,
{
    if n == 0 {
        1
    } else {
        2 * pow2((n - 1) as nat)
    }
}

/// Upper end of the full-jitter window: `min(cap, base * 2^attempt)`.
pub open spec fn expo_ceiling(base: int, cap: int, attempt: nat) -> int {
    if base * pow2(attempt) < cap {
        base * pow2(attempt)
    } else {
        cap
    }
}

/// Every power of two is at least one.
pub proof fn lemma_pow2_positive(n: nat)
    ensures
        pow2(n) >= 1,
    decreases n,
{
    if n > 0 {
        lemma_pow2_positive((n - 1) as nat);
    }
}

/// Powers of two grow with the exponent.
pub proof fn lemma_pow2_monotone(k: nat, n: nat)
    requires
        k <= n,
    ensures
        pow2(k) <= pow2(n),
    decreases n - k,
{
    if k < n {
        lemma_pow2_monotone(k, (n - 1) as nat);
        lemma_pow2_positive((n - 1) as nat);
    }
}

/// `base * 2^k` grows with `k` for a non-negative base.
proof fn lemma_scaled_monotone(base: int, k: nat, n: nat)
    requires
        0 <= base,
        k <= n,
    ensures
        base * pow2(k) <= base * pow2(n),
{
    lemma_pow2_monotone(k, n);
    let (a, b) = (pow2(k), pow2(n));
    assert(base * a <= base * b) by (nonlinear_arith)
        requires
            0 <= base,
            a <= b,
    ;
}

/// One more doubling of `base * 2^k`.
proof fn lemma_double(base: int, k: nat)
    ensures
        base * pow2(k + 1) == 2 * (base * pow2(k)),
{
    assert(pow2(k + 1) == 2 * pow2(k));
    let p = pow2(k);
    assert(base * (2 * p) == 2 * (base * p)) by (nonlinear_arith);
}

/// The delay window never goes below zero nor above the cap.
pub proof fn lemma_ceiling_bounded(base: int, cap: int, attempt: nat)
    requires
        0 <= base,
        0 <= cap,
    ensures
        0 <= expo_ceiling(base, cap, attempt) <= cap,
{
    lemma_pow2_positive(attempt);
    let p = pow2(attempt);
    assert(0 <= base * p) by (nonlinear_arith)
        requires
            0 <= base,
            1 <= p,
    ;
}

/// A later attempt never has a narrower delay window than an earlier one.
pub proof fn lemma_ceiling_monotone(base: int, cap: int, a1: nat, a2: nat)
    requires
        0 <= base,
        a1 <= a2,
    ensures
        expo_ceiling(base, cap, a1) <= expo_ceiling(base, cap, a2),
{
    lemma_scaled_monotone(base, a1, a2);
}

/// Relies on rand's `Rng::gen_range` over the thread-local generator: the
/// value drawn lies in `lo..=hi`.
#[verifier::external_body]
fn random_in_range(lo: i64, hi: i64) -> (r: i64)
    requires
        lo <= hi,
    ensures
        lo <= r <= hi,
{
    rand::thread_rng().gen_range(lo..=hi)
}

/// The width of the delay window for retry number `n`:
/// `min(cap, base * 2^n)`, computed without overflow.
pub fn backoff_ceiling(base: i64, cap: i64, n: u32) -> (r: i64)
    requires
        0 <= base,
        0 <= cap,
    ensures
        r == expo_ceiling(base as int, cap as int, n as nat),
{
    let mut value: i64 = base;
    let mut k: u32 = 0;
    let mut capped: bool = base >= cap;
    proof {
        lemma_pow2_positive(n as nat);
        lemma_scaled_monotone(base as int, 0, n as nat);
    }
    while k < n && !capped
        invariant
            0 <= base,
            0 <= cap,
            k <= n,
            capped ==> base * pow2(n as nat) >= cap,
            !capped ==> value == base * pow2(k as nat) && 0 <= value < cap,
        decreases n - k + (if capped { 0int } else { 1int }),
    {
        proof {
            lemma_double(base as int, k as nat);
        }
        if value >= cap - value {
            proof {
                lemma_scaled_monotone(base as int, (k + 1) as nat, n as nat);
            }
            capped = true;
        } else {
            value = value * 2;
            k = k + 1;
        }
    }
    if capped {
        cap
    } else {
        value
    }
}

/// Full-jitter exponential backoff: a delay drawn from
/// `[0, min(cap, base * 2^n)]`.
pub fn get_expo_backoff_full_jitter(base: i64, cap: i64, n: u32) -> (r: i64)
    requires
        0 <= base,
        0 <= cap,
    ensures
        0 <= r <= expo_ceiling(base as int, cap as int, n as nat),
{
    let expo = backoff_ceiling(base, cap, n);
    proof {
        lemma_ceiling_bounded(base as int, cap as int, n as nat);
    }
    random_in_range(0, expo)
}

/// A delay drawn within ten percent (rounded down) of `ms` on either side.
pub fn add_jitter(ms: i64) -> (r: i64)
    requires
        0 <= ms,
        ms + ms / 10 <= i64::MAX,
    ensures
        ms - ms / 10 <= r <= ms + ms / 10,
        0 <= r,
{
    let x = ms / 10;
    random_in_range(ms - x, ms + x)
}

} // verus!
