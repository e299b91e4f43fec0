//! The CKKS parameter profile and the sizes derived from it: the number of
//! slots, the sparsity of a packed tensor and the multiplicative budget.

use vstd::prelude::*;

use crate::bitwidth::bitlen;

verus! {

/// The integer parameters of a CKKS profile. The secret-key distribution, a
/// ternary probability, is a float and stays with the key-generation code.
pub struct CkksParams {
    pub n: usize,
    pub base2k: usize,
    pub k: usize,
    pub log_delta: usize,
    pub dsize: usize,
    pub rank: usize,
    /// Dimension of the homomorphic linear transform, and therefore of every
    /// packed tensor.
    pub lt_slots: usize,
    /// Giant step of the baby-step giant-step schedule.
    pub giant_step: usize,
    /// The largest polynomial degree any op may fit.
    pub max_poly_degree: usize,
}

/// The secure default profile.
pub fn default_params() -> (p: CkksParams)
    ensures
        p == (CkksParams {
            n: 16384,
            base2k: 19,
            k: 360,
            log_delta: 30,
            dsize: 2,
            rank: 1,
            lt_slots: 256,
            giant_step: 16,
            max_poly_degree: 15,
        }),
{
    CkksParams {
        n: 16384,
        base2k: 19,
        k: 360,
        log_delta: 30,
        dsize: 2,
        rank: 1,
        lt_slots: 256,
        giant_step: 16,
        max_poly_degree: 15,
    }
}

/// `floor(log2(n))` for `n > 0`: one less than its number of binary digits.
pub open spec fn ilog2(n: nat) -> nat {
    (bitlen(n) - 1) as nat
}

/// `floor(log2(n))`, as `usize::ilog2` computes it.
fn floor_log2(n: usize) -> (r: usize)
    requires
        n > 0,
    ensures
        r == ilog2(n as nat),
{
    proof { lemma_bitlen_le(n as nat); }
    let mut m = n;
    let mut r: usize = 0;
    while m > 1
        invariant
            m >= 1,
            r + bitlen(m as nat) == bitlen(n as nat),
            bitlen(n as nat) <= n,
        decreases m,
    {
        assert(bitlen(m as nat) == 1 + bitlen((m / 2) as nat));
        m = m / 2;
        r = r + 1;
    }
    assert(bitlen(1) == 1 + bitlen(0));
    r
}

/// A number has no more binary digits than its value.
proof fn lemma_bitlen_le(n: nat)
    ensures
        bitlen(n) <= n,
    decreases n,
{
    if n > 0 {
        lemma_bitlen_le(n / 2);
    }
}

/// The number of complex slots of a ciphertext: `n / 2`.
pub fn slots(p: &CkksParams) -> (r: usize)
    ensures
        r == p.n / 2,
{
    p.n / 2
}

/// The sparsity of a packed tensor: `log2(n / 2) - log2(lt_slots)`, for a
/// transform dimension no larger than the slot count.
pub fn log_sparsity(p: &CkksParams) -> (r: usize)
    requires
        p.n >= 2,
        p.lt_slots >= 1,
        ilog2(p.lt_slots as nat) <= ilog2((p.n / 2) as nat),
    ensures
        r == ilog2((p.n / 2) as nat) - ilog2(p.lt_slots as nat),
{
    floor_log2(p.n / 2) - floor_log2(p.lt_slots)
}

impl CkksParams {
    /// `log2(n)`.
    pub fn log_n(&self) -> (r: usize)
        requires
            self.n >= 1,
        ensures
            r == ilog2(self.n as nat),
    {
        floor_log2(self.n)
    }

    /// The multiplicative budget in bits: `k - log_delta`, and 0 when
    /// `log_delta` exceeds `k`.
    pub fn log_budget(&self) -> (r: usize)
        ensures
            r == if self.k >= self.log_delta {
                self.k - self.log_delta
            } else {
                0
            },
    {
        self.k.saturating_sub(self.log_delta)
    }
}

} // verus!
