//! Selection of the kernel tier.

use vstd::prelude::*;

verus! {

/// Instruction-set tier a caller asks an operation to use.
#[derive(Clone, Copy, Debug, PartialEq, Eq, Structural)]
pub enum CpuExtensions {
    /// No vector extension: plain scalar code.
    Scalar,
    Sse2,
    Sse4_1,
    Avx2,
    Neon,
}

/// Shape of the kernel that serves a tier.
#[derive(Clone, Copy, Debug, PartialEq, Eq, Structural)]
pub enum KernelTier {
    /// One pixel per step.
    Scalar,
    /// Four pixels per step, as in a 128-bit vector.
    Wide128,
    /// Eight pixels per step, as in a 256-bit vector.
    Wide256,
}

impl CpuExtensions {
    /// Position of the tier in the order `Scalar < Sse2 < Sse4_1 < Avx2`.
    /// `Neon` stands apart from the x86 tiers and ranks with `Scalar`.
    pub open spec fn spec_rank(self) -> nat {
        match self {
            CpuExtensions::Scalar | CpuExtensions::Neon => 0,
            CpuExtensions::Sse2 => 1,
            CpuExtensions::Sse4_1 => 2,
            CpuExtensions::Avx2 => 3,
        }
    }

    /// The kernel that serves this tier: the widest one whose tier does
    /// not rank above it.
    pub open spec fn spec_kernel(self) -> KernelTier {
        if self.spec_rank() >= 3 {
            KernelTier::Wide256
        } else if self.spec_rank() >= 2 {
            KernelTier::Wide128
        } else {
            KernelTier::Scalar
        }
    }

    /// Position of the tier in the capability order.
    pub fn rank(self) -> (r: u8)
        ensures
            r == self.spec_rank(),
    {
        match self {
            CpuExtensions::Scalar | CpuExtensions::Neon => 0,
            CpuExtensions::Sse2 => 1,
            CpuExtensions::Sse4_1 => 2,
            CpuExtensions::Avx2 => 3,
        }
    }

    /// Resolves the tier to the kernel that serves it. A tier without a
    /// kernel of its own falls through to the next lower one.
    #[verifier::when_used_as_spec(spec_kernel)]
    pub fn kernel(self) -> (k: KernelTier)
        ensures
            k == self.spec_kernel(),
    {
        match self {
            CpuExtensions::Avx2 => KernelTier::Wide256,
            CpuExtensions::Sse4_1 => KernelTier::Wide128,
            _ => KernelTier::Scalar,
        }
    }
}

impl Default for CpuExtensions {
    fn default() -> (r: Self)
        ensures
            r == CpuExtensions::Scalar,
    {
        CpuExtensions::Scalar
    }
}

} // verus!
