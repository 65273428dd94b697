//! Exact decimal scalars.
//!
//! The grammar writes every distance, angle and width as a decimal literal.
//! The core keeps such a quantity exactly as written — a digit string split
//! into mantissa and scale — and never rounds it. Turning one into a machine
//! float is the external renderer's business, not the core's.

use vstd::prelude::*;

verus! {

/// An exact decimal scalar: the value `mantissa / 10^scale`, negated when
/// `neg` is set.
///
/// The representation is positional, not normalised: `4.0` and `4` differ in
/// `scale` exactly as their source spellings differ, and `-0` keeps its sign.
#[derive(Clone, Copy, Debug, PartialEq, Eq, Structural)]
pub struct Num {
    pub neg: bool,
    pub mantissa: u64,
    pub scale: u32,
}

impl Num {
    /// The whole number `m`.
    pub fn whole(m: u64) -> (r: Num)
        ensures
            r == (Num { neg: false, mantissa: m, scale: 0 }),
    {
        Num { neg: false, mantissa: m, scale: 0 }
    }

    /// The whole number `-m`.
    pub fn neg_whole(m: u64) -> (r: Num)
        ensures
            r == (Num { neg: true, mantissa: m, scale: 0 }),
    {
        Num { neg: true, mantissa: m, scale: 0 }
    }
}

} // verus!
