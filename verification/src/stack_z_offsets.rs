//! Painter-order offsets of the layers of one node, in units of 2^-30.
//!
//! Each is the single-precision value nearest to a hundredth or so (the
//! comment beside it), which is a whole number of these units.

use vstd::prelude::*;

verus! {

/// -0.1
pub const BOX_SHADOW: i64 = -107374184;

/// 0
pub const BACKGROUND: i64 = 0;

/// 0.01
pub const BORDER: i64 = 10737418;

/// 0.02
pub const GRADIENT: i64 = 21474836;

/// 0.03
pub const BORDER_GRADIENT: i64 = 32212254;

/// 0.04
pub const IMAGE: i64 = 42949672;

/// 0.05
pub const MATERIAL: i64 = 53687092;

/// 0.055
pub const TEXT_SELECTION: i64 = 59055800;

/// 0.06
pub const TEXT: i64 = 64424508;

/// 0.07
pub const TEXT_STRIKETHROUGH: i64 = 75161928;

/// 0.08
pub const TEXT_CURSOR: i64 = 85899344;

} // verus!
