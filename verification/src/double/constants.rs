//! The doubles that the formulas of more than one module use, as their bit patterns.

use vstd::prelude::*;

verus! {

/// The double 1.
pub const ONE: u64 = 0x3ff0_0000_0000_0000;

/// The double 2.
pub const TWO: u64 = 0x4000_0000_0000_0000;

/// The double 10.
pub const TEN: u64 = 0x4024_0000_0000_0000;

/// The double 30.
pub const THIRTY: u64 = 0x403e_0000_0000_0000;

/// The double 99.
pub const NINETY_NINE: u64 = 0x4058_c000_0000_0000;

/// The double 100.
pub const HUNDRED: u64 = 0x4059_0000_0000_0000;

/// The double 10000, the basis points of a whole.
pub const TEN_THOUSAND: u64 = 0x40c3_8800_0000_0000;

/// The double 86400, the seconds of a day.
pub const SECONDS_PER_DAY: u64 = 0x40f5_1800_0000_0000;

/// The double 1000000.
pub const MILLION: u64 = 0x412e_8480_0000_0000;

/// The double 10 to the power 9, the wei of a gwei.
pub const GWEI: u64 = 0x41cd_cd65_0000_0000;

/// The double 10 to the power 18, the wei of an ether.
pub const ETHER: u64 = 0x43ab_c16d_674e_c800;

/// The double 10 to the power 27, the scale of lending rates.
pub const RAY: u64 = 0x4589_d971_e4fe_8402;

/// The double two to the power 96, the scale of pool prices.
pub const Q96: u64 = 0x45f0_0000_0000_0000;

/// The double two to the power 128.
pub const TWO_TO_128: u64 = 0x47f0_0000_0000_0000;

/// The greatest finite double.
pub const GREATEST: u64 = 0x7fef_ffff_ffff_ffff;

} // verus!
