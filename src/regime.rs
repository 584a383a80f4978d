use vstd::prelude::*;
use vstd::string::StringExecFns;
use crate::params::{BLOB_MAX, BLOB_TARGET};

verus! {

/// Utilization band of a block, from its blob count relative to the target.
#[derive(Clone, Copy, Debug, PartialEq, Eq, Structural)]
pub enum Regime {
    Abundant,
    Normal,
    Pressured,
    Congested,
    Saturated,
}

/// The band of a block holding `total_blobs` blobs. Utilization is
/// `total_blobs / BLOB_TARGET * 100`; each band's upper bound is inclusive
/// (50, 90, 120, 150), compared exactly.
pub open spec fn regime_of(total_blobs: nat) -> Regime {
    let u = total_blobs * 100;
    let t = BLOB_TARGET as nat;
    if u <= 50 * t {
        Regime::Abundant
    } else if u <= 90 * t {
        Regime::Normal
    } else if u <= 120 * t {
        Regime::Pressured
    } else if u <= 150 * t {
        Regime::Congested
    } else {
        Regime::Saturated
    }
}

impl Regime {
    /// The band's name, as a sequence of characters.
    pub open spec fn spec_name(self) -> Seq<char> {
        match self {
            Regime::Abundant => "abundant"@,
            Regime::Normal => "normal"@,
            Regime::Pressured => "pressured"@,
            Regime::Congested => "congested"@,
            Regime::Saturated => "saturated"@,
        }
    }

    /// The band's name.
    pub fn name(&self) -> (r: String)
        ensures
            r@ == self.spec_name(),
    {
        match self {
            Regime::Abundant => String::from_str("abundant"),
            Regime::Normal => String::from_str("normal"),
            Regime::Pressured => String::from_str("pressured"),
            Regime::Congested => String::from_str("congested"),
            Regime::Saturated => String::from_str("saturated"),
        }
    }
}

/// The band of a block holding `total_blobs` blobs.
pub fn classify(total_blobs: u64) -> (r: Regime)
    ensures
        r == regime_of(total_blobs as nat),
{
    let u: u128 = total_blobs as u128 * 100;
    let t: u128 = BLOB_TARGET as u128;
    if u <= 50 * t {
        Regime::Abundant
    } else if u <= 90 * t {
        Regime::Normal
    } else if u <= 120 * t {
        Regime::Pressured
    } else if u <= 150 * t {
        Regime::Congested
    } else {
        Regime::Saturated
    }
}

/// The name of the band of a block holding `total_blobs` blobs.
pub fn classify_regime(total_blobs: u64) -> (r: String)
    ensures
        r@ == regime_of(total_blobs as nat).spec_name(),
{
    classify(total_blobs).name()
}

/// Utilization of a block in percent of the target, as the exact fraction
/// `(numerator, denominator)`.
pub fn target_utilization(total_blobs: u64) -> (r: (u128, u128))
    ensures
        r.0 == total_blobs as int * 100,
        r.1 == BLOB_TARGET,
{
    (total_blobs as u128 * 100, BLOB_TARGET as u128)
}

/// Saturation of a block in percent of the maximum, as the exact fraction
/// `(numerator, denominator)`.
pub fn saturation_index(total_blobs: u64) -> (r: (u128, u128))
    ensures
        r.0 == total_blobs as int * 100,
        r.1 == BLOB_MAX,
{
    (total_blobs as u128 * 100, BLOB_MAX as u128)
}

/// Blocks counted per band.
#[derive(Clone, Copy, Debug, PartialEq, Eq, Structural)]
pub struct RegimeCounts {
    pub abundant: u64,
    pub normal: u64,
    pub pressured: u64,
    pub congested: u64,
    pub saturated: u64,
}

impl RegimeCounts {
    /// The count kept for band `g`.
    pub open spec fn count_of(self, g: Regime) -> nat {
        match g {
            Regime::Abundant => self.abundant as nat,
            Regime::Normal => self.normal as nat,
            Regime::Pressured => self.pressured as nat,
            Regime::Congested => self.congested as nat,
            Regime::Saturated => self.saturated as nat,
        }
    }

    /// No block counted in any band.
    pub fn zero() -> (r: RegimeCounts)
        ensures
            forall|g: Regime| r.count_of(g) == 0,
    {
        RegimeCounts { abundant: 0, normal: 0, pressured: 0, congested: 0, saturated: 0 }
    }

    /// Counts one more block in band `g`.
    pub fn record(&mut self, g: Regime)
        requires
            old(self).count_of(g) < u64::MAX,
        ensures
            final(self).count_of(g) == old(self).count_of(g) + 1,
            forall|h: Regime| h != g ==> final(self).count_of(h) == old(self).count_of(h),
    {
        match g {
            Regime::Abundant => self.abundant = self.abundant + 1,
            Regime::Normal => self.normal = self.normal + 1,
            Regime::Pressured => self.pressured = self.pressured + 1,
            Regime::Congested => self.congested = self.congested + 1,
            Regime::Saturated => self.saturated = self.saturated + 1,
        }
    }
}

} // verus!
