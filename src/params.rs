use vstd::prelude::*;

verus! {

/// Bytes in one blob.
pub const BLOB_SIZE_BYTES: u64 = 131072;

/// Blobs per block that the fee market aims at.
pub const BLOB_TARGET: u64 = 10;

/// Blobs per block that the protocol admits at most.
pub const BLOB_MAX: u64 = 15;

/// Target blob count before the second blob-parameter upgrade.
pub const BPO1_TARGET: u64 = 6;

/// Maximum blob count before the second blob-parameter upgrade.
pub const BPO1_MAX: u64 = 9;

/// Target blob count from the second blob-parameter upgrade on.
pub const BPO2_TARGET: u64 = 10;

/// Maximum blob count from the second blob-parameter upgrade on.
pub const BPO2_MAX: u64 = 15;

/// Activation time of the second blob-parameter upgrade (seconds since the epoch).
pub const BPO2_TIMESTAMP: u64 = 1767747671;

/// Blob gas that one blob uses.
pub open spec fn spec_data_gas_per_blob() -> nat {
    131072
}

/// Relies on `alloy_eips::eip4844::DATA_GAS_PER_BLOB`, the blob gas of one blob,
/// which the crate defines as `131_072`.
#[verifier::external_body]
pub(crate) fn data_gas_per_blob() -> (r: u64)
    ensures
        r == spec_data_gas_per_blob(),
{
    alloy_eips::eip4844::DATA_GAS_PER_BLOB
}

/// The blob base fee that the fee market of the second blob-parameter upgrade
/// sets for a block with the given excess blob gas.
pub uninterp spec fn blob_fee_of(excess_blob_gas: u64) -> u128;

/// Relies on `alloy_eips::eip7840::BlobParams::calc_blob_fee` with the parameters
/// of `BlobParams::bpo2()`: the fee depends on the excess blob gas alone.
#[verifier::external_body]
pub(crate) fn bpo2_blob_fee(excess_blob_gas: u64) -> (r: u128)
    ensures
        r == blob_fee_of(excess_blob_gas),
{
    alloy_eips::eip7840::BlobParams::bpo2().calc_blob_fee(excess_blob_gas)
}

} // verus!
