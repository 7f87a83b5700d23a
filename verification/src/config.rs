use vstd::prelude::*;
use vstd::arithmetic::power2::lemma2_to64;
use vstd::arithmetic::power2::lemma2_to64_rest;
use crate::layout::BitLayout;

verus! {

/// The epoch of the standard deployment, in milliseconds since the Unix epoch.
pub const EPOCH_MS: u64 = 1201737600000;

/// The largest backward jump of the clock that is absorbed, in milliseconds.
pub const SKEW_TOLERANCE_MS: u64 = 1000;

/// Width of the timestamp field: about 69.7 years of milliseconds.
pub const TIMESTAMP_BITS: u8 = 41;

/// Largest timestamp of the standard layout.
pub const MAX_TIMESTAMP: u64 = 2199023255551;

/// Width of the cluster field: up to 32 clusters.
pub const CLUSTER_BITS: u8 = 5;

/// Largest cluster id of the standard layout.
pub const MAX_CLUSTER: u64 = 31;

/// Width of the node field.
pub const NODE_BITS: u8 = 4;

/// Width of the sequence field: what the other three leave of the 64 bits.
pub const SEQUENCE_BITS: u8 = 14;

/// Largest sequence number of the standard layout.
pub const MAX_SEQUENCE: u64 = 16383;

/// Shift that places the timestamp field in the standard layout.
pub const TIMESTAMP_SHIFT: u8 = 23;

/// Shift that places the sequence field in the standard layout.
pub const SEQUENCE_SHIFT: u8 = 9;

/// The standard layout, whose limits and shifts are the constants above.
pub fn standard_layout() -> (layout: BitLayout)
    ensures
        layout.wf(),
        layout == (BitLayout {
            timestamp_bits: TIMESTAMP_BITS,
            cluster_bits: CLUSTER_BITS,
            node_bits: NODE_BITS,
            sequence_bits: SEQUENCE_BITS,
        }),
        layout.spec_max_timestamp() == MAX_TIMESTAMP,
        layout.spec_max_cluster() == MAX_CLUSTER,
        layout.spec_max_sequence() == MAX_SEQUENCE,
        layout.spec_max_node() == 15,
        layout.spec_timestamp_shift() == TIMESTAMP_SHIFT,
        layout.spec_sequence_shift() == SEQUENCE_SHIFT,
{
    proof {
        lemma2_to64();
        lemma2_to64_rest();
    }
    BitLayout {
        timestamp_bits: TIMESTAMP_BITS,
        cluster_bits: CLUSTER_BITS,
        node_bits: NODE_BITS,
        sequence_bits: SEQUENCE_BITS,
    }
}

} // verus!
