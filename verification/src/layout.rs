use vstd::prelude::*;
use vstd::arithmetic::div_mod::lemma_fundamental_div_mod_converse;
use vstd::arithmetic::power2::{pow2, lemma_pow2_adds, lemma_pow2_pos, lemma2_to64_rest};
use vstd::bits::{
    low_bits_mask, lemma_u64_low_bits_mask_is_mod, lemma_u64_pow2_no_overflow,
    lemma_u64_shl_is_mul, lemma_u64_shr_is_div,
};
use crate::error::RuidError;

verus! {

/// How the 64 bits of an identifier are divided, from the most significant
/// field to the least: timestamp, sequence, cluster, node.
#[derive(Clone, Copy, Debug, PartialEq, Eq, Structural)]
pub struct BitLayout {
    pub timestamp_bits: u8,
    pub cluster_bits: u8,
    pub node_bits: u8,
    pub sequence_bits: u8,
}

impl BitLayout {
    /// A layout is usable when every field has at least one bit and the four
    /// widths fill the 64 bits exactly.
    pub open spec fn wf(&self) -> bool {
        &&& self.timestamp_bits >= 1
        &&& self.cluster_bits >= 1
        &&& self.node_bits >= 1
        &&& self.sequence_bits >= 1
        &&& self.timestamp_bits + self.cluster_bits + self.node_bits + self.sequence_bits == 64
    }

    /// Number of bits below the sequence field.
    pub open spec fn spec_sequence_shift(&self) -> nat {
        (self.cluster_bits + self.node_bits) as nat
    }

    /// Number of bits below the timestamp field.
    pub open spec fn spec_timestamp_shift(&self) -> nat {
        (self.sequence_bits + self.cluster_bits + self.node_bits) as nat
    }

    /// Largest timestamp the layout can hold: `2^timestamp_bits - 1`.
    pub open spec fn spec_max_timestamp(&self) -> nat {
        low_bits_mask(self.timestamp_bits as nat)
    }

    /// Largest sequence number: `2^sequence_bits - 1`.
    pub open spec fn spec_max_sequence(&self) -> nat {
        low_bits_mask(self.sequence_bits as nat)
    }

    /// Largest cluster id: `2^cluster_bits - 1`.
    pub open spec fn spec_max_cluster(&self) -> nat {
        low_bits_mask(self.cluster_bits as nat)
    }

    /// Largest node id: `2^node_bits - 1`.
    pub open spec fn spec_max_node(&self) -> nat {
        low_bits_mask(self.node_bits as nat)
    }

    /// Largest node suffix: `2^(cluster_bits + node_bits) - 1`.
    pub open spec fn spec_max_suffix(&self) -> nat {
        low_bits_mask(self.spec_sequence_shift())
    }

    /// The suffix that a cluster and a node id form: the cluster id above the
    /// node id.
    pub open spec fn spec_node_suffix(&self, cluster_id: nat, node_id: nat) -> nat {
        cluster_id * pow2(self.node_bits as nat) + node_id
    }

    /// The identifier made of a timestamp, a sequence number and a suffix.
    pub open spec fn spec_pack(&self, timestamp: nat, sequence: nat, suffix: nat) -> nat {
        timestamp * pow2(self.spec_timestamp_shift()) + sequence * pow2(self.spec_sequence_shift())
            + suffix
    }

    /// The timestamp field of an identifier.
    pub open spec fn spec_timestamp_of(&self, id: nat) -> nat {
        id / pow2(self.spec_timestamp_shift())
    }

    /// The sequence field of an identifier.
    pub open spec fn spec_sequence_of(&self, id: nat) -> nat {
        (id / pow2(self.spec_sequence_shift())) % pow2(self.sequence_bits as nat)
    }

    /// The cluster field of an identifier.
    pub open spec fn spec_cluster_of(&self, id: nat) -> nat {
        (id / pow2(self.node_bits as nat)) % pow2(self.cluster_bits as nat)
    }

    /// The node field of an identifier.
    pub open spec fn spec_node_of(&self, id: nat) -> nat {
        id % pow2(self.node_bits as nat)
    }

    /// The node suffix of an identifier: its cluster and node fields together.
    pub open spec fn spec_suffix_of(&self, id: nat) -> nat {
        id % pow2(self.spec_sequence_shift())
    }

    /// Whether the three parts fit the fields they are packed into.
    pub open spec fn fits(&self, timestamp: nat, sequence: nat, suffix: nat) -> bool {
        &&& timestamp <= self.spec_max_timestamp()
        &&& sequence <= self.spec_max_sequence()
        &&& suffix <= self.spec_max_suffix()
    }

    /// Builds a layout from its four widths, or refuses them.
    pub fn new(timestamp_bits: u8, cluster_bits: u8, node_bits: u8, sequence_bits: u8) -> (r: Result<
        BitLayout,
        RuidError,
    >)
        ensures
            r == (if (BitLayout { timestamp_bits, cluster_bits, node_bits, sequence_bits }).wf() {
                Ok::<BitLayout, RuidError>(
                    BitLayout { timestamp_bits, cluster_bits, node_bits, sequence_bits },
                )
            } else {
                Err::<BitLayout, RuidError>(RuidError::ConfigError)
            }),
    {
        let layout = BitLayout { timestamp_bits, cluster_bits, node_bits, sequence_bits };
        if layout.is_valid() {
            Ok(layout)
        } else {
            Err(RuidError::ConfigError)
        }
    }

    /// Tells whether the widths describe a usable layout.
    pub fn is_valid(&self) -> (ok: bool)
        ensures
            ok == self.wf(),
    {
        let total: u64 = self.timestamp_bits as u64 + self.cluster_bits as u64
            + self.node_bits as u64 + self.sequence_bits as u64;
        self.timestamp_bits >= 1 && self.cluster_bits >= 1 && self.node_bits >= 1
            && self.sequence_bits >= 1 && total == 64
    }

    /// Shift that places the sequence field.
    pub fn sequence_shift(&self) -> (shift: u64)
        requires
            self.wf(),
        ensures
            shift == self.spec_sequence_shift(),
            2 <= shift <= 62,
    {
        self.cluster_bits as u64 + self.node_bits as u64
    }

    /// Shift that places the timestamp field.
    pub fn timestamp_shift(&self) -> (shift: u64)
        requires
            self.wf(),
        ensures
            shift == self.spec_timestamp_shift(),
            3 <= shift <= 63,
    {
        self.sequence_bits as u64 + self.cluster_bits as u64 + self.node_bits as u64
    }

    /// Largest timestamp the layout can hold.
    pub fn max_timestamp(&self) -> (max: u64)
        requires
            self.wf(),
        ensures
            max == self.spec_max_timestamp(),
    {
        low_mask(self.timestamp_bits as u64)
    }

    /// Largest sequence number.
    pub fn max_sequence(&self) -> (max: u64)
        requires
            self.wf(),
        ensures
            max == self.spec_max_sequence(),
    {
        low_mask(self.sequence_bits as u64)
    }

    /// Largest cluster id.
    pub fn max_cluster(&self) -> (max: u64)
        requires
            self.wf(),
        ensures
            max == self.spec_max_cluster(),
    {
        low_mask(self.cluster_bits as u64)
    }

    /// Largest node id.
    pub fn max_node(&self) -> (max: u64)
        requires
            self.wf(),
        ensures
            max == self.spec_max_node(),
    {
        low_mask(self.node_bits as u64)
    }

    /// Largest node suffix.
    pub fn max_suffix(&self) -> (max: u64)
        requires
            self.wf(),
        ensures
            max == self.spec_max_suffix(),
    {
        low_mask(self.sequence_shift())
    }

    /// The suffix of a cluster and a node id, or `ConfigError` where either is
    /// out of range.
    pub fn node_suffix(&self, cluster_id: u64, node_id: u64) -> (r: Result<u64, RuidError>)
        requires
            self.wf(),
        ensures
            cluster_id <= self.spec_max_cluster() && node_id <= self.spec_max_node() ==> r is Ok
                && r->Ok_0 == self.spec_node_suffix(cluster_id as nat, node_id as nat)
                && r->Ok_0 <= self.spec_max_suffix(),
            !(cluster_id <= self.spec_max_cluster() && node_id <= self.spec_max_node()) ==> r
                == Err::<u64, RuidError>(RuidError::ConfigError),
    {
        if cluster_id > self.max_cluster() || node_id > self.max_node() {
            return Err(RuidError::ConfigError);
        }
        let shift: u64 = self.node_bits as u64;
        proof {
            lemma_suffix_bound(*self, cluster_id as nat, node_id as nat);
            lemma_layout_powers(*self);
            lemma_u64_shl_is_mul(cluster_id, shift);
            lemma_u64_shl_is_mul(1, shift);
            lemma_or_is_sum(cluster_id, shift, node_id);
        }
        Ok((cluster_id << shift) | node_id)
    }

    /// Packs the three parts into an identifier: the timestamp above the
    /// sequence number above the suffix.
    pub fn pack_fields(&self, timestamp: u64, sequence: u64, suffix: u64) -> (id: u64)
        requires
            self.wf(),
            self.fits(timestamp as nat, sequence as nat, suffix as nat),
        ensures
            id == self.spec_pack(timestamp as nat, sequence as nat, suffix as nat),
    {
        let high_shift = self.timestamp_shift();
        let low_shift = self.sequence_shift();
        proof {
            lemma_pack_bound(*self, timestamp as nat, sequence as nat, suffix as nat);
            lemma_layout_powers(*self);
            lemma_u64_shl_is_mul(timestamp, high_shift);
            lemma_u64_shl_is_mul(sequence, low_shift);
            lemma_u64_shl_is_mul(1, high_shift);
            lemma_u64_shl_is_mul(1, low_shift);
            lemma_or_is_sum(sequence, low_shift, suffix);
            lemma_or_is_sum(timestamp, high_shift, ((sequence << low_shift) | suffix));
            assert(((timestamp << high_shift) | (sequence << low_shift) | suffix) == ((timestamp
                << high_shift) | ((sequence << low_shift) | suffix))) by (bit_vector);
        }
        (timestamp << high_shift) | (sequence << low_shift) | suffix
    }

    /// Packs the three parts into an identifier where each fits its field,
    /// and gives `None` where one does not.
    pub fn pack(&self, timestamp: u64, sequence: u64, suffix: u64) -> (r: Option<u64>)
        requires
            self.wf(),
        ensures
            self.fits(timestamp as nat, sequence as nat, suffix as nat) ==> r is Some && r->Some_0
                == self.spec_pack(timestamp as nat, sequence as nat, suffix as nat),
            !self.fits(timestamp as nat, sequence as nat, suffix as nat) ==> r is None,
    {
        if timestamp <= self.max_timestamp() && sequence <= self.max_sequence() && suffix
            <= self.max_suffix() {
            Some(self.pack_fields(timestamp, sequence, suffix))
        } else {
            None
        }
    }

    /// Reads the timestamp field of an identifier.
    pub fn timestamp_of(&self, id: u64) -> (timestamp: u64)
        requires
            self.wf(),
        ensures
            timestamp == self.spec_timestamp_of(id as nat),
    {
        let shift = self.timestamp_shift();
        proof {
            lemma_u64_shr_is_div(id, shift);
        }
        id >> shift
    }

    /// Reads the sequence field of an identifier.
    pub fn sequence_of(&self, id: u64) -> (sequence: u64)
        requires
            self.wf(),
        ensures
            sequence == self.spec_sequence_of(id as nat),
    {
        let shift = self.sequence_shift();
        let mask = self.max_sequence();
        proof {
            lemma_u64_shr_is_div(id, shift);
            lemma_u64_pow2_no_overflow(self.sequence_bits as nat);
            lemma_u64_low_bits_mask_is_mod(id >> shift, self.sequence_bits as nat);
        }
        (id >> shift) & mask
    }

    /// Reads the node suffix of an identifier.
    pub fn suffix_of(&self, id: u64) -> (suffix: u64)
        requires
            self.wf(),
        ensures
            suffix == self.spec_suffix_of(id as nat),
    {
        let mask = self.max_suffix();
        proof {
            lemma_u64_pow2_no_overflow(self.spec_sequence_shift());
            lemma_u64_low_bits_mask_is_mod(id, self.spec_sequence_shift());
        }
        id & mask
    }

    /// Reads the cluster field of an identifier.
    pub fn cluster_of(&self, id: u64) -> (cluster_id: u64)
        requires
            self.wf(),
        ensures
            cluster_id == self.spec_cluster_of(id as nat),
    {
        let shift: u64 = self.node_bits as u64;
        let mask = self.max_cluster();
        proof {
            lemma_u64_shr_is_div(id, shift);
            lemma_u64_pow2_no_overflow(self.cluster_bits as nat);
            lemma_u64_low_bits_mask_is_mod(id >> shift, self.cluster_bits as nat);
        }
        (id >> shift) & mask
    }

    /// Reads the node field of an identifier.
    pub fn node_of(&self, id: u64) -> (node_id: u64)
        requires
            self.wf(),
        ensures
            node_id == self.spec_node_of(id as nat),
    {
        let mask = self.max_node();
        proof {
            lemma_u64_pow2_no_overflow(self.node_bits as nat);
            lemma_u64_low_bits_mask_is_mod(id, self.node_bits as nat);
        }
        id & mask
    }
}

/// A value shifted left and a value that fits below the shift share no bit, so
/// joining them with `|` adds them.
proof fn lemma_or_is_sum(high: u64, shift: u64, low: u64)
    requires
        shift < 64,
        low < (1u64 << shift),
    ensures
        ((high << shift) | low) == (high << shift) + low,
{
    assert(((high << shift) | low) == (high << shift) + low) by (bit_vector)
        requires
            shift < 64,
            low < (1u64 << shift),
    ;
}

/// How the powers of two of a layout's widths relate.
pub proof fn lemma_layout_powers(layout: BitLayout)
    requires
        layout.wf(),
    ensures
        0 < pow2(layout.node_bits as nat) <= u64::MAX,
        0 < pow2(layout.cluster_bits as nat) <= u64::MAX,
        0 < pow2(layout.sequence_bits as nat) <= u64::MAX,
        0 < pow2(layout.timestamp_bits as nat) <= u64::MAX,
        pow2(layout.spec_sequence_shift()) == pow2(layout.cluster_bits as nat) * pow2(
            layout.node_bits as nat,
        ),
        pow2(layout.spec_timestamp_shift()) == pow2(layout.sequence_bits as nat) * pow2(
            layout.spec_sequence_shift(),
        ),
        pow2(layout.timestamp_bits as nat) * pow2(layout.spec_timestamp_shift())
            == 0x1_0000_0000_0000_0000,
        0 < pow2(layout.spec_sequence_shift()) <= u64::MAX,
        0 < pow2(layout.spec_timestamp_shift()) <= u64::MAX,
{
    lemma_pow2_pos(layout.spec_sequence_shift());
    lemma_pow2_pos(layout.spec_timestamp_shift());
    lemma_u64_pow2_no_overflow(layout.node_bits as nat);
    lemma_u64_pow2_no_overflow(layout.cluster_bits as nat);
    lemma_u64_pow2_no_overflow(layout.sequence_bits as nat);
    lemma_u64_pow2_no_overflow(layout.timestamp_bits as nat);
    lemma_pow2_pos(layout.node_bits as nat);
    lemma_pow2_pos(layout.cluster_bits as nat);
    lemma_pow2_pos(layout.sequence_bits as nat);
    lemma_pow2_pos(layout.timestamp_bits as nat);
    lemma_pow2_adds(layout.cluster_bits as nat, layout.node_bits as nat);
    lemma_pow2_adds(layout.sequence_bits as nat, layout.spec_sequence_shift());
    lemma_pow2_adds(layout.timestamp_bits as nat, layout.spec_timestamp_shift());
    lemma2_to64_rest();
    lemma_u64_pow2_no_overflow(layout.spec_sequence_shift());
    lemma_u64_pow2_no_overflow(layout.spec_timestamp_shift());
}

/// A field value below `2^width`, placed above `low` bits that hold a value
/// below `2^low`, stays below `2^(width + low)`.
proof fn lemma_stack_bound(value: nat, limit: nat, below: nat, unit: nat)
    requires
        value < limit,
        below < unit,
    ensures
        value * unit + below < limit * unit,
{
    assert(value * unit + unit <= limit * unit) by (nonlinear_arith)
        requires
            value + 1 <= limit,
    ;
}

/// A cluster and a node id in range form a suffix in range.
pub proof fn lemma_suffix_bound(layout: BitLayout, cluster_id: nat, node_id: nat)
    requires
        layout.wf(),
        cluster_id <= layout.spec_max_cluster(),
        node_id <= layout.spec_max_node(),
    ensures
        layout.spec_node_suffix(cluster_id, node_id) <= layout.spec_max_suffix(),
{
    lemma_layout_powers(layout);
    lemma_stack_bound(
        cluster_id,
        pow2(layout.cluster_bits as nat),
        node_id,
        pow2(layout.node_bits as nat),
    );
}

/// Parts that fit their fields make an identifier of 64 bits, and the part
/// below the timestamp stays below the timestamp's unit.
pub proof fn lemma_pack_bound(layout: BitLayout, timestamp: nat, sequence: nat, suffix: nat)
    requires
        layout.wf(),
        layout.fits(timestamp, sequence, suffix),
    ensures
        sequence * pow2(layout.spec_sequence_shift()) + suffix < pow2(
            layout.spec_timestamp_shift(),
        ),
        timestamp * pow2(layout.spec_timestamp_shift()) <= u64::MAX,
        sequence * pow2(layout.spec_sequence_shift()) <= u64::MAX,
        layout.spec_pack(timestamp, sequence, suffix) <= u64::MAX,
{
    lemma_layout_powers(layout);
    lemma_stack_bound(
        sequence,
        pow2(layout.sequence_bits as nat),
        suffix,
        pow2(layout.spec_sequence_shift()),
    );
    lemma_stack_bound(
        timestamp,
        pow2(layout.timestamp_bits as nat),
        sequence * pow2(layout.spec_sequence_shift()) + suffix,
        pow2(layout.spec_timestamp_shift()),
    );
}

/// The value whose lowest `bits` bits are set and no others.
pub fn low_mask(bits: u64) -> (mask: u64)
    requires
        bits < 64,
    ensures
        mask == low_bits_mask(bits as nat),
        mask + 1 == pow2(bits as nat),
{
    proof {
        lemma_u64_pow2_no_overflow(bits as nat);
        lemma_u64_shl_is_mul(1, bits);
    }
    (1u64 << bits) - 1
}

/// Reading the fields of a packed identifier gives back the timestamp, the
/// sequence number and the suffix it was packed from.
pub proof fn lemma_unpack_pack(layout: BitLayout, timestamp: nat, sequence: nat, suffix: nat)
    requires
        layout.wf(),
        layout.fits(timestamp, sequence, suffix),
    ensures
        layout.spec_timestamp_of(layout.spec_pack(timestamp, sequence, suffix)) == timestamp,
        layout.spec_sequence_of(layout.spec_pack(timestamp, sequence, suffix)) == sequence,
        layout.spec_suffix_of(layout.spec_pack(timestamp, sequence, suffix)) == suffix,
{
    let id = layout.spec_pack(timestamp, sequence, suffix);
    let high_unit = pow2(layout.spec_timestamp_shift());
    let low_unit = pow2(layout.spec_sequence_shift());
    let span = pow2(layout.sequence_bits as nat);
    lemma_layout_powers(layout);
    lemma_pack_bound(layout, timestamp, sequence, suffix);
    lemma_fundamental_div_mod_converse(
        id as int,
        high_unit as int,
        timestamp as int,
        (sequence * low_unit + suffix) as int,
    );
    assert(id == (timestamp * span + sequence) * low_unit + suffix) by (nonlinear_arith)
        requires
            id == timestamp * high_unit + sequence * low_unit + suffix,
            high_unit == span * low_unit,
    ;
    lemma_fundamental_div_mod_converse(
        id as int,
        low_unit as int,
        (timestamp * span + sequence) as int,
        suffix as int,
    );
    lemma_fundamental_div_mod_converse(
        (timestamp * span + sequence) as int,
        span as int,
        timestamp as int,
        sequence as int,
    );
}

/// Reading the cluster and node fields of a packed identifier gives back the
/// pair that its suffix was formed from.
pub proof fn lemma_unpack_identity(
    layout: BitLayout,
    timestamp: nat,
    sequence: nat,
    cluster_id: nat,
    node_id: nat,
)
    requires
        layout.wf(),
        timestamp <= layout.spec_max_timestamp(),
        sequence <= layout.spec_max_sequence(),
        cluster_id <= layout.spec_max_cluster(),
        node_id <= layout.spec_max_node(),
    ensures
        layout.fits(timestamp, sequence, layout.spec_node_suffix(cluster_id, node_id)),
        layout.spec_cluster_of(
            layout.spec_pack(timestamp, sequence, layout.spec_node_suffix(cluster_id, node_id)),
        ) == cluster_id,
        layout.spec_node_of(
            layout.spec_pack(timestamp, sequence, layout.spec_node_suffix(cluster_id, node_id)),
        ) == node_id,
{
    let suffix = layout.spec_node_suffix(cluster_id, node_id);
    let id = layout.spec_pack(timestamp, sequence, suffix);
    let high_unit = pow2(layout.spec_timestamp_shift());
    let low_unit = pow2(layout.spec_sequence_shift());
    let span = pow2(layout.sequence_bits as nat);
    let clusters = pow2(layout.cluster_bits as nat);
    let nodes = pow2(layout.node_bits as nat);
    lemma_layout_powers(layout);
    lemma_suffix_bound(layout, cluster_id, node_id);
    let above = (timestamp * span + sequence) * clusters + cluster_id;
    assert(id == above * nodes + node_id) by (nonlinear_arith)
        requires
            id == timestamp * high_unit + sequence * low_unit + (cluster_id * nodes + node_id),
            high_unit == span * low_unit,
            low_unit == clusters * nodes,
            above == (timestamp * span + sequence) * clusters + cluster_id,
    ;
    lemma_fundamental_div_mod_converse(id as int, nodes as int, above as int, node_id as int);
    lemma_fundamental_div_mod_converse(
        above as int,
        clusters as int,
        (timestamp * span + sequence) as int,
        cluster_id as int,
    );
}

/// Identifiers with one suffix are ordered as their timestamps are, and within
/// one timestamp as their sequence numbers are.
pub proof fn lemma_pack_ordered(
    layout: BitLayout,
    timestamp1: nat,
    sequence1: nat,
    timestamp2: nat,
    sequence2: nat,
    suffix: nat,
)
    requires
        layout.wf(),
        layout.fits(timestamp1, sequence1, suffix),
        layout.fits(timestamp2, sequence2, suffix),
        timestamp1 < timestamp2 || (timestamp1 == timestamp2 && sequence1 < sequence2),
    ensures
        layout.spec_pack(timestamp1, sequence1, suffix) < layout.spec_pack(
            timestamp2,
            sequence2,
            suffix,
        ),
{
    let high_unit = pow2(layout.spec_timestamp_shift());
    let low_unit = pow2(layout.spec_sequence_shift());
    lemma_layout_powers(layout);
    lemma_pack_bound(layout, timestamp1, sequence1, suffix);
    if timestamp1 < timestamp2 {
        assert(timestamp1 * high_unit + high_unit <= timestamp2 * high_unit) by (nonlinear_arith)
            requires
                timestamp1 + 1 <= timestamp2,
        ;
    } else {
        assert(sequence1 * low_unit + low_unit <= sequence2 * low_unit) by (nonlinear_arith)
            requires
                sequence1 + 1 <= sequence2,
        ;
    }
}

/// Two identifiers packed with different suffixes differ, whatever their
/// timestamps and sequence numbers.
pub proof fn lemma_distinct_suffixes_never_collide(
    layout: BitLayout,
    timestamp1: nat,
    sequence1: nat,
    suffix1: nat,
    timestamp2: nat,
    sequence2: nat,
    suffix2: nat,
)
    requires
        layout.wf(),
        layout.fits(timestamp1, sequence1, suffix1),
        layout.fits(timestamp2, sequence2, suffix2),
        suffix1 != suffix2,
    ensures
        layout.spec_pack(timestamp1, sequence1, suffix1) != layout.spec_pack(
            timestamp2,
            sequence2,
            suffix2,
        ),
{
    lemma_unpack_pack(layout, timestamp1, sequence1, suffix1);
    lemma_unpack_pack(layout, timestamp2, sequence2, suffix2);
}

/// Two identifiers stamped with different (cluster, node) pairs differ, whatever
/// their timestamps and sequence numbers.
pub proof fn lemma_distinct_identities_never_collide(
    layout: BitLayout,
    timestamp1: nat,
    sequence1: nat,
    cluster_id1: nat,
    node_id1: nat,
    timestamp2: nat,
    sequence2: nat,
    cluster_id2: nat,
    node_id2: nat,
)
    requires
        layout.wf(),
        timestamp1 <= layout.spec_max_timestamp(),
        sequence1 <= layout.spec_max_sequence(),
        cluster_id1 <= layout.spec_max_cluster(),
        node_id1 <= layout.spec_max_node(),
        timestamp2 <= layout.spec_max_timestamp(),
        sequence2 <= layout.spec_max_sequence(),
        cluster_id2 <= layout.spec_max_cluster(),
        node_id2 <= layout.spec_max_node(),
        cluster_id1 != cluster_id2 || node_id1 != node_id2,
    ensures
        layout.spec_pack(timestamp1, sequence1, layout.spec_node_suffix(cluster_id1, node_id1))
            != layout.spec_pack(
            timestamp2,
            sequence2,
            layout.spec_node_suffix(cluster_id2, node_id2),
        ),
{
    lemma_unpack_identity(layout, timestamp1, sequence1, cluster_id1, node_id1);
    lemma_unpack_identity(layout, timestamp2, sequence2, cluster_id2, node_id2);
}

/// Different (cluster, node) pairs form different suffixes.
pub proof fn lemma_distinct_identities_distinct_suffixes(
    layout: BitLayout,
    cluster_id1: nat,
    node_id1: nat,
    cluster_id2: nat,
    node_id2: nat,
)
    requires
        layout.wf(),
        cluster_id1 <= layout.spec_max_cluster(),
        node_id1 <= layout.spec_max_node(),
        cluster_id2 <= layout.spec_max_cluster(),
        node_id2 <= layout.spec_max_node(),
        cluster_id1 != cluster_id2 || node_id1 != node_id2,
    ensures
        layout.spec_node_suffix(cluster_id1, node_id1) != layout.spec_node_suffix(
            cluster_id2,
            node_id2,
        ),
{
    lemma_distinct_identities_never_collide(
        layout,
        0,
        0,
        cluster_id1,
        node_id1,
        0,
        0,
        cluster_id2,
        node_id2,
    );
}

} // verus!
