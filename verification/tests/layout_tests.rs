use ruid::config::{
    standard_layout, CLUSTER_BITS, EPOCH_MS, MAX_CLUSTER, MAX_SEQUENCE, MAX_TIMESTAMP, NODE_BITS,
    SEQUENCE_BITS, SEQUENCE_SHIFT, SKEW_TOLERANCE_MS, TIMESTAMP_BITS, TIMESTAMP_SHIFT,
};
use ruid::error::RuidError;
use ruid::identity::node_id_from_ipv4;
use ruid::layout::{low_mask, BitLayout};

#[test]
fn standard_layout_matches_the_constants() {
    let layout = standard_layout();
    assert_eq!(layout.timestamp_bits, TIMESTAMP_BITS);
    assert_eq!(layout.cluster_bits, CLUSTER_BITS);
    assert_eq!(layout.node_bits, NODE_BITS);
    assert_eq!(layout.sequence_bits, SEQUENCE_BITS);
    assert_eq!(layout.max_timestamp(), MAX_TIMESTAMP);
    assert_eq!(layout.max_cluster(), MAX_CLUSTER);
    assert_eq!(layout.max_sequence(), MAX_SEQUENCE);
    assert_eq!(layout.max_node(), 15);
    assert_eq!(layout.max_suffix(), 511);
    assert_eq!(layout.timestamp_shift(), TIMESTAMP_SHIFT as u64);
    assert_eq!(layout.sequence_shift(), SEQUENCE_SHIFT as u64);
}

#[test]
fn constants_have_their_derived_values() {
    assert_eq!(EPOCH_MS, 1_201_737_600_000);
    assert_eq!(SKEW_TOLERANCE_MS, 1000);
    assert_eq!(MAX_TIMESTAMP, (1u64 << TIMESTAMP_BITS) - 1);
    assert_eq!(MAX_CLUSTER, (1u64 << CLUSTER_BITS) - 1);
    assert_eq!(MAX_SEQUENCE, (1u64 << SEQUENCE_BITS) - 1);
    assert_eq!(SEQUENCE_BITS, 64 - CLUSTER_BITS - NODE_BITS - TIMESTAMP_BITS);
    assert_eq!(TIMESTAMP_SHIFT, SEQUENCE_BITS + CLUSTER_BITS + NODE_BITS);
    assert_eq!(SEQUENCE_SHIFT, CLUSTER_BITS + NODE_BITS);
}

#[test]
fn layout_new_accepts_widths_that_fill_64_bits() {
    let layout = BitLayout::new(41, 5, 4, 14);
    assert_eq!(
        layout,
        Ok(BitLayout { timestamp_bits: 41, cluster_bits: 5, node_bits: 4, sequence_bits: 14 })
    );
    assert!(BitLayout::new(61, 1, 1, 1).is_ok());
    assert!(BitLayout::new(1, 1, 1, 61).is_ok());
}

#[test]
fn layout_new_refuses_a_wrong_sum() {
    assert_eq!(BitLayout::new(41, 5, 4, 13), Err(RuidError::ConfigError));
    assert_eq!(BitLayout::new(41, 5, 4, 15), Err(RuidError::ConfigError));
    assert_eq!(BitLayout::new(255, 255, 255, 67), Err(RuidError::ConfigError));
    assert_eq!(BitLayout::new(0, 0, 0, 0), Err(RuidError::ConfigError));
}

#[test]
fn layout_new_refuses_an_empty_field() {
    assert_eq!(BitLayout::new(64, 0, 0, 0), Err(RuidError::ConfigError));
    assert_eq!(BitLayout::new(50, 0, 4, 10), Err(RuidError::ConfigError));
    assert_eq!(BitLayout::new(50, 4, 0, 10), Err(RuidError::ConfigError));
    assert_eq!(BitLayout::new(50, 4, 10, 0), Err(RuidError::ConfigError));
    assert_eq!(BitLayout::new(0, 50, 4, 10), Err(RuidError::ConfigError));
}

#[test]
fn is_valid_tells_usable_layouts() {
    assert!(standard_layout().is_valid());
    let short = BitLayout { timestamp_bits: 40, cluster_bits: 5, node_bits: 4, sequence_bits: 14 };
    assert!(!short.is_valid());
}

#[test]
fn low_mask_sets_the_lowest_bits() {
    assert_eq!(low_mask(0), 0);
    assert_eq!(low_mask(1), 1);
    assert_eq!(low_mask(14), 16383);
    assert_eq!(low_mask(63), u64::MAX >> 1);
}

#[test]
fn node_suffix_puts_the_cluster_above_the_node() {
    let layout = standard_layout();
    assert_eq!(layout.node_suffix(2, 5), Ok(37));
    assert_eq!(layout.node_suffix(0, 0), Ok(0));
    assert_eq!(layout.node_suffix(31, 15), Ok(511));
    assert_eq!(layout.node_suffix(1, 0), Ok(16));
}

#[test]
fn node_suffix_refuses_ids_out_of_range() {
    let layout = standard_layout();
    assert_eq!(layout.node_suffix(32, 0), Err(RuidError::ConfigError));
    assert_eq!(layout.node_suffix(0, 16), Err(RuidError::ConfigError));
    assert_eq!(layout.node_suffix(u64::MAX, u64::MAX), Err(RuidError::ConfigError));
}

#[test]
fn pack_places_each_part_in_its_field() {
    let layout = standard_layout();
    assert_eq!(layout.pack(1000, 0, 37), Some(8_388_608_037));
    assert_eq!(layout.pack(1000, 1, 37), Some(8_388_608_549));
    assert_eq!(layout.pack(0, 0, 0), Some(0));
    assert_eq!(layout.pack(MAX_TIMESTAMP, MAX_SEQUENCE, 511), Some(u64::MAX));
    assert_eq!(layout.pack_fields(1, 2, 3), (1 << 23) | (2 << 9) | 3);
}

#[test]
fn pack_refuses_a_part_that_does_not_fit() {
    let layout = standard_layout();
    assert_eq!(layout.pack(MAX_TIMESTAMP + 1, 0, 0), None);
    assert_eq!(layout.pack(0, MAX_SEQUENCE + 1, 0), None);
    assert_eq!(layout.pack(0, 0, 512), None);
}

#[test]
fn unpacking_reverses_packing() {
    let layout = BitLayout::new(30, 7, 9, 18).unwrap();
    let suffix = layout.node_suffix(100, 300).unwrap();
    assert_eq!(suffix, (100 << 9) | 300);
    let id = layout.pack(999_999, 200_000, suffix).unwrap();
    assert_eq!(id, (999_999 << 34) | (200_000 << 16) | (100 << 9) | 300);
    assert_eq!(layout.timestamp_of(id), 999_999);
    assert_eq!(layout.sequence_of(id), 200_000);
    assert_eq!(layout.suffix_of(id), suffix);
    assert_eq!(layout.cluster_of(id), 100);
    assert_eq!(layout.node_of(id), 300);
}

#[test]
fn packed_ids_order_by_timestamp_then_sequence() {
    let layout = standard_layout();
    let a = layout.pack(10, MAX_SEQUENCE, 511).unwrap();
    let b = layout.pack(11, 0, 511).unwrap();
    let c = layout.pack(11, 1, 511).unwrap();
    assert!(a < b);
    assert!(b < c);
}

#[test]
fn ids_with_different_suffixes_differ() {
    let layout = standard_layout();
    for suffix in 0..511u64 {
        assert_ne!(layout.pack(5, 5, suffix), layout.pack(5, 5, suffix + 1));
    }
    assert_ne!(layout.pack(5, 6, 1).unwrap(), layout.pack(6, 5, 2).unwrap());
}

#[test]
fn node_id_is_the_low_bits_of_the_last_octet() {
    let layout = standard_layout();
    assert_eq!(node_id_from_ipv4(&layout, [10, 0, 3, 0xA7]), Ok(7));
    assert_eq!(node_id_from_ipv4(&layout, [255, 255, 255, 16]), Ok(0));
    assert_eq!(node_id_from_ipv4(&layout, [1, 2, 3, 255]), Ok(15));
    let wide = BitLayout::new(41, 5, 8, 10).unwrap();
    assert_eq!(node_id_from_ipv4(&wide, [1, 2, 3, 200]), Ok(200));
}

#[test]
fn node_id_needs_a_field_of_at_most_eight_bits() {
    let layout = BitLayout::new(41, 5, 9, 9).unwrap();
    assert_eq!(node_id_from_ipv4(&layout, [10, 0, 0, 1]), Err(RuidError::ConfigError));
}
