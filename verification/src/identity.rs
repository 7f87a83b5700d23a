use vstd::prelude::*;
use vstd::arithmetic::power2::pow2;
use vstd::bits::{lemma_u64_low_bits_mask_is_mod, lemma_u64_pow2_no_overflow};
use crate::error::RuidError;
use crate::layout::BitLayout;

verus! {

/// The node id that an IPv4 address stands for: the lowest `node_bits` bits of
/// its last octet.
pub open spec fn spec_node_id_from_ipv4(layout: BitLayout, octets: [u8; 4]) -> nat {
    (octets[3] as nat) % pow2(layout.node_bits as nat)
}

/// Derives the node id from the four octets of this host's IPv4 address. An
/// octet has eight bits to give, so a node field wider than that is a
/// configuration error.
pub fn node_id_from_ipv4(layout: &BitLayout, octets: [u8; 4]) -> (r: Result<u64, RuidError>)
    requires
        layout.wf(),
    ensures
        layout.node_bits > 8 ==> r == Err::<u64, RuidError>(RuidError::ConfigError),
        layout.node_bits <= 8 ==> r is Ok && r->Ok_0 == spec_node_id_from_ipv4(*layout, octets)
            && r->Ok_0 <= layout.spec_max_node(),
{
    if layout.node_bits > 8 {
        return Err(RuidError::ConfigError);
    }
    let last_octet: u64 = octets[3] as u64;
    let mask = layout.max_node();
    proof {
        lemma_u64_pow2_no_overflow(layout.node_bits as nat);
        lemma_u64_low_bits_mask_is_mod(last_octet, layout.node_bits as nat);
    }
    Ok(last_octet & mask)
}

} // verus!
