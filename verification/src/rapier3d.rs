//! Collision groups of the 3D physics world.

use vstd::prelude::*;

verus! {

pub use crate::bodies::BodyKind;

/// `Group::from_bits` of `rapier3d`, as bits: a group set is named for
/// each of the 32 bits, so that every pattern is a set, and it is made of
/// those bits.
#[verifier::external_body]
fn group_from_bits(bits: u32) -> (r: Option<u32>)
    ensures
        r == Some(bits),
{
    rapier3d::geometry::Group::from_bits(bits).map(|g| g.bits())
}

/// All groups.
pub const ALL_GROUPS: u32 = 0xffff_ffff;

/// Bits of the groups that a body names. None at all stands for every group
/// where `fallback_all` says so.
pub fn group_bits(raw: u32, fallback_all: bool) -> (bits: u32)
    ensures
        bits == if raw == 0 && fallback_all {
            ALL_GROUPS
        } else {
            raw
        },
{
    let bits: u32 = if raw == 0 && fallback_all {
        ALL_GROUPS
    } else {
        raw
    };
    match group_from_bits(bits) {
        Some(bits) => bits,
        None => ALL_GROUPS,
    }
}

} // verus!
