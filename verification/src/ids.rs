//! The identifiers that the modules share.

use vstd::prelude::*;

verus! {

/// A workspace identifier: the object number of a workspace handle.
pub type WorkspaceId = u64;

/// Tells protocol objects apart. The lower half is the object's number, which
/// the protocol may give out again once an object is gone; the upper half
/// counts how often it was given out before.
pub type ObjectKey = u64;

/// The object number of `key`.
pub open spec fn object_number(key: ObjectKey) -> u64 {
    key % 0x1_0000_0000
}

/// The object number of `key`.
pub fn protocol_id(key: ObjectKey) -> (number: u64)
    ensures
        number == object_number(key),
        number < 0x1_0000_0000,
{
    key % 0x1_0000_0000
}

/// The key of the object that is given `number` after `reuse` others.
pub fn object_key(number: u32, reuse: u32) -> (key: ObjectKey)
    ensures
        key == reuse * 0x1_0000_0000 + number,
        object_number(key) == number,
{
    (reuse as u64) * 0x1_0000_0000 + (number as u64)
}

/// Objects with different numbers, or given the same number at different
/// times, have different keys.
pub proof fn law_keys_tell_objects_apart(a: (u32, u32), b: (u32, u32))
    requires
        a.1 * 0x1_0000_0000 + a.0 == b.1 * 0x1_0000_0000 + b.0,
    ensures
        a == b,
{
}

} // verus!
