//! The slotmap boundary: the two slotmap collections this library keeps, the
//! names for what they hold, and one wrapper per slotmap method it calls.
//! Keys cross the boundary in slotmap's packed 64-bit form.
use vstd::prelude::*;
use slotmap::{DefaultKey, Key, KeyData, SecondaryMap, SlotMap};
use crate::entity::{pack, unpack_index, unpack_version};

verus! {

/// A slot map of unit values: the slots that entity handles are drawn from.
/// slotmap's own type cannot be declared to Verus (its key trait bound is
/// refused), so it is held here, opaque.
#[verifier::external_body]
pub struct EntitySlots {
    map: SlotMap<DefaultKey, ()>,
}

/// A secondary map of unit values: which versioned key, if any, occupies each slot.
#[verifier::external_body]
pub struct SlotClaims {
    map: SecondaryMap<DefaultKey, ()>,
}

/// The version stored in each slot of a slot map, slot 0 being slotmap's
/// sentinel. An odd version marks an occupied slot, an even one a free slot.
pub uninterp spec fn slot_versions(m: EntitySlots) -> Seq<u32>;

/// The occupied slots of a secondary map: slot index to the version of the key
/// that occupies it.
pub uninterp spec fn secondary_slots(m: SlotClaims) -> Map<u32, u32>;

/// The version half of packed key bits, as slotmap's `as_ffi` writes it.
pub open spec fn raw_version(bits: u64) -> u32 {
    (bits >> 32u64) as u32
}

/// Whether a slot map with these slot versions holds the key given by `bits`.
pub open spec fn versions_hold(v: Seq<u32>, bits: u64) -> bool {
    unpack_index(bits) < v.len() && v[unpack_index(bits) as int] == unpack_version(bits)
}

/// Packed keys of the occupied slots among the first `n`, in slot order.
pub open spec fn occupied_prefix(v: Seq<u32>, n: nat) -> Seq<u64>
    decreases n,
{
    if n == 0 {
        Seq::empty()
    } else {
        let i = (n - 1) as nat;
        let rest = occupied_prefix(v, i);
        if i < v.len() && v[i as int] % 2 == 1 {
            rest.push(pack(i as u32, v[i as int]))
        } else {
            rest
        }
    }
}

/// Packed keys of all occupied slots, in slot order.
pub open spec fn occupied_keys(v: Seq<u32>) -> Seq<u64> {
    occupied_prefix(v, v.len())
}

/// slotmap's `is_older_version`: `a` is older than `b` in wrapping order.
pub open spec fn is_older_version(a: u32, b: u32) -> bool {
    (a as int - b as int) % 0x1_0000_0000 >= 0x8000_0000
}

/// Whether a secondary map with these occupied slots holds the key `bits`.
pub open spec fn secondary_holds(s: Map<u32, u32>, bits: u64) -> bool {
    s.contains_key(unpack_index(bits)) && s[unpack_index(bits)] == unpack_version(bits)
}

/// Relies on `SlotMap::new`: a new map holds only the vacant sentinel slot.
#[verifier::external_body]
pub(crate) fn slots_new() -> (r: EntitySlots)
    ensures
        slot_versions(r) == seq![0u32],
{
    EntitySlots { map: SlotMap::new() }
}

/// Relies on `SlotMap::insert`: it takes a free slot (even version) and makes
/// its version odd by adding one, or appends a slot with version 1. It panics
/// only when no slot is free and `u32::MAX` slots exist.
#[verifier::external_body]
pub(crate) fn slots_insert(m: &mut EntitySlots) -> (r: u64)
    requires
        slot_versions(*old(m)).len() < u32::MAX,
    ensures
        r == pack(unpack_index(r), raw_version(r)),
        ({
            let v = slot_versions(*old(m));
            let i = unpack_index(r);
            let ver = raw_version(r);
            (i < v.len() && v[i as int] % 2 == 0 && ver == v[i as int] + 1
                && slot_versions(*final(m)) == v.update(i as int, ver)) || (i == v.len() && ver
                == 1 && slot_versions(*final(m)) == v.push(1u32))
        }),
{
    m.map.insert(()).data().as_ffi()
}

/// Relies on `SlotMap::remove`: a held key's slot version goes up by one,
/// wrapping; any other key leaves the map unchanged.
#[verifier::external_body]
pub(crate) fn slots_remove(m: &mut EntitySlots, bits: u64) -> (r: bool)
    ensures
        r == versions_hold(slot_versions(*old(m)), bits),
        r ==> slot_versions(*final(m)) == slot_versions(*old(m)).update(
            unpack_index(bits) as int,
            (if unpack_version(bits) == u32::MAX {
                0u32
            } else {
                (unpack_version(bits) + 1) as u32
            }),
        ),
        !r ==> slot_versions(*final(m)) == slot_versions(*old(m)),
{
    m.map.remove(DefaultKey::from(KeyData::from_ffi(bits))).is_some()
}

/// Relies on `SlotMap::contains_key`: the key's slot exists and holds its version.
#[verifier::external_body]
pub(crate) fn slots_contains(m: &EntitySlots, bits: u64) -> (r: bool)
    ensures
        r == versions_hold(slot_versions(*m), bits),
{
    m.map.contains_key(DefaultKey::from(KeyData::from_ffi(bits)))
}

/// Relies on `SlotMap::keys`: the keys of the occupied slots, in slot order.
#[verifier::external_body]
pub(crate) fn slots_keys(m: &EntitySlots) -> (r: Vec<u64>)
    ensures
        r@ == occupied_keys(slot_versions(*m)),
{
    m.map.keys().map(|k| k.data().as_ffi()).collect()
}

/// Relies on `SecondaryMap::new`: a new secondary map is empty.
#[verifier::external_body]
pub(crate) fn secondary_new() -> (r: SlotClaims)
    ensures
        secondary_slots(r).dom().is_empty(),
{
    SlotClaims { map: SecondaryMap::new() }
}

/// Relies on `SecondaryMap::insert`: the null key is ignored; a key already
/// held stays; a key older than the slot's occupant is refused; otherwise the
/// key takes the slot.
#[verifier::external_body]
pub(crate) fn secondary_insert(m: &mut SlotClaims, bits: u64)
    ensures
        ({
            let s = secondary_slots(*old(m));
            let i = unpack_index(bits);
            let ver = unpack_version(bits);
            if i == u32::MAX || (s.contains_key(i) && (s[i] == ver || is_older_version(
                ver,
                s[i],
            ))) {
                secondary_slots(*final(m)) == s
            } else {
                secondary_slots(*final(m)) == s.insert(i, ver)
            }
        }),
{
    m.map.insert(DefaultKey::from(KeyData::from_ffi(bits)), ());
}

/// Relies on `SecondaryMap::remove`: a held key's slot is emptied.
#[verifier::external_body]
pub(crate) fn secondary_remove(m: &mut SlotClaims, bits: u64) -> (r: bool)
    ensures
        r == secondary_holds(secondary_slots(*old(m)), bits),
        r ==> secondary_slots(*final(m)) == secondary_slots(*old(m)).remove(unpack_index(bits)),
        !r ==> secondary_slots(*final(m)) == secondary_slots(*old(m)),
{
    m.map.remove(DefaultKey::from(KeyData::from_ffi(bits))).is_some()
}

/// Relies on `SecondaryMap::contains_key`: the key's slot is occupied by that version.
#[verifier::external_body]
pub(crate) fn secondary_contains(m: &SlotClaims, bits: u64) -> (r: bool)
    ensures
        r == secondary_holds(secondary_slots(*m), bits),
{
    m.map.contains_key(DefaultKey::from(KeyData::from_ffi(bits)))
}

} // verus!
