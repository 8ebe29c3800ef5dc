//! The entity registry: allocates and recycles generation-tagged handles.
use vstd::prelude::*;
use crate::entity::{Entity, lemma_pack_unpack, pack, unpack_index, unpack_version};
use crate::slots::{
    EntitySlots, occupied_keys, occupied_prefix, raw_version, slot_versions, slots_contains,
    slots_insert, slots_keys, slots_new, slots_remove,
};

verus! {

/// Whether slot versions `v` mark `e` as alive: its slot exists and still holds
/// the version the handle was issued with.
pub open spec fn holds(v: Seq<u32>, e: Entity) -> bool {
    &&& e.version_spec() % 2 == 1
    &&& e.index_spec() < v.len()
    &&& v[e.index_spec() as int] == e.version_spec()
}

/// The version a slot gets when its occupant is destroyed.
pub open spec fn bumped(ver: u32) -> u32 {
    if ver == u32::MAX {
        0u32
    } else {
        (ver + 1) as u32
    }
}

/// How slot versions change when `e` is issued: a free slot turns occupied
/// with the next version, or a new slot is appended with version 1.
pub open spec fn issued(before: Seq<u32>, after: Seq<u32>, e: Entity) -> bool {
    let i = e.index_spec();
    (i < before.len() && before[i as int] % 2 == 0 && e.version_spec() == before[i as int] + 1
        && after == before.update(i as int, e.version_spec())) || (i == before.len()
        && e.version_spec() == 1 && after == before.push(1u32))
}

/// How slot versions change when `e` is destroyed.
pub open spec fn retired(before: Seq<u32>, after: Seq<u32>, e: Entity) -> bool {
    if holds(before, e) {
        after == before.update(e.index_spec() as int, bumped(e.version_spec()))
    } else {
        after == before
    }
}

/// Owns the slots that entity handles name.
pub struct EntityRegistry {
    slots: EntitySlots,
    slot_count: usize,
}

impl EntityRegistry {
    /// The version held by each slot (even: free, odd: occupied).
    pub closed spec fn versions(self) -> Seq<u32> {
        slot_versions(self.slots)
    }

    pub closed spec fn wf(self) -> bool {
        &&& self.slot_count == slot_versions(self.slots).len()
        &&& slot_versions(self.slots).len() <= u32::MAX
        &&& slot_versions(self.slots).len() >= 1
        &&& self.alive().finite()
    }

    /// The handles that are alive now.
    pub open spec fn alive(self) -> Set<Entity> {
        Set::new(|e: Entity| holds(self.versions(), e))
    }

    pub fn new() -> (r: EntityRegistry)
        ensures
            r.wf(),
            r.versions() == seq![0u32],
            r.alive().is_empty(),
    {
        let r = EntityRegistry { slots: slots_new(), slot_count: 1 };
        assert(r.alive() =~= Set::empty());
        r
    }

    /// An alive handle never has slotmap's null index `u32::MAX`.
    pub proof fn lemma_alive_index_bound(self, e: Entity)
        requires
            self.wf(),
            self.alive().contains(e),
        ensures
            e.index_spec() < u32::MAX,
    {
    }

    /// Whether one more handle can be issued (slotmap holds fewer than
    /// `u32::MAX` slots).
    pub fn has_room(&self) -> (r: bool)
        requires
            self.wf(),
        ensures
            r == (self.versions().len() < u32::MAX),
    {
        self.slot_count < u32::MAX as usize
    }

    /// How many more slots slotmap can add before it is full.
    pub fn spare_slots(&self) -> (r: usize)
        requires
            self.wf(),
        ensures
            r == u32::MAX - self.versions().len(),
    {
        u32::MAX as usize - self.slot_count
    }

    /// Issues a handle that no alive handle equals.
    pub fn create(&mut self) -> (r: Entity)
        requires
            old(self).wf(),
            old(self).versions().len() < u32::MAX,
        ensures
            final(self).wf(),
            issued(old(self).versions(), final(self).versions(), r),
            !old(self).alive().contains(r),
            final(self).alive() == old(self).alive().insert(r),
            final(self).alive().len() == old(self).alive().len() + 1,
    {
        let bits = slots_insert(&mut self.slots);
        let e = Entity::from_bits(bits);
        proof {
            let ver = raw_version(bits);
            assert(ver % 2 == 1 ==> (ver | 1u32) == ver) by (bit_vector);
        }
        if e.index() as usize == self.slot_count {
            self.slot_count = self.slot_count + 1;
        }
        proof {
            let before = old(self).versions();
            let after = self.versions();
            assert(!holds(before, e));
            assert forall|x: Entity| holds(after, x) == (holds(before, x) || x == e) by {
                Entity::lemma_eq(x, e);
            }
            assert(self.alive() =~= old(self).alive().insert(e));
        }
        e
    }

    /// Destroys `e` if it is alive; a dead handle is ignored.
    pub fn destroy(&mut self, e: Entity) -> (r: bool)
        requires
            old(self).wf(),
        ensures
            final(self).wf(),
            r == old(self).alive().contains(e),
            retired(old(self).versions(), final(self).versions(), e),
            final(self).alive() == old(self).alive().remove(e),
            final(self).alive().len() == old(self).alive().len() - (if r {
                1int
            } else {
                0int
            }),
    {
        let bits = e.to_bits();
        let r = slots_remove(&mut self.slots, bits);
        proof {
            use_type_invariant(e);
            let before = old(self).versions();
            let after = self.versions();
            if r {
                assert(bumped(e.version_spec()) != e.version_spec());
                assert forall|x: Entity| holds(after, x) == (holds(before, x) && x != e) by {
                    Entity::lemma_eq(x, e);
                    if x.index_spec() == e.index_spec() {
                        assert(bumped(e.version_spec()) % 2 == 0);
                    }
                }
            }
            assert(self.alive() =~= old(self).alive().remove(e));
        }
        r
    }

    /// Whether `e` is alive.
    pub fn contains(&self, e: Entity) -> (r: bool)
        requires
            self.wf(),
        ensures
            r == self.alive().contains(e),
    {
        proof {
            use_type_invariant(e);
        }
        slots_contains(&self.slots, e.to_bits())
    }

    /// Every alive handle, each once, in slot order.
    pub fn alive_list(&self) -> (r: Vec<Entity>)
        requires
            self.wf(),
        ensures
            r@.no_duplicates(),
            forall|e: Entity| r@.contains(e) <==> self.alive().contains(e),
            r@.len() == self.alive().len(),
    {
        let keys = slots_keys(&self.slots);
        proof {
            lemma_occupied(self.versions(), self.versions().len());
        }
        let mut out: Vec<Entity> = Vec::new();
        let mut j: usize = 0;
        while j < keys.len()
            invariant
                j <= keys.len(),
                keys@ == occupied_keys(self.versions()),
                out@.len() == j,
                forall|t: int|
                    0 <= t < j ==> (#[trigger] out@[t]).index_spec() == unpack_index(keys@[t])
                        && out@[t].version_spec() == unpack_version(keys@[t]),
            decreases keys.len() - j,
        {
            out.push(Entity::from_bits(keys[j]));
            j = j + 1;
        }
        proof {
            let v = self.versions();
            let p = keys@;
            assert forall|t1: int, t2: int|
                0 <= t1 < out@.len() && 0 <= t2 < out@.len() && t1 != t2 implies out@[t1]
                != out@[t2] by {
                if t1 < t2 {
                    assert(unpack_index(p[t1]) < unpack_index(p[t2]));
                } else {
                    assert(unpack_index(p[t2]) < unpack_index(p[t1]));
                }
            }
            assert forall|e: Entity| out@.contains(e) <==> self.alive().contains(e) by {
                if out@.contains(e) {
                    let t = choose|t: int| 0 <= t < out@.len() && out@[t] == e;
                    assert(out@[t] == e);
                }
                if self.alive().contains(e) {
                    let t = choose|t: int|
                        0 <= t < p.len() && unpack_index(#[trigger] p[t]) == e.index_spec();
                    Entity::lemma_eq(out@[t], e);
                    assert(out@[t] == e);
                }
            }
            assert(out@.to_set() =~= self.alive());
            out@.unique_seq_to_set();
        }
        out
    }
}

/// Facts on the packed keys of the first `n` slots: each names an occupied
/// slot below `n` with its version, slot indices strictly increase, and every
/// occupied slot below `n` is named.
proof fn lemma_occupied(v: Seq<u32>, n: nat)
    requires
        v.len() <= u32::MAX,
        n <= v.len(),
    ensures
        forall|t: int|
            0 <= t < occupied_prefix(v, n).len() ==> {
                let k = #[trigger] occupied_prefix(v, n)[t];
                &&& unpack_index(k) < n
                &&& v[unpack_index(k) as int] % 2 == 1
                &&& unpack_version(k) == v[unpack_index(k) as int]
            },
        forall|t1: int, t2: int|
            0 <= t1 < t2 < occupied_prefix(v, n).len() ==> unpack_index(
                #[trigger] occupied_prefix(v, n)[t1],
            ) < unpack_index(#[trigger] occupied_prefix(v, n)[t2]),
        forall|i: int|
            0 <= i < n && #[trigger] v[i] % 2 == 1 ==> exists|t: int|
                0 <= t < occupied_prefix(v, n).len() && unpack_index(
                    #[trigger] occupied_prefix(v, n)[t],
                ) == i,
    decreases n,
{
    if n > 0 {
        let i = (n - 1) as nat;
        lemma_occupied(v, i);
        let rest = occupied_prefix(v, i);
        if v[i as int] % 2 == 1 {
            lemma_pack_unpack(i as u32, v[i as int]);
            let p = occupied_prefix(v, n);
            assert(p == rest.push(pack(i as u32, v[i as int])));
            assert forall|j: int| 0 <= j < n && #[trigger] v[j] % 2 == 1 implies exists|t: int|
                0 <= t < p.len() && unpack_index(#[trigger] p[t]) == j by {
                if j < i {
                    let t = choose|t: int|
                        0 <= t < rest.len() && unpack_index(#[trigger] rest[t]) == j;
                    assert(p[t] == rest[t]);
                } else {
                    assert(p[rest.len() as int] == pack(i as u32, v[i as int]));
                }
            }
        } else {
            let p = occupied_prefix(v, n);
            assert(p == rest);
            assert forall|j: int| 0 <= j < n && #[trigger] v[j] % 2 == 1 implies exists|t: int|
                0 <= t < p.len() && unpack_index(#[trigger] p[t]) == j by {
                assert(j < i);
            }
        }
    }
}

/// A destroyed handle is dead afterwards, and the handle issued next is never
/// equal to it, even when it reuses the same slot: the slot's version has
/// moved on by two.
pub proof fn lemma_destroyed_handle_not_reissued(
    r0: EntityRegistry,
    r1: EntityRegistry,
    r2: EntityRegistry,
    e: Entity,
    n: Entity,
)
    requires
        r0.alive().contains(e),
        retired(r0.versions(), r1.versions(), e),
        issued(r1.versions(), r2.versions(), n),
    ensures
        !r1.alive().contains(e),
        n != e,
{
    let v = r1.versions();
    let i = e.index_spec();
    assert(v[i as int] == bumped(e.version_spec()));
    if n == e {
        assert(n.index_spec() < v.len());
        assert(v[i as int] % 2 == 0);
        assert(e.version_spec() == v[i as int] + 1);
    }
}

/// How many single wrapping steps a slot version takes to go from `from` to `to`.
pub open spec fn version_distance(from: u32, to: u32) -> int {
    if to >= from {
        to - from
    } else {
        to - from + 0x1_0000_0000
    }
}

/// One registry step on slot versions: issuing `op.1` (when `op.0`) or
/// destroying it.
pub open spec fn registry_step(before: Seq<u32>, after: Seq<u32>, op: (bool, Entity)) -> bool {
    if op.0 {
        issued(before, after, op.1)
    } else {
        retired(before, after, op.1)
    }
}

/// Once destroyed, a handle stays dead, and no later creation issues it
/// again, over any run of fewer than `u32::MAX` creations and destructions.
/// (Each step moves a slot's version on by at most one, wrapping; the
/// destroyed handle's version comes round again only after `u32::MAX` steps
/// on its slot.)
pub proof fn lemma_destroyed_handle_stays_dead(
    r0: EntityRegistry,
    states: Seq<Seq<u32>>,
    ops: Seq<(bool, Entity)>,
    e: Entity,
)
    requires
        r0.alive().contains(e),
        states.len() == ops.len() + 1,
        ops.len() < u32::MAX,
        retired(r0.versions(), states[0], e),
        forall|k: int|
            0 <= k < ops.len() ==> registry_step(#[trigger] states[k], states[k + 1], ops[k]),
    ensures
        forall|k: int| 0 <= k < states.len() ==> !holds(#[trigger] states[k], e),
        forall|k: int| 0 <= k < ops.len() && (#[trigger] ops[k]).0 ==> ops[k].1 != e,
{
    assert forall|k: int| 0 <= k < states.len() implies !holds(#[trigger] states[k], e) by {
        lemma_version_walk(r0, states, ops, e, k);
    }
    assert forall|k: int| 0 <= k < ops.len() && (#[trigger] ops[k]).0 implies ops[k].1 != e by {
        lemma_version_walk(r0, states, ops, e, k + 1);
        lemma_version_walk(r0, states, ops, e, k);
    }
}

/// After `k` steps, the destroyed handle's slot still exists and its version
/// is between 1 and `k + 1` wrapping steps past the handle's.
proof fn lemma_version_walk(
    r0: EntityRegistry,
    states: Seq<Seq<u32>>,
    ops: Seq<(bool, Entity)>,
    e: Entity,
    k: int,
)
    requires
        r0.alive().contains(e),
        states.len() == ops.len() + 1,
        ops.len() < u32::MAX,
        retired(r0.versions(), states[0], e),
        forall|j: int|
            0 <= j < ops.len() ==> registry_step(#[trigger] states[j], states[j + 1], ops[j]),
        0 <= k < states.len(),
    ensures
        e.index_spec() < states[k].len(),
        1 <= version_distance(e.version_spec(), states[k][e.index_spec() as int]) <= k + 1,
    decreases k,
{
    let i = e.index_spec() as int;
    if k > 0 {
        lemma_version_walk(r0, states, ops, e, k - 1);
        let s = states[k - 1];
        let t = states[k];
        let x = ops[k - 1].1;
        assert(registry_step(s, t, ops[k - 1]));
        if ops[k - 1].0 {
            if x.index_spec() as int == i {
                assert(s[i] % 2 == 0);
                assert(t[i] == s[i] + 1);
            } else {
                assert(t[i] == s[i]);
            }
        } else {
            if holds(s, x) && x.index_spec() as int == i {
                assert(t[i] == bumped(s[i]));
            } else {
                assert(t[i] == s[i]);
            }
        }
    }
}

/// A read-only view of the alive entities, handed to a system for one run.
pub struct Entities<'a> {
    registry: &'a EntityRegistry,
}

impl<'a> Entities<'a> {
    pub closed spec fn registry(self) -> EntityRegistry {
        *self.registry
    }

    pub fn new(registry: &'a EntityRegistry) -> (r: Entities<'a>)
        ensures
            r.registry() == *registry,
    {
        Entities { registry }
    }

    /// Every alive handle, each once.
    pub fn iter(&self) -> (r: Vec<Entity>)
        requires
            self.registry().wf(),
        ensures
            r@.no_duplicates(),
            forall|e: Entity| r@.contains(e) <==> self.registry().alive().contains(e),
            r@.len() == self.registry().alive().len(),
    {
        self.registry.alive_list()
    }

    /// Whether `e` is alive.
    pub fn contains(&self, e: Entity) -> (r: bool)
        requires
            self.registry().wf(),
        ensures
            r == self.registry().alive().contains(e),
    {
        self.registry.contains(e)
    }
}

} // verus!
