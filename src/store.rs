//! Per-type component tables.
use vstd::prelude::*;
use crate::entity::Entity;
use crate::disjoint::pick_disjoint_mut;
use crate::slots::{
    SlotClaims, is_older_version, secondary_contains, secondary_insert,
    secondary_new, secondary_remove, secondary_slots,
};

verus! {

/// A type whose values can be attached to entities.
pub trait Component {

}

/// What a table holds in slot `i`: the version of the handle that owns the slot,
/// and its component.
pub type SlotModel<C> = Map<u32, (u32, C)>;

/// Whether slot model `m` holds a component for `e`.
pub open spec fn model_has<C>(m: SlotModel<C>, e: Entity) -> bool {
    m.contains_key(e.index_spec()) && m[e.index_spec()].0 == e.version_spec()
}

/// The slot model after `insert(e, c)`, with slotmap's secondary-map rules: the
/// null handle is ignored, a handle older than the slot's owner is refused,
/// and otherwise `e` takes the slot (replacing a component it already had, or
/// one left by an older handle of the same slot).
pub open spec fn model_insert<C>(m: SlotModel<C>, e: Entity, c: C) -> SlotModel<C> {
    let i = e.index_spec();
    if i == u32::MAX || (m.contains_key(i) && m[i].0 != e.version_spec() && is_older_version(
        e.version_spec(),
        m[i].0,
    )) {
        m
    } else {
        m.insert(i, (e.version_spec(), c))
    }
}

/// Whether the handles in `es` are pairwise distinct.
pub open spec fn distinct(es: Seq<Entity>) -> bool {
    forall|a: int, b: int| 0 <= a < b < es.len() ==> es[a] != es[b]
}

/// Per-entity access to the components of one type.
pub trait ComponentContainerTrait<C> {
    /// Whether the container is internally consistent.
    spec fn inv(&self) -> bool;

    /// The component held for each entity.
    spec fn model(&self) -> Map<Entity, C>;

    /// The component of `e`, if it has one.
    fn get(&self, e: Entity) -> (r: Option<&C>)
        requires
            self.inv(),
        ensures
            r is Some == self.model().contains_key(e),
            r is Some ==> *r->Some_0 == self.model()[e],
    ;

    /// Exclusive access to the component of `e`, if it has one.
    fn get_mut(&mut self, e: Entity) -> (r: Option<&mut C>)
        requires
            old(self).inv(),
        ensures
            final(self).inv(),
            r is Some == old(self).model().contains_key(e),
            r is None ==> final(self).model() == old(self).model(),
            r is Some ==> *r->Some_0 == old(self).model()[e]
                && final(self).model() == old(self).model().insert(e, *final(r->Some_0)),
    ;

    /// Exclusive access to the components of several entities at once, in
    /// the order given; all or nothing, and never for a repeated entity.
    fn get_many_mut<const N: usize>(&mut self, entities: [Entity; N]) -> (r: Option<Vec<&mut C>>)
        requires
            old(self).inv(),
        ensures
            final(self).inv(),
            r is Some <==> (forall|j: int|
                0 <= j < N ==> old(self).model().contains_key(#[trigger] entities@[j]))
                && distinct(entities@),
            r is None ==> final(self).model() == old(self).model(),
            r is Some ==> {
                let refs = r->Some_0@;
                &&& refs.len() == N
                &&& final(self).model().dom() == old(self).model().dom()
                &&& forall|j: int|
                    0 <= j < N ==> *refs[j] == old(self).model()[entities@[j]]
                        && final(self).model()[entities@[j]] == *final(refs[j])
                &&& forall|e: Entity|
                    old(self).model().contains_key(e) && (forall|j: int|
                        0 <= j < N ==> entities@[j] != e)
                        ==> final(self).model()[e] == old(self).model()[e]
            },
    ;
}

/// Components of one type, keyed by entity. Which handle owns each slot is kept
/// in a slotmap secondary map; the components sit in a column indexed by slot.
///
/// The components are not stored in the secondary map itself: the contracts of
/// a slotmap collection speak through a name for what it holds, and such a
/// name cannot be generic over the component type `C`. A secondary map of unit
/// values has a plain content (slot index to owning version), so slotmap keeps
/// deciding ownership, and the typed column is verified here. For the same
/// reason `get_many_mut` splits the column itself (`pick_disjoint_mut`)
/// rather than calling `SecondaryMap::get_disjoint_mut`.
pub struct ComponentStore<C> {
    claims: SlotClaims,
    values: Vec<Option<C>>,
}

impl<C> ComponentStore<C> {
    /// Slot index to (owning version, component).
    pub closed spec fn slots(self) -> SlotModel<C> {
        Map::new(
            |i: u32| secondary_slots(self.claims).contains_key(i),
            |i: u32| (secondary_slots(self.claims)[i], self.values@[i as int]->Some_0),
        )
    }

    pub closed spec fn wf(self) -> bool {
        &&& forall|i: u32| #[trigger]
            secondary_slots(self.claims).contains_key(i) ==> i < self.values@.len()
                && self.values@[i as int] is Some
        &&& !secondary_slots(self.claims).contains_key(u32::MAX)
        &&& forall|i: int|
            0 <= i < self.values@.len() && (#[trigger] self.values@[i]) is Some ==> i
                <= u32::MAX && secondary_slots(self.claims).contains_key(i as u32)
    }

    /// Whether the table holds a component for `e`.
    pub open spec fn has(self, e: Entity) -> bool {
        model_has(self.slots(), e)
    }

    /// The component held for each entity.
    pub open spec fn entity_view(self) -> Map<Entity, C> {
        Map::new(|e: Entity| self.has(e), |e: Entity| self.value(e))
    }

    /// The component held for `e` (meaningful when `has(e)`).
    pub open spec fn value(self, e: Entity) -> C {
        self.slots()[e.index_spec()].1
    }

    pub fn new() -> (r: ComponentStore<C>)
        ensures
            r.wf(),
            r.slots().is_empty(),
    {
        let r = ComponentStore { claims: secondary_new(), values: Vec::new() };
        assert(r.slots() =~= Map::empty());
        r
    }

    /// Attaches `c` to `e` under slotmap's secondary-map rules (see
    /// `model_insert`). Returns the component `e` already had, if any.
    pub fn insert(&mut self, e: Entity, c: C) -> (r: Option<C>)
        requires
            old(self).wf(),
        ensures
            final(self).wf(),
            final(self).slots() == model_insert(old(self).slots(), e, c),
            r == (if old(self).has(e) {
                Some(old(self).value(e))
            } else {
                None
            }),
    {
        proof {
            use_type_invariant(e);
        }
        let bits = e.to_bits();
        let idx = e.index() as usize;
        let ghost m = old(self).slots();
        if secondary_contains(&self.claims, bits) {
            let slot = &mut self.values[idx];
            let prev = slot.take();
            *slot = Some(c);
            proof {
                assert(self.slots() =~= model_insert(m, e, c));
            }
            return prev;
        }
        secondary_insert(&mut self.claims, bits);
        let ghost s1 = secondary_slots(self.claims);
        if secondary_contains(&self.claims, bits) {
            while self.values.len() <= idx
                invariant
                    idx == e.index_spec(),
                    secondary_slots(self.claims) == s1,
                    forall|i: int|
                        0 <= i < old(self).values@.len() ==> self.values@[i]
                            == old(self).values@[i],
                    forall|i: int|
                        old(self).values@.len() <= i < self.values@.len() ==> self.values@[i]
                            is None,
                    self.values@.len() >= old(self).values@.len(),
                decreases idx + 1 - self.values.len(),
            {
                self.values.push(None);
            }
            self.values[idx] = Some(c);
            proof {
                let s0 = secondary_slots(old(self).claims);
                assert(s1 == s0.insert(e.index_spec(), e.version_spec()));
                assert forall|i: int|
                    0 <= i < self.values@.len() && (#[trigger] self.values@[i]) is Some implies i
                    <= u32::MAX && s1.contains_key(i as u32) by {
                    if i != idx && i < old(self).values@.len() {
                        assert(old(self).values@[i] is Some);
                    }
                }
                assert(self.slots() =~= model_insert(m, e, c));
            }
        } else {
            proof {
                assert(self.slots() =~= model_insert(m, e, c));
            }
        }
        None
    }

    /// Detaches and returns the component of `e`, if it has one.
    pub fn remove(&mut self, e: Entity) -> (r: Option<C>)
        requires
            old(self).wf(),
        ensures
            final(self).wf(),
            old(self).has(e) ==> r == Some(old(self).value(e)) && final(self).slots()
                == old(self).slots().remove(e.index_spec()),
            !old(self).has(e) ==> r is None && final(self).slots() == old(self).slots(),
    {
        proof {
            use_type_invariant(e);
        }
        let bits = e.to_bits();
        if secondary_remove(&mut self.claims, bits) {
            let r = self.values[e.index() as usize].take();
            proof {
                assert(self.slots() =~= old(self).slots().remove(e.index_spec()));
            }
            r
        } else {
            None
        }
    }

    /// Whether `e` has a component here.
    pub fn contains(&self, e: Entity) -> (r: bool)
        requires
            self.wf(),
        ensures
            r == self.has(e),
    {
        proof {
            use_type_invariant(e);
        }
        secondary_contains(&self.claims, e.to_bits())
    }

    /// The component of `e`, if it has one.
    pub fn get(&self, e: Entity) -> (r: Option<&C>)
        requires
            self.wf(),
        ensures
            r is Some == self.has(e),
            r is Some ==> *r->Some_0 == self.value(e),
    {
        if self.contains(e) {
            self.values[e.index() as usize].as_ref()
        } else {
            None
        }
    }

    /// Exclusive access to the component of `e`, if it has one.
    pub fn get_mut(&mut self, e: Entity) -> (r: Option<&mut C>)
        requires
            old(self).wf(),
        ensures
            r is Some == old(self).has(e),
            r is Some ==> *r->Some_0 == old(self).value(e) && final(self).wf()
                && final(self).slots() == old(self).slots().insert(
                e.index_spec(),
                (e.version_spec(), *final(r->Some_0)),
            ),
            r is None ==> *final(self) == *old(self),
    {
        if self.contains(e) {
            match &mut self.values[e.index() as usize] {
                Some(c) => Some(c),
                None => None,
            }
        } else {
            None
        }
    }

    /// Whether every handle in `es` has a component here.
    pub open spec fn has_all(self, es: Seq<Entity>) -> bool {
        forall|j: int| 0 <= j < es.len() ==> self.has(#[trigger] es[j])
    }

    /// Exclusive access to the components of several entities at once, in the
    /// order given. Fails, changing nothing, unless every handle has a
    /// component here and no handle is repeated.
    pub fn get_many_mut<const N: usize>(&mut self, entities: [Entity; N]) -> (r: Option<
        Vec<&mut C>,
    >)
        requires
            old(self).wf(),
        ensures
            r is Some <==> old(self).has_all(entities@) && distinct(entities@),
            r is None ==> *final(self) == *old(self),
            r is Some ==> {
                let refs = r->Some_0@;
                &&& refs.len() == N
                &&& final(self).wf()
                &&& final(self).slots().dom() == old(self).slots().dom()
                &&& forall|j: int|
                    0 <= j < N ==> *refs[j] == old(self).value(entities@[j])
                        && final(self).slots()[entities@[j].index_spec()] == (
                        entities@[j].version_spec(),
                        *final(refs[j]),
                    )
                &&& forall|i: u32|
                    old(self).slots().contains_key(i) && (forall|j: int|
                        0 <= j < N ==> entities@[j].index_spec() != i)
                        ==> final(self).slots()[i] == old(self).slots()[i]
            },
    {
        let mut k: usize = 0;
        while k < N
            invariant
                k <= N,
                entities@.len() == N,
                *self == *old(self),
                self.wf(),
                forall|j: int| 0 <= j < k ==> old(self).has(#[trigger] entities@[j]),
                forall|a: int, b: int| 0 <= a < b < k ==> entities@[a] != entities@[b],
            decreases N - k,
        {
            if !self.contains(entities[k]) {
                return None;
            }
            let mut t: usize = 0;
            while t < k
                invariant
                    t <= k < N,
                    entities@.len() == N,
                    forall|b: int| 0 <= b < t ==> entities@[b] != entities@[k as int],
                decreases k - t,
            {
                if entities[t] == entities[k] {
                    return None;
                }
                t = t + 1;
            }
            k = k + 1;
        }
        let mut picks: Vec<usize> = Vec::new();
        let mut k: usize = 0;
        while k < N
            invariant
                k <= N,
                entities@.len() == N,
                picks@.len() == k,
                forall|j: int| 0 <= j < k ==> picks@[j] == (#[trigger] entities@[j]).index_spec(),
            decreases N - k,
        {
            picks.push(entities[k].index() as usize);
            k = k + 1;
        }
        proof {
            assert forall|a: int, b: int|
                0 <= a < picks@.len() && 0 <= b < picks@.len() && a != b implies picks@[a]
                != picks@[b] by {
                Entity::lemma_eq(entities@[a], entities@[b]);
                assert(self.has(entities@[a]) && self.has(entities@[b]));
                if a < b {
                    assert(entities@[a] != entities@[b]);
                } else {
                    assert(entities@[b] != entities@[a]);
                }
            }
            assert forall|j: int| 0 <= j < picks@.len() implies picks@[j] < self.values@.len() by {
                assert(self.has(entities@[j]));
            }
        }
        let vlen = self.values.len();
        let ghost vals = self.values@;
        let ghost fs = *final(self);
        let mut slots = pick_disjoint_mut(self.values.as_mut_slice(), &picks);
        let ghost full = slots@;
        proof {
            assert forall|j: int| 0 <= j < full.len() implies (*full[j]) is Some by {
                assert(old(self).has(entities@[j]));
            }
        }
        let mut out: Vec<&mut C> = Vec::new();
        while slots.len() > 0
            invariant
                out@.len() + slots@.len() == full.len(),
                slots@ == full.subrange(out@.len() as int, full.len() as int),
                forall|j: int| 0 <= j < full.len() ==> (*full[j]) is Some,
                forall|j: int|
                    0 <= j < out@.len() ==> Some(*out@[j]) == *full[j] && Some(*final(out@[j]))
                        == *final(full[j]),
            decreases slots@.len(),
        {
            let s = slots.remove(0);
            match s {
                Some(c) => out.push(c),
                None => {},
            }
        }
        proof {
            let fv = fs.values@;
            let m = old(self).slots();
            assert(fv.len() == vals.len());
            assert(vals.len() == vlen);
            assert(fs.claims == old(self).claims);
            assert(forall|j: int| 0 <= j < N ==> fv[picks@[j] as int] == *final(full[j]));
            assert forall|i: int|
                0 <= i < fv.len() && !picks@.contains(i as usize) implies fv[i] == vals[i] by {}
            assert forall|i: int| 0 <= i < fv.len() && (#[trigger] fv[i]) is Some implies i
                <= u32::MAX && secondary_slots(fs.claims).contains_key(i as u32) by {
                if exists|j: int| 0 <= j < picks@.len() && picks@[j] == i {
                    let j = choose|j: int| 0 <= j < picks@.len() && picks@[j] == i;
                    assert(old(self).has(entities@[j]));
                    assert(i == entities@[j].index_spec());
                } else {
                    assert(!picks@.contains(i as usize));
                    assert(fv[i] == vals[i]);
                    assert(old(self).values@[i] is Some);
                }
            }
            assert forall|i: u32| #[trigger]
                secondary_slots(fs.claims).contains_key(i) implies i < fv.len() && fv[i as int] is Some by {
                if picks@.contains(i as usize) {
                    let j = choose|j: int| 0 <= j < picks@.len() && picks@[j] == i as usize;
                    assert(Some(*final(out@[j])) == *final(full[j]));
                } else {
                    assert(fv[i as int] == vals[i as int]);
                }
            }
            assert(fs.wf());
            assert(fs.slots().dom() =~= m.dom());
            assert forall|j: int| 0 <= j < N implies *out@[j] == old(self).value(entities@[j])
                && fs.slots()[entities@[j].index_spec()] == (
                entities@[j].version_spec(),
                *final(out@[j]),
            ) by {
                assert(old(self).has(entities@[j]));
                assert(Some(*final(out@[j])) == *final(full[j]));
            }
            assert forall|i: u32|
                m.contains_key(i) && (forall|j: int|
                    0 <= j < N ==> entities@[j].index_spec() != i) implies fs.slots()[i] == m[i] by {
                if picks@.contains(i as usize) {
                    let j = choose|j: int| 0 <= j < picks@.len() && picks@[j] == i as usize;
                    assert(entities@[j].index_spec() == i);
                }
                assert(fv[i as int] == vals[i as int]);
            }
        }
        Some(out)
    }
}

impl<C> ComponentContainerTrait<C> for ComponentStore<C> {
    open spec fn inv(&self) -> bool {
        self.wf()
    }

    open spec fn model(&self) -> Map<Entity, C> {
        self.entity_view()
    }

    fn get(&self, e: Entity) -> (r: Option<&C>) {
        ComponentStore::get(self, e)
    }

    fn get_mut(&mut self, e: Entity) -> (r: Option<&mut C>) {
        let ghost fs = *final(self);
        let r = ComponentStore::get_mut(self, e);
        proof {
            if r is Some {
                lemma_view_after_slot_write(*old(self), fs, e, *final(r->Some_0));
            }
        }
        r
    }

    fn get_many_mut<const N: usize>(&mut self, entities: [Entity; N]) -> (r: Option<Vec<&mut C>>) {
        proof {
            assert forall|j: int| 0 <= j < N implies (self.entity_view().contains_key(#[trigger] entities@[j])
                <==> self.has(entities@[j])) by {}
        }
        let ghost fs = *final(self);
        let r = ComponentStore::get_many_mut(self, entities);
        proof {
            if r is Some {
                let before = *old(self);
                let after = fs;
                assert forall|x: Entity| after.has(x) == before.has(x) by {
                    if exists|j: int| 0 <= j < N && entities@[j].index_spec() == x.index_spec() {
                        let j = choose|j: int| 0 <= j < N && entities@[j].index_spec() == x.index_spec();
                        assert(before.has(entities@[j]));
                        assert(*r->Some_0@[j] == before.value(entities@[j]));
                        assert(after.slots()[x.index_spec()].0 == before.slots()[x.index_spec()].0);
                    }
                }
                assert(after.entity_view().dom() =~= before.entity_view().dom());
                assert forall|x: Entity|
                    before.has(x) && (forall|j: int| 0 <= j < N ==> entities@[j] != x) implies after.value(x)
                    == before.value(x) by {
                    assert forall|j: int| 0 <= j < N implies entities@[j].index_spec() != x.index_spec() by {
                        Entity::lemma_eq(entities@[j], x);
                        assert(before.has(entities@[j]));
                    }
                }
            }
        }
        r
    }
}

/// Writing `c` into the slot of `e` (which `e` owns) changes the entity view
/// at `e` alone.
proof fn lemma_view_after_slot_write<C>(before: ComponentStore<C>, after: ComponentStore<C>, e: Entity, c: C)
    requires
        before.has(e),
        after.slots() == before.slots().insert(e.index_spec(), (e.version_spec(), c)),
    ensures
        after.entity_view() == before.entity_view().insert(e, c),
{
    assert forall|x: Entity| after.has(x) == (before.has(x) || x == e) by {
        Entity::lemma_eq(x, e);
    }
    assert forall|x: Entity| after.has(x) && x != e implies after.value(x) == before.value(x) by {
        Entity::lemma_eq(x, e);
    }
    assert(after.entity_view() =~= before.entity_view().insert(e, c));
}

} // verus!
