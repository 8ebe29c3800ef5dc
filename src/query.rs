//! Queries: per-entity access to one component type, valid only for entities
//! alive in the registry the query is bound to.
use vstd::prelude::*;
use std::marker::PhantomData;
use crate::entity::Entity;
use crate::registry::EntityRegistry;
use crate::store::{ComponentStore, distinct};
use crate::borrow::{Borrow, BorrowType};

verus! {

/// What a query bound to `reg` and `store` yields for `e`: the component, when
/// `e` is alive and has one.
pub open spec fn lookup<C>(reg: EntityRegistry, store: Option<ComponentStore<C>>, e: Entity) -> Option<C> {
    match store {
        Some(s) => if reg.alive().contains(e) && s.has(e) {
            Some(s.value(e))
        } else {
            None
        },
        None => None,
    }
}

/// Combines the results of two query terms: the pair when both succeed,
/// nothing when either fails. An optional term succeeds on its own with an
/// empty value, so wrap it in `Some` before combining.
pub fn both<A, B>(a: Option<A>, b: Option<B>) -> (r: Option<(A, B)>)
    ensures
        r is Some <==> a is Some && b is Some,
        r matches Some(p) ==> a == Some(p.0) && b == Some(p.1),
{
    match (a, b) {
        (Some(x), Some(y)) => Some((x, y)),
        _ => None,
    }
}

/// Marks shared access to components of type `C` in a parameter list.
pub struct Ref<C> {
    marker: PhantomData<C>,
}

/// Marks exclusive access to components of type `C` in a parameter list.
pub struct RefMut<C> {
    marker: PhantomData<C>,
}

impl<C> Ref<C> {
    /// The borrow that shared access to the component table `key` declares.
    pub fn borrow(key: u64) -> (r: Borrow)
        ensures
            r.key == key,
            r.kind == BorrowType::Immutable,
    {
        Borrow { key, kind: BorrowType::Immutable }
    }
}

impl<C> RefMut<C> {
    /// The borrow that exclusive access to the component table `key` declares.
    pub fn borrow(key: u64) -> (r: Borrow)
        ensures
            r.key == key,
            r.kind == BorrowType::Mutable,
    {
        Borrow { key, kind: BorrowType::Mutable }
    }
}

/// Shared access to the components of one type. `store` is `None` when no
/// component of that type was ever added.
pub struct Query<'a, C> {
    entities: &'a EntityRegistry,
    store: Option<&'a ComponentStore<C>>,
}

impl<'a, C> Query<'a, C> {
    pub closed spec fn registry(self) -> EntityRegistry {
        *self.entities
    }

    pub closed spec fn table(self) -> Option<ComponentStore<C>> {
        match self.store {
            Some(s) => Some(*s),
            None => None,
        }
    }

    pub open spec fn wf(self) -> bool {
        &&& self.registry().wf()
        &&& self.table() matches Some(s) ==> s.wf()
    }

    pub fn new(entities: &'a EntityRegistry, store: Option<&'a ComponentStore<C>>) -> (r: Query<'a, C>)
        ensures
            r.registry() == *entities,
            r.table() == (match store {
                Some(s) => Some(*s),
                None => None::<ComponentStore<C>>,
            }),
    {
        Query { entities, store }
    }

    /// The component of `e`, when `e` is alive and has one.
    pub fn get(&self, e: Entity) -> (r: Option<&C>)
        requires
            self.wf(),
        ensures
            r is Some == lookup(self.registry(), self.table(), e) is Some,
            r is Some ==> Some(*r->Some_0) == lookup(self.registry(), self.table(), e),
    {
        if !self.entities.contains(e) {
            return None;
        }
        match self.store {
            Some(s) => s.get(e),
            None => None,
        }
    }

    /// Every alive entity that has a component, with that component, each once.
    pub fn iter(&self) -> (r: Vec<(Entity, &C)>)
        requires
            self.wf(),
        ensures
            forall|j: int|
                0 <= j < r@.len() ==> lookup(self.registry(), self.table(), (#[trigger] r@[j]).0)
                    == Some(*r@[j].1),
            forall|e: Entity|
                lookup(self.registry(), self.table(), e) is Some ==> exists|j: int|
                    0 <= j < r@.len() && (#[trigger] r@[j]).0 == e,
            forall|a: int, b: int| 0 <= a < b < r@.len() ==> r@[a].0 != r@[b].0,
    {
        let all = self.entities.alive_list();
        let mut out: Vec<(Entity, &C)> = Vec::new();
        let ghost mut pos: Seq<int> = Seq::empty();
        let mut k: usize = 0;
        while k < all.len()
            invariant
                self.wf(),
                k <= all@.len(),
                all@.no_duplicates(),
                forall|e: Entity| all@.contains(e) <==> self.registry().alive().contains(e),
                pos.len() == out@.len(),
                forall|j: int|
                    0 <= j < out@.len() ==> lookup(self.registry(), self.table(), (#[trigger] out@[j]).0)
                        == Some(*out@[j].1),
                forall|j: int| 0 <= j < pos.len() ==> 0 <= #[trigger] pos[j] < k && all@[pos[j]] == out@[j].0,
                forall|a: int, b: int| 0 <= a < b < pos.len() ==> pos[a] < pos[b],
                forall|t: int|
                    0 <= t < k && lookup(self.registry(), self.table(), #[trigger] all@[t]) is Some
                        ==> exists|j: int|
                        0 <= j < out@.len() && (#[trigger] out@[j]).0 == all@[t],
            decreases all@.len() - k,
        {
            let e = all[k];
            let ghost out0 = out@;
            match self.get(e) {
                Some(c) => {
                    out.push((e, c));
                    proof {
                        pos = pos.push(k as int);
                    }
                },
                None => {},
            }
            proof {
                assert forall|t: int|
                    0 <= t < k + 1 && lookup(self.registry(), self.table(), #[trigger] all@[t])
                        is Some implies exists|j: int|
                        0 <= j < out@.len() && (#[trigger] out@[j]).0 == all@[t] by {
                    if t == k {
                        assert(out@[out@.len() - 1].0 == all@[t]);
                    } else {
                        let j = choose|j: int| 0 <= j < out0.len() && (#[trigger] out0[j]).0 == all@[t];
                        assert(out@[j] == out0[j]);
                    }
                }
            }
            k = k + 1;
        }
        proof {
            assert forall|e: Entity|
                lookup(self.registry(), self.table(), e) is Some implies exists|j: int|
                    0 <= j < out@.len() && (#[trigger] out@[j]).0 == e by {
                assert(all@.contains(e));
                let t = choose|t: int| 0 <= t < all@.len() && all@[t] == e;
                assert(lookup(self.registry(), self.table(), all@[t]) is Some);
            }
            assert forall|a: int, b: int| 0 <= a < b < out@.len() implies out@[a].0 != out@[b].0 by {
                assert(pos[a] < pos[b]);
                assert(all@[pos[a]] != all@[pos[b]]);
            }
        }
        out
    }
}

/// Exclusive access to the components of one type. `store` is `None` when no
/// component of that type was ever added.
pub struct QueryMut<'a, C> {
    entities: &'a EntityRegistry,
    store: Option<&'a mut ComponentStore<C>>,
}

impl<'a, C> QueryMut<'a, C> {
    pub closed spec fn registry(self) -> EntityRegistry {
        *self.entities
    }

    pub closed spec fn table(self) -> Option<ComponentStore<C>> {
        match self.store {
            Some(s) => Some(*s),
            None => None,
        }
    }

    pub open spec fn wf(self) -> bool {
        &&& self.registry().wf()
        &&& self.table() matches Some(s) ==> s.wf()
    }

    pub fn new(entities: &'a EntityRegistry, store: Option<&'a mut ComponentStore<C>>) -> (r: QueryMut<'a, C>)
        ensures
            r.registry() == *entities,
            r.table() == (match store {
                Some(s) => Some(*s),
                None => None::<ComponentStore<C>>,
            }),
    {
        QueryMut { entities, store }
    }

    /// The component of `e`, when `e` is alive and has one.
    pub fn get(&self, e: Entity) -> (r: Option<&C>)
        requires
            self.wf(),
        ensures
            r is Some == lookup(self.registry(), self.table(), e) is Some,
            r is Some ==> Some(*r->Some_0) == lookup(self.registry(), self.table(), e),
    {
        if !self.entities.contains(e) {
            return None;
        }
        match &self.store {
            Some(s) => s.get(e),
            None => None,
        }
    }

    /// Exclusive access to the component of `e`, when `e` is alive and has one.
    pub fn get_mut(&mut self, e: Entity) -> (r: Option<&mut C>)
        requires
            old(self).wf(),
        ensures
            final(self).registry() == old(self).registry(),
            r is Some == lookup(old(self).registry(), old(self).table(), e) is Some,
            r is None ==> final(self).table() == old(self).table(),
            r is Some ==> Some(*r->Some_0) == lookup(old(self).registry(), old(self).table(), e)
                && final(self).wf() && final(self).table()->Some_0.slots()
                == old(self).table()->Some_0.slots().insert(
                e.index_spec(),
                (e.version_spec(), *final(r->Some_0)),
            ),
    {
        if !self.entities.contains(e) {
            return None;
        }
        match &mut self.store {
            Some(s) => s.get_mut(e),
            None => None,
        }
    }

    /// Exclusive access to the components of several entities at once, in the
    /// order given. All or nothing: fails, changing nothing, unless every
    /// handle is alive, has a component, and appears once.
    pub fn get_many_mut<const N: usize>(&mut self, entities: [Entity; N]) -> (r: Option<Vec<&mut C>>)
        requires
            old(self).wf(),
        ensures
            final(self).registry() == old(self).registry(),
            r is Some <==> old(self).table() is Some && (forall|j: int|
                0 <= j < N ==> lookup(old(self).registry(), old(self).table(), #[trigger] entities@[j]) is Some)
                && distinct(entities@),
            r is None ==> final(self).table() == old(self).table(),
            r is Some ==> {
                let refs = r->Some_0@;
                let before = old(self).table()->Some_0;
                let after = final(self).table()->Some_0;
                &&& refs.len() == N
                &&& final(self).table() is Some
                &&& after.wf()
                &&& after.slots().dom() == before.slots().dom()
                &&& forall|j: int|
                    0 <= j < N ==> *refs[j] == before.value(entities@[j])
                        && after.slots()[entities@[j].index_spec()] == (
                        entities@[j].version_spec(),
                        *final(refs[j]),
                    )
                &&& forall|i: u32|
                    before.slots().contains_key(i) && (forall|j: int|
                        0 <= j < N ==> entities@[j].index_spec() != i) ==> after.slots()[i] == before.slots()[i]
            },
    {
        let mut k: usize = 0;
        while k < N
            invariant
                k <= N,
                entities@.len() == N,
                self.wf(),
                *self == *old(self),
                forall|j: int| 0 <= j < k ==> old(self).registry().alive().contains(#[trigger] entities@[j]),
            decreases N - k,
        {
            if !self.entities.contains(entities[k]) {
                return None;
            }
            k = k + 1;
        }
        proof {
            if let Some(t) = self.table() {
                assert forall|j: int| 0 <= j < N implies (lookup(
                    self.registry(),
                    self.table(),
                    entities@[j],
                ) is Some
                    <==> t.has(entities@[j])) by {
                    assert(self.registry().alive().contains(entities@[j]));
                }
            }
        }
        match &mut self.store {
            Some(s) => s.get_many_mut(entities),
            None => None,
        }
    }
}

} // verus!
