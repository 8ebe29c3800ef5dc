//! Structural operations that tie a component table to the registry: a
//! component can only be attached to, or detached from, an alive entity.
//!
//! Destroying an entity does not sweep the tables. Its components stay where
//! they are until removed, or until a newer handle of the same slot takes the
//! slot; queries never yield them, since every lookup checks liveness first.
use vstd::prelude::*;
use crate::entity::Entity;
use crate::registry::EntityRegistry;
use crate::store::{ComponentStore, model_insert};
use crate::query::lookup;

verus! {

/// How a table changes when `c` is added for `e`: attached under the table's
/// rules when `e` is alive, untouched otherwise.
pub open spec fn added<C>(
    reg: EntityRegistry,
    before: ComponentStore<C>,
    after: ComponentStore<C>,
    e: Entity,
    c: C,
) -> bool {
    if reg.alive().contains(e) {
        after.wf() && after.slots() == model_insert(before.slots(), e, c)
    } else {
        after == before
    }
}

/// Attaches `c` to `e` when `e` is alive; a dead handle is ignored.
pub fn add_component<C>(reg: &EntityRegistry, store: &mut ComponentStore<C>, e: Entity, c: C)
    requires
        reg.wf(),
        old(store).wf(),
    ensures
        final(store).wf(),
        added(*reg, *old(store), *final(store), e, c),
{
    if reg.contains(e) {
        store.insert(e, c);
    }
}

/// Detaches and returns the component of `e`; `None` when `e` is dead or has
/// no component.
pub fn remove_component<C>(reg: &EntityRegistry, store: &mut ComponentStore<C>, e: Entity) -> (r:
    Option<C>)
    requires
        reg.wf(),
        old(store).wf(),
    ensures
        final(store).wf(),
        r == lookup(*reg, Some(*old(store)), e),
        r is Some ==> final(store).slots() == old(store).slots().remove(e.index_spec()),
        r is None ==> final(store).slots() == old(store).slots(),
{
    if reg.contains(e) {
        store.remove(e)
    } else {
        None
    }
}

/// Adding a component to a dead entity changes nothing, and a query for that
/// component on that entity still finds nothing.
pub proof fn lemma_add_to_dead_entity<C>(
    reg: EntityRegistry,
    before: ComponentStore<C>,
    after: ComponentStore<C>,
    e: Entity,
    c: C,
)
    requires
        !reg.alive().contains(e),
        added(reg, before, after, e, c),
    ensures
        after == before,
        lookup(reg, Some(after), e) is None,
{
}

} // verus!
