use thallium_ecs::{
    add_component, both, plan_run, remove_component, Borrow, BorrowType, Commands, Component,
    ComponentStore, Entities, Entity, EntityRegistry, Param, Query, QueryMut, Ref, RefMut,
    ResourceCell, RunError, SystemSet, SystemWrapper,
};
use thallium_ecs::borrow::{concat_borrows, find_conflict};
use thallium_ecs::disjoint::pick_disjoint_mut;
use thallium_ecs::ComponentContainerTrait;

#[derive(Debug, PartialEq)]
struct Foo {
    value: i32,
}
impl Component for Foo {}

#[derive(Debug, PartialEq)]
struct Bar {
    value: i32,
}
impl Component for Bar {}

#[test]
fn destroyed_entity_is_dead_and_never_reissued() {
    let mut reg = EntityRegistry::new();
    let e = reg.create();
    assert!(reg.contains(e));
    assert!(reg.destroy(e));
    assert!(!reg.contains(e));
    let n = reg.create();
    assert_eq!(n.index(), e.index());
    assert_ne!(n, e);
    assert_eq!(n.version(), e.version() + 2);
    assert!(reg.contains(n));
    assert!(!reg.contains(e));
}

#[test]
fn destroying_twice_is_a_no_op() {
    let mut reg = EntityRegistry::new();
    let e = reg.create();
    let other = reg.create();
    assert!(reg.destroy(e));
    assert!(!reg.destroy(e));
    assert!(reg.contains(other));
    assert_eq!(reg.alive_list(), vec![other]);
}

#[test]
fn created_entities_are_distinct_and_listed_once() {
    let mut reg = EntityRegistry::new();
    let a = reg.create();
    let b = reg.create();
    let c = reg.create();
    assert_ne!(a, b);
    assert_ne!(b, c);
    assert_ne!(a, c);
    assert_eq!(a.index(), 1);
    assert_eq!(b.index(), 2);
    assert_eq!(a.version(), 1);
    assert_eq!(reg.alive_list(), vec![a, b, c]);
    reg.destroy(b);
    assert_eq!(Entities::new(&reg).iter(), vec![a, c]);
    assert!(Entities::new(&reg).contains(a));
    assert!(!Entities::new(&reg).contains(b));
}

#[test]
fn empty_registry_lists_nothing() {
    let reg = EntityRegistry::new();
    assert!(reg.alive_list().is_empty());
    assert!(reg.has_room());
}

#[test]
fn null_entity_is_never_alive_and_takes_no_component() {
    let mut reg = EntityRegistry::new();
    let _ = reg.create();
    let null = Entity::default();
    assert_eq!(null.index(), u32::MAX);
    assert_eq!(null.version(), 1);
    assert!(!reg.contains(null));
    let mut store: ComponentStore<Foo> = ComponentStore::new();
    assert_eq!(store.insert(null, Foo { value: 1 }), None);
    assert!(!store.contains(null));
}

#[test]
fn entity_bits_round_trip() {
    let mut reg = EntityRegistry::new();
    let a = reg.create();
    reg.destroy(a);
    let b = reg.create();
    let bits = b.to_bits();
    assert_eq!(bits, (3u64 << 32) | 1);
    assert_eq!(Entity::from_bits(bits), b);
    assert_eq!(Entity::from_bits((4u64 << 32) | 7).version(), 5);
    assert_eq!(Entity::from_bits((4u64 << 32) | 7).index(), 7);
}

#[test]
fn adding_to_destroyed_entity_is_a_no_op() {
    let mut reg = EntityRegistry::new();
    let mut store: ComponentStore<Foo> = ComponentStore::new();
    let e = reg.create();
    reg.destroy(e);
    add_component(&reg, &mut store, e, Foo { value: 7 });
    assert!(!store.contains(e));
    let q = Query::new(&reg, Some(&store));
    assert!(q.get(e).is_none());
}

#[test]
fn destroyed_entity_is_filtered_from_queries() {
    let mut reg = EntityRegistry::new();
    let mut store: ComponentStore<Foo> = ComponentStore::new();
    let e = reg.create();
    add_component(&reg, &mut store, e, Foo { value: 7 });
    reg.destroy(e);
    // The table keeps the stale component; queries skip it.
    assert!(store.contains(e));
    let q = Query::new(&reg, Some(&store));
    assert!(q.get(e).is_none());
    assert!(q.iter().is_empty());
    assert_eq!(remove_component(&reg, &mut store, e), None);
}

#[test]
fn remove_component_returns_the_value() {
    let mut reg = EntityRegistry::new();
    let mut store: ComponentStore<Foo> = ComponentStore::new();
    let e = reg.create();
    add_component(&reg, &mut store, e, Foo { value: 9 });
    assert_eq!(remove_component(&reg, &mut store, e), Some(Foo { value: 9 }));
    assert_eq!(remove_component(&reg, &mut store, e), None);
    assert!(!store.contains(e));
}

#[test]
fn insert_replaces_and_returns_previous() {
    let mut reg = EntityRegistry::new();
    let mut store: ComponentStore<Foo> = ComponentStore::new();
    let e = reg.create();
    assert_eq!(store.insert(e, Foo { value: 1 }), None);
    assert_eq!(store.insert(e, Foo { value: 2 }), Some(Foo { value: 1 }));
    assert_eq!(store.get(e), Some(&Foo { value: 2 }));
}

#[test]
fn newer_handle_takes_the_slot_and_older_is_refused() {
    let mut reg = EntityRegistry::new();
    let mut store: ComponentStore<Foo> = ComponentStore::new();
    let old = reg.create();
    store.insert(old, Foo { value: 1 });
    reg.destroy(old);
    let new = reg.create();
    assert_eq!(new.index(), old.index());
    assert_eq!(store.insert(new, Foo { value: 2 }), None);
    assert!(store.contains(new));
    assert!(!store.contains(old));
    assert_eq!(store.insert(old, Foo { value: 3 }), None);
    assert!(!store.contains(old));
    assert_eq!(store.get(new), Some(&Foo { value: 2 }));
}

#[test]
fn get_mut_writes_through() {
    let mut reg = EntityRegistry::new();
    let mut store: ComponentStore<Foo> = ComponentStore::new();
    let e = reg.create();
    let f = reg.create();
    store.insert(e, Foo { value: 1 });
    {
        let mut q = QueryMut::new(&reg, Some(&mut store));
        q.get_mut(e).unwrap().value = 10;
        assert!(q.get_mut(f).is_none());
        assert_eq!(q.get(e), Some(&Foo { value: 10 }));
    }
    assert_eq!(store.get_mut(e).map(|c| c.value), Some(10));
}

#[test]
fn get_many_mut_gives_independent_references() {
    let mut reg = EntityRegistry::new();
    let mut store: ComponentStore<Foo> = ComponentStore::new();
    let a = reg.create();
    let b = reg.create();
    let c = reg.create();
    store.insert(a, Foo { value: 1 });
    store.insert(b, Foo { value: 2 });
    store.insert(c, Foo { value: 3 });
    {
        let mut q = QueryMut::new(&reg, Some(&mut store));
        let mut refs = q.get_many_mut([c, a]).unwrap();
        assert_eq!(refs.len(), 2);
        assert_eq!(refs[0].value, 3);
        assert_eq!(refs[1].value, 1);
        refs[0].value = 30;
        assert_eq!(refs[1].value, 1);
        refs[1].value = 10;
        assert_eq!(refs[0].value, 30);
    }
    assert_eq!(store.get(a), Some(&Foo { value: 10 }));
    assert_eq!(store.get(b), Some(&Foo { value: 2 }));
    assert_eq!(store.get(c), Some(&Foo { value: 30 }));
}

#[test]
fn get_many_mut_is_all_or_nothing() {
    let mut reg = EntityRegistry::new();
    let mut store: ComponentStore<Foo> = ComponentStore::new();
    let a = reg.create();
    let b = reg.create();
    let bare = reg.create();
    let dead = reg.create();
    store.insert(a, Foo { value: 1 });
    store.insert(b, Foo { value: 2 });
    store.insert(dead, Foo { value: 4 });
    reg.destroy(dead);
    let mut q = QueryMut::new(&reg, Some(&mut store));
    assert!(q.get_many_mut([a, dead]).is_none());
    assert!(q.get_many_mut([a, bare]).is_none());
    assert!(q.get_many_mut([a, b, a]).is_none());
    assert!(q.get_many_mut([a, b]).is_some());
    assert_eq!(q.get_many_mut::<0>([]).map(|v| v.len()), Some(0));
}

#[test]
fn query_without_table_finds_nothing() {
    let mut reg = EntityRegistry::new();
    let a = reg.create();
    let q: Query<'_, Foo> = Query::new(&reg, None);
    assert!(q.get(a).is_none());
    assert!(q.iter().is_empty());
    let mut qm: QueryMut<'_, Foo> = QueryMut::new(&reg, None);
    assert!(qm.get_mut(a).is_none());
    assert!(qm.get_many_mut::<0>([]).is_none());
}

#[test]
fn store_get_many_mut_rejects_duplicates() {
    let mut reg = EntityRegistry::new();
    let mut store: ComponentStore<Foo> = ComponentStore::new();
    let a = reg.create();
    store.insert(a, Foo { value: 1 });
    assert!(store.get_many_mut([a, a]).is_none());
    assert_eq!(store.get_many_mut([a]).map(|v| v.len()), Some(1));
}

#[test]
fn pick_disjoint_mut_follows_pick_order() {
    let mut items = vec![10, 20, 30, 40];
    {
        let refs = pick_disjoint_mut(&mut items, &vec![3, 0]);
        assert_eq!(*refs[0], 40);
        assert_eq!(*refs[1], 10);
        for r in refs {
            *r += 1;
        }
    }
    assert_eq!(items, vec![11, 20, 30, 41]);
}

#[test]
fn both_requires_both_terms() {
    assert_eq!(both(Some(1), Some('a')), Some((1, 'a')));
    assert_eq!(both(Some(1), None::<char>), None);
    assert_eq!(both(None::<i32>, Some('a')), None);
    assert_eq!(both(Some(1), Some(None::<char>)), Some((1, None)));
}

#[test]
fn query_iter_pairs_entities_with_components() {
    let mut reg = EntityRegistry::new();
    let mut foo: ComponentStore<Foo> = ComponentStore::new();
    let mut bar: ComponentStore<Bar> = ComponentStore::new();
    let a = reg.create();
    let b = reg.create();
    add_component(&reg, &mut foo, a, Foo { value: 42 });
    add_component(&reg, &mut foo, b, Foo { value: 44 });
    add_component(&reg, &mut bar, b, Bar { value: 0 });
    let qf = Query::new(&reg, Some(&foo));
    let qb = Query::new(&reg, Some(&bar));
    let seen: Vec<(Entity, i32)> = qf.iter().into_iter().map(|(e, c)| (e, c.value)).collect();
    assert_eq!(seen, vec![(a, 42), (b, 44)]);
    assert!(both(qb.get(a), qf.get(a)).is_none());
    assert_eq!(both(qb.get(b), qf.get(b)).map(|(x, y)| (x.value, y.value)), Some((0, 44)));
}

#[test]
fn end_to_end_foo_bar() {
    let mut reg = EntityRegistry::new();
    let mut foo: ComponentStore<Foo> = ComponentStore::new();
    let mut bar: ComponentStore<Bar> = ComponentStore::new();
    let a = reg.create();
    add_component(&reg, &mut foo, a, Foo { value: 42 });
    let b = reg.create();
    add_component(&reg, &mut foo, b, Foo { value: 44 });
    add_component(&reg, &mut bar, b, Bar { value: 0 });
    {
        let mut q = QueryMut::new(&reg, Some(&mut foo));
        let mut refs = q.get_many_mut([a, b]).unwrap();
        refs[0].value += 1;
        refs[1].value -= 1;
    }
    let qf = Query::new(&reg, Some(&foo));
    let qb = Query::new(&reg, Some(&bar));
    let mut paired = 0;
    for (e, c) in qf.iter() {
        assert_eq!(c.value, 43);
        if let Some((x, y)) = both(qb.get(e), qf.get(e)) {
            assert_eq!(e, b);
            assert_eq!(x.value, 0);
            assert_eq!(y.value, 43);
            paired += 1;
        }
    }
    assert_eq!(paired, 1);
}

#[test]
fn deferred_creation_visible_only_after_apply() {
    let mut reg = EntityRegistry::new();
    let mut foo: ComponentStore<Foo> = ComponentStore::new();
    let _ = reg.create();
    let before = reg.alive_list().len();
    let mut commands: Commands<Option<Foo>> = Commands::new();
    commands.create_entity(None);
    commands.create_entity(Some(Foo { value: 5 }));
    assert_eq!(commands.len(), 2);
    assert_eq!(reg.alive_list().len(), before);
    let spawned = commands.apply(&mut reg);
    assert_eq!(spawned.len(), 2);
    assert!(spawned[0].1.is_none());
    assert_ne!(spawned[0].0, spawned[1].0);
    for (e, bundle) in spawned {
        assert!(reg.contains(e));
        if let Some(c) = bundle {
            add_component(&reg, &mut foo, e, c);
        }
    }
    assert_eq!(reg.alive_list().len(), before + 2);
    let q = Query::new(&reg, Some(&foo));
    let with_foo: Vec<Entity> = reg.alive_list().into_iter().filter(|&e| q.get(e).is_some()).collect();
    assert_eq!(with_foo.len(), 1);
    assert_eq!(q.get(with_foo[0]), Some(&Foo { value: 5 }));
}

#[test]
fn resource_cell_replace_and_remove() {
    let mut cell: ResourceCell<u32> = ResourceCell::new();
    assert!(!cell.is_present());
    assert_eq!(cell.insert(1), None);
    assert_eq!(cell.insert(2), Some(1));
    assert!(cell.is_present());
    assert_eq!(cell.remove(), Some(2));
    assert_eq!(cell.remove(), None);
}

#[test]
fn required_resource_missing_aborts_optional_is_empty() {
    let mut cell: ResourceCell<u32> = ResourceCell::new();
    assert!(matches!(cell.lock(7), Err(RunError::MissingResource(7))));
    assert!(matches!(cell.lock_mut(7), Err(RunError::MissingResource(7))));
    assert!(cell.lock_optional().is_none());
    assert!(cell.lock_optional_mut().is_none());
    cell.insert(5);
    assert_eq!(*cell.lock(7).ok().unwrap().get(), 5);
    {
        let mut res = cell.lock_mut(7).ok().unwrap();
        *res.get_mut() += 1;
        assert_eq!(*res.get(), 6);
    }
    assert_eq!(*cell.lock_optional().unwrap().get(), 6);
    *cell.lock_optional_mut().unwrap().get_mut() = 9;
    assert_eq!(cell.remove(), Some(9));
}

#[test]
fn plan_run_missing_required_resource() {
    let params = vec![Param::Res { key: 3, optional: false }, Param::Entities];
    assert_eq!(plan_run(&params, &vec![]), Err(RunError::MissingResource(3)));
    assert_eq!(plan_run(&params, &vec![3]), Ok(()));
    let optional = vec![Param::ResMut { key: 3, optional: true }, Param::Commands];
    assert_eq!(plan_run(&optional, &vec![]), Ok(()));
}

#[test]
fn plan_run_detects_conflicting_locks() {
    let shared_twice = vec![
        Param::Query(vec![Ref::<Foo>::borrow(1)]),
        Param::Query(vec![Ref::<Foo>::borrow(1), Ref::<Bar>::borrow(2)]),
    ];
    assert_eq!(plan_run(&shared_twice, &vec![]), Ok(()));
    let mixed = vec![
        Param::Query(vec![Ref::<Foo>::borrow(1)]),
        Param::Query(vec![RefMut::<Foo>::borrow(1)]),
    ];
    assert_eq!(plan_run(&mixed, &vec![]), Err(RunError::Conflict(1)));
    let resources = vec![
        Param::ResMut { key: 4, optional: false },
        Param::Res { key: 4, optional: true },
    ];
    assert_eq!(plan_run(&resources, &vec![4]), Err(RunError::Conflict(4)));
    assert_eq!(plan_run(&resources, &vec![]), Err(RunError::MissingResource(4)));
}

#[test]
fn borrow_declarations_concatenate() {
    let a = vec![Ref::<Foo>::borrow(1)];
    let b = vec![RefMut::<Bar>::borrow(2), Ref::<Foo>::borrow(1)];
    let c = concat_borrows(&a, &b);
    assert_eq!(c.len(), 3);
    assert_eq!(c[1], Borrow { key: 2, kind: BorrowType::Mutable });
    assert_eq!(find_conflict(&c), None);
    let d = concat_borrows(&c, &vec![RefMut::<Foo>::borrow(1)]);
    assert_eq!(find_conflict(&d), Some(1));
    assert!(Ref::<Foo>::borrow(1).conflicts_with(&RefMut::<Foo>::borrow(1)));
    assert!(!Ref::<Foo>::borrow(1).conflicts_with(&Ref::<Foo>::borrow(1)));
    assert!(!RefMut::<Foo>::borrow(1).conflicts_with(&RefMut::<Foo>::borrow(2)));
}

#[test]
fn system_wrapper_reports_declarations() {
    let mut system = SystemWrapper::new(
        |x: i32| x + 1,
        vec![
            Param::Res { key: 9, optional: false },
            Param::Query(vec![RefMut::<Foo>::borrow(1), Ref::<Bar>::borrow(2)]),
            Param::ResMut { key: 8, optional: true },
            Param::Entities,
        ],
    );
    assert_eq!(
        system.get_resource_types(),
        vec![
            Borrow { key: 9, kind: BorrowType::Immutable },
            Borrow { key: 8, kind: BorrowType::Mutable },
        ]
    );
    assert_eq!(
        system.get_component_types(),
        vec![
            Borrow { key: 1, kind: BorrowType::Mutable },
            Borrow { key: 2, kind: BorrowType::Immutable },
        ]
    );
    assert_eq!(system.plan(&vec![]), Err(RunError::MissingResource(9)));
    assert_eq!(system.plan(&vec![9]), Ok(()));
    assert_eq!((system.func())(1), 2);
    assert_eq!((system.func_mut())(2), 3);
}

#[test]
fn container_trait_matches_inherent_access() {
    let mut reg = EntityRegistry::new();
    let mut store: ComponentStore<Foo> = ComponentStore::new();
    let a = reg.create();
    let b = reg.create();
    store.insert(a, Foo { value: 1 });
    store.insert(b, Foo { value: 2 });
    assert_eq!(ComponentContainerTrait::get(&store, a), Some(&Foo { value: 1 }));
    ComponentContainerTrait::get_mut(&mut store, b).unwrap().value = 20;
    {
        let refs = ComponentContainerTrait::get_many_mut(&mut store, [b, a]).unwrap();
        assert_eq!(refs[0].value, 20);
        assert_eq!(refs[1].value, 1);
    }
    assert!(ComponentContainerTrait::get_many_mut(&mut store, [a, a]).is_none());
    reg.destroy(a);
    let c = reg.create();
    assert!(ComponentContainerTrait::get(&store, c).is_none());
}

#[test]
fn system_set_keeps_registration_order() {
    let mut set = SystemSet::new();
    set.register_system(SystemWrapper::new(1u8, vec![Param::Entities]));
    set.register_system(SystemWrapper::new(2u8, vec![Param::Commands]));
    assert_eq!(set.len(), 2);
    assert_eq!(*set.system_mut(0).func(), 1);
    *set.system_mut(1).func_mut() = 5;
    assert_eq!(*set.system_mut(1).func(), 5);
}

#[test]
fn applied_commands_issue_fresh_handles() {
    let mut reg = EntityRegistry::new();
    let mut foo: ComponentStore<Foo> = ComponentStore::new();
    let a = reg.create();
    add_component(&reg, &mut foo, a, Foo { value: 1 });
    reg.destroy(a);
    let mut commands: Commands<()> = Commands::new();
    commands.create_entity(());
    let spawned = commands.apply(&mut reg);
    let n = spawned[0].0;
    assert_eq!(n.index(), a.index());
    assert_eq!(n.version(), a.version() + 2);
    let q = Query::new(&reg, Some(&foo));
    assert!(q.get(n).is_none());
    assert!(q.get(a).is_none());
}
