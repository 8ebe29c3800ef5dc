use thallium_ecs::{
    add_component, both, Commands, Component, ComponentStore, Entities, EntityRegistry, Query,
    QueryMut,
};

struct TestComponent {
    value: i32,
}
impl Component for TestComponent {}

struct TestComponent2 {
    value: i32,
}
impl Component for TestComponent2 {}

/// Two entities, one batched exclusive update, then a read of every entity
/// with an optional second component.
#[test]
fn test() {
    let mut reg = EntityRegistry::new();
    let mut first: ComponentStore<TestComponent> = ComponentStore::new();
    let mut second: ComponentStore<TestComponent2> = ComponentStore::new();

    let entity1 = reg.create();
    add_component(&reg, &mut first, entity1, TestComponent { value: 42 });

    let entity2 = reg.create();
    add_component(&reg, &mut first, entity2, TestComponent { value: 44 });
    add_component(&reg, &mut second, entity2, TestComponent2 { value: 0 });

    {
        let mut q = QueryMut::new(&reg, Some(&mut first));
        let mut refs = q.get_many_mut([entity1, entity2]).unwrap();
        let c2 = refs.pop().unwrap();
        let c1 = refs.pop().unwrap();
        assert_eq!(c1.value, 42);
        assert_eq!(c2.value, 44);
        c1.value += 1;
        c2.value -= 1;
    }

    let entities = Entities::new(&reg);
    let q = Query::new(&reg, Some(&first));
    let q2 = Query::new(&reg, Some(&second));
    for entity in entities.iter() {
        let c = q.get(entity).unwrap();
        assert_eq!(c.value, 43);
        if let Some((c2, c)) = both(q2.get(entity), q.get(entity)) {
            assert_eq!(c2.value, 0);
            assert_eq!(c.value, 43);
        }
    }
}

/// The same scenario read through a query's iteration, then two deferred
/// creations applied after the run.
#[test]
fn lib_test() {
    let mut reg = EntityRegistry::new();
    let mut first: ComponentStore<TestComponent> = ComponentStore::new();
    let mut second: ComponentStore<TestComponent2> = ComponentStore::new();

    let entity1 = reg.create();
    add_component(&reg, &mut first, entity1, TestComponent { value: 42 });

    let entity2 = reg.create();
    add_component(&reg, &mut first, entity2, TestComponent { value: 44 });
    add_component(&reg, &mut second, entity2, TestComponent2 { value: 0 });

    {
        let mut q = QueryMut::new(&reg, Some(&mut first));
        let mut refs = q.get_many_mut([entity1, entity2]).unwrap();
        let c2 = refs.pop().unwrap();
        let c1 = refs.pop().unwrap();
        assert_eq!(c1.value, 42);
        assert_eq!(c2.value, 44);
        c1.value += 1;
        c2.value -= 1;
    }

    {
        let q1 = Query::new(&reg, Some(&first));
        let q2 = Query::new(&reg, Some(&second));
        for (entity, c) in q1.iter() {
            assert_eq!(c.value, 43);
            if let Some((c2, c)) = both(q2.get(entity), q1.get(entity)) {
                assert_eq!(c2.value, 0);
                assert_eq!(c.value, 43);
            }
        }
    }

    let mut commands: Commands<Option<TestComponent>> = Commands::new();
    commands.create_entity(None);
    commands.create_entity(Some(TestComponent { value: 5 }));
    for (entity, bundle) in commands.apply(&mut reg) {
        if let Some(c) = bundle {
            add_component(&reg, &mut first, entity, c);
        }
    }

    let entities = Entities::new(&reg);
    let q = Query::new(&reg, Some(&first));
    assert_eq!(entities.iter().len(), 4);
    assert_eq!(
        entities
            .iter()
            .into_iter()
            .filter(|&entity| q.get(entity).is_some())
            .count(),
        3
    );
}
