use lunar_ecs::ecs::{
    every_call_ran, Component, ComponentError, ComponentsModified, Entity, EntityBuilder, World,
};

#[derive(Debug)]
struct Transform {
    position: (f32, f32, f32),
    rotation: (f32, f32, f32),
    scale: (f32, f32, f32),
}

impl Component for Transform {
    fn mew() -> Self {
        Transform {
            position: (0.0, 0.0, 0.0),
            rotation: (0.0, 0.0, 0.0),
            scale: (1.0, 1.0, 1.0),
        }
    }
}

#[derive(Debug)]
struct TestComponent1 {
    pub value: i32,
}

impl Component for TestComponent1 {
    fn mew() -> Self {
        Self { value: 0 }
    }

    fn update(&mut self) {
        self.value += 10;
    }
}

#[derive(Debug)]
struct TestComponent {
    pub value: i32,
}

impl Component for TestComponent {
    fn mew() -> Self {
        Self { value: 0 }
    }

    fn update(&mut self) {
        self.value += 10;
    }
}

#[derive(Debug)]
struct Counter {
    created: i32,
    decatified: std::rc::Rc<std::cell::Cell<i32>>,
}

impl Component for Counter {
    fn mew() -> Self {
        Counter { created: 0, decatified: std::rc::Rc::new(std::cell::Cell::new(0)) }
    }

    fn awawa(&mut self) {
        self.created += 1;
    }

    fn decatification(&mut self) {
        self.decatified.set(self.decatified.get() + 1);
    }
}

#[test]
fn entity_component_add_test() {
    let mut entity = Entity::new();

    assert!(!entity.has_component::<Transform>());

    let res = entity.add_component::<Transform>();

    assert_eq!(res, Ok(()));
    assert!(entity.has_component::<Transform>());
}

#[test]
fn entity_component_remove_test() {
    let mut entity = Entity::new();

    entity.add_component::<Transform>().unwrap();
    let e = entity.remove_component::<Transform>();

    assert_eq!(e, Ok(()));
    assert!(!entity.has_component::<Transform>());
}

#[test]
fn entity_builder_test() {
    let mut c = TestComponent1::mew();
    c.value = 20;
    let entitiy = EntityBuilder::new()
        .add_component::<Transform>()
        .create_component(|| {
            let mut c = TestComponent::mew();
            c.value = 10;
            Box::new(c)
        })
        .add_existing_component(Box::new(c))
        .create();

    assert!(entitiy.has_component::<Transform>());
    assert!(entitiy.has_component::<TestComponent>());
    assert!(entitiy.has_component::<TestComponent1>());

    assert_eq!(entitiy.get_component::<TestComponent>().unwrap().borrow().unwrap().value, 10);

    assert_eq!(entitiy.get_component::<TestComponent1>().unwrap().borrow().unwrap().value, 20);

    let t = Transform::mew();
    let e = EntityBuilder::new()
        .add_component::<Transform>()
        .add_existing_component(Box::new(t))
        .create_component(|| Box::new(Transform::mew()))
        .create();

    assert_eq!(1, e.component_count());
}

#[test]
fn entity_get_component_test() {
    let mut entity = Entity::new();
    entity.add_component::<Transform>().unwrap();
    let c = entity.get_component::<Transform>();
    assert!(c.is_some());
    entity.remove_component::<Transform>().unwrap();

    let c = entity.get_component::<Transform>();
    assert!(c.is_none());
}

#[test]
fn entity_component_update_test() {
    let mut entity = Entity::new();

    entity.add_component::<TestComponent>().unwrap();
    entity.update();

    let c = entity.get_component::<TestComponent>().unwrap();
    let c = c.borrow().unwrap();
    assert_eq!(c.value, 10)
}

#[test]
fn entity_component_decatification_test() {
    let mut entity = Entity::new();

    entity.add_component::<TestComponent>().unwrap();
    entity.update();

    let c = entity.get_component::<TestComponent>().unwrap();
    assert_eq!(c.borrow().unwrap().value, 10);

    entity.decatify();
}

#[test]
fn component_update_test() {
    let mut entity = Entity::new();

    entity.add_component::<TestComponent>().unwrap();
    entity.update();

    let c = entity.get_component::<TestComponent>().unwrap();
    assert_eq!(c.borrow().unwrap().value, 10);
}

#[test]
fn component_decatification_test() {
    let mut entity = Entity::new();

    entity.add_component::<TestComponent>().unwrap();
    entity.update();

    let c = entity.get_component::<TestComponent>().unwrap();
    assert_eq!(c.borrow().unwrap().value, 10);

    entity.decatify();
}

#[test]
fn add_twice_is_refused() {
    let mut entity = Entity::new();
    assert_eq!(entity.add_component::<TestComponent>(), Ok(()));
    assert_eq!(entity.add_component::<TestComponent>(), Err(ComponentError::ComponentAlreadyExists));
    assert_eq!(entity.component_count(), 1);
}

#[test]
fn remove_missing_is_refused() {
    let mut entity = Entity::new();
    entity.add_component::<TestComponent>().unwrap();
    assert_eq!(entity.remove_component::<Transform>(), Err(ComponentError::ComponentDoesNotExist));
    assert_eq!(entity.component_count(), 1);
    assert!(entity.has_component::<TestComponent>());
}

#[test]
fn add_remove_add_again() {
    let mut entity = Entity::new();
    entity.add_component::<TestComponent>().unwrap();
    entity.add_component::<Transform>().unwrap();
    entity.remove_component::<TestComponent>().unwrap();
    assert!(!entity.has_component::<TestComponent>());
    assert!(entity.has_component::<Transform>());
    assert_eq!(entity.add_component::<TestComponent>(), Ok(()));
    assert_eq!(entity.component_count(), 2);
}

#[test]
fn add_calls_awawa_and_decatify_reaches_components() {
    let mut entity = Entity::new();
    entity.add_component::<Counter>().unwrap();
    let counter = entity.get_component::<Counter>().unwrap();
    assert_eq!(counter.borrow().unwrap().created, 1);
    let seen = counter.borrow().unwrap().decatified.clone();
    drop(counter);
    entity.decatify();
    assert_eq!(seen.get(), 1);
}

#[test]
fn builder_keeps_first_component_of_a_type() {
    let mut first = TestComponent::mew();
    first.value = 1;
    let mut second = TestComponent::mew();
    second.value = 2;
    let e = EntityBuilder::new()
        .add_existing_component(Box::new(first))
        .add_existing_component(Box::new(second))
        .add_component::<TestComponent>()
        .create();
    assert_eq!(e.component_count(), 1);
    assert_eq!(e.get_component::<TestComponent>().unwrap().borrow().unwrap().value, 1);
}

#[test]
fn component_reference_borrow_mut_changes_the_component() {
    let mut entity = Entity::new();
    entity.add_component::<TestComponent>().unwrap();
    let c = entity.get_component::<TestComponent>().unwrap();
    c.borrow_mut().unwrap().value = 7;
    entity.update();
    assert_eq!(entity.get_component::<TestComponent>().unwrap().borrow().unwrap().value, 17);
    let shared = c.share();
    assert_eq!(shared.borrow().unwrap().value, 17);
}

#[test]
fn entity_ids_are_kept() {
    let e = Entity::new();
    let id = e.get_id();
    assert_eq!(e.get_id(), id);
    let built = EntityBuilder::new().create();
    assert_eq!(built.component_count(), 0);
}

#[test]
fn world_add_enitity_test() {
    let e = Entity::new();
    let mut w = World::new();

    w.add_entity(e);

    assert_eq!(w.get_entity_count(), 1);
}

#[test]
fn world_remove_enitity_test() {
    let e = Entity::new();
    let id = e.get_id();
    let mut w = World::new();

    assert!(w.remove_entity_by_id(id).is_err());

    w.add_entity(e);

    w.remove_entity_by_id(id).unwrap();

    assert_eq!(w.get_entity_count(), 0);
}

#[test]
fn world_get_entity_test() {
    let mut e = Entity::new();
    e.add_component::<Transform>().unwrap();
    let id = e.get_id();
    let mut w = World::new();
    w.add_entity(e);

    let e1 = w.get_entity_by_id(id).unwrap();
    let c = e1.get_component::<Transform>().unwrap();
    let _ = c.borrow().unwrap();
    drop(c);

    w.remove_entity_by_id(id).unwrap();
}

#[test]
fn get_all_componenents_test() {
    let mut w = World::new();
    let o = w.get_all_components::<Transform>();
    assert!(o.is_none());

    for _ in 0..200 {
        let mut e = Entity::new();
        e.add_component::<Transform>().unwrap();
        w.add_entity(e);
    }

    //To test speed
    for _ in 0..10000 {
        let o = w.get_all_components::<Transform>();
        assert!(o.is_some());
        assert_eq!(o.unwrap().len(), 200);

        let o = w.get_all_entities_with_component::<Transform>();
        assert!(o.is_some());
        assert_eq!(o.unwrap().len(), 200);
    }

    let mut e = Entity::new();
    e.add_component::<Transform>().unwrap();
    w.add_entity(e);

    //Test cache invalidation for components
    let o = w.get_all_components::<Transform>();
    assert!(o.is_some());
    assert_eq!(o.unwrap().len(), 201);

    //Test cache invalidation for components
    let o = w.get_all_entities_with_component::<Transform>();
    assert!(o.is_some());
    let o = o.unwrap();
    assert_eq!(o.len(), 201);

    let id = o.get(0).unwrap().get_id();
    w.remove_component_from::<Transform>(id).unwrap().unwrap();

    let o = w.get_all_components::<Transform>();
    assert!(o.is_some());
    assert_eq!(o.unwrap().len(), 200);

    let o = w.get_all_entities_with_component::<Transform>();
    assert!(o.is_some());
    assert_eq!(o.unwrap().len(), 200);
}

#[test]
fn one_holder_is_answered_with_one_reference() {
    let mut w = World::new();
    assert!(w.get_all_components::<Transform>().is_none());
    assert!(w.get_all_entities_with_component::<Transform>().is_none());
    let mut e = Entity::new();
    e.add_component::<Transform>().unwrap();
    w.add_entity(e);
    assert_eq!(w.get_all_components::<Transform>().unwrap().len(), 1);
    assert_eq!(w.get_all_entities_with_component::<Transform>().unwrap().len(), 1);
    let mut e = Entity::new();
    e.add_component::<Transform>().unwrap();
    w.add_entity(e);
    assert_eq!(w.get_all_components::<Transform>().unwrap().len(), 2);
}

#[test]
fn world_component_operations_keep_caches_fresh() {
    let mut w = World::new();
    let mut ids = Vec::new();
    for _ in 0..3 {
        let e = Entity::new();
        ids.push(e.get_id());
        w.add_entity(e);
    }
    assert!(w.get_all_components::<TestComponent>().is_none());
    assert_eq!(w.add_component_to::<TestComponent>(ids[0]), Ok(Ok(())));
    assert_eq!(w.add_component_to::<TestComponent>(ids[2]), Ok(Ok(())));
    assert_eq!(
        w.add_component_to::<TestComponent>(ids[2]),
        Ok(Err(ComponentError::ComponentAlreadyExists))
    );
    let all = w.get_all_entities_with_component::<TestComponent>().unwrap();
    assert_eq!(all.len(), 2);
    assert_eq!(all[0].get_id(), ids[0]);
    assert_eq!(all[1].get_id(), ids[2]);
    assert_eq!(w.entity_indices_with_kind(&std::any::TypeId::of::<TestComponent>()), vec![0, 2]);
    assert_eq!(
        w.remove_component_from::<TestComponent>(ids[1]),
        Ok(Err(ComponentError::ComponentDoesNotExist))
    );
    assert_eq!(w.remove_component_from::<TestComponent>(ids[0]), Ok(Ok(())));
    assert_eq!(w.get_all_components::<TestComponent>().unwrap().len(), 1);
    assert_eq!(w.entity_indices_with_kind(&std::any::TypeId::of::<TestComponent>()), vec![2]);
    assert!(w.add_component_to::<TestComponent>(12345).is_err());
}

#[test]
fn remove_by_ref() {
    let mut w = World::new();
    let e = Entity::new();
    let probe = EntityBuilder::new().create();
    let id = e.get_id();
    w.add_entity(e);
    assert!(w.remove_entity_by_ref(&probe).is_err());
    assert_eq!(w.get_entity_count(), 1);
    assert_eq!(w.get_entity_by_id(id).unwrap().get_id(), id);
    assert!(w.get_entity_by_id(probe.get_id()).is_none());
    assert!(w.remove_entity_by_id(probe.get_id()).is_err());
}

#[test]
fn components_modified_records() {
    let mut m = ComponentsModified::new();
    m.component_changed::<TestComponent>();
    m.entity_changed();
    m.reset();
    m.kind_changed(std::any::TypeId::of::<Transform>());
}

#[test]
fn added_entity_is_found_and_removed_entity_is_not() {
    let e = Entity::new();
    let id = e.get_id();
    let other = Entity::new();
    let other_id = other.get_id();
    let mut w = World::new();
    w.add_entity(e);
    w.add_entity(other);
    assert_eq!(w.get_entity_by_id(id).unwrap().get_id(), id);
    w.remove_entity_by_id(id).unwrap();
    assert!(w.get_entity_by_id(id).is_none());
    assert_eq!(w.get_entity_by_id(other_id).unwrap().get_id(), other_id);
}

#[test]
fn builder_add_component_calls_awawa() {
    let e = EntityBuilder::new().add_component::<Counter>().add_component::<Counter>().create();
    assert_eq!(e.component_count(), 1);
    assert_eq!(e.get_component::<Counter>().unwrap().borrow().unwrap().created, 1);
}

#[test]
fn conflicting_borrows_are_refused() {
    let mut entity = Entity::new();
    entity.add_component::<TestComponent>().unwrap();
    let c = entity.get_component::<TestComponent>().unwrap();
    let held = c.borrow_mut().unwrap();
    assert!(c.borrow().is_none());
    assert!(c.borrow_mut().is_none());
    assert!(!every_call_ran(&entity.update()));
    drop(held);
    assert!(c.borrow().is_some());
    assert!(every_call_ran(&entity.update()));
    assert_eq!(c.borrow().unwrap().value, 10);
}

#[test]
fn one_component_holder_is_listed() {
    let mut w = World::new();
    let mut e = Entity::new();
    e.add_component::<MainCameraLike>().unwrap();
    w.add_entity(e);
    let cams = w.get_all_components::<MainCameraLike>().expect("the camera is found");
    assert_eq!(cams.len(), 1);
}

struct MainCameraLike;

impl Component for MainCameraLike {
    fn mew() -> Self {
        MainCameraLike
    }
}

#[test]
fn world_updates_one_entity() {
    let mut e = Entity::new();
    e.add_component::<TestComponent>().unwrap();
    let id = e.get_id();
    let empty = Entity::new();
    let empty_id = empty.get_id();
    let mut w = World::new();
    w.add_entity(e);
    w.add_entity(empty);
    assert_eq!(w.update_entity(id).unwrap().len(), 1);
    assert!(w.update_entity(empty_id).unwrap().is_empty());
    let c = w.get_entity_by_id(id).unwrap().get_component::<TestComponent>().unwrap();
    assert_eq!(c.borrow().unwrap().value, 10);
    let held = c.borrow_mut().unwrap();
    assert!(!every_call_ran(&w.update_entity(id).unwrap()));
    drop(held);
    assert!(w.update_entity(12345).is_err());
}

#[test]
fn updating_and_decatifying_an_empty_entity_succeeds() {
    let mut e = Entity::new();
    assert!(e.update().is_empty());
    assert!(e.decatify().is_empty());
}

#[test]
fn removing_an_entity_decatifies_its_components() {
    let mut e = Entity::new();
    e.add_component::<Counter>().unwrap();
    e.add_component::<TestComponent>().unwrap();
    let seen = e.get_component::<Counter>().unwrap().borrow().unwrap().decatified.clone();
    let id = e.get_id();
    let mut w = World::new();
    w.add_entity(e);
    let calls = w.remove_entity_by_id(id).unwrap();
    assert_eq!(calls.len(), 2);
    assert!(every_call_ran(&calls));
    assert_eq!(seen.get(), 1);
}
