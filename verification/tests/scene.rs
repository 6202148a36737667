use cachoeira::transform::entity::{Entity, HierarchyEvent, Parent};
use cachoeira::transform::scene::{Node, NotAlive, Scene};

#[test]
fn entity_keeps_index_and_generation() {
    let e = Entity::new(7, 3);
    assert_eq!(e.id(), 7);
    assert_eq!(e.generation, 3);
    assert_eq!(e, Entity { id: 7, generation: 3 });
    assert_ne!(e, Entity::new(7, 4));
    assert_eq!(Parent { entity: e }.parent_entity(), e);
    assert_ne!(HierarchyEvent::Modified(e), HierarchyEvent::Removed(e));
}

#[test]
fn empty_scene_has_no_entity() {
    let scene = Scene::new();
    assert_eq!(scene.len(), 0);
    let e = Entity::new(0, 1);
    assert!(!scene.is_alive(e));
    assert!(!scene.has_local(e));
    assert!(!scene.has_global(e));
    assert_eq!(scene.parent(e), None);
    assert_eq!(
        scene.node(0),
        Node { generation: 0, alive: false, has_local: false, has_global: false, parent: None }
    );
}

#[test]
fn placing_beyond_the_table_fills_the_gap_with_vacant_slots() {
    let mut scene = Scene::new();
    let root = Entity::new(0, 1);
    let e = Entity::new(3, 5);
    scene.place(e, true, false, Some(root));
    assert_eq!(scene.len(), 4);
    for id in 0..3 {
        assert_eq!(
            scene.node(id),
            Node { generation: 0, alive: false, has_local: false, has_global: false, parent: None }
        );
    }
    assert_eq!(
        scene.node(3),
        Node { generation: 5, alive: true, has_local: true, has_global: false, parent: Some(root) }
    );
    assert!(scene.is_alive(e));
    assert!(scene.has_local(e));
    assert!(!scene.has_global(e));
    assert_eq!(scene.parent(e), Some(root));
}

#[test]
fn stale_entity_is_not_alive() {
    let mut scene = Scene::new();
    scene.place(Entity::new(0, 2), true, true, Some(Entity::new(5, 1)));
    let stale = Entity::new(0, 1);
    assert!(!scene.is_alive(stale));
    assert!(!scene.has_local(stale));
    assert!(!scene.has_global(stale));
    assert_eq!(scene.parent(stale), None);
}

#[test]
fn placing_again_overwrites_the_slot() {
    let mut scene = Scene::new();
    scene.place(Entity::new(1, 1), true, true, None);
    scene.place(Entity::new(1, 2), false, true, Some(Entity::new(0, 1)));
    assert_eq!(scene.len(), 2);
    assert!(!scene.is_alive(Entity::new(1, 1)));
    assert!(scene.is_alive(Entity::new(1, 2)));
    assert!(!scene.has_local(Entity::new(1, 2)));
    assert!(scene.has_global(Entity::new(1, 2)));
}

#[test]
fn delete_retires_the_slot_and_keeps_the_generation() {
    let mut scene = Scene::new();
    let a = Entity::new(0, 4);
    let b = Entity::new(1, 1);
    scene.place(a, true, true, None);
    scene.place(b, true, true, Some(a));
    assert_eq!(scene.delete(a), Ok(()));
    assert_eq!(
        scene.node(0),
        Node { generation: 4, alive: false, has_local: false, has_global: false, parent: None }
    );
    assert!(!scene.is_alive(a));
    assert!(scene.is_alive(b));
    assert_eq!(scene.parent(b), Some(a));
    assert_eq!(scene.len(), 2);
}

#[test]
fn delete_fails_for_what_is_not_alive() {
    let mut scene = Scene::new();
    let a = Entity::new(0, 4);
    scene.place(a, true, true, None);
    assert_eq!(scene.delete(Entity::new(0, 3)), Err(NotAlive { entity: Entity::new(0, 3) }));
    assert_eq!(scene.delete(Entity::new(8, 1)), Err(NotAlive { entity: Entity::new(8, 1) }));
    assert!(scene.is_alive(a));
    assert_eq!(scene.delete(a), Ok(()));
    assert_eq!(scene.delete(a), Err(NotAlive { entity: a }));
}
