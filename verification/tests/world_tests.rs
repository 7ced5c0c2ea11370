use simcore::vec3::Vec3;
use simcore::world::{ObjectType, WorldStore};

#[test]
fn store_add_and_get() {
    let mut s = WorldStore::new();
    let id = s.add(
        ObjectType::Item,
        Vec3::new(1, 2, 3),
        Vec3::zero(),
        Vec3::zero(),
    );
    assert_eq!(id, 0);
    let st = s.get(id).unwrap();
    assert_eq!(st.object.object_id, 0);
    assert!(st.object.alive);
    assert_eq!(st.object.age, 0);
    assert_eq!(st.object.health, 100);
    assert_eq!(st.position, Vec3::new(1, 2, 3));
    assert!(matches!(st.object.object_type, ObjectType::Item));
}

#[test]
fn store_set_replaces_in_place() {
    let mut s = WorldStore::new();
    let id = s.add(
        ObjectType::Player,
        Vec3::zero(),
        Vec3::zero(),
        Vec3::zero(),
    );
    let mut st = s.get(id).unwrap();
    st.position = Vec3::new(7, 8, 9);
    s.set(id, st);
    assert_eq!(s.get(id).unwrap().position, Vec3::new(7, 8, 9));
}

// Removing an absent id is a no-op, not an error, and ids are never
// reused after a removal.
#[test]
fn store_remove_is_idempotent_and_ids_monotone() {
    let mut s = WorldStore::new();
    let a = s.add(ObjectType::Item, Vec3::zero(), Vec3::zero(), Vec3::zero());
    assert!(s.remove(99).is_none());
    let removed = s.remove(a).unwrap();
    assert_eq!(removed.object.object_id, a);
    assert!(s.get(a).is_none());
    assert!(s.remove(a).is_none());
    let b = s.add(ObjectType::Item, Vec3::zero(), Vec3::zero(), Vec3::zero());
    assert_eq!(b, 1);
}
