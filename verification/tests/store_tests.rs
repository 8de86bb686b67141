use kiwi_ecs::{ArchStore, ComponentRegistry, EntityStore};

#[test]
fn get_archetype_id_for_components_list() {
    let mut arch_store = ArchStore::new();
    let id1 = arch_store.get_new_entity_archetype(vec![0, 1], &vec![1, 1]).unwrap();
    let id2 = arch_store.get_new_entity_archetype(vec![0, 2], &vec![1, 1]).unwrap();
    let id3 = arch_store.get_new_entity_archetype(vec![1, 0], &vec![1, 1]).unwrap();
    let id4 = arch_store.get_new_entity_archetype(vec![], &vec![]).unwrap();
    let id5 = arch_store.get_new_entity_archetype(vec![], &vec![]).unwrap();

    assert_eq!(id1, id3);
    assert_ne!(id2, id1);
    assert_eq!(id3, id1);
    assert_eq!(id4, id5);
    assert_ne!(id4, id3);
    assert_ne!(id4, id2);
}

#[test]
fn static_archetypes() {
    let mut registry = ComponentRegistry::new();
    let comp = registry.register(1, 1);
    assert_eq!(registry.member_groups(comp), Vec::<u32>::new());
    registry.record_group(comp, 5);
    assert_eq!(registry.member_groups(comp), vec![5]);
}

#[test]
fn new_entity_id() {
    let mut ent_store = EntityStore::new();
    let id1 = ent_store.new_id();
    let id2 = ent_store.new_id();

    assert_eq!(id1, 0);
    assert_eq!(id2, 1);
}

#[test]
fn kill_entity() {
    let mut ent_store = EntityStore::new();
    let id1 = ent_store.new_id();
    assert!(ent_store.is_alive(id1));
    let id2 = ent_store.new_id();
    assert!(ent_store.is_alive(id2));
    ent_store.kill(id2);

    assert!(ent_store.is_alive(id1));
    assert!(!ent_store.is_alive(id2));
}
