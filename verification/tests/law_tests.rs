use kiwi_ecs::World;

fn xy(x: u32, y: u32) -> Vec<u8> {
    let mut v = x.to_le_bytes().to_vec();
    v.extend_from_slice(&y.to_le_bytes());
    v
}

#[test]
fn registration_idempotent() {
    let mut world = World::new();
    let c1 = world.register_component(7, 8);
    let c2 = world.register_component(7, 8);
    assert_eq!(c1, c2);
    let c3 = world.register_component(8, 4);
    assert_ne!(c1, c3);
    assert_eq!(world.register_component(8, 4), c3);
}

#[test]
fn group_identity() {
    let mut world = World::new();
    let a = world.register_component(1, 4);
    let b = world.register_component(2, 4);

    // set-equal field lists, in either order, land in one archetype
    world.spawn_entity(vec![(a, vec![1, 0, 0, 0]), (b, vec![2, 0, 0, 0])]);
    world.spawn_entity(vec![(b, vec![3, 0, 0, 0]), (a, vec![4, 0, 0, 0])]);
    assert_eq!(world.member_groups(a).len(), 1);
    assert_eq!(world.member_groups(b).len(), 1);
    assert_eq!(world.member_groups(a), world.member_groups(b));

    // a set-unequal field list gets its own archetype
    world.spawn_entity(vec![(a, vec![5, 0, 0, 0])]);
    assert_eq!(world.member_groups(a).len(), 2);
    assert_eq!(world.member_groups(b).len(), 1);
}

#[test]
fn kill_frees_id_and_hides_record() {
    let mut world = World::new();
    let pos = world.register_component(1, 8);

    let id0 = world.spawn_entity(vec![(pos, xy(1, 2))]);
    assert!(world.is_alive(id0));
    assert_eq!(world.query(&vec![pos]), vec![id0]);

    world.kill(id0);
    assert!(!world.is_alive(id0));
    assert_eq!(world.query(&vec![pos]).len(), 0);
    assert_eq!(world.query_ids().len(), 0);

    // the freed id is reused by the next spawn, which revives it
    let id1 = world.spawn_entity(vec![(pos, xy(3, 4))]);
    assert_eq!(id1, id0);
    assert!(world.is_alive(id1));
    assert_eq!(world.query(&vec![pos]), vec![id1]);
    assert_eq!(world.get_component(id1, pos), xy(3, 4));
}

#[test]
fn kill_and_keep_until_free() {
    let mut world = World::new();
    let id0 = world.spawn_entity(vec![]);
    let id1 = world.spawn_entity(vec![]);

    world.kill_and_keep(id0);
    assert!(!world.is_alive(id0));
    assert!(world.is_alive(id1));

    // the id is not reused before free_id
    let id2 = world.spawn_entity(vec![]);
    assert_ne!(id2, id0);

    world.free_id(id0);
    let id3 = world.spawn_entity(vec![]);
    assert_eq!(id3, id0);
    assert!(world.is_alive(id3));
}

#[test]
fn set_get_round_trip() {
    let mut world = World::new();
    let pos = world.register_component(1, 8);
    let vel = world.register_component(2, 8);

    let id = world.spawn_entity(vec![(pos, xy(10, 20)), (vel, xy(1, 1))]);
    assert_eq!(world.get_component(id, pos), xy(10, 20));

    world.set_component(id, pos, xy(30, 40));
    assert_eq!(world.get_component(id, pos), xy(30, 40));

    // mutating an unrelated field leaves the value in place
    world.set_component(id, vel, xy(9, 9));
    assert_eq!(world.get_component(id, pos), xy(30, 40));
    assert_eq!(world.get_component(id, vel), xy(9, 9));

    // and so does an unrelated record
    let other = world.spawn_entity(vec![(pos, xy(0, 0)), (vel, xy(0, 0))]);
    world.set_component(other, pos, xy(7, 7));
    assert_eq!(world.get_component(id, pos), xy(30, 40));
}

#[test]
fn scenario_pos_vel_counts() {
    let mut world = World::new();
    let pos = world.register_component(1, 8);
    let vel = world.register_component(2, 8);

    for _ in 0..1000 {
        world.spawn_entity(vec![(pos, xy(0, 0)), (vel, xy(0, 0))]);
    }
    world.spawn_entity(vec![(pos, xy(0, 0))]);

    assert_eq!(world.query(&vec![pos]).len(), 1001);
    assert_eq!(world.query(&vec![pos, vel]).len(), 1000);
    assert_eq!(world.query(&vec![vel]).len(), 1000);
    assert_eq!(world.query(&vec![vel, pos]).len(), 1000);
}

#[test]
fn scenario_mutate_through_query() {
    let mut world = World::new();
    let pos = world.register_component(1, 8);

    let id0 = world.spawn_entity(vec![(pos, xy(0, 0))]);

    for id in world.query(&vec![pos]) {
        let mut v = world.get_component(id, pos);
        v[0..4].copy_from_slice(&4u32.to_le_bytes());
        world.set_component(id, pos, v);
    }

    assert_eq!(world.get_component(id0, pos), xy(4, 0));
}

#[test]
fn marker_component_splits_groups() {
    let mut world = World::new();
    let pos = world.register_component(1, 8);
    let marker = world.register_component(2, 0);

    let plain = world.spawn_entity(vec![(pos, xy(1, 1))]);
    let marked = world.spawn_entity(vec![(pos, xy(2, 2)), (marker, vec![])]);

    // the zero-sized marker still separates the two archetypes
    assert_eq!(world.member_groups(pos).len(), 2);
    assert_eq!(world.member_groups(marker).len(), 1);

    assert_eq!(world.query(&vec![pos]), vec![plain, marked]);
    assert_eq!(world.query(&vec![pos, marker]), vec![marked]);
    assert_eq!(world.query(&vec![marker]), vec![marked]);

    // the marker itself stores no bytes
    assert_eq!(world.get_component(marked, marker), Vec::<u8>::new());
    assert_eq!(world.get_component(marked, pos), xy(2, 2));
}

#[test]
fn row_reuse_round_trip() {
    let mut world = World::new();
    let pos = world.register_component(1, 8);

    let a = world.spawn_entity(vec![(pos, xy(1, 1))]);
    let b = world.spawn_entity(vec![(pos, xy(2, 2))]);
    world.kill(a);

    // the freed row is reused: the replacement sits before `b` in row order
    let c = world.spawn_entity(vec![(pos, xy(3, 3))]);
    assert_eq!(c, a);
    assert_eq!(world.query(&vec![pos]), vec![c, b]);
    assert_eq!(world.get_component(c, pos), xy(3, 3));
    assert_eq!(world.get_component(b, pos), xy(2, 2));
}

#[test]
fn double_kill_is_noop() {
    let mut world = World::new();
    let pos = world.register_component(1, 8);
    let a = world.spawn_entity(vec![(pos, xy(1, 1))]);
    let b = world.spawn_entity(vec![(pos, xy(2, 2))]);

    world.kill(a);
    // killing an already-dead id changes nothing
    world.kill(a);
    world.kill_and_keep(a);
    assert!(!world.is_alive(a));
    assert!(world.is_alive(b));
    assert_eq!(world.query(&vec![pos]), vec![b]);
    assert_eq!(world.entity_count(), 1);

    // the id is handed out once, not twice
    let c = world.spawn_entity(vec![(pos, xy(3, 3))]);
    let d = world.spawn_entity(vec![(pos, xy(4, 4))]);
    assert_eq!(c, a);
    assert_ne!(d, a);
    assert_ne!(d, b);
}

#[test]
fn empty_spawn_shares_group() {
    let mut world = World::new();
    let id0 = world.spawn_entity(vec![]);
    let id1 = world.spawn_entity(vec![]);
    assert_eq!(world.entity_count(), 2);
    assert_eq!(world.query_ids(), vec![id0, id1]);
}
