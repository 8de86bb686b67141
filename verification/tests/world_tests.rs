use kiwi_ecs::{ComponentId, World};

const POS_KEY: u64 = 101;
const VEL_KEY: u64 = 102;

/// Encodes a two-field `u32` component (such as `Pos { x, y }`) as its
/// little-endian column bytes.
fn xy(x: u32, y: u32) -> Vec<u8> {
    let mut v = x.to_le_bytes().to_vec();
    v.extend_from_slice(&y.to_le_bytes());
    v
}

fn register_pos(world: &mut World) -> ComponentId {
    world.register_component(POS_KEY, 8)
}

fn register_vel(world: &mut World) -> ComponentId {
    world.register_component(VEL_KEY, 8)
}

#[test]
fn kill_entity_query() {
    let mut world = World::new();
    let id1 = world.spawn_entity(vec![]);
    let id2 = world.spawn_entity(vec![]);
    let ids = world.query_ids0();
    assert_eq!(ids, vec![id1, id2]);

    world.kill(id1);
    let ids = world.query_ids0();
    assert_eq!(ids, vec![id2]);

    world.kill(id2);
    let ids = world.query_ids0();
    assert_eq!(ids.len(), 0);
}

#[test]
fn spawn_entity() {
    let mut world = World::new();
    let pos = register_pos(&mut world);

    world.spawn_entity(vec![]);
    world.spawn_entity(vec![(pos, xy(0, 0))]);
}

#[test]
fn spawn_multiple_entities() {
    let mut world = World::new();
    let pos = register_pos(&mut world);
    let c1 = world.register_component(201, 4);
    let c2 = world.register_component(202, 4);
    let c3 = world.register_component(203, 4);
    let c4 = world.register_component(204, 4);
    let c5 = world.register_component(205, 4);
    let c6 = world.register_component(206, 4);
    let flag1: u32 = 0;

    for _ in 0..1000 {
        let fields = vec![
            (pos, xy(0, 0)),
            (c1, 0u32.to_le_bytes().to_vec()),
            (c2, 0u32.to_le_bytes().to_vec()),
            (c3, 0u32.to_le_bytes().to_vec()),
            (c4, 0u32.to_le_bytes().to_vec()),
            (c5, 0u32.to_le_bytes().to_vec()),
            (c6, 0u32.to_le_bytes().to_vec()),
        ];
        let id = world.spawn_entity(fields.clone());
        world.set_flag(id, flag1);
        let id = world.spawn_entity(fields);
        world.set_flag(id, flag1);
    }

    assert_eq!(world.entity_count(), 2000);
}

#[test]
fn spawn_entity_macro() {
    let mut world = World::new();
    let pos = register_pos(&mut world);
    let vel = register_vel(&mut world);

    world.spawn_entity(vec![]);
    world.spawn_entity(vec![(pos, xy(1, 2))]);
    world.spawn_entity(vec![(pos, xy(3, 4)), (vel, xy(5, 6))]);

    let components = world.query_values(&vec![pos]);
    assert_eq!(components.len(), 2);

    let components = world.query_values(&vec![pos, vel]);
    assert_eq!(components.len(), 1);

    let ids = world.query_ids();
    assert_eq!(ids.len(), 3);
}

#[test]
fn get_component() {
    let mut world = World::new();
    let pos = register_pos(&mut world);

    let ent_id = world.spawn_entity(vec![(pos, xy(1, 0))]);
    let comp = world.get_component(ent_id, pos);
    assert_eq!(comp, xy(1, 0));
}

#[test]
fn query() {
    let mut world = World::new();
    let pos = register_pos(&mut world);
    let vel = register_vel(&mut world);

    world.spawn_entity(vec![]);
    let _ = world.spawn_entity(vec![(pos, xy(0, 5))]);
    world.spawn_entity(vec![(pos, xy(6, 7)), (vel, xy(8, 9))]);

    let components = world.query_values(&vec![pos]);
    assert_eq!(components.len(), 2);
    let pos_values: Vec<&Vec<u8>> = components.iter().map(|(_, vs)| &vs[0]).collect();
    assert!(pos_values.contains(&&xy(0, 5)));
    assert!(pos_values.contains(&&xy(6, 7)));

    let components = world.query_values(&vec![vel, pos]);
    assert_eq!(components.len(), 1);
    assert_eq!(components[0].1[0], xy(8, 9));
    assert_eq!(components[0].1[1], xy(6, 7));

    let components = world.query_values(&vec![pos, vel]);
    assert_eq!(components.len(), 1);
    assert_eq!(components[0].1[0], xy(6, 7));
    assert_eq!(components[0].1[1], xy(8, 9));
}

#[test]
fn mut_query() {
    let mut world = World::new();
    let pos = register_pos(&mut world);
    let vel = register_vel(&mut world);

    world.spawn_entity(vec![]);
    let _ = world.spawn_entity(vec![(pos, xy(0, 5))]);
    world.spawn_entity(vec![(pos, xy(6, 7)), (vel, xy(8, 9))]);

    let ids = world.query(&vec![vel, pos]);
    for id in ids {
        let mut v = world.get_component(id, vel);
        v[0..4].copy_from_slice(&1u32.to_le_bytes());
        world.set_component(id, vel, v);
    }

    let components = world.query_values(&vec![pos, vel]);
    assert_eq!(components[0].1[1], xy(1, 9));
}

#[test]
fn mut_query_after_set_component() {
    let mut world = World::new();
    let pos = register_pos(&mut world);

    world.spawn_entity(vec![(pos, xy(0, 0))]);

    let ids = world.query(&vec![pos]);
    for id in ids {
        assert_eq!(world.get_component(id, pos), xy(0, 0));

        world.set_component(id, pos, xy(4, 0));

        assert_eq!(world.get_component(id, pos), xy(4, 0));

        let current_pos = world.get_component(id, pos);

        assert_eq!(current_pos, xy(4, 0));

        world.set_component(id, pos, xy(6, 10));

        assert_eq!(world.get_component(id, pos), xy(6, 10));
    }
}

#[test]
fn flags() {
    let mut world = World::new();
    let pos = register_pos(&mut world);
    let player: u32 = 0;
    let ground: u32 = 1;

    let id1 = world.spawn_entity(vec![(pos, xy(0, 1))]);
    world.set_flag(id1, player);

    let id2 = world.spawn_entity(vec![(pos, xy(0, 1))]);
    world.set_flag(id2, ground);

    for id in world.query(&vec![pos]) {
        if world.has_flag(id, player) {
            assert_eq!(id, id1);
        }
    }

    for id in world.query(&vec![pos]) {
        if world.has_flag(id, ground) {
            assert_eq!(id, id2);
        }
    }

    // flag ids are expected to work at least up to 64
    world.set_flag(id1, 64);
    assert!(world.has_flag(id1, 64));
    assert!(!world.has_flag(id2, 64));
    world.unset_flag(id1, 64);
    assert!(!world.has_flag(id1, 64));
}

#[test]
fn system_macro_ids() {
    let mut world = World::new();
    let pos = register_pos(&mut world);

    world.spawn_entity(vec![(pos, xy(0, 1))]);

    for (id, values) in world.query_values(&vec![pos]) {
        assert_eq!(id, 0);
        assert_eq!(values[0], xy(0, 1));
    }
}

#[test]
fn query_ids() {
    let mut world = World::new();
    let pos = register_pos(&mut world);
    let vel = register_vel(&mut world);

    world.spawn_entity(vec![(pos, xy(0, 0)), (vel, xy(0, 0))]);
    world.spawn_entity(vec![(pos, xy(0, 0))]);
    world.spawn_entity(vec![(pos, xy(0, 0)), (vel, xy(0, 0))]);
    world.spawn_entity(vec![(pos, xy(0, 0)), (vel, xy(0, 0))]);
    world.spawn_entity(vec![(pos, xy(0, 0)), (vel, xy(0, 0))]);
    world.spawn_entity(vec![(pos, xy(0, 0)), (vel, xy(0, 0))]);

    let ids: Vec<u32> = world.query(&vec![pos, vel]);
    assert_eq!(ids, vec![0, 2, 3, 4, 5]);
}

#[test]
fn system_single_component() {
    let mut world = World::new();
    let pos = register_pos(&mut world);

    world.spawn_entity(vec![(pos, xy(0, 1))]);

    for (_, values) in world.query_values(&vec![pos]) {
        assert_eq!(values[0], xy(0, 1));
    }
}

fn decode_xy(v: &Vec<u8>) -> (u32, u32) {
    let x = u32::from_le_bytes([v[0], v[1], v[2], v[3]]);
    let y = u32::from_le_bytes([v[4], v[5], v[6], v[7]]);
    (x, y)
}

#[test]
fn example() {
    let mut world = World::new();
    let pos = register_pos(&mut world);
    let vel = register_vel(&mut world);

    for _ in 0..10 {
        world.spawn_entity(vec![(pos, xy(0, 0)), (vel, xy(1, 1))]);
    }

    // move every entity by its velocity
    for id in world.query(&vec![pos, vel]) {
        let (px, py) = decode_xy(&world.get_component(id, pos));
        let (vx, vy) = decode_xy(&world.get_component(id, vel));
        world.set_component(id, pos, xy(px + vx, py + vy));
    }

    for (_, values) in world.query_values(&vec![pos]) {
        assert_eq!(values[0], xy(1, 1));
    }
}
