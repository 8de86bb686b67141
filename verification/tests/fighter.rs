use kiwi_ecs::{ComponentId, EntityId, World};

#[derive(Debug, Clone, Copy)]
#[allow(dead_code)]
pub struct Vec2 {
    x: f32,
    y: f32,
}

impl Vec2 {
    pub fn new(x: f32, y: f32) -> Self {
        Self { x, y }
    }

    const ZERO: Self = Self { x: 0., y: 0. };

    fn bytes(&self) -> Vec<u8> {
        let mut v = self.x.to_le_bytes().to_vec();
        v.extend_from_slice(&self.y.to_le_bytes());
        v
    }
}

#[allow(dead_code)]
pub struct Position(pub Vec2);

#[allow(dead_code)]
pub struct Velocity(pub Vec2);

pub struct Speed(pub f32);

#[allow(dead_code)]
pub struct DeployPosition(pub Vec2);

/// Entity that is being targeted for fighting
#[allow(dead_code)]
pub struct Target(pub Option<EntityId>);

#[allow(dead_code)]
pub struct Sprite(pub usize);

pub struct Bounds(pub Vec2);

struct Comps {
    position: ComponentId,
    velocity: ComponentId,
    speed: ComponentId,
    deploy_position: ComponentId,
    target: ComponentId,
    sprite: ComponentId,
    bounds: ComponentId,
}

const FIGHTER_FLAG: u32 = 0;

fn spawn_fighter(world: &mut World, comps: &Comps, pos: Vec2) -> EntityId {
    let id = world.spawn_entity(vec![
        (comps.position, pos.bytes()),
        (comps.velocity, Vec2::ZERO.bytes()),
        (comps.bounds, Vec2::ZERO.bytes()),
        (comps.speed, 30.0f32.to_le_bytes().to_vec()),
        (comps.target, vec![0; std::mem::size_of::<Target>()]),
        (comps.deploy_position, pos.bytes()),
        (comps.sprite, 0usize.to_le_bytes().to_vec()),
    ]);

    assert_eq!(world.member_groups(comps.bounds), vec![0]);

    world.set_flag(id, FIGHTER_FLAG);

    assert_eq!(world.has_flag(id, FIGHTER_FLAG), true);

    id
}

#[test]
fn spawn_fighter_game() {
    let mut world = World::new();

    let comps = Comps {
        position: world.register_component(1, std::mem::size_of::<Position>()),
        velocity: world.register_component(2, std::mem::size_of::<Velocity>()),
        speed: world.register_component(3, std::mem::size_of::<Speed>()),
        deploy_position: world.register_component(4, std::mem::size_of::<DeployPosition>()),
        target: world.register_component(5, std::mem::size_of::<Target>()),
        sprite: world.register_component(6, std::mem::size_of::<Sprite>()),
        bounds: world.register_component(7, std::mem::size_of::<Bounds>()),
    };

    assert_ne!(comps.bounds, comps.velocity);
    assert_ne!(comps.bounds, comps.position);
    assert_ne!(comps.bounds, comps.speed);
    assert_ne!(comps.bounds, comps.deploy_position);
    assert_ne!(comps.bounds, comps.sprite);

    assert_eq!(std::mem::size_of::<Bounds>(), std::mem::size_of::<Position>());
    assert_eq!(std::mem::size_of::<Speed>(), 4);

    for i in 0..1000 {
        let id = spawn_fighter(&mut world, &comps, Vec2::new(415.896, 500.6));
        assert_eq!(id, i);
    }
}
