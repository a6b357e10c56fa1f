use game_net::components::common::{Id, Vec3};
use game_net::components::entity::Entity;
use game_net::components::player::{movement_intent, AnimationState, MovementIntent, Player};
use game_net::network::server::player_input::{handle_input, input_direction, PlanarDirection};

#[test]
fn entity_keeps_its_id() {
    assert_eq!(Entity::new(7).id, 7);
    assert_eq!(Entity::new(255).id, 255);
}

#[test]
fn player_new_keeps_fields() {
    let p = Player::new(
        Vec3::new(1.0f32.to_bits(), 2.0f32.to_bits(), 3.0f32.to_bits()),
        Vec3::new(0, 0, 0),
        0.5f32.to_bits(),
        (-0.25f32).to_bits(),
        AnimationState::Walking,
    );
    assert_eq!(f32::from_bits(p.position.y), 2.0);
    assert_eq!(f32::from_bits(p.pitch), -0.25);
    assert_eq!(p.animation_state, AnimationState::Walking);
}

#[test]
fn movement_keys_decode() {
    assert_eq!(movement_intent(0), MovementIntent { x: 0, z: 0, jump: false });
    assert_eq!(movement_intent(1), MovementIntent { x: 0, z: -1, jump: false });
    assert_eq!(movement_intent(2), MovementIntent { x: 0, z: 1, jump: false });
    assert_eq!(movement_intent(4), MovementIntent { x: 1, z: 0, jump: false });
    assert_eq!(movement_intent(8), MovementIntent { x: -1, z: 0, jump: false });
    assert_eq!(movement_intent(16), MovementIntent { x: 0, z: 0, jump: true });
    assert_eq!(movement_intent(1 | 2 | 4), MovementIntent { x: 1, z: 0, jump: false });
    assert_eq!(movement_intent(0xffff), MovementIntent { x: 0, z: 0, jump: true });
}

#[test]
fn input_keys_decode() {
    assert_eq!(input_direction(1), PlanarDirection { x: -1, z: 0 });
    assert_eq!(input_direction(2), PlanarDirection { x: 1, z: 0 });
    assert_eq!(input_direction(4), PlanarDirection { x: 0, z: -1 });
    assert_eq!(input_direction(8), PlanarDirection { x: 0, z: 1 });
    assert_eq!(input_direction(1 | 8), PlanarDirection { x: -1, z: 1 });
    assert_eq!(input_direction(3), PlanarDirection { x: 0, z: 0 });
}

#[test]
fn input_reaches_players_with_the_id() {
    let players = vec![Id(3), Id(4), Id(3)];
    assert_eq!(handle_input(1, Id(3), &players), vec![0, 2]);
    assert_eq!(handle_input(1, Id(9), &players), Vec::<usize>::new());
    assert_eq!(handle_input(0, Id(3), &players), Vec::<usize>::new());
}
