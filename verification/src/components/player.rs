use vstd::prelude::*;
use crate::components::common::Vec3;
use crate::network::net_message::BitMask;

verus! {

/// The animation a player's character shows.
#[derive(Clone, Copy, Debug, PartialEq, Eq, Structural)]
pub enum AnimationState {
    Idle,
    Walking,
}

/// The state of a player that the server sends to its clients.
///
/// `yaw` and `pitch` are IEEE-754 bit patterns of `f32` angles in radians.
#[derive(Clone, Copy, Debug, PartialEq, Eq, Structural)]
pub struct Player {
    pub position: Vec3,
    pub linear_velocity: Vec3,
    pub yaw: u32,
    pub pitch: u32,
    pub animation_state: AnimationState,
}

impl Player {
    pub fn new(
        position: Vec3,
        linear_velocity: Vec3,
        yaw: u32,
        pitch: u32,
        animation_state: AnimationState,
    ) -> (r: Self)
        ensures
            r == (Player { position, linear_velocity, yaw, pitch, animation_state }),
    {
        Self { position, linear_velocity, yaw, pitch, animation_state }
    }
}

/// Whether the key with the given bit is held in `keymask`.
pub open spec fn key_held(keymask: BitMask, bit: BitMask) -> bool {
    keymask & bit != 0
}

/// +1, -1 or 0 for a pair of opposite keys.
pub open spec fn axis(plus: bool, minus: bool) -> i8 {
    if plus && !minus {
        1i8
    } else if minus && !plus {
        -1i8
    } else {
        0i8
    }
}

/// What a client's key mask asks of its player's body: a walking direction in
/// the player's own frame (each axis -1, 0 or 1) and whether to jump.
#[derive(Clone, Copy, Debug, PartialEq, Eq, Structural)]
pub struct MovementIntent {
    pub x: i8,
    pub z: i8,
    pub jump: bool,
}

/// The intent of a key mask: bit 1 is -z (forward), bit 2 is +z, bit 4 is +x,
/// bit 8 is -x and bit 16 is a jump.
pub open spec fn movement_intent_spec(encoded_input: BitMask) -> MovementIntent {
    MovementIntent {
        x: axis(key_held(encoded_input, 4), key_held(encoded_input, 8)),
        z: axis(key_held(encoded_input, 2), key_held(encoded_input, 1)),
        jump: key_held(encoded_input, 16),
    }
}

/// Decodes the keys of a movement input. The body then walks, at walking
/// speed, along this direction normalised and turned by the player's yaw, and
/// a jump adds one unit of upward velocity.
pub fn movement_intent(encoded_input: BitMask) -> (r: MovementIntent)
    ensures
        r == movement_intent_spec(encoded_input),
{
    let mut x: i8 = 0;
    let mut z: i8 = 0;
    if encoded_input & 1 > 0 {
        z = z - 1;
    }
    if encoded_input & 2 > 0 {
        z = z + 1;
    }
    if encoded_input & 4 > 0 {
        x = x + 1;
    }
    if encoded_input & 8 > 0 {
        x = x - 1;
    }
    MovementIntent { x, z, jump: encoded_input & 16 > 0 }
}

/// The movement keys act independently: the sideways direction comes from
/// bits 4 (+x) and 8 (-x) alone, the forward direction from bits 2 (+z) and 1
/// (-z) alone (a pair held together cancels), and bit 16 alone asks for a jump.
pub proof fn lemma_movement_keys(encoded_input: BitMask)
    ensures
        movement_intent_spec(encoded_input).x == 1 <==> (encoded_input & 4 != 0
            && encoded_input & 8 == 0),
        movement_intent_spec(encoded_input).x == -1 <==> (encoded_input & 8 != 0
            && encoded_input & 4 == 0),
        movement_intent_spec(encoded_input).x == 0 <==> ((encoded_input & 4 != 0) == (
        encoded_input & 8 != 0)),
        movement_intent_spec(encoded_input).z == 1 <==> (encoded_input & 2 != 0
            && encoded_input & 1 == 0),
        movement_intent_spec(encoded_input).z == -1 <==> (encoded_input & 1 != 0
            && encoded_input & 2 == 0),
        movement_intent_spec(encoded_input).z == 0 <==> ((encoded_input & 2 != 0) == (
        encoded_input & 1 != 0)),
        movement_intent_spec(encoded_input).jump <==> encoded_input & 16 != 0,
{
}

/// Masks that agree on the sideways keys ask for the same sideways direction,
/// whatever else is held; likewise for the forward keys and the jump key.
pub proof fn lemma_movement_axes_independent(a: BitMask, b: BitMask)
    ensures
        (a & 4 != 0) == (b & 4 != 0) && (a & 8 != 0) == (b & 8 != 0) ==> movement_intent_spec(
            a,
        ).x == movement_intent_spec(b).x,
        (a & 1 != 0) == (b & 1 != 0) && (a & 2 != 0) == (b & 2 != 0) ==> movement_intent_spec(
            a,
        ).z == movement_intent_spec(b).z,
        (a & 16 != 0) == (b & 16 != 0) ==> movement_intent_spec(a).jump
            == movement_intent_spec(b).jump,
{
    lemma_movement_keys(a);
    lemma_movement_keys(b);
}

} // verus!
