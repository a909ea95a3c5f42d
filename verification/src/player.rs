//! The player's controls and the frame choices of the player's sprite sheet.
use vstd::prelude::*;

verus! {

/// Direction keys held this frame (each either the letter or the arrow key).
#[derive(Clone, Copy, Debug, PartialEq, Eq, Structural)]
pub struct MoveKeys {
    pub up: bool,
    pub down: bool,
    pub left: bool,
    pub right: bool,
}

pub open spec fn key_value(pressed: bool) -> int {
    if pressed { 1 } else { 0 }
}

/// The unnormalised movement direction: one step right per right key minus
/// one per left key, one step up per up key minus one per down key.
pub fn input_direction(keys: MoveKeys) -> (dir: (i32, i32))
    ensures
        dir.0 == key_value(keys.right) - key_value(keys.left),
        dir.1 == key_value(keys.up) - key_value(keys.down),
{
    let mut dx: i32 = 0;
    let mut dy: i32 = 0;
    if keys.up {
        dy = dy + 1;
    }
    if keys.down {
        dy = dy - 1;
    }
    if keys.left {
        dx = dx - 1;
    }
    if keys.right {
        dx = dx + 1;
    }
    (dx, dy)
}

/// Pressing opposite keys together cancels them, and the direction is zero
/// exactly when no axis has a single key held.
pub proof fn lemma_direction_zero(keys: MoveKeys)
    ensures
        (key_value(keys.right) - key_value(keys.left) == 0 && key_value(keys.up) - key_value(keys.down)
            == 0) <==> (keys.right == keys.left && keys.up == keys.down),
{
}

/// First frame of the walk cycle of the sprite sheet.
pub const WALK_FRAME_A: usize = 6;
/// Second frame of the walk cycle, also used for diagonal movement.
pub const WALK_FRAME_B: usize = 7;
/// Frame of the player standing still.
pub const STAND_FRAME: usize = 0;
/// First frame of the dash overlay animation.
pub const DASH_FIRST_FRAME: usize = 12;
/// Frames in the dash overlay animation.
pub const DASH_FRAMES: usize = 5;
/// First frame of the idle overlay animation.
pub const IDLE_FIRST_FRAME: usize = 18;
/// Frames in the idle overlay animation.
pub const IDLE_FRAMES: usize = 6;

/// The frame after `index` in an animation of `count` frames starting at
/// `first`, wrapping round to `first`.
pub open spec fn cycle_next(first: int, count: int, index: int) -> int {
    first + (index - first + 1) % count
}

/// The base sprite's frame: standing still shows the standing frame; moving
/// alternates between the two walk frames on every animation tick, except
/// that diagonal movement always shows the second walk frame, and a frame
/// outside the walk cycle is brought back to its first frame.
pub open spec fn spec_base_frame(moving: bool, diagonal: bool, tick: bool, index: usize) -> usize {
    if !moving {
        STAND_FRAME
    } else {
        let stepped = if tick {
            if index == WALK_FRAME_A { WALK_FRAME_B } else { WALK_FRAME_A }
        } else {
            index
        };
        if diagonal {
            WALK_FRAME_B
        } else if stepped != WALK_FRAME_A && stepped != WALK_FRAME_B {
            WALK_FRAME_A
        } else {
            stepped
        }
    }
}

/// Frame of the base player sprite after this animation update.
pub fn base_frame(moving: bool, diagonal: bool, tick: bool, index: usize) -> (frame: usize)
    ensures
        frame == spec_base_frame(moving, diagonal, tick, index),
{
    if !moving {
        return STAND_FRAME;
    }
    let mut i = index;
    if tick {
        i = if i == WALK_FRAME_A { WALK_FRAME_B } else { WALK_FRAME_A };
    }
    if diagonal {
        WALK_FRAME_B
    } else if i != WALK_FRAME_A && i != WALK_FRAME_B {
        WALK_FRAME_A
    } else {
        i
    }
}

/// Frame of the dash overlay after this animation update: while dashing it
/// advances through the dash frames on each tick; otherwise it rests on the
/// first dash frame.
pub fn dash_overlay_frame(dashing: bool, tick: bool, index: usize) -> (frame: usize)
    requires
        dashing && tick ==> index >= DASH_FIRST_FRAME,
    ensures
        frame == if !dashing {
            DASH_FIRST_FRAME as int
        } else if tick {
            cycle_next(DASH_FIRST_FRAME as int, DASH_FRAMES as int, index as int)
        } else {
            index as int
        },
{
    if !dashing {
        DASH_FIRST_FRAME
    } else if tick {
        DASH_FIRST_FRAME + (index - DASH_FIRST_FRAME + 1) % DASH_FRAMES
    } else {
        index
    }
}

/// Frame of the idle overlay after this animation update: while idle it
/// advances through the idle frames on each tick; otherwise it keeps its
/// frame (the overlay is hidden).
pub fn idle_overlay_frame(idle: bool, tick: bool, index: usize) -> (frame: usize)
    requires
        idle && tick ==> index >= IDLE_FIRST_FRAME,
    ensures
        frame == if idle && tick {
            cycle_next(IDLE_FIRST_FRAME as int, IDLE_FRAMES as int, index as int)
        } else {
            index as int
        },
{
    if idle && tick {
        IDLE_FIRST_FRAME + (index - IDLE_FIRST_FRAME + 1) % IDLE_FRAMES
    } else {
        index
    }
}

/// A moving player is always shown on one of the two walk frames, a still
/// one on the standing frame.
pub proof fn lemma_base_frame_in_cycle(moving: bool, diagonal: bool, tick: bool, index: usize)
    ensures
        moving ==> (spec_base_frame(moving, diagonal, tick, index) == WALK_FRAME_A || spec_base_frame(
            moving,
            diagonal,
            tick,
            index,
        ) == WALK_FRAME_B),
        !moving ==> spec_base_frame(moving, diagonal, tick, index) == STAND_FRAME,
{
}

/// Straight movement alternates the walk frames: two ticks from a walk frame
/// come back to it, one tick moves to the other.
pub proof fn lemma_walk_alternates(index: usize)
    requires
        index == WALK_FRAME_A || index == WALK_FRAME_B,
    ensures
        spec_base_frame(true, false, true, index) != index,
        spec_base_frame(true, false, true, spec_base_frame(true, false, true, index)) == index,
{
}

/// Overlay animations stay within their frames: from any frame at or after
/// the first, the next frame is one of the `count` frames of the animation,
/// and from within the animation `count` steps return to the start frame.
pub proof fn lemma_cycle_stays_in_animation(first: int, count: int, index: int)
    requires
        0 < count,
        first <= index,
    ensures
        first <= cycle_next(first, count, index) < first + count,
        first <= index < first + count ==> cycle_next(first, count, index) == if index + 1 < first
            + count {
            index + 1
        } else {
            first
        },
{
    assert(0 <= (index - first + 1) % count < count) by (nonlinear_arith)
        requires
            0 < count,
    ;
    if first <= index < first + count {
        if index + 1 < first + count {
            vstd::arithmetic::div_mod::lemma_small_mod((index - first + 1) as nat, count as nat);
        } else {
            vstd::arithmetic::div_mod::lemma_mod_self_0(count);
        }
    }
}

} // verus!

verus! {

/// The base frame rules, case by case: standing shows frame 0; diagonal
/// movement shows frame 7; straight movement keeps a walk frame (6 or 7)
/// between animation ticks and swaps it on a tick; straight movement from any
/// other frame shows frame 6.
pub proof fn lemma_base_frame_rules(moving: bool, diagonal: bool, tick: bool, index: usize)
    ensures
        !moving ==> spec_base_frame(moving, diagonal, tick, index) == 0,
        moving && diagonal ==> spec_base_frame(moving, diagonal, tick, index) == 7,
        moving && !diagonal && !tick && (index == 6 || index == 7) ==> spec_base_frame(
            moving,
            diagonal,
            tick,
            index,
        ) == index,
        moving && !diagonal && tick && index == 6 ==> spec_base_frame(moving, diagonal, tick, index)
            == 7,
        moving && !diagonal && tick && index == 7 ==> spec_base_frame(moving, diagonal, tick, index)
            == 6,
        moving && !diagonal && index != 6 && index != 7 ==> spec_base_frame(
            moving,
            diagonal,
            tick,
            index,
        ) == 6,
{
}

/// Between animation ticks, straight movement keeps the walk frame shown.
pub proof fn lemma_walk_frame_held_between_ticks(index: usize)
    requires
        index == 6 || index == 7,
    ensures
        spec_base_frame(true, false, false, index) == index,
{
}

} // verus!

verus! {

/// Each component of the movement direction is -1, 0 or 1: +1 exactly when
/// only the positive key of that axis is held, -1 exactly when only the
/// negative one is.
pub proof fn lemma_direction_components(keys: MoveKeys)
    ensures
        (key_value(keys.right) - key_value(keys.left) == 1) <==> (keys.right && !keys.left),
        (key_value(keys.right) - key_value(keys.left) == -1) <==> (!keys.right && keys.left),
        (key_value(keys.right) - key_value(keys.left) == 0) <==> (keys.right == keys.left),
        (key_value(keys.up) - key_value(keys.down) == 1) <==> (keys.up && !keys.down),
        (key_value(keys.up) - key_value(keys.down) == -1) <==> (!keys.up && keys.down),
        (key_value(keys.up) - key_value(keys.down) == 0) <==> (keys.up == keys.down),
{
}

} // verus!
