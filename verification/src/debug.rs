//! Debug display switches: collision boxes and sprite visibility.
use vstd::prelude::*;

verus! {

/// Which debug aids are shown.
#[derive(Clone, Copy, Debug, PartialEq, Eq, Structural)]
pub struct DebugOptions {
    /// Draw the collision box of the player, the enemies and the walls.
    pub show_collisions: bool,
    /// Draw the sprites.
    pub show_sprites: bool,
}

impl Default for DebugOptions {
    /// Collision boxes hidden, sprites shown.
    fn default() -> (d: DebugOptions)
        ensures
            !d.show_collisions,
            d.show_sprites,
    {
        DebugOptions { show_collisions: false, show_sprites: true }
    }
}

/// The switches after F1 (collision boxes) and F2 (sprites) were or were
/// not pressed: each pressed key flips its switch.
pub open spec fn after_debug_keys(d: DebugOptions, f1: bool, f2: bool) -> DebugOptions {
    DebugOptions {
        show_collisions: if f1 { !d.show_collisions } else { d.show_collisions },
        show_sprites: if f2 { !d.show_sprites } else { d.show_sprites },
    }
}

impl DebugOptions {
    /// Applies the debug keys pressed this frame.
    pub fn toggle_debug(&mut self, f1_pressed: bool, f2_pressed: bool)
        ensures
            *final(self) == after_debug_keys(*old(self), f1_pressed, f2_pressed),
    {
        if f1_pressed {
            self.show_collisions = !self.show_collisions;
        }
        if f2_pressed {
            self.show_sprites = !self.show_sprites;
        }
    }
}

/// Pressing the same debug keys twice restores the switches.
pub proof fn lemma_debug_keys_twice_restore(d: DebugOptions, f1: bool, f2: bool)
    ensures
        after_debug_keys(after_debug_keys(d, f1, f2), f1, f2) == d,
{
}

} // verus!

verus! {

/// F1 flips exactly the collision-box switch and F2 exactly the sprite
/// switch; a key not pressed leaves its switch alone.
pub proof fn lemma_debug_keys_flip_their_switch(d: DebugOptions, f1: bool, f2: bool)
    ensures
        after_debug_keys(d, f1, f2).show_collisions == (d.show_collisions != f1),
        after_debug_keys(d, f1, f2).show_sprites == (d.show_sprites != f2),
{
}

} // verus!
