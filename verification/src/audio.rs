//! The game's sound effects and the asset files they are loaded from.
use vstd::prelude::*;

verus! {

/// A sound the game plays.
#[derive(Clone, Copy, Debug, PartialEq, Eq, Structural)]
pub enum SoundEffect {
    /// A projectile is fired.
    Shoot,
    /// The player dashes.
    Dash,
    /// A projectile hits a wall or an enemy.
    Hit,
    /// The player takes a step.
    Step,
}

/// The audio set-up of the game: it loads one asset per sound effect at
/// start-up.
pub struct AudioPlugin;

/// Asset path of each sound effect.
pub open spec fn spec_asset_path(effect: SoundEffect) -> Seq<char> {
    match effect {
        SoundEffect::Shoot => "audio/shoot.ogg"@,
        SoundEffect::Dash => "audio/dash.ogg"@,
        SoundEffect::Hit => "audio/hit.ogg"@,
        SoundEffect::Step => "audio/step.ogg"@,
    }
}

impl AudioPlugin {
    /// The asset file a sound effect is loaded from.
    pub fn asset_path(effect: SoundEffect) -> (path: &'static str)
        ensures
            path@ == spec_asset_path(effect),
    {
        match effect {
            SoundEffect::Shoot => "audio/shoot.ogg",
            SoundEffect::Dash => "audio/dash.ogg",
            SoundEffect::Hit => "audio/hit.ogg",
            SoundEffect::Step => "audio/step.ogg",
        }
    }
}

} // verus!
