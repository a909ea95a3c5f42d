//! The play session: its phase, its score and the key presses that move it
//! from one phase to the next.
use vstd::prelude::*;

verus! {

/// Phase of a play session.
#[derive(Clone, Copy, Debug, PartialEq, Eq, Structural)]
pub enum GameState {
    Menu,
    Playing,
    Paused,
    GameOver,
}

/// The session record: its phase and the number of enemies destroyed in the
/// current run. (The elapsed run time is a float and is kept by the caller.)
#[derive(Clone, Copy, Debug, PartialEq, Eq, Structural)]
pub struct Game {
    pub state: GameState,
    pub score: u32,
}

/// The session after the pause key was (or was not) pressed: Escape toggles
/// between `Playing` and `Paused` and does nothing in any other phase.
pub open spec fn after_pause_key(g: Game, escape_pressed: bool) -> Game {
    if !escape_pressed {
        g
    } else {
        match g.state {
            GameState::Playing => Game { state: GameState::Paused, ..g },
            GameState::Paused => Game { state: GameState::Playing, ..g },
            _ => g,
        }
    }
}

/// Whether pressing Space in this phase starts a new run.
pub open spec fn starts_run(state: GameState) -> bool {
    state == GameState::Menu || state == GameState::GameOver
}

/// The session after the start key was (or was not) pressed: from the menu or
/// the game-over screen Space starts a fresh run with a score of zero.
pub open spec fn after_start_key(g: Game, space_pressed: bool) -> Game {
    if space_pressed && starts_run(g.state) {
        Game { state: GameState::Playing, score: 0 }
    } else {
        g
    }
}

/// The session after an enemy touched the player: a running game is lost.
pub open spec fn after_player_caught(g: Game) -> Game {
    if g.state == GameState::Playing {
        Game { state: GameState::GameOver, ..g }
    } else {
        g
    }
}

/// The session after a projectile destroyed an enemy: one point while playing.
pub open spec fn after_enemy_destroyed(g: Game) -> Game {
    if g.state == GameState::Playing {
        Game { score: (g.score + 1) as u32, ..g }
    } else {
        g
    }
}

impl Game {
    /// The session as the game starts: at the menu, with no score.
    pub fn new() -> (g: Game)
        ensures
            g.state == GameState::Menu,
            g.score == 0,
    {
        Game { state: GameState::Menu, score: 0 }
    }

    /// Whether the world is running (movement, collisions, the run clock).
    pub fn is_playing(&self) -> (b: bool)
        ensures
            b == (self.state == GameState::Playing),
    {
        match self.state {
            GameState::Playing => true,
            _ => false,
        }
    }

    /// Pause handling: Escape toggles between playing and paused.
    pub fn handle_pause(&mut self, escape_pressed: bool)
        ensures
            *final(self) == after_pause_key(*old(self), escape_pressed),
    {
        if !escape_pressed {
            return;
        }
        match self.state {
            GameState::Playing => {
                self.state = GameState::Paused;
            },
            GameState::Paused => {
                self.state = GameState::Playing;
            },
            _ => {},
        }
    }

    /// Start handling: Space at the menu or after a lost run starts a new run
    /// and resets the score. Returns whether a run was started, in which case
    /// the caller clears the world, resets the run clock and spawns the player.
    pub fn handle_state_transitions(&mut self, space_pressed: bool) -> (started: bool)
        ensures
            started == (space_pressed && starts_run(old(self).state)),
            *final(self) == after_start_key(*old(self), space_pressed),
    {
        if !space_pressed {
            return false;
        }
        match self.state {
            GameState::Menu | GameState::GameOver => {
                self.state = GameState::Playing;
                self.score = 0;
                true
            },
            _ => false,
        }
    }

    /// An enemy reached the player: a running game is over.
    pub fn player_caught(&mut self)
        ensures
            *final(self) == after_player_caught(*old(self)),
    {
        if self.is_playing() {
            self.state = GameState::GameOver;
        }
    }

    /// A projectile destroyed an enemy: a running game scores one point.
    pub fn enemy_destroyed(&mut self)
        requires
            old(self).state == GameState::Playing ==> old(self).score < u32::MAX,
        ensures
            *final(self) == after_enemy_destroyed(*old(self)),
    {
        if self.is_playing() {
            self.score = self.score + 1;
        }
    }
}

/// Splits a whole number of elapsed seconds into minutes and seconds, as the
/// run clock shows them.
pub fn clock_parts(whole_seconds: u32) -> (parts: (u32, u32))
    ensures
        parts.0 == whole_seconds / 60,
        parts.1 == whole_seconds % 60,
        parts.0 * 60 + parts.1 == whole_seconds,
        parts.1 < 60,
{
    (whole_seconds / 60, whole_seconds % 60)
}

} // verus!

verus! {

/// Pressing Escape twice returns the session to where it was: pausing and
/// resuming undo each other, and in any other phase the key does nothing.
pub proof fn lemma_pause_key_twice_restores(g: Game)
    ensures
        after_pause_key(after_pause_key(g, true), true) == g,
{
}

/// Escape has no effect at the menu or on the game-over screen.
pub proof fn lemma_pause_key_ignored_outside_run(g: Game)
    requires
        g.state == GameState::Menu || g.state == GameState::GameOver,
    ensures
        after_pause_key(g, true) == g,
{
}

/// Space from the menu or the game-over screen always gives a fresh run:
/// playing, with a score of zero, whatever the previous score was.
pub proof fn lemma_start_key_gives_fresh_run(g: Game)
    requires
        g.state == GameState::Menu || g.state == GameState::GameOver,
    ensures
        after_start_key(g, true) == (Game { state: GameState::Playing, score: 0 }),
{
}

/// Space does nothing while a run is in progress, paused or not.
pub proof fn lemma_start_key_ignored_during_run(g: Game)
    requires
        g.state == GameState::Playing || g.state == GameState::Paused,
    ensures
        after_start_key(g, true) == g,
{
}

/// Outside a running game (menu, pause, game over) neither an enemy contact
/// nor a hit changes the session.
pub proof fn lemma_frozen_unless_playing(g: Game)
    requires
        g.state != GameState::Playing,
    ensures
        after_player_caught(g) == g,
        after_enemy_destroyed(g) == g,
{
}

/// A run is lost only while it is being played: the game-over screen is never
/// entered from the menu or from the pause screen.
pub proof fn lemma_game_over_only_from_play(g: Game)
    requires
        g.state != GameState::GameOver,
        after_player_caught(g).state == GameState::GameOver,
    ensures
        g.state == GameState::Playing,
{
}

/// A destroyed enemy adds exactly one point to a running game and leaves it
/// running.
pub proof fn lemma_hit_scores_one(g: Game)
    requires
        g.state == GameState::Playing,
        g.score < u32::MAX,
    ensures
        after_enemy_destroyed(g).state == GameState::Playing,
        after_enemy_destroyed(g).score == g.score + 1,
{
}

} // verus!

verus! {

/// A frame without Escape leaves the session exactly as it was, in every
/// phase; with Escape only the phase can change, never the score.
pub proof fn lemma_pause_needs_escape(g: Game)
    ensures
        after_pause_key(g, false) == g,
        after_pause_key(g, true).score == g.score,
        g.state == GameState::Playing ==> after_pause_key(g, true).state == GameState::Paused,
        g.state == GameState::Paused ==> after_pause_key(g, true).state == GameState::Playing,
{
}

/// A frame without Space leaves the session exactly as it was, in every
/// phase (a lost run is never restarted by itself).
pub proof fn lemma_start_needs_space(g: Game)
    ensures
        after_start_key(g, false) == g,
{
}

/// An enemy reaching a running game ends it and keeps its score.
pub proof fn lemma_caught_ends_run(g: Game)
    requires
        g.state == GameState::Playing,
    ensures
        after_player_caught(g).state == GameState::GameOver,
        after_player_caught(g).score == g.score,
{
}

} // verus!

verus! {

/// Space starts a run exactly from the menu and from the game-over screen.
pub proof fn lemma_starts_run_phases(s: GameState)
    ensures
        starts_run(s) <==> (s == GameState::Menu || s == GameState::GameOver),
{
}

} // verus!
