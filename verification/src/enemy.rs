//! How a chasing enemy steers around walls. The geometry (look-ahead points,
//! distances) is measured by the caller; this module makes the choice.
use vstd::prelude::*;

verus! {

/// The heading an enemy commits to for its next stretch of pursuit.
#[derive(Clone, Copy, Debug, PartialEq, Eq, Structural)]
pub enum Detour {
    /// Straight at the player.
    Direct,
    /// Mostly sideways, to the right of the direct heading.
    Right,
    /// Mostly sideways, to the left of the direct heading.
    Left,
    /// Away from the player, slowly: the way ahead and both sides are blocked.
    BackUp,
}

/// What the enemy sees when it re-plans its path.
#[derive(Clone, Copy, Debug, PartialEq, Eq, Structural)]
pub struct PathView {
    /// A wall lies near the point one look-ahead along the direct heading.
    pub ahead_blocked: bool,
    /// A wall lies near the point one look-ahead to the right.
    pub right_blocked: bool,
    /// A wall lies near the point one look-ahead to the left.
    pub left_blocked: bool,
    /// Going left would end clearly (by more than the tie margin) closer to
    /// the player than going right.
    pub left_clearly_closer: bool,
}

/// The heading chosen: straight when nothing blocks the way; otherwise a free
/// side, the clearly closer one when both are free (right on a near tie);
/// backing up when both sides are blocked.
pub open spec fn spec_choose_detour(v: PathView) -> Detour {
    if !v.ahead_blocked {
        Detour::Direct
    } else if !v.right_blocked && !v.left_blocked {
        if v.left_clearly_closer { Detour::Left } else { Detour::Right }
    } else if !v.right_blocked {
        Detour::Right
    } else if !v.left_blocked {
        Detour::Left
    } else {
        Detour::BackUp
    }
}

/// Chooses the heading of an enemy that re-plans its pursuit.
pub fn choose_detour(v: PathView) -> (d: Detour)
    ensures
        d == spec_choose_detour(v),
{
    if !v.ahead_blocked {
        return Detour::Direct;
    }
    if !v.right_blocked && !v.left_blocked {
        if v.left_clearly_closer {
            Detour::Left
        } else {
            Detour::Right
        }
    } else if !v.right_blocked {
        Detour::Right
    } else if !v.left_blocked {
        Detour::Left
    } else {
        Detour::BackUp
    }
}

/// The chosen heading never leads into a side known to be blocked, and the
/// enemy backs up only when every way forward is blocked.
pub proof fn lemma_detour_avoids_blocked(v: PathView)
    ensures
        spec_choose_detour(v) == Detour::Right ==> !v.right_blocked,
        spec_choose_detour(v) == Detour::Left ==> !v.left_blocked,
        spec_choose_detour(v) == Detour::BackUp <==> (v.ahead_blocked && v.right_blocked
            && v.left_blocked),
        spec_choose_detour(v) == Detour::Direct <==> !v.ahead_blocked,
{
}

} // verus!

verus! {

/// When the way ahead is blocked and both sides are free, the enemy turns
/// left exactly when left is clearly closer to the player, otherwise right.
/// When exactly one side is free it takes that side.
pub proof fn lemma_detour_side_choice(v: PathView)
    requires
        v.ahead_blocked,
    ensures
        (!v.right_blocked && !v.left_blocked) ==> (spec_choose_detour(v) == Detour::Left
            <==> v.left_clearly_closer),
        (!v.right_blocked && !v.left_blocked) ==> (spec_choose_detour(v) == Detour::Right
            <==> !v.left_clearly_closer),
        (!v.right_blocked && v.left_blocked) ==> spec_choose_detour(v) == Detour::Right,
        (v.right_blocked && !v.left_blocked) ==> spec_choose_detour(v) == Detour::Left,
{
}

} // verus!
