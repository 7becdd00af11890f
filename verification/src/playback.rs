//! Playback decisions taken on each frame: how the snap and fade animations
//! move on as time passes, when autoplay takes its next step, how a bounded
//! autoplay counts down, and how a replay of the last steps is set up.

use vstd::prelude::*;
use crate::types::AnimationPhase;

verus! {

/// How long each phase of the snap animation lasts, in milliseconds.
pub const SNAP_PHASE_MS: u64 = 50;

/// The frame of the snap animation that is shown.
#[derive(Debug, Clone, Copy, PartialEq, Eq, Structural)]
pub enum AnimationFrame {
    Idle,
    FadeOut,
    FadeIn,
}

/// What the snap animation does on a frame.
#[derive(Debug, Clone, Copy, PartialEq, Eq, Structural)]
pub enum SnapAdvance {
    /// The current frame stays.
    Keep,
    /// The animation moves on to this frame; its clock starts again.
    Next(AnimationFrame),
    /// The animation ends.
    Done,
}

/// The snap animation shows each frame for [`SNAP_PHASE_MS`]: after that the
/// fade-out gives way to the fade-in, and the fade-in ends the animation.
pub open spec fn snap_advance_spec(frame: AnimationFrame, elapsed_ms: u64) -> SnapAdvance {
    if elapsed_ms < SNAP_PHASE_MS {
        SnapAdvance::Keep
    } else {
        match frame {
            AnimationFrame::FadeOut => SnapAdvance::Next(AnimationFrame::FadeIn),
            _ => SnapAdvance::Done,
        }
    }
}

/// What the snap animation does when `elapsed_ms` have passed since its
/// current frame began (see [`snap_advance_spec`]).
pub fn snap_frame_advance(frame: AnimationFrame, elapsed_ms: u64) -> (r: SnapAdvance)
    ensures
        r == snap_advance_spec(frame, elapsed_ms),
{
    if elapsed_ms < SNAP_PHASE_MS {
        return SnapAdvance::Keep;
    }
    match frame {
        AnimationFrame::FadeOut => SnapAdvance::Next(AnimationFrame::FadeIn),
        AnimationFrame::FadeIn | AnimationFrame::Idle => SnapAdvance::Done,
    }
}

/// What the fade animation does on a frame.
#[derive(Debug, Clone, Copy, PartialEq, Eq, Structural)]
pub enum PhaseAdvance {
    /// The phase goes on.
    Keep,
    /// The fade-out is over: the fade-in starts, with its own clock.
    StartFadeIn,
    /// The fade-in is over: the animation is idle again.
    Finish,
}

/// A phase that has lasted its full duration ends: the fade-out hands over
/// to the fade-in and the fade-in finishes; an idle animation stays idle.
pub open spec fn phase_advance_spec(phase: AnimationPhase, elapsed_ms: u64, duration_ms: u64) -> PhaseAdvance {
    if elapsed_ms < duration_ms {
        PhaseAdvance::Keep
    } else {
        match phase {
            AnimationPhase::FadeOut => PhaseAdvance::StartFadeIn,
            AnimationPhase::FadeIn => PhaseAdvance::Finish,
            AnimationPhase::Idle => PhaseAdvance::Keep,
        }
    }
}

/// What the fade animation does when `elapsed_ms` of a phase lasting
/// `duration_ms` have passed (see [`phase_advance_spec`]).
pub fn animation_phase_advance(phase: AnimationPhase, elapsed_ms: u64, duration_ms: u64) -> (r: PhaseAdvance)
    ensures
        r == phase_advance_spec(phase, elapsed_ms, duration_ms),
{
    if elapsed_ms < duration_ms {
        return PhaseAdvance::Keep;
    }
    match phase {
        AnimationPhase::FadeOut => PhaseAdvance::StartFadeIn,
        AnimationPhase::FadeIn => PhaseAdvance::Finish,
        AnimationPhase::Idle => PhaseAdvance::Keep,
    }
}

/// Autoplay takes a step when it runs while stepping, no fade is under way,
/// and twice the animation speed has passed since its last step.
pub open spec fn autoplay_due_spec(
    stepping: bool,
    autoplay: bool,
    phase: AnimationPhase,
    since_last_ms: u64,
    speed_ms: u64,
) -> bool {
    stepping && autoplay && phase == AnimationPhase::Idle && since_last_ms >= 2 * speed_ms
}

/// Whether autoplay takes a step on this frame (see [`autoplay_due_spec`]).
pub fn autoplay_due(stepping: bool, autoplay: bool, phase: AnimationPhase, since_last_ms: u64, speed_ms: u64) -> (r:
    bool)
    requires
        2 * speed_ms <= u64::MAX,
    ensures
        r == autoplay_due_spec(stepping, autoplay, phase, since_last_ms, speed_ms),
{
    stepping && autoplay && matches!(phase, AnimationPhase::Idle) && since_last_ms >= speed_ms * 2
}

/// After an autoplay step that `moved` or not: a bounded autoplay counts a
/// moved step off and stops when nothing is left or the step did not move;
/// an unbounded one stops only when the step did not move. The result is
/// the steps left and whether autoplay goes on.
pub open spec fn autoplay_after_spec(remaining: Option<usize>, moved: bool) -> (Option<usize>, bool) {
    match remaining {
        Some(n) => {
            let left: int = if moved && n > 0 {
                n - 1
            } else {
                n as int
            };
            if !moved || left == 0 {
                (None, false)
            } else {
                (Some(left as usize), true)
            }
        },
        None => (None, moved),
    }
}

/// The autoplay state after one of its steps (see [`autoplay_after_spec`]).
pub fn autoplay_after_step(remaining: Option<usize>, moved: bool) -> (r: (Option<usize>, bool))
    ensures
        r == autoplay_after_spec(remaining, moved),
{
    match remaining {
        Some(n) => {
            let left = if moved && n > 0 {
                n - 1
            } else {
                n
            };
            if !moved || left == 0 {
                (None, false)
            } else {
                (Some(left), true)
            }
        },
        None => (None, moved),
    }
}

/// A replay of the last steps: where it starts and how many steps autoplay
/// then takes.
#[derive(Debug, Clone, Copy, PartialEq, Eq, Structural)]
pub struct ReplayPlan {
    pub target_step: usize,
    pub steps: usize,
}

/// Replaying the last `count` steps goes back that many steps (no further
/// than the start) and plays them again; there is nothing to replay when not
/// stepping, while an animation runs, or at the first step.
pub open spec fn replay_plan_spec(stepping: bool, animating: bool, count: usize, current_step: usize) -> Option<
    ReplayPlan,
> {
    let back = if count < current_step {
        count
    } else {
        current_step
    };
    if !stepping || animating || current_step == 0 || back == 0 {
        None
    } else {
        Some(ReplayPlan { target_step: (current_step - back) as usize, steps: back })
    }
}

/// The replay of the last `count` steps (see [`replay_plan_spec`]).
pub fn replay_plan(stepping: bool, animating: bool, count: usize, current_step: usize) -> (r: Option<ReplayPlan>)
    ensures
        r == replay_plan_spec(stepping, animating, count, current_step),
{
    if !stepping || animating || current_step == 0 {
        return None;
    }
    let back = if count < current_step {
        count
    } else {
        current_step
    };
    if back == 0 {
        return None;
    }
    Some(ReplayPlan { target_step: current_step - back, steps: back })
}

/// The autoplay state after `k` steps that all moved.
pub open spec fn after_moves(remaining: Option<usize>, playing: bool, k: nat) -> (Option<usize>, bool)
    decreases k,
{
    if k == 0 || !playing {
        (remaining, playing)
    } else {
        let (r, p) = autoplay_after_spec(remaining, true);
        after_moves(r, p, (k - 1) as nat)
    }
}

/// A bounded autoplay of `n` steps keeps playing through its first `n - 1`
/// moved steps, with one step fewer left after each, and stops right after
/// the `n`-th.
pub proof fn law_bounded_autoplay_takes_n_steps(n: usize, k: nat)
    requires
        0 < n,
        k <= n,
    ensures
        k < n ==> after_moves(Some(n), true, k) == (Some((n - k) as usize), true),
        k == n ==> after_moves(Some(n), true, k) == (None::<usize>, false),
    decreases k,
{
    if k > 0 {
        if n == 1 {
            assert(autoplay_after_spec(Some(n), true) == (None::<usize>, false));
            assert(after_moves(None, false, (k - 1) as nat) == (None::<usize>, false));
        } else {
            law_bounded_autoplay_takes_n_steps((n - 1) as usize, (k - 1) as nat);
            assert(autoplay_after_spec(Some(n), true) == (Some((n - 1) as usize), true));
        }
    }
}

/// A replay plays back exactly the steps it went back over: from its start
/// step, autoplay stops after `steps` moved steps, on the step the replay
/// was asked from.
pub proof fn law_replay_returns_to_current_step(stepping: bool, animating: bool, count: usize, current_step: usize)
    requires
        replay_plan_spec(stepping, animating, count, current_step) is Some,
    ensures
        ({
            let p = replay_plan_spec(stepping, animating, count, current_step)->0;
            &&& p.target_step + p.steps == current_step
            &&& after_moves(Some(p.steps), true, p.steps as nat) == (None::<usize>, false)
            &&& forall|k: nat| k < p.steps ==> (#[trigger] after_moves(Some(p.steps), true, k)).1
        }),
{
    let p = replay_plan_spec(stepping, animating, count, current_step)->0;
    law_bounded_autoplay_takes_n_steps(p.steps, p.steps as nat);
    assert forall|k: nat| k < p.steps implies (#[trigger] after_moves(Some(p.steps), true, k)).1 by {
        law_bounded_autoplay_takes_n_steps(p.steps, k);
    }
}

} // verus!
