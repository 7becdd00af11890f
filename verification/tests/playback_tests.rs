use oyo::playback::{
    animation_phase_advance, autoplay_after_step, autoplay_due, replay_plan, snap_frame_advance,
    AnimationFrame, PhaseAdvance, ReplayPlan, SnapAdvance, SNAP_PHASE_MS,
};
use oyo::types::AnimationPhase;

#[test]
fn snap_animation_moves_through_its_frames() {
    assert_eq!(snap_frame_advance(AnimationFrame::FadeOut, SNAP_PHASE_MS - 1), SnapAdvance::Keep);
    assert_eq!(
        snap_frame_advance(AnimationFrame::FadeOut, SNAP_PHASE_MS),
        SnapAdvance::Next(AnimationFrame::FadeIn)
    );
    assert_eq!(snap_frame_advance(AnimationFrame::FadeIn, 80), SnapAdvance::Done);
    assert_eq!(snap_frame_advance(AnimationFrame::Idle, 50), SnapAdvance::Done);
    assert_eq!(SNAP_PHASE_MS, 50);
}

#[test]
fn fade_phases_end_after_their_duration() {
    assert_eq!(animation_phase_advance(AnimationPhase::FadeOut, 99, 100), PhaseAdvance::Keep);
    assert_eq!(animation_phase_advance(AnimationPhase::FadeOut, 100, 100), PhaseAdvance::StartFadeIn);
    assert_eq!(animation_phase_advance(AnimationPhase::FadeIn, 250, 100), PhaseAdvance::Finish);
    assert_eq!(animation_phase_advance(AnimationPhase::Idle, 250, 100), PhaseAdvance::Keep);
    assert_eq!(animation_phase_advance(AnimationPhase::FadeIn, 0, 0), PhaseAdvance::Finish);
}

#[test]
fn autoplay_waits_twice_the_speed() {
    assert!(!autoplay_due(true, true, AnimationPhase::Idle, 399, 200));
    assert!(autoplay_due(true, true, AnimationPhase::Idle, 400, 200));
    assert!(!autoplay_due(true, true, AnimationPhase::FadeIn, 400, 200));
    assert!(!autoplay_due(false, true, AnimationPhase::Idle, 400, 200));
    assert!(!autoplay_due(true, false, AnimationPhase::Idle, 400, 200));
}

#[test]
fn bounded_autoplay_counts_down() {
    assert_eq!(autoplay_after_step(Some(3), true), (Some(2), true));
    assert_eq!(autoplay_after_step(Some(1), true), (None, false));
    assert_eq!(autoplay_after_step(Some(3), false), (None, false));
    assert_eq!(autoplay_after_step(None, true), (None, true));
    assert_eq!(autoplay_after_step(None, false), (None, false));
    // Three moved steps end a replay of three.
    let mut state = (Some(3), true);
    let mut steps = 0;
    while state.1 {
        state = autoplay_after_step(state.0, true);
        steps += 1;
    }
    assert_eq!(steps, 3);
}

#[test]
fn replay_goes_back_and_plays_again() {
    assert_eq!(replay_plan(true, false, 2, 5), Some(ReplayPlan { target_step: 3, steps: 2 }));
    assert_eq!(replay_plan(true, false, 9, 5), Some(ReplayPlan { target_step: 0, steps: 5 }));
    assert_eq!(replay_plan(true, false, 0, 5), None);
    assert_eq!(replay_plan(true, false, 2, 0), None);
    assert_eq!(replay_plan(true, true, 2, 5), None);
    assert_eq!(replay_plan(false, false, 2, 5), None);
}
