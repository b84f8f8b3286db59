use smear_cursor::config::{default_duration_ms, default_max_duration_ms};
use smear_cursor::state::{CursorMotion, Frame, Launch, SmearCursorState};

fn motion(row: isize, viewport_top: isize, scrolled_rows: isize, alt_screen: bool) -> CursorMotion {
    CursorMotion {
        row,
        viewport_top,
        viewport_rows: 24,
        scrolled_rows,
        content_shift: 0,
        alt_screen,
    }
}

#[test]
fn defaults_match_the_documentation() {
    assert_eq!(default_duration_ms(), 130);
    assert_eq!(default_max_duration_ms(), 250);
}

#[test]
fn a_new_state_is_not_animating() {
    let state = SmearCursorState::new();
    assert!(!state.is_animating());
}

#[test]
fn the_first_sighting_snaps_and_the_next_frame_chases() {
    let mut state = SmearCursorState::new();
    assert_eq!(state.update(motion(10, 0, 0, false), false, true), Frame::FirstSighting);
    assert_eq!(
        state.update(motion(10, 0, 0, false), false, true),
        Frame::Chase { scrolled_rows: 0, output_burst: false }
    );
}

#[test]
fn scrolling_the_view_away_from_the_cursor_snaps() {
    let mut state = SmearCursorState::new();
    state.update(motion(10, 0, 0, false), false, true);
    assert_eq!(state.start_animation(false, true), Launch::Animate);
    assert!(state.is_animating());
    // The user scrolled back: the viewport moved, the cursor did not
    assert_eq!(state.update(motion(10, -5, 0, false), false, true), Frame::ViewScrolled);
    assert!(!state.is_animating());
}

#[test]
fn output_pushing_the_cursor_down_is_a_burst_unless_smear_output() {
    let mut state = SmearCursorState::new();
    state.update(motion(10, 0, 0, false), false, true);
    // Output wrote a line and the view followed it
    assert_eq!(
        state.update(motion(11, 1, 0, false), false, true),
        Frame::Chase { scrolled_rows: 0, output_burst: true }
    );
    assert_eq!(
        state.update(motion(12, 2, 0, false), true, true),
        Frame::Chase { scrolled_rows: 0, output_burst: false }
    );
    // Moving back up is not output
    assert_eq!(
        state.update(motion(11, 2, 0, false), false, true),
        Frame::Chase { scrolled_rows: 0, output_burst: false }
    );
}

#[test]
fn full_screen_scrolls_carry_the_smear_capped_at_a_screenful() {
    let mut state = SmearCursorState::new();
    // The counter is only sampled once the cursor has been seen, and only
    // read from the frame after that
    assert_eq!(state.update(motion(5, 0, 90, true), false, true), Frame::FirstSighting);
    assert_eq!(
        state.update(motion(5, 0, 100, true), false, true),
        Frame::Chase { scrolled_rows: 0, output_burst: false }
    );
    assert_eq!(
        state.update(motion(5, 0, 112, true), false, true),
        Frame::Chase { scrolled_rows: 12, output_burst: false }
    );
    // Jumping to the end of a long file drags in from one screen away
    assert_eq!(
        state.update(motion(5, 0, 5000, true), false, true),
        Frame::Chase { scrolled_rows: 24, output_burst: false }
    );
    assert_eq!(
        state.update(motion(5, 0, 100, true), false, true),
        Frame::Chase { scrolled_rows: -24, output_burst: false }
    );
}

#[test]
fn a_repainting_application_is_carried_by_its_content_shift() {
    let mut state = SmearCursorState::new();
    state.update(motion(5, 0, 7, true), false, true);
    state.update(motion(5, 0, 7, true), false, true);
    let mut repainted = motion(5, 0, 7, true);
    repainted.content_shift = 3;
    assert_eq!(
        state.update(repainted, false, true),
        Frame::Chase { scrolled_rows: 3, output_burst: false }
    );
    // What the terminal counted wins over what the content showed
    let mut both = motion(5, 0, 9, true);
    both.content_shift = 3;
    assert_eq!(
        state.update(both, false, true),
        Frame::Chase { scrolled_rows: 2, output_burst: false }
    );
}

#[test]
fn scroll_smearing_can_be_turned_off_and_never_applies_to_the_main_screen() {
    let mut state = SmearCursorState::new();
    state.update(motion(5, 0, 0, true), false, false);
    state.update(motion(5, 0, 0, true), false, false);
    assert_eq!(
        state.update(motion(5, 0, 10, true), false, false),
        Frame::Chase { scrolled_rows: 0, output_burst: false }
    );
    let mut main = SmearCursorState::new();
    main.update(motion(5, 0, 0, false), false, true);
    main.update(motion(5, 0, 0, false), false, true);
    assert_eq!(
        main.update(motion(5, 0, 10, false), false, true),
        Frame::Chase { scrolled_rows: 0, output_burst: false }
    );
}

#[test]
fn switching_screens_discards_the_scroll_reading() {
    let mut state = SmearCursorState::new();
    state.update(motion(5, 0, 50, false), false, true);
    state.update(motion(5, 0, 50, false), false, true);
    // The alternate screen keeps its own counter: no diff across the switch
    assert_eq!(
        state.update(motion(5, 0, 3, true), false, true),
        Frame::Chase { scrolled_rows: 0, output_burst: false }
    );
    assert_eq!(
        state.update(motion(5, 0, 4, true), false, true),
        Frame::Chase { scrolled_rows: 1, output_burst: false }
    );
}

#[test]
fn a_counter_jump_beyond_isize_saturates() {
    let mut state = SmearCursorState::new();
    state.update(motion(5, 0, isize::MIN, true), false, true);
    state.update(motion(5, 0, isize::MIN, true), false, true);
    let mut far = motion(5, 0, isize::MAX, true);
    far.viewport_rows = usize::MAX;
    assert_eq!(
        state.update(far, false, true),
        Frame::Chase { scrolled_rows: isize::MAX, output_burst: false }
    );
}

#[test]
fn reset_forgets_the_cursor_and_the_rows() {
    let mut state = SmearCursorState::new();
    state.update(motion(10, 0, 0, false), false, true);
    state.start_animation(false, true);
    state.note_line_hashes(vec![1, 2, 3, 4, 5, 6]);
    state.reset();
    assert!(!state.is_animating());
    assert_eq!(state.note_line_hashes(vec![3, 4, 5, 6, 7, 8]), 0);
    assert_eq!(state.update(motion(10, 0, 0, false), false, true), Frame::FirstSighting);
}

#[test]
fn a_pane_switch_starts_afresh_but_staying_changes_nothing() {
    let mut state = SmearCursorState::new();
    state.note_pane(1);
    state.update(motion(10, 0, 0, false), false, true);
    state.start_animation(false, true);
    state.note_line_hashes(vec![1, 2, 3, 4, 5, 6]);
    state.note_pane(1);
    assert!(state.is_animating());
    assert_eq!(state.note_line_hashes(vec![3, 4, 5, 6, 7, 8]), 2);
    state.note_pane(2);
    assert!(!state.is_animating());
    assert_eq!(state.note_line_hashes(vec![5, 6, 7, 8, 9, 10]), 0);
    assert_eq!(state.update(motion(10, 0, 0, false), false, true), Frame::FirstSighting);
}

#[test]
fn a_quad_at_rest_or_not_worth_moving_does_not_start() {
    let mut state = SmearCursorState::new();
    assert_eq!(state.start_animation(true, true), Launch::AtRest);
    assert!(!state.is_animating());
    assert_eq!(state.start_animation(false, false), Launch::Snap);
    assert!(!state.is_animating());
    assert_eq!(state.start_animation(false, true), Launch::Animate);
    assert!(state.is_animating());
    // Once running it keeps running until it settles
    assert_eq!(state.start_animation(true, false), Launch::Animate);
    state.settle(true);
    assert!(state.is_animating());
    state.settle(false);
    assert!(!state.is_animating());
}

#[test]
fn full_screen_applications_ignore_smear_output() {
    let mut quiet = SmearCursorState::new();
    let mut loud = SmearCursorState::new();
    for frame in [motion(3, 0, 0, true), motion(4, 1, 0, true), motion(9, 2, 1, true)] {
        assert_eq!(quiet.update(frame, false, true), loud.update(frame, true, true));
    }
}

#[test]
fn a_pane_switch_discards_the_old_panes_scroll_reading() {
    let mut state = SmearCursorState::new();
    state.note_pane(1);
    state.update(motion(5, 0, 100, true), false, true);
    state.update(motion(5, 0, 100, true), false, true);
    state.note_pane(2);
    // The new pane's counter is 0: nothing is diffed across the switch
    assert_eq!(state.update(motion(5, 0, 0, true), false, true), Frame::FirstSighting);
    assert_eq!(
        state.update(motion(5, 0, 0, true), false, true),
        Frame::Chase { scrolled_rows: 0, output_burst: false }
    );
    assert!(!state.is_animating());
    // Only the new pane's own counter moving carries the smear
    assert_eq!(
        state.update(motion(5, 0, 3, true), false, true),
        Frame::Chase { scrolled_rows: 3, output_burst: false }
    );
}

#[test]
fn a_reset_state_behaves_like_a_new_one() {
    let mut used = SmearCursorState::new();
    used.note_pane(4);
    used.update(motion(5, 0, 7, true), false, true);
    used.update(motion(6, 0, 9, true), false, true);
    used.start_animation(false, true);
    used.note_line_hashes(vec![1, 2, 3, 4, 5]);
    used.reset();
    let mut fresh = SmearCursorState::new();
    assert_eq!(used.is_animating(), fresh.is_animating());
    for frame in [motion(5, 0, 2, false), motion(5, 0, 4, true), motion(5, 1, 8, true)] {
        assert_eq!(used.update(frame, false, true), fresh.update(frame, false, true));
    }
    assert_eq!(used.note_line_hashes(vec![1, 2, 3, 4, 5]), fresh.note_line_hashes(vec![1, 2, 3, 4, 5]));
}

#[test]
fn a_cursor_at_rest_costs_nothing() {
    for still in [motion(5, 0, 40, true), motion(7, 3, 0, false)] {
        let mut state = SmearCursorState::new();
        assert_eq!(state.update(still, false, true), Frame::FirstSighting);
        for _ in 0..3 {
            assert_eq!(
                state.update(still, false, true),
                Frame::Chase { scrolled_rows: 0, output_burst: false }
            );
            assert_eq!(state.start_animation(true, true), Launch::AtRest);
            assert!(!state.is_animating());
        }
    }
}
