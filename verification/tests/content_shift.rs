use smear_cursor::content_shift::{detect_content_shift, SCROLL_MATCH_ROWS};
use smear_cursor::state::SmearCursorState;

/// Rows are stand-ins for hashes of the text on each row
fn rows(values: &[u64]) -> Vec<u64> {
    values.to_vec()
}

#[test]
fn content_shift_is_reported_in_rows_moved_up() {
    let mut state = SmearCursorState::new();

    // Nothing to compare the first frame against
    assert_eq!(state.note_line_hashes(rows(&[1, 2, 3, 4, 5, 6])), 0);
    // An unchanged screen has not scrolled
    assert_eq!(state.note_line_hashes(rows(&[1, 2, 3, 4, 5, 6])), 0);

    // The text moved up two rows, the way ctrl-d scrolls it, and two
    // fresh rows came in at the bottom
    assert_eq!(state.note_line_hashes(rows(&[3, 4, 5, 6, 7, 8])), 2);
    // And back down again
    assert_eq!(state.note_line_hashes(rows(&[1, 2, 3, 4, 5, 6])), -2);
}

#[test]
fn a_rewritten_screen_is_not_a_scroll() {
    let mut state = SmearCursorState::new();
    state.note_line_hashes(rows(&[1, 2, 3, 4, 5, 6]));
    // Nothing in common with the previous frame
    assert_eq!(state.note_line_hashes(rows(&[7, 8, 9, 10, 11, 12])), 0);
}

#[test]
fn blank_rows_do_not_vote() {
    let mut state = SmearCursorState::new();
    // A screen that is mostly one repeated row, such as vim's empty
    // buffer tildes, is ambiguous: every blank matches every other
    // blank, so it must not be allowed to claim a shift.
    state.note_line_hashes(rows(&[0, 0, 0, 0, 0, 0, 0, 0]));
    assert_eq!(state.note_line_hashes(rows(&[0, 0, 0, 0, 0, 0, 0, 0])), 0);
}

#[test]
fn a_couple_of_matching_rows_is_not_enough() {
    let mut state = SmearCursorState::new();
    state.note_line_hashes(rows(&[1, 2, 3, 4, 5, 6]));
    // Only two rows line up at a consistent offset, which is below the
    // threshold and more likely coincidence than a scroll
    assert_eq!(state.note_line_hashes(rows(&[90, 91, 92, 93, 1, 2])), 0);
}

#[test]
fn shift_down_with_fresh_rows_on_top() {
    let before = rows(&[10, 11, 12, 13, 14, 15, 16, 17]);
    let after = rows(&[1, 2, 3, 10, 11, 12, 13, 14]);
    assert_eq!(detect_content_shift(&before, &after), -3);
}

#[test]
fn exactly_the_threshold_is_enough() {
    assert_eq!(SCROLL_MATCH_ROWS, 4);
    let before = rows(&[1, 2, 3, 4, 5, 6]);
    // Four rows line up one row further up
    assert_eq!(detect_content_shift(&before, &rows(&[2, 3, 4, 5, 90, 91])), 1);
    // Three do not
    assert_eq!(detect_content_shift(&before, &rows(&[2, 3, 4, 90, 91, 92])), 0);
}

#[test]
fn duplicated_rows_in_the_previous_frame_do_not_vote() {
    // Rows 7 and 8 occur twice in the previous frame, so they say nothing;
    // the four distinct rows still carry the shift.
    let before = rows(&[7, 8, 7, 8, 1, 2, 3, 4]);
    let after = rows(&[7, 8, 1, 2, 3, 4, 50, 51]);
    assert_eq!(detect_content_shift(&before, &after), 2);
}

#[test]
fn the_offset_with_most_votes_wins() {
    // Five rows moved up by two, four rows moved down by one
    let before = rows(&[1, 2, 3, 4, 5, 6, 7, 20, 21, 22, 23]);
    let after = rows(&[3, 4, 5, 6, 7, 0, 0, 0, 20, 21, 22, 23]);
    assert_eq!(detect_content_shift(&before, &after), 2);
}

#[test]
fn a_tie_goes_to_the_smaller_offset() {
    // Four rows moved up by three and four rows moved down by two
    let before = rows(&[1, 2, 3, 4, 5, 6, 7, 10, 11, 12, 13]);
    let after = rows(&[4, 5, 6, 7, 0, 0, 0, 0, 0, 10, 11, 12, 13]);
    assert_eq!(detect_content_shift(&before, &after), -2);
}

#[test]
fn a_tie_with_no_movement_is_no_scroll() {
    // Four rows stayed put and four moved up by one: 0 is the smaller offset
    let before = rows(&[1, 2, 3, 4, 0, 10, 11, 12, 13]);
    let after = rows(&[1, 2, 3, 4, 10, 11, 12, 13, 0]);
    assert_eq!(detect_content_shift(&before, &after), 0);
}

#[test]
fn empty_frames_report_no_shift() {
    assert_eq!(detect_content_shift(&Vec::new(), &Vec::new()), 0);
    assert_eq!(detect_content_shift(&rows(&[1, 2, 3, 4, 5]), &Vec::new()), 0);
    assert_eq!(detect_content_shift(&Vec::new(), &rows(&[1, 2, 3, 4, 5])), 0);
}

#[test]
fn a_long_scroll_is_reported_in_full() {
    let before: Vec<u64> = (0..100).collect();
    let after: Vec<u64> = (40..140).collect();
    assert_eq!(detect_content_shift(&before, &after), 40);
    assert_eq!(detect_content_shift(&after, &before), -40);
}

#[test]
fn scrolling_back_reports_the_opposite_shift() {
    let top: Vec<u64> = (0..30).collect();
    let scrolled: Vec<u64> = (7..37).collect();
    let forth = detect_content_shift(&top, &scrolled);
    assert_eq!(forth, 7);
    assert_eq!(detect_content_shift(&scrolled, &top), -forth);
}
