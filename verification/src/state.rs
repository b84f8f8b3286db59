//! The bookkeeping of the smear cursor between frames.
//!
//! The animation itself (the four corners of the quad, each chasing its
//! counterpart on the real cursor rect) is geometry on the pixel plane. What
//! decides it is kept here: which pane the cursor is in, where its row and the
//! viewport were last frame, how far the screen scrolled, what the rows of the
//! screen held, and whether an animation is under way. A frame goes through
//! three decisions: `update` classifies the cursor's motion, `start_animation`
//! decides whether a movement at rest is worth animating, and `settle` ends
//! the animation once every corner has arrived.
use crate::content_shift::{detect_content_shift, lemma_first_frame_no_shift, shift_between};
use vstd::prelude::*;

verus! {

/// Identifies a pane, tab or window the cursor can be in.
pub type PaneId = usize;

/// A row of the terminal's scrollback that keeps its index as the screen
/// scrolls.
pub type StableRowIndex = isize;

/// Where the cursor is, plus enough context to tell a movement you made apart
/// from one the pane's own output caused. The rectangle the cursor covers is
/// pixel geometry and travels beside this record.
#[derive(Clone, Copy, Debug, PartialEq, Eq, Structural)]
pub struct CursorMotion {
    /// Stable row the cursor sits on. Output pushes this forward as it writes
    /// new lines, whether or not the screen has started scrolling yet.
    pub row: StableRowIndex,
    /// Stable row at the top of the viewport. Changes when the view scrolls,
    /// either because output pushed it or because the user scrolled back.
    pub viewport_top: StableRowIndex,
    /// How many rows the viewport shows, which caps how far a scroll is allowed
    /// to drag the smear in from
    pub viewport_rows: usize,
    /// Net rows the pane's screen has scrolled by. In a full screen application
    /// this is the only evidence that the view moved: the alternate screen keeps
    /// no scrollback, so neither the cursor position nor the stable row indices
    /// change when something like vim's ctrl-d scrolls the text.
    pub scrolled_rows: isize,
    /// How far the visible content was seen to move, for applications that
    /// repaint rows instead of scrolling and so never move `scrolled_rows`.
    /// Rows rather than a running total, since it is measured frame to frame.
    pub content_shift: isize,
    /// Full screen applications move the cursor on purpose, several rows at a
    /// time, and never scroll the scrollback while doing it.
    pub alt_screen: bool,
}

/// What a frame does with the cursor's motion.
#[derive(Clone, Copy, Debug, PartialEq, Eq, Structural)]
pub enum Frame {
    /// First sighting of the cursor: there is nothing to smear from, so the
    /// quad snaps onto the cursor and nothing is drawn.
    FirstSighting,
    /// The user scrolled the view out from under the cursor: the quad snaps
    /// onto the cursor and nothing is drawn.
    ViewScrolled,
    /// The quad chases the cursor. It is first carried along with the text by
    /// `scrolled_rows` rows (up, when positive); during an `output_burst` it
    /// follows the output down the screen but holds its horizontal position.
    Chase { scrolled_rows: isize, output_burst: bool },
}

/// Whether a quad that was at rest starts to move.
#[derive(Clone, Copy, Debug, PartialEq, Eq, Structural)]
pub enum Launch {
    /// Already where it belongs: nothing to draw.
    AtRest,
    /// The movement is not worth animating: snap onto the cursor.
    Snap,
    /// Animate towards the cursor.
    Animate,
}

/// The abstract state of the smear cursor between frames.
pub struct SmearCursorView {
    /// A cursor rect has been seen since the last reset or pane switch.
    pub has_target: bool,
    /// The pane that rect belonged to.
    pub pane: Option<PaneId>,
    /// Cursor row as of the previous frame.
    pub last_row: Option<StableRowIndex>,
    /// Viewport position as of the previous frame.
    pub last_viewport_top: Option<StableRowIndex>,
    /// The pane's scroll counter as of the previous frame.
    pub last_scrolled_rows: Option<isize>,
    /// Which screen that counter was counting for.
    pub last_alt_screen: bool,
    /// A hash per visible row as of the previous frame.
    pub line_hashes: Seq<u64>,
    /// An animation is under way.
    pub animating: bool,
}

/// State of the smear cursor animation that carries over from frame to frame.
pub struct SmearCursorState {
    has_target: bool,
    pane: Option<PaneId>,
    last_row: Option<StableRowIndex>,
    last_viewport_top: Option<StableRowIndex>,
    last_scrolled_rows: Option<isize>,
    last_alt_screen: bool,
    last_line_hashes: Vec<u64>,
    animating: bool,
}

impl View for SmearCursorState {
    type V = SmearCursorView;

    closed spec fn view(&self) -> SmearCursorView {
        SmearCursorView {
            has_target: self.has_target,
            pane: self.pane,
            last_row: self.last_row,
            last_viewport_top: self.last_viewport_top,
            last_scrolled_rows: self.last_scrolled_rows,
            last_alt_screen: self.last_alt_screen,
            line_hashes: self.last_line_hashes@,
            animating: self.animating,
        }
    }
}

/// The state before any frame.
pub open spec fn initial_view() -> SmearCursorView {
    SmearCursorView {
        has_target: false,
        pane: None,
        last_row: None,
        last_viewport_top: None,
        last_scrolled_rows: None,
        last_alt_screen: false,
        line_hashes: Seq::empty(),
        animating: false,
    }
}

/// The state after `reset`: any in-flight animation and everything seen of
/// the cursor is forgotten; the screen the scroll counter counted for stays.
pub open spec fn reset_view(v: SmearCursorView) -> SmearCursorView {
    SmearCursorView { last_alt_screen: v.last_alt_screen, ..initial_view() }
}

/// The state after the cursor is seen in pane `pane_id`: switching pane, tab
/// or window moves the cursor somewhere unrelated, so the cursor's last rect,
/// the row hashes, the reading of the old pane's scroll counter and the
/// animation are dropped (another pane counts its scrolls apart, so its
/// counter is never diffed against the old one); staying in the same pane
/// changes nothing.
pub open spec fn pane_view(v: SmearCursorView, pane_id: PaneId) -> SmearCursorView {
    if v.pane == Some(pane_id) {
        v
    } else {
        SmearCursorView {
            pane: Some(pane_id),
            has_target: false,
            last_scrolled_rows: None,
            line_hashes: Seq::empty(),
            animating: false,
            ..v
        }
    }
}

/// `v` with the row hashes `hashes` remembered.
pub open spec fn with_line_hashes(v: SmearCursorView, hashes: Seq<u64>) -> SmearCursorView {
    SmearCursorView { line_hashes: hashes, ..v }
}

/// `v` with the animation on or off.
pub open spec fn with_animating(v: SmearCursorView, animating: bool) -> SmearCursorView {
    SmearCursorView { animating, ..v }
}

/// A reading of the scroll counter is only held once a cursor has been seen:
/// every state the operations of `SmearCursorState` reach is so.
pub open spec fn reading_needs_cursor(v: SmearCursorView) -> bool {
    !v.has_target ==> v.last_scrolled_rows is None
}

/// The state has taken in a frame with motion `m` as its last one: it has seen
/// the cursor on `m`'s row and viewport, and it holds either no scroll reading
/// or `m`'s reading on `m`'s screen.
pub open spec fn sampled(v: SmearCursorView, m: CursorMotion) -> bool {
    &&& v.has_target
    &&& v.last_row == Some(m.row)
    &&& v.last_viewport_top == Some(m.viewport_top)
    &&& (v.last_scrolled_rows is None || (v.last_scrolled_rows == Some(m.scrolled_rows)
        && v.last_alt_screen == m.alt_screen))
}

/// `a` and `b` behave alike under every operation: they are equal, but for the
/// screen the scroll counter was counting for when neither holds a reading of
/// that counter (the screen is only read together with a reading).
pub open spec fn behaves_alike(a: SmearCursorView, b: SmearCursorView) -> bool {
    &&& SmearCursorView { last_alt_screen: false, ..a } == SmearCursorView {
        last_alt_screen: false,
        ..b
    }
    &&& (a.last_alt_screen == b.last_alt_screen || a.last_scrolled_rows is None)
}

/// New output pushed the cursor down the scrollback since the last frame.
pub open spec fn pushed_by_output(last_row: Option<StableRowIndex>, row: StableRowIndex) -> bool {
    match last_row {
        Some(previous) => row > previous,
        None => false,
    }
}

/// `x`, held within the range of `isize`.
pub open spec fn saturate(x: int) -> int {
    if x > isize::MAX {
        isize::MAX as int
    } else if x < isize::MIN {
        isize::MIN as int
    } else {
        x
    }
}

/// `rows`, held within `-limit..=limit`.
pub open spec fn clamp_rows(rows: int, limit: int) -> int {
    if rows > limit {
        limit
    } else if rows < -limit {
        -limit
    } else {
        rows
    }
}

/// How far the text moved under the cursor this frame, in rows, once a full
/// screen application is scrolling it deliberately: what the terminal counted
/// as scrolled, or failing that how far the content was seen to move, capped
/// at a screenful. The two screens count separately, so a switch between them
/// discards the previous reading; the main screen never counts.
pub open spec fn scroll_rows(v: SmearCursorView, m: CursorMotion, smear_scroll: bool) -> int {
    match v.last_scrolled_rows {
        Some(previous) => if m.alt_screen && smear_scroll && v.last_alt_screen == m.alt_screen {
            let counted = saturate(m.scrolled_rows - previous);
            let rows = if counted != 0 {
                counted
            } else {
                m.content_shift as int
            };
            clamp_rows(rows, m.viewport_rows as int)
        } else {
            0
        },
        None => 0,
    }
}

/// What the frame with motion `m` does, from state `v`.
pub open spec fn frame_for(
    v: SmearCursorView,
    m: CursorMotion,
    smear_output: bool,
    smear_scroll: bool,
) -> Frame {
    if !v.has_target {
        Frame::FirstSighting
    } else {
        let pushed = pushed_by_output(v.last_row, m.row);
        let view_scrolled = v.last_viewport_top != Some(m.viewport_top);
        let rows = scroll_rows(v, m, smear_scroll);
        if rows == 0 && view_scrolled && !pushed {
            Frame::ViewScrolled
        } else {
            Frame::Chase {
                scrolled_rows: rows as isize,
                output_burst: !smear_output && !m.alt_screen && pushed,
            }
        }
    }
}

/// The state after the frame with motion `m`, from state `v`. The cursor's row
/// and the viewport position are sampled every frame, whatever the frame does
/// with them, so that they never go stale; the scroll counter and its screen
/// are sampled once the cursor has been seen before.
pub open spec fn frame_view(
    v: SmearCursorView,
    m: CursorMotion,
    smear_output: bool,
    smear_scroll: bool,
) -> SmearCursorView {
    let sampled = SmearCursorView {
        has_target: true,
        last_row: Some(m.row),
        last_viewport_top: Some(m.viewport_top),
        ..v
    };
    if !v.has_target {
        SmearCursorView { animating: false, ..sampled }
    } else {
        let counted = SmearCursorView {
            last_alt_screen: m.alt_screen,
            last_scrolled_rows: Some(m.scrolled_rows),
            ..sampled
        };
        match frame_for(v, m, smear_output, smear_scroll) {
            Frame::ViewScrolled => SmearCursorView { animating: false, ..counted },
            _ => counted,
        }
    }
}

/// Whether a quad that may be at rest starts to move: one already animating
/// keeps going; one at rest stays; a movement not worth animating snaps.
pub open spec fn launch_for(animating: bool, at_rest: bool, worth_animating: bool) -> Launch {
    if animating {
        Launch::Animate
    } else if at_rest {
        Launch::AtRest
    } else if !worth_animating {
        Launch::Snap
    } else {
        Launch::Animate
    }
}


/// After a reset the cursor is seen afresh: the next frame is a first
/// sighting, nothing is animating, and the next row hashes report no shift.
pub proof fn lemma_reset_starts_afresh(
    v: SmearCursorView,
    m: CursorMotion,
    smear_output: bool,
    smear_scroll: bool,
    hashes: Seq<u64>,
)
    ensures
        frame_for(reset_view(v), m, smear_output, smear_scroll) == Frame::FirstSighting,
        !reset_view(v).animating,
        shift_between(reset_view(v).line_hashes, hashes) == 0,
{
    lemma_first_frame_no_shift(hashes);
}

/// After the cursor moves to another pane it is seen afresh: the next frame
/// is a first sighting, nothing is animating, and the next row hashes report
/// no shift.
pub proof fn lemma_pane_switch_starts_afresh(
    v: SmearCursorView,
    pane_id: PaneId,
    m: CursorMotion,
    smear_output: bool,
    smear_scroll: bool,
    hashes: Seq<u64>,
)
    requires
        v.pane != Some(pane_id),
    ensures
        frame_for(pane_view(v, pane_id), m, smear_output, smear_scroll) == Frame::FirstSighting,
        !pane_view(v, pane_id).animating,
        shift_between(pane_view(v, pane_id).line_hashes, hashes) == 0,
{
    lemma_first_frame_no_shift(hashes);
}

/// Noting the same pane twice is noting it once.
pub proof fn lemma_same_pane_is_idempotent(v: SmearCursorView, pane_id: PaneId)
    ensures
        pane_view(pane_view(v, pane_id), pane_id) == pane_view(v, pane_id),
{
}

/// A first sighting is never drawn: the animation is off afterwards, and the
/// cursor then counts as seen.
pub proof fn lemma_first_sighting_snaps(
    v: SmearCursorView,
    m: CursorMotion,
    smear_output: bool,
    smear_scroll: bool,
)
    requires
        frame_for(v, m, smear_output, smear_scroll) == Frame::FirstSighting,
    ensures
        !frame_view(v, m, smear_output, smear_scroll).animating,
        frame_view(v, m, smear_output, smear_scroll).has_target,
{
}

/// A scroll drags the smear in from at most one screenful away, and only in a
/// full screen application with `smear_scroll` on: on the main screen the
/// smear is never carried by scrolling.
pub proof fn lemma_scroll_is_capped(
    v: SmearCursorView,
    m: CursorMotion,
    smear_output: bool,
    smear_scroll: bool,
)
    ensures
        -(m.viewport_rows as int) <= scroll_rows(v, m, smear_scroll) <= m.viewport_rows,
        isize::MIN <= scroll_rows(v, m, smear_scroll) <= isize::MAX,
        !m.alt_screen || !smear_scroll ==> scroll_rows(v, m, smear_scroll) == 0,
        frame_for(v, m, smear_output, smear_scroll) matches Frame::Chase { scrolled_rows, .. }
            ==> scrolled_rows == scroll_rows(v, m, smear_scroll),
{
}

/// Scrolling the viewport out from under the cursor on the main screen never
/// smears: when the view moved and output did not push the cursor, the quad
/// snaps and the animation stops.
pub proof fn lemma_user_scroll_snaps(
    v: SmearCursorView,
    m: CursorMotion,
    smear_output: bool,
    smear_scroll: bool,
)
    requires
        v.has_target,
        !m.alt_screen,
        v.last_viewport_top != Some(m.viewport_top),
        !pushed_by_output(v.last_row, m.row),
    ensures
        frame_for(v, m, smear_output, smear_scroll) == Frame::ViewScrolled,
        !frame_view(v, m, smear_output, smear_scroll).animating,
{
}

/// Only output on the main screen, with `smear_output` off, holds the smear
/// horizontally; full screen applications drive the cursor deliberately and
/// are treated the same whatever `smear_output` says.
pub proof fn lemma_output_burst_only_on_main_screen(
    v: SmearCursorView,
    m: CursorMotion,
    smear_output: bool,
    smear_scroll: bool,
)
    ensures
        frame_for(v, m, smear_output, smear_scroll) matches Frame::Chase { output_burst, .. }
            ==> (output_burst == (!smear_output && !m.alt_screen && pushed_by_output(
            v.last_row,
            m.row,
        ))),
        m.alt_screen ==> frame_for(v, m, true, smear_scroll) == frame_for(
            v,
            m,
            false,
            smear_scroll,
        ),
        m.alt_screen ==> frame_view(v, m, true, smear_scroll) == frame_view(
            v,
            m,
            false,
            smear_scroll,
        ),
{
}

/// A quad at rest never starts to move, and a movement not worth animating
/// never animates; once started, an animation runs until it settles.
pub proof fn lemma_launch_rules(animating: bool, at_rest: bool, worth_animating: bool)
    ensures
        !animating && at_rest ==> launch_for(animating, at_rest, worth_animating)
            == Launch::AtRest,
        !animating && !worth_animating ==> launch_for(animating, at_rest, worth_animating)
            != Launch::Animate,
        animating ==> launch_for(animating, at_rest, worth_animating) == Launch::Animate,
{
}

/// After a pane switch the old pane's scroll counter is never diffed against
/// the new pane's: the switch is followed by a first sighting, and the frame
/// after that carries the smear by no scroll at all; only a move of the new
/// pane's own counter after that can carry it.
pub proof fn lemma_pane_switch_carries_no_scroll(
    v: SmearCursorView,
    pane_id: PaneId,
    first: CursorMotion,
    second: CursorMotion,
    smear_output: bool,
    smear_scroll: bool,
)
    requires
        v.pane != Some(pane_id),
    ensures
        ({
            let switched = pane_view(v, pane_id);
            let seen = frame_view(switched, first, smear_output, smear_scroll);
            &&& frame_for(switched, first, smear_output, smear_scroll) == Frame::FirstSighting
            &&& scroll_rows(seen, second, smear_scroll) == 0
            &&& frame_view(seen, second, smear_output, smear_scroll).last_scrolled_rows == Some(
                second.scrolled_rows,
            )
        }),
{
}

/// A state that was reset behaves like a new one.
pub proof fn lemma_reset_is_new(v: SmearCursorView)
    ensures
        behaves_alike(reset_view(v), initial_view()),
{
}

/// States that behave alike answer every operation alike, and stay alike.
pub proof fn lemma_alike_stays_alike(
    a: SmearCursorView,
    b: SmearCursorView,
    m: CursorMotion,
    smear_output: bool,
    smear_scroll: bool,
    hashes: Seq<u64>,
    pane_id: PaneId,
    at_rest: bool,
    worth_animating: bool,
    still_animating: bool,
)
    requires
        behaves_alike(a, b),
    ensures
        frame_for(a, m, smear_output, smear_scroll) == frame_for(b, m, smear_output, smear_scroll),
        behaves_alike(
            frame_view(a, m, smear_output, smear_scroll),
            frame_view(b, m, smear_output, smear_scroll),
        ),
        shift_between(a.line_hashes, hashes) == shift_between(b.line_hashes, hashes),
        behaves_alike(with_line_hashes(a, hashes), with_line_hashes(b, hashes)),
        behaves_alike(pane_view(a, pane_id), pane_view(b, pane_id)),
        behaves_alike(reset_view(a), reset_view(b)),
        a.animating == b.animating,
        launch_for(a.animating, at_rest, worth_animating) == launch_for(
            b.animating,
            at_rest,
            worth_animating,
        ),
        behaves_alike(
            with_animating(a, launch_for(a.animating, at_rest, worth_animating) == Launch::Animate),
            with_animating(b, launch_for(b.animating, at_rest, worth_animating) == Launch::Animate),
        ),
        behaves_alike(
            with_animating(a, a.animating && still_animating),
            with_animating(b, b.animating && still_animating),
        ),
{
    assert(a.has_target == b.has_target);
    assert(a.last_row == b.last_row);
    assert(a.last_viewport_top == b.last_viewport_top);
    assert(a.last_scrolled_rows == b.last_scrolled_rows);
    assert(a.line_hashes == b.line_hashes);
    assert(a.pane == b.pane);
    assert(scroll_rows(a, m, smear_scroll) == scroll_rows(b, m, smear_scroll));
}

/// The animation runs exactly from a launch to the settle that ends it: a
/// frame that snaps (a first sighting, a scrolled view) stops it, a quad at
/// rest or snapping leaves it off, a launch turns it on, and it stays on until
/// a settle with no corner still moving.
pub proof fn lemma_animation_runs_from_launch_to_settle(
    v: SmearCursorView,
    m: CursorMotion,
    smear_output: bool,
    smear_scroll: bool,
    at_rest: bool,
    worth_animating: bool,
    still_animating: bool,
)
    ensures
        frame_for(v, m, smear_output, smear_scroll) is Chase ==> frame_view(
            v,
            m,
            smear_output,
            smear_scroll,
        ).animating == v.animating,
        !(frame_for(v, m, smear_output, smear_scroll) is Chase) ==> !frame_view(
            v,
            m,
            smear_output,
            smear_scroll,
        ).animating,
        ({
            let launch = launch_for(v.animating, at_rest, worth_animating);
            with_animating(v, launch == Launch::Animate).animating <==> launch == Launch::Animate
        }),
        with_animating(v, v.animating && still_animating).animating <==> (v.animating
            && still_animating),
{
}


/// Every frame, from any state the operations reach, leaves the state having
/// sampled that frame; starting or ending the animation keeps it so.
pub proof fn lemma_frame_is_sampled(
    v: SmearCursorView,
    m: CursorMotion,
    smear_output: bool,
    smear_scroll: bool,
    animating: bool,
)
    requires
        reading_needs_cursor(v),
    ensures
        sampled(frame_view(v, m, smear_output, smear_scroll), m),
        sampled(with_animating(frame_view(v, m, smear_output, smear_scroll), animating), m),
{
}

/// A cursor at rest costs nothing: when the state has sampled a frame and the
/// animation is off, the same frame again (with no content shift to carry, or
/// with scroll smearing off the alternate screen) is a chase by no scroll and
/// no output burst, the quad stays at rest, the animation stays off, and the
/// state still has that frame sampled, so every further repeat is alike.
pub proof fn lemma_repeated_frame_at_rest(
    rest: SmearCursorView,
    m: CursorMotion,
    smear_output: bool,
    smear_scroll: bool,
    worth_animating: bool,
)
    requires
        sampled(rest, m),
        !rest.animating,
        m.content_shift == 0 || !(m.alt_screen && smear_scroll),
    ensures
        frame_for(rest, m, smear_output, smear_scroll) == (Frame::Chase {
            scrolled_rows: 0,
            output_burst: false,
        }),
        !frame_view(rest, m, smear_output, smear_scroll).animating,
        sampled(frame_view(rest, m, smear_output, smear_scroll), m),
        launch_for(
            frame_view(rest, m, smear_output, smear_scroll).animating,
            true,
            worth_animating,
        ) == Launch::AtRest,
{
    assert(scroll_rows(rest, m, smear_scroll) == 0);
}

/// A full screen application that repaints its text instead of scrolling it
/// carries the smear by the content's shift, up or down alike: with the
/// counter unchanged since a reading on the alternate screen, the frame is a
/// chase by the content shift held within a screenful either way, whatever
/// its sign.
pub proof fn lemma_content_shift_carries_either_way(
    v: SmearCursorView,
    m: CursorMotion,
    smear_output: bool,
)
    requires
        v.has_target,
        v.last_scrolled_rows == Some(m.scrolled_rows),
        v.last_alt_screen,
        m.alt_screen,
    ensures
        ({
            let limit = m.viewport_rows as int;
            let expected = if m.content_shift > limit {
                limit
            } else if m.content_shift < -limit {
                -limit
            } else {
                m.content_shift as int
            };
            &&& expected != 0 ==> frame_for(v, m, smear_output, true) is Chase
            &&& frame_for(v, m, smear_output, true) matches Frame::Chase { scrolled_rows, .. }
                ==> scrolled_rows == expected
        }),
{
}

/// Content shifted down carries the smear exactly as far down as content
/// shifted up carries it up.
pub proof fn lemma_content_shift_is_symmetric(
    v: SmearCursorView,
    m: CursorMotion,
    mirrored: CursorMotion,
    smear_scroll: bool,
)
    requires
        v.has_target,
        v.last_scrolled_rows == Some(m.scrolled_rows),
        mirrored.content_shift == -m.content_shift,
        mirrored.row == m.row,
        mirrored.viewport_top == m.viewport_top,
        mirrored.viewport_rows == m.viewport_rows,
        mirrored.scrolled_rows == m.scrolled_rows,
        mirrored.alt_screen == m.alt_screen,
    ensures
        scroll_rows(v, mirrored, smear_scroll) == -scroll_rows(v, m, smear_scroll),
{
}

/// A full screen application that scrolls its text carries the smear by how
/// far its counter moved since the reading on the same screen, held within a
/// screenful either way, wherever the cursor went meanwhile (paging, or a jump
/// to the end of a file, moves the cursor too) and whatever the content shift.
pub proof fn lemma_counter_carries_wherever_the_cursor_went(
    v: SmearCursorView,
    m: CursorMotion,
    previous: isize,
    smear_output: bool,
)
    requires
        v.has_target,
        v.last_scrolled_rows == Some(previous),
        v.last_alt_screen,
        m.alt_screen,
        m.scrolled_rows != previous,
    ensures
        ({
            let moved = m.scrolled_rows - previous;
            let counted = if moved > isize::MAX {
                isize::MAX as int
            } else if moved < isize::MIN {
                isize::MIN as int
            } else {
                moved
            };
            let limit = m.viewport_rows as int;
            let expected = if counted > limit {
                limit
            } else if counted < -limit {
                -limit
            } else {
                counted
            };
            &&& expected != 0 ==> frame_for(v, m, smear_output, true) is Chase
            &&& frame_for(v, m, smear_output, true) matches Frame::Chase { scrolled_rows, .. }
                ==> scrolled_rows == expected
        }),
{
}

/// Any move of the cursor further down the scrollback counts as pushed by
/// output, however many rows it went: such a frame is never taken for the user
/// scrolling the view, and it is an output burst exactly on the main screen
/// with `smear_output` off. A frame whose row did not advance is no burst.
pub proof fn lemma_cursor_moved_down_is_output(
    v: SmearCursorView,
    m: CursorMotion,
    previous_row: StableRowIndex,
    smear_output: bool,
    smear_scroll: bool,
)
    requires
        v.has_target,
        v.last_row == Some(previous_row),
    ensures
        m.row > previous_row ==> frame_for(v, m, smear_output, smear_scroll) == (Frame::Chase {
            scrolled_rows: scroll_rows(v, m, smear_scroll) as isize,
            output_burst: !smear_output && !m.alt_screen,
        }),
        m.row <= previous_row ==> !(frame_for(v, m, smear_output, smear_scroll) matches Frame::Chase {
            output_burst: true,
            ..
        }),
        m.row <= previous_row && !m.alt_screen && v.last_viewport_top != Some(m.viewport_top)
            ==> frame_for(v, m, smear_output, smear_scroll) == Frame::ViewScrolled,
{
}

/// Noting the pane the cursor is already in changes nothing, so a renderer
/// that notes the pane every frame still sees the cursor move within it.
pub proof fn lemma_staying_in_pane_changes_nothing(
    v: SmearCursorView,
    pane_id: PaneId,
    m: CursorMotion,
    smear_output: bool,
    smear_scroll: bool,
)
    requires
        v.pane == Some(pane_id),
    ensures
        pane_view(v, pane_id) == v,
        v.has_target ==> frame_for(pane_view(v, pane_id), m, smear_output, smear_scroll)
            != Frame::FirstSighting,
{
}

impl SmearCursorState {
    #[verifier::type_invariant]
    spec fn well_formed(&self) -> bool {
        &&& self.last_line_hashes.len() <= isize::MAX
        &&& reading_needs_cursor(self@)
    }

    /// A state that has seen no frame yet.
    pub fn new() -> (state: Self)
        ensures
            state@ == initial_view(),
            reading_needs_cursor(state@),
    {
        SmearCursorState {
            has_target: false,
            pane: None,
            last_row: None,
            last_viewport_top: None,
            last_scrolled_rows: None,
            last_alt_screen: false,
            last_line_hashes: Vec::new(),
            animating: false,
        }
    }

    /// Forget about any in-flight animation; used when the cursor isn't
    /// visible, so that it doesn't smear in from wherever it was last seen.
    pub fn reset(&mut self)
        ensures
            final(self)@ == reset_view(old(self)@),
            reading_needs_cursor(final(self)@),
    {
        proof {
            use_type_invariant(&*self);
        }
        self.last_scrolled_rows = None;
        self.has_target = false;
        self.pane = None;
        self.last_row = None;
        self.last_viewport_top = None;
        self.last_line_hashes = Vec::new();
        self.animating = false;
    }

    /// Work out how far the visible content moved since the last frame, given a
    /// hash per visible row, and remember this frame's hashes for the next call.
    pub fn note_line_hashes(&mut self, hashes: Vec<u64>) -> (shift: isize)
        requires
            hashes.len() <= isize::MAX,
        ensures
            shift == shift_between(old(self)@.line_hashes, hashes@),
            final(self)@ == with_line_hashes(old(self)@, hashes@),
            reading_needs_cursor(final(self)@),
    {
        proof {
            use_type_invariant(&*self);
        }
        let shift = detect_content_shift(&self.last_line_hashes, &hashes);
        self.last_line_hashes = hashes;
        shift
    }

    /// Switching pane, tab or window moves the cursor somewhere unrelated,
    /// which isn't a movement worth smearing.
    pub fn note_pane(&mut self, pane_id: PaneId)
        ensures
            final(self)@ == pane_view(old(self)@, pane_id),
            reading_needs_cursor(final(self)@),
    {
        proof {
            use_type_invariant(&*self);
        }
        let previous = self.pane;
        self.pane = Some(pane_id);
        if previous != Some(pane_id) {
            self.last_scrolled_rows = None;
            self.has_target = false;
            self.last_line_hashes = Vec::new();
            self.animating = false;
        }
    }

    /// Take in the cursor's motion for a new frame and say what the frame does
    /// with it: snap onto a cursor seen for the first time or whose view the
    /// user scrolled, or chase it, carried along by how far a full screen
    /// application scrolled its text.
    pub fn update(&mut self, motion: CursorMotion, smear_output: bool, smear_scroll: bool) -> (frame: Frame)
        ensures
            frame == frame_for(old(self)@, motion, smear_output, smear_scroll),
            final(self)@ == frame_view(old(self)@, motion, smear_output, smear_scroll),
            reading_needs_cursor(final(self)@),
    {
        proof {
            use_type_invariant(&*self);
        }
        let previous_top = self.last_viewport_top;
        let previous_row = self.last_row;
        self.last_viewport_top = Some(motion.viewport_top);
        self.last_row = Some(motion.row);

        let seen_before = self.has_target;
        self.has_target = true;
        if !seen_before {
            // First sighting of the cursor; there is nothing to smear from
            self.animating = false;
            return Frame::FirstSighting;
        }

        // New output pushes the cursor down the scrollback a row at a time,
        // which on the main screen accounts for essentially every vertical
        // move the cursor makes on its own.
        let pushed_by_output = match previous_row {
            Some(previous) => motion.row > previous,
            None => false,
        };
        // The view moving under the cursor is not the cursor moving
        let view_scrolled = previous_top != Some(motion.viewport_top);
        let output_burst = !smear_output && !motion.alt_screen && pushed_by_output;

        let same_screen = self.last_alt_screen == motion.alt_screen;
        self.last_alt_screen = motion.alt_screen;
        let previous_scrolled = self.last_scrolled_rows;
        self.last_scrolled_rows = Some(motion.scrolled_rows);
        let scrolled_rows: isize = match previous_scrolled {
            Some(previous) => if motion.alt_screen && smear_scroll && same_screen {
                // Prefer what the terminal actually scrolled; only fall back to
                // the content having moved, so that an application which does
                // both is not counted twice.
                let counted = saturating_difference(motion.scrolled_rows, previous);
                let rows = if counted != 0 {
                    counted
                } else {
                    motion.content_shift
                };
                clamp_to_viewport(rows, motion.viewport_rows)
            } else {
                0
            },
            None => 0,
        };

        if scrolled_rows == 0 && view_scrolled && !pushed_by_output {
            // The user scrolled the view out from under the cursor
            self.animating = false;
            Frame::ViewScrolled
        } else {
            Frame::Chase { scrolled_rows, output_burst }
        }
    }

    /// Decide whether a quad that may be at rest starts to move, given whether
    /// it is already where it belongs and whether the movement is worth
    /// animating.
    pub fn start_animation(&mut self, at_rest: bool, worth_animating: bool) -> (launch: Launch)
        ensures
            launch == launch_for(old(self)@.animating, at_rest, worth_animating),
            final(self)@ == with_animating(old(self)@, launch == Launch::Animate),
            reading_needs_cursor(final(self)@),
    {
        proof {
            use_type_invariant(&*self);
        }
        if self.animating {
            Launch::Animate
        } else if at_rest {
            Launch::AtRest
        } else if !worth_animating {
            Launch::Snap
        } else {
            self.animating = true;
            Launch::Animate
        }
    }

    /// End the animation once no corner is still on its way.
    pub fn settle(&mut self, still_animating: bool)
        ensures
            final(self)@ == with_animating(old(self)@, old(self)@.animating && still_animating),
            reading_needs_cursor(final(self)@),
    {
        proof {
            use_type_invariant(&*self);
        }
        if !still_animating {
            self.animating = false;
        }
    }

    /// Is the next frame going to look any different from this one?
    pub fn is_animating(&self) -> (animating: bool)
        ensures
            animating == self@.animating,
    {
        self.animating
    }
}

/// `a - b`, held within the range of `isize`.
fn saturating_difference(a: isize, b: isize) -> (d: isize)
    ensures
        d == saturate(a - b),
{
    let wide: i128 = a as i128 - b as i128;
    if wide > isize::MAX as i128 {
        isize::MAX
    } else if wide < isize::MIN as i128 {
        isize::MIN
    } else {
        wide as isize
    }
}

/// `rows`, held within a screenful either way.
fn clamp_to_viewport(rows: isize, viewport_rows: usize) -> (clamped: isize)
    ensures
        clamped == clamp_rows(rows as int, viewport_rows as int),
{
    let wide: i128 = rows as i128;
    let limit: i128 = viewport_rows as i128;
    if wide > limit {
        limit as isize
    } else if wide < -limit {
        (-limit) as isize
    } else {
        rows
    }
}

} // verus!
