//! The decisions of the glowing border: which color and animation a state
//! gets, how long a finished turn stays lit, which pixels of the screen the
//! border covers, and when the overlay window is shown or hidden. The
//! animation curves themselves are floating point and are drawn by the
//! application.
use vstd::prelude::*;
use crate::text::same_text;

verus! {

broadcast use vstd::string::group_string_axioms;

/// Width of the glowing band, in pixels.
pub const BORDER_THICKNESS: i32 = 70;

/// Distance from the screen edge under which the crisp edge line is drawn.
pub const EDGE_LINE: i32 = 3;

/// How long a finished turn stays fully lit, in milliseconds.
pub const DONE_HOLD_MS: u64 = 4000;

/// How long it then takes to fade out, in milliseconds.
pub const DONE_FADE_MS: u64 = 800;

/// How often the overlay re-reads the status file, in milliseconds.
pub const STATUS_REFRESH_MS: u128 = 150;

/// (r, g, b) for a state.
pub open spec fn state_rgb(s: Seq<char>) -> (u8, u8, u8) {
    if s == "thinking"@ {
        (255, 40, 40)
    } else if s == "tooling"@ {
        (255, 100, 0)
    } else if s == "waiting"@ {
        (255, 245, 130)
    } else if s == "done"@ {
        (40, 230, 90)
    } else {
        (0, 0, 0)
    }
}

/// (r, g, b) for a state.
pub fn state_color(state: &str) -> (r: (u8, u8, u8))
    ensures
        r == state_rgb(state@),
{
    if same_text(state, "thinking") {
        (255, 40, 40)
    } else if same_text(state, "tooling") {
        (255, 100, 0)
    } else if same_text(state, "waiting") {
        (255, 245, 130)
    } else if same_text(state, "done") {
        (40, 230, 90)
    } else {
        (0, 0, 0)
    }
}

/// How the border is lit.
#[derive(PartialEq, Eq, Structural, Debug, Clone, Copy)]
pub enum GlowMode {
    /// Breathing pulse (thinking).
    Pulse,
    /// Steady glow with a slow swell (running a tool).
    Steady,
    /// Fast strobe (waiting for a confirmation).
    Strobe,
    /// Fully lit (a turn just finished).
    Hold,
    /// Fading out, this many milliseconds into the fade.
    Fade { elapsed_ms: u64 },
    /// Hidden (idle, unknown, or a finished turn that has faded).
    Off,
}

/// How a state is lit at time `now_ms`, given the time `ts` it was written.
pub open spec fn glow_mode_of(s: Seq<char>, now_ms: u64, ts: u64) -> GlowMode {
    if s == "thinking"@ {
        GlowMode::Pulse
    } else if s == "tooling"@ {
        GlowMode::Steady
    } else if s == "waiting"@ {
        GlowMode::Strobe
    } else if s == "done"@ {
        let elapsed = if now_ms >= ts {
            now_ms - ts
        } else {
            0
        };
        if elapsed < DONE_HOLD_MS {
            GlowMode::Hold
        } else if elapsed < DONE_HOLD_MS + DONE_FADE_MS {
            GlowMode::Fade { elapsed_ms: (elapsed - DONE_HOLD_MS) as u64 }
        } else {
            GlowMode::Off
        }
    } else {
        GlowMode::Off
    }
}

/// How a state is lit at time `now_ms` (milliseconds since the epoch),
/// given the time `ts` its status was written.
pub fn glow_mode(state: &str, now_ms: u64, ts: u64) -> (r: GlowMode)
    ensures
        r == glow_mode_of(state@, now_ms, ts),
        state@ == "done"@ ==> {
            &&& now_ms < ts + DONE_HOLD_MS ==> r == GlowMode::Hold
            &&& ts + DONE_HOLD_MS <= now_ms < ts + DONE_HOLD_MS + DONE_FADE_MS ==> r
                == (GlowMode::Fade { elapsed_ms: (now_ms - ts - DONE_HOLD_MS) as u64 })
            &&& ts + DONE_HOLD_MS + DONE_FADE_MS <= now_ms ==> r == GlowMode::Off
        },
{
    proof {
        lemma_glow_timeline(state@, now_ms, ts);
    }
    if same_text(state, "thinking") {
        GlowMode::Pulse
    } else if same_text(state, "tooling") {
        GlowMode::Steady
    } else if same_text(state, "waiting") {
        GlowMode::Strobe
    } else if same_text(state, "done") {
        let elapsed = now_ms.saturating_sub(ts);
        if elapsed < DONE_HOLD_MS {
            GlowMode::Hold
        } else if elapsed < DONE_HOLD_MS + DONE_FADE_MS {
            GlowMode::Fade { elapsed_ms: elapsed - DONE_HOLD_MS }
        } else {
            GlowMode::Off
        }
    } else {
        GlowMode::Off
    }
}

/// A finished turn is fully lit until `DONE_HOLD_MS` have passed since its
/// status was written (or while the clock reads earlier than that), then
/// fades for `DONE_FADE_MS`, the fade's position being the time past the
/// hold, and is dark from then on, however long ago that was. The other
/// states are lit the same way at every moment: thinking pulses, tooling
/// glows steadily, waiting strobes, and any other state is dark.
pub proof fn lemma_glow_timeline(s: Seq<char>, now_ms: u64, ts: u64)
    ensures
        s == "done"@ ==> {
            &&& now_ms < ts + 4000 ==> glow_mode_of(s, now_ms, ts) == GlowMode::Hold
            &&& ts + 4000 <= now_ms < ts + 4800 ==> glow_mode_of(s, now_ms, ts) == (GlowMode::Fade {
                elapsed_ms: (now_ms - ts - 4000) as u64,
            })
            &&& ts + 4800 <= now_ms ==> glow_mode_of(s, now_ms, ts) == GlowMode::Off
            &&& glow_mode_of(s, now_ms, ts) is Hold <==> now_ms < ts + 4000
        },
        s == "thinking"@ ==> glow_mode_of(s, now_ms, ts) == GlowMode::Pulse,
        s == "tooling"@ ==> glow_mode_of(s, now_ms, ts) == GlowMode::Steady,
        s == "waiting"@ ==> glow_mode_of(s, now_ms, ts) == GlowMode::Strobe,
        s != "thinking"@ && s != "tooling"@ && s != "waiting"@ && s != "done"@ ==> glow_mode_of(
            s,
            now_ms,
            ts,
        ) == GlowMode::Off,
{
    reveal_strlit("thinking");
    reveal_strlit("tooling");
    reveal_strlit("waiting");
    reveal_strlit("done");
    assert("done"@.len() != "thinking"@.len());
    assert("done"@.len() != "tooling"@.len());
    assert("done"@.len() != "waiting"@.len());
    assert("tooling"@.len() != "thinking"@.len());
    assert("tooling"@[0] != "waiting"@[0]);
}

/// The smaller of two numbers.
pub open spec fn min_i(a: int, b: int) -> int {
    if a <= b {
        a
    } else {
        b
    }
}

/// Distance of a row from the nearer of the top and bottom edges.
pub open spec fn band_of(y: int, h: int) -> int {
    min_i(y, h - 1 - y)
}

/// Distance of a pixel from the nearest screen edge.
pub open spec fn edge_distance_of(x: int, y: int, w: int, h: int) -> int {
    min_i(band_of(y, h), min_i(x, w - 1 - x))
}

/// The column ranges of row `y` that the painter visits: the whole row
/// inside the top and bottom bands, the left and right bands elsewhere.
pub open spec fn row_spans_of(y: int, w: int, h: int) -> ((int, int), (int, int)) {
    if band_of(y, h) < BORDER_THICKNESS {
        ((0, w), (0, 0))
    } else {
        ((0, BORDER_THICKNESS as int), (w - BORDER_THICKNESS, w))
    }
}

/// The column ranges of row `y` that carry the glow.
pub fn row_spans(y: i32, w: i32, h: i32) -> (r: ((i32, i32), (i32, i32)))
    requires
        0 <= y < h,
        0 <= w,
    ensures
        ((r.0.0 as int, r.0.1 as int), (r.1.0 as int, r.1.1 as int)) == row_spans_of(
            y as int,
            w as int,
            h as int,
        ),
{
    let band = if y <= h - 1 - y {
        y
    } else {
        h - 1 - y
    };
    if band < BORDER_THICKNESS {
        ((0, w), (0, 0))
    } else {
        ((0, BORDER_THICKNESS), (w - BORDER_THICKNESS, w))
    }
}

/// Distance of pixel (`x`, `y`) from the nearest edge of a `w` x `h` screen.
pub fn edge_distance(x: i32, y: i32, w: i32, h: i32) -> (r: i32)
    requires
        0 <= x < w,
        0 <= y < h,
    ensures
        r as int == edge_distance_of(x as int, y as int, w as int, h as int),
{
    let band = if y <= h - 1 - y {
        y
    } else {
        h - 1 - y
    };
    let dx = if x <= w - 1 - x {
        x
    } else {
        w - 1 - x
    };
    if band <= dx {
        band
    } else {
        dx
    }
}

/// Byte offset of pixel (`x`, `y`) in a top-down 32-bit buffer `w` pixels
/// wide.
pub fn pixel_offset(x: i32, y: i32, w: i32) -> (r: usize)
    requires
        0 <= x < w,
        0 <= y,
        (y * w + x) * 4 <= usize::MAX,
    ensures
        r as int == (y * w + x) * 4,
{
    let (xu, yu, wu) = (x as usize, y as usize, w as usize);
    assert(0 <= yu * wu <= y * w + x) by (nonlinear_arith)
        requires
            yu == y,
            wu == w,
            0 <= y,
            0 <= x < w,
    ;
    (yu * wu + xu) * 4
}

/// Painting the row spans covers every pixel closer to an edge than the
/// border is thick (on a screen at least as wide as the border).
pub proof fn lemma_row_spans_cover(x: int, y: int, w: int, h: int)
    requires
        0 <= x < w,
        0 <= y < h,
        BORDER_THICKNESS <= w,
        edge_distance_of(x, y, w, h) < BORDER_THICKNESS,
    ensures
        ({
            let s = row_spans_of(y, w, h);
            (s.0.0 <= x < s.0.1) || (s.1.0 <= x < s.1.1)
        }),
{
}

/// Outside the spans of a row, no pixel is close enough to an edge to glow.
pub proof fn lemma_row_spans_skip_dark(x: int, y: int, w: int, h: int)
    requires
        0 <= x < w,
        0 <= y < h,
        ({
            let s = row_spans_of(y, w, h);
            !((s.0.0 <= x < s.0.1) || (s.1.0 <= x < s.1.1))
        }),
    ensures
        edge_distance_of(x, y, w, h) >= BORDER_THICKNESS,
{
}

/// Every pixel of a row's spans is closer to an edge than the border is
/// thick: the painter touches nothing of the screen's dark middle.
pub proof fn lemma_row_spans_inside_border(x: int, y: int, w: int, h: int)
    requires
        0 <= x < w,
        0 <= y < h,
        ({
            let s = row_spans_of(y, w, h);
            (s.0.0 <= x < s.0.1) || (s.1.0 <= x < s.1.1)
        }),
    ensures
        edge_distance_of(x, y, w, h) < BORDER_THICKNESS,
{
}

/// What a frame does with the overlay window.
#[derive(PartialEq, Eq, Structural, Debug, Clone, Copy)]
pub enum FrameAction {
    /// Hide the window (it was shown and the border went dark).
    Hide,
    /// Nothing to do (dark and already hidden).
    Stay,
    /// Repaint the shown window.
    Paint,
    /// Repaint, then show the window.
    PaintAndShow,
}

/// What a frame does, given whether the window is shown and whether the
/// border is lit.
pub open spec fn frame_action_of(visible: bool, lit: bool) -> FrameAction {
    if !lit {
        if visible {
            FrameAction::Hide
        } else {
            FrameAction::Stay
        }
    } else if visible {
        FrameAction::Paint
    } else {
        FrameAction::PaintAndShow
    }
}

/// Whether the window is shown after a frame's action.
pub open spec fn shown_after(visible: bool, a: FrameAction) -> bool {
    match a {
        FrameAction::Hide => false,
        FrameAction::Stay => visible,
        FrameAction::Paint => visible,
        FrameAction::PaintAndShow => true,
    }
}

/// What a frame does with the overlay window.
pub fn frame_action(visible: bool, lit: bool) -> (r: FrameAction)
    ensures
        r == frame_action_of(visible, lit),
        shown_after(visible, r) == lit,
{
    if !lit {
        if visible {
            FrameAction::Hide
        } else {
            FrameAction::Stay
        }
    } else if visible {
        FrameAction::Paint
    } else {
        FrameAction::PaintAndShow
    }
}

/// The status file is due to be read again.
pub fn status_refresh_due(since_last_read_ms: u128) -> (r: bool)
    ensures
        r == (since_last_read_ms >= STATUS_REFRESH_MS),
{
    since_last_read_ms >= STATUS_REFRESH_MS
}

} // verus!
