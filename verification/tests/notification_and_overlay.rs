use status_glow::notification::{asks_for_permission, resolve_waiting};
use status_glow::overlay::{
    edge_distance, frame_action, glow_mode, pixel_offset, row_spans, state_color,
    status_refresh_due, FrameAction, GlowMode,
};

#[test]
fn waiting_stays_for_permission_prompts() {
    assert_eq!(resolve_waiting(None), "waiting");
    assert_eq!(resolve_waiting(Some("   ")), "waiting");
    assert_eq!(resolve_waiting(Some("{\"message\":\"The agent needs your PERMISSION to use Bash\"}")), "waiting");
    assert_eq!(resolve_waiting(Some("Please Confirm the edit")), "waiting");
    assert_eq!(resolve_waiting(Some("{\"message\":\"waiting for your input\"}")), "idle");
}

#[test]
fn permission_words_are_searched_in_lowered_text() {
    assert!(asks_for_permission("needs approval"));
    assert!(!asks_for_permission("NEEDS APPROVAL"));
    assert!(!asks_for_permission("idle"));
}

#[test]
fn state_colors_follow_the_legend() {
    assert_eq!(state_color("thinking"), (255, 40, 40));
    assert_eq!(state_color("tooling"), (255, 100, 0));
    assert_eq!(state_color("waiting"), (255, 245, 130));
    assert_eq!(state_color("done"), (40, 230, 90));
    assert_eq!(state_color("idle"), (0, 0, 0));
}

#[test]
fn done_holds_then_fades_then_goes_dark() {
    assert_eq!(glow_mode("done", 10_000, 10_000), GlowMode::Hold);
    assert_eq!(glow_mode("done", 13_999, 10_000), GlowMode::Hold);
    assert_eq!(glow_mode("done", 14_000, 10_000), GlowMode::Fade { elapsed_ms: 0 });
    assert_eq!(glow_mode("done", 14_799, 10_000), GlowMode::Fade { elapsed_ms: 799 });
    assert_eq!(glow_mode("done", 14_800, 10_000), GlowMode::Off);
    assert_eq!(glow_mode("done", 5, 10_000), GlowMode::Hold);
    assert_eq!(glow_mode("thinking", 0, 0), GlowMode::Pulse);
    assert_eq!(glow_mode("tooling", 0, 0), GlowMode::Steady);
    assert_eq!(glow_mode("waiting", 0, 0), GlowMode::Strobe);
    assert_eq!(glow_mode("idle", 0, 0), GlowMode::Off);
    assert_eq!(glow_mode("bogus", 0, 0), GlowMode::Off);
}

#[test]
fn border_geometry() {
    assert_eq!(row_spans(0, 1920, 1080), ((0, 1920), (0, 0)));
    assert_eq!(row_spans(69, 1920, 1080), ((0, 1920), (0, 0)));
    assert_eq!(row_spans(70, 1920, 1080), ((0, 70), (1850, 1920)));
    assert_eq!(row_spans(1010, 1920, 1080), ((0, 1920), (0, 0)));
    assert_eq!(edge_distance(0, 500, 1920, 1080), 0);
    assert_eq!(edge_distance(1919, 500, 1920, 1080), 0);
    assert_eq!(edge_distance(900, 500, 1920, 1080), 500);
    assert_eq!(edge_distance(10, 1075, 1920, 1080), 4);
    assert_eq!(pixel_offset(3, 2, 10), 92);
}

#[test]
fn window_follows_whether_the_border_is_lit() {
    assert_eq!(frame_action(true, false), FrameAction::Hide);
    assert_eq!(frame_action(false, false), FrameAction::Stay);
    assert_eq!(frame_action(true, true), FrameAction::Paint);
    assert_eq!(frame_action(false, true), FrameAction::PaintAndShow);
    assert!(status_refresh_due(150));
    assert!(!status_refresh_due(149));
}

#[test]
fn row_spans_cover_exactly_the_glowing_pixels() {
    let (w, h) = (150, 140);
    for y in 0..h {
        let ((a0, a1), (b0, b1)) = row_spans(y, w, h);
        for x in 0..w {
            let in_span = (a0 <= x && x < a1) || (b0 <= x && x < b1);
            let close = edge_distance(x, y, w, h) < status_glow::overlay::BORDER_THICKNESS;
            if close {
                assert!(in_span, "pixel ({}, {}) glows but is not visited", x, y);
            }
            if !in_span {
                assert!(!close);
            }
        }
    }
}
