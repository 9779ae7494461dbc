use dmenu::config::{SCHEME_NORM, SCHEME_OUT, SCHEME_SEL};
use dmenu::events::{react, Reaction};
use dmenu::geometry::{Monitor, choose_monitor, argb_visual, apply_alpha, intersect, item_scheme, menu_geometry, nomatch_slots, text_w, text_w_clamp, widest, NoMatches};

#[test]
fn text_widths_add_the_padding() {
    assert_eq!(text_w(30, 10), 40);
    assert_eq!(text_w_clamp(30, 35, 10), 35);
    assert_eq!(text_w_clamp(30, 50, 10), 40);
}

#[test]
fn intersect_is_the_overlap_area() {
    assert_eq!(intersect(0, 0, 100, 100, 50, 50, 100, 100), 2500);
    assert_eq!(intersect(0, 0, 10, 10, 20, 20, 5, 5), 0);
    assert_eq!(intersect(5, 5, 1, 1, 0, 0, 1920, 1080), 1);
    assert_eq!(intersect(-10, 0, 20, 10, 0, 0, 100, 100), 100);
}

#[test]
fn menu_geometry_on_top_and_at_the_bottom() {
    let g = menu_geometry(18, 0, true, 1080, 1920, Some(40), 18, 700);
    assert_eq!(g.bh, 20);
    assert_eq!(g.mh, 20);
    assert_eq!(g.y, 0);
    assert_eq!(g.mw, 1920);
    assert_eq!(g.promptw, 36);
    assert_eq!(g.inputw, 640);
    let g = menu_geometry(18, 5, false, 1080, 1920, None, 18, 100);
    assert_eq!(g.mh, 120);
    assert_eq!(g.y, 960);
    assert_eq!(g.promptw, 0);
    assert_eq!(g.inputw, 100);
}

#[test]
fn widest_picks_the_first_widest() {
    assert_eq!(widest(&[3, 9, 2, 9]), 1);
    assert_eq!(widest(&[]), 0);
    assert_eq!(widest(&[-1, 0]), 0);
    assert_eq!(widest(&[0, 0, 1]), 2);
}

#[test]
fn alpha_goes_in_the_top_byte() {
    assert_eq!(apply_alpha(0x123456, 0xEE), 0xEE123456);
    assert_eq!(apply_alpha(0xff00ff00ff, 0xff), 0xffff00ff);
}

#[test]
fn item_schemes() {
    assert_eq!(item_scheme(true, true), SCHEME_SEL);
    assert_eq!(item_scheme(false, true), SCHEME_OUT);
    assert_eq!(item_scheme(false, false), SCHEME_NORM);
}

#[test]
fn nomatch_cache_slots_follow_the_hash() {
    for cp in [0u32, 1, 0x2603, 0x10ffff, 65] {
        let mut h = cp;
        h = ((h >> 16) ^ h).wrapping_mul(0x21F0AAAD);
        h = ((h >> 15) ^ h).wrapping_mul(0xD35A2D97);
        let a = (((h >> 15) ^ h) % 128) as usize;
        let b = ((h >> 17) % 128) as usize;
        assert_eq!(nomatch_slots(cp), (a, b));
    }
}

#[test]
fn nomatch_cache_remembers() {
    let mut nm = NoMatches::new();
    assert!(!nm.contains(0x2603));
    nm.remember(0x2603);
    assert!(nm.contains(0x2603));
    assert!(!nm.contains(0x2604));
}

#[test]
fn event_reactions() {
    assert!(matches!(react(17, true, 0, false, 0), Reaction::Quit(1)));
    assert!(matches!(react(17, false, 0, false, 0), Reaction::Ignore));
    assert!(matches!(react(4, false, 0, false, 0), Reaction::Button));
    assert!(matches!(react(12, false, 0, false, 0), Reaction::Show));
    assert!(matches!(react(12, false, 2, false, 0), Reaction::Ignore));
    assert!(matches!(react(9, false, 0, false, 0), Reaction::GrabFocus));
    assert!(matches!(react(9, true, 0, false, 0), Reaction::Ignore));
    assert!(matches!(react(2, false, 0, false, 0), Reaction::Key));
    assert!(matches!(react(31, false, 0, true, 0), Reaction::Paste));
    assert!(matches!(react(31, false, 0, false, 0), Reaction::Ignore));
    assert!(matches!(react(15, false, 0, false, 1), Reaction::Raise));
    assert!(matches!(react(15, false, 0, false, 0), Reaction::Ignore));
    assert!(matches!(react(99, false, 0, false, 0), Reaction::Ignore));
}

#[test]
fn the_first_visual_with_alpha_is_chosen() {
    assert_eq!(argb_visual(&[(0, 255), (1, 0), (1, 255), (1, 255)]), Some(2));
    assert_eq!(argb_visual(&[(1, 0), (0, 1)]), None);
    assert_eq!(argb_visual(&[]), None);
}

fn two_heads() -> Vec<Monitor> {
    vec![Monitor { x: 0, y: 0, w: 1920, h: 1080 }, Monitor { x: 1920, y: 0, w: 1280, h: 1024 }]
}

#[test]
fn the_monitor_asked_for_wins() {
    assert_eq!(choose_monitor(1, &two_heads(), Some((10, 10, 100, 100)), Some((10, 10))), 1);
    assert_eq!(choose_monitor(0, &two_heads(), None, Some((2500, 10))), 0);
}

#[test]
fn the_focused_window_picks_the_monitor_it_overlaps_most() {
    assert_eq!(choose_monitor(5, &two_heads(), Some((2000, 100, 300, 300)), None), 1);
    assert_eq!(choose_monitor(-1, &two_heads(), Some((1800, 0, 200, 100)), Some((2500, 10))), 0);
    assert_eq!(choose_monitor(-1, &two_heads(), Some((1900, 0, 200, 100)), None), 1);
}

#[test]
fn the_pointer_decides_when_no_window_is_on_a_monitor() {
    assert_eq!(choose_monitor(-1, &two_heads(), None, Some((2500, 500))), 1);
    assert_eq!(choose_monitor(-1, &two_heads(), Some((5000, 5000, 10, 10)), Some((2500, 500))), 1);
    assert_eq!(choose_monitor(5, &two_heads(), None, Some((2500, 500))), 0);
    assert_eq!(choose_monitor(-1, &two_heads(), None, Some((9000, 9000))), 0);
    assert_eq!(choose_monitor(-1, &two_heads(), None, None), 0);
}
