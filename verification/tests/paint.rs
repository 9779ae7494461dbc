use dmenu::config::{Config, SCHEME_NORM, SCHEME_SEL};
use dmenu::menu::Menu;
use dmenu::paint::{Paint, Shown};

fn menu_with(input: &str, config: &Config, promptw: i32) -> Menu {
    let mut m = Menu::from_input(input.as_bytes());
    let n = m.items.len();
    m.set_measures(20, 500, promptw, 100, 10, 10, &vec![50; n], &vec![50; n]);
    m.mtch(config).unwrap();
    m
}

#[test]
fn a_row_redraw() {
    let config = Config::default();
    let m = menu_with("a\nb\nc\n", &config, 0);
    let p = m.paint_plan(&config, false, 20, 10, 10, 10);
    assert_eq!(p.len(), 6);
    assert!(matches!(p[0], Paint::Rect { x: 0, y: 0, w: 500, h: 20, filled: true, invert: true, scheme: SCHEME_NORM }));
    assert!(matches!(p[1], Paint::Text { x: 0, y: 0, w: 100, h: 20, lpad: 5, shown: Shown::Input, scheme: SCHEME_NORM }));
    assert!(matches!(p[2], Paint::Rect { x: 4, y: 2, w: 2, h: 16, filled: true, invert: false, scheme: SCHEME_NORM }));
    assert!(matches!(p[3], Paint::Text { x: 110, y: 0, w: 50, shown: Shown::Match(0), scheme: SCHEME_SEL, .. }));
    assert!(matches!(p[4], Paint::Text { x: 160, y: 0, w: 50, shown: Shown::Match(1), scheme: SCHEME_NORM, .. }));
    assert!(matches!(p[5], Paint::Text { x: 210, y: 0, w: 50, shown: Shown::Match(2), scheme: SCHEME_NORM, .. }));
}

#[test]
fn a_row_with_more_pages_has_arrows() {
    let config = Config::default();
    let input: String = (0..20).map(|i| format!("item{}\n", i)).collect();
    let mut m = menu_with(&input, &config, 0);
    m.show_page(7, &config);
    let p = m.paint_plan(&config, false, 20, 10, 10, 10);
    // background, input, cursor, left arrow, seven matches, right arrow
    assert_eq!(p.len(), 12);
    assert!(matches!(p[3], Paint::Text { x: 100, w: 10, shown: Shown::LeftArrow, .. }));
    assert!(matches!(p[4], Paint::Text { x: 110, shown: Shown::Match(7), scheme: SCHEME_SEL, .. }));
    assert!(matches!(p[10], Paint::Text { x: 410, shown: Shown::Match(13), .. }));
    assert!(matches!(p[11], Paint::Text { x: 490, w: 10, shown: Shown::RightArrow, .. }));
}

#[test]
fn a_list_redraw_with_prompt_and_hidden_input() {
    let mut config = Config::default();
    config.lines = 2;
    config.prompt = b"run:".to_vec();
    let m = menu_with("a\nb\nc\n", &config, 40);
    let p = m.paint_plan(&config, true, 60, 10, 30, 10);
    assert!(matches!(p[1], Paint::Text { x: 0, y: 0, w: 40, shown: Shown::Prompt, scheme: SCHEME_SEL, .. }));
    assert!(matches!(p[2], Paint::Text { x: 40, y: 0, w: 460, shown: Shown::Censored, .. }));
    // cursor: 30 - 10 + 5 - 1 = 24 from the input line
    assert!(matches!(p[3], Paint::Rect { x: 64, y: 2, .. }));
    assert!(matches!(p[4], Paint::Text { x: 40, y: 20, w: 460, shown: Shown::Match(0), scheme: SCHEME_SEL, .. }));
    assert!(matches!(p[5], Paint::Text { x: 40, y: 40, w: 460, shown: Shown::Match(1), .. }));
    assert_eq!(p.len(), 6);
}

#[test]
fn an_empty_item_sends_the_pen_back() {
    let config = Config::default();
    let m = menu_with("a\n\nc\n", &config, 0);
    let p = m.paint_plan(&config, false, 20, 10, 10, 10);
    assert!(matches!(p[4], Paint::Text { x: 160, shown: Shown::Match(1), .. }));
    // drawing an empty string answers 0, so the next match starts at 0
    assert!(matches!(p[5], Paint::Text { x: 0, shown: Shown::Match(2), .. }));
}
