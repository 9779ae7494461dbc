use dmenu::config::Config;
use dmenu::menu::Menu;
use dmenu::mouse::ButtonAction;

fn menu_with(input: &str, config: &Config) -> Menu {
    let mut m = Menu::from_input(input.as_bytes());
    let n = m.items.len();
    m.set_measures(20, 500, 0, 100, 10, 10, &vec![50; n], &vec![50; n]);
    m.mtch(config).unwrap();
    m
}

fn press(m: &mut Menu, button: u32, x: i32, y: i32, state: u32, config: &Config) -> ButtonAction {
    m.button_press(true, button, x, y, state, config).ok().unwrap()
}

#[test]
fn presses_elsewhere_are_ignored() {
    let config = Config::default();
    let mut m = menu_with("a\n", &config);
    assert!(matches!(m.button_press(false, 3, 0, 0, 0, &config), Ok(ButtonAction::Ignore)));
}

#[test]
fn right_button_quits() {
    let config = Config::default();
    let mut m = menu_with("a\n", &config);
    assert!(matches!(press(&mut m, 3, 0, 0, 0, &config), ButtonAction::Exit(1)));
}

#[test]
fn left_click_on_the_input_clears_it() {
    let config = Config::default();
    let mut m = menu_with("apple\nkiwi\n", &config);
    m.insert_text(b"ap", &config).unwrap();
    assert!(matches!(press(&mut m, 1, 50, 5, 0, &config), ButtonAction::Redraw));
    assert!(m.text.is_empty());
    assert_eq!(m.cursor, 0);
    assert_eq!(m.matches, vec![0, 1]);
}

#[test]
fn middle_button_pastes() {
    let config = Config::default();
    let mut m = menu_with("a\n", &config);
    assert!(matches!(press(&mut m, 2, 300, 5, 0, &config), ButtonAction::Paste { clipboard: false }));
    assert!(matches!(press(&mut m, 2, 300, 5, 1, &config), ButtonAction::Paste { clipboard: true }));
}

#[test]
fn wheel_turns_pages() {
    let config = Config::default();
    let input: String = (0..20).map(|i| format!("item{}\n", i)).collect();
    let mut m = menu_with(&input, &config);
    assert!(matches!(press(&mut m, 5, 300, 5, 0, &config), ButtonAction::Redraw));
    assert_eq!(m.curr, Some(7));
    assert_eq!(m.sel, Some(7));
    assert!(matches!(press(&mut m, 4, 300, 5, 0, &config), ButtonAction::Redraw));
    assert_eq!(m.curr, Some(0));
}

#[test]
fn click_on_a_row_item_prints_it() {
    let config = Config::default();
    let mut m = menu_with("apple\nbanana\ncherry\n", &config);
    // input field 0..100, left arrow 100..110, items of 50 from 110
    match press(&mut m, 1, 170, 5, 0, &config) {
        ButtonAction::Output { text, exit } => {
            assert_eq!(text, b"banana".to_vec());
            assert!(exit);
        }
        _ => panic!("expected output"),
    }
}

#[test]
fn control_click_on_a_list_line_marks_it() {
    let mut config = Config::default();
    config.lines = 3;
    let mut m = menu_with("apple\nbanana\ncherry\n", &config);
    match press(&mut m, 1, 30, 45, 4, &config) {
        ButtonAction::Output { text, exit } => {
            assert_eq!(text, b"banana".to_vec());
            assert!(!exit);
        }
        _ => panic!("expected output"),
    }
    assert_eq!(m.sel, Some(1));
    assert!(m.items[1].out);
}

#[test]
fn shifted_left_clicks_do_nothing_on_items() {
    let mut config = Config::default();
    config.lines = 3;
    let mut m = menu_with("apple\nbanana\n", &config);
    assert!(matches!(press(&mut m, 1, 30, 45, 1, &config), ButtonAction::Ignore));
}
