use dmenu::config::Config;
use dmenu::keys::{
    KeyAction, CONTROL_MASK, MOD1_MASK, SHIFT_MASK, XK_BackSpace, XK_Down, XK_End, XK_Escape, XK_Home,
    XK_Left, XK_Next, XK_Prior, XK_Return, XK_Right, XK_Tab, XK_Up, XK_a, XK_b, XK_bracketleft, XK_c, XK_e,
    XK_f, XK_h, XK_k, XK_u, XK_w, XK_y, X_LOOKUP_BOTH, X_LOOKUP_CHARS, X_LOOKUP_KEYSYM,
};
use dmenu::menu::Menu;

fn menu_with(input: &str, config: &Config) -> Menu {
    let mut m = Menu::from_input(input.as_bytes());
    let n = m.items.len();
    m.set_measures(20, 500, 0, 100, 10, 10, &vec![50; n], &vec![50; n]);
    m.mtch(config).unwrap();
    m
}

fn key(m: &mut Menu, ksym: u64, state: u32, config: &Config) -> KeyAction {
    m.keypress(ksym, state, X_LOOKUP_KEYSYM, 0, &[], config).ok().unwrap()
}

fn typed(m: &mut Menu, s: &str, config: &Config) -> KeyAction {
    let b = s.as_bytes();
    m.keypress(b[0] as u64, 0, X_LOOKUP_BOTH, b[0], b, config).ok().unwrap()
}

#[test]
fn escape_and_control_bracket_quit_with_failure() {
    let config = Config::default();
    let mut m = menu_with("a\nb\n", &config);
    assert!(matches!(key(&mut m, XK_Escape, 0, &config), KeyAction::Exit(1)));
    assert!(matches!(key(&mut m, XK_c, CONTROL_MASK, &config), KeyAction::Exit(1)));
    assert!(matches!(key(&mut m, XK_bracketleft, CONTROL_MASK, &config), KeyAction::Exit(1)));
}

#[test]
fn return_prints_the_selection_and_leaves() {
    let config = Config::default();
    let mut m = menu_with("apple\nbanana\n", &config);
    match key(&mut m, XK_Return, 0, &config) {
        KeyAction::Output { text, exit } => {
            assert_eq!(text, b"apple".to_vec());
            assert!(exit);
        }
        _ => panic!("expected output"),
    }
}

#[test]
fn shift_return_prints_the_input_line() {
    let config = Config::default();
    let mut m = menu_with("apple\nbanana\n", &config);
    typed(&mut m, "b", &config);
    match key(&mut m, XK_Return, SHIFT_MASK, &config) {
        KeyAction::Output { text, exit } => {
            assert_eq!(text, b"b".to_vec());
            assert!(exit);
        }
        _ => panic!("expected output"),
    }
}

#[test]
fn control_return_marks_the_item_and_stays() {
    let config = Config::default();
    let mut m = menu_with("apple\nbanana\n", &config);
    key(&mut m, XK_Down, 0, &config);
    match key(&mut m, XK_Return, CONTROL_MASK, &config) {
        KeyAction::Output { text, exit } => {
            assert_eq!(text, b"banana".to_vec());
            assert!(!exit);
        }
        _ => panic!("expected output"),
    }
    assert!(m.items[1].out);
    assert!(!m.items[0].out);
}

#[test]
fn return_with_no_match_prints_the_input() {
    let config = Config::default();
    let mut m = menu_with("apple\n", &config);
    typed(&mut m, "z", &config);
    assert!(m.matches.is_empty());
    match key(&mut m, XK_Return, 0, &config) {
        KeyAction::Output { text, exit } => {
            assert_eq!(text, b"z".to_vec());
            assert!(exit);
        }
        _ => panic!("expected output"),
    }
}

#[test]
fn typing_inserts_and_rematches() {
    let config = Config::default();
    let mut m = menu_with("apple\nbanana\ncherry\n", &config);
    assert!(matches!(typed(&mut m, "a", &config), KeyAction::Redraw));
    assert!(matches!(typed(&mut m, "n", &config), KeyAction::Redraw));
    assert_eq!(m.text, b"an".to_vec());
    assert_eq!(m.cursor, 2);
    assert_eq!(m.matches, vec![1]);
    let r = m.keypress(0, 0, X_LOOKUP_CHARS, "é".as_bytes()[0], "é".as_bytes(), &config);
    assert!(matches!(r, Ok(KeyAction::Redraw)));
    assert_eq!(m.text, "ané".as_bytes().to_vec());
}

#[test]
fn control_characters_are_not_inserted() {
    let config = Config::default();
    let mut m = menu_with("a\n", &config);
    let r = m.keypress(0, 0, X_LOOKUP_CHARS, 1, &[1], &config);
    assert!(r.is_ok());
    assert!(m.text.is_empty());
}

#[test]
fn lookups_without_a_result_are_ignored() {
    let config = Config::default();
    let mut m = menu_with("a\n", &config);
    let r = m.keypress(XK_a, 0, 1, b'a', b"a", &config);
    assert!(matches!(r, Ok(KeyAction::Ignore)));
    assert!(m.text.is_empty());
}

#[test]
fn backspace_and_delete_remove_one_character() {
    let config = Config::default();
    let mut m = menu_with("a\n", &config);
    m.insert_text("xéy".as_bytes(), &config).unwrap();
    key(&mut m, XK_BackSpace, 0, &config);
    assert_eq!(m.text, "xé".as_bytes().to_vec());
    key(&mut m, XK_BackSpace, 0, &config);
    assert_eq!(m.text, b"x".to_vec());
    assert_eq!(m.cursor, 1);
    key(&mut m, XK_Home, 0, &config);
    assert_eq!(m.cursor, 0);
    key(&mut m, XK_Left, 0, &config);
    assert_eq!(m.cursor, 0);
    key(&mut m, dmenu::keys::XK_Delete, 0, &config);
    assert!(m.text.is_empty());
    assert!(matches!(key(&mut m, XK_BackSpace, 0, &config), KeyAction::Ignore));
}

#[test]
fn control_editing_keys() {
    let config = Config::default();
    let mut m = menu_with("a\n", &config);
    m.insert_text(b"foo bar", &config).unwrap();
    key(&mut m, XK_w, CONTROL_MASK, &config);
    assert_eq!(m.text, b"foo ".to_vec());
    key(&mut m, XK_h, CONTROL_MASK, &config);
    assert_eq!(m.text, b"foo".to_vec());
    key(&mut m, XK_a, CONTROL_MASK, &config);
    assert_eq!(m.cursor, 0);
    key(&mut m, XK_e, CONTROL_MASK, &config);
    assert_eq!(m.cursor, 3);
    key(&mut m, XK_b, CONTROL_MASK, &config);
    assert_eq!(m.cursor, 2);
    key(&mut m, XK_k, CONTROL_MASK, &config);
    assert_eq!(m.text, b"fo".to_vec());
    key(&mut m, XK_f, CONTROL_MASK, &config);
    key(&mut m, XK_u, CONTROL_MASK, &config);
    assert!(m.text.is_empty());
    assert_eq!(m.cursor, 0);
}

#[test]
fn word_moves_with_alt_and_control_arrows() {
    let config = Config::default();
    let mut m = menu_with("a\n", &config);
    m.insert_text(b"one two three", &config).unwrap();
    assert!(matches!(key(&mut m, XK_b, MOD1_MASK, &config), KeyAction::Redraw));
    assert_eq!(m.cursor, 8);
    key(&mut m, XK_Left, CONTROL_MASK, &config);
    assert_eq!(m.cursor, 4);
    key(&mut m, XK_f, MOD1_MASK, &config);
    assert_eq!(m.cursor, 7);
    key(&mut m, XK_Right, CONTROL_MASK, &config);
    assert_eq!(m.cursor, 13);
}

#[test]
fn paste_requests_name_the_selection() {
    let config = Config::default();
    let mut m = menu_with("a\n", &config);
    assert!(matches!(key(&mut m, XK_y, CONTROL_MASK, &config), KeyAction::Paste { clipboard: false }));
    assert!(matches!(
        key(&mut m, dmenu::keys::XK_Y, CONTROL_MASK | SHIFT_MASK, &config),
        KeyAction::Paste { clipboard: true }
    ));
}

#[test]
fn tab_completes_the_selection() {
    let config = Config::default();
    let mut m = menu_with("apple\npineapple\nkiwi\n", &config);
    key(&mut m, XK_Tab, 0, &config);
    assert_eq!(m.text, b"apple".to_vec());
    assert_eq!(m.cursor, 5);
    assert_eq!(m.matches, vec![0, 1]);
}

#[test]
fn arrows_move_the_selection_in_a_row() {
    let config = Config::default();
    let mut m = menu_with("a\nb\nc\n", &config);
    key(&mut m, XK_Right, 0, &config);
    assert_eq!(m.sel, Some(1));
    key(&mut m, XK_Down, 0, &config);
    assert_eq!(m.sel, Some(2));
    key(&mut m, XK_Up, 0, &config);
    assert_eq!(m.sel, Some(1));
    key(&mut m, XK_Left, 0, &config);
    assert_eq!(m.sel, Some(0));
    key(&mut m, XK_End, 0, &config);
    assert_eq!(m.sel, Some(2));
    key(&mut m, XK_Home, 0, &config);
    assert_eq!(m.sel, Some(0));
}

#[test]
fn page_keys_turn_pages() {
    let config = Config::default();
    let input: String = (0..20).map(|i| format!("item{}\n", i)).collect();
    let mut m = menu_with(&input, &config);
    key(&mut m, XK_Next, 0, &config);
    assert_eq!(m.curr, Some(7));
    assert_eq!(m.sel, Some(7));
    key(&mut m, XK_Prior, 0, &config);
    assert_eq!(m.curr, Some(0));
    assert_eq!(m.sel, Some(0));
    // the first page is its own previous page
    assert!(matches!(key(&mut m, XK_Prior, 0, &config), KeyAction::Redraw));
    assert_eq!(m.curr, Some(0));
}
