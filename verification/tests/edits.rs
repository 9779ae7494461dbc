use dmenu::config::Config;
use dmenu::menu::Menu;

fn menu_with(input: &str, config: &Config) -> Menu {
    let mut m = Menu::from_input(input.as_bytes());
    let n = m.items.len();
    m.set_measures(20, 500, 0, 100, 10, 10, &vec![50; n], &vec![50; n]);
    m.mtch(config).unwrap();
    m
}

#[test]
fn insert_then_delete_restores_the_line() {
    let config = Config::default();
    let mut m = menu_with("a\n", &config);
    m.insert_text("héllo wörld".as_bytes(), &config).unwrap();
    m.move_word_edge(-1, &config);
    let before = (m.text.clone(), m.cursor);
    m.insert_text("ünï".as_bytes(), &config).unwrap();
    assert_eq!(m.text, "héllo ünïwörld".as_bytes().to_vec());
    m.delete_before_cursor("ünï".len(), &config).unwrap();
    assert_eq!((m.text.clone(), m.cursor), before);
}

#[test]
fn inserting_nothing_changes_nothing() {
    let config = Config::default();
    let mut m = menu_with("a\n", &config);
    m.insert_text(b"ab", &config).unwrap();
    m.insert_text(b"", &config).unwrap();
    assert_eq!(m.text, b"ab".to_vec());
    assert_eq!(m.cursor, 2);
}

#[test]
fn paste_inserts_the_first_line() {
    let config = Config::default();
    let mut m = menu_with("a\n", &config);
    m.paste(b"one\ntwo", &config).unwrap();
    assert_eq!(m.text, b"one".to_vec());
    assert_eq!(m.cursor, 3);
    // invalid bytes are replaced
    m.paste(b"\xff", &config).unwrap();
    assert_eq!(m.text, "one\u{fffd}".as_bytes().to_vec());
}

#[test]
fn next_rune_steps_over_whole_characters() {
    let config = Config::default();
    let mut m = menu_with("a\n", &config);
    m.insert_text("aé".as_bytes(), &config).unwrap();
    assert_eq!(m.next_rune(-1), 1);
    m.move_word_edge(-1, &config);
    assert_eq!(m.cursor, 0);
    assert_eq!(m.next_rune(1), 1);
}

#[test]
fn word_edges_respect_the_delimiters() {
    let mut config = Config::default();
    config.word_delimeter = b" /".to_vec();
    let mut m = menu_with("a\n", &config);
    m.insert_text(b"/usr/local/bin", &config).unwrap();
    m.move_word_edge(-1, &config);
    assert_eq!(m.cursor, 11);
    m.move_word_edge(-1, &config);
    assert_eq!(m.cursor, 5);
    m.move_word_edge(1, &config);
    assert_eq!(m.cursor, 10);
    m.kill_to_end(&config).unwrap();
    assert_eq!(m.text, b"/usr/local".to_vec());
    m.delete_word(&config).unwrap();
    assert_eq!(m.text, b"/usr/".to_vec());
    m.delete_word(&config).unwrap();
    assert_eq!(m.text, b"/".to_vec());
}
