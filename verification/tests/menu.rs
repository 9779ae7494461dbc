use dmenu::config::Config;
use dmenu::items::{clamp_lines, split_items};
use dmenu::menu::{Menu, MenuError};

fn menu_with(input: &str, config: &Config) -> Menu {
    let mut m = Menu::from_input(input.as_bytes());
    let n = m.items.len();
    m.set_measures(20, 500, 0, 100, 10, 10, &vec![50; n], &vec![50; n]);
    m.mtch(config).unwrap();
    m
}

fn texts_of_matches(m: &Menu) -> Vec<String> {
    m.matches.iter().map(|&k| String::from_utf8(m.items[k].text.clone()).unwrap()).collect()
}

#[test]
fn split_items_reads_lines() {
    assert_eq!(split_items(b"a\nbb\n"), vec![b"a".to_vec(), b"bb".to_vec()]);
    assert_eq!(split_items(b"a\n\nc"), vec![b"a".to_vec(), b"".to_vec(), b"c".to_vec()]);
    assert!(split_items(b"").is_empty());
}

#[test]
fn split_items_replaces_invalid_utf8() {
    let items = split_items(b"ok\n\xffbad\n");
    assert_eq!(items[0], b"ok".to_vec());
    assert_eq!(items[1], "\u{fffd}bad".as_bytes().to_vec());
}

#[test]
fn clamp_lines_never_exceeds_item_count() {
    assert_eq!(clamp_lines(10, 3), 3);
    assert_eq!(clamp_lines(2, 3), 2);
    assert_eq!(clamp_lines(0, 0), 0);
}

#[test]
fn empty_input_matches_every_item_in_order() {
    let config = Config::default();
    let m = menu_with("apple\npineapple\ngrape\napricot\n", &config);
    assert_eq!(m.matches, vec![0, 1, 2, 3]);
    assert_eq!(m.curr, Some(0));
    assert_eq!(m.sel, Some(0));
    assert_eq!(m.next, None);
    assert_eq!(m.prev, Some(0));
}

#[test]
fn prefix_matches_come_before_substring_matches() {
    let config = Config::default();
    let mut m = menu_with("apple\npineapple\ngrape\napricot\nkiwi\n", &config);
    m.insert_text(b"ap", &config).unwrap();
    assert_eq!(texts_of_matches(&m), vec!["apple", "apricot", "pineapple", "grape"]);
    assert_eq!(m.cursor, 2);
}

#[test]
fn exact_matches_come_before_prefix_matches() {
    let config = Config::default();
    let mut m = menu_with("foobar\nfoo\n", &config);
    m.insert_text(b"foo", &config).unwrap();
    assert_eq!(texts_of_matches(&m), vec!["foo", "foobar"]);
    let mut m = menu_with("xfoo\nfoobar\nfoo\n", &config);
    m.insert_text(b"foo", &config).unwrap();
    assert_eq!(m.matches, vec![2, 1, 0]);
    assert_eq!(m.curr, Some(0));
    assert_eq!(m.sel, Some(0));
}

#[test]
fn exact_matches_ignore_ascii_case_under_dash_i() {
    let mut config = Config::default();
    config.case_insensitive = true;
    let mut m = menu_with("FooBar\nFOO\nxfoo\n", &config);
    m.insert_text(b"foo", &config).unwrap();
    assert_eq!(texts_of_matches(&m), vec!["FOO", "FooBar", "xfoo"]);
}

#[test]
fn first_word_prefix_matches_come_second() {
    let config = Config::default();
    let mut m = menu_with("apple\npineapple\ngrape\napricot\n", &config);
    m.insert_text(b"p a", &config).unwrap();
    assert_eq!(texts_of_matches(&m), vec!["pineapple", "apple", "grape", "apricot"]);
}

#[test]
fn every_word_must_occur() {
    let config = Config::default();
    let mut m = menu_with("foo bar\nfoo\nbar\n", &config);
    m.insert_text(b"bar foo", &config).unwrap();
    assert_eq!(texts_of_matches(&m), vec!["foo bar"]);
    m.insert_text(b"x", &config).unwrap();
    assert!(m.matches.is_empty());
    assert_eq!(m.curr, None);
    assert_eq!(m.sel, None);
    assert_eq!(m.next, None);
    assert_eq!(m.prev, None);
}

#[test]
fn case_insensitive_matching() {
    let mut config = Config::default();
    config.case_insensitive = true;
    let mut m = menu_with("Firefox\nfile\nVIM\n", &config);
    m.insert_text(b"FI", &config).unwrap();
    assert_eq!(texts_of_matches(&m), vec!["Firefox", "file"]);
    let config2 = Config::default();
    let mut m2 = menu_with("Firefox\nfile\nVIM\n", &config2);
    m2.insert_text(b"FI", &config2).unwrap();
    assert!(m2.matches.is_empty());
}

#[test]
fn case_insensitive_matching_reports_a_cut_inside_a_character() {
    let mut config = Config::default();
    config.case_insensitive = true;
    let mut m = menu_with("\u{130}\u{130}x\n", &config);
    let r = m.insert_text(b"x", &config);
    assert!(matches!(r, Err(MenuError::NotCharBoundary { item: 0 })));
}

#[test]
fn pages_hold_what_fits_in_the_bar() {
    let config = Config::default();
    // room: 500 - (0 + 100 + 10 + 10) = 380, items 50 wide: 7 per page
    let input: String = (0..20).map(|i| format!("item{}\n", i)).collect();
    let mut m = menu_with(&input, &config);
    assert_eq!(m.curr, Some(0));
    assert_eq!(m.next, Some(7));
    for _ in 0..7 {
        m.sel_move_down(&config);
    }
    assert_eq!(m.sel, Some(7));
    assert_eq!(m.curr, Some(7));
    assert_eq!(m.next, Some(14));
    assert_eq!(m.prev, Some(0));
    m.sel_move_up(&config);
    assert_eq!(m.sel, Some(6));
    assert_eq!(m.curr, Some(0));
    assert_eq!(m.next, Some(7));
}

#[test]
fn vertical_pages_hold_the_configured_lines() {
    let mut config = Config::default();
    config.lines = 3;
    let mut m = menu_with("a\nb\nc\nd\ne\n", &config);
    assert_eq!(m.next, Some(3));
    m.calcoffsets(&config);
    assert_eq!(m.next, Some(3));
    m.sel_move_down(&config);
    m.sel_move_down(&config);
    m.sel_move_down(&config);
    assert_eq!(m.curr, Some(3));
    assert_eq!(m.next, None);
    assert_eq!(m.prev, Some(0));
}

#[test]
fn moving_at_the_ends_stays() {
    let config = Config::default();
    let mut m = menu_with("a\nb\n", &config);
    m.sel_move_up(&config);
    assert_eq!(m.sel, Some(0));
    m.sel_move_down(&config);
    m.sel_move_down(&config);
    assert_eq!(m.sel, Some(1));
}

#[test]
fn down_then_up_returns() {
    let config = Config::default();
    let input: String = (0..10).map(|i| format!("w{}\n", i)).collect();
    let mut m = menu_with(&input, &config);
    for _ in 0..6 {
        m.sel_move_down(&config);
    }
    let before = m.sel;
    m.sel_move_down(&config);
    m.sel_move_up(&config);
    assert_eq!(m.sel, before);
}

#[test]
fn end_page_and_show_page() {
    let config = Config::default();
    let input: String = (0..20).map(|i| format!("item{}\n", i)).collect();
    let mut m = menu_with(&input, &config);
    m.end_page(&config);
    assert_eq!(m.next, None);
    assert_eq!(m.curr, Some(13));
    m.show_page(0, &config);
    assert_eq!(m.curr, Some(0));
    assert_eq!(m.sel, Some(0));
    assert_eq!(m.next, Some(7));
}

#[test]
fn positions_are_absent_exactly_without_matches() {
    let config = Config::default();
    let mut m = menu_with("a\nb\n", &config);
    assert!(m.curr.is_some() && m.sel.is_some() && m.prev.is_some());
    m.insert_text(b"zz", &config).unwrap();
    assert!(m.curr.is_none() && m.sel.is_none() && m.prev.is_none() && m.next.is_none());
    m.delete_before_cursor(2, &config).unwrap();
    assert_eq!(m.matches, vec![0, 1]);
    assert!(m.curr.is_some() && m.sel.is_some() && m.prev.is_some());
}

#[test]
fn down_then_up_keeps_the_page_at_or_before_the_selection() {
    let config = Config::default();
    let input: String = (0..20).map(|i| format!("item{}\n", i)).collect();
    let mut m = menu_with(&input, &config);
    for _ in 0..6 {
        m.sel_move_down(&config);
    }
    let text = m.text.clone();
    m.sel_move_down(&config);
    assert_eq!(m.curr, Some(7));
    m.sel_move_up(&config);
    assert_eq!(m.sel, Some(6));
    assert!(m.curr.unwrap() <= 6);
    assert_eq!(m.text, text);
}
