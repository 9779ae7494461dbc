use dmenu::geometry::NoMatches;
use dmenu::textdraw::{After, Begin, FontSearch, Glyph, TextRun};

/// A font library where every character is 10 wide and each font has the
/// characters listed for it; `fallback` is what a fallback search finds.
struct Fonts {
    has: Vec<Vec<char>>,
    fallback: Option<Vec<char>>,
}

struct Drawn {
    answer: i64,
    pieces: Vec<(usize, String, i64)>,
    ellipses: Vec<(i64, u32)>,
}

fn lay(text: &str, x: i32, w: u32, lpad: u32, invert: u32, render: bool, fonts: &mut Fonts, nm: &mut NoMatches) -> Drawn {
    let bytes = text.as_bytes();
    let mut drawn = Drawn { answer: 0, pieces: Vec::new(), ellipses: Vec::new() };
    let mut s = match TextRun::begin(x, w, lpad, bytes, invert, render, true, fonts.has.len(), 15) {
        Begin::Nothing => return drawn,
        Begin::Padded(v) => {
            drawn.answer = v;
            return drawn;
        }
        Begin::Lay(s) => s,
    };
    loop {
        s.start_run(bytes);
        while s.pos < bytes.len() {
            let c = text[s.pos..].chars().next().unwrap();
            let glyph = if s.force_first {
                Glyph::Font { font: 0, width: 10 }
            } else {
                match fonts.has.iter().position(|f| f.contains(&c)) {
                    Some(f) => Glyph::Font { font: f, width: 10 },
                    None => Glyph::Missing,
                }
            };
            if !s.place(bytes, glyph) {
                break;
            }
        }
        let end = s.end_run(bytes);
        if let Some(p) = end.draw {
            drawn.pieces.push((p.font, text[p.start..p.start + p.len].to_string(), p.x));
        }
        if let Some(e) = end.ellipsis {
            drawn.ellipses.push(e);
        }
        match end.next {
            After::Done(v) => {
                drawn.answer = v;
                return drawn;
            }
            After::NextFont => {}
            After::Fallback => {
                let cp = text[s.pos..].chars().next().unwrap() as u32;
                if s.skip_known(nm, cp) {
                    let found = match &fonts.fallback {
                        None => FontSearch::NoPattern,
                        Some(chars) => {
                            if chars.contains(&char::from_u32(cp).unwrap()) {
                                fonts.has.push(chars.clone());
                                FontSearch::Loaded(fonts.has.len() - 1)
                            } else {
                                FontSearch::Lacks
                            }
                        }
                    };
                    s.searched(nm, cp, found);
                }
            }
        }
    }
}

fn latin() -> Vec<char> {
    ('a'..='z').collect()
}

#[test]
fn nothing_to_draw() {
    let mut f = Fonts { has: vec![latin()], fallback: None };
    let mut nm = NoMatches::new();
    assert!(matches!(TextRun::begin(0, 10, 0, b"", 0, true, true, 1, 15), Begin::Nothing));
    assert!(matches!(TextRun::begin(0, 0, 0, b"a", 0, true, true, 1, 15), Begin::Nothing));
    assert!(matches!(TextRun::begin(0, 10, 0, b"a", 0, true, false, 1, 15), Begin::Nothing));
    assert!(matches!(TextRun::begin(0, 10, 0, b"a", 0, false, true, 0, 15), Begin::Nothing));
    assert_eq!(lay("", 5, 10, 0, 0, true, &mut f, &mut nm).answer, 0);
}

#[test]
fn a_box_narrower_than_its_padding() {
    assert!(matches!(TextRun::begin(7, 3, 5, b"a", 0, true, true, 1, 15), Begin::Padded(10)));
}

#[test]
fn a_string_that_fits_is_drawn_in_one_piece() {
    let mut f = Fonts { has: vec![latin()], fallback: None };
    let mut nm = NoMatches::new();
    let d = lay("abc", 10, 100, 5, 0, true, &mut f, &mut nm);
    assert_eq!(d.pieces, vec![(0, "abc".to_string(), 15)]);
    assert!(d.ellipses.is_empty());
    assert_eq!(d.answer, 110);
}

#[test]
fn a_string_that_overflows_ends_in_an_ellipsis() {
    let mut f = Fonts { has: vec![latin()], fallback: None };
    let mut nm = NoMatches::new();
    let d = lay("abcdefgh", 0, 45, 0, 0, true, &mut f, &mut nm);
    assert_eq!(d.pieces, vec![(0, "abc".to_string(), 0)]);
    assert_eq!(d.ellipses, vec![(30, 15)]);
    assert_eq!(d.answer, 45);
}

#[test]
fn measuring_gives_the_width() {
    let mut f = Fonts { has: vec![latin()], fallback: None };
    let mut nm = NoMatches::new();
    let d = lay("abc", 0, 0, 0, 0, false, &mut f, &mut nm);
    assert_eq!(d.answer, 30);
    assert!(d.pieces.is_empty());
    // measuring against a limit counts the character that overflows
    let d = lay("abc", 0, 0, 0, 25, false, &mut f, &mut nm);
    assert_eq!(d.answer, 30);
    let d = lay("abcdef", 0, 0, 0, 25, false, &mut f, &mut nm);
    assert_eq!(d.answer, 30);
}

#[test]
fn runs_change_font_with_the_characters() {
    let mut f = Fonts { has: vec![latin(), vec!['é']], fallback: None };
    let mut nm = NoMatches::new();
    let d = lay("aéb", 0, 100, 0, 0, true, &mut f, &mut nm);
    assert_eq!(
        d.pieces,
        vec![(0, "a".to_string(), 0), (1, "é".to_string(), 10), (0, "b".to_string(), 20)]
    );
    assert_eq!(d.answer, 100);
}

#[test]
fn a_fallback_font_is_loaded_for_a_missing_character() {
    let mut f = Fonts { has: vec![latin()], fallback: Some(vec!['☃']) };
    let mut nm = NoMatches::new();
    let d = lay("a☃", 0, 100, 0, 0, true, &mut f, &mut nm);
    assert_eq!(f.has.len(), 2);
    assert_eq!(d.pieces, vec![(0, "a".to_string(), 0), (1, "☃".to_string(), 10)]);
    assert!(!nm.contains('☃' as u32));
}

#[test]
fn characters_without_a_font_are_remembered_and_drawn_in_the_first_font() {
    let mut f = Fonts { has: vec![latin()], fallback: Some(vec!['x']) };
    let mut nm = NoMatches::new();
    let d = lay("a☃", 0, 100, 0, 0, true, &mut f, &mut nm);
    assert_eq!(f.has.len(), 1);
    assert!(nm.contains('☃' as u32));
    assert_eq!(d.pieces, vec![(0, "a".to_string(), 0), (0, "☃".to_string(), 10)]);
    // the second time the cache spares the search
    let mut f2 = Fonts { has: vec![latin()], fallback: None };
    let d2 = lay("☃", 0, 100, 0, 0, true, &mut f2, &mut nm);
    assert_eq!(d2.pieces, vec![(0, "☃".to_string(), 0)]);
}
