use dmenu::config::{parse_i32, parse_u32, ArgOutcome, Config, ALPHA, OPAQUE};

fn args(list: &[&str]) -> Vec<Vec<u8>> {
    list.iter().map(|s| s.as_bytes().to_vec()).collect()
}

#[test]
fn default_config_holds_compiled_in_values() {
    let c = Config::default();
    assert!(c.topbar);
    assert_eq!(c.fonts.len(), 2);
    assert_eq!(c.fonts[0], b"monospace:size=10".to_vec());
    assert_eq!(c.prompt, b"".to_vec());
    assert_eq!(c.colors[0][0], b"#bbbbbb".to_vec());
    assert_eq!(c.colors[0][1], b"#222222".to_vec());
    assert_eq!(c.colors[1][0], b"#eeeeee".to_vec());
    assert_eq!(c.colors[1][1], b"#005577".to_vec());
    assert_eq!(c.colors[2][0], b"#000000".to_vec());
    assert_eq!(c.colors[2][1], b"#00ffff".to_vec());
    assert_eq!(c.alphas, vec![[OPAQUE, ALPHA]; 3]);
    assert_eq!(c.lines, 0);
    assert_eq!(c.word_delimeter, b" ".to_vec());
    assert!(!c.case_insensitive);
}

#[test]
fn parse_u32_follows_std() {
    assert_eq!(parse_u32(b"10"), Some(10));
    assert_eq!(parse_u32(b"+7"), Some(7));
    assert_eq!(parse_u32(b"4294967295"), Some(u32::MAX));
    assert_eq!(parse_u32(b"4294967296"), None);
    assert_eq!(parse_u32(b"-1"), None);
    assert_eq!(parse_u32(b""), None);
    assert_eq!(parse_u32(b"+"), None);
    assert_eq!(parse_u32(b"1x"), None);
    for s in ["0", "12", "+3", "99999", "x", " 1", "-0"] {
        assert_eq!(parse_u32(s.as_bytes()), s.parse::<u32>().ok());
    }
}

#[test]
fn parse_i32_follows_std() {
    assert_eq!(parse_i32(b"-1"), Some(-1));
    assert_eq!(parse_i32(b"+2"), Some(2));
    assert_eq!(parse_i32(b"-2147483648"), Some(i32::MIN));
    assert_eq!(parse_i32(b"2147483648"), None);
    assert_eq!(parse_i32(b"--1"), None);
    for s in ["0", "-12", "+3", "2147483647", "-2147483649", "a", ""] {
        assert_eq!(parse_i32(s.as_bytes()), s.parse::<i32>().ok());
    }
}

#[test]
fn parse_args_reads_flags() {
    let mut c = Config::default();
    let r = c.parse_args(&args(&["dmenu", "-b", "-i", "-l", "5", "-p", "run:", "-fn", "mono", "-nb", "#111111", "-nf", "#222222", "-sb", "#333333", "-sf", "#444444", "-m", "-3", "-w", "0x42", "-f", "-P"]));
    match r {
        ArgOutcome::Run(o) => {
            assert!(o.fast);
            assert!(o.passwd);
            assert_eq!(o.mon, -3);
            assert_eq!(o.embed, b"0x42".to_vec());
        }
        _ => panic!("expected to run"),
    }
    assert!(!c.topbar);
    assert!(c.case_insensitive);
    assert_eq!(c.lines, 5);
    assert_eq!(c.prompt, b"run:".to_vec());
    assert_eq!(c.fonts[0], b"mono".to_vec());
    assert_eq!(c.colors[0][1], b"#111111".to_vec());
    assert_eq!(c.colors[0][0], b"#222222".to_vec());
    assert_eq!(c.colors[1][1], b"#333333".to_vec());
    assert_eq!(c.colors[1][0], b"#444444".to_vec());
}

#[test]
fn parse_args_without_flags_runs_with_defaults() {
    let mut c = Config::default();
    match c.parse_args(&args(&["dmenu"])) {
        ArgOutcome::Run(o) => {
            assert!(!o.fast);
            assert!(!o.passwd);
            assert_eq!(o.mon, -1);
            assert!(o.embed.is_empty());
        }
        _ => panic!("expected to run"),
    }
    assert!(c.topbar);
}

#[test]
fn parse_args_version_usage_and_bad_numbers() {
    let mut c = Config::default();
    assert!(matches!(c.parse_args(&args(&["dmenu", "-v"])), ArgOutcome::Version));
    let mut c = Config::default();
    assert!(matches!(c.parse_args(&args(&["dmenu", "-l"])), ArgOutcome::Usage));
    let mut c = Config::default();
    assert!(matches!(c.parse_args(&args(&["dmenu", "-x", "1"])), ArgOutcome::Usage));
    let mut c = Config::default();
    assert!(matches!(c.parse_args(&args(&["dmenu", "-l", "ten"])), ArgOutcome::BadNumber));
    let mut c = Config::default();
    assert!(matches!(c.parse_args(&args(&["dmenu", "-m", "1.5"])), ArgOutcome::BadNumber));
    // -v ends the reading even after other flags
    let mut c = Config::default();
    assert!(matches!(c.parse_args(&args(&["dmenu", "-b", "-v", "-x"])), ArgOutcome::Version));
}

#[test]
fn xresources_set_font_and_colours() {
    let mut c = Config::default();
    c.apply_xresources(Some(b"Terminus".to_vec()), Some(b"#000001".to_vec()), Some(b"#000004".to_vec()));
    assert_eq!(c.fonts[0], b"Terminus".to_vec());
    assert_eq!(c.fonts[1], Config::default().fonts[1]);
    assert_eq!(c.colors[0][1], b"#000001".to_vec());
    assert_eq!(c.colors[1][0], b"#000001".to_vec());
    assert_eq!(c.colors[0][0], b"#000004".to_vec());
    assert_eq!(c.colors[1][1], b"#000004".to_vec());
    assert_eq!(c.colors[2], Config::default().colors[2]);

    let mut d = Config::default();
    d.apply_xresources(None, None, None);
    assert_eq!(d.fonts, Config::default().fonts);
    assert_eq!(d.colors, Config::default().colors);
}
