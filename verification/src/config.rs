//! Run-time configuration: compiled-in defaults, X resources and
//! command-line flags.

use vstd::prelude::*;
use vstd::string::StringSliceAdditionalSpecFns;

verus! {

/// Version reported by `-v`.
pub const VERSION: &'static str = "0.0.1";

/// Index of the normal, the selected and the output colour scheme.
pub const SCHEME_NORM: usize = 0;
pub const SCHEME_SEL: usize = 1;
pub const SCHEME_OUT: usize = 2;

/// Index of the foreground and the background colour in a scheme.
pub const COL_FG: usize = 0;
pub const COL_BG: usize = 1;

/// Alpha of the background and of opaque colours.
pub const ALPHA: u32 = 0xEE;
pub const OPAQUE: u32 = 0xFF;

/// The settings that the menu logic and the drawing read.
pub struct Config {
    /// Menu at the top of the screen (else at the bottom).
    pub topbar: bool,
    /// Font names, the first one being the primary font.
    pub fonts: Vec<Vec<u8>>,
    /// Prompt drawn left of the input field.
    pub prompt: Vec<u8>,
    /// Foreground and background colour names per scheme.
    pub colors: Vec<[Vec<u8>; 2]>,
    /// Foreground and background alpha per scheme.
    pub alphas: Vec<[u32; 2]>,
    /// Number of lines of a vertical list; 0 gives a horizontal list.
    pub lines: u32,
    /// Bytes that are not part of a word when words are deleted or skipped.
    pub word_delimeter: Vec<u8>,
    /// Match items ignoring case.
    pub case_insensitive: bool,
}

/// The bytes of a string literal.
pub fn literal(s: &str) -> (r: Vec<u8>)
    ensures
        r@ == s.spec_bytes(),
{
    crate::menu::copy_bytes(s.as_bytes())
}

impl Config {
    /// The configuration has the slots that flags and resources write:
    /// a primary font and the normal and selected schemes.
    pub open spec fn wf(&self) -> bool {
        self.fonts@.len() >= 1 && self.colors@.len() >= 2
    }
}

impl Default for Config {
    /// The compiled-in defaults.
    fn default() -> (r: Self)
        ensures
            r.wf(),
            r.topbar,
            r.fonts@.len() == 2,
            r.fonts@[0]@ == "monospace:size=10".spec_bytes(),
            r.fonts@[1]@ == "NotoColorEmoji:pixelsize=8:antialias=true:autohint=true".spec_bytes(),
            r.prompt@ == "".spec_bytes(),
            r.colors@.len() == 3,
            r.colors@[0][0]@ == "#bbbbbb".spec_bytes(),
            r.colors@[0][1]@ == "#222222".spec_bytes(),
            r.colors@[1][0]@ == "#eeeeee".spec_bytes(),
            r.colors@[1][1]@ == "#005577".spec_bytes(),
            r.colors@[2][0]@ == "#000000".spec_bytes(),
            r.colors@[2][1]@ == "#00ffff".spec_bytes(),
            r.alphas@ == seq![[OPAQUE, ALPHA], [OPAQUE, ALPHA], [OPAQUE, ALPHA]],
            r.lines == 0,
            r.word_delimeter@ == " ".spec_bytes(),
            !r.case_insensitive,
    {
        let mut fonts: Vec<Vec<u8>> = Vec::new();
        fonts.push(literal("monospace:size=10"));
        fonts.push(literal("NotoColorEmoji:pixelsize=8:antialias=true:autohint=true"));
        let mut colors: Vec<[Vec<u8>; 2]> = Vec::new();
        colors.push([literal("#bbbbbb"), literal("#222222")]);
        colors.push([literal("#eeeeee"), literal("#005577")]);
        colors.push([literal("#000000"), literal("#00ffff")]);
        let mut alphas: Vec<[u32; 2]> = Vec::new();
        alphas.push([OPAQUE, ALPHA]);
        alphas.push([OPAQUE, ALPHA]);
        alphas.push([OPAQUE, ALPHA]);
        assert(alphas@ =~= seq![[OPAQUE, ALPHA], [OPAQUE, ALPHA], [OPAQUE, ALPHA]]);
        Config {
            topbar: true,
            fonts,
            prompt: literal(""),
            colors,
            alphas,
            lines: 0,
            word_delimeter: literal(" "),
            case_insensitive: false,
        }
    }
}

/// A decimal digit.
pub open spec fn is_digit(b: u8) -> bool {
    48 <= b <= 57
}

/// The value of a string of decimal digits.
pub open spec fn digits_value(s: Seq<u8>) -> int
    decreases s.len(),
{
    if s.len() == 0 {
        0
    } else {
        digits_value(s.drop_last()) * 10 + (s.last() - 48)
    }
}

/// The digits after an optional sign (`+` only when `signed` is false).
pub open spec fn unsigned_part(s: Seq<u8>, signed: bool) -> Seq<u8> {
    if s.len() > 0 && (s[0] == 43 || (signed && s[0] == 45)) {
        s.drop_first()
    } else {
        s
    }
}

/// One or more decimal digits.
pub open spec fn is_number(d: Seq<u8>) -> bool {
    d.len() > 0 && forall|i: int| 0 <= i < d.len() ==> #[trigger] is_digit(d[i])
}

/// What std parses as a `u32`: an optional `+` and decimal digits whose
/// value fits.
pub open spec fn parsed_u32(s: Seq<u8>) -> Option<u32> {
    let d = unsigned_part(s, false);
    if is_number(d) && digits_value(d) <= u32::MAX {
        Some(digits_value(d) as u32)
    } else {
        None
    }
}

/// What std parses as an `i32`: an optional sign and decimal digits whose
/// value fits.
pub open spec fn parsed_i32(s: Seq<u8>) -> Option<i32> {
    let d = unsigned_part(s, true);
    let v = if s.len() > 0 && s[0] == 45 {
        -digits_value(d)
    } else {
        digits_value(d)
    };
    if is_number(d) && i32::MIN <= v <= i32::MAX {
        Some(v as i32)
    } else {
        None
    }
}

/// Adding digits never makes the value smaller.
pub proof fn lemma_digits_monotone(d: Seq<u8>, i: int)
    requires
        0 <= i <= d.len(),
        forall|j: int| 0 <= j < d.len() ==> #[trigger] is_digit(d[j]),
    ensures
        digits_value(d.take(i)) <= digits_value(d),
        digits_value(d) >= 0,
    decreases d.len() - i,
{
    if i < d.len() {
        lemma_digits_monotone(d, i + 1);
        assert(d.take(i + 1).drop_last() =~= d.take(i));
        assert forall|j: int| 0 <= j < d.take(i).len() implies #[trigger] is_digit(d.take(i)[j]) by {
            assert(is_digit(d[j]));
        }
        lemma_digits_nonneg(d.take(i));
        assert(is_digit(d[i]));
        assert(d.take(i + 1).last() == d[i]);
        assert(digits_value(d.take(i + 1)) == digits_value(d.take(i)) * 10 + (d[i] - 48));
    } else {
        assert(d.take(i) =~= d);
        lemma_digits_nonneg(d);
    }
}

proof fn lemma_digits_nonneg(d: Seq<u8>)
    requires
        forall|j: int| 0 <= j < d.len() ==> #[trigger] is_digit(d[j]),
    ensures
        digits_value(d) >= 0,
    decreases d.len(),
{
    if d.len() > 0 {
        assert(is_digit(d[d.len() - 1]));
        assert forall|j: int| 0 <= j < d.drop_last().len() implies #[trigger] is_digit(d.drop_last()[j]) by {
            assert(is_digit(d[j]));
        }
        lemma_digits_nonneg(d.drop_last());
    }
}

/// The value of the digits `d`, or `None` when one is not a digit or the
/// value exceeds `limit`.
fn digits_upto(d: &[u8], limit: u64) -> (r: Option<u64>)
    requires
        limit <= u32::MAX + 1,
    ensures
        r matches Some(v) ==> is_number(d@) && v == digits_value(d@) && v <= limit,
        r is None ==> !is_number(d@) || digits_value(d@) > limit,
{
    if d.len() == 0 {
        return None;
    }
    let mut v: u64 = 0;
    let mut i: usize = 0;
    while i < d.len()
        invariant
            i <= d@.len(),
            limit <= u32::MAX + 1,
            forall|j: int| 0 <= j < i ==> #[trigger] is_digit(d@[j]),
            v == digits_value(d@.take(i as int)),
            v <= limit,
        decreases d@.len() - i,
    {
        let b = d[i];
        if b < 48 || b > 57 {
            assert(!is_digit(d@[i as int]));
            return None;
        }
        assert(d@.take(i + 1).drop_last() =~= d@.take(i as int));
        v = v * 10 + (b - 48) as u64;
        i = i + 1;
        if v > limit {
            proof {
                lemma_digits_value_bigger(d@, i as int, limit as int);
            }
            return None;
        }
    }
    assert(d@.take(i as int) =~= d@);
    Some(v)
}

/// Once a prefix exceeds the limit, either a later byte is not a digit or
/// the whole value exceeds it too.
proof fn lemma_digits_value_bigger(d: Seq<u8>, i: int, limit: int)
    requires
        0 <= i <= d.len(),
        forall|j: int| 0 <= j < i ==> #[trigger] is_digit(d[j]),
        digits_value(d.take(i)) > limit,
    ensures
        !is_number(d) || digits_value(d) > limit,
{
    if is_number(d) {
        lemma_digits_monotone(d, i);
    }
}

/// Parses a `u32` as std's `str::parse` does.
pub fn parse_u32(s: &[u8]) -> (r: Option<u32>)
    ensures
        r == parsed_u32(s@),
{
    let d = if s.len() > 0 && s[0] == 43 {
        &s[1..s.len()]
    } else {
        s
    };
    assert(d@ =~= unsigned_part(s@, false));
    match digits_upto(d, 4294967295) {
        Some(v) => Some(v as u32),
        None => None,
    }
}

/// Parses an `i32` as std's `str::parse` does.
pub fn parse_i32(s: &[u8]) -> (r: Option<i32>)
    ensures
        r == parsed_i32(s@),
{
    let neg = s.len() > 0 && s[0] == 45;
    let d = if s.len() > 0 && (s[0] == 43 || s[0] == 45) {
        &s[1..s.len()]
    } else {
        s
    };
    assert(d@ =~= unsigned_part(s@, true));
    if neg {
        match digits_upto(d, 2147483648) {
            Some(v) => Some((0 - v as i64) as i32),
            None => None,
        }
    } else {
        match digits_upto(d, 2147483647) {
            Some(v) => Some(v as i32),
            None => None,
        }
    }
}

/// Settings from the command line that are not part of `Config`.
#[derive(Debug)]
pub struct Options {
    /// Grab the keyboard before reading the items.
    pub fast: bool,
    /// Monitor to show the menu on (negative: pick one).
    pub mon: i32,
    /// Window to embed the menu into (as given, empty for none).
    pub embed: Vec<u8>,
    /// Hide the input (password mode).
    pub passwd: bool,
}

/// What the command line asks for.
#[derive(Debug)]
pub enum ArgOutcome {
    /// Run the menu with these options.
    Run(Options),
    /// Print the version and leave.
    Version,
    /// Print the usage and leave with failure.
    Usage,
    /// A numeric flag value does not parse.
    BadNumber,
}

/// The settings that flags can write.
pub struct ArgModel {
    pub topbar: bool,
    pub case_insensitive: bool,
    pub fast: bool,
    pub passwd: bool,
    pub lines: u32,
    pub mon: i32,
    pub prompt: Seq<u8>,
    pub font: Seq<u8>,
    pub norm_fg: Seq<u8>,
    pub norm_bg: Seq<u8>,
    pub sel_fg: Seq<u8>,
    pub sel_bg: Seq<u8>,
    pub embed: Seq<u8>,
}

/// How reading the flags ends.
pub enum ArgVerdict {
    Run,
    Version,
    Usage,
    BadNumber,
}

/// The settings of `config` with the option defaults.
pub open spec fn start_model(config: &Config) -> ArgModel {
    ArgModel {
        topbar: config.topbar,
        case_insensitive: config.case_insensitive,
        fast: false,
        passwd: false,
        lines: config.lines,
        mon: -1i32,
        prompt: config.prompt@,
        font: config.fonts@[0]@,
        norm_fg: config.colors@[0][0]@,
        norm_bg: config.colors@[0][1]@,
        sel_fg: config.colors@[1][0]@,
        sel_bg: config.colors@[1][1]@,
        embed: seq![],
    }
}

/// Reads the flags from position `i` on: single flags, flags that take the
/// next argument, `-v` that stops, and anything else (or a last flag that
/// lacks its value) that asks for the usage.
pub open spec fn read_flags(args: Seq<Seq<u8>>, i: int, m: ArgModel) -> (ArgVerdict, ArgModel)
    decreases args.len() - i,
{
    if i < 0 || i >= args.len() {
        (ArgVerdict::Run, m)
    } else {
        let a = args[i];
        if a == "-v".spec_bytes() {
            (ArgVerdict::Version, m)
        } else if a == "-b".spec_bytes() {
            read_flags(args, i + 1, ArgModel { topbar: false, ..m })
        } else if a == "-f".spec_bytes() {
            read_flags(args, i + 1, ArgModel { fast: true, ..m })
        } else if a == "-i".spec_bytes() {
            read_flags(args, i + 1, ArgModel { case_insensitive: true, ..m })
        } else if a == "-P".spec_bytes() {
            read_flags(args, i + 1, ArgModel { passwd: true, ..m })
        } else if i + 1 == args.len() {
            (ArgVerdict::Usage, m)
        } else {
            let v = args[i + 1];
            if a == "-l".spec_bytes() {
                match parsed_u32(v) {
                    Some(n) => read_flags(args, i + 2, ArgModel { lines: n, ..m }),
                    None => (ArgVerdict::BadNumber, m),
                }
            } else if a == "-m".spec_bytes() {
                match parsed_i32(v) {
                    Some(n) => read_flags(args, i + 2, ArgModel { mon: n, ..m }),
                    None => (ArgVerdict::BadNumber, m),
                }
            } else if a == "-p".spec_bytes() {
                read_flags(args, i + 2, ArgModel { prompt: v, ..m })
            } else if a == "-fn".spec_bytes() {
                read_flags(args, i + 2, ArgModel { font: v, ..m })
            } else if a == "-nb".spec_bytes() {
                read_flags(args, i + 2, ArgModel { norm_bg: v, ..m })
            } else if a == "-nf".spec_bytes() {
                read_flags(args, i + 2, ArgModel { norm_fg: v, ..m })
            } else if a == "-sb".spec_bytes() {
                read_flags(args, i + 2, ArgModel { sel_bg: v, ..m })
            } else if a == "-sf".spec_bytes() {
                read_flags(args, i + 2, ArgModel { sel_fg: v, ..m })
            } else if a == "-w".spec_bytes() {
                read_flags(args, i + 2, ArgModel { embed: v, ..m })
            } else {
                (ArgVerdict::Usage, m)
            }
        }
    }
}

/// The views of a list of arguments.
pub open spec fn arg_views(args: Seq<Vec<u8>>) -> Seq<Seq<u8>> {
    args.map_values(|a: Vec<u8>| a@)
}

/// The settings of `config` and `opts` are those of the model.
pub open spec fn fits_model(config: &Config, fast: bool, passwd: bool, mon: i32, embed: Seq<u8>, m: ArgModel) -> bool {
    &&& config.topbar == m.topbar
    &&& config.case_insensitive == m.case_insensitive
    &&& config.lines == m.lines
    &&& config.prompt@ == m.prompt
    &&& config.fonts@[0]@ == m.font
    &&& config.colors@[0][0]@ == m.norm_fg
    &&& config.colors@[0][1]@ == m.norm_bg
    &&& config.colors@[1][0]@ == m.sel_fg
    &&& config.colors@[1][1]@ == m.sel_bg
    &&& fast == m.fast
    &&& passwd == m.passwd
    &&& mon == m.mon
    &&& embed == m.embed
}

fn same_bytes(a: &[u8], s: &str) -> (r: bool)
    ensures
        r == (a@ == s.spec_bytes()),
{
    let b = s.as_bytes();
    if a.len() != b.len() {
        return false;
    }
    let mut i: usize = 0;
    while i < a.len()
        invariant
            a@.len() == b@.len(),
            b@ == s.spec_bytes(),
            i <= a@.len(),
            forall|j: int| 0 <= j < i ==> a@[j] == b@[j],
        decreases a@.len() - i,
    {
        if a[i] != b[i] {
            return false;
        }
        i = i + 1;
    }
    assert(a@ =~= b@);
    true
}

fn set_font(fonts: &mut Vec<Vec<u8>>, v: Vec<u8>)
    requires
        old(fonts)@.len() >= 1,
    ensures
        final(fonts)@ == old(fonts)@.update(0, v),
{
    fonts.set(0, v);
}

fn set_color(colors: &mut Vec<[Vec<u8>; 2]>, scheme: usize, slot: usize, v: Vec<u8>)
    requires
        scheme < old(colors)@.len(),
        slot < 2,
    ensures
        final(colors)@.len() == old(colors)@.len(),
        forall|i: int| 0 <= i < old(colors)@.len() && i != scheme ==> #[trigger] final(colors)@[i] == old(colors)@[i],
        final(colors)@[scheme as int][slot as int] == v,
        final(colors)@[scheme as int][1 - slot] == old(colors)@[scheme as int][1 - slot],
{
    let mut pair: [Vec<u8>; 2] = [Vec::new(), Vec::new()];
    colors.set_and_swap(scheme, &mut pair);
    pair[slot] = v;
    colors.set_and_swap(scheme, &mut pair);
}

impl Config {
    /// Applies the X resources that were found: `dmenu.font` to the primary
    /// font, `dmenu.color0` to the normal background and the selected
    /// foreground, `dmenu.color4` to the normal foreground and the selected
    /// background.
    pub fn apply_xresources(&mut self, font: Option<Vec<u8>>, color0: Option<Vec<u8>>, color4: Option<Vec<u8>>)
        requires
            old(self).wf(),
        ensures
            final(self).wf(),
            final(self).fonts@.len() == old(self).fonts@.len(),
            final(self).fonts@[0]@ == (match font {
                Some(f) => f@,
                None => old(self).fonts@[0]@,
            }),
            forall|i: int| 1 <= i < old(self).fonts@.len() ==> #[trigger] final(self).fonts@[i] == old(self).fonts@[i],
            final(self).colors@.len() == old(self).colors@.len(),
            forall|i: int| 2 <= i < old(self).colors@.len() ==> #[trigger] final(self).colors@[i] == old(self).colors@[i],
            final(self).colors@[0][1]@ == (match color0 {
                Some(c) => c@,
                None => old(self).colors@[0][1]@,
            }),
            final(self).colors@[1][0]@ == (match color0 {
                Some(c) => c@,
                None => old(self).colors@[1][0]@,
            }),
            final(self).colors@[0][0]@ == (match color4 {
                Some(c) => c@,
                None => old(self).colors@[0][0]@,
            }),
            final(self).colors@[1][1]@ == (match color4 {
                Some(c) => c@,
                None => old(self).colors@[1][1]@,
            }),
            final(self).topbar == old(self).topbar,
            final(self).prompt == old(self).prompt,
            final(self).alphas == old(self).alphas,
            final(self).lines == old(self).lines,
            final(self).word_delimeter == old(self).word_delimeter,
            final(self).case_insensitive == old(self).case_insensitive,
    {
        if let Some(f) = font {
            set_font(&mut self.fonts, f);
        }
        if let Some(c) = color0 {
            set_color(&mut self.colors, SCHEME_NORM, COL_BG, crate::menu::copy_bytes(c.as_slice()));
            set_color(&mut self.colors, SCHEME_SEL, COL_FG, c);
        }
        if let Some(c) = color4 {
            set_color(&mut self.colors, SCHEME_NORM, COL_FG, crate::menu::copy_bytes(c.as_slice()));
            set_color(&mut self.colors, SCHEME_SEL, COL_BG, c);
        }
    }

    /// Reads the command-line flags (`args[0]` is the program name) into
    /// the configuration and the options.
    pub fn parse_args(&mut self, args: &Vec<Vec<u8>>) -> (r: ArgOutcome)
        requires
            old(self).wf(),
        ensures
            final(self).wf(),
            ({
                let (v, m) = read_flags(arg_views(args@), 1, start_model(old(self)));
                &&& match v {
                    ArgVerdict::Run => r is Run,
                    ArgVerdict::Version => r is Version,
                    ArgVerdict::Usage => r is Usage,
                    ArgVerdict::BadNumber => r is BadNumber,
                }
                &&& r matches ArgOutcome::Run(o) ==> fits_model(final(self), o.fast, o.passwd, o.mon, o.embed@, m)
            }),
            final(self).fonts@.len() == old(self).fonts@.len(),
            final(self).colors@.len() == old(self).colors@.len(),
            final(self).alphas == old(self).alphas,
            final(self).word_delimeter == old(self).word_delimeter,
    {
        let ghost views = arg_views(args@);
        let mut fast = false;
        let mut passwd = false;
        let mut mon: i32 = -1;
        let mut embed: Vec<u8> = Vec::new();
        let mut i: usize = 1;
        assert(fits_model(self, fast, passwd, mon, embed@, start_model(old(self))));
        let ghost start = start_model(old(self));
        while i < args.len()
            invariant
                self.wf(),
                views == arg_views(args@),
                1 <= i,
                self.fonts@.len() == old(self).fonts@.len(),
                self.colors@.len() == old(self).colors@.len(),
                self.alphas == old(self).alphas,
                self.word_delimeter == old(self).word_delimeter,
                ({
                    let m = ArgModel {
                        topbar: self.topbar,
                        case_insensitive: self.case_insensitive,
                        fast,
                        passwd,
                        lines: self.lines,
                        mon,
                        prompt: self.prompt@,
                        font: self.fonts@[0]@,
                        norm_fg: self.colors@[0][0]@,
                        norm_bg: self.colors@[0][1]@,
                        sel_fg: self.colors@[1][0]@,
                        sel_bg: self.colors@[1][1]@,
                        embed: embed@,
                    };
                    read_flags(views, 1, start) == read_flags(views, i as int, m)
                }),
                start == start_model(old(self)),
            decreases args@.len() - i,
        {
            let a = args[i].as_slice();
            assert(a@ == views[i as int]);
            if same_bytes(a, "-v") {
                return ArgOutcome::Version;
            } else if same_bytes(a, "-b") {
                self.topbar = false;
            } else if same_bytes(a, "-f") {
                fast = true;
            } else if same_bytes(a, "-i") {
                self.case_insensitive = true;
            } else if same_bytes(a, "-P") {
                passwd = true;
            } else if i + 1 == args.len() {
                return ArgOutcome::Usage;
            } else {
                let v = args[i + 1].as_slice();
                assert(v@ == views[i + 1]);
                if same_bytes(a, "-l") {
                    match parse_u32(v) {
                        Some(n) => {
                            self.lines = n;
                        },
                        None => {
                            return ArgOutcome::BadNumber;
                        },
                    }
                } else if same_bytes(a, "-m") {
                    match parse_i32(v) {
                        Some(n) => {
                            mon = n;
                        },
                        None => {
                            return ArgOutcome::BadNumber;
                        },
                    }
                } else if same_bytes(a, "-p") {
                    self.prompt = crate::menu::copy_bytes(v);
                } else if same_bytes(a, "-fn") {
                    set_font(&mut self.fonts, crate::menu::copy_bytes(v));
                } else if same_bytes(a, "-nb") {
                    set_color(&mut self.colors, SCHEME_NORM, COL_BG, crate::menu::copy_bytes(v));
                } else if same_bytes(a, "-nf") {
                    set_color(&mut self.colors, SCHEME_NORM, COL_FG, crate::menu::copy_bytes(v));
                } else if same_bytes(a, "-sb") {
                    set_color(&mut self.colors, SCHEME_SEL, COL_BG, crate::menu::copy_bytes(v));
                } else if same_bytes(a, "-sf") {
                    set_color(&mut self.colors, SCHEME_SEL, COL_FG, crate::menu::copy_bytes(v));
                } else if same_bytes(a, "-w") {
                    embed = crate::menu::copy_bytes(v);
                } else {
                    return ArgOutcome::Usage;
                }
                i = i + 1;
            }
            i = i + 1;
        }
        ArgOutcome::Run(Options { fast, mon, embed, passwd })
    }
}

} // verus!
