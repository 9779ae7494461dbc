//! Sizes and positions: the menu window, the text widths with padding, the
//! overlap of a window with a monitor, the visual and the colour pixels with
//! alpha, and the cache of code points that no font can draw.

use vstd::prelude::*;
use vstd::wrapping::u32_specs;
use crate::config::{SCHEME_NORM, SCHEME_OUT, SCHEME_SEL};

verus! {

/// Integer division rounding toward zero, as Rust's `/` on integers does.
pub open spec fn div_trunc(a: int, b: int) -> int {
    if a >= 0 {
        a / b
    } else {
        -((-a) / b)
    }
}

/// The smaller of two integers.
pub open spec fn min_of(a: int, b: int) -> int {
    if a <= b {
        a
    } else {
        b
    }
}

/// The larger of two integers.
pub open spec fn max_of(a: int, b: int) -> int {
    if a >= b {
        a
    } else {
        b
    }
}

/// Width of a text with padding, from the width the fonts measured.
pub fn text_w(raw: u32, lrpad: i32) -> (r: u32)
    requires
        raw + (lrpad as u32) <= u32::MAX,
    ensures
        r == raw + (lrpad as u32),
{
    raw + lrpad as u32
}

/// Width of a text with padding, at most `n`.
pub fn text_w_clamp(raw: u32, n: u32, lrpad: i32) -> (r: u32)
    requires
        raw + (lrpad as u32) <= u32::MAX,
    ensures
        r == min_of(raw + (lrpad as u32), n as int),
{
    let w = raw + lrpad as u32;
    if w <= n {
        w
    } else {
        n
    }
}

/// Area of the overlap of the rectangle at (`x`, `y`) of size `w` by `h`
/// with a monitor at (`mx`, `my`) of size `mw` by `mh`.
pub open spec fn overlap(x: int, y: int, w: int, h: int, mx: int, my: int, mw: int, mh: int) -> int {
    max_of(0, min_of(x + w, mx + mw) - max_of(x, mx)) * max_of(0, min_of(y + h, my + mh) - max_of(y, my))
}

/// Area of the overlap of a window with a monitor.
pub fn intersect(x: i32, y: i32, w: i32, h: i32, mx: i16, my: i16, mw: i16, mh: i16) -> (r: i64)
    ensures
        r == overlap(x as int, y as int, w as int, h as int, mx as int, my as int, mw as int, mh as int),
{
    let a = x as i64 + w as i64;
    let b = mx as i64 + mw as i64;
    let c = if x as i64 >= mx as i64 {
        x as i64
    } else {
        mx as i64
    };
    let dx = (if a <= b {
        a
    } else {
        b
    }) - c;
    let dx = if dx >= 0 {
        dx
    } else {
        0
    };
    let a2 = y as i64 + h as i64;
    let b2 = my as i64 + mh as i64;
    let c2 = if y as i64 >= my as i64 {
        y as i64
    } else {
        my as i64
    };
    let dy = (if a2 <= b2 {
        a2
    } else {
        b2
    }) - c2;
    let dy = if dy >= 0 {
        dy
    } else {
        0
    };
    assert(dx <= 32767 && dy <= 32767);
    assert(0 <= dx * dy <= 32767 * 32767) by (nonlinear_arith)
        requires
            0 <= dx <= 32767,
            0 <= dy <= 32767,
    ;
    dx * dy
}

/// A monitor of a multi-head screen.
#[derive(Debug)]
pub struct Monitor {
    pub x: i16,
    pub y: i16,
    pub w: i16,
    pub h: i16,
}

/// Overlap of the rectangle `r` (x, y, width, height) with a monitor.
pub open spec fn overlap_with(r: (i32, i32, i32, i32), m: Monitor) -> int {
    overlap(r.0 as int, r.1 as int, r.2 as int, r.3 as int, m.x as int, m.y as int, m.w as int, m.h as int)
}

/// Among the monitors from `j` on, the first whose overlap with `r`
/// exceeds every earlier one, starting from monitor `i` with overlap
/// `area`: the chosen monitor and its overlap.
pub open spec fn most_overlap(mons: Seq<Monitor>, r: (i32, i32, i32, i32), j: int, i: int, area: int) -> (int, int)
    decreases mons.len() - j,
{
    if j < 0 || j >= mons.len() {
        (i, area)
    } else if overlap_with(r, mons[j]) > area {
        most_overlap(mons, r, j + 1, j, overlap_with(r, mons[j]))
    } else {
        most_overlap(mons, r, j + 1, i, area)
    }
}

/// The first monitor from `j` on that holds the point (`px`, `py`).
pub open spec fn first_holding(mons: Seq<Monitor>, px: i32, py: i32, j: int) -> Option<int>
    decreases mons.len() - j,
{
    if j < 0 || j >= mons.len() {
        None
    } else if overlap_with((px, py, 1, 1), mons[j]) != 0 {
        Some(j)
    } else {
        first_holding(mons, px, py, j + 1)
    }
}

/// The monitor asked for with `-m` when there is such a monitor, else the
/// one the focused window overlaps most; with the overlap found.
pub open spec fn monitor_by_focus(mon: i32, mons: Seq<Monitor>, focus: Option<(i32, i32, i32, i32)>) -> (int, int) {
    if 0 <= mon < mons.len() {
        (mon as int, 0)
    } else {
        match focus {
            Some(r) => most_overlap(mons, r, 0, 0, 0),
            None => (0, 0),
        }
    }
}

/// The monitor the menu goes on: the one asked for with `-m` when there is
/// such a monitor; else the one the focused window (its rectangle `focus`)
/// overlaps most; and when no monitor was asked for and the focused window
/// is on none, the first one holding the pointer (at `pointer`), if any;
/// otherwise the first.
pub open spec fn monitor_choice(
    mon: i32,
    mons: Seq<Monitor>,
    focus: Option<(i32, i32, i32, i32)>,
    pointer: Option<(i32, i32)>,
) -> int {
    let (i, area) = monitor_by_focus(mon, mons, focus);
    if mon < 0 && area == 0 {
        match pointer {
            Some(p) => match first_holding(mons, p.0, p.1, 0) {
                Some(j) => j,
                None => i,
            },
            None => i,
        }
    } else {
        i
    }
}

/// Chooses the monitor the menu goes on (see `monitor_choice`).
pub fn choose_monitor(
    mon: i32,
    mons: &[Monitor],
    focus: Option<(i32, i32, i32, i32)>,
    pointer: Option<(i32, i32)>,
) -> (r: usize)
    requires
        mons@.len() > 0,
    ensures
        r == monitor_choice(mon, mons@, focus, pointer),
        r < mons@.len(),
{
    let n = mons.len();
    let mut i: usize = 0;
    let mut area: i64 = 0;
    if 0 <= mon && (mon as usize) < n {
        i = mon as usize;
    } else if let Some((x, y, w, h)) = focus {
        let mut j: usize = 0;
        while j < n
            invariant
                n == mons@.len(),
                j <= n,
                i < n,
                area >= 0,
                most_overlap(mons@, (x, y, w, h), 0, 0, 0) == most_overlap(
                    mons@,
                    (x, y, w, h),
                    j as int,
                    i as int,
                    area as int,
                ),
            decreases n - j,
        {
            let m = &mons[j];
            let a = intersect(x, y, w, h, m.x, m.y, m.w, m.h);
            if a > area {
                area = a;
                i = j;
            }
            j = j + 1;
        }
    }
    assert((i as int, area as int) == monitor_by_focus(mon, mons@, focus));
    if mon < 0 && area == 0 {
        if let Some((px, py)) = pointer {
            let mut j: usize = 0;
            while j < n
                invariant
                    n == mons@.len(),
                    j <= n,
                    mon < 0,
                    area == 0,
                    pointer == Some((px, py)),
                    (i as int, area as int) == monitor_by_focus(mon, mons@, focus),
                    first_holding(mons@, px, py, 0) == first_holding(mons@, px, py, j as int),
                decreases n - j,
            {
                let m = &mons[j];
                if intersect(px, py, 1, 1, m.x, m.y, m.w, m.h) != 0 {
                    return j;
                }
                j = j + 1;
            }
        }
    }
    i
}

/// Sizes of the menu window.
#[derive(Debug)]
pub struct Geometry {
    /// Height of a line.
    pub bh: i128,
    /// Height of the menu.
    pub mh: i128,
    /// Vertical position of the menu.
    pub y: i128,
    /// Width of the menu.
    pub mw: i128,
    /// Width of the prompt.
    pub promptw: i128,
    /// Width of the input field.
    pub inputw: i128,
}

/// The menu geometry in an area `area_w` by `area_h`: a line is the font
/// height plus 2, the menu has `lines + 1` lines, at the top or at the
/// bottom; the prompt (of width `prompt_w` with padding, if there is a
/// prompt) loses a quarter of the padding, and the input field takes at
/// most a third of the width.
pub fn menu_geometry(
    font_h: u32,
    lines: u32,
    topbar: bool,
    area_h: i32,
    area_w: i32,
    prompt_w: Option<u32>,
    lrpad: i32,
    inputw: i32,
) -> (g: Geometry)
    ensures
        g.bh == font_h + 2,
        g.mh == (lines + 1) * g.bh,
        g.y == (if topbar {
            0
        } else {
            area_h - g.mh
        }),
        g.mw == area_w,
        g.promptw == (match prompt_w {
            Some(t) => t - div_trunc(lrpad as int, 4),
            None => 0,
        }),
        g.inputw == min_of(inputw as int, div_trunc(area_w as int, 3)),
{
    let bh = font_h as i128 + 2;
    let l = lines as i128 + 1;
    assert(0 <= l * bh <= 4294967296 * 4294967297) by (nonlinear_arith)
        requires
            1 <= l <= 4294967296,
            2 <= bh <= 4294967297,
    ;
    let mh = l * bh;
    let y = if topbar {
        0
    } else {
        area_h as i128 - mh
    };
    let promptw = match prompt_w {
        Some(t) => t as i128 - (lrpad / 4) as i128,
        None => 0,
    };
    let third = area_w / 3;
    let iw = if inputw <= third {
        inputw as i128
    } else {
        third as i128
    };
    Geometry { bh, mh, y, mw: area_w as i128, promptw, inputw: iw }
}

/// Index of the widest of the measured widths (the first of equal ones),
/// or 0 when none is positive.
pub open spec fn widest_from(widths: Seq<i32>, i: int, best: int, best_w: int) -> int
    decreases widths.len() - i,
{
    if i < 0 || i >= widths.len() {
        best
    } else if widths[i] > best_w {
        widest_from(widths, i + 1, i, widths[i] as int)
    } else {
        widest_from(widths, i + 1, best, best_w)
    }
}

/// Index of the first widest item among those measured.
pub fn widest(widths: &[i32]) -> (r: usize)
    ensures
        r == widest_from(widths@, 0, 0, 0),
        widths@.len() > 0 ==> r < widths@.len(),
{
    let mut best: usize = 0;
    let mut best_w: i32 = 0;
    let mut i: usize = 0;
    while i < widths.len()
        invariant
            i <= widths@.len(),
            best == 0 || best < i,
            widest_from(widths@, 0, 0, 0) == widest_from(widths@, i as int, best as int, best_w as int),
        decreases widths@.len() - i,
    {
        if widths[i] > best_w {
            best = i;
            best_w = widths[i];
        }
        i = i + 1;
    }
    best
}

/// Picture format type of direct colour.
pub const PICT_TYPE_DIRECT: i32 = 1;

/// A picture format (its type and its alpha mask) of direct colour with an
/// alpha channel.
pub open spec fn is_argb(format: (i32, i16)) -> bool {
    format.0 == PICT_TYPE_DIRECT && format.1 != 0
}

/// Among the picture formats of the 32-bit true-colour visuals, the
/// position of the first with an alpha channel.
pub fn argb_visual(formats: &[(i32, i16)]) -> (r: Option<usize>)
    ensures
        match r {
            Some(i) => {
                &&& i < formats@.len()
                &&& is_argb(formats@[i as int])
                &&& forall|j: int| 0 <= j < i ==> !is_argb(#[trigger] formats@[j])
            },
            None => forall|j: int| 0 <= j < formats@.len() ==> !is_argb(#[trigger] formats@[j]),
        },
{
    let mut i: usize = 0;
    while i < formats.len()
        invariant
            i <= formats@.len(),
            forall|j: int| 0 <= j < i ==> !is_argb(#[trigger] formats@[j]),
        decreases formats@.len() - i,
    {
        let (typ, alpha_mask) = formats[i];
        if typ == PICT_TYPE_DIRECT && alpha_mask != 0 {
            return Some(i);
        }
        i = i + 1;
    }
    None
}

/// The pixel of a colour with the alpha put in its top byte.
pub fn apply_alpha(pixel: u64, alpha: u32) -> (r: u64)
    ensures
        r == ((pixel & 0x00ffffff) | ((alpha as u64) << 24u64)),
{
    (pixel & 0x00ffffff) | ((alpha as u64) << 24u64)
}

/// The scheme an item is drawn in: selected, output, or normal.
pub open spec fn scheme_of(is_sel: bool, out: bool) -> usize {
    if is_sel {
        SCHEME_SEL
    } else if out {
        SCHEME_OUT
    } else {
        SCHEME_NORM
    }
}

/// The scheme an item is drawn in.
pub fn item_scheme(is_sel: bool, out: bool) -> (r: usize)
    ensures
        r == scheme_of(is_sel, out),
{
    if is_sel {
        SCHEME_SEL
    } else if out {
        SCHEME_OUT
    } else {
        SCHEME_NORM
    }
}

/// The mixed hash of a code point.
pub open spec fn mix(cp: u32) -> u32 {
    let h1 = u32_specs::wrapping_mul((cp >> 16u32) ^ cp, 0x21F0AAADu32);
    u32_specs::wrapping_mul((h1 >> 15u32) ^ h1, 0xD35A2D97u32)
}

/// The two cache slots of a code point.
pub open spec fn slots(cp: u32) -> (u32, u32) {
    let h = mix(cp);
    (((h >> 15u32) ^ h) % 128, (h >> 17u32) % 128)
}

/// The two cache slots of a code point.
pub fn nomatch_slots(cp: u32) -> (r: (usize, usize))
    ensures
        r.0 == slots(cp).0,
        r.1 == slots(cp).1,
        r.0 < 128,
        r.1 < 128,
{
    let h1 = ((cp >> 16u32) ^ cp).wrapping_mul(0x21F0AAADu32);
    let h = ((h1 >> 15u32) ^ h1).wrapping_mul(0xD35A2D97u32);
    let a = ((h >> 15u32) ^ h) % 128;
    let b = (h >> 17u32) % 128;
    (a as usize, b as usize)
}

/// Code points that no font was found for, each in one of two slots.
pub struct NoMatches {
    pub slots: [u32; 128],
}

impl NoMatches {
    /// An empty cache.
    pub fn new() -> (r: NoMatches)
        ensures
            forall|i: int| 0 <= i < 128 ==> #[trigger] r.slots@[i] == 0,
    {
        NoMatches { slots: [0u32; 128] }
    }

    /// The code point is known to have no font.
    pub open spec fn known(&self, cp: u32) -> bool {
        self.slots@[slots(cp).0 as int] == cp || self.slots@[slots(cp).1 as int] == cp
    }

    /// Whether the code point is known to have no font.
    pub fn contains(&self, cp: u32) -> (r: bool)
        ensures
            r == self.known(cp),
    {
        let (h0, h1) = nomatch_slots(cp);
        self.slots[h0] == cp || self.slots[h1] == cp
    }

    /// The slots after remembering `cp`: it goes in its first slot if
    /// that is free, else in its second.
    pub open spec fn remembering(&self, cp: u32) -> Seq<u32> {
        self.slots@.update(
            if self.slots@[slots(cp).0 as int] != 0 {
                slots(cp).1 as int
            } else {
                slots(cp).0 as int
            },
            cp,
        )
    }

    /// Remembers a code point that no font has.
    pub fn remember(&mut self, cp: u32)
        ensures
            final(self).slots@ == old(self).remembering(cp),
    {
        let (h0, h1) = nomatch_slots(cp);
        let k = if self.slots[h0] != 0 {
            h1
        } else {
            h0
        };
        self.slots[k] = cp;
    }
}

} // verus!
