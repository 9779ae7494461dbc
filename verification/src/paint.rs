//! What a redraw of the menu paints, and where: the background, the
//! prompt, the input line with its cursor, and the page of matches as a
//! vertical list or as a row between arrows.

use vstd::prelude::*;
use crate::config::{Config, SCHEME_NORM, SCHEME_SEL};
use crate::geometry::{item_scheme, scheme_of, min_of};
use crate::menu::Menu;

verus! {

/// The string a text paint shows.
#[derive(Debug)]
pub enum Shown {
    Prompt,
    Input,
    /// The input line with each byte shown as a dot.
    Censored,
    /// The match at this position of the match list.
    Match(usize),
    LeftArrow,
    RightArrow,
}

/// One drawing operation, in a colour scheme.
#[derive(Debug)]
pub enum Paint {
    /// A rectangle, filled or outlined, in the background colour of the
    /// scheme (`invert`) or in its foreground colour.
    Rect { x: i64, y: i64, w: u32, h: u32, filled: bool, invert: bool, scheme: usize },
    /// A string in a box, after `lpad` of padding.
    Text { x: i64, y: i64, w: u32, h: u32, lpad: u32, shown: Shown, scheme: usize },
}

/// Where the pen is after drawing a string of `len` bytes in a box at `x`
/// of width `w`: 0 when the box or the string is empty, else the right
/// edge of the box.
pub open spec fn text_end(x: int, w: int, len: int) -> int {
    if w == 0 || len == 0 {
        0
    } else {
        x + w
    }
}

/// A signed width handed on as an unsigned 32-bit one.
pub open spec fn wrap_u32(v: int) -> int {
    if v >= 0 {
        v
    } else {
        v + 0x1_0000_0000
    }
}

fn to_u32(v: i64) -> (r: u32)
    requires
        i32::MIN <= v <= u32::MAX,
    ensures
        r == wrap_u32(v as int),
{
    if v >= 0 {
        v as u32
    } else {
        (v + 0x1_0000_0000i64) as u32
    }
}

fn text_end_at(x: i64, w: u32, len: usize) -> (r: i64)
    requires
        x + w <= i64::MAX,
    ensures
        r == text_end(x as int, w as int, len as int),
{
    if w == 0 || len == 0 {
        0
    } else {
        x + w as i64
    }
}

impl Menu {
    /// Length of the text of the match at position `p`.
    pub open spec fn match_len(&self, p: int) -> int {
        self.items@[self.matches@[p] as int].text@.len() as int
    }

    /// The paint of the match at position `p` in the box at (`x`, `y`) of
    /// width `w`: selected, output or normal.
    pub open spec fn match_paint(&self, p: int, x: int, y: int, w: int, lpad: u32) -> Paint {
        Paint::Text {
            x: x as i64,
            y: y as i64,
            w: w as u32,
            h: self.bh as u32,
            lpad,
            shown: Shown::Match(p as usize),
            scheme: scheme_of(self.sel == Some(p as usize), self.items@[self.matches@[p] as int].out),
        }
    }

    /// The matches at positions `p` up to `end`, one per line below `y`.
    pub open spec fn column(&self, p: int, end: int, x: int, y: int, lpad: u32) -> Seq<Paint>
        decreases end - p,
    {
        if p >= end {
            seq![]
        } else {
            seq![self.match_paint(p, x, y + self.bh, wrap_u32(self.mw - x), lpad)] + self.column(
                p + 1,
                end,
                x,
                y + self.bh,
                lpad,
            )
        }
    }

    /// Width of the match at position `p` in a row at `x`: its width,
    /// clamped to what is left before the right arrow.
    pub open spec fn row_width(&self, p: int, x: int) -> int {
        min_of(self.items@[self.matches@[p] as int].width as int, self.mw - x - self.rarrow_w)
    }

    /// The matches at positions `p` up to `end`, side by side from `x`.
    pub open spec fn row(&self, p: int, end: int, x: int, lpad: u32) -> Seq<Paint>
        decreases end - p,
    {
        if p >= end {
            seq![]
        } else {
            let cw = self.row_width(p, x);
            seq![self.match_paint(p, x, 0, cw, lpad)] + self.row(
                p + 1,
                end,
                text_end(x, cw, self.match_len(p)),
                lpad,
            )
        }
    }

    /// Every match of the row starts left of the right arrow.
    pub open spec fn row_fits(&self, p: int, end: int, x: int) -> bool
        decreases end - p,
    {
        p >= end || (0 <= x && x + self.rarrow_w <= self.mw && self.row_fits(
            p + 1,
            end,
            text_end(x, self.row_width(p, x), self.match_len(p)),
        ))
    }

    /// The position after the last match of the page.
    pub open spec fn page_end(&self) -> int {
        match (self.curr, self.next) {
            (Some(c), Some(q)) => if q >= c {
                q as int
            } else {
                self.matches@.len() as int
            },
            _ => self.matches@.len() as int,
        }
    }

    /// Where the input line starts: after the prompt when there is one.
    pub open spec fn input_x(&self, config: &Config) -> int {
        if config.prompt@.len() > 0 {
            text_end(0, self.promptw as int, config.prompt@.len() as int)
        } else {
            0
        }
    }

    /// Where the first match of a row starts: after the input field and
    /// the left arrow.
    pub open spec fn row_x(&self, config: &Config) -> int {
        self.input_x(config) + self.inputw + self.larrow_w
    }

    /// Width of the input line's box.
    pub open spec fn input_w(&self, config: &Config) -> int {
        if config.lines > 0 || self.matches@.len() == 0 {
            self.mw - self.input_x(config)
        } else {
            self.inputw as int
        }
    }

    /// The page of matches: a list below the input line, or a row with an
    /// arrow on the left when there are matches before the page and one on
    /// the right when there are matches after it.
    pub open spec fn page_paints(&self, config: &Config, lpad: u32) -> Seq<Paint> {
        if config.lines > 0 {
            match self.curr {
                Some(c) => self.column(c as int, self.page_end(), self.input_x(config), 0, lpad),
                None => seq![],
            }
        } else if self.matches@.len() > 0 {
            let x = self.input_x(config) + self.inputw;
            let left = if self.curr matches Some(c) && c > 0 {
                seq![
                    Paint::Text {
                        x: x as i64,
                        y: 0,
                        w: self.larrow_w,
                        h: self.bh as u32,
                        lpad,
                        shown: Shown::LeftArrow,
                        scheme: SCHEME_NORM,
                    },
                ]
            } else {
                seq![]
            };
            let items = match self.curr {
                Some(c) => self.row(c as int, self.page_end(), self.row_x(config), lpad),
                None => seq![],
            };
            let right = if self.next is Some {
                seq![
                    Paint::Text {
                        x: (self.mw - self.rarrow_w) as i64,
                        y: 0,
                        w: self.rarrow_w,
                        h: self.bh as u32,
                        lpad,
                        shown: Shown::RightArrow,
                        scheme: SCHEME_NORM,
                    },
                ]
            } else {
                seq![]
            };
            left + items + right
        } else {
            seq![]
        }
    }

    /// The background, the prompt and the input line with its cursor, for
    /// a window `mh` high with text padding `lrpad`, where the input line
    /// measures `full` and its part from the cursor on measures `tail`.
    pub open spec fn head_paints(
        &self,
        config: &Config,
        passwd: bool,
        mh: i32,
        lrpad: i32,
        full: u32,
        tail: u32,
    ) -> Seq<Paint> {
        let lpad = (lrpad / 2) as u32;
        let bg = Paint::Rect {
            x: 0,
            y: 0,
            w: self.mw as u32,
            h: mh as u32,
            filled: true,
            invert: true,
            scheme: SCHEME_NORM,
        };
        let prompt = if config.prompt@.len() > 0 {
            seq![
                Paint::Text {
                    x: 0,
                    y: 0,
                    w: self.promptw as u32,
                    h: self.bh as u32,
                    lpad,
                    shown: Shown::Prompt,
                    scheme: SCHEME_SEL,
                },
            ]
        } else {
            seq![]
        };
        let x = self.input_x(config);
        let w = wrap_u32(self.input_w(config));
        let input = Paint::Text {
            x: x as i64,
            y: 0,
            w: w as u32,
            h: self.bh as u32,
            lpad,
            shown: if passwd {
                Shown::Censored
            } else {
                Shown::Input
            },
            scheme: SCHEME_NORM,
        };
        let curpos = full - tail + lpad - 1;
        let cursor = if curpos < w {
            seq![
                Paint::Rect {
                    x: (x + curpos) as i64,
                    y: 2,
                    w: 2,
                    h: (self.bh - 4) as u32,
                    filled: true,
                    invert: false,
                    scheme: SCHEME_NORM,
                },
            ]
        } else {
            seq![]
        };
        seq![bg] + prompt + seq![input] + cursor
    }

    /// Everything a redraw paints, in order.
    pub open spec fn paints(
        &self,
        config: &Config,
        passwd: bool,
        mh: i32,
        lrpad: i32,
        full: u32,
        tail: u32,
    ) -> Seq<Paint> {
        self.head_paints(config, passwd, mh, lrpad, full, tail) + self.page_paints(config, (lrpad / 2) as u32)
    }

    /// The sizes a redraw works with are those of a set-up window, and
    /// its positions stay in range.
    pub open spec fn paintable(&self, config: &Config, mh: i32, lrpad: i32, full: u32, tail: u32) -> bool {
        &&& self.wf()
        &&& 4 <= self.bh
        &&& 0 <= self.promptw
        &&& 0 <= self.inputw
        &&& 0 <= self.mw
        &&& 0 <= mh
        &&& 2 <= lrpad
        &&& tail <= full
        &&& full - tail + lrpad / 2 - 1 <= u32::MAX
        &&& self.larrow_w <= i32::MAX
        &&& self.rarrow_w <= i32::MAX
        &&& (config.lines > 0 ==> (self.curr matches Some(c) ==> (self.page_end() - c) * self.bh
            <= i32::MAX))
        &&& (config.lines == 0 ==> (self.curr matches Some(c) ==> self.row_fits(
            c as int,
            self.page_end(),
            self.row_x(config),
        )))
    }

    /// Plans a redraw of the menu.
    pub fn paint_plan(&self, config: &Config, passwd: bool, mh: i32, lrpad: i32, full: u32, tail: u32) -> (r: Vec<
        Paint,
    >)
        requires
            self.paintable(config, mh, lrpad, full, tail),
        ensures
            r@ == self.paints(config, passwd, mh, lrpad, full, tail),
    {
        let mut out: Vec<Paint> = Vec::new();
        let x = self.paint_head(&mut out, config, passwd, mh, lrpad, full, tail);
        self.paint_page(&mut out, config, mh, lrpad, full, tail, x);
        proof {
            assert(out@ =~= self.paints(config, passwd, mh, lrpad, full, tail));
        }
        out
    }

    fn paint_head(
        &self,
        out: &mut Vec<Paint>,
        config: &Config,
        passwd: bool,
        mh: i32,
        lrpad: i32,
        full: u32,
        tail: u32,
    ) -> (x: i64)
        requires
            self.paintable(config, mh, lrpad, full, tail),
            old(out)@.len() == 0,
        ensures
            final(out)@ == self.head_paints(config, passwd, mh, lrpad, full, tail),
            x == self.input_x(config),
    {
        let lpad: u32 = (lrpad / 2) as u32;
        let bh = self.bh;
        out.push(
            Paint::Rect {
                x: 0,
                y: 0,
                w: self.mw as u32,
                h: mh as u32,
                filled: true,
                invert: true,
                scheme: SCHEME_NORM,
            },
        );
        let mut x: i64 = 0;
        if config.prompt.len() > 0 {
            out.push(
                Paint::Text {
                    x: 0,
                    y: 0,
                    w: self.promptw as u32,
                    h: bh as u32,
                    lpad,
                    shown: Shown::Prompt,
                    scheme: SCHEME_SEL,
                },
            );
            x = text_end_at(0, self.promptw as u32, config.prompt.len());
        }
        let w: i64 = if config.lines > 0 || self.matches.len() == 0 {
            self.mw as i64 - x
        } else {
            self.inputw as i64
        };
        let wu = to_u32(w);
        out.push(
            Paint::Text {
                x,
                y: 0,
                w: wu,
                h: bh as u32,
                lpad,
                shown: if passwd {
                    Shown::Censored
                } else {
                    Shown::Input
                },
                scheme: SCHEME_NORM,
            },
        );
        let curpos: u32 = full - tail + (lpad - 1);
        if curpos < wu {
            out.push(
                Paint::Rect {
                    x: x + curpos as i64,
                    y: 2,
                    w: 2,
                    h: (bh - 4) as u32,
                    filled: true,
                    invert: false,
                    scheme: SCHEME_NORM,
                },
            );
        }
        proof {
            assert(out@ =~= self.head_paints(config, passwd, mh, lrpad, full, tail));
        }
        x
    }

    fn paint_page(
        &self,
        out: &mut Vec<Paint>,
        config: &Config,
        mh: i32,
        lrpad: i32,
        full: u32,
        tail: u32,
        x: i64,
    )
        requires
            self.paintable(config, mh, lrpad, full, tail),
            x == self.input_x(config),
        ensures
            final(out)@ == old(out)@ + self.page_paints(config, (lrpad / 2) as u32),
    {
        let lpad: u32 = (lrpad / 2) as u32;
        let bh = self.bh;
        let ghost head = out@;
        if config.lines > 0 {
            if let Some(c) = self.curr {
                self.paint_column(out, config, mh, lrpad, full, tail, c, x, lpad);
            }
            proof {
                assert(out@ =~= head + self.page_paints(config, lpad));
            }
        } else if self.matches.len() > 0 {
            let x0 = x + self.inputw as i64;
            if let Some(c) = self.curr {
                if c > 0 {
                    out.push(
                        Paint::Text {
                            x: x0,
                            y: 0,
                            w: self.larrow_w,
                            h: bh as u32,
                            lpad,
                            shown: Shown::LeftArrow,
                            scheme: SCHEME_NORM,
                        },
                    );
                }
            }
            let ghost row_head = out@;
            if let Some(c) = self.curr {
                self.paint_row(out, config, mh, lrpad, full, tail, c, x0 + self.larrow_w as i64, lpad);
            }
            let ghost row_done = out@;
            if self.next.is_some() {
                out.push(
                    Paint::Text {
                        x: self.mw as i64 - self.rarrow_w as i64,
                        y: 0,
                        w: self.rarrow_w,
                        h: bh as u32,
                        lpad,
                        shown: Shown::RightArrow,
                        scheme: SCHEME_NORM,
                    },
                );
            }
            proof {
                let items = match self.curr {
                    Some(c) => self.row(c as int, self.page_end(), self.row_x(config), lpad),
                    None => seq![],
                };
                assert(row_done =~= row_head + items);
                assert(out@ =~= head + self.page_paints(config, lpad));
            }
        } else {
            proof {
                assert(out@ =~= head + self.page_paints(config, lpad));
            }
        }
    }

    fn paint_column(
        &self,
        out: &mut Vec<Paint>,
        config: &Config,
        mh: i32,
        lrpad: i32,
        full: u32,
        tail: u32,
        c: usize,
        x: i64,
        lpad: u32,
    )
        requires
            self.paintable(config, mh, lrpad, full, tail),
            config.lines > 0,
            self.curr == Some(c),
            x == self.input_x(config),
        ensures
            final(out)@ == old(out)@ + self.column(c as int, self.page_end(), x as int, 0, lpad),
    {
        let bh = self.bh;
        let end = self.page_end_at();
        let ghost head = out@;
        let mut p: usize = c;
        let mut y: i64 = 0;
        assert(0 <= x <= self.promptw);
        while p < end
            invariant
                self.paintable(config, mh, lrpad, full, tail),
                config.lines > 0,
                self.curr == Some(c),
                end == self.page_end(),
                c <= p <= end,
                end <= self.matches@.len(),
                bh == self.bh,
                y == (p - c) * bh,
                0 <= x <= self.promptw,
                out@ + self.column(p as int, end as int, x as int, y as int, lpad) == head + self.column(
                    c as int,
                    end as int,
                    x as int,
                    0,
                    lpad,
                ),
            decreases end - p,
        {
            assert(y + bh <= i32::MAX) by (nonlinear_arith)
                requires
                    y == (p - c) * bh,
                    (end - c) * bh <= i32::MAX,
                    p < end,
                    bh >= 4,
            ;
            let yy = y + bh as i64;
            assert(yy == (p + 1 - c) * bh) by (nonlinear_arith)
                requires
                    y == (p - c) * bh,
                    yy == y + bh,
            ;
            let k = self.matches[p];
            let paint = Paint::Text {
                x,
                y: yy,
                w: to_u32(self.mw as i64 - x),
                h: bh as u32,
                lpad,
                shown: Shown::Match(p),
                scheme: item_scheme(self.sel == Some(p), self.items[k].out),
            };
            let ghost before = out@;
            out.push(paint);
            proof {
                assert(self.column(p as int, end as int, x as int, y as int, lpad) == seq![paint] + self.column(
                    p + 1,
                    end as int,
                    x as int,
                    yy as int,
                    lpad,
                ));
                assert(out@ + self.column(p + 1, end as int, x as int, yy as int, lpad) =~= before + self.column(
                    p as int,
                    end as int,
                    x as int,
                    y as int,
                    lpad,
                ));
            }
            y = yy;
            p = p + 1;
        }
        proof {
            assert(out@ =~= out@ + self.column(p as int, end as int, x as int, y as int, lpad));
        }
    }

    fn paint_row(
        &self,
        out: &mut Vec<Paint>,
        config: &Config,
        mh: i32,
        lrpad: i32,
        full: u32,
        tail: u32,
        c: usize,
        x: i64,
        lpad: u32,
    )
        requires
            self.paintable(config, mh, lrpad, full, tail),
            config.lines == 0,
            self.curr == Some(c),
            x == self.row_x(config),
        ensures
            final(out)@ == old(out)@ + self.row(c as int, self.page_end(), x as int, lpad),
    {
        let bh = self.bh;
        let end = self.page_end_at();
        let ghost head = out@;
        let mut p: usize = c;
        let mut xr: i64 = x;
        while p < end
            invariant
                self.wf(),
                self.curr == Some(c),
                0 <= self.mw,
                self.rarrow_w <= i32::MAX,
                end == self.page_end(),
                c <= p <= end,
                end <= self.matches@.len(),
                bh == self.bh,
                self.row_fits(p as int, end as int, xr as int),
                out@ + self.row(p as int, end as int, xr as int, lpad) == head + self.row(
                    c as int,
                    end as int,
                    x as int,
                    lpad,
                ),
            decreases end - p,
        {
            let k = self.matches[p];
            let room: i64 = self.mw as i64 - xr - self.rarrow_w as i64;
            let width = self.items[k].width;
            let cw: u32 = if (width as i64) <= room {
                width
            } else {
                room as u32
            };
            let paint = Paint::Text {
                x: xr,
                y: 0,
                w: cw,
                h: bh as u32,
                lpad,
                shown: Shown::Match(p),
                scheme: item_scheme(self.sel == Some(p), self.items[k].out),
            };
            let ghost before = out@;
            let ghost x_before = xr;
            out.push(paint);
            xr = text_end_at(xr, cw, self.items[k].text.len());
            proof {
                assert(cw == self.row_width(p as int, x_before as int));
                assert(xr == text_end(x_before as int, self.row_width(p as int, x_before as int), self.match_len(p as int)));
                assert(self.row(p as int, end as int, x_before as int, lpad) == seq![paint] + self.row(
                    p + 1,
                    end as int,
                    xr as int,
                    lpad,
                ));
                assert(out@ + self.row(p + 1, end as int, xr as int, lpad) =~= before + self.row(
                    p as int,
                    end as int,
                    x_before as int,
                    lpad,
                ));
            }
            p = p + 1;
        }
        proof {
            assert(out@ =~= out@ + self.row(p as int, end as int, xr as int, lpad));
        }
    }

    /// Whether a redraw can be planned: the sizes are those of a set-up
    /// window and the positions stay in range.
    pub fn paint_fits(&self, config: &Config, mh: i32, lrpad: i32, full: u32, tail: u32) -> (r: bool)
        requires
            self.wf(),
        ensures
            r == self.paintable(config, mh, lrpad, full, tail),
    {
        if !(4 <= self.bh && 0 <= self.promptw && 0 <= self.inputw && 0 <= self.mw && 0 <= mh && 2 <= lrpad) {
            return false;
        }
        if tail > full {
            return false;
        }
        if (full - tail) as u64 + (lrpad / 2) as u64 - 1 > u32::MAX as u64 {
            return false;
        }
        if self.larrow_w > 2147483647u32 || self.rarrow_w > 2147483647u32 {
            return false;
        }
        match self.curr {
            None => true,
            Some(c) => {
                let end = self.page_end_at();
                if config.lines > 0 {
                    let rows = (end - c) as u128;
                    let bh = self.bh as u128;
                    assert(rows * bh <= 0x1_0000_0000_0000_0000 * 0x8000_0000) by (nonlinear_arith)
                        requires
                            rows <= 0x1_0000_0000_0000_0000,
                            bh <= 0x8000_0000,
                    ;
                    rows * bh <= 2147483647u128
                } else {
                    let x = if config.prompt.len() > 0 {
                        text_end_at(0, self.promptw as u32, config.prompt.len())
                    } else {
                        0
                    };
                    self.row_fits_from(c, end, x + self.inputw as i64 + self.larrow_w as i64)
                }
            },
        }
    }

    fn row_fits_from(&self, c: usize, end: usize, x0: i64) -> (r: bool)
        requires
            self.wf(),
            c <= end <= self.matches@.len(),
            0 <= self.mw,
            self.rarrow_w <= i32::MAX,
            0 <= x0 <= 2 * 0x1_0000_0000i64,
        ensures
            r == self.row_fits(c as int, end as int, x0 as int),
    {
        let mut p = c;
        let mut x = x0;
        while p < end
            invariant
                self.wf(),
                c <= p <= end <= self.matches@.len(),
                0 <= self.mw,
                self.rarrow_w <= i32::MAX,
                0 <= x <= 2 * 0x1_0000_0000i64,
                self.row_fits(c as int, end as int, x0 as int) == self.row_fits(p as int, end as int, x as int),
            decreases end - p,
        {
            if !(0 <= x && x + self.rarrow_w as i64 <= self.mw as i64) {
                return false;
            }
            let k = self.matches[p];
            let room: i64 = self.mw as i64 - x - self.rarrow_w as i64;
            let width = self.items[k].width;
            let cw: u32 = if (width as i64) <= room {
                width
            } else {
                room as u32
            };
            let ghost x_before = x;
            x = text_end_at(x, cw, self.items[k].text.len());
            proof {
                assert(cw == self.row_width(p as int, x_before as int));
            }
            p = p + 1;
        }
        true
    }

    fn page_end_at(&self) -> (r: usize)
        requires
            self.wf(),
        ensures
            r == self.page_end(),
            r <= self.matches@.len(),
    {
        match (self.curr, self.next) {
            (Some(c), Some(q)) => if q >= c {
                q
            } else {
                self.matches.len()
            },
            _ => self.matches.len(),
        }
    }
}

} // verus!
