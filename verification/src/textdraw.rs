//! Laying out a string in the fonts that can draw it.
//!
//! Drawing a string alternates questions to the font library (which font
//! has this character, how wide is it, is there a fallback font) with
//! decisions (where a run of characters in one font ends, where the
//! ellipsis goes when the string does not fit).  The decisions are the
//! steps of [`TextRun`]; the caller asks the font library and hands the
//! answers back.

use vstd::prelude::*;
use vstd::utf8::*;
use crate::line::{next_pos, fwd_rune, lemma_next_pos_boundary};
use crate::strings::at_char_boundary;
use crate::geometry::NoMatches;
use crate::paint::text_end;

verus! {

/// Right edge of the largest box a call can be given: the largest `i32`
/// position plus the largest `u32` width.
pub const RIGHT_LIMIT: i64 = 6442450942i64;

/// What the font library answered for the character at the layout
/// position.
#[derive(Debug)]
pub enum Glyph {
    /// The first font that has the character (font 0 when the character
    /// is to be drawn whatever font it falls in), and its width there.
    Font { font: usize, width: u32 },
    /// No loaded font has the character.
    Missing,
}

/// Outcome of looking for a fallback font for a character.
#[derive(Debug)]
pub enum FontSearch {
    /// The font library matched no pattern.
    NoPattern,
    /// The matched font does not have the character either.
    Lacks,
    /// The matched font has the character and was loaded at this index.
    Loaded(usize),
}

/// The bytes of one run to draw, all in one font.
#[derive(Debug)]
pub struct Piece {
    pub font: usize,
    pub start: usize,
    pub len: usize,
    pub x: i64,
}

/// What follows the end of a run.
#[derive(Debug)]
pub enum After {
    /// The layout is over; the call answers this position.
    Done(i64),
    /// Go on with the font that has the next character.
    NextFont,
    /// No loaded font has the next character: look for a fallback.
    Fallback,
}

/// What the end of a run asks to draw, and what comes next.
#[derive(Debug)]
pub struct RunEnd {
    /// The run, when there is one to draw.
    pub draw: Option<Piece>,
    /// The box `(x, w)` in which to draw an ellipsis.
    pub ellipsis: Option<(i64, u32)>,
    pub next: After,
}

/// How a call to draw or measure a string starts.
#[derive(Debug)]
pub enum Begin {
    /// Nothing to draw; the call answers 0.
    Nothing,
    /// The box is narrower than the padding: its background is filled and
    /// the call answers its right edge.
    Padded(i64),
    /// The string is laid out (its box filled first when drawing).
    Lay(TextRun),
}

/// The state of a layout.
#[derive(Debug)]
pub struct TextRun {
    /// Drawing (true) or only measuring (false).
    pub render: bool,
    /// Pen position.
    pub x: i64,
    /// Width left from the pen position.
    pub w: u32,
    /// Width of the current run.
    pub ew: u32,
    /// Where an ellipsis would go: its position, its width, and how many
    /// bytes of the run come before it.
    pub ellipsis_x: i64,
    pub ellipsis_w: u32,
    pub ellipsis_len: usize,
    /// Width of the ellipsis.
    pub ellipsis_width: u32,
    /// First byte of the current run.
    pub run_start: usize,
    /// Next byte to lay out.
    pub pos: usize,
    /// Bytes of the current run to draw.
    pub run_len: usize,
    /// Font of the current run.
    pub used_font: usize,
    /// Font that has the character after the run, when it differs.
    pub next_font: Option<usize>,
    /// The character at `pos` is to be drawn in font 0 whether it has it
    /// or not (a fallback search just ran).
    pub force_first: bool,
    /// The string did not fit.
    pub overflow: bool,
}

impl TextRun {
    /// Position just right of the box: the pen plus the width left.
    pub open spec fn right_edge(&self) -> int {
        self.x + self.w
    }

    /// The state is consistent with the string `text`.
    pub open spec fn wf(&self, text: Seq<u8>) -> bool {
        &&& self.run_start <= self.pos <= text.len()
        &&& is_char_boundary(text, self.pos as int)
        &&& self.run_len <= self.pos - self.run_start
        &&& self.ellipsis_len <= self.pos - self.run_start
        &&& self.ew <= self.w
        &&& i32::MIN <= self.x
        &&& (!self.overflow || self.render ==> self.right_edge() <= RIGHT_LIMIT)
        &&& self.x + self.ew <= RIGHT_LIMIT + u32::MAX
        &&& i32::MIN <= self.ellipsis_x
        &&& self.ellipsis_x + self.ellipsis_w <= RIGHT_LIMIT
    }

    /// Starts drawing (`render`) or measuring `text` in the box at `x` of
    /// width `w`, with `lpad` of padding on the left.  When measuring, the
    /// width is `invert` when it is not 0, else unlimited.  When drawing,
    /// the call answers where `text_end` puts the pen.
    pub fn begin(
        x: i32,
        w: u32,
        lpad: u32,
        text: &[u8],
        invert: u32,
        render: bool,
        has_scheme: bool,
        n_fonts: usize,
        ellipsis_width: u32,
    ) -> (r: Begin)
        requires
            valid_utf8(text@),
        ensures
            (r is Nothing) <==> ((render && (!has_scheme || w == 0)) || text@.len() == 0 || n_fonts == 0),
            (r is Padded) <==> (!(r is Nothing) && render && w < lpad),
            r matches Begin::Padded(v) ==> v == x + w,
            render && has_scheme && n_fonts > 0 ==> text_end(x as int, w as int, text@.len() as int) == match r {
                Begin::Nothing => 0,
                Begin::Padded(v) => v as int,
                Begin::Lay(s) => s.right_edge(),
            },
            r matches Begin::Lay(s) ==> {
                &&& s.wf(text@)
                &&& s.render == render
                &&& s.x == (if render {
                    x + lpad
                } else {
                    x as int
                })
                &&& s.w == (if render {
                    w - lpad
                } else if invert != 0 {
                    invert as int
                } else {
                    u32::MAX as int
                })
                &&& s.ew == 0
                &&& s.ellipsis_x == 0
                &&& s.ellipsis_w == 0
                &&& s.ellipsis_len == 0
                &&& s.ellipsis_width == ellipsis_width
                &&& s.run_start == 0
                &&& s.pos == 0
                &&& s.run_len == 0
                &&& s.used_font == 0
                &&& s.next_font is None
                &&& !s.force_first
                &&& !s.overflow
            },
    {
        if (render && (!has_scheme || w == 0)) || text.len() == 0 || n_fonts == 0 {
            return Begin::Nothing;
        }
        let (x0, w0) = if !render {
            (x as i64, if invert != 0 {
                invert
            } else {
                u32::MAX
            })
        } else {
            if w < lpad {
                return Begin::Padded(x as i64 + w as i64);
            }
            (x as i64 + lpad as i64, w - lpad)
        };
        proof {
            is_char_boundary_start_end_of_seq(text@);
        }
        Begin::Lay(
            TextRun {
                render,
                x: x0,
                w: w0,
                ew: 0,
                ellipsis_x: 0,
                ellipsis_w: 0,
                ellipsis_len: 0,
                ellipsis_width,
                run_start: 0,
                pos: 0,
                run_len: 0,
                used_font: 0,
                next_font: None,
                force_first: false,
                overflow: false,
            },
        )
    }

    /// The state at the start of a run from the layout position.
    pub open spec fn started(self) -> TextRun {
        TextRun { ew: 0, ellipsis_len: 0, run_len: 0, run_start: self.pos, next_font: None, ..self }
    }

    /// Starts a run at the layout position.
    pub fn start_run(&mut self, text: &[u8])
        requires
            old(self).wf(text@),
        ensures
            final(self).wf(text@),
            *final(self) == old(self).started(),
            final(self).right_edge() == old(self).right_edge(),
    {
        self.ew = 0;
        self.ellipsis_len = 0;
        self.run_len = 0;
        self.run_start = self.pos;
        self.next_font = None;
    }

    /// The run goes on: there is a character left and nothing ended it.
    pub open spec fn runs_on(&self, text: Seq<u8>) -> bool {
        self.pos < text.len() && !self.overflow && self.next_font is None
    }

    /// The state after remembering where the ellipsis goes, when it still
    /// fits after the run.
    pub open spec fn with_ellipsis_mark(self) -> TextRun {
        if self.ew + self.ellipsis_width <= self.w {
            TextRun {
                ellipsis_x: (self.x + self.ew) as i64,
                ellipsis_w: (self.w - self.ew) as u32,
                ellipsis_len: self.run_len,
                ..self
            }
        } else {
            self
        }
    }

    /// The state after a character that font `font` draws `width` wide:
    /// past the box it overflows (a measure counts the character in); in
    /// the run's font it joins the run; in another font it ends the run.
    pub open spec fn after_glyph(self, text: Seq<u8>, font: usize, width: u32) -> TextRun {
        let m = self.with_ellipsis_mark();
        if m.ew + width > m.w {
            TextRun {
                overflow: true,
                x: if m.render {
                    m.x
                } else {
                    (m.x + width) as i64
                },
                run_len: if m.render {
                    m.ellipsis_len
                } else {
                    m.run_len
                },
                ..m
            }
        } else if font == m.used_font {
            let n = next_pos(text, m.pos as int);
            TextRun {
                pos: n as usize,
                run_len: (m.run_len + (n - m.pos)) as usize,
                ew: (m.ew + width) as u32,
                force_first: false,
                ..m
            }
        } else {
            TextRun { next_font: Some(font), ..m }
        }
    }

    /// Lays out the character at the layout position, as the font library
    /// described it.  Answers whether the run goes on.
    pub fn place(&mut self, text: &[u8], glyph: Glyph) -> (more: bool)
        requires
            old(self).wf(text@),
            valid_utf8(text@),
            old(self).runs_on(text@),
            old(self).force_first ==> (glyph matches Glyph::Font { font, .. } && font == 0),
        ensures
            final(self).wf(text@),
            *final(self) == (match glyph {
                Glyph::Missing => *old(self),
                Glyph::Font { font, width } => old(self).after_glyph(text@, font, width),
            }),
            more == (glyph is Font && final(self).runs_on(text@)),
            old(self).render ==> final(self).right_edge() == old(self).right_edge(),
    {
        match glyph {
            Glyph::Missing => false,
            Glyph::Font { font, width } => {
                if self.ew as u64 + self.ellipsis_width as u64 <= self.w as u64 {
                    self.ellipsis_x = self.x + self.ew as i64;
                    self.ellipsis_w = self.w - self.ew;
                    self.ellipsis_len = self.run_len;
                }
                if self.ew as u64 + width as u64 > self.w as u64 {
                    self.overflow = true;
                    if !self.render {
                        self.x = self.x + width as i64;
                    } else {
                        self.run_len = self.ellipsis_len;
                    }
                    false
                } else if font == self.used_font {
                    proof {
                        lemma_next_pos_boundary(text@, self.pos as int);
                    }
                    let n = char_end(text, self.pos);
                    self.run_len = self.run_len + (n - self.pos);
                    self.pos = n;
                    self.ew = self.ew + width;
                    self.force_first = false;
                    self.pos < text.len()
                } else {
                    self.next_font = Some(font);
                    false
                }
            },
        }
    }

    /// Pen and width after the run: the pen moves past the run when part
    /// of it is drawn, and the run's width is spent.
    pub open spec fn moved_past_run(self) -> TextRun {
        if self.run_len != 0 {
            TextRun { x: (self.x + self.ew) as i64, w: (self.w - self.ew) as u32, ew: 0, ..self }
        } else {
            self
        }
    }

    /// What the end of the run asks for, from the state `s` at its end.
    pub open spec fn run_end_of(s: TextRun, text: Seq<u8>) -> RunEnd {
        let m = s.moved_past_run();
        RunEnd {
            draw: if s.render && s.run_len != 0 {
                Some(Piece { font: s.used_font, start: s.run_start, len: s.run_len, x: s.x })
            } else {
                None
            },
            ellipsis: if s.render && s.overflow {
                Some((s.ellipsis_x, s.ellipsis_w))
            } else {
                None
            },
            next: if s.pos == text.len() || s.overflow {
                After::Done(
                    (if s.render {
                        m.x + m.w
                    } else {
                        m.x as int
                    }) as i64,
                )
            } else if s.next_font is Some {
                After::NextFont
            } else {
                After::Fallback
            },
        }
    }

    /// The state after the end of the run.
    pub open spec fn after_run(s: TextRun, text: Seq<u8>) -> TextRun {
        let m = s.moved_past_run();
        if s.pos == text.len() || s.overflow {
            m
        } else {
            match s.next_font {
                Some(nf) => TextRun { used_font: nf, force_first: false, ..m },
                None => TextRun { force_first: true, ..m },
            }
        }
    }

    /// Ends the run: says what to draw and how the layout goes on.  When
    /// drawing, the answer is always the right edge of the box.
    pub fn end_run(&mut self, text: &[u8]) -> (r: RunEnd)
        requires
            old(self).wf(text@),
        ensures
            final(self).wf(text@),
            r == Self::run_end_of(*old(self), text@),
            *final(self) == Self::after_run(*old(self), text@),
            old(self).render ==> final(self).right_edge() == old(self).right_edge(),
            old(self).render ==> (r.next matches After::Done(v) ==> v == old(self).right_edge()),
    {
        let draw = if self.render && self.run_len != 0 {
            Some(Piece { font: self.used_font, start: self.run_start, len: self.run_len, x: self.x })
        } else {
            None
        };
        if self.run_len != 0 {
            self.x = self.x + self.ew as i64;
            self.w = self.w - self.ew;
            self.ew = 0;
        }
        let ellipsis = if self.render && self.overflow {
            Some((self.ellipsis_x, self.ellipsis_w))
        } else {
            None
        };
        let next = if self.pos == text.len() || self.overflow {
            let v = if self.render {
                self.x + self.w as i64
            } else {
                self.x
            };
            After::Done(v)
        } else if let Some(nf) = self.next_font {
            self.used_font = nf;
            self.force_first = false;
            After::NextFont
        } else {
            self.force_first = true;
            After::Fallback
        };
        let ghost s = *old(self);
        proof {
            if s.run_len != 0 {
                assert(self.x == s.x + s.ew);
            }
        }
        RunEnd { draw, ellipsis, next }
    }

    /// Before a fallback search for the code point `cp`: when the cache
    /// knows that no font has it, the character goes to font 0 and no
    /// search is needed.  Answers whether to search.
    pub fn skip_known(&mut self, nomatches: &NoMatches, cp: u32) -> (search: bool)
        ensures
            search == !nomatches.known(cp),
            *final(self) == (if search {
                *old(self)
            } else {
                TextRun { used_font: 0, ..*old(self) }
            }),
    {
        if nomatches.contains(cp) {
            self.used_font = 0;
            false
        } else {
            true
        }
    }

    /// After a fallback search for `cp`: a loaded font takes the run; a
    /// font without the character puts `cp` in the cache and the run back
    /// in font 0; no pattern changes nothing.
    pub fn searched(&mut self, nomatches: &mut NoMatches, cp: u32, found: FontSearch)
        ensures
            match found {
                FontSearch::NoPattern => *final(self) == *old(self) && *final(nomatches) == *old(nomatches),
                FontSearch::Lacks => {
                    &&& *final(self) == (TextRun { used_font: 0, ..*old(self) })
                    &&& final(nomatches).slots@ == old(nomatches).remembering(cp)
                },
                FontSearch::Loaded(i) => {
                    &&& *final(self) == (TextRun { used_font: i, ..*old(self) })
                    &&& *final(nomatches) == *old(nomatches)
                },
            },
    {
        match found {
            FontSearch::NoPattern => {},
            FontSearch::Lacks => {
                nomatches.remember(cp);
                self.used_font = 0;
            },
            FontSearch::Loaded(i) => {
                self.used_font = i;
            },
        }
    }
}

/// The position after the character that starts at `pos`.
fn char_end(text: &[u8], pos: usize) -> (r: usize)
    requires
        valid_utf8(text@),
        pos < text@.len(),
    ensures
        r == next_pos(text@, pos as int),
{
    proof {
        lemma_next_pos_boundary(text@, pos as int);
    }
    let len = text.len();
    let mut n = pos + 1;
    while n < len && !at_char_boundary(text, n)
        invariant
            pos < n <= text@.len(),
            len == text@.len(),
            valid_utf8(text@),
            fwd_rune(text@, pos + 1) == fwd_rune(text@, n as int),
        decreases text@.len() - n,
    {
        proof {
            is_char_boundary_iff_not_is_continuation_byte(text@, n as int);
        }
        n = n + 1;
    }
    proof {
        if n < len {
            is_char_boundary_iff_not_is_continuation_byte(text@, n as int);
        }
    }
    n
}

/// Laying out a character always gets somewhere: the character joins the
/// run, or the string overflows, or the run ends so that the font that has
/// the character takes over.
pub proof fn law_glyph_progress(s: TextRun, text: Seq<u8>, font: usize, width: u32)
    requires
        s.wf(text),
        valid_utf8(text),
        text.len() <= usize::MAX,
        s.runs_on(text),
    ensures
        ({
            let t = s.after_glyph(text, font, width);
            ||| t.pos > s.pos
            ||| t.overflow
            ||| (t.next_font == Some(font) && font != s.used_font)
        }),
{
    lemma_next_pos_boundary(text, s.pos as int);
}

/// After a run that ended for another font, the next run is in that font,
/// so the character that font has joins it (or the string overflows).
pub proof fn law_switch_then_consume(s: TextRun, text: Seq<u8>, font: usize, width: u32)
    requires
        s.wf(text),
        valid_utf8(text),
        text.len() <= usize::MAX,
        s.next_font == Some(font),
        !s.overflow,
        s.pos < text.len(),
    ensures
        TextRun::after_run(s, text).used_font == font,
        !TextRun::after_run(s, text).force_first,
        ({
            let r = TextRun::after_run(s, text).started();
            let t = r.after_glyph(text, font, width);
            t.pos > s.pos || t.overflow
        }),
{
    lemma_next_pos_boundary(text, s.pos as int);
}

/// After a fallback search that left the run in font 0 (no font was found,
/// or the cache knew there is none), the character is drawn in font 0 (or
/// the string overflows).
pub proof fn law_fallback_then_consume(s: TextRun, text: Seq<u8>, width: u32)
    requires
        s.wf(text),
        valid_utf8(text),
        text.len() <= usize::MAX,
        s.runs_on(text),
        s.force_first,
        s.used_font == 0,
    ensures
        ({
            let t = s.after_glyph(text, 0, width);
            t.pos > s.pos || t.overflow
        }),
{
    lemma_next_pos_boundary(text, s.pos as int);
}

} // verus!
