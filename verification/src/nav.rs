//! Moving the selection and the page through the matches.

use vstd::prelude::*;
use crate::config::Config;
use crate::menu::Menu;

verus! {

impl Menu {
    /// Only the selection and the page changed, and the page is computed.
    pub open spec fn paged(&self, old: Menu, config: &Config) -> bool {
        &&& self.wf()
        &&& self.offsets_fit(config.lines)
        &&& *self == (Menu { curr: self.curr, next: self.next, prev: self.prev, sel: self.sel, ..old })
    }

    /// The selection moves one match up; when it leaves the top of the page
    /// the previous page is shown.
    pub open spec fn moved_up(&self, old: Menu, config: &Config) -> bool {
        match old.sel {
            Some(s) if s > 0 => {
                &&& self.sel == Some((s - 1) as usize)
                &&& if old.curr == Some(s) {
                    self.curr == old.prev && self.paged(old, config)
                } else {
                    *self == (Menu { sel: self.sel, ..old })
                }
            },
            _ => *self == old,
        }
    }

    /// The selection moves one match down; when it reaches the first match
    /// after the page the next page is shown.
    pub open spec fn moved_down(&self, old: Menu, config: &Config) -> bool {
        match old.sel {
            Some(s) if s + 1 < old.matches@.len() => {
                &&& self.sel == Some((s + 1) as usize)
                &&& if old.next == Some((s + 1) as usize) {
                    self.curr == old.next && self.paged(old, config)
                } else {
                    *self == (Menu { sel: self.sel, ..old })
                }
            },
            _ => *self == old,
        }
    }

    /// Moves the selection one match up.
    pub fn sel_move_up(&mut self, config: &Config)
        requires
            old(self).wf(),
        ensures
            final(self).wf(),
            final(self).moved_up(*old(self), config),
    {
        if let Some(sel_idx) = self.sel {
            if sel_idx > 0 {
                let crossed_page_top = self.curr == Some(sel_idx);
                self.sel = Some(sel_idx - 1);
                if crossed_page_top {
                    self.curr = self.prev;
                    self.calcoffsets(config);
                }
            }
        }
    }

    /// Moves the selection one match down.
    pub fn sel_move_down(&mut self, config: &Config)
        requires
            old(self).wf(),
        ensures
            final(self).wf(),
            final(self).moved_down(*old(self), config),
    {
        if let Some(sel_idx) = self.sel {
            assert(sel_idx < self.matches.len());
            if sel_idx + 1 < self.matches.len() {
                let new_sel = sel_idx + 1;
                self.sel = Some(new_sel);
                if self.next == Some(new_sel) {
                    self.curr = self.next;
                    self.calcoffsets(config);
                }
            }
        }
    }

    /// The same items, matches and measures: every page computation agrees.
    pub open spec fn same_layout(&self, other: Menu) -> bool {
        &&& self.items == other.items
        &&& self.matches == other.matches
        &&& self.bh == other.bh
        &&& self.mw == other.mw
        &&& self.promptw == other.promptw
        &&& self.inputw == other.inputw
        &&& self.larrow_w == other.larrow_w
        &&& self.rarrow_w == other.rarrow_w
    }

    /// Page computations read only the layout.
    pub proof fn lemma_same_layout(&self, other: Menu, lines: u32)
        requires
            self.same_layout(other),
        ensures
            forall|c: int, n: Option<usize>| #[trigger] self.next_fits(lines, c, n) == other.next_fits(lines, c, n),
            forall|c: int, n: Option<usize>| #[trigger] self.prev_fits(lines, c, n) == other.prev_fits(lines, c, n),
    {
    }

    /// All matches from position `c` on fit on one page.
    pub open spec fn fits_to_end(&self, lines: u32, c: int) -> bool {
        self.next_fits(lines, c, None)
    }

    /// The page is the last one as paging back from the last match and
    /// then forward finds it: from the start `q` of the page that ends
    /// with the last match, the first start from which the rest fits (or
    /// the last match itself).
    pub open spec fn on_last_page(&self, lines: u32) -> bool {
        let last = self.matches@.len() - 1;
        self.curr matches Some(c) && exists|q: usize|
            #![trigger self.prev_fits(lines, last, Some(q))]
            {
                &&& self.prev_fits(lines, last, Some(q))
                &&& q <= c <= last
                &&& forall|k: int| q <= k < c ==> !#[trigger] self.fits_to_end(lines, k)
                &&& (self.fits_to_end(lines, c as int) || c == last)
            }
    }

    /// Pages to the end of the matches: first the page that ends with the
    /// last match, then forward until the rest fits.
    pub fn end_page(&mut self, config: &Config)
        requires
            old(self).wf(),
            old(self).next is Some,
        ensures
            final(self).paged(*old(self), config),
            final(self).on_last_page(config.lines),
    {
        let lines = config.lines;
        let len = self.matches.len();
        let last = len - 1;
        self.curr = Some(last);
        self.calcoffsets(config);
        let q = match self.prev {
            Some(q) => q,
            None => 0,
        };
        assert(self.prev_fits(lines, last as int, Some(q)));
        let ghost before = *self;
        self.curr = self.prev;
        self.calcoffsets(config);
        proof {
            self.lemma_same_layout(before, lines);
        }
        let mut c = q;
        loop
            invariant
                self.paged(*old(self), config),
                len == self.matches@.len(),
                last == len - 1,
                lines == config.lines,
                self.curr == Some(c),
                q <= c <= last,
                self.prev_fits(lines, last as int, Some(q)),
                forall|k: int| q <= k < c ==> !#[trigger] self.fits_to_end(lines, k),
            ensures
                self.paged(*old(self), config),
                self.curr == Some(c),
                q <= c <= last,
                self.prev_fits(lines, last as int, Some(q)),
                forall|k: int| q <= k < c ==> !#[trigger] self.fits_to_end(lines, k),
                self.next is None || c + 1 >= len,
            decreases last - c,
        {
            if self.next.is_none() {
                break;
            }
            if c + 1 >= len {
                break;
            }
            assert(!self.fits_to_end(lines, c as int));
            let ghost before = *self;
            c = c + 1;
            self.curr = Some(c);
            self.calcoffsets(config);
            proof {
                self.lemma_same_layout(before, lines);
                assert forall|k: int| q <= k < c implies !#[trigger] self.fits_to_end(lines, k) by {
                    assert(!before.fits_to_end(lines, k));
                    assert(self.next_fits(lines, k, None) == before.next_fits(lines, k, None));
                }
            }
        }
        proof {
            let last_i = last as int;
            assert(self.prev_fits(lines, last_i, Some(q)));
            if !self.fits_to_end(lines, c as int) {
                assert(c == last);
            }
        }
    }

    /// Shows the page that starts at `p` and selects its first match.
    pub fn show_page(&mut self, p: usize, config: &Config)
        requires
            old(self).wf(),
            p < old(self).matches@.len(),
        ensures
            final(self).paged(*old(self), config),
            final(self).curr == Some(p),
            final(self).sel == Some(p),
    {
        self.curr = Some(p);
        self.sel = self.curr;
        self.calcoffsets(config);
    }
}

} // verus!
