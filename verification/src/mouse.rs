//! What a mouse button press on the menu does.

use vstd::prelude::*;
use vstd::utf8::*;
use crate::config::Config;
use crate::menu::{Item, Menu, MenuError};
use crate::keys::{CONTROL_MASK, SHIFT_MASK};

verus! {

/// Caps Lock and Num Lock, which do not change what a click does.
pub const LOCK_MASK: u32 = 2;
pub const NUM_LOCK_MASK: u32 = 16;

/// What the caller does after a button press.
#[derive(Debug)]
pub enum ButtonAction {
    /// Nothing.
    Ignore,
    /// Draw the menu again.
    Redraw,
    /// Ask for the clipboard (else the primary selection), then draw the
    /// menu again.
    Paste { clipboard: bool },
    /// Leave with this exit code.
    Exit(i32),
    /// Print `text` on a line; then leave with success if `exit`, else
    /// draw the menu again.
    Output { text: Vec<u8>, exit: bool },
}

/// In a vertical list whose lines are `h` high, the first of the
/// positions `i` up to `n` whose line (the one below `y`) contains `ey`.
pub open spec fn vertical_hit(ey: int, h: int, y: int, i: int, n: int) -> Option<int>
    decreases n - i,
{
    if i >= n {
        None
    } else if ey >= y + h && ey <= y + h + h {
        Some(i)
    } else {
        vertical_hit(ey, h, y + h, i + 1, n)
    }
}

/// The smaller of two integers.
pub open spec fn min_int(a: int, b: int) -> int {
    if a <= b {
        a
    } else {
        b
    }
}

impl Menu {
    /// Full width of the match at position `i`.
    pub open spec fn full_width(&self, i: int) -> int {
        self.items@[self.matches@[i] as int].width as int
    }

    /// In the horizontal list, the first of the positions `i` up to `n`
    /// whose box contains `ex`; a box starts where the one before ends
    /// (`x + w`) and is as wide as its item, but not past the right arrow.
    pub open spec fn horizontal_hit(&self, ex: int, x: int, w: int, i: int, n: int) -> Option<int>
        decreases n - i,
    {
        if i >= n {
            None
        } else {
            let x2 = x + w;
            let w2 = min_int(self.full_width(i), self.mw - x2 - self.rarrow_w);
            if ex >= x2 && ex <= x2 + w2 {
                Some(i)
            } else {
                self.horizontal_hit(ex, x2, w2, i + 1, n)
            }
        }
    }

    /// The match at position `i` was clicked: its text is printed; with
    /// Control it becomes the selection and is marked as output, else the
    /// menu is left.
    pub open spec fn picked(&self, old: Menu, i: int, ctrl: bool, r: Result<ButtonAction, MenuError>) -> bool {
        let k = old.matches@[i] as int;
        &&& (r matches Ok(ButtonAction::Output { text, exit }) && text@ == old.items@[k].text@ && exit == !ctrl)
        &&& if ctrl {
            &&& self.items@ == old.items@.update(k, Item { out: true, ..old.items@[k] })
            &&& *self == (Menu { items: self.items, sel: Some(i as usize), ..old })
        } else {
            *self == old
        }
    }

    /// `self` is `old` after a press of `button` at (`ex`, `ey`) with
    /// modifiers `ev_state`; `on_menu` says the press was in the menu
    /// window.
    pub open spec fn button_done(
        &self,
        old: Menu,
        on_menu: bool,
        button: u32,
        ex: i32,
        ey: i32,
        ev_state: u32,
        config: &Config,
        r: Result<ButtonAction, MenuError>,
    ) -> bool {
        let lines = config.lines;
        let state = ev_state & !(LOCK_MASK | NUM_LOCK_MASK);
        let ctrl = state & CONTROL_MASK != 0;
        let len = old.matches@.len() as int;
        let x0: int = if config.prompt@.len() > 0 {
            old.promptw as int
        } else {
            0
        };
        let w0: int = if lines > 0 || len == 0 {
            old.mw - x0
        } else {
            old.inputw as int
        };
        let no_left_arrow = old.prev is None || !(old.curr matches Some(c) && c > 0);
        let ignore = Ok::<ButtonAction, MenuError>(ButtonAction::Ignore);
        let redraw = Ok::<ButtonAction, MenuError>(ButtonAction::Redraw);
        if !on_menu {
            r == ignore && *self == old
        } else if button == 3 {
            r == Ok::<ButtonAction, MenuError>(ButtonAction::Exit(1)) && *self == old
        } else if button == 1 && ((lines == 0 && ex >= 0 && ex <= x0 + w0 + (if no_left_arrow {
            old.larrow_w as int
        } else {
            0
        })) || (lines > 0 && ey >= 0 && ey <= old.bh)) {
            &&& self.text@.len() == 0
            &&& self.cursor == 0
            &&& self.items@ == old.items@
            &&& self.rematched(config, match r { Ok(_) => Ok(()), Err(e) => Err(e) })
            &&& r is Ok ==> r == redraw
            &&& self.line_changed(old)
            &&& r is Err ==> self.kept_matches(old)
        } else if button == 2 {
            r == Ok::<ButtonAction, MenuError>(ButtonAction::Paste { clipboard: state & SHIFT_MASK != 0 })
                && *self == old
        } else if button == 4 && old.prev is Some {
            r == redraw && self.paged(old, config) && self.curr == old.prev && self.sel == old.prev
        } else if button == 5 && old.next is Some {
            r == redraw && self.paged(old, config) && self.curr == old.next && self.sel == old.next
        } else if button != 1 || state & !CONTROL_MASK != 0 {
            r == ignore && *self == old
        } else if lines > 0 {
            match old.curr {
                None => r == ignore && *self == old,
                Some(c) => {
                    let n = match old.next {
                        Some(p) => p as int,
                        None => len,
                    };
                    match vertical_hit(ey as int, old.bh as int, 0, c as int, n) {
                        None => r == ignore && *self == old,
                        Some(i) => self.picked(old, i, ctrl, r),
                    }
                },
            }
        } else if len > 0 {
            let x1 = x0 + old.inputw;
            let lw = old.larrow_w as int;
            if !no_left_arrow && ex >= x1 && ex <= x1 + lw {
                r == redraw && self.paged(old, config) && self.curr == old.prev && self.sel == old.prev
            } else {
                match old.curr {
                    None => r == ignore && *self == old,
                    Some(c) => {
                        let n = match old.next {
                            Some(p) => p as int,
                            None => len,
                        };
                        match old.horizontal_hit(ex as int, x1, lw, c as int, n) {
                            Some(i) => self.picked(old, i, ctrl, r),
                            None => if old.next is Some && ex >= old.mw - old.rarrow_w && ex <= old.mw {
                                r == redraw && self.paged(old, config) && self.curr == old.next
                                    && self.sel == old.next
                            } else {
                                r == ignore && *self == old
                            },
                        }
                    },
                }
            }
        } else {
            r == ignore && *self == old
        }
    }
}

impl Menu {
    fn pick(&mut self, i: usize, ctrl: bool) -> (r: Result<ButtonAction, MenuError>)
        requires
            old(self).wf(),
            i < old(self).matches@.len(),
        ensures
            final(self).wf(),
            final(self).picked(*old(self), i as int, ctrl, r),
    {
        let k = self.matches[i];
        let out = crate::menu::copy_bytes(self.items[k].text.as_slice());
        if !ctrl {
            return Ok(ButtonAction::Output { text: out, exit: true });
        }
        self.sel = Some(i);
        crate::keys::marked_out(&mut self.items, k);
        assert forall|j: int| 0 <= j < self.items@.len() implies valid_utf8(#[trigger] self.items@[j].text@)
            && self.items@[j].text@.len() <= isize::MAX by {
            assert(self.items@[j].text@ == old(self).items@[j].text@);
        }
        Ok(ButtonAction::Output { text: out, exit: false })
    }

    fn vertical_pick(&self, ey: i32, c: usize, n: usize) -> (r: Option<usize>)
        requires
            self.wf(),
            c <= n <= self.matches@.len(),
        ensures
            r matches Some(i) ==> c <= i < n && vertical_hit(ey as int, self.bh as int, 0, c as int, n as int)
                == Some(i as int),
            r is None ==> vertical_hit(ey as int, self.bh as int, 0, c as int, n as int) is None,
    {
        let h = self.bh as i128;
        let e = ey as i128;
        let mut y: i128 = 0;
        let mut item = c;
        while item < n
            invariant
                c <= item <= n,
                h == self.bh,
                e == ey,
                y == (item - c) * h,
                -2147483648 * (item - c) <= y <= 2147483647 * (item - c),
                item - c <= 18446744073709551615,
                n <= self.matches@.len(),
                vertical_hit(ey as int, self.bh as int, 0, c as int, n as int) == vertical_hit(
                    ey as int,
                    self.bh as int,
                    y as int,
                    item as int,
                    n as int,
                ),
            decreases n - item,
        {
            assert(y + h == (item + 1 - c) * h && -2147483648 * (item + 1 - c) <= y + h <= 2147483647 * (
            item + 1 - c)) by (nonlinear_arith)
                requires
                    y == (item - c) * h,
                    -2147483648 <= h <= 2147483647,
                    -2147483648 * (item - c) <= y <= 2147483647 * (item - c),
            ;
            y = y + h;
            if e >= y && e <= y + h {
                return Some(item);
            }
            item = item + 1;
        }
        None
    }

    fn horizontal_pick(&self, ex: i32, x1: i64, lw: i64, c: usize, n: usize) -> (r: Option<usize>)
        requires
            self.wf(),
            c <= n <= self.matches@.len(),
            -8589934592 <= x1 <= 8589934592,
            0 <= lw <= 4294967295,
        ensures
            r matches Some(i) ==> c <= i < n && self.horizontal_hit(ex as int, x1 as int, lw as int, c as int, n as int)
                == Some(i as int),
            r is None ==> self.horizontal_hit(ex as int, x1 as int, lw as int, c as int, n as int) is None,
    {
        let e = ex as i64;
        let mut x: i64 = x1;
        let mut w: i64 = lw;
        let mut item = c;
        let limit = self.mw as i64 - self.rarrow_w as i64;
        while item < n
            invariant
                self.wf(),
                c <= item <= n,
                n <= self.matches@.len(),
                e == ex,
                limit == self.mw - self.rarrow_w,
                -6442450944 <= limit <= 2147483648,
                -34359738368 <= x <= 34359738368,
                -68719476736 <= w <= 8589934592,
                -34359738368 <= x + w <= 34359738368,
                self.horizontal_hit(ex as int, x1 as int, lw as int, c as int, n as int) == self.horizontal_hit(
                    ex as int,
                    x as int,
                    w as int,
                    item as int,
                    n as int,
                ),
            decreases n - item,
        {
            x = x + w;
            let iw = self.items[self.matches[item]].width as i64;
            let room = limit - x;
            w = if iw <= room {
                iw
            } else {
                room
            };
            if e >= x && e <= x + w {
                return Some(item);
            }
            item = item + 1;
        }
        None
    }

    /// Handles a press of `button` at (`ex`, `ey`) with modifiers
    /// `ev_state`; `on_menu` says whether it was in the menu window.
    pub fn button_press(
        &mut self,
        on_menu: bool,
        button: u32,
        ex: i32,
        ey: i32,
        ev_state: u32,
        config: &Config,
    ) -> (r: Result<ButtonAction, MenuError>)
        requires
            old(self).wf(),
        ensures
            final(self).wf(),
            final(self).button_done(*old(self), on_menu, button, ex, ey, ev_state, config, r),
    {
        if !on_menu {
            return Ok(ButtonAction::Ignore);
        }
        if button == 3 {
            return Ok(ButtonAction::Exit(1));
        }
        let state = ev_state & !(LOCK_MASK | NUM_LOCK_MASK);
        let mut x: i64 = 0;
        if config.prompt.len() > 0 {
            x = x + self.promptw as i64;
        }
        let lines = config.lines;
        let w: i64 = if lines > 0 || self.matches.len() == 0 {
            self.mw as i64 - x
        } else {
            self.inputw as i64
        };
        let no_left_arrow = self.prev.is_none() || !(match self.curr {
            Some(c) => c > 0,
            None => false,
        });
        let ex64 = ex as i64;
        let ey64 = ey as i64;
        if button == 1 && ((lines == 0 && ex64 >= 0 && ex64 <= x + w + (if no_left_arrow {
            self.larrow_w as i64
        } else {
            0
        })) || (lines > 0 && ey64 >= 0 && ey64 <= self.bh as i64)) {
            self.text = Vec::new();
            self.cursor = 0;
            proof {
                assert(valid_utf8(self.text@)) by {
                    assert(self.text@.len() == 0);
                }
                is_char_boundary_start_end_of_seq(self.text@);
            }
            let res = self.mtch(config);
            return match res {
                Ok(()) => Ok(ButtonAction::Redraw),
                Err(e) => Err(e),
            };
        }
        if button == 2 {
            return Ok(ButtonAction::Paste { clipboard: state & SHIFT_MASK != 0 });
        }
        if button == 4 && self.prev.is_some() {
            let p = self.prev.unwrap();
            self.show_page(p, config);
            return Ok(ButtonAction::Redraw);
        }
        if button == 5 && self.next.is_some() {
            let p = self.next.unwrap();
            self.show_page(p, config);
            return Ok(ButtonAction::Redraw);
        }
        if button != 1 {
            return Ok(ButtonAction::Ignore);
        }
        if state & !CONTROL_MASK != 0 {
            return Ok(ButtonAction::Ignore);
        }
        let ctrl = state & CONTROL_MASK != 0;
        let len = self.matches.len();
        if lines > 0 {
            let c = match self.curr {
                None => {
                    return Ok(ButtonAction::Ignore);
                },
                Some(c) => c,
            };
            let n = match self.next {
                Some(p) => p,
                None => len,
            };
            if n < c {
                assert(vertical_hit(ey as int, self.bh as int, 0, c as int, n as int) is None);
                return Ok(ButtonAction::Ignore);
            }
            match self.vertical_pick(ey, c, n) {
                None => Ok(ButtonAction::Ignore),
                Some(i) => self.pick(i, ctrl),
            }
        } else if len > 0 {
            let x1 = x + self.inputw as i64;
            let lw = self.larrow_w as i64;
            if !no_left_arrow && ex64 >= x1 && ex64 <= x1 + lw {
                let p = self.prev.unwrap();
                self.show_page(p, config);
                return Ok(ButtonAction::Redraw);
            }
            let c = match self.curr {
                None => {
                    return Ok(ButtonAction::Ignore);
                },
                Some(c) => c,
            };
            let n = match self.next {
                Some(p) => p,
                None => len,
            };
            let hit = if n < c {
                None
            } else {
                self.horizontal_pick(ex, x1, lw, c, n)
            };
            match hit {
                Some(i) => self.pick(i, ctrl),
                None => {
                    let rw = self.rarrow_w as i64;
                    let xr = self.mw as i64 - rw;
                    if self.next.is_some() && ex64 >= xr && ex64 <= xr + rw {
                        let p = self.next.unwrap();
                        self.show_page(p, config);
                        return Ok(ButtonAction::Redraw);
                    }
                    Ok(ButtonAction::Ignore)
                },
            }
        } else {
            Ok(ButtonAction::Ignore)
        }
    }
}

} // verus!
