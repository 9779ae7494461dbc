//! What a key press does: the Control and Alt bindings, then the action of
//! the key on the input line, the selection and the page.

#![allow(non_upper_case_globals)]

use vstd::prelude::*;
use vstd::utf8::*;
use crate::config::Config;
use crate::menu::{Item, Menu, MenuError};
use crate::line::{next_pos, prev_pos, word_start, word_end};

verus! {

pub const XK_a: u64 = 0x0061;
pub const XK_b: u64 = 0x0062;
pub const XK_c: u64 = 0x0063;
pub const XK_d: u64 = 0x0064;
pub const XK_e: u64 = 0x0065;
pub const XK_f: u64 = 0x0066;
pub const XK_g: u64 = 0x0067;
pub const XK_h: u64 = 0x0068;
pub const XK_i: u64 = 0x0069;
pub const XK_j: u64 = 0x006a;
pub const XK_k: u64 = 0x006b;
pub const XK_l: u64 = 0x006c;
pub const XK_m: u64 = 0x006d;
pub const XK_n: u64 = 0x006e;
pub const XK_p: u64 = 0x0070;
pub const XK_u: u64 = 0x0075;
pub const XK_w: u64 = 0x0077;
pub const XK_y: u64 = 0x0079;
pub const XK_G: u64 = 0x0047;
pub const XK_J: u64 = 0x004a;
pub const XK_M: u64 = 0x004d;
pub const XK_Y: u64 = 0x0059;
pub const XK_Home: u64 = 0xff50;
pub const XK_Left: u64 = 0xff51;
pub const XK_Up: u64 = 0xff52;
pub const XK_Right: u64 = 0xff53;
pub const XK_Down: u64 = 0xff54;
pub const XK_Prior: u64 = 0xff55;
pub const XK_Next: u64 = 0xff56;
pub const XK_End: u64 = 0xff57;
pub const XK_BackSpace: u64 = 0xff08;
pub const XK_Tab: u64 = 0xff09;
pub const XK_Return: u64 = 0xff0d;
pub const XK_Escape: u64 = 0xff1b;
pub const XK_Delete: u64 = 0xffff;
pub const XK_KP_Right: u64 = 0xff98;
pub const XK_KP_Left: u64 = 0xff96;
pub const XK_KP_Up: u64 = 0xff97;
pub const XK_KP_Down: u64 = 0xff99;
pub const XK_KP_Enter: u64 = 0xff8d;
pub const XK_bracketleft: u64 = 0x005b;
pub const XK_KP_Next: u64 = 0xff9b;
pub const XK_KP_Delete: u64 = 0xff9f;
pub const XK_KP_Home: u64 = 0xff95;
pub const XK_KP_End: u64 = 0xff9c;
pub const XK_KP_Prior: u64 = 0xff9a;

/// Modifier bits of a key or button event.
pub const SHIFT_MASK: u32 = 1;
pub const CONTROL_MASK: u32 = 4;
pub const MOD1_MASK: u32 = 8;

/// Lookup status: characters only, a key symbol only, or both.
pub const X_LOOKUP_CHARS: i32 = 2;
pub const X_LOOKUP_KEYSYM: i32 = 3;
pub const X_LOOKUP_BOTH: i32 = 4;

/// What is deleted before the key acts.
#[derive(Debug)]
pub enum Kill {
    Nothing,
    ToEnd,
    ToStart,
    Word,
}

/// The key that acts, after the Control and Alt bindings.
#[derive(Debug)]
pub enum Nav {
    Delete,
    BackSpace,
    End,
    Escape,
    Home,
    Left,
    Up,
    PageDown,
    PageUp,
    Return,
    Right,
    Down,
    Tab,
    Text,
}

/// What a key press asks for.
#[derive(Debug)]
pub enum KeyCommand {
    /// Nothing at all, not even a redraw.
    Ignore,
    /// Ask for the clipboard (else the primary selection) to be pasted.
    RequestPaste { clipboard: bool },
    /// Move to the start of the word before the cursor.
    WordLeft,
    /// Move to the end of the word after the cursor.
    WordRight,
    /// Leave with failure.
    Quit,
    /// Delete as `kill` says, then act as `nav` with modifiers `state`.
    Act { kill: Kill, nav: Nav, state: u32 },
}

/// What the caller does after a key press.
#[derive(Debug)]
pub enum KeyAction {
    /// Nothing.
    Ignore,
    /// Draw the menu again.
    Redraw,
    /// Ask for the clipboard (else the primary selection).
    Paste { clipboard: bool },
    /// Leave with this exit code.
    Exit(i32),
    /// Print `text` on a line; then leave with success if `exit`, else
    /// draw the menu again.
    Output { text: Vec<u8>, exit: bool },
}

/// The key that a key symbol names when no modifier rebinds it.
pub open spec fn nav_of(ksym: u64) -> Nav {
    if ksym == XK_Delete || ksym == XK_KP_Delete {
        Nav::Delete
    } else if ksym == XK_BackSpace {
        Nav::BackSpace
    } else if ksym == XK_End || ksym == XK_KP_End {
        Nav::End
    } else if ksym == XK_Escape {
        Nav::Escape
    } else if ksym == XK_Home || ksym == XK_KP_Home {
        Nav::Home
    } else if ksym == XK_Left || ksym == XK_KP_Left {
        Nav::Left
    } else if ksym == XK_Up || ksym == XK_KP_Up {
        Nav::Up
    } else if ksym == XK_Next || ksym == XK_KP_Next {
        Nav::PageDown
    } else if ksym == XK_Prior || ksym == XK_KP_Prior {
        Nav::PageUp
    } else if ksym == XK_Return || ksym == XK_KP_Enter {
        Nav::Return
    } else if ksym == XK_Right || ksym == XK_KP_Right {
        Nav::Right
    } else if ksym == XK_Down || ksym == XK_KP_Down {
        Nav::Down
    } else if ksym == XK_Tab {
        Nav::Tab
    } else {
        Nav::Text
    }
}

/// An action with nothing deleted first.
pub open spec fn act(nav: Nav, state: u32) -> KeyCommand {
    KeyCommand::Act { kill: Kill::Nothing, nav, state }
}

/// The Control bindings (emacs-like).
pub open spec fn control_binding(ksym: u64, state: u32) -> KeyCommand {
    if ksym == XK_a {
        act(Nav::Home, state)
    } else if ksym == XK_b {
        act(Nav::Left, state)
    } else if ksym == XK_c || ksym == XK_g {
        act(Nav::Escape, state)
    } else if ksym == XK_d {
        act(Nav::Delete, state)
    } else if ksym == XK_e {
        act(Nav::End, state)
    } else if ksym == XK_f {
        act(Nav::Right, state)
    } else if ksym == XK_h {
        act(Nav::BackSpace, state)
    } else if ksym == XK_i {
        act(Nav::Tab, state)
    } else if ksym == XK_j || ksym == XK_J || ksym == XK_m || ksym == XK_M {
        act(Nav::Return, state & !CONTROL_MASK)
    } else if ksym == XK_n {
        act(Nav::Down, state)
    } else if ksym == XK_p {
        act(Nav::Up, state)
    } else if ksym == XK_k {
        KeyCommand::Act { kill: Kill::ToEnd, nav: Nav::Text, state }
    } else if ksym == XK_u {
        KeyCommand::Act { kill: Kill::ToStart, nav: Nav::Text, state }
    } else if ksym == XK_w {
        KeyCommand::Act { kill: Kill::Word, nav: Nav::Text, state }
    } else if ksym == XK_y || ksym == XK_Y {
        KeyCommand::RequestPaste { clipboard: state & SHIFT_MASK != 0 }
    } else if ksym == XK_Left || ksym == XK_KP_Left {
        KeyCommand::WordLeft
    } else if ksym == XK_Right || ksym == XK_KP_Right {
        KeyCommand::WordRight
    } else if ksym == XK_Return || ksym == XK_KP_Enter {
        act(Nav::Return, state)
    } else if ksym == XK_bracketleft {
        KeyCommand::Quit
    } else {
        KeyCommand::Ignore
    }
}

/// The Alt bindings (vi-like paging).
pub open spec fn alt_binding(ksym: u64, state: u32) -> KeyCommand {
    if ksym == XK_b {
        KeyCommand::WordLeft
    } else if ksym == XK_f {
        KeyCommand::WordRight
    } else if ksym == XK_g {
        act(Nav::Home, state)
    } else if ksym == XK_G {
        act(Nav::End, state)
    } else if ksym == XK_h {
        act(Nav::Up, state)
    } else if ksym == XK_j {
        act(Nav::PageDown, state)
    } else if ksym == XK_k {
        act(Nav::PageUp, state)
    } else if ksym == XK_l {
        act(Nav::Down, state)
    } else {
        KeyCommand::Ignore
    }
}

/// What a key press with this symbol, modifier state and lookup status
/// asks for.  Characters without a key symbol are typed text.
pub open spec fn key_command(ksym: u64, state: u32, status: i32) -> KeyCommand {
    if status == X_LOOKUP_CHARS {
        act(Nav::Text, state)
    } else if status != X_LOOKUP_KEYSYM && status != X_LOOKUP_BOTH {
        KeyCommand::Ignore
    } else if state & CONTROL_MASK != 0 {
        control_binding(ksym, state)
    } else if state & MOD1_MASK != 0 {
        alt_binding(ksym, state)
    } else {
        act(nav_of(ksym), state)
    }
}

fn exec_nav_of(ksym: u64) -> (r: Nav)
    ensures
        r == nav_of(ksym),
{
    if ksym == XK_Delete || ksym == XK_KP_Delete {
        Nav::Delete
    } else if ksym == XK_BackSpace {
        Nav::BackSpace
    } else if ksym == XK_End || ksym == XK_KP_End {
        Nav::End
    } else if ksym == XK_Escape {
        Nav::Escape
    } else if ksym == XK_Home || ksym == XK_KP_Home {
        Nav::Home
    } else if ksym == XK_Left || ksym == XK_KP_Left {
        Nav::Left
    } else if ksym == XK_Up || ksym == XK_KP_Up {
        Nav::Up
    } else if ksym == XK_Next || ksym == XK_KP_Next {
        Nav::PageDown
    } else if ksym == XK_Prior || ksym == XK_KP_Prior {
        Nav::PageUp
    } else if ksym == XK_Return || ksym == XK_KP_Enter {
        Nav::Return
    } else if ksym == XK_Right || ksym == XK_KP_Right {
        Nav::Right
    } else if ksym == XK_Down || ksym == XK_KP_Down {
        Nav::Down
    } else if ksym == XK_Tab {
        Nav::Tab
    } else {
        Nav::Text
    }
}

/// Decodes a key press into what it asks for.
pub fn command_of_key(ksym: u64, state: u32, status: i32) -> (r: KeyCommand)
    ensures
        r == key_command(ksym, state, status),
{
    if status == X_LOOKUP_CHARS {
        return KeyCommand::Act { kill: Kill::Nothing, nav: Nav::Text, state };
    }
    if status != X_LOOKUP_KEYSYM && status != X_LOOKUP_BOTH {
        return KeyCommand::Ignore;
    }
    let a = |nav: Nav| -> (c: KeyCommand)
        ensures
            c == act(nav, state),
        { KeyCommand::Act { kill: Kill::Nothing, nav, state } };
    if state & CONTROL_MASK != 0 {
        if ksym == XK_a {
            a(Nav::Home)
        } else if ksym == XK_b {
            a(Nav::Left)
        } else if ksym == XK_c || ksym == XK_g {
            a(Nav::Escape)
        } else if ksym == XK_d {
            a(Nav::Delete)
        } else if ksym == XK_e {
            a(Nav::End)
        } else if ksym == XK_f {
            a(Nav::Right)
        } else if ksym == XK_h {
            a(Nav::BackSpace)
        } else if ksym == XK_i {
            a(Nav::Tab)
        } else if ksym == XK_j || ksym == XK_J || ksym == XK_m || ksym == XK_M {
            KeyCommand::Act { kill: Kill::Nothing, nav: Nav::Return, state: state & !CONTROL_MASK }
        } else if ksym == XK_n {
            a(Nav::Down)
        } else if ksym == XK_p {
            a(Nav::Up)
        } else if ksym == XK_k {
            KeyCommand::Act { kill: Kill::ToEnd, nav: Nav::Text, state }
        } else if ksym == XK_u {
            KeyCommand::Act { kill: Kill::ToStart, nav: Nav::Text, state }
        } else if ksym == XK_w {
            KeyCommand::Act { kill: Kill::Word, nav: Nav::Text, state }
        } else if ksym == XK_y || ksym == XK_Y {
            KeyCommand::RequestPaste { clipboard: state & SHIFT_MASK != 0 }
        } else if ksym == XK_Left || ksym == XK_KP_Left {
            KeyCommand::WordLeft
        } else if ksym == XK_Right || ksym == XK_KP_Right {
            KeyCommand::WordRight
        } else if ksym == XK_Return || ksym == XK_KP_Enter {
            a(Nav::Return)
        } else if ksym == XK_bracketleft {
            KeyCommand::Quit
        } else {
            KeyCommand::Ignore
        }
    } else if state & MOD1_MASK != 0 {
        if ksym == XK_b {
            KeyCommand::WordLeft
        } else if ksym == XK_f {
            KeyCommand::WordRight
        } else if ksym == XK_g {
            a(Nav::Home)
        } else if ksym == XK_G {
            a(Nav::End)
        } else if ksym == XK_h {
            a(Nav::Up)
        } else if ksym == XK_j {
            a(Nav::PageDown)
        } else if ksym == XK_k {
            a(Nav::PageUp)
        } else if ksym == XK_l {
            a(Nav::Down)
        } else {
            KeyCommand::Ignore
        }
    } else {
        a(exec_nav_of(ksym))
    }
}

/// A byte that, read as a character, is a control character (Unicode
/// category Cc: U+0000 to U+001F and U+007F to U+009F).
pub open spec fn is_control_byte(b: u8) -> bool {
    b < 0x20 || (0x7f <= b && b <= 0x9f)
}

/// The re-matching outcome of a key action.
pub open spec fn unit(r: Result<KeyAction, MenuError>) -> Result<(), MenuError> {
    match r {
        Ok(_) => Ok(()),
        Err(e) => Err(e),
    }
}

/// The line that Return prints: the selected item, or the input when
/// nothing is selected or Shift is held.
pub open spec fn return_text(m: Menu, state: u32) -> Seq<u8> {
    match m.sel {
        Some(s) if state & SHIFT_MASK == 0 => m.items@[m.matches@[s as int] as int].text@,
        _ => m.text@,
    }
}

/// The text was edited (and the items re-matched): the key redraws unless
/// re-matching failed.
pub open spec fn edited(m: Menu, config: &Config, r: Result<KeyAction, MenuError>) -> bool {
    &&& m.rematched(config, unit(r))
    &&& r is Ok ==> r == Ok::<KeyAction, MenuError>(KeyAction::Redraw)
}

impl Menu {
    /// `self` is the menu after the key `nav` acted on `old`.
    pub open spec fn nav_done(
        &self,
        old: Menu,
        nav: Nav,
        state: u32,
        lead: u8,
        typed: Seq<u8>,
        config: &Config,
        r: Result<KeyAction, MenuError>,
    ) -> bool {
        let len = old.text@.len();
        let c = old.cursor as int;
        let redraw = Ok::<KeyAction, MenuError>(KeyAction::Redraw);
        let ignore = Ok::<KeyAction, MenuError>(KeyAction::Ignore);
        match nav {
            Nav::Delete => if c >= len {
                r == ignore && *self == old
            } else {
                &&& self.items@ == old.items@
                &&& self.text@ == old.text@.take(c) + old.text@.skip(next_pos(old.text@, c))
                &&& self.cursor == old.cursor
                &&& edited(*self, config, r)
                &&& self.line_changed(old)
                &&& r is Err ==> self.kept_matches(old)
            },
            Nav::BackSpace => if c == 0 {
                r == ignore && *self == old
            } else {
                &&& self.items@ == old.items@
                &&& self.text@ == old.text@.take(prev_pos(old.text@, c)) + old.text@.skip(c)
                &&& self.cursor == prev_pos(old.text@, c)
                &&& edited(*self, config, r)
                &&& self.line_changed(old)
                &&& r is Err ==> self.kept_matches(old)
            },
            Nav::End => {
                &&& r == redraw
                &&& if c < len {
                    *self == (Menu { cursor: len as usize, ..old })
                } else {
                    &&& self.sel == (if old.matches@.len() > 0 {
                        Some((old.matches@.len() - 1) as usize)
                    } else {
                        None
                    })
                    &&& if old.next is Some {
                        &&& self.paged(old, config)
                        &&& self.on_last_page(config.lines)
                    } else {
                        *self == (Menu { sel: self.sel, ..old })
                    }
                }
            },
            Nav::Escape => r == Ok::<KeyAction, MenuError>(KeyAction::Exit(1)) && *self == old,
            Nav::Home => {
                &&& r == redraw
                &&& if old.sel is None || old.sel == Some(0usize) {
                    *self == (Menu { cursor: 0, ..old })
                } else {
                    self.paged(old, config) && self.curr == Some(0usize) && self.sel == Some(0usize)
                }
            },
            Nav::Left => if c > 0 && (old.sel is None || old.sel == Some(0usize) || config.lines > 0) {
                r == redraw && *self == (Menu { cursor: prev_pos(old.text@, c) as usize, ..old })
            } else if config.lines > 0 {
                r == ignore && *self == old
            } else {
                r == redraw && self.moved_up(old, config)
            },
            Nav::Up => r == redraw && self.moved_up(old, config),
            Nav::PageDown => match old.next {
                None => r == ignore && *self == old,
                Some(p) => r == redraw && self.paged(old, config) && self.curr == Some(p) && self.sel == Some(p),
            },
            Nav::PageUp => match old.prev {
                None => r == ignore && *self == old,
                Some(p) => r == redraw && self.paged(old, config) && self.curr == Some(p) && self.sel == Some(p),
            },
            Nav::Return => {
                &&& (r matches Ok(KeyAction::Output { text, exit }) && text@ == return_text(old, state) && exit == (
                state & CONTROL_MASK == 0))
                &&& if state & CONTROL_MASK == 0 {
                    *self == old
                } else {
                    match old.sel {
                        None => *self == old,
                        Some(s) => {
                            let k = old.matches@[s as int] as int;
                            &&& self.items@ == old.items@.update(k, Item { out: true, ..old.items@[k] })
                            &&& *self == (Menu { items: self.items, ..old })
                        },
                    }
                }
            },
            Nav::Right => if c < len {
                r == redraw && *self == (Menu { cursor: next_pos(old.text@, c) as usize, ..old })
            } else if config.lines > 0 {
                r == ignore && *self == old
            } else {
                r == redraw && self.moved_down(old, config)
            },
            Nav::Down => r == redraw && self.moved_down(old, config),
            Nav::Tab => match old.sel {
                None => r == ignore && *self == old,
                Some(s) => {
                    let t = old.items@[old.matches@[s as int] as int].text@;
                    &&& self.items@ == old.items@
                    &&& self.text@ == t
                    &&& self.cursor == t.len()
                    &&& edited(*self, config, r)
                    &&& self.line_changed(old)
                    &&& r is Err ==> self.kept_matches(old)
                },
            },
            Nav::Text => if !is_control_byte(lead) && valid_utf8(typed) {
                &&& self.inserted(old, typed, config, unit(r))
                &&& r is Ok ==> r == redraw
            } else {
                r == redraw && *self == old
            },
        }
    }
}

pub(crate) fn marked_out(items: &mut Vec<Item>, k: usize)
    requires
        k < old(items)@.len(),
    ensures
        final(items)@ == old(items)@.update(k as int, Item { out: true, ..old(items)@[k as int] }),
{
    let mut it = Item { text: Vec::new(), out: false, width: 0, clamped_width: 0 };
    items.set_and_swap(k, &mut it);
    it.out = true;
    items.set_and_swap(k, &mut it);
    assert(items@ =~= old(items)@.update(k as int, Item { out: true, ..old(items)@[k as int] }));
}

fn to_key_result(r: Result<(), MenuError>) -> (k: Result<KeyAction, MenuError>)
    ensures
        r is Ok ==> k == Ok::<KeyAction, MenuError>(KeyAction::Redraw),
        r matches Err(e) ==> k == Err::<KeyAction, MenuError>(e),
{
    match r {
        Ok(()) => Ok(KeyAction::Redraw),
        Err(e) => Err(e),
    }
}

impl Menu {
    /// Lets the key `nav` act, with modifiers `state`; `lead` is the first
    /// byte the key produced and `typed` all of them.
    pub fn apply_nav(&mut self, nav: Nav, state: u32, lead: u8, typed: &[u8], config: &Config) -> (r: Result<
        KeyAction,
        MenuError,
    >)
        requires
            old(self).wf(),
        ensures
            final(self).wf(),
            final(self).nav_done(*old(self), nav, state, lead, typed@, config, r),
    {
        proof {
            crate::line::lemma_char_boundary_le_len(self.text@, self.cursor as int);
        }
        match nav {
            Nav::Delete => {
                if self.cursor >= self.text.len() {
                    return Ok(KeyAction::Ignore);
                }
                let c = self.cursor;
                proof {
                    crate::line::lemma_next_pos_boundary(self.text@, c as int);
                    lemma_prev_of_next(self.text@, c as int);
                }
                self.cursor = self.next_rune(1);
                if self.cursor == 0 {
                    return Ok(KeyAction::Ignore);
                }
                let del = self.cursor - self.next_rune(-1);
                let ghost c1 = self.cursor as int;
                assert(c1 == next_pos(old(self).text@, c as int));
                assert(del == c1 - c);
                let res = self.delete_before_cursor(del, config);
                assert(self.cursor == c);
                assert(self.text@ == old(self).text@.take(c as int) + old(self).text@.skip(c1));
                to_key_result(res)
            },
            Nav::BackSpace => {
                if self.cursor == 0 {
                    return Ok(KeyAction::Ignore);
                }
                proof {
                    crate::line::lemma_prev_pos_boundary(self.text@, self.cursor as int);
                }
                let del = self.cursor - self.next_rune(-1);
                to_key_result(self.delete_before_cursor(del, config))
            },
            Nav::End => {
                if self.cursor < self.text.len() {
                    proof {
                        is_char_boundary_start_end_of_seq(self.text@);
                    }
                    self.cursor = self.text.len();
                    return Ok(KeyAction::Redraw);
                }
                if self.next.is_some() {
                    self.end_page(config);
                }
                let ghost before = *self;
                if self.matches.len() > 0 {
                    self.sel = Some(self.matches.len() - 1);
                } else {
                    self.sel = None;
                }
                proof {
                    self.lemma_same_layout(before, config.lines);
                    if old(self).next is Some {
                        let last = self.matches@.len() - 1;
                        let c = self.curr->0;
                        let q = choose|q: usize| #![trigger before.prev_fits(config.lines, last, Some(q))]
                            {
                                &&& before.prev_fits(config.lines, last, Some(q))
                                &&& q <= c <= last
                                &&& forall|k: int| q <= k < c ==> !#[trigger] before.fits_to_end(config.lines, k)
                                &&& (before.fits_to_end(config.lines, c as int) || c == last)
                            };
                        assert(self.prev_fits(config.lines, last, Some(q)));
                        assert forall|k: int| q <= k < c implies !#[trigger] self.fits_to_end(config.lines, k) by {
                            assert(!before.fits_to_end(config.lines, k));
                            assert(self.next_fits(config.lines, k, None) == before.next_fits(config.lines, k, None));
                        }
                        assert(self.next_fits(config.lines, c as int, None) == before.next_fits(config.lines, c as int, None));
                    }
                }
                Ok(KeyAction::Redraw)
            },
            Nav::Escape => Ok(KeyAction::Exit(1)),
            Nav::Home => {
                if self.sel.is_none() || self.sel == Some(0usize) {
                    proof {
                        is_char_boundary_start_end_of_seq(self.text@);
                    }
                    self.cursor = 0;
                    return Ok(KeyAction::Redraw);
                }
                self.show_page(0, config);
                Ok(KeyAction::Redraw)
            },
            Nav::Left => {
                if self.cursor > 0 && (self.sel.is_none() || self.sel == Some(0usize) || config.lines > 0) {
                    proof {
                        crate::line::lemma_prev_pos_boundary(self.text@, self.cursor as int);
                    }
                    self.cursor = self.next_rune(-1);
                    return Ok(KeyAction::Redraw);
                }
                if config.lines > 0 {
                    return Ok(KeyAction::Ignore);
                }
                self.sel_move_up(config);
                Ok(KeyAction::Redraw)
            },
            Nav::Up => {
                self.sel_move_up(config);
                Ok(KeyAction::Redraw)
            },
            Nav::PageDown => {
                match self.next {
                    None => Ok(KeyAction::Ignore),
                    Some(p) => {
                        self.show_page(p, config);
                        Ok(KeyAction::Redraw)
                    },
                }
            },
            Nav::PageUp => {
                match self.prev {
                    None => Ok(KeyAction::Ignore),
                    Some(p) => {
                        self.show_page(p, config);
                        Ok(KeyAction::Redraw)
                    },
                }
            },
            Nav::Return => {
                let out = match self.sel {
                    Some(s) if state & SHIFT_MASK == 0 => crate::menu::copy_bytes(
                        self.items[self.matches[s]].text.as_slice(),
                    ),
                    _ => crate::menu::copy_bytes(self.text.as_slice()),
                };
                if state & CONTROL_MASK == 0 {
                    return Ok(KeyAction::Output { text: out, exit: true });
                }
                if let Some(s) = self.sel {
                    let k = self.matches[s];
                    marked_out(&mut self.items, k);
                    assert forall|j: int| 0 <= j < self.items@.len() implies valid_utf8(
                        #[trigger] self.items@[j].text@,
                    ) && self.items@[j].text@.len() <= isize::MAX by {
                        assert(self.items@[j].text@ == old(self).items@[j].text@);
                    }
                }
                Ok(KeyAction::Output { text: out, exit: false })
            },
            Nav::Right => {
                if self.cursor < self.text.len() {
                    proof {
                        crate::line::lemma_next_pos_boundary(self.text@, self.cursor as int);
                    }
                    self.cursor = self.next_rune(1);
                    return Ok(KeyAction::Redraw);
                }
                if config.lines > 0 {
                    return Ok(KeyAction::Ignore);
                }
                self.sel_move_down(config);
                Ok(KeyAction::Redraw)
            },
            Nav::Down => {
                self.sel_move_down(config);
                Ok(KeyAction::Redraw)
            },
            Nav::Tab => {
                match self.sel {
                    None => Ok(KeyAction::Ignore),
                    Some(s) => {
                        let k = self.matches[s];
                        let t = crate::menu::copy_bytes(self.items[k].text.as_slice());
                        proof {
                            is_char_boundary_start_end_of_seq(t@);
                        }
                        self.text = t;
                        self.cursor = self.text.len();
                        to_key_result(self.mtch(config))
                    },
                }
            },
            Nav::Text => {
                if !(lead < 0x20 || (0x7f <= lead && lead <= 0x9f)) && crate::strings::is_valid_utf8(typed) {
                    let res = self.insert_text(typed, config);
                    return to_key_result(res);
                }
                Ok(KeyAction::Redraw)
            },
        }
    }
}

impl Menu {
    /// `self` is `old` after the deletion `kill`, with outcome `r`.
    pub open spec fn killed(&self, old: Menu, kill: Kill, config: &Config, r: Result<(), MenuError>) -> bool {
        let c = old.cursor as int;
        &&& self.wf()
        &&& match kill {
            Kill::Nothing => r is Ok && *self == old,
            Kill::ToEnd => {
                &&& self.items@ == old.items@
                &&& self.cursor == old.cursor
                &&& self.text@ == old.text@.take(c)
                &&& self.rematched(config, r)
                &&& self.line_changed(old)
                &&& r is Err ==> self.kept_matches(old)
            },
            Kill::ToStart => {
                &&& self.items@ == old.items@
                &&& self.cursor == 0
                &&& self.text@ == old.text@.take(0) + old.text@.skip(c)
                &&& self.rematched(config, r)
                &&& self.line_changed(old)
                &&& r is Err ==> self.kept_matches(old)
            },
            Kill::Word => {
                &&& self.items@ == old.items@
                &&& r is Ok ==> self.cursor == word_start(old.text@, config.word_delimeter@, c)
                &&& r is Ok ==> self.text@ == old.text@.take(self.cursor as int) + old.text@.skip(c)
                &&& r is Ok && self.cursor == old.cursor ==> *self == old
                &&& self.cursor != old.cursor || r is Err ==> self.rematched(config, r)
                &&& self.line_changed(old)
            },
        }
    }

    /// `self` is `old` after a key press that asked for `cmd`.
    pub open spec fn key_done(
        &self,
        old: Menu,
        cmd: KeyCommand,
        lead: u8,
        typed: Seq<u8>,
        config: &Config,
        r: Result<KeyAction, MenuError>,
    ) -> bool {
        match cmd {
            KeyCommand::Ignore => r == Ok::<KeyAction, MenuError>(KeyAction::Ignore) && *self == old,
            KeyCommand::RequestPaste { clipboard } => r == Ok::<KeyAction, MenuError>(
                KeyAction::Paste { clipboard },
            ) && *self == old,
            KeyCommand::WordLeft => r == Ok::<KeyAction, MenuError>(KeyAction::Redraw) && *self == (Menu {
                cursor: word_start(old.text@, config.word_delimeter@, old.cursor as int) as usize,
                ..old
            }),
            KeyCommand::WordRight => r == Ok::<KeyAction, MenuError>(KeyAction::Redraw) && *self == (Menu {
                cursor: word_end(old.text@, config.word_delimeter@, old.cursor as int) as usize,
                ..old
            }),
            KeyCommand::Quit => r == Ok::<KeyAction, MenuError>(KeyAction::Exit(1)) && *self == old,
            KeyCommand::Act { kill, nav, state } => exists|mid: Menu, kr: Result<(), MenuError>|
                #![trigger mid.killed(old, kill, config, kr)]
                {
                    &&& mid.killed(old, kill, config, kr)
                    &&& kr matches Err(e) ==> r == Err::<KeyAction, MenuError>(e) && *self == mid
                    &&& kr is Ok ==> self.nav_done(mid, nav, state, lead, typed, config, r)
                },
        }
    }

    /// Handles a key press: `ksym` and `state` are the key symbol and the
    /// modifiers, `status` says what the lookup found, `lead` is the first
    /// byte of the characters the key produced and `typed` all of them.
    pub fn keypress(
        &mut self,
        ksym: u64,
        state: u32,
        status: i32,
        lead: u8,
        typed: &[u8],
        config: &Config,
    ) -> (r: Result<KeyAction, MenuError>)
        requires
            old(self).wf(),
        ensures
            final(self).wf(),
            final(self).key_done(*old(self), key_command(ksym, state, status), lead, typed@, config, r),
    {
        match command_of_key(ksym, state, status) {
            KeyCommand::Ignore => Ok(KeyAction::Ignore),
            KeyCommand::RequestPaste { clipboard } => Ok(KeyAction::Paste { clipboard }),
            KeyCommand::WordLeft => {
                self.move_word_edge(-1, config);
                Ok(KeyAction::Redraw)
            },
            KeyCommand::WordRight => {
                self.move_word_edge(1, config);
                Ok(KeyAction::Redraw)
            },
            KeyCommand::Quit => Ok(KeyAction::Exit(1)),
            KeyCommand::Act { kill, nav, state } => {
                let ghost k = kill;
                let kr = match kill {
                    Kill::Nothing => Ok(()),
                    Kill::ToEnd => self.kill_to_end(config),
                    Kill::ToStart => {
                        proof {
                            is_char_boundary_start_end_of_seq(self.text@);
                        }
                        self.delete_before_cursor(self.cursor, config)
                    },
                    Kill::Word => self.delete_word(config),
                };
                proof {
                    if k is ToStart {
                        assert(self.text@.take(0) + self.text@ == self.text@);
                    }
                    assert(self.killed(*old(self), k, config, kr));
                }
                let ghost mid = *self;
                match kr {
                    Err(e) => Err(e),
                    Ok(()) => {
                        let res = self.apply_nav(nav, state, lead, typed, config);
                        assert(self.nav_done(mid, nav, state, lead, typed@, config, res));
                        res
                    },
                }
            },
        }
    }
}

/// One step back from one step forward is where it started.
pub proof fn lemma_prev_of_next(text: Seq<u8>, c: int)
    requires
        valid_utf8(text),
        0 <= c < text.len(),
        is_char_boundary(text, c),
    ensures
        prev_pos(text, next_pos(text, c)) == c,
{
    crate::line::lemma_next_pos_boundary(text, c);
    let n = next_pos(text, c);
    crate::line::lemma_prev_pos_boundary(text, n);
}

} // verus!
