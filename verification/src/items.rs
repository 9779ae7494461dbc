//! The items: the lines read from standard input, and their measures.

use vstd::prelude::*;
use vstd::utf8::*;
use crate::strings::{find, find_bytes, lemma_find_from, from_utf8_lossy, utf8_lossy};
use crate::menu::{Item, Menu, views};

verus! {

/// The lines of `s`: the pieces between newlines, without the newlines; a
/// last piece without a newline is a line too, an empty input has none.
pub open spec fn lines_of(s: Seq<u8>) -> Seq<Seq<u8>>
    decreases s.len(),
{
    if s.len() == 0 {
        seq![]
    } else {
        match find(s, seq![10u8]) {
            Some(p) => {
                proof {
                    lemma_find_from(s, seq![10u8], 0);
                }
                seq![s.take(p)] + lines_of(s.skip(p + 1))
            },
            None => seq![s],
        }
    }
}

/// The item texts of an input: its lines as UTF-8, invalid sequences
/// replaced.
pub open spec fn item_texts(s: Seq<u8>) -> Seq<Seq<u8>> {
    lines_of(s).map_values(|l: Seq<u8>| utf8_lossy(l))
}

/// Splits the input into item texts.
pub fn split_items(input: &[u8]) -> (r: Vec<Vec<u8>>)
    ensures
        views(r@) == item_texts(input@),
        forall|i: int| 0 <= i < r@.len() ==> valid_utf8(#[trigger] r@[i]@) && r@[i]@.len() <= isize::MAX,
{
    let mut r: Vec<Vec<u8>> = Vec::new();
    let mut rest: &[u8] = input;
    let nl = [10u8];
    assert(nl@ =~= seq![10u8]);
    while rest.len() > 0
        invariant
            nl@ == seq![10u8],
            views(r@) + item_texts(rest@) == item_texts(input@),
            forall|i: int| 0 <= i < r@.len() ==> valid_utf8(#[trigger] r@[i]@) && r@[i]@.len() <= isize::MAX,
        decreases rest@.len(),
    {
        let ghost old_r = r@;
        let ghost old_rest = rest@;
        match find_bytes(rest, &nl) {
            Some(p) => {
                proof {
                    lemma_find_from(rest@, seq![10u8], 0);
                }
                let line = from_utf8_lossy(&rest[0..p]);
                r.push(line);
                rest = &rest[p + 1..rest.len()];
                proof {
                    assert(old_rest.subrange(0, p as int) =~= old_rest.take(p as int));
                    assert(old_rest.subrange(p + 1, old_rest.len() as int) =~= old_rest.skip(p + 1));
                    assert(lines_of(old_rest) == seq![old_rest.take(p as int)] + lines_of(rest@));
                    assert(item_texts(old_rest) =~= seq![utf8_lossy(old_rest.take(p as int))] + item_texts(rest@));
                    assert(views(r@) =~= views(old_r) + seq![line@]);
                }
            },
            None => {
                let line = from_utf8_lossy(rest);
                r.push(line);
                rest = &rest[0..0];
                proof {
                    assert(lines_of(old_rest) == seq![old_rest]);
                    assert(item_texts(old_rest) =~= seq![utf8_lossy(old_rest)]);
                    assert(views(r@) =~= views(old_r) + seq![line@]);
                    assert(item_texts(rest@) =~= Seq::<Seq<u8>>::empty());
                }
            },
        }
    }
    assert(item_texts(rest@) =~= Seq::<Seq<u8>>::empty());
    assert(views(r@) + item_texts(rest@) =~= views(r@));
    r
}

/// The number of list lines: at most one per item (the count taken as a
/// `u32`).
pub fn clamp_lines(lines: u32, n_items: usize) -> (r: u32)
    ensures
        r == (if lines <= n_items as u32 {
            lines
        } else {
            n_items as u32
        }),
{
    let n = n_items as u32;
    if lines <= n {
        lines
    } else {
        n
    }
}

impl Menu {
    /// A menu over the lines of `input`, with an empty input line, no
    /// matches and no measures yet.
    pub fn from_input(input: &[u8]) -> (m: Menu)
        ensures
            m.wf(),
            m.items@.len() == item_texts(input@).len(),
            forall|i: int| 0 <= i < m.items@.len() ==> (#[trigger] m.items@[i]).text@ == item_texts(input@)[i]
                && !m.items@[i].out && m.items@[i].width == 0 && m.items@[i].clamped_width == 0,
            m.bh == 0 && m.mw == 0 && m.promptw == 0 && m.inputw == 0 && m.larrow_w == 0 && m.rarrow_w == 0,
            m.text@.len() == 0,
            m.cursor == 0,
            m.matches@.len() == 0,
            m.curr is None && m.next is None && m.prev is None && m.sel is None,
    {
        let texts = split_items(input);
        let mut items: Vec<Item> = Vec::new();
        let mut i: usize = 0;
        while i < texts.len()
            invariant
                i <= texts@.len(),
                items@.len() == i,
                views(texts@) == item_texts(input@),
                forall|j: int| 0 <= j < texts@.len() ==> valid_utf8(#[trigger] texts@[j]@) && texts@[j]@.len()
                    <= isize::MAX,
                forall|j: int| 0 <= j < i ==> (#[trigger] items@[j]).text@ == texts@[j]@ && !items@[j].out
                    && items@[j].width == 0 && items@[j].clamped_width == 0,
            decreases texts@.len() - i,
        {
            let t = crate::menu::copy_bytes(texts[i].as_slice());
            items.push(Item { text: t, out: false, width: 0, clamped_width: 0 });
            i = i + 1;
        }
        let m = Menu {
            text: Vec::new(),
            cursor: 0,
            items,
            matches: Vec::new(),
            curr: None,
            next: None,
            prev: None,
            sel: None,
            bh: 0,
            mw: 0,
            promptw: 0,
            inputw: 0,
            larrow_w: 0,
            rarrow_w: 0,
        };
        proof {
            assert(m.text@ =~= Seq::<u8>::empty());
            is_char_boundary_start_end_of_seq(m.text@);
            assert forall|k: int| 0 <= k < m.items@.len() implies valid_utf8(#[trigger] m.items@[k].text@) by {
                assert(m.items@[k].text@ == texts@[k]@);
            }
            assert forall|k: int| 0 <= k < m.items@.len() implies (#[trigger] m.items@[k]).text@.len()
                <= isize::MAX by {
                assert(m.items@[k].text@ == texts@[k]@);
            }
            assert forall|k: int| 0 <= k < m.items@.len() implies (#[trigger] m.items@[k]).text@ == item_texts(
                input@,
            )[k] && !m.items@[k].out && m.items@[k].width == 0 && m.items@[k].clamped_width == 0 by {
                assert(views(texts@)[k] == texts@[k]@);
            }
        }
        m
    }

    /// Records the measures of the window and the items: line height,
    /// window, prompt and input widths, the arrows, and per item its full
    /// and its page-clamped width.
    pub fn set_measures(
        &mut self,
        bh: i32,
        mw: i32,
        promptw: i32,
        inputw: i32,
        larrow_w: u32,
        rarrow_w: u32,
        widths: &[u32],
        clamped: &[u32],
    )
        requires
            old(self).wf(),
            widths@.len() == old(self).items@.len(),
            clamped@.len() == old(self).items@.len(),
        ensures
            final(self).wf(),
            final(self).items@.len() == old(self).items@.len(),
            forall|i: int| 0 <= i < old(self).items@.len() ==> #[trigger] final(self).items@[i] == (Item {
                width: widths@[i],
                clamped_width: clamped@[i],
                ..old(self).items@[i]
            }),
            *final(self) == (Menu {
                items: final(self).items,
                bh,
                mw,
                promptw,
                inputw,
                larrow_w,
                rarrow_w,
                ..*old(self)
            }),
    {
        let mut i: usize = 0;
        while i < self.items.len()
            invariant
                i <= self.items@.len(),
                self.items@.len() == old(self).items@.len(),
                widths@.len() == old(self).items@.len(),
                clamped@.len() == old(self).items@.len(),
                forall|j: int| 0 <= j < i ==> #[trigger] self.items@[j] == (Item {
                    width: widths@[j],
                    clamped_width: clamped@[j],
                    ..old(self).items@[j]
                }),
                forall|j: int| i <= j < self.items@.len() ==> #[trigger] self.items@[j] == old(self).items@[j],
                *self == (Menu { items: self.items, ..*old(self) }),
            decreases self.items@.len() - i,
        {
            let mut it = Item { text: Vec::new(), out: false, width: 0, clamped_width: 0 };
            self.items.set_and_swap(i, &mut it);
            it.width = widths[i];
            it.clamped_width = clamped[i];
            self.items.set_and_swap(i, &mut it);
            i = i + 1;
        }
        self.bh = bh;
        self.mw = mw;
        self.promptw = promptw;
        self.inputw = inputw;
        self.larrow_w = larrow_w;
        self.rarrow_w = rarrow_w;
        assert forall|k: int| 0 <= k < self.items@.len() implies valid_utf8(#[trigger] self.items@[k].text@)
            && self.items@[k].text@.len() <= isize::MAX by {
            assert(self.items@[k].text@ == old(self).items@[k].text@);
        }
    }
}

} // verus!
