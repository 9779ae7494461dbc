//! The menu state: the input line, the items read at start, the items that
//! match the input and the page of matches on screen.

use vstd::prelude::*;
use vstd::utf8::*;
use crate::strings::{find, ci_find, ci_position_fits, same_prefix, same_prefix_ignore_case, eq_ignore_ascii_case, strstr, cistrstr_checked, strncmp, strncasecmp};
use crate::config::Config;

verus! {

/// The byte that separates the words of the input.
pub open spec fn is_space(b: u8) -> bool {
    b == 32
}

/// Length of the run of non-space bytes at the start of `s`.
pub open spec fn word_len(s: Seq<u8>) -> nat
    decreases s.len(),
{
    if s.len() == 0 || is_space(s[0]) {
        0
    } else {
        1 + word_len(s.drop_first())
    }
}

/// A word is no longer than the string, and non-empty when the string
/// starts with a non-space.
pub proof fn lemma_word_len_bound(s: Seq<u8>)
    ensures
        word_len(s) <= s.len(),
        s.len() > 0 && !is_space(s[0]) ==> word_len(s) >= 1,
    decreases s.len(),
{
    if s.len() > 0 && !is_space(s[0]) {
        lemma_word_len_bound(s.drop_first());
    }
}

/// The words of `s`: the maximal runs of non-space bytes, in order.  This is
/// what splitting at every space and dropping the empty pieces gives.
pub open spec fn tokens(s: Seq<u8>) -> Seq<Seq<u8>>
    decreases s.len(),
{
    if s.len() == 0 {
        seq![]
    } else if is_space(s[0]) {
        tokens(s.drop_first())
    } else {
        proof {
            lemma_word_len_bound(s);
        }
        seq![s.take(word_len(s) as int)] + tokens(s.skip(word_len(s) as int))
    }
}

proof fn lemma_word_len_exact(t: Seq<u8>, k: int)
    requires
        0 <= k <= t.len(),
        forall|m: int| 0 <= m < k ==> !is_space(#[trigger] t[m]),
        k == t.len() || is_space(t[k]),
    ensures
        word_len(t) == k,
    decreases k,
{
    if k > 0 {
        lemma_word_len_exact(t.drop_first(), k - 1);
    }
}

/// A copy of a byte string.
pub fn copy_bytes(s: &[u8]) -> (r: Vec<u8>)
    ensures
        r@ == s@,
{
    let mut r: Vec<u8> = Vec::new();
    let mut i: usize = 0;
    while i < s.len()
        invariant
            i <= s@.len(),
            r@ == s@.subrange(0, i as int),
        decreases s@.len() - i,
    {
        r.push(s[i]);
        i = i + 1;
        assert(r@ =~= s@.subrange(0, i as int));
    }
    assert(r@ =~= s@);
    r
}

/// The views of a list of byte strings.
pub open spec fn views(v: Seq<Vec<u8>>) -> Seq<Seq<u8>> {
    v.map_values(|w: Vec<u8>| w@)
}

/// Splits `s` into its words (see `tokens`).
pub fn tokenize(s: &[u8]) -> (r: Vec<Vec<u8>>)
    ensures
        views(r@) == tokens(s@),
{
    let mut r: Vec<Vec<u8>> = Vec::new();
    let mut i: usize = 0;
    assert(s@.skip(0) =~= s@);
    while i < s.len()
        invariant
            i <= s@.len(),
            views(r@) + tokens(s@.skip(i as int)) == tokens(s@),
        decreases s@.len() - i,
    {
        if s[i] == 32 {
            assert(s@.skip(i as int).drop_first() =~= s@.skip(i + 1));
            i = i + 1;
        } else {
            let start = i;
            let mut j = i;
            while j < s.len() && s[j] != 32
                invariant
                    start <= j <= s@.len(),
                    forall|m: int| start <= m < j ==> !is_space(#[trigger] s@[m]),
                decreases s@.len() - j,
            {
                j = j + 1;
            }
            let ghost t = s@.skip(start as int);
            proof {
                assert forall|m: int| 0 <= m < j - start implies !is_space(#[trigger] t[m]) by {
                    assert(t[m] == s@[start + m]);
                }
                lemma_word_len_exact(t, j - start);
            }
            let w = copy_bytes(&s[start..j]);
            let ghost old_r = r@;
            r.push(w);
            assert(t.take(j - start) =~= s@.subrange(start as int, j as int));
            assert(t.skip(j - start) =~= s@.skip(j as int));
            assert(views(r@) =~= views(old_r) + seq![w@]);
            assert(views(r@) + tokens(s@.skip(j as int)) =~= views(old_r) + tokens(t));
            i = j;
        }
    }
    assert(s@.skip(i as int) =~= Seq::<u8>::empty());
    assert(views(r@) + tokens(s@.skip(i as int)) =~= views(r@));
    r
}

/// The words of a valid UTF-8 string are valid UTF-8.
pub proof fn lemma_tokens_valid(s: Seq<u8>)
    requires
        valid_utf8(s),
    ensures
        forall|i: int| 0 <= i < tokens(s).len() ==> valid_utf8(#[trigger] tokens(s)[i]),
    decreases s.len(),
{
    if s.len() == 0 {
    } else if is_space(s[0]) {
        assert(is_char_boundary(s, 1)) by {
            reveal_with_fuel(is_char_boundary, 2);
        }
        valid_utf8_split(s, 1);
        assert(s.subrange(1, s.len() as int) =~= s.drop_first());
        lemma_tokens_valid(s.drop_first());
        assert(tokens(s) == tokens(s.drop_first()));
    } else {
        lemma_word_len_bound(s);
        let w = word_len(s) as int;
        assert(is_char_boundary(s, w)) by {
            if w < s.len() {
                lemma_word_len_stops(s);
                is_char_boundary_iff_not_is_continuation_byte(s, w);
            } else {
                is_char_boundary_start_end_of_seq(s);
            }
        }
        valid_utf8_split(s, w);
        assert(s.subrange(0, w) =~= s.take(w));
        assert(s.subrange(w, s.len() as int) =~= s.skip(w));
        lemma_tokens_valid(s.skip(w));
        let t = tokens(s);
        assert(t == seq![s.take(w)] + tokens(s.skip(w)));
        assert forall|i: int| 0 <= i < t.len() implies valid_utf8(#[trigger] t[i]) by {
            if i > 0 {
                assert(t[i] == tokens(s.skip(w))[i - 1]);
            }
        }
    }
}

/// A word ends at a space or at the end of the string.
pub proof fn lemma_word_len_stops(s: Seq<u8>)
    ensures
        word_len(s) < s.len() ==> is_space(s[word_len(s) as int]),
    decreases s.len(),
{
    if s.len() > 0 && !is_space(s[0]) {
        lemma_word_len_stops(s.drop_first());
    }
}

/// One line read from standard input, with the widths the drawing measured
/// for it.
pub struct Item {
    /// The text, valid UTF-8.
    pub text: Vec<u8>,
    /// Already output (chosen with Control held).
    pub out: bool,
    /// Full width of the text with padding.
    pub width: u32,
    /// Width of the text with padding, clamped to the page width.
    pub clamped_width: u32,
}

/// Why an edit of the menu could not be completed.
#[derive(Debug)]
pub enum MenuError {
    /// A case-insensitive search landed inside a character of this item,
    /// where the item cannot be cut.
    NotCharBoundary { item: usize },
    /// The input line would outgrow the largest possible allocation.
    CapacityOverflow,
}

/// The menu: input line, items, matches and the visible page.
pub struct Menu {
    /// The input line, valid UTF-8.
    pub text: Vec<u8>,
    /// Byte offset of the cursor in `text`, on a character boundary.
    pub cursor: usize,
    /// All items, in input order.
    pub items: Vec<Item>,
    /// Indices into `items` of the items that match the input.
    pub matches: Vec<usize>,
    /// Position in `matches` of the first item on the page.
    pub curr: Option<usize>,
    /// Position in `matches` of the first item after the page.
    pub next: Option<usize>,
    /// Position in `matches` of the first item of the page before.
    pub prev: Option<usize>,
    /// Position in `matches` of the selected item.
    pub sel: Option<usize>,
    /// Height of a line of the bar.
    pub bh: i32,
    /// Width of the menu window.
    pub mw: i32,
    /// Width of the prompt.
    pub promptw: i32,
    /// Width of the input field.
    pub inputw: i32,
    /// Width of the left arrow `<`.
    pub larrow_w: u32,
    /// Width of the right arrow `>`.
    pub rarrow_w: u32,
}

/// A position into a list of the given length.
pub open spec fn pos_in(p: Option<usize>, len: int) -> bool {
    p matches Some(i) ==> i < len
}

/// Prefix comparison, case-sensitive or not.
pub open spec fn prefix_match(a: Seq<u8>, b: Seq<u8>, n: usize, ci: bool) -> bool {
    if ci {
        same_prefix_ignore_case(a, b, n)
    } else {
        same_prefix(a, b, n)
    }
}

/// `tok` occurs in `item`, case-sensitive or not.
pub open spec fn found(item: Seq<u8>, tok: Seq<u8>, ci: bool) -> bool {
    if ci {
        ci_find(item, tok) is Some
    } else {
        find(item, tok) is Some
    }
}

/// Every word of the input occurs in the item.
pub open spec fn has_all_tokens(item: Seq<u8>, toks: Seq<Seq<u8>>, ci: bool) -> bool {
    forall|i: int| 0 <= i < toks.len() ==> #[trigger] found(item, toks[i], ci)
}

/// The words are searched in order until one is missing; `None` where a
/// case-insensitive search lands off a character boundary of the item.
pub open spec fn scan_tokens(item: Seq<u8>, toks: Seq<Seq<u8>>, ci: bool, i: int) -> Option<bool>
    decreases toks.len() - i,
{
    if i < 0 || i >= toks.len() {
        Some(true)
    } else if ci && !ci_position_fits(item, toks[i]) {
        None
    } else if !found(item, toks[i], ci) {
        Some(false)
    } else {
        scan_tokens(item, toks, ci, i + 1)
    }
}

/// The item is the input itself (up to ASCII case when `ci`).
pub open spec fn exact_match(text: Seq<u8>, item: Seq<u8>, ci: bool) -> bool {
    if ci {
        eq_ignore_ascii_case(text, item)
    } else {
        text == item
    }
}

/// How an item matches the input: 0 not at all, 1 exactly (it is the
/// input, or there are no words), 2 by the first word as a prefix, 3 as a
/// substring.
pub open spec fn rank(item: Seq<u8>, text: Seq<u8>, ci: bool) -> int {
    let toks = tokens(text);
    if !has_all_tokens(item, toks, ci) {
        0
    } else if toks.len() == 0 || exact_match(text, item, ci) {
        1
    } else if prefix_match(toks[0], item, toks[0].len() as usize, ci) {
        2
    } else {
        3
    }
}

/// Indices, in order, of the first `n` items that have the given rank.
pub open spec fn items_of_rank(items: Seq<Item>, text: Seq<u8>, ci: bool, r: int, n: int) -> Seq<usize>
    decreases n,
{
    if n <= 0 {
        seq![]
    } else if rank(items[n - 1].text@, text, ci) == r {
        items_of_rank(items, text, ci, r, n - 1).push((n - 1) as usize)
    } else {
        items_of_rank(items, text, ci, r, n - 1)
    }
}

/// The matches of the input: exact matches first, then prefix matches,
/// then substring matches, each group in input order.
pub open spec fn matches_of(items: Seq<Item>, text: Seq<u8>, ci: bool) -> Seq<usize> {
    let n = items.len() as int;
    items_of_rank(items, text, ci, 1, n) + items_of_rank(items, text, ci, 2, n)
        + items_of_rank(items, text, ci, 3, n)
}

/// Some item's case-insensitive search lands off a character boundary.
pub open spec fn search_breaks(items: Seq<Item>, text: Seq<u8>, ci: bool) -> bool {
    exists|k: int| 0 <= k < items.len() && #[trigger] scan_tokens(items[k].text@, tokens(text), ci, 0) is None
}

/// Item `k` is the first whose case-insensitive search lands inside a
/// character.
pub open spec fn first_break(items: Seq<Item>, text: Seq<u8>, ci: bool, k: int) -> bool {
    &&& 0 <= k < items.len()
    &&& scan_tokens(items[k].text@, tokens(text), ci, 0) is None
    &&& forall|j: int| 0 <= j < k ==> #[trigger] scan_tokens(items[j].text@, tokens(text), ci, 0) is Some
}

/// What `scan_tokens` yields when it yields a verdict.
pub proof fn lemma_scan_tokens(item: Seq<u8>, toks: Seq<Seq<u8>>, ci: bool, i: int)
    requires
        0 <= i <= toks.len(),
    ensures
        scan_tokens(item, toks, ci, i) matches Some(b) ==> (b <==> forall|j: int|
            i <= j < toks.len() ==> #[trigger] found(item, toks[j], ci)),
        !ci ==> scan_tokens(item, toks, ci, i) is Some,
    decreases toks.len() - i,
{
    if i < toks.len() {
        lemma_scan_tokens(item, toks, ci, i + 1);
    }
}

fn token_found(item: &[u8], tok: &[u8], ci: bool) -> (r: Option<bool>)
    requires
        valid_utf8(item@),
        valid_utf8(tok@),
    ensures
        r is None <==> (ci && !ci_position_fits(item@, tok@)),
        r matches Some(b) ==> b == found(item@, tok@, ci),
{
    if ci {
        match cistrstr_checked(item, tok) {
            None => None,
            Some(res) => Some(res.is_some()),
        }
    } else {
        Some(strstr(item, tok).is_some())
    }
}

/// Width (or, in a vertical list, height) of the match at position `pos`.
pub open spec fn match_width(items: Seq<Item>, matches: Seq<usize>, bh: i32, lines: u32, pos: int) -> int {
    if lines > 0 {
        bh as int
    } else {
        items[matches[pos] as int].clamped_width as int
    }
}

/// Total width of the matches at positions `a` up to `b` (excluded).
pub open spec fn span_of(items: Seq<Item>, matches: Seq<usize>, bh: i32, lines: u32, a: int, b: int) -> int
    decreases b - a,
{
    if b <= a {
        0
    } else {
        span_of(items, matches, bh, lines, a, b - 1) + match_width(items, matches, bh, lines, b - 1)
    }
}

fn prefix_eq(a: &[u8], b: &[u8], n: usize, ci: bool) -> (r: bool)
    ensures
        r == prefix_match(a@, b@, n, ci),
{
    if ci {
        strncasecmp(a, b, n)
    } else {
        strncmp(a, b, n)
    }
}

impl Menu {
    /// The contents are well formed: the input is valid UTF-8 with the
    /// cursor on a character boundary, items are valid UTF-8, matches and
    /// positions are in range.
    pub open spec fn wf_core(&self) -> bool {
        &&& valid_utf8(self.text@)
        &&& self.text@.len() <= isize::MAX
        &&& is_char_boundary(self.text@, self.cursor as int)
        &&& forall|k: int| 0 <= k < self.items@.len() ==> valid_utf8(#[trigger] self.items@[k].text@)
        &&& forall|k: int| 0 <= k < self.items@.len() ==> (#[trigger] self.items@[k]).text@.len() <= isize::MAX
        &&& forall|i: int| 0 <= i < self.matches@.len() ==> #[trigger] self.matches@[i] < self.items@.len()
        &&& pos_in(self.curr, self.matches@.len() as int)
        &&& pos_in(self.next, self.matches@.len() as int)
        &&& pos_in(self.prev, self.matches@.len() as int)
        &&& pos_in(self.sel, self.matches@.len() as int)
    }

    /// No item is listed twice among the matches.
    pub open spec fn distinct_matches(&self) -> bool {
        forall|i: int, j: int|
            0 <= i < j < self.matches@.len() ==> #[trigger] self.matches@[i] != #[trigger] self.matches@[j]
    }

    /// The page, the selection and the page before are absent exactly when
    /// nothing matches, and so is the page after then.
    pub open spec fn positions_agree(&self) -> bool {
        &&& (self.curr is None <==> self.matches@.len() == 0)
        &&& (self.sel is None <==> self.matches@.len() == 0)
        &&& (self.prev is None <==> self.matches@.len() == 0)
        &&& (self.matches@.len() == 0 ==> self.next is None)
    }

    /// The state is well formed: the contents are, no item matches twice,
    /// and the positions are absent exactly when nothing matches.
    pub open spec fn wf(&self) -> bool {
        &&& self.wf_core()
        &&& self.distinct_matches()
        &&& self.positions_agree()
    }

    /// The matches are those of the input, with the selection and the page
    /// at the first match and the pages around it computed.
    pub open spec fn matched(&self, config: &Config) -> bool {
        &&& self.matches@ == matches_of(self.items@, self.text@, config.case_insensitive)
        &&& self.curr == (if self.matches@.len() > 0 {
            Some(0usize)
        } else {
            None
        })
        &&& self.sel == self.curr
        &&& self.offsets_fit(config.lines)
    }

    /// The outcome of re-matching after an edit: the matches of the new
    /// input, or the failure of a case-insensitive search.
    pub open spec fn rematched(&self, config: &Config, r: Result<(), MenuError>) -> bool {
        match r {
            Ok(_) => self.matched(config),
            Err(MenuError::NotCharBoundary { item }) => first_break(
                self.items@,
                self.text@,
                config.case_insensitive,
                item as int,
            ),
            Err(MenuError::CapacityOverflow) => false,
        }
    }

    /// Only the input line, the cursor, the matches, the page and the
    /// selection differ from `old`.
    pub open spec fn line_changed(&self, old: Menu) -> bool {
        *self == (Menu {
            text: self.text,
            cursor: self.cursor,
            matches: self.matches,
            curr: self.curr,
            next: self.next,
            prev: self.prev,
            sel: self.sel,
            ..old
        })
    }

    /// The matches, the page and the selection are those of `old`.
    pub open spec fn kept_matches(&self, old: Menu) -> bool {
        &&& self.matches == old.matches
        &&& self.curr == old.curr
        &&& self.next == old.next
        &&& self.prev == old.prev
        &&& self.sel == old.sel
    }

    /// Width (or, in a vertical list, height) that the match at position
    /// `pos` takes on a page.
    #[verifier::inline]
    pub open spec fn width_at(&self, lines: u32, pos: int) -> int {
        match_width(self.items@, self.matches@, self.bh, lines, pos)
    }

    /// Total width of the matches at positions `a` up to `b` (excluded).
    #[verifier::inline]
    pub open spec fn span(&self, lines: u32, a: int, b: int) -> int {
        span_of(self.items@, self.matches@, self.bh, lines, a, b)
    }

    /// The room a page has: the height of the list, or the width of the bar
    /// less the prompt, the input field and both arrows.
    pub open spec fn page_room(&self, lines: u32) -> int {
        if lines > 0 {
            lines * self.bh
        } else {
            self.mw - (self.promptw + self.inputw + self.larrow_w + self.rarrow_w)
        }
    }

    /// `next` is the first position from `c` at which the page overflows,
    /// or `None` when the rest of the matches fit.
    pub open spec fn next_fits(&self, lines: u32, c: int, next: Option<usize>) -> bool {
        let room = self.page_room(lines);
        match next {
            Some(p) => {
                &&& c <= p < self.matches@.len()
                &&& self.span(lines, c, p + 1) > room
                &&& forall|j: int| c <= j < p ==> #[trigger] self.span(lines, c, j + 1) <= room
            },
            None => forall|j: int| c <= j < self.matches@.len() ==> #[trigger] self.span(lines, c, j + 1) <= room,
        }
    }

    /// `prev` is the lowest position whose page ends right before `c`:
    /// every page from it up to `c` fits and one more match would not.
    pub open spec fn prev_fits(&self, lines: u32, c: int, prev: Option<usize>) -> bool {
        let room = self.page_room(lines);
        match prev {
            Some(q) => {
                &&& q <= c
                &&& forall|j: int| q <= j < c ==> #[trigger] self.span(lines, j, c) <= room
                &&& (q == 0 || self.span(lines, q - 1, c) > room)
            },
            None => false,
        }
    }

    /// `next` and `prev` are those of the page that starts at `curr`.
    pub open spec fn offsets_fit(&self, lines: u32) -> bool {
        match self.curr {
            None => self.next is None && self.prev is None,
            Some(c) => self.next_fits(lines, c as int, self.next) && self.prev_fits(lines, c as int, self.prev),
        }
    }

    proof fn lemma_span_front(&self, lines: u32, a: int, b: int)
        requires
            a < b,
        ensures
            self.span(lines, a, b) == self.width_at(lines, a) + self.span(lines, a + 1, b),
        decreases b - a,
    {
        if a + 1 < b {
            self.lemma_span_front(lines, a, b - 1);
            assert(self.span(lines, a + 1, b) == self.span(lines, a + 1, b - 1) + self.width_at(lines, b - 1));
        } else {
            assert(self.span(lines, a, a) == 0);
            assert(self.span(lines, a + 1, b) == 0);
        }
    }

    proof fn lemma_span_bounds(&self, lines: u32, a: int, b: int)
        requires
            a <= b,
        ensures
            self.span(lines, a, b) >= (b - a) * (-2147483648int),
        decreases b - a,
    {
        if a < b {
            self.lemma_span_bounds(lines, a, b - 1);
            assert(self.width_at(lines, b - 1) >= -2147483648int);
        }
    }

    fn width_of(&self, lines: u32, pos: usize) -> (r: i128)
        requires
            self.wf_core(),
            pos < self.matches@.len(),
        ensures
            r == self.width_at(lines, pos as int),
    {
        if lines > 0 {
            self.bh as i128
        } else {
            self.items[self.matches[pos]].clamped_width as i128
        }
    }

    fn room(&self, lines: u32) -> (r: i128)
        ensures
            r == self.page_room(lines),
            -18446744073709551616int <= r <= 18446744073709551616int,
    {
        if lines > 0 {
            let l = lines as i128;
            let h = self.bh as i128;
            assert(-18446744073709551616int <= l * h <= 18446744073709551616int) by (nonlinear_arith)
                requires
                    0 <= l <= 4294967295int,
                    -2147483648int <= h <= 2147483647int,
            ;
            l * h
        } else {
            self.mw as i128 - (self.promptw as i128 + self.inputw as i128 + self.larrow_w as i128
                + self.rarrow_w as i128)
        }
    }

    fn scan_next(&self, lines: u32, c: usize) -> (r: Option<usize>)
        requires
            self.wf_core(),
            c < self.matches@.len(),
        ensures
            self.next_fits(lines, c as int, r),
    {
        let room = self.room(lines);
        let len = self.matches.len();
        let mut pos = c;
        let mut i: i128 = 0;
        loop
            invariant
                self.wf_core(),
                len == self.matches@.len(),
                c <= pos < len,
                room == self.page_room(lines),
                i == self.span(lines, c as int, pos as int),
                i >= (pos - c) * (-2147483648int),
                i <= room || pos == c,
                -18446744073709551616int <= room <= 18446744073709551616int,
                forall|j: int| c <= j < pos ==> #[trigger] self.span(lines, c as int, j + 1) <= room,
            decreases len - pos,
        {
            i = i + self.width_of(lines, pos);
            if i > room {
                return Some(pos);
            }
            if pos + 1 < len {
                pos = pos + 1;
            } else {
                return None;
            }
        }
    }

    fn scan_prev(&self, lines: u32, c: usize) -> (r: usize)
        requires
            self.wf_core(),
            c < self.matches@.len(),
        ensures
            self.prev_fits(lines, c as int, Some(r)),
    {
        let room = self.room(lines);
        let mut pos = c;
        let mut i: i128 = 0;
        loop
            invariant
                self.wf_core(),
                c < self.matches@.len(),
                pos <= c,
                room == self.page_room(lines),
                i == self.span(lines, pos as int, c as int),
                i >= (c - pos) * (-2147483648int),
                i <= room || pos == c,
                -18446744073709551616int <= room <= 18446744073709551616int,
                forall|j: int| pos <= j < c ==> #[trigger] self.span(lines, j, c as int) <= room,
            decreases pos,
        {
            if pos == 0 {
                return 0;
            }
            proof {
                self.lemma_span_front(lines, pos - 1, c as int);
            }
            i = i + self.width_of(lines, pos - 1);
            if i > room {
                return pos;
            }
            pos = pos - 1;
        }
    }

    /// Recomputes the pages around `curr`: `next` starts the page after it
    /// and `prev` the page before it.
    pub fn calcoffsets(&mut self, config: &Config)
        requires
            old(self).wf_core(),
            old(self).distinct_matches(),
            old(self).curr is None <==> old(self).matches@.len() == 0,
            old(self).sel is None <==> old(self).matches@.len() == 0,
        ensures
            final(self).wf(),
            final(self).offsets_fit(config.lines),
            *final(self) == (Menu { next: final(self).next, prev: final(self).prev, ..*old(self) }),
    {
        match self.curr {
            None => {
                self.next = None;
                self.prev = None;
            },
            Some(c) => {
                self.next = self.scan_next(config.lines, c);
                self.prev = Some(self.scan_prev(config.lines, c));
            },
        }
    }

    /// Recomputes the matches of the input and puts the selection and the
    /// page at the first match.  Fails, changing nothing, where a
    /// case-insensitive search lands inside a character of an item.
    pub fn mtch(&mut self, config: &Config) -> (r: Result<(), MenuError>)
        requires
            old(self).wf(),
        ensures
            final(self).wf(),
            r is Err <==> search_breaks(old(self).items@, old(self).text@, config.case_insensitive),
            r is Err ==> *final(self) == *old(self),
            r matches Err(e) ==> e is NotCharBoundary,
            r matches Err(MenuError::NotCharBoundary { item }) ==> first_break(
                old(self).items@,
                old(self).text@,
                config.case_insensitive,
                item as int,
            ),
            r is Ok ==> final(self).matched(config),
            r is Ok ==> *final(self) == (Menu {
                matches: final(self).matches,
                curr: final(self).curr,
                sel: final(self).sel,
                next: final(self).next,
                prev: final(self).prev,
                ..*old(self)
            }),
    {
        let ci = config.case_insensitive;
        let tokv = tokenize(self.text.as_slice());
        let ghost toks = tokens(self.text@);
        proof {
            lemma_tokens_valid(self.text@);
            assert forall|i: int| 0 <= i < tokv@.len() implies valid_utf8(#[trigger] tokv@[i]@) by {
                assert(tokv@[i]@ == toks[i]);
            }
        }
        let len0 = if tokv.len() > 0 {
            tokv[0].len()
        } else {
            0
        };
        let mut exact: Vec<usize> = Vec::new();
        let mut prefix: Vec<usize> = Vec::new();
        let mut substr: Vec<usize> = Vec::new();
        let n = self.items.len();
        let mut k: usize = 0;
        while k < n
            invariant
                self.wf(),
                *self == *old(self),
                ci == config.case_insensitive,
                n == self.items@.len(),
                k <= n,
                views(tokv@) == toks,
                toks == tokens(self.text@),
                forall|i: int| 0 <= i < tokv@.len() ==> valid_utf8(#[trigger] tokv@[i]@),
                tokv@.len() > 0 ==> len0 == tokv@[0]@.len(),
                exact@ == items_of_rank(self.items@, self.text@, ci, 1, k as int),
                prefix@ == items_of_rank(self.items@, self.text@, ci, 2, k as int),
                substr@ == items_of_rank(self.items@, self.text@, ci, 3, k as int),
                forall|i: int| 0 <= i < exact@.len() ==> #[trigger] exact@[i] < k,
                forall|i: int| 0 <= i < prefix@.len() ==> #[trigger] prefix@[i] < k,
                forall|i: int| 0 <= i < substr@.len() ==> #[trigger] substr@[i] < k,
                forall|j: int| 0 <= j < k ==> #[trigger] scan_tokens(self.items@[j].text@, toks, ci, 0) is Some,
            decreases n - k,
        {
            let ghost item_v = self.items@[k as int].text@;
            match self.scan_item(k, &tokv, ci) {
                None => {
                    assert(scan_tokens(self.items@[k as int].text@, tokens(self.text@), ci, 0) is None);
                    assert(search_breaks(old(self).items@, old(self).text@, config.case_insensitive));
                    return Err(MenuError::NotCharBoundary { item: k });
                },
                Some(all) => {
                    proof {
                        lemma_scan_tokens(item_v, toks, ci, 0);
                    }
                    if all {
                        let item = self.items[k].text.as_slice();
                        if tokv.len() == 0 || prefix_eq(self.text.as_slice(), item, self.text.len() + 1, ci) {
                            exact.push(k);
                        } else if prefix_eq(tokv[0].as_slice(), item, len0, ci) {
                            assert(toks[0] == tokv@[0]@);
                            prefix.push(k);
                        } else {
                            assert(toks[0] == tokv@[0]@);
                            substr.push(k);
                        }
                    }
                },
            }
            k = k + 1;
        }
        proof {
            assert forall|j: int| 0 <= j < self.items@.len() implies !(#[trigger] scan_tokens(
                self.items@[j].text@,
                tokens(self.text@),
                ci,
                0,
            ) is None) by {}
        }
        let ghost e = exact@;
        let ghost p = prefix@;
        let ghost q = substr@;
        exact.append(&mut prefix);
        exact.append(&mut substr);
        assert(exact@ =~= e + p + q);
        assert(exact@ == matches_of(self.items@, self.text@, ci));
        assert forall|i: int| 0 <= i < exact@.len() implies #[trigger] exact@[i] < n by {
            if i < e.len() {
                assert(exact@[i] == e[i]);
            } else if i < e.len() + p.len() {
                assert(exact@[i] == p[i - e.len()]);
            }
        }
        self.matches = exact;
        self.next = None;
        self.prev = None;
        if self.matches.len() > 0 {
            self.curr = Some(0);
        } else {
            self.curr = None;
        }
        self.sel = self.curr;
        proof {
            crate::laws::law_matches(self.items@, self.text@, ci);
        }
        self.calcoffsets(config);
        Ok(())
    }

    fn scan_item(&self, k: usize, toks: &Vec<Vec<u8>>, ci: bool) -> (r: Option<bool>)
        requires
            self.wf(),
            k < self.items@.len(),
            forall|i: int| 0 <= i < toks@.len() ==> valid_utf8(#[trigger] toks@[i]@),
        ensures
            r == scan_tokens(self.items@[k as int].text@, views(toks@), ci, 0),
    {
        let item = self.items[k].text.as_slice();
        let mut i: usize = 0;
        while i < toks.len()
            invariant
                i <= toks@.len(),
                item@ == self.items@[k as int].text@,
                valid_utf8(item@),
                forall|m: int| 0 <= m < toks@.len() ==> valid_utf8(#[trigger] toks@[m]@),
                scan_tokens(item@, views(toks@), ci, 0) == scan_tokens(item@, views(toks@), ci, i as int),
            decreases toks@.len() - i,
        {
            let tok = toks[i].as_slice();
            assert(views(toks@)[i as int] == tok@);
            match token_found(item, tok, ci) {
                None => {
                    return None;
                },
                Some(false) => {
                    return Some(false);
                },
                Some(true) => {},
            }
            i = i + 1;
        }
        Some(true)
    }
}

} // verus!
