//! Properties of the library as a whole, proved from the contracts.

use vstd::prelude::*;
use vstd::utf8::*;
use crate::strings::{same_prefix, same_prefix_ignore_case, eq_ignore_ascii_case, find, occurs_at, lemma_find_from};
use crate::menu::{Menu, MenuError, tokens, word_len, is_space, lemma_word_len_bound, lemma_word_len_stops, matches_of,
    items_of_rank, rank, has_all_tokens, Item};
use crate::line::{back_while, word_start, prev_pos, is_delim, lemma_prev_pos_boundary, lemma_char_boundary_le_len};
use crate::config::Config;
use crate::geometry::{NoMatches, slots};
use crate::paint::{Paint, Shown};
use crate::config::{SCHEME_NORM, SCHEME_OUT, SCHEME_SEL};
use crate::mouse::{ButtonAction, LOCK_MASK, NUM_LOCK_MASK};
use crate::keys::{KeyAction, Kill, Nav, KeyCommand, key_command, CONTROL_MASK, MOD1_MASK, X_LOOKUP_KEYSYM, X_LOOKUP_BOTH, XK_n, XK_p, XK_Left};

verus! {

/// Strings shorter than `n` compare equal only when they are equal.
pub proof fn law_short_strings_compare_whole(s1: Seq<u8>, s2: Seq<u8>, n: usize)
    requires
        s1.len() < n || s2.len() < n,
    ensures
        same_prefix(s1, s2, n) <==> s1 == s2,
        same_prefix_ignore_case(s1, s2, n) <==> eq_ignore_ascii_case(s1, s2),
{
}

/// Comparing is symmetric.
pub proof fn law_compare_symmetric(s1: Seq<u8>, s2: Seq<u8>, n: usize)
    ensures
        same_prefix(s1, s2, n) == same_prefix(s2, s1, n),
        same_prefix_ignore_case(s1, s2, n) == same_prefix_ignore_case(s2, s1, n),
{
}

/// What compares equal also compares equal ignoring case.
pub proof fn law_equal_implies_equal_ignoring_case(s1: Seq<u8>, s2: Seq<u8>, n: usize)
    requires
        same_prefix(s1, s2, n),
    ensures
        same_prefix_ignore_case(s1, s2, n),
{
    if s1.len() >= n && s2.len() >= n {
        assert forall|i: int| 0 <= i < s1.take(n as int).len() implies #[trigger] crate::strings::ascii_lower(
            s1.take(n as int)[i],
        ) == crate::strings::ascii_lower(s2.take(n as int)[i]) by {
            assert(s1.take(n as int)[i] == s2.take(n as int)[i]);
        }
    }
}

/// What the search finds is an occurrence of the needle, and no earlier
/// position holds one; when it finds nothing, the needle occurs nowhere.
pub proof fn law_find_first_occurrence(hay: Seq<u8>, needle: Seq<u8>)
    ensures
        find(hay, needle) matches Some(p) ==> occurs_at(hay, needle, p) && forall|q: int|
            0 <= q < p ==> !occurs_at(hay, needle, q),
        find(hay, needle) is None ==> forall|q: int| !occurs_at(hay, needle, q),
{
    lemma_find_from(hay, needle, 0);
}

/// The words of the input are non-empty and hold no space, and together
/// with the spaces they make up the input.
pub proof fn law_tokens_are_words(s: Seq<u8>)
    ensures
        forall|i: int| 0 <= i < tokens(s).len() ==> #[trigger] tokens(s)[i].len() > 0,
        forall|i: int, j: int|
            0 <= i < tokens(s).len() && 0 <= j < tokens(s)[i].len() ==> !is_space(#[trigger] tokens(s)[i][j]),
    decreases s.len(),
{
    if s.len() == 0 {
    } else if is_space(s[0]) {
        law_tokens_are_words(s.drop_first());
        assert(tokens(s) == tokens(s.drop_first()));
    } else {
        lemma_word_len_bound(s);
        let w = word_len(s) as int;
        law_tokens_are_words(s.skip(w));
        lemma_word_chars(s);
        let t = tokens(s);
        assert(t == seq![s.take(w)] + tokens(s.skip(w)));
        assert forall|i: int| 0 <= i < t.len() implies #[trigger] t[i].len() > 0 by {
            if i > 0 {
                assert(t[i] == tokens(s.skip(w))[i - 1]);
            }
        }
        assert forall|i: int, j: int| 0 <= i < t.len() && 0 <= j < t[i].len() implies !is_space(#[trigger] t[i][j]) by {
            if i > 0 {
                assert(t[i] == tokens(s.skip(w))[i - 1]);
            } else {
                assert(t[0][j] == s[j]);
            }
        }
    }
}

proof fn lemma_word_chars(s: Seq<u8>)
    ensures
        forall|j: int| 0 <= j < word_len(s) ==> !is_space(#[trigger] s[j]),
    decreases s.len(),
{
    if s.len() > 0 && !is_space(s[0]) {
        lemma_word_len_bound(s);
        lemma_word_chars(s.drop_first());
        assert forall|j: int| 0 <= j < word_len(s) implies !is_space(#[trigger] s[j]) by {
            if j > 0 {
                assert(s[j] == s.drop_first()[j - 1]);
            }
        }
    }
}

proof fn lemma_items_of_rank(items: Seq<Item>, text: Seq<u8>, ci: bool, r: int, n: int)
    requires
        0 <= n <= items.len(),
        n <= usize::MAX,
    ensures
        forall|i: int| 0 <= i < items_of_rank(items, text, ci, r, n).len() ==> {
            let k = #[trigger] items_of_rank(items, text, ci, r, n)[i];
            &&& k < n
            &&& rank(items[k as int].text@, text, ci) == r
        },
        forall|k: int| 0 <= k < n && rank(items[k].text@, text, ci) == r ==> #[trigger] items_of_rank(
            items,
            text,
            ci,
            r,
            n,
        ).contains(k as usize),
        forall|i: int, j: int|
            0 <= i < j < items_of_rank(items, text, ci, r, n).len() ==> #[trigger] items_of_rank(
                items,
                text,
                ci,
                r,
                n,
            )[i] < #[trigger] items_of_rank(items, text, ci, r, n)[j],
    decreases n,
{
    if n > 0 {
        lemma_items_of_rank(items, text, ci, r, n - 1);
        let prev = items_of_rank(items, text, ci, r, n - 1);
        let cur = items_of_rank(items, text, ci, r, n);
        if rank(items[n - 1].text@, text, ci) == r {
            let last = (n - 1) as usize;
            assert(cur == prev.push(last));
            assert forall|i: int| 0 <= i < cur.len() implies {
                let k = #[trigger] cur[i];
                &&& k < n
                &&& rank(items[k as int].text@, text, ci) == r
            } by {
                if i < prev.len() {
                    assert(cur[i] == prev[i]);
                }
            }
            assert forall|k: int| 0 <= k < n && rank(items[k].text@, text, ci) == r implies #[trigger] cur.contains(
                k as usize,
            ) by {
                if k < n - 1 {
                    assert(prev.contains(k as usize));
                    let i = choose|i: int| 0 <= i < prev.len() && prev[i] == k as usize;
                    assert(cur[i] == k as usize);
                } else {
                    assert(cur[prev.len() as int] == k as usize);
                }
            }
            assert forall|i: int, j: int| 0 <= i < j < cur.len() implies #[trigger] cur[i] < #[trigger] cur[j] by {
                assert(cur[i] == prev[i]);
                if j < prev.len() {
                    assert(cur[j] == prev[j]);
                    assert(prev[i] < prev[j]);
                } else {
                    assert(cur[j] == last);
                    assert(prev[i] < n - 1);
                }
            }
        } else {
            assert(cur == prev);
            assert forall|k: int| 0 <= k < n && rank(items[k].text@, text, ci) == r implies #[trigger] cur.contains(
                k as usize,
            ) by {
                assert(k < n - 1);
            }
        }
    }
}

/// An item is among the matches exactly when every word of the input
/// occurs in it; no item is listed twice; and exact matches come before
/// prefix matches, which come before substring matches.
pub proof fn law_matches(items: Seq<Item>, text: Seq<u8>, ci: bool)
    requires
        items.len() <= usize::MAX,
    ensures
        forall|k: int| 0 <= k < items.len() ==> (#[trigger] matches_of(items, text, ci).contains(k as usize)
            <==> has_all_tokens(items[k].text@, tokens(text), ci)),
        forall|i: int, j: int|
            0 <= i < j < matches_of(items, text, ci).len() ==> #[trigger] matches_of(items, text, ci)[i]
                != #[trigger] matches_of(items, text, ci)[j],
        forall|i: int, j: int|
            0 <= i < j < matches_of(items, text, ci).len() ==> rank(
                items[#[trigger] matches_of(items, text, ci)[i] as int].text@,
                text,
                ci,
            ) <= rank(items[#[trigger] matches_of(items, text, ci)[j] as int].text@, text, ci),
        forall|i: int| 0 <= i < matches_of(items, text, ci).len() ==> #[trigger] matches_of(items, text, ci)[i]
            < items.len(),
{
    let n = items.len() as int;
    lemma_items_of_rank(items, text, ci, 1, n);
    lemma_items_of_rank(items, text, ci, 2, n);
    lemma_items_of_rank(items, text, ci, 3, n);
    let a = items_of_rank(items, text, ci, 1, n);
    let b = items_of_rank(items, text, ci, 2, n);
    let c = items_of_rank(items, text, ci, 3, n);
    let m = matches_of(items, text, ci);
    assert(m == a + b + c);
    assert forall|i: int| 0 <= i < m.len() implies {
        &&& (i < a.len() ==> m[i] == a[i])
        &&& (a.len() <= i < a.len() + b.len() ==> m[i] == b[i - a.len()])
        &&& (a.len() + b.len() <= i ==> m[i] == c[i - a.len() - b.len()])
        &&& 1 <= #[trigger] rank(items[m[i] as int].text@, text, ci) <= 3
        &&& (i < a.len() ==> rank(items[m[i] as int].text@, text, ci) == 1)
        &&& (a.len() <= i < a.len() + b.len() ==> rank(items[m[i] as int].text@, text, ci) == 2)
        &&& (a.len() + b.len() <= i ==> rank(items[m[i] as int].text@, text, ci) == 3)
        &&& m[i] < n
    } by {
        if i < a.len() {
            assert(m[i] == a[i]);
        } else if i < a.len() + b.len() {
            assert(m[i] == b[i - a.len()]);
        } else {
            assert(m[i] == c[i - a.len() - b.len()]);
        }
    }
    assert forall|k: int| 0 <= k < items.len() implies (#[trigger] m.contains(k as usize) <==> has_all_tokens(
        items[k].text@,
        tokens(text),
        ci,
    )) by {
        let r = rank(items[k].text@, text, ci);
        if has_all_tokens(items[k].text@, tokens(text), ci) {
            if r == 1 {
                assert(a.contains(k as usize));
                let i = choose|i: int| 0 <= i < a.len() && a[i] == k as usize;
                assert(m[i] == k as usize);
            } else if r == 2 {
                assert(b.contains(k as usize));
                let i = choose|i: int| 0 <= i < b.len() && b[i] == k as usize;
                assert(m[a.len() + i] == k as usize);
            } else {
                assert(c.contains(k as usize));
                let i = choose|i: int| 0 <= i < c.len() && c[i] == k as usize;
                assert(m[a.len() + b.len() + i] == k as usize);
            }
        } else {
            if m.contains(k as usize) {
                let i = choose|i: int| 0 <= i < m.len() && m[i] == k as usize;
                assert(rank(items[m[i] as int].text@, text, ci) >= 1);
            }
        }
    }
    assert forall|i: int, j: int| 0 <= i < j < m.len() implies #[trigger] m[i] != #[trigger] m[j] by {
        if i < a.len() && j < a.len() {
            assert(a[i] < a[j]);
        } else if a.len() <= i && j < a.len() + b.len() {
            assert(b[i - a.len()] < b[j - a.len()]);
        } else if a.len() + b.len() <= i {
            assert(c[i - a.len() - b.len()] < c[j - a.len() - b.len()]);
        } else {
            assert(rank(items[m[i] as int].text@, text, ci) != rank(items[m[j] as int].text@, text, ci));
        }
    }
}

/// Inserting text at the cursor and then deleting as many bytes before
/// the cursor gives back the input line and the cursor, unless the
/// insertion was refused for want of room.
pub proof fn law_insert_then_delete(
    m0: Menu,
    m1: Menu,
    m2: Menu,
    s: Seq<u8>,
    config: &Config,
    r1: Result<(), MenuError>,
    r2: Result<(), MenuError>,
)
    requires
        m0.wf(),
        s.len() <= usize::MAX,
        m1.inserted(m0, s, config, r1),
        !(r1 matches Err(MenuError::CapacityOverflow)),
        m2.deleted(m1, s.len() as usize, config, r2),
    ensures
        m2.text@ == m0.text@,
        m2.cursor == m0.cursor,
{
    lemma_char_boundary_le_len(m0.text@, m0.cursor as int);
    let t = m0.text@;
    let c = m0.cursor as int;
    if s.len() == 0 {
        assert(t.take(c) + t.skip(c) =~= t);
    } else {
        let t1 = m1.text@;
        assert(t1 == t.take(c) + s + t.skip(c));
        assert(t1.take(c) =~= t.take(c));
        assert(t1.skip(c + s.len()) =~= t.skip(c));
        assert(t.take(c) + t.skip(c) =~= t);
    }
}

/// The start of a word is a character boundary at or before the cursor,
/// at the start of the line or right after a delimiter.
pub proof fn law_word_start(t: Seq<u8>, d: Seq<u8>, c: int)
    requires
        valid_utf8(t),
        is_char_boundary(t, c),
    ensures
        0 <= word_start(t, d, c) <= c,
        is_char_boundary(t, word_start(t, d, c)),
        word_start(t, d, c) == 0 || is_delim(d, t[prev_pos(t, word_start(t, d, c))]),
{
    lemma_char_boundary_le_len(t, c);
    lemma_back_while(t, d, c, true);
    let m = back_while(t, d, c, true);
    lemma_back_while(t, d, m, false);
}

proof fn lemma_back_while(t: Seq<u8>, d: Seq<u8>, c: int, want: bool)
    requires
        valid_utf8(t),
        is_char_boundary(t, c),
        0 <= c <= t.len(),
    ensures
        0 <= back_while(t, d, c, want) <= c,
        is_char_boundary(t, back_while(t, d, c, want)),
        back_while(t, d, c, want) == 0 || is_delim(d, t[prev_pos(t, back_while(t, d, c, want))]) != want,
    decreases c,
{
    if c > 0 {
        lemma_prev_pos_boundary(t, c);
        if is_delim(d, t[prev_pos(t, c)]) == want {
            lemma_back_while(t, d, prev_pos(t, c), want);
        }
    }
}

/// In every well-formed menu (every operation keeps it so) the page, the
/// selection and the page before are absent exactly when nothing matches,
/// the page after is then absent too, and no item matches twice.
pub proof fn law_positions_absent_without_matches(m: Menu)
    requires
        m.wf(),
    ensures
        m.curr is None <==> m.matches@.len() == 0,
        m.sel is None <==> m.matches@.len() == 0,
        m.prev is None <==> m.matches@.len() == 0,
        m.matches@.len() == 0 ==> m.next is None,
        forall|i: int, j: int| 0 <= i < j < m.matches@.len() ==> #[trigger] m.matches@[i] != #[trigger] m.matches@[j],
{
}

/// Moving the selection down and then up brings it back and leaves the
/// input line, the cursor and the matches alone.  The page then still
/// starts at or before the selection, when it did before and the selected
/// match fits in a page.
pub proof fn law_down_then_up(m0: Menu, m1: Menu, m2: Menu, config: &Config)
    requires
        m1.moved_down(m0, config),
        m2.moved_up(m1, config),
        m0.wf(),
        m0.sel matches Some(s) && s + 1 < m0.matches@.len(),
    ensures
        m2.sel == m0.sel,
        m2.text == m0.text,
        m2.cursor == m0.cursor,
        m2.matches == m0.matches,
        ({
            let s = m0.sel->0 as int;
            let lines = config.lines;
            (m0.curr matches Some(c) && c <= s && m0.width_at(lines, s) <= m0.page_room(lines)) ==> (
            m2.curr matches Some(c2) && c2 <= s)
        }),
{
    assert(m0.matches@.len() == m0.matches.len());
    let s = m0.sel->0 as int;
    let lines = config.lines;
    if m0.next == Some((s + 1) as usize) {
        let q = m1.prev->0 as int;
        if q == s + 1 {
            assert(m1.span(lines, s, s + 1) == m1.span(lines, s, s) + m1.width_at(lines, s));
            assert(m1.span(lines, s, s) == 0);
        }
    }
}

/// A code point put in the cache of code points without a font is known
/// to the cache afterwards.
pub proof fn law_remembered_is_known(before: NoMatches, after: NoMatches, cp: u32)
    requires
        after.slots@ == before.remembering(cp),
    ensures
        after.known(cp),
{
    assert(slots(cp).0 < 128 && slots(cp).1 < 128) by (bit_vector);
}

/// Caps Lock and Num Lock do not change what a mouse button press does.
pub proof fn law_lock_keys_ignored(
    m: Menu,
    old: Menu,
    on_menu: bool,
    button: u32,
    ex: i32,
    ey: i32,
    state: u32,
    config: &Config,
    r: Result<ButtonAction, MenuError>,
)
    ensures
        m.button_done(old, on_menu, button, ex, ey, state, config, r) == m.button_done(
            old,
            on_menu,
            button,
            ex,
            ey,
            state | LOCK_MASK | NUM_LOCK_MASK,
            config,
            r,
        ),
{
    assert((state | 2u32 | 16u32) & !(2u32 | 16u32) == state & !(2u32 | 16u32)) by (bit_vector);
}

/// The first word of a string is no longer than the string.
proof fn lemma_first_word_len(s: Seq<u8>)
    requires
        tokens(s).len() > 0,
    ensures
        tokens(s)[0].len() <= s.len(),
    decreases s.len(),
{
    if s.len() > 0 && is_space(s[0]) {
        lemma_first_word_len(s.drop_first());
    } else if s.len() > 0 {
        lemma_word_len_bound(s);
    }
}

/// `item` starts with `word` (up to ASCII case when `ci`).
pub open spec fn starts_with_word(item: Seq<u8>, word: Seq<u8>, ci: bool) -> bool {
    &&& item.len() >= word.len()
    &&& if ci {
        eq_ignore_ascii_case(item.take(word.len() as int), word)
    } else {
        item.take(word.len() as int) == word
    }
}

/// `item` is the input `text` (up to ASCII case when `ci`).
pub open spec fn is_input(item: Seq<u8>, text: Seq<u8>, ci: bool) -> bool {
    if ci {
        eq_ignore_ascii_case(item, text)
    } else {
        item == text
    }
}

proof fn lemma_rank_groups(item: Seq<u8>, text: Seq<u8>, ci: bool)
    requires
        tokens(text).len() > 0,
        text.len() <= usize::MAX,
        has_all_tokens(item, tokens(text), ci),
    ensures
        rank(item, text, ci) == 1 <==> is_input(item, text, ci),
        rank(item, text, ci) == 2 <==> !is_input(item, text, ci) && starts_with_word(
            item,
            tokens(text)[0],
            ci,
        ),
        1 <= rank(item, text, ci) <= 3,
{
    let t = tokens(text)[0];
    lemma_first_word_len(text);
    let n = t.len();
    if item.len() >= n {
        assert(t.take(n as int) =~= t);
    }
    if ci {
        if eq_ignore_ascii_case(item, text) {
            assert(eq_ignore_ascii_case(text, item));
        }
        if eq_ignore_ascii_case(text, item) {
            assert(eq_ignore_ascii_case(item, text));
        }
        if item.len() >= n {
            if eq_ignore_ascii_case(t.take(n as int), item.take(n as int)) {
                assert(eq_ignore_ascii_case(item.take(n as int), t));
            }
            if eq_ignore_ascii_case(item.take(n as int), t) {
                assert(eq_ignore_ascii_case(t.take(n as int), item.take(n as int)));
            }
        }
    }
}

/// Among the matches of a non-empty input, the items that are the input
/// come first, then those that start with its first word, then the rest;
/// under `-i` both comparisons ignore ASCII case.
pub proof fn law_match_groups(m: Menu, config: &Config)
    requires
        m.wf(),
        m.matched(config),
        tokens(m.text@).len() > 0,
    ensures
        forall|i: int, j: int|
            0 <= i < j < m.matches@.len() ==> {
                let a = m.items@[#[trigger] m.matches@[i] as int].text@;
                let b = m.items@[#[trigger] m.matches@[j] as int].text@;
                let t = tokens(m.text@)[0];
                let ci = config.case_insensitive;
                &&& is_input(b, m.text@, ci) ==> is_input(a, m.text@, ci)
                &&& starts_with_word(b, t, ci) ==> is_input(a, m.text@, ci) || starts_with_word(a, t, ci)
            },
{
    let ci = config.case_insensitive;
    let items = m.items@;
    let text = m.text@;
    let ms = m.matches@;
    assert(items.len() == m.items.len());
    law_matches(items, text, ci);
    assert forall|i: int, j: int| 0 <= i < j < ms.len() implies {
        let a = items[#[trigger] ms[i] as int].text@;
        let b = items[#[trigger] ms[j] as int].text@;
        let t = tokens(text)[0];
        &&& is_input(b, text, ci) ==> is_input(a, text, ci)
        &&& starts_with_word(b, t, ci) ==> is_input(a, text, ci) || starts_with_word(a, t, ci)
    } by {
        let ka = ms[i];
        let kb = ms[j];
        assert(ka < items.len() && kb < items.len());
        assert(ms[i] == ka && ms[j] == kb);
        assert(matches_of(items, text, ci).contains(((ka as int) as usize)));
        assert(matches_of(items, text, ci).contains(((kb as int) as usize)));
        assert(has_all_tokens(items[ka as int].text@, tokens(text), ci));
        assert(has_all_tokens(items[kb as int].text@, tokens(text), ci));
        assert(rank(items[ka as int].text@, text, ci) <= rank(items[kb as int].text@, text, ci));
        lemma_rank_groups(items[ka as int].text@, text, ci);
        lemma_rank_groups(items[kb as int].text@, text, ci);
    }
}

/// What a key press without deletion does: the key's action on the menu
/// as it was.
proof fn lemma_plain_act(m1: Menu, m0: Menu, nav: Nav, state: u32, lead: u8, typed: Seq<u8>, config: &Config, r: Result<KeyAction, MenuError>)
    requires
        m1.key_done(m0, KeyCommand::Act { kill: Kill::Nothing, nav, state }, lead, typed, config, r),
    ensures
        m1.nav_done(m0, nav, state, lead, typed, config, r),
{
    let (mid, kr) = choose|mid: Menu, kr: Result<(), MenuError>|
        {
            &&& mid.killed(m0, Kill::Nothing, config, kr)
            &&& kr matches Err(e) ==> r == Err::<KeyAction, MenuError>(e) && m1 == mid
            &&& kr is Ok ==> m1.nav_done(mid, nav, state, lead, typed, config, r)
        };
    assert(mid == m0);
}

/// Control+n moves the selection down one match and Control+p up one,
/// leaving the input line and the cursor alone.
pub proof fn law_control_n_p(
    m0: Menu,
    m1: Menu,
    state: u32,
    status: i32,
    lead: u8,
    typed: Seq<u8>,
    config: &Config,
    r: Result<KeyAction, MenuError>,
)
    requires
        m0.wf(),
        state & CONTROL_MASK != 0,
        status == X_LOOKUP_KEYSYM || status == X_LOOKUP_BOTH,
        m0.sel is Some,
    ensures
        m1.key_done(m0, key_command(XK_n, state, status), lead, typed, config, r) && m0.sel->0 + 1
            < m0.matches@.len() ==> m1.sel == Some((m0.sel->0 + 1) as usize) && m1.text == m0.text
            && m1.cursor == m0.cursor,
        m1.key_done(m0, key_command(XK_p, state, status), lead, typed, config, r) && m0.sel->0 > 0
            ==> m1.sel == Some((m0.sel->0 - 1) as usize) && m1.text == m0.text && m1.cursor == m0.cursor,
{
    assert(m0.matches@.len() == m0.matches.len());
    if m1.key_done(m0, key_command(XK_n, state, status), lead, typed, config, r) {
        lemma_plain_act(m1, m0, Nav::Down, state, lead, typed, config, r);
    }
    if m1.key_done(m0, key_command(XK_p, state, status), lead, typed, config, r) {
        lemma_plain_act(m1, m0, Nav::Up, state, lead, typed, config, r);
    }
}

/// In a row of matches, Left with a match after the first selected moves
/// the selection up one match and leaves the cursor where it is, wherever
/// the cursor is.
pub proof fn law_left_in_row(
    m0: Menu,
    m1: Menu,
    state: u32,
    status: i32,
    lead: u8,
    typed: Seq<u8>,
    config: &Config,
    r: Result<KeyAction, MenuError>,
)
    requires
        m0.wf(),
        config.lines == 0,
        state & CONTROL_MASK == 0,
        state & MOD1_MASK == 0,
        status == X_LOOKUP_KEYSYM || status == X_LOOKUP_BOTH,
        m0.sel matches Some(s) && s > 0,
        m1.key_done(m0, key_command(XK_Left, state, status), lead, typed, config, r),
    ensures
        m1.sel == Some((m0.sel->0 - 1) as usize),
        m1.cursor == m0.cursor,
        m1.text == m0.text,
{
    lemma_plain_act(m1, m0, Nav::Left, state, lead, typed, config, r);
}

/// A paint that shows a match at a position from `lo` up to `hi` uses the
/// colours of a selected, an output or a plain match.
pub open spec fn match_colours(m: Menu, lo: int, hi: int, q: Paint) -> bool {
    q matches Paint::Text { shown: Shown::Match(p), scheme, .. } ==> {
        &&& lo <= p < hi
        &&& scheme == (if m.sel == Some(p) {
            SCHEME_SEL
        } else if m.items@[m.matches@[p as int] as int].out {
            SCHEME_OUT
        } else {
            SCHEME_NORM
        })
    }
}

proof fn lemma_column_colours(m: Menu, p: int, end: int, x: int, y: int, lpad: u32)
    requires
        0 <= p,
        end <= m.matches@.len() <= usize::MAX,
    ensures
        forall|i: int| 0 <= i < m.column(p, end, x, y, lpad).len() ==> match_colours(
            m,
            p,
            end,
            #[trigger] m.column(p, end, x, y, lpad)[i],
        ),
    decreases end - p,
{
    if p < end {
        lemma_column_colours(m, p + 1, end, x, y + m.bh, lpad);
        let c = m.column(p, end, x, y, lpad);
        let rest = m.column(p + 1, end, x, y + m.bh, lpad);
        assert forall|i: int| 0 <= i < c.len() implies match_colours(m, p, end, #[trigger] c[i]) by {
            if i > 0 {
                assert(c[i] == rest[i - 1]);
                assert(match_colours(m, p + 1, end, rest[i - 1]));
            }
        }
    }
}

proof fn lemma_row_colours(m: Menu, p: int, end: int, x: int, lpad: u32)
    requires
        0 <= p,
        end <= m.matches@.len() <= usize::MAX,
    ensures
        forall|i: int| 0 <= i < m.row(p, end, x, lpad).len() ==> match_colours(
            m,
            p,
            end,
            #[trigger] m.row(p, end, x, lpad)[i],
        ),
    decreases end - p,
{
    if p < end {
        let cw = m.row_width(p, x);
        let nx = crate::paint::text_end(x, cw, m.match_len(p));
        lemma_row_colours(m, p + 1, end, nx, lpad);
        let c = m.row(p, end, x, lpad);
        let rest = m.row(p + 1, end, nx, lpad);
        assert forall|i: int| 0 <= i < c.len() implies match_colours(m, p, end, #[trigger] c[i]) by {
            if i > 0 {
                assert(c[i] == rest[i - 1]);
                assert(match_colours(m, p + 1, end, rest[i - 1]));
            }
        }
    }
}

/// Every match a redraw paints is painted in the selection colours when
/// it is selected, else in the output colours when its item was already
/// output, else in the normal colours.
pub proof fn law_match_colours(
    m: Menu,
    config: &Config,
    passwd: bool,
    mh: i32,
    lrpad: i32,
    full: u32,
    tail: u32,
    plan: Seq<Paint>,
)
    requires
        m.paintable(config, mh, lrpad, full, tail),
        plan == m.paints(config, passwd, mh, lrpad, full, tail),
    ensures
        forall|i: int|
            0 <= i < plan.len() ==> (#[trigger] plan[i] matches Paint::Text { shown: Shown::Match(p), scheme, .. }
                ==> {
                &&& p < m.matches@.len()
                &&& scheme == (if m.sel == Some(p) {
                    SCHEME_SEL
                } else if m.items@[m.matches@[p as int] as int].out {
                    SCHEME_OUT
                } else {
                    SCHEME_NORM
                })
            }),
{
    let len = m.matches@.len() as int;
    assert(m.matches@.len() == m.matches.len());
    let lpad = (lrpad / 2) as u32;
    let head = m.head_paints(config, passwd, mh, lrpad, full, tail);
    let page = m.page_paints(config, lpad);
    assert forall|i: int| 0 <= i < head.len() implies !(#[trigger] head[i] is Text && head[i]->shown is Match) by {
    }
    if config.lines > 0 {
        if let Some(c) = m.curr {
            lemma_column_colours(m, c as int, m.page_end(), m.input_x(config), 0, lpad);
        }
    } else if len > 0 {
        if let Some(c) = m.curr {
            lemma_row_colours(m, c as int, m.page_end(), m.row_x(config), lpad);
        }
    }
    assert forall|i: int| 0 <= i < page.len() implies match_colours(m, 0, len, #[trigger] page[i]) by {
        if config.lines > 0 {
            if let Some(c) = m.curr {
                assert(match_colours(m, c as int, m.page_end(), page[i]));
            }
        } else if len > 0 {
            let left = if m.curr matches Some(c) && c > 0 { 1int } else { 0int };
            if let Some(c) = m.curr {
                let items = m.row(c as int, m.page_end(), m.row_x(config), lpad);
                if left <= i < left + items.len() {
                    assert(page[i] == items[i - left]);
                    assert(match_colours(m, c as int, m.page_end(), items[i - left]));
                }
            }
        }
    }
    assert forall|i: int| 0 <= i < plan.len() implies match_colours(m, 0, len, #[trigger] plan[i]) by {
        if i < head.len() {
            assert(plan[i] == head[i]);
        } else {
            assert(plan[i] == page[i - head.len()]);
        }
    }
}

proof fn lemma_no_hit_right_of_items(m: Menu, ex: int, x: int, w: int, i: int, n: int)
    requires
        ex > m.mw - m.rarrow_w,
    ensures
        m.horizontal_hit(ex, x, w, i, n) is None,
    decreases n - i,
{
    if i < n {
        let x2 = x + w;
        let w2 = crate::mouse::min_int(m.full_width(i), m.mw - x2 - m.rarrow_w);
        lemma_no_hit_right_of_items(m, ex, x2, w2, i + 1, n);
    }
}

/// A left click on the right arrow of a row, past the input field, when
/// there is a page after, shows that page and selects its first match;
/// the input line and the cursor stay.
pub proof fn law_right_arrow_click(
    m0: Menu,
    m1: Menu,
    ex: i32,
    ey: i32,
    state: u32,
    config: &Config,
    r: Result<ButtonAction, MenuError>,
)
    requires
        m0.wf(),
        config.lines == 0,
        m0.matches@.len() > 0,
        m0.next is Some,
        (state & !(LOCK_MASK | NUM_LOCK_MASK)) & !CONTROL_MASK == 0,
        ex > (if config.prompt@.len() > 0 {
            m0.promptw as int
        } else {
            0
        }) + m0.inputw + m0.larrow_w,
        m0.mw - m0.rarrow_w < ex <= m0.mw,
        m1.button_done(m0, true, 1, ex, ey, state, config, r),
    ensures
        r == Ok::<ButtonAction, MenuError>(ButtonAction::Redraw),
        m1.curr == m0.next,
        m1.sel == m0.next,
        m1.text == m0.text,
        m1.cursor == m0.cursor,
{
    let c = m0.curr->0 as int;
    let len = m0.matches@.len() as int;
    let n = match m0.next {
        Some(p) => p as int,
        None => len,
    };
    let x0: int = if config.prompt@.len() > 0 {
        m0.promptw as int
    } else {
        0
    };
    lemma_no_hit_right_of_items(m0, ex as int, x0 + m0.inputw, m0.larrow_w as int, c, n);
}

} // verus!
