//! Editing of the input line: moving the cursor by characters and words,
//! inserting and deleting text.  Every edit re-matches the items.

use vstd::prelude::*;
use vstd::utf8::*;
use crate::config::Config;
use crate::menu::{Menu, MenuError, search_breaks, copy_bytes};

verus! {

/// Skips continuation bytes forward from `n`.
pub open spec fn fwd_rune(text: Seq<u8>, n: int) -> int
    decreases text.len() - n,
{
    if 0 <= n < text.len() && is_continuation_byte(text[n]) {
        fwd_rune(text, n + 1)
    } else {
        n
    }
}

/// Skips continuation bytes backward from `n`, stopping at position 0.
pub open spec fn back_rune(text: Seq<u8>, n: int) -> int
    decreases n,
{
    if 1 <= n < text.len() && is_continuation_byte(text[n]) {
        back_rune(text, n - 1)
    } else {
        n
    }
}

/// The position after the character that starts at `c`.
pub open spec fn next_pos(text: Seq<u8>, c: int) -> int {
    fwd_rune(text, c + 1)
}

/// The position of the character that ends at `c` (0 at the start).
pub open spec fn prev_pos(text: Seq<u8>, c: int) -> int {
    let n = back_rune(text, c - 1);
    if n < 0 {
        0
    } else {
        n
    }
}

/// Where `next_rune` lands from cursor `c`, one character forward when
/// `inc` is positive and one backward otherwise.
pub open spec fn rune_step(text: Seq<u8>, c: int, inc: int) -> int {
    if inc > 0 {
        next_pos(text, c)
    } else {
        prev_pos(text, c)
    }
}

/// `fwd_rune` moves forward over continuation bytes only.
pub proof fn lemma_fwd_rune(text: Seq<u8>, n: int)
    requires
        0 <= n,
    ensures
        n <= fwd_rune(text, n),
        n <= text.len() ==> fwd_rune(text, n) <= text.len(),
        fwd_rune(text, n) < text.len() ==> !is_continuation_byte(text[fwd_rune(text, n)]),
        forall|j: int| n <= j < fwd_rune(text, n) ==> is_continuation_byte(#[trigger] text[j]),
    decreases text.len() - n,
{
    if 0 <= n < text.len() && is_continuation_byte(text[n]) {
        lemma_fwd_rune(text, n + 1);
    }
}

/// `back_rune` moves backward over continuation bytes only.
pub proof fn lemma_back_rune(text: Seq<u8>, n: int)
    requires
        n < text.len(),
    ensures
        back_rune(text, n) <= n,
        n >= 0 ==> back_rune(text, n) >= 0,
        back_rune(text, n) >= 1 ==> !is_continuation_byte(text[back_rune(text, n)]),
        forall|j: int| back_rune(text, n) < j <= n ==> is_continuation_byte(#[trigger] text[j]),
    decreases n,
{
    if 1 <= n < text.len() && is_continuation_byte(text[n]) {
        lemma_back_rune(text, n - 1);
    }
}

/// In valid UTF-8, one step forward from a character boundary before the
/// end lands on the next character boundary, with none in between.
pub proof fn lemma_next_pos_boundary(text: Seq<u8>, c: int)
    requires
        valid_utf8(text),
        0 <= c < text.len(),
    ensures
        c < next_pos(text, c) <= text.len(),
        is_char_boundary(text, next_pos(text, c)),
        forall|j: int| c < j < next_pos(text, c) ==> !is_char_boundary(text, j),
{
    lemma_fwd_rune(text, c + 1);
    let r = next_pos(text, c);
    if r < text.len() {
        is_char_boundary_iff_not_is_continuation_byte(text, r);
    } else {
        is_char_boundary_start_end_of_seq(text);
    }
    assert forall|j: int| c < j < r implies !is_char_boundary(text, j) by {
        is_char_boundary_iff_not_is_continuation_byte(text, j);
    }
}

/// In valid UTF-8, one step back from a position after the start lands on
/// the previous character boundary, with none in between.
pub proof fn lemma_prev_pos_boundary(text: Seq<u8>, c: int)
    requires
        valid_utf8(text),
        0 < c <= text.len(),
    ensures
        0 <= prev_pos(text, c) < c,
        is_char_boundary(text, prev_pos(text, c)),
        forall|j: int| prev_pos(text, c) < j < c ==> !is_char_boundary(text, j),
{
    lemma_back_rune(text, c - 1);
    let r = prev_pos(text, c);
    if r == 0 {
        is_char_boundary_start_end_of_seq(text);
    } else {
        is_char_boundary_iff_not_is_continuation_byte(text, r);
    }
    assert forall|j: int| r < j < c implies !is_char_boundary(text, j) by {
        is_char_boundary_iff_not_is_continuation_byte(text, j);
    }
}

/// `b` is one of the word delimiters.
pub open spec fn is_delim(delim: Seq<u8>, b: u8) -> bool {
    delim.contains(b)
}

/// From `c`, steps back over characters whose first byte is (or, with
/// `want` false, is not) a delimiter.
pub open spec fn back_while(text: Seq<u8>, delim: Seq<u8>, c: int, want: bool) -> int
    decreases c,
{
    if 0 < c <= text.len() && is_delim(delim, text[prev_pos(text, c)]) == want {
        proof {
            lemma_back_rune(text, c - 1);
        }
        back_while(text, delim, prev_pos(text, c), want)
    } else {
        c
    }
}

/// From `c`, steps forward over characters whose first byte is (or, with
/// `want` false, is not) a delimiter.
pub open spec fn fwd_while(text: Seq<u8>, delim: Seq<u8>, c: int, want: bool) -> int
    decreases text.len() - c,
{
    if 0 <= c < text.len() && is_delim(delim, text[c]) == want {
        proof {
            lemma_fwd_rune(text, c + 1);
        }
        fwd_while(text, delim, next_pos(text, c), want)
    } else {
        c
    }
}

/// Start of the word before `c`: back over delimiters, then back over the
/// word.
pub open spec fn word_start(text: Seq<u8>, delim: Seq<u8>, c: int) -> int {
    back_while(text, delim, back_while(text, delim, c, true), false)
}

/// End of the word after `c`: forward over delimiters, then over the word.
pub open spec fn word_end(text: Seq<u8>, delim: Seq<u8>, c: int) -> int {
    fwd_while(text, delim, fwd_while(text, delim, c, true), false)
}

/// Whether the byte is one of the word delimiters (byte-wise, as C's
/// `strchr` on the delimiter string).
pub fn is_word_delim(b: u8, config: &Config) -> (r: bool)
    ensures
        r == is_delim(config.word_delimeter@, b),
{
    let d = &config.word_delimeter;
    let mut i: usize = 0;
    while i < d.len()
        invariant
            d@ == config.word_delimeter@,
            i <= d@.len(),
            forall|j: int| 0 <= j < i ==> d@[j] != b,
        decreases d@.len() - i,
    {
        if d[i] == b {
            assert(config.word_delimeter@[i as int] == b);
            return true;
        }
        i = i + 1;
    }
    false
}

fn is_cont_byte(b: u8) -> (r: bool)
    ensures
        r == is_continuation_byte(b),
{
    proof {
        utf8_byte_ranges_bitwise(b);
    }
    b & 0xc0 == 0x80
}

/// The bytes of `b` up to its first newline.
pub open spec fn first_line(b: Seq<u8>) -> Seq<u8> {
    match crate::strings::find(b, seq![10u8]) {
        Some(p) => b.take(p),
        None => b,
    }
}

impl Menu {
    /// `self` is what inserting `s` into `old` gives: nothing for an empty
    /// `s`, a refusal when the line would outgrow an allocation, and
    /// otherwise `s` spliced in at the cursor, the cursor after it and the
    /// items re-matched.
    pub open spec fn inserted(&self, old: Menu, s: Seq<u8>, config: &Config, r: Result<(), MenuError>) -> bool {
        if s.len() == 0 {
            r is Ok && *self == old
        } else if old.text@.len() + s.len() > isize::MAX {
            (r matches Err(MenuError::CapacityOverflow)) && *self == old
        } else {
            &&& self.text@ == old.text@.take(old.cursor as int) + s + old.text@.skip(old.cursor as int)
            &&& self.cursor == old.cursor + s.len()
            &&& self.rematched(config, r)
            &&& self.line_changed(old)
            &&& r is Err ==> self.kept_matches(old)
        }
    }

    /// `self` is what deleting the `byte_len` bytes before the cursor of
    /// `old` gives (all of them when there are fewer): the cursor moves
    /// back over them and the items are re-matched.
    pub open spec fn deleted(&self, old: Menu, byte_len: usize, config: &Config, r: Result<(), MenuError>) -> bool {
        let c = if old.cursor >= byte_len {
            old.cursor - byte_len
        } else {
            0
        };
        &&& self.cursor == c
        &&& self.text@ == old.text@.take(c as int) + old.text@.skip(old.cursor as int)
        &&& self.rematched(config, r)
        &&& self.line_changed(old)
        &&& r is Err ==> self.kept_matches(old)
    }

    /// The cursor position one character forward (`inc` positive) or back
    /// (`inc` negative, from a cursor after the start) from the cursor:
    /// continuation bytes are skipped.
    pub fn next_rune(&self, inc: isize) -> (r: usize)
        requires
            self.wf(),
            inc == 1 || (inc == -1 && self.cursor > 0),
        ensures
            r == rune_step(self.text@, self.cursor as int, inc as int),
    {
        let text = &self.text;
        let len = text.len();
        if inc > 0 {
            let mut n: usize = self.cursor + 1;
            while n < len && is_cont_byte(text[n])
                invariant
                    len == text@.len(),
                    text@ == self.text@,
                    self.cursor < n,
                    len <= isize::MAX,
                    fwd_rune(text@, self.cursor + 1) == fwd_rune(text@, n as int),
                decreases len - n,
            {
                n = n + 1;
            }
            n
        } else {
            if self.cursor == 0 {
                return 0;
            }
            let mut n: usize = self.cursor - 1;
            proof {
                lemma_char_boundary_le_len(self.text@, self.cursor as int);
            }
            while n >= 1 && n < len && is_cont_byte(text[n])
                invariant
                    len == text@.len(),
                    text@ == self.text@,
                    n < self.cursor,
                    back_rune(text@, self.cursor - 1) == back_rune(text@, n as int),
                decreases n,
            {
                n = n - 1;
            }
            n
        }
    }

    /// Inserts `s` at the cursor, moves the cursor past it and re-matches.
    /// Nothing happens for an empty `s`.
    pub fn insert_text(&mut self, s: &[u8], config: &Config) -> (r: Result<(), MenuError>)
        requires
            old(self).wf(),
            valid_utf8(s@),
        ensures
            final(self).wf(),
            final(self).items@ == old(self).items@,
            final(self).inserted(*old(self), s@, config, r),
    {
        if s.len() == 0 {
            return Ok(());
        }
        if s.len() > isize::MAX as usize - self.text.len() {
            return Err(MenuError::CapacityOverflow);
        }
        let c = self.cursor;
        proof {
            lemma_char_boundary_le_len(self.text@, c as int);
            lemma_splice_valid(self.text@, c as int, c as int, s@);
        }
        let ghost t = self.text@;
        let tail = self.text.split_off(c);
        append_bytes(&mut self.text, s);
        append_bytes(&mut self.text, tail.as_slice());
        assert(self.text@ =~= t.take(c as int) + s@ + t.skip(c as int));
        self.cursor = c + s.len();
        self.mtch(config)
    }

    /// Deletes the `byte_len` bytes before the cursor (or all bytes before
    /// it, when there are fewer) and re-matches.
    pub fn delete_before_cursor(&mut self, byte_len: usize, config: &Config) -> (r: Result<(), MenuError>)
        requires
            old(self).wf(),
            is_char_boundary(
                old(self).text@,
                if old(self).cursor >= byte_len {
                    old(self).cursor - byte_len
                } else {
                    0
                },
            ),
        ensures
            final(self).wf(),
            final(self).items@ == old(self).items@,
            final(self).deleted(*old(self), byte_len, config, r),
    {
        let c = self.cursor;
        let start = if c >= byte_len {
            c - byte_len
        } else {
            0
        };
        proof {
            lemma_char_boundary_le_len(self.text@, c as int);
            lemma_splice_valid(self.text@, start as int, c as int, Seq::<u8>::empty());
            assert(self.text@.take(start as int) + Seq::<u8>::empty() =~= self.text@.take(start as int));
        }
        let ghost t = self.text@;
        let tail = self.text.split_off(c);
        self.text.truncate(start);
        append_bytes(&mut self.text, tail.as_slice());
        assert(self.text@ =~= t.take(start as int) + t.skip(c as int));
        self.cursor = start;
        self.mtch(config)
    }

    /// Deletes everything from the cursor to the end and re-matches.
    pub fn kill_to_end(&mut self, config: &Config) -> (r: Result<(), MenuError>)
        requires
            old(self).wf(),
        ensures
            final(self).wf(),
            final(self).items@ == old(self).items@,
            final(self).cursor == old(self).cursor,
            final(self).text@ == old(self).text@.take(old(self).cursor as int),
            final(self).rematched(config, r),
            final(self).line_changed(*old(self)),
            r is Err ==> final(self).kept_matches(*old(self)),
    {
        proof {
            lemma_char_boundary_le_len(self.text@, self.cursor as int);
            is_char_boundary_start_end_of_seq(self.text@);
            lemma_splice_valid(self.text@, self.cursor as int, self.text@.len() as int, Seq::<u8>::empty());
            assert(self.text@.take(self.cursor as int) + Seq::<u8>::empty() + self.text@.skip(
                self.text@.len() as int,
            ) =~= self.text@.take(self.cursor as int));
        }
        self.text.truncate(self.cursor);
        self.mtch(config)
    }

    /// Deletes the word before the cursor together with the delimiters
    /// after it, one character at a time, re-matching after each.
    pub fn delete_word(&mut self, config: &Config) -> (r: Result<(), MenuError>)
        requires
            old(self).wf(),
        ensures
            final(self).wf(),
            final(self).items@ == old(self).items@,
            r is Ok ==> final(self).cursor == word_start(
                old(self).text@,
                config.word_delimeter@,
                old(self).cursor as int,
            ),
            r is Ok ==> final(self).text@ == old(self).text@.take(final(self).cursor as int) + old(
                self,
            ).text@.skip(old(self).cursor as int),
            r is Ok && final(self).cursor == old(self).cursor ==> *final(self) == *old(self),
            final(self).cursor != old(self).cursor || r is Err ==> final(self).rematched(config, r),
            final(self).line_changed(*old(self)),
    {
        let ghost t0 = self.text@;
        let ghost c0 = self.cursor as int;
        let ghost d = config.word_delimeter@;
        proof {
            lemma_char_boundary_le_len(t0, c0);
            assert(t0.take(c0) + t0.skip(c0) =~= t0);
            if c0 > 0 {
                lemma_prev_pos_boundary(t0, c0);
            }
        }
        let ghost mid;
        while self.cursor > 0 && is_word_delim(self.text[self.next_rune(-1)], config)
            invariant
                self.wf(),
                self.items@ == old(self).items@,
                d == config.word_delimeter@,
                0 <= c0 <= t0.len(),
                valid_utf8(t0),
                t0 == old(self).text@,
                c0 == old(self).cursor,
                self.cursor <= c0,
                self.text@ == t0.take(self.cursor as int) + t0.skip(c0),
                back_while(t0, d, c0, true) == back_while(t0, d, self.cursor as int, true),
                self.cursor == c0 ==> *self == *old(self),
                self.cursor < c0 ==> self.matched(config),
                self.line_changed(*old(self)),
                0 < self.cursor ==> 0 <= prev_pos(self.text@, self.cursor as int) < self.cursor,
                0 < self.cursor ==> prev_pos(self.text@, self.cursor as int) == prev_pos(t0, self.cursor as int),
            decreases self.cursor,
        {
            let del = self.cursor - self.next_rune(-1);
            proof {
                lemma_prev_pos_boundary(self.text@, self.cursor as int);
            }
            let ghost cur = self.cursor as int;
            let res = self.delete_before_cursor(del, config);
            proof {
                assert(self.text@ =~= t0.take(self.cursor as int) + t0.skip(c0));
                self.lemma_prev_pos_prefix(t0, c0);
            }
            if res.is_err() {
                return res;
            }
        }
        proof {
            mid = self.cursor as int;
        }
        while self.cursor > 0 && !is_word_delim(self.text[self.next_rune(-1)], config)
            invariant
                self.wf(),
                self.items@ == old(self).items@,
                d == config.word_delimeter@,
                0 <= c0 <= t0.len(),
                valid_utf8(t0),
                t0 == old(self).text@,
                c0 == old(self).cursor,
                self.cursor <= c0,
                self.text@ == t0.take(self.cursor as int) + t0.skip(c0),
                mid == back_while(t0, d, c0, true),
                back_while(t0, d, mid, false) == back_while(t0, d, self.cursor as int, false),
                self.cursor == c0 ==> *self == *old(self),
                self.cursor < c0 ==> self.matched(config),
                self.line_changed(*old(self)),
                0 < self.cursor ==> 0 <= prev_pos(self.text@, self.cursor as int) < self.cursor,
                0 < self.cursor ==> prev_pos(self.text@, self.cursor as int) == prev_pos(t0, self.cursor as int),
            decreases self.cursor,
        {
            let del = self.cursor - self.next_rune(-1);
            proof {
                lemma_prev_pos_boundary(self.text@, self.cursor as int);
            }
            let res = self.delete_before_cursor(del, config);
            proof {
                assert(self.text@ =~= t0.take(self.cursor as int) + t0.skip(c0));
                self.lemma_prev_pos_prefix(t0, c0);
            }
            if res.is_err() {
                return res;
            }
        }
        Ok(())
    }

    /// After deleting back to the cursor, the character before the cursor
    /// is the one it was before the deletion.
    proof fn lemma_prev_pos_prefix(&self, t0: Seq<u8>, c0: int)
        requires
            self.wf(),
            valid_utf8(t0),
            self.cursor <= c0 <= t0.len(),
            self.text@ == t0.take(self.cursor as int) + t0.skip(c0),
        ensures
            0 < self.cursor ==> 0 <= prev_pos(self.text@, self.cursor as int) < self.cursor,
            0 < self.cursor ==> prev_pos(self.text@, self.cursor as int) == prev_pos(t0, self.cursor as int),
    {
        if self.cursor > 0 {
            lemma_char_boundary_le_len(self.text@, self.cursor as int);
            lemma_prev_pos_boundary(self.text@, self.cursor as int);
            lemma_back_rune_prefix(self.text@, t0, self.cursor - 1);
        }
    }

    /// Pastes the first line of `clip` (as UTF-8, invalid sequences
    /// replaced) at the cursor.
    pub fn paste(&mut self, clip: &[u8], config: &Config) -> (r: Result<(), MenuError>)
        requires
            old(self).wf(),
        ensures
            final(self).wf(),
            final(self).items@ == old(self).items@,
            final(self).inserted(*old(self), crate::strings::utf8_lossy(first_line(clip@)), config, r),
    {
        let nl = [10u8];
        assert(nl@ =~= seq![10u8]);
        let line = match crate::strings::find_bytes(clip, &nl) {
            Some(p) => {
                proof {
                    crate::strings::lemma_find_from(clip@, seq![10u8], 0);
                }
                &clip[0..p]
            },
            None => clip,
        };
        proof {
            assert(line@ =~= first_line(clip@));
        }
        let text = crate::strings::from_utf8_lossy(line);
        self.insert_text(text.as_slice(), config)
    }

    /// Moves the cursor to the start of the word before it (`dir`
    /// negative) or to the end of the word after it.
    pub fn move_word_edge(&mut self, dir: i32, config: &Config)
        requires
            old(self).wf(),
        ensures
            final(self).wf(),
            final(self).cursor == (if dir < 0 {
                word_start(old(self).text@, config.word_delimeter@, old(self).cursor as int)
            } else {
                word_end(old(self).text@, config.word_delimeter@, old(self).cursor as int)
            }),
            *final(self) == (Menu { cursor: final(self).cursor, ..*old(self) }),
    {
        let ghost t = self.text@;
        let ghost d = config.word_delimeter@;
        proof {
            lemma_char_boundary_le_len(t, self.cursor as int);
        }
        if dir < 0 {
            let ghost mid;
            proof {
                if self.cursor > 0 {
                    lemma_prev_pos_boundary(t, self.cursor as int);
                }
            }
            while self.cursor > 0 && is_word_delim(self.text[self.next_rune(-1)], config)
                invariant
                    self.wf(),
                    *self == (Menu { cursor: self.cursor, ..*old(self) }),
                    t == self.text@,
                    d == config.word_delimeter@,
                    self.cursor <= t.len(),
                    back_while(t, d, old(self).cursor as int, true) == back_while(t, d, self.cursor as int, true),
                    0 < self.cursor ==> 0 <= prev_pos(t, self.cursor as int) < self.cursor,
                decreases self.cursor,
            {
                proof {
                    lemma_prev_pos_boundary(t, self.cursor as int);
                }
                self.cursor = self.next_rune(-1);
                proof {
                    if self.cursor > 0 {
                        lemma_prev_pos_boundary(t, self.cursor as int);
                    }
                }
            }
            proof {
                mid = self.cursor as int;
            }
            while self.cursor > 0 && !is_word_delim(self.text[self.next_rune(-1)], config)
                invariant
                    self.wf(),
                    *self == (Menu { cursor: self.cursor, ..*old(self) }),
                    t == self.text@,
                    d == config.word_delimeter@,
                    self.cursor <= t.len(),
                    back_while(t, d, mid, false) == back_while(t, d, self.cursor as int, false),
                    0 < self.cursor ==> 0 <= prev_pos(t, self.cursor as int) < self.cursor,
                    mid == back_while(t, d, old(self).cursor as int, true),
                decreases self.cursor,
            {
                proof {
                    lemma_prev_pos_boundary(t, self.cursor as int);
                }
                self.cursor = self.next_rune(-1);
                proof {
                    if self.cursor > 0 {
                        lemma_prev_pos_boundary(t, self.cursor as int);
                    }
                }
            }
        } else {
            let ghost mid;
            while self.cursor < self.text.len() && is_word_delim(self.text[self.cursor], config)
                invariant
                    self.wf(),
                    *self == (Menu { cursor: self.cursor, ..*old(self) }),
                    t == self.text@,
                    d == config.word_delimeter@,
                    self.cursor <= t.len(),
                    fwd_while(t, d, old(self).cursor as int, true) == fwd_while(t, d, self.cursor as int, true),
                decreases t.len() - self.cursor,
            {
                proof {
                    lemma_next_pos_boundary(t, self.cursor as int);
                }
                self.cursor = self.next_rune(1);
            }
            proof {
                mid = self.cursor as int;
            }
            while self.cursor < self.text.len() && !is_word_delim(self.text[self.cursor], config)
                invariant
                    self.wf(),
                    *self == (Menu { cursor: self.cursor, ..*old(self) }),
                    t == self.text@,
                    d == config.word_delimeter@,
                    self.cursor <= t.len(),
                    fwd_while(t, d, mid, false) == fwd_while(t, d, self.cursor as int, false),
                    mid == fwd_while(t, d, old(self).cursor as int, true),
                decreases t.len() - self.cursor,
            {
                proof {
                    lemma_next_pos_boundary(t, self.cursor as int);
                }
                self.cursor = self.next_rune(1);
            }
        }
    }
}

/// Appends `s` to `v`.
pub fn append_bytes(v: &mut Vec<u8>, s: &[u8])
    ensures
        final(v)@ == old(v)@ + s@,
{
    let mut i: usize = 0;
    while i < s.len()
        invariant
            i <= s@.len(),
            v@ == old(v)@ + s@.subrange(0, i as int),
        decreases s@.len() - i,
    {
        v.push(s[i]);
        i = i + 1;
        assert(v@ =~= old(v)@ + s@.subrange(0, i as int));
    }
    assert(s@.subrange(0, i as int) =~= s@);
}

/// Where two valid UTF-8 strings meet is a character boundary.
pub proof fn lemma_concat_boundary(x: Seq<u8>, y: Seq<u8>)
    requires
        valid_utf8(x),
        valid_utf8(y),
    ensures
        valid_utf8(x + y),
        is_char_boundary(x + y, x.len() as int),
    decreases x.len(),
{
    valid_utf8_concat(x, y);
    if x.len() == 0 {
    } else {
        let rest = pop_first_scalar(x);
        assert(pop_first_scalar(x).len() < x.len()) by {
            assert(rest.len() == x.len() - length_of_first_scalar(x));
        }
        lemma_concat_boundary(rest, y);
        assert((x + y).subrange(0, x.len() as int) =~= x);
        assert(x + y == x.take(length_of_first_scalar(x)) + (rest + y)) by {
            assert(x + y =~= x.take(length_of_first_scalar(x)) + (rest + y));
        }
        assert(pop_first_scalar(x + y) =~= rest + y);
    }
}

/// Cutting a valid UTF-8 string at a boundary and putting valid UTF-8 in
/// between gives valid UTF-8 with boundaries on both sides of the insert.
pub proof fn lemma_splice_valid(t: Seq<u8>, a: int, b: int, s: Seq<u8>)
    requires
        valid_utf8(t),
        valid_utf8(s),
        is_char_boundary(t, a),
        is_char_boundary(t, b),
        a <= b,
    ensures
        valid_utf8(t.take(a) + s + t.skip(b)),
        is_char_boundary(t.take(a) + s + t.skip(b), a + s.len()),
        is_char_boundary(t.take(a) + s + t.skip(b), a),
{
    lemma_char_boundary_le_len(t, a);
    lemma_char_boundary_le_len(t, b);
    valid_utf8_split(t, a);
    valid_utf8_split(t, b);
    assert(t.subrange(0, a) =~= t.take(a));
    assert(t.subrange(b, t.len() as int) =~= t.skip(b));
    lemma_concat_boundary(t.take(a), s);
    lemma_concat_boundary(t.take(a) + s, t.skip(b));
    let u = t.take(a) + s + t.skip(b);
    assert(t.take(a) + (s + t.skip(b)) == u);
    valid_utf8_concat(s, t.skip(b));
    lemma_concat_boundary(t.take(a), s + t.skip(b));
}

/// `back_rune` reads only the bytes up to where it starts.
pub proof fn lemma_back_rune_prefix(t1: Seq<u8>, t2: Seq<u8>, n: int)
    requires
        n < t1.len(),
        n < t2.len(),
        forall|j: int| 0 <= j <= n ==> t1[j] == t2[j],
    ensures
        back_rune(t1, n) == back_rune(t2, n),
    decreases n,
{
    if n >= 1 {
        lemma_back_rune_prefix(t1, t2, n - 1);
    }
}

/// A character boundary lies within the text.
pub proof fn lemma_char_boundary_le_len(text: Seq<u8>, c: int)
    requires
        valid_utf8(text),
        is_char_boundary(text, c),
    ensures
        0 <= c <= text.len(),
{
    crate::strings::lemma_char_boundary_in_range(text, c);
}

} // verus!
