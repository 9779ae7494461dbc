//! Byte-string comparison and search in the style of C's `strncmp`,
//! `strncasecmp` and `strstr`.

use vstd::prelude::*;
use vstd::utf8::*;

verus! {

/// `strncmp(s1, s2, n) == 0`: the first `n` bytes agree, where a string
/// shorter than `n` only agrees with an equal string.
pub open spec fn same_prefix(s1: Seq<u8>, s2: Seq<u8>, n: usize) -> bool {
    if s1.len() >= n && s2.len() >= n {
        s1.take(n as int) == s2.take(n as int)
    } else {
        s1 == s2
    }
}

/// ASCII lowercase of a byte; every other byte is left alone.
pub open spec fn ascii_lower(b: u8) -> u8 {
    if 65 <= b <= 90 {
        (b + 32) as u8
    } else {
        b
    }
}

/// Two byte strings are equal up to ASCII case.
pub open spec fn eq_ignore_ascii_case(a: Seq<u8>, b: Seq<u8>) -> bool {
    &&& a.len() == b.len()
    &&& forall|i: int| 0 <= i < a.len() ==> #[trigger] ascii_lower(a[i]) == ascii_lower(b[i])
}

/// `strncasecmp(s1, s2, n) == 0` with ASCII case folding.
pub open spec fn same_prefix_ignore_case(s1: Seq<u8>, s2: Seq<u8>, n: usize) -> bool {
    if s1.len() >= n && s2.len() >= n {
        eq_ignore_ascii_case(s1.take(n as int), s2.take(n as int))
    } else {
        eq_ignore_ascii_case(s1, s2)
    }
}

/// `needle` occurs in `hay` starting at byte `p`.
pub open spec fn occurs_at(hay: Seq<u8>, needle: Seq<u8>, p: int) -> bool {
    &&& 0 <= p
    &&& p + needle.len() <= hay.len()
    &&& hay.subrange(p, p + needle.len()) == needle
}

/// The first position at or after `from` where `needle` occurs in `hay`.
pub open spec fn find_from(hay: Seq<u8>, needle: Seq<u8>, from: int) -> Option<int>
    decreases hay.len() + 1 - from,
{
    if from < 0 || from + needle.len() > hay.len() {
        None
    } else if occurs_at(hay, needle, from) {
        Some(from)
    } else {
        find_from(hay, needle, from + 1)
    }
}

/// The first position where `needle` occurs in `hay`.
pub open spec fn find(hay: Seq<u8>, needle: Seq<u8>) -> Option<int> {
    find_from(hay, needle, 0)
}

/// ASCII lowercase of one byte.
pub fn ascii_lower_byte(b: u8) -> (r: u8)
    ensures
        r == ascii_lower(b),
{
    if 65 <= b && b <= 90 {
        b + 32
    } else {
        b
    }
}

fn bytes_equal(a: &[u8], b: &[u8]) -> (r: bool)
    ensures
        r == (a@ == b@),
{
    if a.len() != b.len() {
        return false;
    }
    let mut i: usize = 0;
    while i < a.len()
        invariant
            a@.len() == b@.len(),
            i <= a@.len(),
            forall|j: int| 0 <= j < i ==> a@[j] == b@[j],
        decreases a@.len() - i,
    {
        if a[i] != b[i] {
            return false;
        }
        i = i + 1;
    }
    assert(a@ =~= b@);
    true
}

fn bytes_equal_ignore_case(a: &[u8], b: &[u8]) -> (r: bool)
    ensures
        r == eq_ignore_ascii_case(a@, b@),
{
    if a.len() != b.len() {
        return false;
    }
    let mut i: usize = 0;
    while i < a.len()
        invariant
            a@.len() == b@.len(),
            i <= a@.len(),
            forall|j: int| 0 <= j < i ==> #[trigger] ascii_lower(a@[j]) == ascii_lower(b@[j]),
        decreases a@.len() - i,
    {
        if ascii_lower_byte(a[i]) != ascii_lower_byte(b[i]) {
            return false;
        }
        i = i + 1;
    }
    true
}

/// Compares up to `n` bytes; a string shorter than `n` only compares equal
/// to another string of exactly the same contents.  Never fails, even when
/// `n` exceeds either length.
pub fn strncmp(s1: &[u8], s2: &[u8], n: usize) -> (r: bool)
    ensures
        r == same_prefix(s1@, s2@, n),
{
    if s1.len() >= n && s2.len() >= n {
        bytes_equal(&s1[0..n], &s2[0..n])
    } else {
        bytes_equal(s1, s2)
    }
}

/// As `strncmp`, but ASCII case-insensitive (a byte-wise fold, so the byte
/// length of either string never changes).
pub fn strncasecmp(s1: &[u8], s2: &[u8], n: usize) -> (r: bool)
    ensures
        r == same_prefix_ignore_case(s1@, s2@, n),
{
    if s1.len() >= n && s2.len() >= n {
        bytes_equal_ignore_case(&s1[0..n], &s2[0..n])
    } else {
        bytes_equal_ignore_case(s1, s2)
    }
}

/// The position of the first occurrence of `needle` in `hay`.
pub fn find_bytes(hay: &[u8], needle: &[u8]) -> (r: Option<usize>)
    ensures
        match find(hay@, needle@) {
            Some(p) => r matches Some(i) && i == p,
            None => r is None,
        },
{
    let n = needle.len();
    if n > hay.len() {
        return None;
    }
    let mut i: usize = 0;
    loop
        invariant
            n == needle@.len(),
            n <= hay@.len(),
            hay@.len() == hay.len(),
            i <= hay@.len() - n,
            find(hay@, needle@) == find_from(hay@, needle@, i as int),
        decreases hay@.len() - n - i,
    {
        if bytes_equal(&hay[i..i + n], needle) {
            return Some(i);
        }
        if i == hay.len() - n {
            assert(find_from(hay@, needle@, i + 1) is None);
            return None;
        }
        i = i + 1;
    }
}

/// What `find_from` returns: the least position at or after `from` where
/// the needle occurs, or `None` when it occurs nowhere from there on.
pub proof fn lemma_find_from(hay: Seq<u8>, needle: Seq<u8>, from: int)
    requires
        0 <= from,
    ensures
        match find_from(hay, needle, from) {
            Some(p) => from <= p && occurs_at(hay, needle, p) && forall|q: int|
                from <= q < p ==> !occurs_at(hay, needle, q),
            None => forall|q: int| from <= q ==> !occurs_at(hay, needle, q),
        },
    decreases hay.len() + 1 - from,
{
    if from + needle.len() > hay.len() {
    } else if occurs_at(hay, needle, from) {
    } else {
        lemma_find_from(hay, needle, from + 1);
    }
}

/// `strstr`: the rest of `hay` from the first occurrence of `needle`.
pub fn strstr<'a>(hay: &'a [u8], needle: &[u8]) -> (r: Option<&'a [u8]>)
    ensures
        match find(hay@, needle@) {
            Some(p) => r matches Some(s) && s@ == hay@.subrange(p, hay@.len() as int),
            None => r is None,
        },
{
    proof {
        lemma_find_from(hay@, needle@, 0);
    }
    match find_bytes(hay, needle) {
        Some(pos) => Some(&hay[pos..hay.len()]),
        None => None,
    }
}

/// The bytes of the Unicode lowercase mapping of a UTF-8 string, as std's
/// `str::to_lowercase` computes it.
pub uninterp spec fn utf8_lowercase(bytes: Seq<u8>) -> Seq<u8>;

/// Calls std's `str::to_lowercase` on `s` (which is valid UTF-8, so the
/// lossy view is `s` itself) and hands back the bytes of the new `String`.
/// The contract only names the result: it is `utf8_lowercase` of `s`.
#[verifier::external_body]
fn to_lowercase(s: &[u8]) -> (r: Vec<u8>)
    requires
        valid_utf8(s@),
    ensures
        r@ == utf8_lowercase(s@),
{
    String::from_utf8_lossy(s).to_lowercase().into_bytes()
}

/// Where the lowercase of `needle` first occurs in the lowercase of `hay`.
pub open spec fn ci_find(hay: Seq<u8>, needle: Seq<u8>) -> Option<int> {
    find(utf8_lowercase(hay), utf8_lowercase(needle))
}

/// The position found by `ci_find`, if any, is a character boundary of
/// `hay` itself (lowercasing can change byte lengths, so it need not be).
pub open spec fn ci_position_fits(hay: Seq<u8>, needle: Seq<u8>) -> bool {
    match ci_find(hay, needle) {
        Some(p) => is_char_boundary(hay, p),
        None => true,
    }
}

/// Whether `i` is a character boundary of the valid UTF-8 string `s`.
pub fn at_char_boundary(s: &[u8], i: usize) -> (r: bool)
    requires
        valid_utf8(s@),
    ensures
        r == is_char_boundary(s@, i as int),
{
    if i == 0 || i == s.len() {
        proof {
            is_char_boundary_start_end_of_seq(s@);
        }
        true
    } else if i > s.len() {
        proof {
            lemma_char_boundary_in_range(s@, i as int);
        }
        false
    } else {
        let b = s[i];
        proof {
            is_char_boundary_iff_not_is_continuation_byte(s@, i as int);
        }
        !(0x80 <= b && b <= 0xbf)
    }
}

/// A character boundary lies within the string.
pub proof fn lemma_char_boundary_in_range(s: Seq<u8>, i: int)
    requires
        valid_utf8(s),
    ensures
        is_char_boundary(s, i) ==> 0 <= i <= s.len(),
    decreases s.len(),
{
    if i != 0 && 0 <= i <= s.len() && s.len() > 0 {
        lemma_char_boundary_in_range(pop_first_scalar(s), i - length_of_first_scalar(s));
    }
}

/// The rest of `hay` from where `lower_needle` first occurs in
/// `lower_hay`, the lowercase forms of `hay` and of a needle.  A position
/// found must fall on a character boundary of `hay`.
pub fn cistrstr_lowered<'a>(hay: &'a [u8], lower_hay: &[u8], lower_needle: &[u8]) -> (r: Option<&'a [u8]>)
    requires
        valid_utf8(hay@),
        match find(lower_hay@, lower_needle@) {
            Some(p) => is_char_boundary(hay@, p),
            None => true,
        },
    ensures
        match find(lower_hay@, lower_needle@) {
            Some(p) => r matches Some(s) && s@ == hay@.subrange(p, hay@.len() as int),
            None => r is None,
        },
{
    match find_bytes(lower_hay, lower_needle) {
        Some(pos) => {
            proof {
                lemma_char_boundary_in_range(hay@, pos as int);
            }
            Some(&hay[pos..hay.len()])
        },
        None => None,
    }
}

/// Case-insensitive `strstr`: searches the lowercase of `needle` in the
/// lowercase of `hay` and hands back `hay` from the position found.
pub fn cistrstr<'a>(hay: &'a [u8], needle: &[u8]) -> (r: Option<&'a [u8]>)
    requires
        valid_utf8(hay@),
        valid_utf8(needle@),
        ci_position_fits(hay@, needle@),
    ensures
        match ci_find(hay@, needle@) {
            Some(p) => r matches Some(s) && s@ == hay@.subrange(p, hay@.len() as int),
            None => r is None,
        },
{
    let lh = to_lowercase(hay);
    let ln = to_lowercase(needle);
    cistrstr_lowered(hay, lh.as_slice(), ln.as_slice())
}

/// `cistrstr` where the position found falls on a character boundary of
/// `hay`; `None` where it does not (there the slice cannot be taken).
pub fn cistrstr_checked<'a>(hay: &'a [u8], needle: &[u8]) -> (r: Option<Option<&'a [u8]>>)
    requires
        valid_utf8(hay@),
        valid_utf8(needle@),
    ensures
        r is None <==> !ci_position_fits(hay@, needle@),
        r matches Some(found) ==> match ci_find(hay@, needle@) {
            Some(p) => found matches Some(s) && s@ == hay@.subrange(p, hay@.len() as int),
            None => found is None,
        },
{
    let lh = to_lowercase(hay);
    let ln = to_lowercase(needle);
    match find_bytes(lh.as_slice(), ln.as_slice()) {
        Some(pos) => {
            if at_char_boundary(hay, pos) {
                Some(cistrstr_lowered(hay, lh.as_slice(), ln.as_slice()))
            } else {
                None
            }
        },
        None => Some(cistrstr_lowered(hay, lh.as_slice(), ln.as_slice())),
    }
}

/// The bytes of std's `String::from_utf8_lossy` of `bytes`.
pub uninterp spec fn utf8_lossy(bytes: Seq<u8>) -> Seq<u8>;

/// Calls std's `String::from_utf8_lossy` and hands back the bytes of the
/// string.  Its documentation states that the result is a string (so valid
/// UTF-8) and that valid input comes back unchanged; what replaces invalid
/// sequences is only named.  Like every `String`, the result holds at most
/// `isize::MAX` bytes.
#[verifier::external_body]
pub(crate) fn from_utf8_lossy(b: &[u8]) -> (r: Vec<u8>)
    ensures
        r@ == utf8_lossy(b@),
        valid_utf8(r@),
        valid_utf8(b@) ==> r@ == b@,
        r@.len() <= isize::MAX,
{
    String::from_utf8_lossy(b).into_owned().into_bytes()
}

/// Calls std's `str::from_utf8` and reports whether it accepts `b`.  Its
/// documentation says it accepts exactly the valid UTF-8 byte strings,
/// which is what `valid_utf8` defines.
#[verifier::external_body]
pub(crate) fn is_valid_utf8(b: &[u8]) -> (r: bool)
    ensures
        r == valid_utf8(b@),
{
    std::str::from_utf8(b).is_ok()
}

} // verus!
