//! Characters, tokens and text cleanup.
//!
//! The vocabulary filter and the recognized-text cleanup work character by
//! character.  The three character-level facts that only the standard
//! library knows (the Unicode white-space property, the alphanumeric
//! property, and lower-case folding) are named and taken on trust; every
//! split, trim and cut is specified and proved over those names.

use vstd::prelude::*;
use vstd::string::StrSliceExecFns;

verus! {

/// Whether a character has the Unicode white-space property.
pub uninterp spec fn is_ws_char(c: char) -> bool;

/// Relies on char::is_whitespace: the Unicode White_Space property of the
/// character, a function of the character alone.
#[verifier::external_body]
pub(crate) fn char_is_whitespace(c: char) -> (r: bool)
    ensures
        r == is_ws_char(c),
{
    c.is_whitespace()
}

/// Whether a character is alphabetic or numeric under Unicode.
pub uninterp spec fn is_alnum_char(c: char) -> bool;

/// Relies on char::is_alphanumeric: the Unicode alphabetic-or-numeric test,
/// a function of the character alone.
#[verifier::external_body]
pub(crate) fn char_is_alphanumeric(c: char) -> (r: bool)
    ensures
        r == is_alnum_char(c),
{
    c.is_alphanumeric()
}

/// The lower-case folding of a character sequence.
pub uninterp spec fn lower_of(s: Seq<char>) -> Seq<char>;

/// Relies on str::to_lowercase: the result depends on the characters alone.
#[verifier::external_body]
pub(crate) fn to_lowercase(s: &str) -> (r: String)
    ensures
        r@ == lower_of(s@),
{
    s.to_lowercase()
}

/// End of the run of non-white-space characters starting at `i`: the first
/// index at or after `i` holding white space, or the end of `s`.
pub open spec fn run_end(s: Seq<char>, i: int) -> int
    decreases s.len() - i,
{
    if i < 0 || i >= s.len() {
        i
    } else if is_ws_char(s[i]) {
        i
    } else {
        run_end(s, i + 1)
    }
}

pub proof fn lemma_run_end(s: Seq<char>, i: int)
    requires
        0 <= i <= s.len(),
    ensures
        i <= run_end(s, i) <= s.len(),
        forall|k: int| i <= k < run_end(s, i) ==> !is_ws_char(#[trigger] s[k]),
        run_end(s, i) < s.len() ==> is_ws_char(s[run_end(s, i)]),
    decreases s.len() - i,
{
    if i < s.len() && !is_ws_char(s[i]) {
        lemma_run_end(s, i + 1);
    }
}

/// The white-space-separated tokens of `s` from position `i` on: maximal
/// runs of non-white-space characters, in order.
pub open spec fn ws_split_from(s: Seq<char>, i: int) -> Seq<Seq<char>>
    decreases s.len() - i,
    via ws_split_from_decreases
{
    if i < 0 || i >= s.len() {
        Seq::empty()
    } else if is_ws_char(s[i]) {
        ws_split_from(s, i + 1)
    } else {
        seq![s.subrange(i, run_end(s, i))] + ws_split_from(s, run_end(s, i))
    }
}

#[via_fn]
proof fn ws_split_from_decreases(s: Seq<char>, i: int) {
    if 0 <= i && i < s.len() && !is_ws_char(s[i]) {
        lemma_run_end(s, i + 1);
    }
}

/// The white-space-separated tokens of `s`.
pub open spec fn ws_tokens(s: Seq<char>) -> Seq<Seq<char>> {
    ws_split_from(s, 0)
}

/// End of the token starting at `i`: the position of the next
/// white-space character at or after `i`, or the end of the text.
pub(crate) fn scan_token_end(text: &str, i: usize) -> (r: usize)
    requires
        i as int <= text@.len(),
    ensures
        r == run_end(text@, i as int),
        i <= r <= text@.len(),
{
    let ghost s = text@;
    let n: usize = text.unicode_len();
    let mut j: usize = i;
    while j < n
        invariant
            n == s.len(),
            s == text@,
            i <= j <= n,
            run_end(s, i as int) == run_end(s, j as int),
        decreases n - j,
    {
        if char_is_whitespace(text.get_char(j)) {
            return j;
        }
        j = j + 1;
    }
    n
}

/// First index at or after `i` holding an alphanumeric character, or `-1`.
pub open spec fn first_alnum_from(s: Seq<char>, i: int) -> int
    decreases s.len() - i,
{
    if i < 0 || i >= s.len() {
        -1
    } else if is_alnum_char(s[i]) {
        i
    } else {
        first_alnum_from(s, i + 1)
    }
}

/// First index at or after `i` holding a character that is neither
/// alphanumeric nor white space, or the end of `s`.
pub open spec fn first_junk_from(s: Seq<char>, i: int) -> int
    decreases s.len() - i,
{
    if i < 0 || i >= s.len() {
        s.len() as int
    } else if !is_alnum_char(s[i]) && !is_ws_char(s[i]) {
        i
    } else {
        first_junk_from(s, i + 1)
    }
}

/// First index at or after `i` holding non-white-space, or the end of `s`.
pub open spec fn first_solid_from(s: Seq<char>, i: int) -> int
    decreases s.len() - i,
{
    if i < 0 || i >= s.len() {
        s.len() as int
    } else if !is_ws_char(s[i]) {
        i
    } else {
        first_solid_from(s, i + 1)
    }
}

/// Position after the last non-white-space character before `k`, or zero.
pub open spec fn last_solid_end(s: Seq<char>, k: int) -> int
    decreases k,
{
    if k <= 0 {
        0
    } else if is_ws_char(s[k - 1]) {
        last_solid_end(s, k - 1)
    } else {
        k
    }
}

/// `s` with white space removed from both ends.
pub open spec fn spec_trim(s: Seq<char>) -> Seq<char> {
    let a = first_solid_from(s, 0);
    let b = last_solid_end(s, s.len() as int);
    if a >= b {
        Seq::empty()
    } else {
        s.subrange(a, b)
    }
}

/// The cleaned-up form of recognized text: the stretch from the first
/// alphanumeric character (or the start, when there is none) up to the
/// first character that is neither alphanumeric nor white space, trimmed of
/// surrounding white space and cut to at most twenty characters.
pub open spec fn spec_clean_text(s: Seq<char>) -> Seq<char> {
    let start = if first_alnum_from(s, 0) == -1 {
        0int
    } else {
        first_alnum_from(s, 0)
    };
    let end = first_junk_from(s, start);
    let trimmed = spec_trim(s.subrange(start, end));
    if trimmed.len() <= 20 {
        trimmed
    } else {
        trimmed.take(20)
    }
}

/// First alphanumeric position of `text`, or zero when there is none.
fn scan_alnum_start(text: &str) -> (r: usize)
    ensures
        r as int == (if first_alnum_from(text@, 0) == -1 {
            0int
        } else {
            first_alnum_from(text@, 0)
        }),
        r <= text@.len(),
{
    let ghost s = text@;
    let n: usize = text.unicode_len();
    let mut i: usize = 0;
    while i < n
        invariant
            n == s.len(),
            s == text@,
            0 <= i <= n,
            first_alnum_from(s, 0) == first_alnum_from(s, i as int),
        decreases n - i,
    {
        if char_is_alphanumeric(text.get_char(i)) {
            return i;
        }
        i = i + 1;
    }
    0
}

/// First junk position of `text` at or after `start`: the first character
/// that is neither alphanumeric nor white space, or the end.
fn scan_junk(text: &str, start: usize) -> (r: usize)
    requires
        start <= text@.len(),
    ensures
        r == first_junk_from(text@, start as int),
        start <= r <= text@.len(),
{
    let ghost s = text@;
    let n: usize = text.unicode_len();
    let mut i: usize = start;
    while i < n
        invariant
            n == s.len(),
            s == text@,
            start <= i <= n,
            first_junk_from(s, start as int) == first_junk_from(s, i as int),
        decreases n - i,
    {
        let c = text.get_char(i);
        if !char_is_alphanumeric(c) && !char_is_whitespace(c) {
            return i;
        }
        i = i + 1;
    }
    n
}

/// First non-white-space position of `text`, or its end.
fn scan_solid_start(text: &str) -> (r: usize)
    ensures
        r == first_solid_from(text@, 0),
        r <= text@.len(),
{
    let ghost s = text@;
    let n: usize = text.unicode_len();
    let mut i: usize = 0;
    while i < n
        invariant
            n == s.len(),
            s == text@,
            0 <= i <= n,
            first_solid_from(s, 0) == first_solid_from(s, i as int),
        decreases n - i,
    {
        if !char_is_whitespace(text.get_char(i)) {
            return i;
        }
        i = i + 1;
    }
    n
}

/// Position after the last non-white-space character of `text`, or zero.
fn scan_solid_end(text: &str) -> (r: usize)
    ensures
        r == last_solid_end(text@, text@.len() as int),
        r <= text@.len(),
{
    let ghost s = text@;
    let n: usize = text.unicode_len();
    let mut b: usize = n;
    while b > 0
        invariant
            n == s.len(),
            s == text@,
            0 <= b <= n,
            last_solid_end(s, n as int) == last_solid_end(s, b as int),
        decreases b,
    {
        if !char_is_whitespace(text.get_char(b - 1)) {
            return b;
        }
        b = b - 1;
    }
    0
}

/// Clean a stretch of recognized text: keep from the first alphanumeric
/// character to the first outright junk character, trim white space, cut to
/// twenty characters.  Feeds the token filter on the text-recognition
/// identification path.
pub fn clean_recognized_text(text: &str) -> (r: String)
    ensures
        r@ == spec_clean_text(text@),
{
    let ghost s = text@;
    let start: usize = scan_alnum_start(text);
    let end: usize = scan_junk(text, start);
    let core: &str = text.substring_char(start, end);
    let ghost cs = core@;
    let a: usize = scan_solid_start(core);
    let b: usize = scan_solid_end(core);
    if a >= b {
        proof {
            assert(spec_trim(cs) =~= Seq::<char>::empty());
        }
        let empty = String::new();
        return empty;
    }
    let trimmed: &str = core.substring_char(a, b);
    let len: usize = b - a;
    let cut: usize = if len <= 20 {
        len
    } else {
        20
    };
    let out: &str = trimmed.substring_char(0, cut);
    proof {
        assert(trimmed@ == spec_trim(cs));
        assert(out@ =~= spec_clean_text(s));
    }
    out.to_owned()
}

} // verus!
