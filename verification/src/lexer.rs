//! Lexical ground work: byte classes, scanning primitives, comments, and the
//! whitespace/comment separator skipper.
//!
//! Every scanning `spec fn` here is the mathematical model that the
//! executable functions are proved against. Positions are byte offsets into
//! the input; a scan never moves backwards and never leaves the buffer.

use vstd::prelude::*;

verus! {

/// Opening delimiter of an identifier reference (`<`).
pub const OPEN_DELIM: u8 = 60;

/// Closing delimiter of an identifier reference (`>`).
pub const CLOSE_DELIM: u8 = 62;

/// Comment marker (`#`).
pub const COMMENT_MARK: u8 = 35;

/// Quote character opening and closing a literal value (`"`).
pub const QUOTE_MARK: u8 = 34;

/// Language-tag marker on a literal (`@`).
pub const LANGUAGE_MARK: u8 = 64;

/// One half of the two-character datatype marker (`^`).
pub const CARET_MARK: u8 = 94;

/// Statement terminator character (`.`).
pub const STATEMENT_END: u8 = 46;

/// First byte of the blank-node prefix marker (`_`).
pub const UNDERSCORE: u8 = 95;

/// Second byte of the blank-node prefix marker (`:`).
pub const COLON_MARK: u8 = 58;

/// Whitespace bytes recognized inside separator runs.
pub const SPACE: u8 = 32;

pub const TAB: u8 = 9;

pub const CARRIAGE_RETURN: u8 = 13;

pub const LINE_FEED: u8 = 10;

/// Leading bytes of the UTF-8 encodings of the Unicode line separator and
/// paragraph separator code points; their third bytes differ.
pub const UNICODE_SEP_BYTE_0: u8 = 226;

pub const UNICODE_SEP_BYTE_1: u8 = 128;

pub const LINE_SEP_BYTE_2: u8 = 168;

pub const PARA_SEP_BYTE_2: u8 = 169;

/// The whitespace bytes a separator run may contain.
pub open spec fn is_ws_byte(b: u8) -> bool {
    b == SPACE || b == TAB || b == CARRIAGE_RETURN || b == LINE_FEED
}

/// ASCII letters and digits: the bytes a name may contain.
pub open spec fn is_alnum_byte(b: u8) -> bool {
    (48 <= b && b <= 57) || (65 <= b && b <= 90) || (97 <= b && b <= 122)
}

/// A byte may stand inside an identifier body exactly when it is not the
/// closing delimiter.
pub fn is_absolute_uri_char(c: u8) -> (r: bool)
    ensures
        r == (c != CLOSE_DELIM),
{
    c != CLOSE_DELIM
}

pub fn ws_byte(b: u8) -> (r: bool)
    ensures
        r == is_ws_byte(b),
{
    b == SPACE || b == TAB || b == CARRIAGE_RETURN || b == LINE_FEED
}

pub fn alnum_byte(b: u8) -> (r: bool)
    ensures
        r == is_alnum_byte(b),
{
    (48 <= b && b <= 57) || (65 <= b && b <= 90) || (97 <= b && b <= 122)
}

/// The first index at or after `i` whose byte equals `b`, or the input length
/// if `b` does not occur there.
pub open spec fn find_from(s: Seq<u8>, i: int, b: u8) -> int
    recommends
        0 <= i <= s.len(),
    decreases s.len() - i,
{
    if i < 0 || i >= s.len() {
        s.len() as int
    } else if s[i] == b {
        i
    } else {
        find_from(s, i + 1, b)
    }
}

/// What `find_from` returns: a position in bounds, holding `b` if in range,
/// with no earlier occurrence.
pub proof fn lemma_find_from(s: Seq<u8>, i: int, b: u8)
    requires
        0 <= i <= s.len(),
    ensures
        i <= find_from(s, i, b) <= s.len(),
        find_from(s, i, b) < s.len() ==> s[find_from(s, i, b)] == b,
        forall|k: int| i <= k < find_from(s, i, b) ==> s[k] != b,
    decreases s.len() - i,
{
    if i < s.len() && s[i] != b {
        lemma_find_from(s, i + 1, b);
    }
}

/// `find_from` lands on `j` exactly when `b` is absent before `j` and `j` is
/// either an occurrence of `b` or the input end.
pub proof fn lemma_find_from_is(s: Seq<u8>, i: int, b: u8, j: int)
    requires
        0 <= i <= j <= s.len(),
        forall|k: int| i <= k < j ==> s[k] != b,
        j == s.len() || s[j] == b,
    ensures
        find_from(s, i, b) == j,
    decreases j - i,
{
    if i < j {
        lemma_find_from_is(s, i + 1, b, j);
    }
}

/// The first index at or after `i` whose byte is not an ASCII letter or
/// digit, or the input length if the run reaches the end.
pub open spec fn alnum_end(s: Seq<u8>, i: int) -> int
    recommends
        0 <= i <= s.len(),
    decreases s.len() - i,
{
    if i < 0 || i >= s.len() {
        s.len() as int
    } else if !is_alnum_byte(s[i]) {
        i
    } else {
        alnum_end(s, i + 1)
    }
}

/// What `alnum_end` returns: the end of the maximal alphanumeric run at `i`.
pub proof fn lemma_alnum_end(s: Seq<u8>, i: int)
    requires
        0 <= i <= s.len(),
    ensures
        i <= alnum_end(s, i) <= s.len(),
        alnum_end(s, i) < s.len() ==> !is_alnum_byte(s[alnum_end(s, i)]),
        forall|k: int| i <= k < alnum_end(s, i) ==> is_alnum_byte(s[k]),
    decreases s.len() - i,
{
    if i < s.len() && is_alnum_byte(s[i]) {
        lemma_alnum_end(s, i + 1);
    }
}

/// `alnum_end` lands on `j` exactly when everything before `j` is
/// alphanumeric and `j` is either a non-alphanumeric byte or the input end.
pub proof fn lemma_alnum_end_is(s: Seq<u8>, i: int, j: int)
    requires
        0 <= i <= j <= s.len(),
        forall|k: int| i <= k < j ==> is_alnum_byte(s[k]),
        j == s.len() || !is_alnum_byte(s[j]),
    ensures
        alnum_end(s, i) == j,
    decreases j - i,
{
    if i < j {
        lemma_alnum_end_is(s, i + 1, j);
    }
}

/// The UTF-8 encoding of the Unicode line separator or paragraph separator
/// starts at index `i`.
pub open spec fn unicode_sep_at(s: Seq<u8>, i: int) -> bool {
    &&& 0 <= i
    &&& i + 3 <= s.len()
    &&& s[i] == UNICODE_SEP_BYTE_0
    &&& s[i + 1] == UNICODE_SEP_BYTE_1
    &&& (s[i + 2] == LINE_SEP_BYTE_2 || s[i + 2] == PARA_SEP_BYTE_2)
}

/// A line-terminating character begins at index `i`: carriage return, line
/// feed, or one of the two Unicode separators. A comment body may not
/// contain any of these.
pub open spec fn line_break_at(s: Seq<u8>, i: int) -> bool {
    ||| (0 <= i < s.len() && (s[i] == LINE_FEED || s[i] == CARRIAGE_RETURN))
    ||| unicode_sep_at(s, i)
}

/// The first index at or after `i` where a line-terminating character
/// begins, or the input length.
pub open spec fn comment_body_end(s: Seq<u8>, i: int) -> int
    recommends
        0 <= i <= s.len(),
    decreases s.len() - i,
{
    if i < 0 || i >= s.len() {
        s.len() as int
    } else if line_break_at(s, i) {
        i
    } else {
        comment_body_end(s, i + 1)
    }
}

/// What `comment_body_end` returns: the end of the maximal run free of
/// line-terminating characters.
pub proof fn lemma_comment_body_end(s: Seq<u8>, i: int)
    requires
        0 <= i <= s.len(),
    ensures
        i <= comment_body_end(s, i) <= s.len(),
        comment_body_end(s, i) < s.len() ==> line_break_at(s, comment_body_end(s, i)),
        forall|k: int| i <= k < comment_body_end(s, i) ==> !line_break_at(s, k),
    decreases s.len() - i,
{
    if i < s.len() && !line_break_at(s, i) {
        lemma_comment_body_end(s, i + 1);
    }
}

/// `comment_body_end` lands on `j` exactly when no line-terminating
/// character begins before `j` and one begins at `j`, or `j` is the end.
pub proof fn lemma_comment_body_end_is(s: Seq<u8>, i: int, j: int)
    requires
        0 <= i <= j <= s.len(),
        forall|k: int| i <= k < j ==> !line_break_at(s, k),
        j == s.len() || line_break_at(s, j),
    ensures
        comment_body_end(s, i) == j,
    decreases j - i,
{
    if i < j {
        lemma_comment_body_end_is(s, i + 1, j);
    }
}

/// If one of the four recognized line terminators (carriage return plus line
/// feed, line feed alone, or a Unicode separator) starts at `i`, the index
/// just past it; `None` otherwise. A bare carriage return is a
/// line-terminating character but not a recognized terminator.
pub open spec fn line_term_end(s: Seq<u8>, i: int) -> Option<int> {
    if 0 <= i && i + 2 <= s.len() && s[i] == CARRIAGE_RETURN && s[i + 1] == LINE_FEED {
        Some(i + 2)
    } else if 0 <= i && i < s.len() && s[i] == LINE_FEED {
        Some(i + 1)
    } else if unicode_sep_at(s, i) {
        Some(i + 3)
    } else {
        None
    }
}

/// A comment at `pos`: the comment marker, a run free of line-terminating
/// characters, then a recognized line terminator or the input end. The
/// result is the position just past the comment, or `None` when no comment
/// matches there (no marker, or the body stops at an unrecognized
/// terminator such as a bare carriage return).
pub open spec fn spec_comment(s: Seq<u8>, pos: int) -> Option<int> {
    if !(0 <= pos < s.len() && s[pos] == COMMENT_MARK) {
        None
    } else {
        let e = comment_body_end(s, pos + 1);
        if e >= s.len() {
            Some(s.len() as int)
        } else {
            line_term_end(s, e)
        }
    }
}

/// A matched comment always makes progress and stays in bounds.
pub proof fn lemma_comment_bounds(s: Seq<u8>, pos: int)
    requires
        0 <= pos <= s.len(),
    ensures
        spec_comment(s, pos) matches Some(k) ==> pos < k <= s.len(),
{
    if 0 <= pos < s.len() && s[pos] == COMMENT_MARK {
        lemma_comment_body_end(s, pos + 1);
    }
}

/// The position after the separator run at `pos`: zero or more whitespace
/// bytes and comments. A comment that fails (unrecognized terminator) ends
/// the run at its marker.
pub open spec fn spec_skip(s: Seq<u8>, pos: int) -> int
    recommends
        0 <= pos <= s.len(),
    decreases s.len() - pos,
{
    if pos < 0 || pos >= s.len() {
        pos
    } else if is_ws_byte(s[pos]) {
        spec_skip(s, pos + 1)
    } else if s[pos] == COMMENT_MARK {
        match spec_comment(s, pos) {
            Some(k) => if pos < k && k <= s.len() {
                spec_skip(s, k)
            } else {
                pos
            },
            None => pos,
        }
    } else {
        pos
    }
}

/// Skipping separators never moves backwards and never leaves the buffer.
pub proof fn lemma_skip_bounds(s: Seq<u8>, pos: int)
    requires
        0 <= pos <= s.len(),
    ensures
        pos <= spec_skip(s, pos) <= s.len(),
    decreases s.len() - pos,
{
    if pos < s.len() {
        if is_ws_byte(s[pos]) {
            lemma_skip_bounds(s, pos + 1);
        } else if s[pos] == COMMENT_MARK {
            if let Some(k) = spec_comment(s, pos) {
                lemma_comment_bounds(s, pos);
                if pos < k && k <= s.len() {
                    lemma_skip_bounds(s, k);
                }
            }
        }
    }
}

/// The first occurrence of `b` at or after `from`, executable form.
pub fn find_byte(input: &[u8], from: usize, b: u8) -> (r: usize)
    requires
        from <= input@.len(),
    ensures
        r as int == find_from(input@, from as int, b),
        from <= r <= input@.len(),
        r < input@.len() ==> input@[r as int] == b,
{
    proof {
        lemma_find_from(input@, from as int, b);
    }
    let mut i = from;
    loop
        invariant
            from <= i <= input@.len(),
            find_from(input@, from as int, b) == find_from(input@, i as int, b),
        ensures
            i as int == find_from(input@, from as int, b),
        decreases input@.len() - i,
    {
        if i == input.len() {
            break;
        }
        if input[i] == b {
            break;
        }
        i = i + 1;
    }
    i
}

/// The end of the maximal alphanumeric run at `from`, executable form.
pub fn alnum_run_end(input: &[u8], from: usize) -> (r: usize)
    requires
        from <= input@.len(),
    ensures
        r as int == alnum_end(input@, from as int),
        from <= r <= input@.len(),
{
    proof {
        lemma_alnum_end(input@, from as int);
    }
    let mut i = from;
    loop
        invariant
            from <= i <= input@.len(),
            alnum_end(input@, from as int) == alnum_end(input@, i as int),
        ensures
            i as int == alnum_end(input@, from as int),
        decreases input@.len() - i,
    {
        if i == input.len() {
            break;
        }
        if !alnum_byte(input[i]) {
            break;
        }
        i = i + 1;
    }
    i
}

/// An owned copy of the bytes in `[start, end)`.
pub fn copy_range(input: &[u8], start: usize, end: usize) -> (r: Vec<u8>)
    requires
        start <= end <= input@.len(),
    ensures
        r@ == input@.subrange(start as int, end as int),
{
    let mut out: Vec<u8> = Vec::new();
    let mut i = start;
    while i < end
        invariant
            start <= i <= end <= input@.len(),
            out@ == input@.subrange(start as int, i as int),
        decreases end - i,
    {
        out.push(input[i]);
        proof {
            assert(out@ =~= input@.subrange(start as int, i as int + 1));
        }
        i = i + 1;
    }
    out
}

/// A name at `pos`: the maximal run of ASCII letters and digits, which must
/// not be empty. `None` when the run is empty.
pub open spec fn spec_name(s: Seq<u8>, pos: int) -> Option<(Seq<u8>, int)> {
    let e = alnum_end(s, pos);
    if e == pos {
        None
    } else {
        Some((s.subrange(pos, e), e))
    }
}

/// Recognize a name: the maximal non-empty run of ASCII letters and digits
/// at `pos`, with the position just past it.
pub fn name(input: &[u8], pos: usize) -> (r: Option<(Vec<u8>, usize)>)
    requires
        pos <= input@.len(),
    ensures
        (match r {
            Some(p) => spec_name(input@, pos as int) == Some((p.0@, p.1 as int)) && pos < p.1
                <= input@.len(),
            None => spec_name(input@, pos as int) is None,
        }),
{
    let e = alnum_run_end(input, pos);
    if e == pos {
        None
    } else {
        Some((copy_range(input, pos, e), e))
    }
}

/// Recognize an identifier body at `pos`: the maximal (possibly empty) run
/// of bytes other than the closing delimiter, with the position just past
/// it. This primitive always succeeds.
pub fn absolute_uri(input: &[u8], pos: usize) -> (r: (Vec<u8>, usize))
    requires
        pos <= input@.len(),
    ensures
        r.1 as int == find_from(input@, pos as int, CLOSE_DELIM),
        r.0@ == input@.subrange(pos as int, r.1 as int),
        pos <= r.1 <= input@.len(),
{
    let j = find_byte(input, pos, CLOSE_DELIM);
    (copy_range(input, pos, j), j)
}

fn line_break_at_exec(input: &[u8], i: usize) -> (r: bool)
    requires
        i <= input@.len(),
    ensures
        r == line_break_at(input@, i as int),
{
    if i < input.len() && (input[i] == LINE_FEED || input[i] == CARRIAGE_RETURN) {
        true
    } else {
        input.len() - i >= 3 && input[i] == UNICODE_SEP_BYTE_0 && input[i + 1]
            == UNICODE_SEP_BYTE_1 && (input[i + 2] == LINE_SEP_BYTE_2 || input[i + 2]
            == PARA_SEP_BYTE_2)
    }
}

fn line_term_end_exec(input: &[u8], i: usize) -> (r: Option<usize>)
    requires
        i <= input@.len(),
    ensures
        (match r {
            Some(k) => line_term_end(input@, i as int) == Some(k as int) && i < k <= input@.len(),
            None => line_term_end(input@, i as int) is None,
        }),
{
    if input.len() - i >= 2 && input[i] == CARRIAGE_RETURN && input[i + 1] == LINE_FEED {
        Some(i + 2)
    } else if i < input.len() && input[i] == LINE_FEED {
        Some(i + 1)
    } else if input.len() - i >= 3 && input[i] == UNICODE_SEP_BYTE_0 && input[i + 1]
        == UNICODE_SEP_BYTE_1 && (input[i + 2] == LINE_SEP_BYTE_2 || input[i + 2]
        == PARA_SEP_BYTE_2) {
        Some(i + 3)
    } else {
        None
    }
}

/// Recognize a comment at `pos`: the marker, a body free of line-terminating
/// characters, then a recognized line terminator or the input end. Returns
/// the position just past the comment; yields no value beyond that (a
/// comment is a pure skip).
pub fn comment(input: &[u8], pos: usize) -> (r: Option<usize>)
    requires
        pos <= input@.len(),
    ensures
        (match r {
            Some(k) => spec_comment(input@, pos as int) == Some(k as int) && pos < k
                <= input@.len(),
            None => spec_comment(input@, pos as int) is None,
        }),
{
    if pos == input.len() || input[pos] != COMMENT_MARK {
        return None;
    }
    proof {
        lemma_comment_body_end(input@, pos as int + 1);
        lemma_comment_bounds(input@, pos as int);
    }
    let mut i = pos + 1;
    loop
        invariant
            pos as int + 1 <= i as int <= input@.len(),
            comment_body_end(input@, pos as int + 1) == comment_body_end(input@, i as int),
        ensures
            i as int == comment_body_end(input@, pos as int + 1),
        decreases input@.len() - i,
    {
        if i == input.len() {
            break;
        }
        if line_break_at_exec(input, i) {
            break;
        }
        i = i + 1;
    }
    if i == input.len() {
        Some(i)
    } else {
        line_term_end_exec(input, i)
    }
}

/// Skip the separator run at `pos`: zero or more whitespace bytes and
/// comments, treated as one transparent token boundary.
pub fn skip_separators(input: &[u8], pos: usize) -> (r: usize)
    requires
        pos <= input@.len(),
    ensures
        r as int == spec_skip(input@, pos as int),
        pos <= r <= input@.len(),
{
    let mut i = pos;
    loop
        invariant
            pos <= i <= input@.len(),
            spec_skip(input@, pos as int) == spec_skip(input@, i as int),
        ensures
            i as int == spec_skip(input@, pos as int),
            pos <= i <= input@.len(),
        decreases input@.len() - i,
    {
        if i == input.len() {
            break;
        }
        let b = input[i];
        if ws_byte(b) {
            i = i + 1;
        } else if b == COMMENT_MARK {
            match comment(input, i) {
                Some(k) => {
                    i = k;
                },
                None => {
                    break;
                },
            }
        } else {
            break;
        }
    }
    i
}

} // verus!
