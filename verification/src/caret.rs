//! Caret-based text editing for text boxes and inline sticky notes.
//!
//! The caret is a *byte* offset into the UTF-8 content, exactly as in the
//! on-canvas editors: every operation first pins the caret to a character
//! boundary, then moves it or edits around it. Positions and sizes in world
//! units are derived from the line / column counts computed here.
use vstd::prelude::*;
use vstd::utf8::*;
use crate::strings::{enc, insert_char_at, is_newline, remove_byte_range, starts_char, utf8_width};

verus! {

broadcast use vstd::utf8::group_utf8_lib;

// ---------------------------------------------------------------------------
// Specifications over the byte view of the content.
// ---------------------------------------------------------------------------

/// Largest character boundary at or below `i`.
pub open spec fn floor_boundary(b: Seq<u8>, i: int) -> int
    decreases i,
{
    if i <= 0 {
        0
    } else if is_char_boundary(b, i) {
        i
    } else {
        floor_boundary(b, i - 1)
    }
}

/// Where a caret at byte `c` lands once pinned inside the content and onto a
/// character boundary.
pub open spec fn clamp_caret(b: Seq<u8>, c: int) -> int {
    floor_boundary(b, if c > b.len() { b.len() as int } else { c })
}

/// Smallest character boundary strictly above `i` (the end of the content
/// when there is none).
pub open spec fn next_boundary(b: Seq<u8>, i: int) -> int
    decreases b.len() - i,
{
    if i + 1 >= b.len() {
        b.len() as int
    } else if is_char_boundary(b, i + 1) {
        i + 1
    } else {
        next_boundary(b, i + 1)
    }
}

/// Start of the line that contains byte offset `c`: just after the last
/// `'\n'` before `c`, or 0.
pub open spec fn line_start(b: Seq<u8>, c: int) -> int
    decreases c,
{
    if c <= 0 {
        0
    } else if is_newline(b[c - 1]) {
        c
    } else {
        line_start(b, c - 1)
    }
}

/// End of the line that contains byte offset `c`: the first `'\n'` at or
/// after `c`, or the end of the content.
pub open spec fn line_end(b: Seq<u8>, c: int) -> int
    decreases b.len() - c,
{
    if c >= b.len() {
        b.len() as int
    } else if is_newline(b[c]) {
        c
    } else {
        line_end(b, c + 1)
    }
}

/// Number of `'\n'` bytes in `[lo, hi)`.
pub open spec fn newline_count(b: Seq<u8>, lo: int, hi: int) -> nat
    decreases hi - lo,
{
    if hi <= lo {
        0
    } else {
        newline_count(b, lo, hi - 1) + (if is_newline(b[hi - 1]) { 1nat } else { 0nat })
    }
}

/// Number of characters that start in `[lo, hi)`.
pub open spec fn char_count(b: Seq<u8>, lo: int, hi: int) -> nat
    decreases hi - lo,
{
    if hi <= lo {
        0
    } else {
        char_count(b, lo, hi - 1) + (if starts_char(b[hi - 1]) { 1nat } else { 0nat })
    }
}

/// Byte offset of character number `k` (counting from 0) of the range
/// `[lo, hi)`, or `hi` when the range has no more than `k` characters.
pub open spec fn col_offset(b: Seq<u8>, lo: int, hi: int, k: nat) -> int
    decreases hi - lo,
{
    if lo >= hi {
        hi
    } else if starts_char(b[lo]) {
        if k == 0 {
            lo
        } else {
            col_offset(b, lo + 1, hi, (k - 1) as nat)
        }
    } else {
        col_offset(b, lo + 1, hi, k)
    }
}

/// The most characters on any line from the line starting at `lo` on.
pub open spec fn max_line_chars(b: Seq<u8>, lo: int) -> nat
    decreases b.len() - lo,
{
    let le = line_end(b, lo);
    let m = char_count(b, lo, le);
    if le >= b.len() || le < lo {
        m
    } else {
        let rest = max_line_chars(b, le + 1);
        if m >= rest {
            m
        } else {
            rest
        }
    }
}

/// Caret after "previous character".
pub open spec fn caret_left(b: Seq<u8>, c: int) -> int {
    let c0 = clamp_caret(b, c);
    if c0 == 0 {
        0
    } else {
        floor_boundary(b, c0 - 1)
    }
}

/// Caret after "next character".
pub open spec fn caret_right(b: Seq<u8>, c: int) -> int {
    let c0 = clamp_caret(b, c);
    if c0 >= b.len() {
        c0
    } else {
        next_boundary(b, c0)
    }
}

/// Caret after "same column on the previous line".
pub open spec fn caret_up(b: Seq<u8>, c: int) -> int {
    let c0 = clamp_caret(b, c);
    let ls = line_start(b, c0);
    if ls == 0 {
        0
    } else {
        col_offset(b, line_start(b, ls - 1), ls - 1, char_count(b, ls, c0))
    }
}

/// Caret after "same column on the next line".
pub open spec fn caret_down(b: Seq<u8>, c: int) -> int {
    let c0 = clamp_caret(b, c);
    let le = line_end(b, c0);
    if le >= b.len() {
        b.len() as int
    } else {
        col_offset(b, le + 1, line_end(b, le + 1), char_count(b, line_start(b, c0), c0))
    }
}

// ---------------------------------------------------------------------------
// Facts about the specifications.
// ---------------------------------------------------------------------------

/// A byte that is ASCII is followed by a character boundary.
proof fn lemma_after_ascii(b: Seq<u8>, i: int)
    requires
        valid_utf8(b),
        0 <= i < b.len(),
        b[i] <= 0x7f,
    ensures
        i + 1 == b.len() || starts_char(b[i + 1]),
{
    is_char_boundary_iff_not_is_continuation_byte(b, i);
    assert(is_char_boundary(b, i));
    let suffix = b.subrange(i, b.len() as int);
    valid_utf8_split(b, i);
    assert(valid_utf8(suffix));
    assert(suffix[0] == b[i]);
    assert(length_of_first_scalar(suffix) == 1);
    let rest = pop_first_scalar(suffix);
    assert(valid_utf8(rest));
    if i + 1 < b.len() {
        assert(rest.len() > 0);
        assert(rest[0] == b[i + 1]);
    }
}

/// The caret lands on a boundary inside the content, and nothing between it
/// and the requested position is a boundary.
pub proof fn lemma_floor_boundary(b: Seq<u8>, i: int)
    requires
        valid_utf8(b),
        i <= b.len(),
    ensures
        0 <= floor_boundary(b, i),
        i >= 0 ==> floor_boundary(b, i) <= i,
        is_char_boundary(b, floor_boundary(b, i)),
        forall|j: int| floor_boundary(b, i) < j <= i ==> !is_char_boundary(b, j),
    decreases i,
{
    is_char_boundary_start_end_of_seq(b);
    if i > 0 && !is_char_boundary(b, i) {
        lemma_floor_boundary(b, i - 1);
    }
}

/// `next_boundary` is the nearest boundary above `i`.
pub proof fn lemma_next_boundary(b: Seq<u8>, i: int)
    requires
        valid_utf8(b),
        0 <= i < b.len(),
    ensures
        i < next_boundary(b, i) <= b.len(),
        is_char_boundary(b, next_boundary(b, i)),
        forall|j: int| i < j < next_boundary(b, i) ==> !is_char_boundary(b, j),
    decreases b.len() - i,
{
    is_char_boundary_start_end_of_seq(b);
    if i + 1 < b.len() && !is_char_boundary(b, i + 1) {
        lemma_next_boundary(b, i + 1);
    }
}

/// `line_start` is just after the last newline before `c`.
pub proof fn lemma_line_start(b: Seq<u8>, c: int)
    requires
        0 <= c <= b.len(),
    ensures
        0 <= line_start(b, c) <= c,
        line_start(b, c) > 0 ==> is_newline(b[line_start(b, c) - 1]),
        forall|j: int| line_start(b, c) <= j < c ==> !is_newline(#[trigger] b[j]),
    decreases c,
{
    if c > 0 && !is_newline(b[c - 1]) {
        lemma_line_start(b, c - 1);
    }
}

/// `line_end` is the first newline at or after `c`, or the end.
pub proof fn lemma_line_end(b: Seq<u8>, c: int)
    requires
        0 <= c <= b.len(),
    ensures
        c <= line_end(b, c) <= b.len(),
        line_end(b, c) < b.len() ==> is_newline(b[line_end(b, c)]),
        forall|j: int| c <= j < line_end(b, c) ==> !is_newline(#[trigger] b[j]),
    decreases b.len() - c,
{
    if c < b.len() && !is_newline(b[c]) {
        lemma_line_end(b, c + 1);
    }
}

proof fn lemma_newline_is_boundary(b: Seq<u8>, i: int)
    requires
        valid_utf8(b),
        0 <= i < b.len(),
        is_newline(b[i]),
    ensures
        is_char_boundary(b, i),
        is_char_boundary(b, i + 1),
{
    is_char_boundary_start_end_of_seq(b);
    is_char_boundary_iff_not_is_continuation_byte(b, i);
    lemma_after_ascii(b, i);
    if i + 1 < b.len() {
        is_char_boundary_iff_not_is_continuation_byte(b, i + 1);
    }
}

/// A line start is a character boundary.
proof fn lemma_line_start_boundary(b: Seq<u8>, c: int)
    requires
        valid_utf8(b),
        0 <= c <= b.len(),
    ensures
        is_char_boundary(b, line_start(b, c)),
{
    lemma_line_start(b, c);
    is_char_boundary_start_end_of_seq(b);
    if line_start(b, c) > 0 {
        lemma_newline_is_boundary(b, line_start(b, c) - 1);
    }
}

/// A line end is a character boundary.
proof fn lemma_line_end_boundary(b: Seq<u8>, c: int)
    requires
        valid_utf8(b),
        0 <= c <= b.len(),
    ensures
        is_char_boundary(b, line_end(b, c)),
{
    lemma_line_end(b, c);
    is_char_boundary_start_end_of_seq(b);
    if line_end(b, c) < b.len() {
        lemma_newline_is_boundary(b, line_end(b, c));
    }
}

proof fn lemma_counts_bounded(b: Seq<u8>, lo: int, hi: int)
    requires
        lo <= hi,
    ensures
        newline_count(b, lo, hi) <= hi - lo,
        char_count(b, lo, hi) <= hi - lo,
    decreases hi - lo,
{
    if hi > lo {
        lemma_counts_bounded(b, lo, hi - 1);
    }
}

pub(crate) proof fn lemma_col_offset_range(b: Seq<u8>, lo: int, hi: int, k: nat)
    requires
        lo <= hi,
    ensures
        lo <= col_offset(b, lo, hi, k) <= hi,
    decreases hi - lo,
{
    if lo < hi {
        if starts_char(b[lo]) {
            if k > 0 {
                lemma_col_offset_range(b, lo + 1, hi, (k - 1) as nat);
            }
        } else {
            lemma_col_offset_range(b, lo + 1, hi, k);
        }
    }
}

/// The target of a column move is a character boundary.
pub(crate) proof fn lemma_col_offset_boundary(b: Seq<u8>, lo: int, hi: int, k: nat)
    requires
        valid_utf8(b),
        0 <= lo <= hi <= b.len(),
        is_char_boundary(b, hi),
    ensures
        is_char_boundary(b, col_offset(b, lo, hi, k)),
    decreases hi - lo,
{
    if lo < hi {
        if starts_char(b[lo]) {
            if k > 0 {
                lemma_col_offset_boundary(b, lo + 1, hi, (k - 1) as nat);
            }
        } else {
            lemma_col_offset_boundary(b, lo + 1, hi, k);
        }
    }
}

// ---------------------------------------------------------------------------
// Scans over the bytes of a string.
// ---------------------------------------------------------------------------

pub(crate) fn boundary_at(b: &[u8], i: usize) -> (r: bool)
    requires
        valid_utf8(b@),
    ensures
        r == is_char_boundary(b@, i as int),
{
    proof {
        is_char_boundary_start_end_of_seq(b@);
    }
    if i == 0 || i == b.len() {
        true
    } else if i > b.len() {
        false
    } else {
        let x = b[i];
        proof {
            is_char_boundary_iff_not_is_continuation_byte(b@, i as int);
        }
        !(0x80 <= x && x <= 0xbf)
    }
}

fn floor_boundary_at(b: &[u8], i: usize) -> (r: usize)
    requires
        valid_utf8(b@),
        i <= b@.len(),
    ensures
        r == floor_boundary(b@, i as int),
{
    let mut r = i;
    while r > 0 && !boundary_at(b, r)
        invariant
            valid_utf8(b@),
            r <= i,
            floor_boundary(b@, r as int) == floor_boundary(b@, i as int),
        decreases r,
    {
        r = r - 1;
    }
    r
}

fn clamp_at(b: &[u8], c: usize) -> (r: usize)
    requires
        valid_utf8(b@),
    ensures
        r == clamp_caret(b@, c as int),
        r <= b@.len(),
{
    let hi = if c > b.len() {
        b.len()
    } else {
        c
    };
    proof {
        lemma_floor_boundary(b@, hi as int);
    }
    floor_boundary_at(b, hi)
}

fn next_boundary_at(b: &[u8], i: usize) -> (r: usize)
    requires
        valid_utf8(b@),
        i < b@.len(),
    ensures
        r == next_boundary(b@, i as int),
{
    let n = b.len();
    let mut r = i + 1;
    while r < n && !boundary_at(b, r)
        invariant
            valid_utf8(b@),
            n == b@.len(),
            i < r <= b@.len(),
            next_boundary(b@, i as int) == next_boundary(b@, r - 1),
        decreases b@.len() - r,
    {
        r = r + 1;
    }
    r
}

fn line_start_at(b: &[u8], c: usize) -> (r: usize)
    requires
        c <= b@.len(),
    ensures
        r == line_start(b@, c as int),
{
    let mut j = c;
    while j > 0 && b[j - 1] != 10
        invariant
            j <= c <= b@.len(),
            line_start(b@, j as int) == line_start(b@, c as int),
        decreases j,
    {
        j = j - 1;
    }
    j
}

fn line_end_at(b: &[u8], c: usize) -> (r: usize)
    requires
        c <= b@.len(),
    ensures
        r == line_end(b@, c as int),
{
    let mut j = c;
    while j < b.len() && b[j] != 10
        invariant
            c <= j <= b@.len(),
            line_end(b@, j as int) == line_end(b@, c as int),
        decreases b@.len() - j,
    {
        j = j + 1;
    }
    j
}

fn newline_count_in(b: &[u8], lo: usize, hi: usize) -> (r: usize)
    requires
        lo <= hi <= b@.len(),
    ensures
        r == newline_count(b@, lo as int, hi as int),
{
    let mut n: usize = 0;
    let mut p = lo;
    while p < hi
        invariant
            lo <= p <= hi <= b@.len(),
            n == newline_count(b@, lo as int, p as int),
            n <= p - lo,
        decreases hi - p,
    {
        if b[p] == 10 {
            n = n + 1;
        }
        p = p + 1;
    }
    n
}

fn char_count_in(b: &[u8], lo: usize, hi: usize) -> (r: usize)
    requires
        lo <= hi <= b@.len(),
    ensures
        r == char_count(b@, lo as int, hi as int),
{
    let mut n: usize = 0;
    let mut p = lo;
    while p < hi
        invariant
            lo <= p <= hi <= b@.len(),
            n == char_count(b@, lo as int, p as int),
            n <= p - lo,
        decreases hi - p,
    {
        let x = b[p];
        if !(0x80 <= x && x <= 0xbf) {
            n = n + 1;
        }
        p = p + 1;
    }
    n
}

pub(crate) fn col_offset_in(b: &[u8], lo: usize, hi: usize, k: usize) -> (r: usize)
    requires
        lo <= hi <= b@.len(),
    ensures
        r == col_offset(b@, lo as int, hi as int, k as nat),
{
    let mut p = lo;
    let mut consumed: usize = 0;
    while p < hi
        invariant
            lo <= p <= hi <= b@.len(),
            consumed <= k,
            col_offset(b@, p as int, hi as int, (k - consumed) as nat) == col_offset(
                b@,
                lo as int,
                hi as int,
                k as nat,
            ),
        decreases hi - p,
    {
        let x = b[p];
        if !(0x80 <= x && x <= 0xbf) {
            if consumed == k {
                return p;
            }
            consumed = consumed + 1;
        }
        p = p + 1;
    }
    hi
}

// ---------------------------------------------------------------------------
// Caret moves over a string.
// ---------------------------------------------------------------------------

fn left_of(s: &String, c: usize) -> (r: usize)
    ensures
        r == caret_left(enc(s@), c as int),
{
    let b = s.as_str().as_bytes();
    let c0 = clamp_at(b, c);
    if c0 == 0 {
        0
    } else {
        floor_boundary_at(b, c0 - 1)
    }
}

fn right_of(s: &String, c: usize) -> (r: usize)
    ensures
        r == caret_right(enc(s@), c as int),
{
    let b = s.as_str().as_bytes();
    let c0 = clamp_at(b, c);
    if c0 >= b.len() {
        c0
    } else {
        next_boundary_at(b, c0)
    }
}

fn home_of(s: &String, c: usize) -> (r: usize)
    ensures
        r == line_start(enc(s@), clamp_caret(enc(s@), c as int)),
{
    let b = s.as_str().as_bytes();
    let c0 = clamp_at(b, c);
    line_start_at(b, c0)
}

fn end_of(s: &String, c: usize) -> (r: usize)
    ensures
        r == line_end(enc(s@), clamp_caret(enc(s@), c as int)),
{
    let b = s.as_str().as_bytes();
    let c0 = clamp_at(b, c);
    line_end_at(b, c0)
}

fn up_of(s: &String, c: usize) -> (r: usize)
    ensures
        r == caret_up(enc(s@), c as int),
{
    let b = s.as_str().as_bytes();
    let c0 = clamp_at(b, c);
    let ls = line_start_at(b, c0);
    if ls == 0 {
        return 0;
    }
    proof {
        lemma_line_start(b@, c0 as int);
    }
    let col = char_count_in(b, ls, c0);
    let prev_end = ls - 1;
    let prev_start = line_start_at(b, prev_end);
    proof {
        lemma_line_start(b@, prev_end as int);
    }
    col_offset_in(b, prev_start, prev_end, col)
}

fn down_of(s: &String, c: usize) -> (r: usize)
    ensures
        r == caret_down(enc(s@), c as int),
{
    let b = s.as_str().as_bytes();
    let c0 = clamp_at(b, c);
    let ls = line_start_at(b, c0);
    proof {
        lemma_line_start(b@, c0 as int);
        lemma_line_end(b@, c0 as int);
    }
    let col = char_count_in(b, ls, c0);
    let le = line_end_at(b, c0);
    if le >= b.len() {
        return b.len();
    }
    let next_start = le + 1;
    let next_end = line_end_at(b, next_start);
    proof {
        lemma_line_end(b@, next_start as int);
    }
    col_offset_in(b, next_start, next_end, col)
}


pub(crate) fn clamp_of(s: &String, c: usize) -> (r: usize)
    ensures
        r == clamp_caret(enc(s@), c as int),
        r <= enc(s@).len(),
        is_char_boundary(enc(s@), r as int),
{
    let b = s.as_str().as_bytes();
    let r = clamp_at(b, c);
    proof {
        let hi = if c > b@.len() { b@.len() as int } else { c as int };
        lemma_floor_boundary(b@, hi);
    }
    r
}

// ---------------------------------------------------------------------------
// Public editors.
// ---------------------------------------------------------------------------

/// Start of the text after newline number `k` (counting from 0) among the
/// newlines at or after `from`; 0 when there are not that many.
pub open spec fn after_newline(b: Seq<u8>, k: nat, from: int) -> int
    decreases b.len() - from,
{
    if from >= b.len() || from < 0 {
        0
    } else if is_newline(b[from]) {
        if k == 0 {
            from + 1
        } else {
            after_newline(b, (k - 1) as nat, from + 1)
        }
    } else {
        after_newline(b, k, from + 1)
    }
}

/// Where a click on text line `line`, character column `col` puts the
/// caret: lines 0 and 1 both start after the first newline (line 0 only
/// when there is none), later lines after newline `line - 1`; the column
/// counts characters from the line's start, and a column past the end of
/// the line lands at its end.
pub open spec fn click_caret(b: Seq<u8>, line: nat, col: nat) -> int {
    let k: nat = if line == 0 { 0 } else { (line - 1) as nat };
    let ls = after_newline(b, k, 0);
    col_offset(b, ls, line_end(b, ls), col)
}

proof fn lemma_after_newline_range(b: Seq<u8>, k: nat, from: int)
    ensures
        0 <= after_newline(b, k, from) <= b.len(),
    decreases b.len() - from,
{
    if 0 <= from < b.len() {
        if is_newline(b[from]) {
            if k > 0 {
                lemma_after_newline_range(b, (k - 1) as nat, from + 1);
            }
        } else {
            lemma_after_newline_range(b, k, from + 1);
        }
    }
}

/// The caret a click on `(line, col)` of `content` gives.
pub fn caret_at_click(content: &str, line: usize, col: usize) -> (r: usize)
    ensures
        r == click_caret(enc(content@), line as nat, col as nat),
        r <= enc(content@).len(),
        is_char_boundary(enc(content@), r as int),
{
    let b = content.as_bytes();
    let k: usize = if line == 0 { 0 } else { line - 1 };
    let ghost kk: nat = k as nat;
    let mut seen: usize = 0;
    let mut p: usize = 0;
    let mut ls: usize = 0;
    let mut found = false;
    while p < b.len()
        invariant_except_break
            p <= b@.len(),
            seen <= k,
            !found,
            ls == 0,
            after_newline(b@, (k - seen) as nat, p as int) == after_newline(b@, kk, 0),
        ensures
            found ==> ls == after_newline(b@, kk, 0),
            !found ==> after_newline(b@, kk, 0) == 0 && ls == 0,
        decreases b@.len() - p,
    {
        if b[p] == 10 {
            if seen == k {
                ls = p + 1;
                found = true;
                break;
            }
            seen = seen + 1;
        }
        p = p + 1;
    }
    proof {
        lemma_after_newline_range(b@, kk, 0);
    }
    let le = line_end_at(b, ls);
    proof {
        lemma_line_end(b@, ls as int);
        lemma_col_offset_range(b@, ls as int, le as int, col as nat);
    }
    let r = col_offset_in(b, ls, le, col);
    proof {
        lemma_line_end_boundary(b@, ls as int);
        lemma_col_offset_boundary(b@, ls as int, le as int, col as nat);
    }
    r
}

/// The text of a text box together with its insertion point (a byte
/// offset into `content`).
pub struct TextBuffer {
    pub content: String,
    pub cursor: usize,
}

impl TextBuffer {
    /// UTF-8 bytes of the content.
    pub open spec fn bytes(&self) -> Seq<u8> {
        enc(self.content@)
    }

    /// The caret position every editing operation starts from.
    pub open spec fn caret(&self) -> int {
        clamp_caret(self.bytes(), self.cursor as int)
    }

    /// An empty buffer with the caret at the start.
    pub fn new() -> (t: TextBuffer)
        ensures
            t.content@ == Seq::<char>::empty(),
            t.cursor == 0,
    {
        TextBuffer { content: String::new(), cursor: 0 }
    }

    /// Pin the caret to a character boundary inside the content.
    pub fn clamp_cursor(&mut self)
        ensures
            final(self).content@ == old(self).content@,
            final(self).cursor == old(self).caret(),
    {
        self.cursor = clamp_of(&self.content, self.cursor);
    }

    /// (line, byte column) of the caret: the number of newlines before it,
    /// and its distance from the start of its line.
    pub fn cursor_line_col(&self) -> (r: (usize, usize))
        requires
            is_char_boundary(
                self.bytes(),
                if self.cursor > self.bytes().len() { self.bytes().len() as int } else { self.cursor as int },
            ),
        ensures
            ({
                let b = self.bytes();
                let m = if self.cursor > b.len() { b.len() as int } else { self.cursor as int };
                &&& r.0 == newline_count(b, 0, m)
                &&& r.1 == self.cursor - line_start(b, m)
            }),
    {
        let b = self.content.as_str().as_bytes();
        let m = if self.cursor > b.len() {
            b.len()
        } else {
            self.cursor
        };
        let line = newline_count_in(b, 0, m);
        let ls = line_start_at(b, m);
        proof {
            lemma_line_start(b@, m as int);
        }
        (line, self.cursor - ls)
    }

    /// (line, column in characters) of the caret, which must sit on a
    /// character boundary inside the content.
    pub fn cursor_line_col_chars(&self) -> (r: (usize, usize))
        requires
            self.cursor <= self.bytes().len(),
            is_char_boundary(self.bytes(), self.cursor as int),
        ensures
            r.0 == newline_count(self.bytes(), 0, self.cursor as int),
            r.1 == char_count(
                self.bytes(),
                line_start(self.bytes(), self.cursor as int),
                self.cursor as int,
            ),
    {
        let b = self.content.as_str().as_bytes();
        let line = newline_count_in(b, 0, self.cursor);
        let ls = line_start_at(b, self.cursor);
        proof {
            lemma_line_start(b@, self.cursor as int);
        }
        (line, char_count_in(b, ls, self.cursor))
    }

    /// Insert one character at the caret and move the caret past it.
    pub fn insert_at_cursor(&mut self, ch: char)
        requires
            old(self).bytes().len() + 4 <= usize::MAX,
        ensures
            ({
                let b = old(self).bytes();
                let c0 = old(self).caret();
                &&& final(self).bytes() == b.take(c0) + encode_scalar(ch as u32) + b.skip(c0)
                &&& final(self).cursor == c0 + encode_scalar(ch as u32).len()
                &&& final(self).content@.len() == old(self).content@.len() + 1
            }),
    {
        let c0 = clamp_of(&self.content, self.cursor);
        self.content = insert_char_at(&self.content, c0, ch);
        self.cursor = c0 + utf8_width(ch);
    }

    /// Delete the character before the caret. Returns whether anything was
    /// removed (nothing is when the caret is at the start).
    pub fn backspace_at_cursor(&mut self) -> (removed: bool)
        ensures
            ({
                let b = old(self).bytes();
                let c0 = old(self).caret();
                let start = floor_boundary(b, c0 - 1);
                &&& removed == (c0 > 0)
                &&& removed ==> final(self).bytes() == b.take(start) + b.skip(c0)
                    && final(self).cursor == start
                &&& !removed ==> final(self).content@ == old(self).content@ && final(self).cursor
                    == 0
            }),
    {
        let c0 = clamp_of(&self.content, self.cursor);
        if c0 == 0 {
            self.cursor = 0;
            return false;
        }
        let start = left_of(&self.content, self.cursor);
        proof {
            lemma_floor_boundary(enc(self.content@), c0 - 1);
        }
        self.content = remove_byte_range(&self.content, start, c0);
        self.cursor = start;
        true
    }

    /// Caret to the previous character boundary (no move at the start).
    pub fn cursor_left(&mut self)
        ensures
            final(self).content@ == old(self).content@,
            final(self).cursor == caret_left(old(self).bytes(), old(self).cursor as int),
    {
        self.cursor = left_of(&self.content, self.cursor);
    }

    /// Caret to the next character boundary (no move at the end).
    pub fn cursor_right(&mut self)
        ensures
            final(self).content@ == old(self).content@,
            final(self).cursor == caret_right(old(self).bytes(), old(self).cursor as int),
    {
        self.cursor = right_of(&self.content, self.cursor);
    }

    /// Caret to the start of its line.
    pub fn cursor_home(&mut self)
        ensures
            final(self).content@ == old(self).content@,
            final(self).cursor == line_start(old(self).bytes(), old(self).caret()),
    {
        self.cursor = home_of(&self.content, self.cursor);
    }

    /// Caret to the end of its line (before its `'\n'`, if any).
    pub fn cursor_end(&mut self)
        ensures
            final(self).content@ == old(self).content@,
            final(self).cursor == line_end(old(self).bytes(), old(self).caret()),
    {
        self.cursor = end_of(&self.content, self.cursor);
    }

    /// Caret to the same character column on the previous line; to the start
    /// of the content from the first line.
    pub fn cursor_up(&mut self)
        ensures
            final(self).content@ == old(self).content@,
            final(self).cursor == caret_up(old(self).bytes(), old(self).cursor as int),
    {
        self.cursor = up_of(&self.content, self.cursor);
    }

    /// Caret to the same character column on the next line; to the end of
    /// the content from the last line.
    pub fn cursor_down(&mut self)
        ensures
            final(self).content@ == old(self).content@,
            final(self).cursor == caret_down(old(self).bytes(), old(self).cursor as int),
    {
        self.cursor = down_of(&self.content, self.cursor);
    }

    /// (most characters on one line, number of lines): the text block's
    /// extent, from which its on-canvas size is derived.
    pub fn text_extent(&self) -> (r: (usize, usize))
        requires
            self.bytes().len() < usize::MAX,
        ensures
            r.0 == max_line_chars(self.bytes(), 0),
            r.1 == newline_count(self.bytes(), 0, self.bytes().len() as int) + 1,
    {
        let b = self.content.as_str().as_bytes();
        let n = b.len();
        let mut lo: usize = 0;
        let mut best: usize = 0;
        loop
            invariant
                n == b@.len(),
                lo <= n,
                (if best >= max_line_chars(b@, lo as int) { best as nat } else { max_line_chars(
                    b@,
                    lo as int,
                ) }) == max_line_chars(b@, 0),
            ensures
                best == max_line_chars(b@, 0),
            decreases n - lo,
        {
            let le = line_end_at(b, lo);
            proof {
                lemma_line_end(b@, lo as int);
            }
            let m = char_count_in(b, lo, le);
            if m > best {
                best = m;
            }
            if le >= n {
                break;
            }
            lo = le + 1;
        }
        proof {
            lemma_counts_bounded(b@, 0, n as int);
        }
        (best, newline_count_in(b, 0, n) + 1)
    }
}

/// The body of a sticky note together with its caret. A note without inline
/// content (a card linking to another file) keeps the caret at 0 and ignores
/// edits.
pub struct NoteBody {
    pub inline_content: Option<String>,
    pub cursor: usize,
}

impl NoteBody {
    /// The caret position every editing operation starts from.
    pub open spec fn caret(&self) -> int {
        match self.inline_content {
            Some(s) => clamp_caret(enc(s@), self.cursor as int),
            None => 0,
        }
    }

    /// UTF-8 bytes of the body (empty without inline content).
    pub open spec fn bytes(&self) -> Seq<u8> {
        match self.inline_content {
            Some(s) => enc(s@),
            None => Seq::<u8>::empty(),
        }
    }

    /// Pin the caret onto a character boundary inside the body.
    pub fn clamp_cursor(&mut self)
        ensures
            final(self).inline_content == old(self).inline_content,
            final(self).cursor == old(self).caret(),
    {
        match &self.inline_content {
            Some(s) => {
                self.cursor = clamp_of(s, self.cursor);
            },
            None => {
                self.cursor = 0;
            },
        }
    }

    /// Insert a character at the caret (inline notes only).
    pub fn insert_at_cursor(&mut self, ch: char)
        requires
            old(self).bytes().len() + 4 <= usize::MAX,
        ensures
            ({
                let b = old(self).bytes();
                let c0 = old(self).caret();
                &&& final(self).inline_content is Some <==> old(self).inline_content is Some
                &&& old(self).inline_content is Some ==> final(self).bytes() == b.take(c0)
                    + encode_scalar(ch as u32) + b.skip(c0) && final(self).cursor == c0
                    + encode_scalar(ch as u32).len()
                &&& old(self).inline_content is None ==> final(self).cursor == 0
            }),
    {
        match &self.inline_content {
            Some(s) => {
                let c0 = clamp_of(s, self.cursor);
                let next = insert_char_at(s, c0, ch);
                self.inline_content = Some(next);
                self.cursor = c0 + utf8_width(ch);
            },
            None => {
                self.cursor = 0;
            },
        }
    }

    /// Delete the character before the caret; returns whether anything was
    /// removed.
    pub fn backspace_at_cursor(&mut self) -> (removed: bool)
        ensures
            ({
                let b = old(self).bytes();
                let c0 = old(self).caret();
                let start = floor_boundary(b, c0 - 1);
                &&& final(self).inline_content is Some <==> old(self).inline_content is Some
                &&& removed == (old(self).inline_content is Some && c0 > 0)
                &&& removed ==> final(self).bytes() == b.take(start) + b.skip(c0)
                    && final(self).cursor == start
                &&& !removed ==> final(self).inline_content == old(self).inline_content
                    && final(self).cursor == c0
            }),
    {
        match &self.inline_content {
            Some(s) => {
                let c0 = clamp_of(s, self.cursor);
                if c0 == 0 {
                    self.cursor = 0;
                    return false;
                }
                let start = left_of(s, self.cursor);
                proof {
                    lemma_floor_boundary(enc(s@), c0 - 1);
                }
                let next = remove_byte_range(s, start, c0);
                self.inline_content = Some(next);
                self.cursor = start;
                true
            },
            None => {
                self.cursor = 0;
                false
            },
        }
    }

    /// Caret to the previous character boundary.
    pub fn cursor_left(&mut self)
        ensures
            final(self).inline_content == old(self).inline_content,
            final(self).cursor == (match old(self).inline_content {
                Some(s) => caret_left(enc(s@), old(self).cursor as int),
                None => 0,
            }),
    {
        match &self.inline_content {
            Some(s) => {
                self.cursor = left_of(s, self.cursor);
            },
            None => {
                self.cursor = 0;
            },
        }
    }

    /// Caret to the next character boundary.
    pub fn cursor_right(&mut self)
        ensures
            final(self).inline_content == old(self).inline_content,
            final(self).cursor == (match old(self).inline_content {
                Some(s) => caret_right(enc(s@), old(self).cursor as int),
                None => 0,
            }),
    {
        match &self.inline_content {
            Some(s) => {
                self.cursor = right_of(s, self.cursor);
            },
            None => {
                self.cursor = 0;
            },
        }
    }

    /// Caret to the start of its line.
    pub fn cursor_home(&mut self)
        ensures
            final(self).inline_content == old(self).inline_content,
            final(self).cursor == (match old(self).inline_content {
                Some(s) => line_start(enc(s@), old(self).caret()),
                None => 0,
            }),
    {
        match &self.inline_content {
            Some(s) => {
                self.cursor = home_of(s, self.cursor);
            },
            None => {
                self.cursor = 0;
            },
        }
    }

    /// Caret to the end of its line.
    pub fn cursor_end(&mut self)
        ensures
            final(self).inline_content == old(self).inline_content,
            final(self).cursor == (match old(self).inline_content {
                Some(s) => line_end(enc(s@), old(self).caret()),
                None => 0,
            }),
    {
        match &self.inline_content {
            Some(s) => {
                self.cursor = end_of(s, self.cursor);
            },
            None => {
                self.cursor = 0;
            },
        }
    }
}


// ---------------------------------------------------------------------------
// Laws.
// ---------------------------------------------------------------------------

proof fn lemma_floor_boundary_is(b: Seq<u8>, lo: int, i: int)
    requires
        0 <= lo <= i,
        is_char_boundary(b, lo),
        forall|j: int| lo < j <= i ==> !is_char_boundary(b, j),
    ensures
        floor_boundary(b, i) == lo,
    decreases i,
{
    if i > lo {
        lemma_floor_boundary_is(b, lo, i - 1);
    }
}

/// Pinning the caret is idempotent: a pinned caret stays where it is.
pub proof fn law_clamp_idempotent(content: Seq<char>, cursor: int)
    ensures
        clamp_caret(enc(content), clamp_caret(enc(content), cursor)) == clamp_caret(
            enc(content),
            cursor,
        ),
{
    let b = enc(content);
    let hi = if cursor > b.len() { b.len() as int } else { cursor };
    lemma_floor_boundary(b, hi);
    let c0 = floor_boundary(b, hi);
    lemma_floor_boundary_is(b, c0, c0);
}

/// Every caret move leaves the caret on a character boundary inside the
/// content.
pub proof fn law_caret_moves_stay_on_boundaries(content: Seq<char>, cursor: int)
    ensures
        ({
            let b = enc(content);
            let c0 = clamp_caret(b, cursor);
            &&& 0 <= c0 <= b.len() && is_char_boundary(b, c0)
            &&& 0 <= caret_left(b, cursor) <= b.len() && is_char_boundary(b, caret_left(b, cursor))
            &&& 0 <= caret_right(b, cursor) <= b.len() && is_char_boundary(
                b,
                caret_right(b, cursor),
            )
            &&& 0 <= line_start(b, c0) <= b.len() && is_char_boundary(b, line_start(b, c0))
            &&& 0 <= line_end(b, c0) <= b.len() && is_char_boundary(b, line_end(b, c0))
            &&& 0 <= caret_up(b, cursor) <= b.len() && is_char_boundary(b, caret_up(b, cursor))
            &&& 0 <= caret_down(b, cursor) <= b.len() && is_char_boundary(
                b,
                caret_down(b, cursor),
            )
        }),
{
    let b = enc(content);
    is_char_boundary_start_end_of_seq(b);
    let hi = if cursor > b.len() { b.len() as int } else { cursor };
    lemma_floor_boundary(b, hi);
    let c0 = floor_boundary(b, hi);
    if c0 > 0 {
        lemma_floor_boundary(b, c0 - 1);
    }
    if c0 < b.len() {
        lemma_next_boundary(b, c0);
    }
    lemma_line_start(b, c0);
    lemma_line_end(b, c0);
    lemma_line_start_boundary(b, c0);
    lemma_line_end_boundary(b, c0);
    let ls = line_start(b, c0);
    if ls > 0 {
        lemma_line_start(b, ls - 1);
        lemma_line_start_boundary(b, ls - 1);
        lemma_newline_is_boundary(b, ls - 1);
        lemma_col_offset_range(b, line_start(b, ls - 1), ls - 1, char_count(b, ls, c0));
        lemma_col_offset_boundary(b, line_start(b, ls - 1), ls - 1, char_count(b, ls, c0));
    }
    let le = line_end(b, c0);
    if le < b.len() {
        lemma_line_end(b, le + 1);
        lemma_line_end_boundary(b, le + 1);
        lemma_col_offset_range(b, le + 1, line_end(b, le + 1), char_count(b, ls, c0));
        lemma_col_offset_boundary(b, le + 1, line_end(b, le + 1), char_count(b, ls, c0));
    }
}

/// Typing a character and then pressing backspace gives back the content
/// and the (pinned) caret the editor started from.
pub proof fn law_insert_then_backspace(content: Seq<char>, cursor: int, ch: char)
    ensures
        ({
            let b = enc(content);
            let c0 = clamp_caret(b, cursor);
            let e = encode_scalar(ch as u32);
            let b2 = b.take(c0) + e + b.skip(c0);
            let c2 = c0 + e.len();
            &&& clamp_caret(b2, c2) == c2
            &&& c2 > 0
            &&& floor_boundary(b2, c2 - 1) == c0
            &&& b2.take(c0) + b2.skip(c2) == b
        }),
{
    let b = enc(content);
    is_char_boundary_start_end_of_seq(b);
    let hi = if cursor > b.len() { b.len() as int } else { cursor };
    lemma_floor_boundary(b, hi);
    let c0 = floor_boundary(b, hi);
    let e = encode_scalar(ch as u32);
    crate::strings::lemma_scalar_shape(ch);
    crate::strings::lemma_enc_single(ch);
    let b2 = b.take(c0) + e + b.skip(c0);
    let c2 = c0 + e.len();
    assert(b.take(c0) =~= b.subrange(0, c0));
    assert(b.skip(c0) =~= b.subrange(c0, b.len() as int));
    valid_utf8_split(b, c0);
    assert(valid_utf8(e));
    valid_utf8_concat(b.take(c0), e);
    valid_utf8_concat(b.take(c0) + e, b.skip(c0));
    assert(valid_utf8(b2));
    is_char_boundary_start_end_of_seq(b2);
    assert(b2.len() == b.len() + e.len());
    // c2 is a boundary of the new bytes.
    if c2 < b2.len() {
        assert(b2[c2] == b[c0]);
        is_char_boundary_iff_not_is_continuation_byte(b, c0);
        is_char_boundary_iff_not_is_continuation_byte(b2, c2);
    }
    assert(is_char_boundary(b2, c2));
    lemma_floor_boundary_is(b2, c2, c2);
    // c0 is a boundary of the new bytes, and nothing inside the new
    // character is.
    assert(b2[c0] == e[0]);
    is_char_boundary_iff_not_is_continuation_byte(b2, c0);
    assert forall|j: int| c0 < j <= c2 - 1 implies !is_char_boundary(b2, j) by {
        assert(b2[j] == e[j - c0]);
        is_char_boundary_iff_not_is_continuation_byte(b2, j);
    }
    lemma_floor_boundary_is(b2, c0, c2 - 1);
    assert(b2.take(c0) + b2.skip(c2) =~= b);
}

} // verus!
