//! A line of text being edited, with a cursor.
use crate::message::Direction;
use crate::text::{char_string, is_space, is_space_char};
use vstd::prelude::*;

verus! {

/// Characters that separate words when the cursor jumps.
pub open spec fn is_boundary(c: char) -> bool {
    is_space(c) || c == '@' || c == '#'
}

fn is_boundary_char(c: char) -> (r: bool)
    ensures
        r == is_boundary(c),
{
    is_space_char(c) || c == '@' || c == '#'
}

/// The last position below `hi` whose character is (`b`) or is not a boundary,
/// or -1.
pub open spec fn last_where(s: Seq<char>, hi: int, b: bool) -> int
    decreases hi,
{
    if hi <= 0 {
        -1
    } else if is_boundary(s[hi - 1]) == b {
        hi - 1
    } else {
        last_where(s, hi - 1, b)
    }
}

/// The first position from `lo` on whose character is (`b`) or is not a
/// boundary, or the length of `s`.
pub open spec fn first_where(s: Seq<char>, lo: int, b: bool) -> int
    decreases s.len() - lo,
{
    if lo >= s.len() {
        s.len() as int
    } else if is_boundary(s[lo]) == b {
        lo
    } else {
        first_where(s, lo + 1, b)
    }
}

/// Where a word jump from `cursor` lands: up, the start of the word before the
/// cursor; down, the end of the word after it.
pub open spec fn jump_target(s: Seq<char>, cursor: int, d: Direction) -> int {
    match d {
        Direction::Up => {
            let w = last_where(s, cursor, false);
            if w < 0 { 0 } else { last_where(s, w, true) + 1 }
        },
        Direction::Down => {
            let e = first_where(s, cursor, false);
            if e >= s.len() { s.len() as int } else { first_where(s, e, true) }
        },
    }
}

/// The last position below `hi` that holds a non-space character, plus one (0
/// when there is none): the end of `s[..hi]` with trailing whitespace trimmed.
pub open spec fn trimmed_end(s: Seq<char>, hi: int) -> int
    decreases hi,
{
    if hi <= 0 {
        0
    } else if !is_space(s[hi - 1]) {
        hi
    } else {
        trimmed_end(s, hi - 1)
    }
}

/// The last position below `hi` that holds `' '`, or 0.
pub open spec fn last_space(s: Seq<char>, hi: int) -> int
    decreases hi,
{
    if hi <= 0 {
        0
    } else if s[hi - 1] == ' ' {
        hi - 1
    } else {
        last_space(s, hi - 1)
    }
}

fn find_last(s: &str, hi: usize, b: bool) -> (r: i64)
    requires
        hi <= s@.len(),
        s@.len() < 0x7fff_ffff_ffff_ffff,
    ensures
        r as int == last_where(s@, hi as int, b),
    decreases hi,
{
    if hi == 0 {
        -1
    } else if is_boundary_char(s.get_char(hi - 1)) == b {
        (hi - 1) as i64
    } else {
        find_last(s, hi - 1, b)
    }
}

fn find_first(s: &str, n: usize, lo: usize, b: bool) -> (r: usize)
    requires
        n == s@.len(),
        lo <= n,
    ensures
        r as int == first_where(s@, lo as int, b),
    decreases n - lo,
{
    if lo >= n {
        n
    } else if is_boundary_char(s.get_char(lo)) == b {
        lo
    } else {
        find_first(s, n, lo + 1, b)
    }
}

fn find_trimmed_end(s: &str, hi: usize) -> (r: usize)
    requires
        hi <= s@.len(),
    ensures
        r as int == trimmed_end(s@, hi as int),
        r <= hi,
    decreases hi,
{
    if hi == 0 {
        0
    } else if !is_space_char(s.get_char(hi - 1)) {
        hi
    } else {
        find_trimmed_end(s, hi - 1)
    }
}

fn find_last_space(s: &str, hi: usize) -> (r: usize)
    requires
        hi <= s@.len(),
    ensures
        r as int == last_space(s@, hi as int),
        r <= hi,
    decreases hi,
{
    if hi == 0 {
        0
    } else if s.get_char(hi - 1) == ' ' {
        hi - 1
    } else {
        find_last_space(s, hi - 1)
    }
}

/// A line of text and a cursor position, counted in characters.
#[derive(Clone, Debug, PartialEq, Eq)]
pub struct Field {
    pub cursor: usize,
    pub text: String,
}

impl Field {
    /// The cursor stands within the text.
    pub open spec fn wf(&self) -> bool {
        self.cursor <= self.text@.len()
    }

    /// An empty field.
    pub fn new() -> (r: Field)
        ensures
            r.wf(),
            r.cursor == 0,
            r.text@.len() == 0,
    {
        Field { cursor: 0, text: String::new() }
    }

    /// A copy of the field.
    pub fn copy(&self) -> (r: Field)
        ensures
            r.cursor == self.cursor,
            r.text@ == self.text@,
    {
        Field { cursor: self.cursor, text: self.text.clone() }
    }

    /// The field with the cursor moved to the start of the previous word (up)
    /// or to the end of the next word (down).
    pub fn with_cursor_jump_word(&self, direction: &Direction) -> (r: Field)
        requires
            self.wf(),
            self.text@.len() < 0x7fff_ffff_ffff_ffff,
        ensures
            r.wf(),
            r.text@ == self.text@,
            r.cursor as int == jump_target(self.text@, self.cursor as int, *direction),
    {
        let s = self.text.as_str();
        let n = s.unicode_len();
        let target: usize = match direction {
            Direction::Up => {
                let w = find_last(s, self.cursor, false);
                if w < 0 {
                    0
                } else {
                    proof { lemma_last_where_bound(self.text@, self.cursor as int, false); }
                    let b = find_last(s, w as usize, true);
                    proof { lemma_last_where_bound(self.text@, w as int, true); }
                    (b + 1) as usize
                }
            },
            Direction::Down => {
                let e = find_first(s, n, self.cursor, false);
                proof { lemma_first_where_bound(self.text@, self.cursor as int, false); }
                if e >= n {
                    n
                } else {
                    proof { lemma_first_where_bound(self.text@, e as int, true); }
                    find_first(s, n, e, true)
                }
            },
        };
        Field { cursor: target, text: self.text.clone() }
    }

    /// The field with the character before the cursor deleted.
    pub fn with_popped_char(&self) -> (r: Field)
        requires
            self.wf(),
        ensures
            r.wf(),
            self.cursor == 0 ==> r.cursor == 0 && r.text@ == self.text@,
            self.cursor > 0 ==> r.cursor == self.cursor - 1 && r.text@ == self.text@.remove(self.cursor - 1),
    {
        if self.cursor == 0 || self.text.as_str().unicode_len() == 0 {
            return self.copy();
        }
        let s = self.text.as_str();
        let n = s.unicode_len();
        let text = String::from_str(s.substring_char(0, self.cursor - 1)).concat(s.substring_char(self.cursor, n));
        assert(text@ =~= self.text@.remove(self.cursor - 1));
        Field { cursor: self.cursor - 1, text }
    }

    /// The field with the word before the cursor deleted: the text from the
    /// last space before the (whitespace-trimmed) cursor position up to the
    /// cursor goes, and the cursor moves to where it began.
    pub fn with_popped_word(&self) -> (r: Field)
        requires
            self.wf(),
        ensures
            r.wf(),
            self.cursor == 0 ==> r.cursor == 0 && r.text@ == self.text@,
            self.cursor > 0 ==> {
                let cut = last_space(self.text@, trimmed_end(self.text@, self.cursor as int));
                &&& r.cursor == cut
                &&& r.text@ == self.text@.subrange(0, cut) + self.text@.subrange(self.cursor as int, self.text@.len() as int)
            },
    {
        if self.cursor == 0 || self.text.as_str().unicode_len() == 0 {
            return self.copy();
        }
        let s = self.text.as_str();
        let n = s.unicode_len();
        let end = find_trimmed_end(s, self.cursor);
        let cut = find_last_space(s, end);
        let text = String::from_str(s.substring_char(0, cut)).concat(s.substring_char(self.cursor, n));
        Field { cursor: cut, text }
    }

    /// The field with `ch` inserted at the cursor, and the cursor after it.
    pub fn with_inserted_char(&self, ch: char) -> (r: Field)
        requires
            self.wf(),
            self.cursor < usize::MAX,
        ensures
            r.wf(),
            r.cursor == self.cursor + 1,
            r.text@ == self.text@.insert(self.cursor as int, ch),
    {
        let s = self.text.as_str();
        let n = s.unicode_len();
        let one = char_string(ch);
        let text = String::from_str(s.substring_char(0, self.cursor)).concat(one.as_str()).concat(
            s.substring_char(self.cursor, n),
        );
        assert(text@ =~= self.text@.insert(self.cursor as int, ch));
        Field { cursor: self.cursor + 1, text }
    }

    /// The field with the cursor one character left (up) or right (down),
    /// within the text.
    pub fn with_cursor_move(&self, direction: &Direction) -> (r: Field)
        requires
            self.wf(),
        ensures
            r.wf(),
            r.text@ == self.text@,
            *direction == Direction::Down ==> r.cursor == if self.cursor < self.text@.len() { self.cursor + 1 } else { self.cursor as int },
            *direction == Direction::Up ==> r.cursor == if self.cursor > 0 { self.cursor - 1 } else { 0 },
    {
        let n = self.text.as_str().unicode_len();
        let cursor = match direction {
            Direction::Down => if self.cursor < n { self.cursor + 1 } else { self.cursor },
            Direction::Up => if self.cursor > 0 { self.cursor - 1 } else { 0 },
        };
        Field { cursor, text: self.text.clone() }
    }

    /// The field with the cursor at `position`, or at the end of the text if
    /// that is nearer.
    pub fn with_cursor(&self, position: usize) -> (r: Field)
        ensures
            r.wf(),
            r.text@ == self.text@,
            r.cursor == if position <= self.text@.len() { position as int } else { self.text@.len() as int },
    {
        let n = self.text.as_str().unicode_len();
        Field { cursor: if position <= n { position } else { n }, text: self.text.clone() }
    }

    /// The field with new text; the cursor stays where it was, or moves to the
    /// end of the new text if that is nearer.
    pub fn with_text(&self, text: String) -> (r: Field)
        ensures
            r.wf(),
            r.text@ == text@,
            r.cursor == if self.cursor <= text@.len() { self.cursor as int } else { text@.len() as int },
    {
        let n = text.as_str().unicode_len();
        Field { cursor: if self.cursor <= n { self.cursor } else { n }, text }
    }
}

proof fn lemma_last_where_bound(s: Seq<char>, hi: int, b: bool)
    ensures
        -1 <= last_where(s, hi, b) < if hi > 0 { hi } else { 0 },
    decreases hi,
{
    if hi > 0 && is_boundary(s[hi - 1]) != b {
        lemma_last_where_bound(s, hi - 1, b);
    }
}

proof fn lemma_first_where_bound(s: Seq<char>, lo: int, b: bool)
    requires
        0 <= lo <= s.len(),
    ensures
        lo <= first_where(s, lo, b) <= s.len(),
    decreases s.len() - lo,
{
    if lo < s.len() && is_boundary(s[lo]) != b {
        lemma_first_where_bound(s, lo + 1, b);
    }
}

} // verus!
