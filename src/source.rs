//! Source text with the position of every character: byte offset, line and
//! column, as nodes record them.
use vstd::prelude::*;
use crate::chars::chars_of;

verus! {

/// The longest input, in characters, that positions are computed for.
pub const MAX_CHARS: usize = 0x4000_0000;

/// Bytes taken by `c` in UTF-8.
pub open spec fn utf8_width(c: char) -> int {
    if (c as u32) < 0x80 {
        1
    } else if (c as u32) < 0x800 {
        2
    } else if (c as u32) < 0x10000 {
        3
    } else {
        4
    }
}

/// Byte offset of character `i` of `s`.
pub open spec fn byte_offset(s: Seq<char>, i: int) -> int
    decreases i,
{
    if i <= 0 {
        0
    } else {
        byte_offset(s, i - 1) + utf8_width(s[i - 1])
    }
}

/// Line (from 1) of character `i` of `s`.
pub open spec fn line_at(s: Seq<char>, i: int) -> int
    decreases i,
{
    if i <= 0 {
        1
    } else {
        line_at(s, i - 1) + if s[i - 1] == '\n' {
            1int
        } else {
            0int
        }
    }
}

/// Column (from 1, counted in characters) of character `i` of `s`.
pub open spec fn column_at(s: Seq<char>, i: int) -> int
    decreases i,
{
    if i <= 0 {
        1
    } else if s[i - 1] == '\n' {
        1
    } else {
        column_at(s, i - 1) + 1
    }
}

/// Where a character stands.
#[derive(Clone, Copy, Debug, PartialEq, Eq)]
pub struct Mark {
    pub offset: usize,
    pub line: u32,
    pub column: u32,
}

/// The text being parsed, as characters, with the mark of each position
/// from the first character to the end of input.
pub struct Source {
    pub chars: Vec<char>,
    pub marks: Vec<Mark>,
}

impl Source {
    /// The characters of the source.
    pub open spec fn view(&self) -> Seq<char> {
        self.chars@
    }

    /// Every mark is the position of its character.
    pub open spec fn wf(&self) -> bool {
        &&& self.chars@.len() < MAX_CHARS
        &&& self.marks@.len() == self.chars@.len() + 1
        &&& forall|k: int|
            0 <= k <= self.chars@.len() ==> {
                &&& #[trigger] self.marks@[k].offset == byte_offset(self.chars@, k)
                &&& self.marks@[k].line == line_at(self.chars@, k)
                &&& self.marks@[k].column == column_at(self.chars@, k)
            }
    }

    /// Reads `text` and computes the mark of each position.
    pub fn new(text: &str) -> (r: Source)
        requires
            text@.len() < MAX_CHARS,
        ensures
            r.wf(),
            r@ == text@,
    {
        let chars = chars_of(text);
        let n = chars.len();
        let mut marks: Vec<Mark> = Vec::new();
        let mut cur = Mark { offset: 0, line: 1, column: 1 };
        let mut k: usize = 0;
        while k <= n
            invariant
                n == chars@.len(),
                n < MAX_CHARS,
                k <= n + 1,
                marks@.len() == k,
                k <= n ==> cur.offset == byte_offset(chars@, k as int),
                k <= n ==> cur.line == line_at(chars@, k as int),
                k <= n ==> cur.column == column_at(chars@, k as int),
                cur.offset <= 4 * k,
                cur.line <= k + 1,
                cur.column <= k + 1,
                forall|m: int|
                    0 <= m < k ==> {
                        &&& #[trigger] marks@[m].offset == byte_offset(chars@, m)
                        &&& marks@[m].line == line_at(chars@, m)
                        &&& marks@[m].column == column_at(chars@, m)
                    },
            decreases n + 1 - k,
        {
            marks.push(cur);
            if k < n {
                let c = chars[k];
                let w: usize = if (c as u32) < 0x80 {
                    1
                } else if (c as u32) < 0x800 {
                    2
                } else if (c as u32) < 0x10000 {
                    3
                } else {
                    4
                };
                if c == '\n' {
                    cur = Mark { offset: cur.offset + w, line: cur.line + 1, column: 1 };
                } else {
                    cur = Mark { offset: cur.offset + w, line: cur.line, column: cur.column + 1 };
                }
            }
            k = k + 1;
        }
        Source { chars, marks }
    }

    /// The number of characters.
    pub fn len(&self) -> (r: usize)
        ensures
            r == self@.len(),
    {
        self.chars.len()
    }
}

} // verus!
