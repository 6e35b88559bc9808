//! Character-cursor scanning over an in-memory string.
//!
//! Both parsers in this crate scan a string left to right through a single
//! mutable position. The position counts characters (not bytes), so advancing
//! over a multi-byte character is always by exactly one position and can never
//! split an encoded character.

use vstd::prelude::*;
use vstd::string::StrSliceExecFns;

verus! {

/// The reason a parse was aborted. No partial result is ever returned.
#[derive(Debug, Clone, Copy, PartialEq, Eq, Structural)]
pub enum ParseError {
    /// A required delimiter or token was not the next character.
    UnexpectedCharacter,
    /// A comment opener was never matched by `-->`.
    UnterminatedComment,
    /// The input ended inside a tag or before a required closing tag.
    UnterminatedTag,
    /// An attribute value's opening quote was never matched.
    UnterminatedQuotedValue,
    /// A closing tag named a different tag than the one it closes.
    ClosingTagMismatch,
}

/// Is `c` whitespace? The set is the Unicode `White_Space` category.
pub open spec fn is_space_char(c: char) -> bool {
    let n = c as u32;
    n == 0x20 || (0x9 <= n && n <= 0xD) || n == 0x85 || n == 0xA0 || n == 0x1680
        || (0x2000 <= n && n <= 0x200A) || n == 0x2028 || n == 0x2029 || n == 0x202F
        || n == 0x205F || n == 0x3000
}

/// Is `c` allowed in a tag or attribute name? (ASCII letters and digits.)
pub open spec fn is_tag_name_char(c: char) -> bool {
    let n = c as u32;
    (0x61 <= n && n <= 0x7A) || (0x41 <= n && n <= 0x5A) || (0x30 <= n && n <= 0x39)
}

/// Is `c` allowed in a selector identifier? (Tag-name characters, `-` and `_`.)
pub open spec fn is_ident_char(c: char) -> bool {
    is_tag_name_char(c) || c == '-' || c == '_'
}

/// A character predicate that a scanning loop repeats under.
#[derive(Debug, Clone, Copy)]
pub enum CharTest {
    /// Any character other than the given one.
    NotChar(char),
    /// Whitespace.
    Space,
    /// A tag-name character.
    TagName,
    /// A selector-identifier character.
    Ident,
}

impl CharTest {
    /// What the predicate means of a character.
    pub open spec fn holds(self, c: char) -> bool {
        match self {
            CharTest::NotChar(q) => c != q,
            CharTest::Space => is_space_char(c),
            CharTest::TagName => is_tag_name_char(c),
            CharTest::Ident => is_ident_char(c),
        }
    }

    /// Decide the predicate on one character.
    pub fn eval(self, c: char) -> (b: bool)
        ensures
            b == self.holds(c),
    {
        match self {
            CharTest::NotChar(q) => c != q,
            CharTest::Space => {
                let n = c as u32;
                n == 0x20 || (0x9 <= n && n <= 0xD) || n == 0x85 || n == 0xA0 || n == 0x1680
                    || (0x2000 <= n && n <= 0x200A) || n == 0x2028 || n == 0x2029 || n == 0x202F
                    || n == 0x205F || n == 0x3000
            },
            CharTest::TagName => {
                let n = c as u32;
                (0x61 <= n && n <= 0x7A) || (0x41 <= n && n <= 0x5A) || (0x30 <= n && n <= 0x39)
            },
            CharTest::Ident => {
                let n = c as u32;
                (0x61 <= n && n <= 0x7A) || (0x41 <= n && n <= 0x5A) || (0x30 <= n && n <= 0x39)
                    || c == '-' || c == '_'
            },
        }
    }
}

/// The position reached by scanning forward from `i` while `t` holds: the
/// first position at or after `i` whose character fails `t`, or the end of
/// the input if every character from `i` on passes.
pub open spec fn scan_end(s: Seq<char>, i: int, t: CharTest) -> int
    decreases s.len() - i,
{
    if 0 <= i < s.len() && t.holds(s[i]) {
        scan_end(s, i + 1, t)
    } else {
        i
    }
}

/// The position reached by skipping whitespace forward from `i`.
pub open spec fn skip_ws(s: Seq<char>, i: int) -> int {
    scan_end(s, i, CharTest::Space)
}

/// `scan_end` stays within the input, every character it passed over
/// satisfies the test, and the character it stopped on (if any) does not.
pub proof fn lemma_scan_end(s: Seq<char>, i: int, t: CharTest)
    requires
        0 <= i <= s.len(),
    ensures
        i <= scan_end(s, i, t) <= s.len(),
        forall|k: int| i <= k < scan_end(s, i, t) ==> t.holds(s[k]),
        scan_end(s, i, t) < s.len() ==> !t.holds(s[scan_end(s, i, t)]),
    decreases s.len() - i,
{
    if 0 <= i < s.len() && t.holds(s[i]) {
        lemma_scan_end(s, i + 1, t);
    }
}

/// Are two strings the same sequence of characters?
pub fn str_eq(a: &str, b: &str) -> (r: bool)
    ensures
        r == (a@ == b@),
{
    let n: usize = a.unicode_len();
    if n != b.unicode_len() {
        return false;
    }
    let mut i: usize = 0;
    while i < n
        invariant
            n == a@.len(),
            n == b@.len(),
            i <= n,
            forall|k: int| 0 <= k < i ==> a@[k] == b@[k],
        decreases n - i,
    {
        if a.get_char(i) != b.get_char(i) {
            return false;
        }
        i = i + 1;
    }
    proof {
        assert(a@ =~= b@);
    }
    true
}

/// A scan position over an immutable input string. The position counts
/// characters of the input and never exceeds the character count.
pub struct Cursor {
    pub input: String,
    pub pos: usize,
}

impl Cursor {
    /// The input as a sequence of characters.
    pub open spec fn text(&self) -> Seq<char> {
        self.input@
    }

    /// The current position, as a mathematical integer.
    pub open spec fn at(&self) -> int {
        self.pos as int
    }

    /// The position is within bounds.
    pub open spec fn wf(&self) -> bool {
        self.pos <= self.input@.len()
    }

    /// A cursor at the start of the given input.
    pub fn new(input: String) -> (c: Cursor)
        ensures
            c.wf(),
            c.text() == input@,
            c.at() == 0,
    {
        Cursor { input, pos: 0 }
    }

    /// The character count of the input.
    pub fn len(&self) -> (n: usize)
        ensures
            n == self.text().len(),
    {
        self.input.as_str().unicode_len()
    }

    /// Is the input consumed?
    pub fn eof(&self) -> (b: bool)
        ensures
            b == (self.at() >= self.text().len()),
    {
        self.pos >= self.input.as_str().unicode_len()
    }

    /// Read the character at the position without consuming it.
    pub fn next_char(&self) -> (c: char)
        requires
            self.wf(),
            self.at() < self.text().len(),
        ensures
            c == self.text()[self.at()],
    {
        self.input.as_str().get_char(self.pos)
    }

    /// Read the character at the given position without consuming anything.
    pub fn char_at(&self, i: usize) -> (c: char)
        requires
            i < self.text().len(),
        ensures
            c == self.text()[i as int],
    {
        self.input.as_str().get_char(i)
    }

    /// Consume and return the character at the position.
    pub fn consume_char(&mut self) -> (c: char)
        requires
            old(self).wf(),
            old(self).at() < old(self).text().len(),
        ensures
            final(self).wf(),
            final(self).text() == old(self).text(),
            final(self).at() == old(self).at() + 1,
            c == old(self).text()[old(self).at()],
    {
        // reading the length as a machine integer shows the next position
        // cannot overflow
        let _n: usize = self.input.as_str().unicode_len();
        let c = self.input.as_str().get_char(self.pos);
        self.pos = self.pos + 1;
        c
    }

    /// Consume characters while `t` holds of the next one; return the
    /// consumed run as a string.
    pub fn consume_while(&mut self, t: CharTest) -> (r: String)
        requires
            old(self).wf(),
        ensures
            final(self).wf(),
            final(self).text() == old(self).text(),
            final(self).at() == scan_end(old(self).text(), old(self).at(), t),
            old(self).at() <= final(self).at(),
            r@ == old(self).text().subrange(old(self).at(), final(self).at()),
    {
        let ghost s = self.input@;
        let n: usize = self.input.as_str().unicode_len();
        let start: usize = self.pos;
        let mut j: usize = self.pos;
        while j < n && t.eval(self.input.as_str().get_char(j))
            invariant
                start <= j <= n,
                n == s.len(),
                self.input@ == s,
                self.pos == start,
                scan_end(s, start as int, t) == scan_end(s, j as int, t),
            decreases n - j,
        {
            j = j + 1;
        }
        self.pos = j;
        let r = self.input.as_str().substring_char(start, j).to_owned();
        proof {
            lemma_scan_end(s, start as int, t);
        }
        r
    }

    /// Consume and discard whitespace.
    pub fn consume_whitespace(&mut self)
        requires
            old(self).wf(),
        ensures
            final(self).wf(),
            final(self).text() == old(self).text(),
            final(self).at() == skip_ws(old(self).text(), old(self).at()),
            old(self).at() <= final(self).at(),
    {
        let _ = self.consume_while(CharTest::Space);
    }
}

} // verus!
