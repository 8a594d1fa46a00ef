use vstd::prelude::*;

use crate::strings::{chars_of, string_from_chars};

verus! {

/// Number of characters (Unicode scalar values) in `s`.
pub fn char_count(s: &str) -> (n: usize)
    ensures
        n == s@.len(),
{
    chars_of(s).len()
}

/// A simple single-line text input, as drawn: the text, the cursor (in characters) and
/// the label in front.
pub struct TextInput<'a> {
    pub query: &'a str,
    /// Cursor position in **Unicode scalar values** (user-perceived characters).
    pub cursor: usize,
    pub label: &'a str,
}

/// The first character shown when `available` columns follow the label: far enough
/// right that the cursor stays on screen.
pub open spec fn window_start(cursor: int, available: int) -> int {
    if available > 0 && cursor > available - 1 {
        cursor - available + 1
    } else {
        0
    }
}

/// What the input shows in `available` columns after its label: the visible part of the
/// text, the cursor's column within it, and the character under the cursor (a space past
/// the end).
pub open spec fn window_spec(query: Seq<char>, cursor: int, available: int) -> (Seq<char>, int, char) {
    let start = window_start(cursor, available);
    let end = if start + available < query.len() {
        start + available
    } else {
        query.len() as int
    };
    (
        if start < query.len() {
            query.subrange(start, end)
        } else {
            Seq::empty()
        },
        cursor - start,
        if cursor < query.len() {
            query[cursor]
        } else {
            ' '
        },
    )
}

impl<'a> TextInput<'a> {
    /// The part of the text shown when `available` columns follow the label, the column
    /// (after the label) of the cursor, and the character under the cursor.
    pub fn visible_window(&self, available: usize) -> (r: (String, usize, char))
        requires
            available > 0 || self.cursor == 0,
        ensures
            ({
                let w = window_spec(self.query@, self.cursor as int, available as int);
                r.0@ == w.0 && r.1 == w.1 && r.2 == w.2
            }),
    {
        let start: usize = if available > 0 && self.cursor > available - 1 {
            self.cursor - available + 1
        } else {
            0
        };
        let cs = chars_of(self.query);
        let shown = if start < cs.len() {
            let end = if available < cs.len() - start {
                start + available
            } else {
                cs.len()
            };
            let mut part: Vec<char> = Vec::new();
            let mut i = start;
            while i < end
                invariant
                    start <= i <= end,
                    end <= cs@.len(),
                    part@ == cs@.subrange(start as int, i as int),
                decreases end - i,
            {
                part.push(cs[i]);
                proof {
                    assert(part@ =~= cs@.subrange(start as int, i as int + 1));
                }
                i = i + 1;
            }
            string_from_chars(part.as_slice())
        } else {
            String::new()
        };
        let under = if self.cursor < cs.len() {
            cs[self.cursor]
        } else {
            ' '
        };
        (shown, self.cursor - start, under)
    }
}

/// State for a text input: the query string and cursor position (character index).
#[derive(Debug, Clone)]
pub struct TextInputState {
    pub query: String,
    pub cursor: usize,
}

/// `s` with `c` inserted before position `k` (at the end when `k` is past it).
pub open spec fn insert_spec(s: Seq<char>, k: int, c: char) -> Seq<char> {
    let p = if k < s.len() {
        k
    } else {
        s.len() as int
    };
    s.subrange(0, p).push(c) + s.subrange(p, s.len() as int)
}

/// Typing a character and then deleting it with backspace gives back the text it was
/// typed into; and a cursor within the text stays within it after typing.
pub proof fn lemma_insert_then_backspace(s: Seq<char>, k: int, c: char)
    requires
        0 <= k <= s.len(),
    ensures
        insert_spec(s, k, c).len() == s.len() + 1,
        insert_spec(s, k, c).remove(k) == s,
{
    assert(insert_spec(s, k, c).remove(k) =~= s);
}

/// The characters `cs` without the one at position `k`.
fn without_char_at(cs: &Vec<char>, k: usize) -> (s: String)
    requires
        k < cs@.len(),
    ensures
        s@ == cs@.remove(k as int),
        s@.len() <= isize::MAX,
{
    let mut v: Vec<char> = Vec::new();
    let mut i: usize = 0;
    while i < cs.len()
        invariant
            i <= cs@.len(),
            k < cs@.len(),
            v@ == (if i <= k {
                cs@.subrange(0, i as int)
            } else {
                cs@.subrange(0, i as int).remove(k as int)
            }),
        decreases cs@.len() - i,
    {
        if i != k {
            v.push(cs[i]);
        }
        proof {
            if i < k {
                assert(v@ =~= cs@.subrange(0, i as int + 1));
            } else if i == k {
                assert(v@ =~= cs@.subrange(0, i as int + 1).remove(k as int));
            } else {
                assert(v@ =~= cs@.subrange(0, i as int + 1).remove(k as int));
            }
        }
        i = i + 1;
    }
    proof {
        assert(cs@.subrange(0, i as int) =~= cs@);
    }
    string_from_chars(v.as_slice())
}

impl TextInputState {
    pub fn new() -> (s: Self)
        ensures
            s.query@.len() == 0,
            s.cursor == 0,
    {
        TextInputState { query: String::new(), cursor: 0 }
    }

    /// Insert `ch` at the cursor (at the end when the cursor is past it) and move the
    /// cursor one character right.
    pub fn insert(&mut self, ch: char)
        requires
            old(self).cursor < usize::MAX,
        ensures
            final(self).query@ == insert_spec(old(self).query@, old(self).cursor as int, ch),
            final(self).cursor == old(self).cursor + 1,
            final(self).query@.len() <= isize::MAX,
    {
        let cs = chars_of(self.query.as_str());
        let k = if self.cursor < cs.len() {
            self.cursor
        } else {
            cs.len()
        };
        let mut v: Vec<char> = Vec::new();
        let mut i: usize = 0;
        while i < k
            invariant
                i <= k <= cs@.len(),
                v@ == cs@.subrange(0, i as int),
            decreases k - i,
        {
            v.push(cs[i]);
            proof {
                assert(v@ =~= cs@.subrange(0, i as int + 1));
            }
            i = i + 1;
        }
        v.push(ch);
        let ghost head = v@;
        while i < cs.len()
            invariant
                k <= i <= cs@.len(),
                v@ == head + cs@.subrange(k as int, i as int),
            decreases cs@.len() - i,
        {
            v.push(cs[i]);
            proof {
                assert(v@ =~= head + cs@.subrange(k as int, i as int + 1));
            }
            i = i + 1;
        }
        self.query = string_from_chars(v.as_slice());
        self.cursor = self.cursor + 1;
    }

    /// Delete the character before the cursor and move the cursor left.
    pub fn backspace(&mut self)
        requires
            old(self).cursor <= old(self).query@.len(),
        ensures
            old(self).cursor == 0 ==> final(self).query@ == old(self).query@ && final(self).cursor
                == 0,
            old(self).cursor > 0 ==> final(self).query@ == old(self).query@.remove(
                old(self).cursor - 1,
            ) && final(self).cursor == old(self).cursor - 1,
    {
        if self.cursor == 0 {
            return;
        }
        self.cursor = self.cursor - 1;
        let cs = chars_of(self.query.as_str());
        self.query = without_char_at(&cs, self.cursor);
    }

    /// Delete the character at the cursor, if there is one.
    pub fn delete(&mut self)
        ensures
            final(self).cursor == old(self).cursor,
            old(self).cursor >= old(self).query@.len() ==> final(self).query@ == old(self).query@,
            old(self).cursor < old(self).query@.len() ==> final(self).query@ == old(self).query@.remove(
                old(self).cursor as int,
            ),
    {
        if self.cursor >= char_count(self.query.as_str()) {
            return;
        }
        let cs = chars_of(self.query.as_str());
        self.query = without_char_at(&cs, self.cursor);
    }

    pub fn move_left(&mut self)
        ensures
            final(self).query == old(self).query,
            final(self).cursor == (if old(self).cursor > 0 {
                old(self).cursor - 1
            } else {
                0
            }),
    {
        self.cursor = if self.cursor > 0 {
            self.cursor - 1
        } else {
            0
        };
    }

    pub fn move_right(&mut self)
        ensures
            final(self).query == old(self).query,
            final(self).cursor == (if old(self).cursor < old(self).query@.len() {
                old(self).cursor + 1
            } else {
                old(self).query@.len() as int
            }),
    {
        let max = char_count(self.query.as_str());
        self.cursor = if self.cursor < max {
            self.cursor + 1
        } else {
            max
        };
    }

    pub fn move_home(&mut self)
        ensures
            final(self).query == old(self).query,
            final(self).cursor == 0,
    {
        self.cursor = 0;
    }

    pub fn move_end(&mut self)
        ensures
            final(self).query == old(self).query,
            final(self).cursor == old(self).query@.len(),
    {
        self.cursor = char_count(self.query.as_str());
    }

    pub fn clear(&mut self)
        ensures
            final(self).query@.len() == 0,
            final(self).cursor == 0,
    {
        self.query = String::new();
        self.cursor = 0;
    }
}

} // verus!
