//! A one-line text input with a cursor counted in characters.
use vstd::prelude::*;

use vstd::utf8::{encode_scalar, encode_utf8};

use crate::text::{chars_of, string_from};

verus! {

/// The number of bytes that UTF-8 takes for `c`.
pub open spec fn utf8_width(c: char) -> nat {
    if (c as u32) < 0x80 {
        1
    } else if (c as u32) < 0x800 {
        2
    } else if (c as u32) < 0x10000 {
        3
    } else {
        4
    }
}

proof fn lemma_encode_concat(a: Seq<char>, b: Seq<char>)
    ensures
        encode_utf8(a + b) == encode_utf8(a) + encode_utf8(b),
    decreases a.len(),
{
    if a.len() > 0 {
        lemma_encode_concat(a.drop_first(), b);
        assert((a + b).drop_first() =~= a.drop_first() + b);
        assert(encode_utf8(a + b) =~= encode_utf8(a) + encode_utf8(b));
    } else {
        assert(a + b =~= b);
        assert(encode_utf8(a) + encode_utf8(b) =~= encode_utf8(b));
    }
}

proof fn lemma_encode_push(s: Seq<char>, c: char)
    ensures
        encode_utf8(s.push(c)).len() == encode_utf8(s).len() + utf8_width(c),
{
    lemma_encode_concat(s, seq![c]);
    assert(s.push(c) =~= s + seq![c]);
    assert(seq![c].drop_first() =~= Seq::<char>::empty());
    assert(seq![c][0] == c);
    assert(encode_utf8(Seq::<char>::empty()) =~= Seq::<u8>::empty());
    assert(encode_utf8(seq![c]) == encode_scalar(c as u32) + encode_utf8(seq![c].drop_first()));
    assert(encode_utf8(seq![c]) =~= encode_scalar(c as u32));
}

/// `a` capped at `b`.
pub open spec fn at_most(a: int, b: int) -> int {
    if a <= b {
        a
    } else {
        b
    }
}

/// The cursor one step to the left, within the text.
pub open spec fn left_of(k: int, n: int) -> int {
    at_most(if k == 0 { 0 } else { k - 1 }, n)
}

/// The cursor one step to the right, within the text.
pub open spec fn right_of(k: int, n: int) -> int {
    at_most(if k == usize::MAX { usize::MAX as int } else { k + 1 }, n)
}

/// `new` is `old` after typing `c` at the cursor.
pub open spec fn typed(old: Input, new: Input, c: char) -> bool {
    let n = old.input@.len() as int;
    &&& new.input@ == old.input@.insert(at_most(old.character_index as int, n), c)
    &&& new.character_index == right_of(old.character_index as int, n + 1)
}

/// `new` is `old` after deleting the character left of the cursor.
pub open spec fn erased(old: Input, new: Input) -> bool {
    let k = old.character_index as int;
    let n = old.input@.len() as int;
    let rest = old.input@.subrange(0, at_most(k - 1, n)) + old.input@.subrange(at_most(k, n), n);
    if k == 0 {
        new == old
    } else {
        new.input@ == rest && new.character_index == at_most(k - 1, rest.len() as int)
    }
}

/// `new` is `old` with the cursor moved one character to the left.
pub open spec fn moved_left(old: Input, new: Input) -> bool {
    new.input == old.input && new.character_index == left_of(
        old.character_index as int,
        old.input@.len() as int,
    )
}

/// `new` is `old` with the cursor moved one character to the right.
pub open spec fn moved_right(old: Input, new: Input) -> bool {
    new.input == old.input && new.character_index == right_of(
        old.character_index as int,
        old.input@.len() as int,
    )
}

fn width_of(c: char) -> (r: usize)
    ensures
        r == utf8_width(c),
{
    let v = c as u32;
    if v < 0x80 {
        1
    } else if v < 0x800 {
        2
    } else if v < 0x10000 {
        3
    } else {
        4
    }
}

#[derive(Clone, Copy, Debug, PartialEq, Eq)]
pub enum InputMode {
    Normal,
    Editing,
}

pub struct Input {
    pub input: String,
    pub character_index: usize,
}

impl Input {
    /// An empty input with the cursor at its start.
    pub fn new() -> (r: Input)
        ensures
            r.input@ == Seq::<char>::empty(),
            r.character_index == 0,
    {
        Input { character_index: 0, input: String::new() }
    }

    /// Moves the cursor one character to the left, stopping at the start.
    pub fn move_cursor_left(&mut self)
        ensures
            moved_left(*old(self), *final(self)),
    {
        let cursor_moved_left = self.character_index.saturating_sub(1);
        self.character_index = self.clamp_cursor(cursor_moved_left);
    }

    /// Moves the cursor one character to the right, stopping at the end.
    pub fn move_cursor_right(&mut self)
        ensures
            moved_right(*old(self), *final(self)),
    {
        let cursor_moved_right = self.character_index.saturating_add(1);
        self.character_index = self.clamp_cursor(cursor_moved_right);
    }

    /// Inserts `new_char` at the cursor and moves the cursor past it.
    pub fn enter_char(&mut self, new_char: char)
        ensures
            typed(*old(self), *final(self), new_char),
    {
        let mut cs = chars_of(self.input.as_str());
        let index = if self.character_index <= cs.len() {
            self.character_index
        } else {
            cs.len()
        };
        cs.insert(index, new_char);
        self.input = string_from(&cs, 0, cs.len());
        assert(cs@.subrange(0, cs@.len() as int) =~= cs@);
        self.move_cursor_right();
    }

    /// The byte offset in the text of the character under the cursor, or the
    /// text's length in bytes when the cursor is past its end.
    pub fn byte_index(&self) -> (r: usize)
        ensures
            r == encode_utf8(
                self.input@.subrange(
                    0,
                    at_most(self.character_index as int, self.input@.len() as int),
                ),
            ).len(),
    {
        let total_bytes = self.input.as_str().as_bytes().len();
        let cs = chars_of(self.input.as_str());
        let end = if self.character_index <= cs.len() {
            self.character_index
        } else {
            cs.len()
        };
        let mut total: usize = 0;
        let mut i: usize = 0;
        while i < end
            invariant
                cs@ == self.input@,
                end <= cs@.len(),
                i <= end,
                total == encode_utf8(cs@.subrange(0, i as int)).len(),
                encode_utf8(cs@).len() == total_bytes,
            decreases end - i,
        {
            proof {
                assert(cs@.subrange(0, i + 1) =~= cs@.subrange(0, i as int).push(cs@[i as int]));
                lemma_encode_push(cs@.subrange(0, i as int), cs@[i as int]);
                lemma_encode_concat(cs@.subrange(0, i + 1), cs@.subrange(i + 1, cs@.len() as int));
                assert(cs@.subrange(0, i + 1) + cs@.subrange(i + 1, cs@.len() as int) =~= cs@);
            }
            total = total + width_of(cs[i]);
            i = i + 1;
        }
        total
    }

    /// Deletes the character left of the cursor and moves the cursor onto
    /// its place; nothing happens at the start of the text.
    pub fn delete_char(&mut self)
        ensures
            erased(*old(self), *final(self)),
    {
        let is_not_cursor_leftmost = self.character_index != 0;
        if is_not_cursor_leftmost {
            let cs = chars_of(self.input.as_str());
            let current_index = self.character_index;
            let from_left_to_current_index = current_index - 1;
            let keep = if from_left_to_current_index <= cs.len() {
                from_left_to_current_index
            } else {
                cs.len()
            };
            let resume = if current_index <= cs.len() {
                current_index
            } else {
                cs.len()
            };
            let mut out: Vec<char> = Vec::new();
            let mut i: usize = 0;
            while i < keep
                invariant
                    keep <= cs@.len(),
                    i <= keep,
                    out@ == cs@.subrange(0, i as int),
                decreases keep - i,
            {
                out.push(cs[i]);
                i = i + 1;
            }
            let mut j: usize = resume;
            while j < cs.len()
                invariant
                    keep <= resume <= j <= cs@.len(),
                    out@ == cs@.subrange(0, keep as int) + cs@.subrange(resume as int, j as int),
                decreases cs@.len() - j,
            {
                out.push(cs[j]);
                j = j + 1;
            }
            self.input = string_from(&out, 0, out.len());
            assert(out@.subrange(0, out@.len() as int) =~= out@);
            self.move_cursor_left();
        }
    }

    /// `new_cursor_pos` capped at the number of characters.
    pub fn clamp_cursor(&self, new_cursor_pos: usize) -> (r: usize)
        ensures
            r == at_most(new_cursor_pos as int, self.input@.len() as int),
    {
        let count = chars_of(self.input.as_str()).len();
        if new_cursor_pos <= count {
            new_cursor_pos
        } else {
            count
        }
    }

    /// Puts the cursor back at the start.
    pub fn reset_cursor(&mut self)
        ensures
            final(self).input == old(self).input,
            final(self).character_index == 0,
    {
        self.character_index = 0;
    }
}

} // verus!
