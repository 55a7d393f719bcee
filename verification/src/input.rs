//! The filter input line: a string being edited, a cursor inside a
//! window of fixed width, and the window's overflow when the text is
//! longer than the window. All positions are counted in characters.

use vstd::prelude::*;

use crate::strutil::push_char;
use vstd::string::StringExecFns;
use vstd::string::StringSliceAdditionalSpecFns;

verus! {

/// The smaller of two lengths.
pub open spec fn min_int(a: int, b: int) -> int {
    if a < b {
        a
    } else {
        b
    }
}

/// Where a cursor may stand: clamped to the text and the window.
pub open spec fn clamp_spec(len: int, width: int, pos: int) -> int {
    min_int(pos, min_int(len, width))
}

/// A string with the character at position `p` taken out.
pub open spec fn remove_char_at(s: Seq<char>, p: int) -> Seq<char> {
    s.take(p) + s.skip(p + 1)
}

/// A string with one character put in at position `p`.
pub open spec fn insert_char_at(s: Seq<char>, p: int, c: char) -> Seq<char> {
    s.take(p) + seq![c] + s.skip(p)
}

/// Rebuilds a string with one character inserted at character
/// position `p`.
pub fn string_insert_at(s: &str, p: usize, c: char) -> (r: String)
    requires
        p <= s@.len(),
    ensures
        r@ == insert_char_at(s@, p as int, c),
{
    let len = s.unicode_len();
    let mut out = String::from_str(s.substring_char(0, p));
    push_char(&mut out, c);
    out.append(s.substring_char(p, len));
    assert(out@ =~= insert_char_at(s@, p as int, c));
    out
}

/// Rebuilds a string with the character at character position `p`
/// taken out.
pub fn string_remove_at(s: &str, p: usize) -> (r: String)
    requires
        p < s@.len(),
    ensures
        r@ == remove_char_at(s@, p as int),
{
    let len = s.unicode_len();
    let mut out = String::from_str(s.substring_char(0, p));
    out.append(s.substring_char(p + 1, len));
    assert(out@ =~= remove_char_at(s@, p as int));
    out
}

/// The editable filter line behind the input widget.
#[derive(Debug)]
pub struct InputState {
    pub filter: String,
    pub cursor_index: usize,
    pub overflow: usize,
    pub width: usize,
}

impl InputState {
    /// The state's standing invariant: the cursor stays inside both
    /// the window and the text, and the window overflows only as far
    /// as the text reaches past it.
    pub open spec fn wf(&self) -> bool {
        &&& self.cursor_index <= self.width
        &&& self.cursor_index <= self.filter@.len()
        &&& (self.overflow == 0 || self.overflow + self.width <= self.filter@.len())
    }

    /// The character position the cursor stands for in the whole text.
    pub open spec fn text_pos(&self) -> int {
        self.cursor_index + self.overflow
    }

    /// Clamps a candidate cursor position into the text and the
    /// window.
    pub fn clamp_cursor(&self, new_cursor_pos: usize) -> (r: usize)
        ensures
            r == clamp_spec(self.filter@.len() as int, self.width as int, new_cursor_pos as int),
    {
        let count = self.filter.as_str().unicode_len();
        let max = if count < self.width {
            count
        } else {
            self.width
        };
        if new_cursor_pos < max {
            new_cursor_pos
        } else {
            max
        }
    }

    /// The byte offset of the cursor's character position: where a
    /// byte-indexed edit of the text would land.
    pub fn byte_index(&self) -> (r: usize)
        ensures
            r == vstd::utf8::encode_utf8(
                self.filter@.take(
                    min_int(self.cursor_index + self.overflow, self.filter@.len() as int),
                ),
            ).len() as usize,
    {
        let count = self.filter.as_str().unicode_len();
        let pos = if self.cursor_index <= count && self.overflow <= count - self.cursor_index {
            self.cursor_index + self.overflow
        } else {
            count
        };
        let prefix = self.filter.as_str().substring_char(0, pos);
        proof {
            assert(prefix.spec_bytes() == vstd::utf8::encode_utf8(prefix@));
            assert(prefix@ =~= self.filter@.take(
                min_int(self.cursor_index + self.overflow, self.filter@.len() as int),
            ));
        }
        prefix.len()
    }

    /// Moves the cursor one step left; at the window's left edge the
    /// window scrolls back first.
    pub fn move_cursor_left(&mut self)
        requires
            old(self).cursor_index <= old(self).width,
            old(self).overflow == 0 || old(self).overflow + old(self).width <= old(
                self,
            ).filter@.len(),
        ensures
            final(self).wf(),
            final(self).filter@ == old(self).filter@,
            final(self).width == old(self).width,
            final(self).overflow == (if old(self).cursor_index == 0 && old(self).overflow > 0 {
                (old(self).overflow - 1) as usize
            } else {
                old(self).overflow
            }),
            final(self).cursor_index == clamp_spec(
                old(self).filter@.len() as int,
                old(self).width as int,
                if old(self).cursor_index == 0 {
                    0
                } else {
                    old(self).cursor_index - 1
                },
            ),
    {
        if self.cursor_index == 0 && self.overflow > 0 {
            self.overflow = self.overflow - 1;
        }
        let moved = if self.cursor_index == 0 {
            0
        } else {
            self.cursor_index - 1
        };
        self.cursor_index = self.clamp_cursor(moved);
    }

    /// Moves the cursor one step right; at the window's right edge the
    /// window scrolls forward first, as far as the text reaches.
    pub fn move_cursor_right(&mut self)
        requires
            old(self).wf(),
        ensures
            final(self).wf(),
            final(self).filter@ == old(self).filter@,
            final(self).width == old(self).width,
            final(self).overflow == (if old(self).cursor_index == old(self).width && old(
                self,
            ).overflow + old(self).width < old(self).filter@.len() {
                (old(self).overflow + 1) as usize
            } else {
                old(self).overflow
            }),
            final(self).cursor_index == clamp_spec(
                old(self).filter@.len() as int,
                old(self).width as int,
                old(self).cursor_index + 1,
            ),
    {
        let count = self.filter.as_str().unicode_len();
        let max_overflow = if count > self.width {
            count - self.width
        } else {
            0
        };
        if self.cursor_index == self.width && self.overflow < max_overflow {
            self.overflow = self.overflow + 1;
        }
        let moved = if self.cursor_index < usize::MAX {
            self.cursor_index + 1
        } else {
            self.cursor_index
        };
        self.cursor_index = self.clamp_cursor(moved);
    }

    /// Recomputes the overflow from the text and window lengths.
    pub fn set_overflow(&mut self)
        ensures
            final(self).filter@ == old(self).filter@,
            final(self).width == old(self).width,
            final(self).cursor_index == old(self).cursor_index,
            final(self).overflow == (if old(self).filter@.len() > old(self).width {
                (old(self).filter@.len() - old(self).width) as usize
            } else {
                0usize
            }),
    {
        let count = self.filter.as_str().unicode_len();
        self.overflow = if count > self.width {
            count - self.width
        } else {
            0
        };
    }

    /// Puts a character in at the cursor's text position, then follows
    /// it: the window scrolls when the text no longer fits, else the
    /// cursor moves right.
    pub fn enter_char(&mut self, new_char: char)
        requires
            old(self).wf(),
            old(self).filter@.len() < usize::MAX,
        ensures
            final(self).wf(),
            final(self).width == old(self).width,
            final(self).filter@ == insert_char_at(
                old(self).filter@,
                old(self).text_pos(),
                new_char,
            ),
            final(self).overflow == (if old(self).filter@.len() + 1 > old(self).width {
                (old(self).filter@.len() + 1 - old(self).width) as usize
            } else {
                0usize
            }),
            final(self).overflow == 0 ==> final(self).cursor_index == clamp_spec(
                old(self).filter@.len() as int + 1,
                old(self).width as int,
                old(self).cursor_index + 1,
            ),
            final(self).overflow != 0 ==> final(self).cursor_index == old(self).cursor_index,
    {
        let count = self.filter.as_str().unicode_len();
        assert(self.cursor_index + self.overflow <= count);
        let p = self.cursor_index + self.overflow;
        self.filter = string_insert_at(self.filter.as_str(), p, new_char);
        proof {
            assert(old(self).filter@.take(p as int).len() == p);
            assert(old(self).filter@.skip(p as int).len() == old(self).filter@.len() - p);
            assert(self.filter@.len() == old(self).filter@.len() + 1);
        }
        self.set_overflow();
        proof {
            assert(self.filter@.len() == old(self).filter@.len() + 1);
            assert(self.overflow == (if old(self).filter@.len() + 1 > old(self).width {
                (old(self).filter@.len() + 1 - old(self).width) as usize
            } else {
                0usize
            }));
        }
        if self.overflow == 0 {
            assert(self.filter@.len() <= self.width);
            self.move_cursor_right();
            assert(self.overflow == 0);
        }
    }

    /// Takes out the character left of the cursor's text position, if
    /// any; the cursor or the window follows, and the overflow is
    /// recomputed.
    pub fn delete_char(&mut self)
        requires
            old(self).wf(),
        ensures
            final(self).wf(),
            final(self).width == old(self).width,
            old(self).text_pos() == 0 ==> *final(self) == *old(self),
            old(self).text_pos() != 0 ==> final(self).filter@ == remove_char_at(
                old(self).filter@,
                old(self).text_pos() - 1,
            ),
            old(self).text_pos() != 0 ==> final(self).overflow == (if old(self).filter@.len() - 1
                > old(self).width {
                (old(self).filter@.len() - 1 - old(self).width) as usize
            } else {
                0usize
            }),
    {
        if self.cursor_index == 0 && self.overflow == 0 {
            return ;
        }
        let count = self.filter.as_str().unicode_len();
        assert(self.cursor_index + self.overflow <= count);
        let current_index = self.cursor_index + self.overflow;
        self.filter = string_remove_at(self.filter.as_str(), current_index - 1);
        if self.overflow == 0 {
            self.move_cursor_left();
        }
        self.set_overflow();
    }

    /// Takes out the character at the cursor's text position, if any;
    /// a scrolled window moves forward first, and the overflow is
    /// recomputed.
    pub fn right_delete_char(&mut self)
        requires
            old(self).wf(),
        ensures
            final(self).wf(),
            final(self).width == old(self).width,
            old(self).text_pos() == old(self).filter@.len() ==> *final(self) == *old(self),
            old(self).text_pos() != old(self).filter@.len() ==> final(self).filter@
                == remove_char_at(old(self).filter@, old(self).text_pos()),
            old(self).text_pos() != old(self).filter@.len() ==> final(self).overflow == (if old(
                self,
            ).filter@.len() - 1 > old(self).width {
                (old(self).filter@.len() - 1 - old(self).width) as usize
            } else {
                0usize
            }),
    {
        let count = self.filter.as_str().unicode_len();
        assert(self.cursor_index + self.overflow <= count);
        if self.cursor_index + self.overflow >= count {
            return ;
        }
        let index = self.cursor_index + self.overflow;
        if self.overflow > 0 {
            self.move_cursor_right();
        }
        self.filter = string_remove_at(self.filter.as_str(), index);
        self.set_overflow();
    }
}

impl Default for InputState {
    fn default() -> (r: Self)
        ensures
            r.wf(),
            r.filter@.len() == 0,
            r.cursor_index == 0,
            r.overflow == 0,
            r.width == 32,
    {
        InputState { filter: String::new(), cursor_index: 0, width: 32, overflow: 0 }
    }
}

} // verus!
