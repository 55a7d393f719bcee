//! A labelled filter line without a display window: the whole text is
//! always visible, so only the string and a cursor are tracked. All
//! positions are counted in characters.

use vstd::prelude::*;

use crate::input::{insert_char_at, min_int, remove_char_at, string_insert_at, string_remove_at};
use vstd::string::StringExecFns;
use vstd::string::StringSliceAdditionalSpecFns;

verus! {

/// A labelled filter line.
#[derive(Debug)]
pub struct FilterInput {
    pub filter: String,
    pub cursor_index: usize,
    pub label: String,
}

impl FilterInput {
    /// The line's standing invariant: the cursor stays inside the
    /// text.
    pub open spec fn wf(&self) -> bool {
        self.cursor_index <= self.filter@.len()
    }

    /// An empty line under the given label.
    pub fn new(label: String) -> (r: Self)
        ensures
            r.wf(),
            r.filter@.len() == 0,
            r.cursor_index == 0,
            r.label@ == label@,
    {
        FilterInput { filter: String::new(), cursor_index: 0, label }
    }

    /// The current filter text.
    pub fn get_filter(&self) -> (r: String)
        ensures
            r@ == self.filter@,
    {
        self.filter.clone()
    }

    /// The current cursor position.
    pub fn get_cursor_index(&self) -> (r: usize)
        ensures
            r == self.cursor_index,
    {
        self.cursor_index
    }

    /// Clamps a candidate cursor position into the text.
    pub fn clamp_cursor(&self, new_cursor_pos: usize) -> (r: usize)
        ensures
            r == min_int(new_cursor_pos as int, self.filter@.len() as int),
            self.filter@.len() <= usize::MAX,
    {
        let count = self.filter.as_str().unicode_len();
        if new_cursor_pos < count {
            new_cursor_pos
        } else {
            count
        }
    }

    /// Moves the cursor one step left, stopping at the start.
    pub fn move_cursor_left(&mut self)
        ensures
            final(self).wf(),
            final(self).filter@ == old(self).filter@,
            final(self).label@ == old(self).label@,
            final(self).cursor_index == min_int(
                if old(self).cursor_index == 0 {
                    0
                } else {
                    old(self).cursor_index - 1
                },
                old(self).filter@.len() as int,
            ),
    {
        let moved = if self.cursor_index == 0 {
            0
        } else {
            self.cursor_index - 1
        };
        self.cursor_index = self.clamp_cursor(moved);
    }

    /// Moves the cursor one step right, stopping at the end.
    pub fn move_cursor_right(&mut self)
        ensures
            final(self).wf(),
            final(self).filter@ == old(self).filter@,
            final(self).label@ == old(self).label@,
            final(self).cursor_index == min_int(
                old(self).cursor_index + 1,
                old(self).filter@.len() as int,
            ),
    {
        let moved = if self.cursor_index < usize::MAX {
            self.cursor_index + 1
        } else {
            self.cursor_index
        };
        let clamped = self.clamp_cursor(moved);
        proof {
            if self.cursor_index == usize::MAX {
                assert(min_int(self.cursor_index as int, self.filter@.len() as int) == min_int(
                    self.cursor_index + 1,
                    self.filter@.len() as int,
                ));
            }
        }
        self.cursor_index = clamped;
    }

    /// The byte offset of the cursor's character position.
    pub fn byte_index(&self) -> (r: usize)
        ensures
            r == vstd::utf8::encode_utf8(
                self.filter@.take(
                    min_int(self.cursor_index as int, self.filter@.len() as int),
                ),
            ).len() as usize,
    {
        let count = self.filter.as_str().unicode_len();
        let pos = if self.cursor_index < count {
            self.cursor_index
        } else {
            count
        };
        let prefix = self.filter.as_str().substring_char(0, pos);
        proof {
            assert(prefix.spec_bytes() == vstd::utf8::encode_utf8(prefix@));
            assert(prefix@ =~= self.filter@.take(
                min_int(self.cursor_index as int, self.filter@.len() as int),
            ));
        }
        prefix.len()
    }

    /// Puts a character in at the cursor and moves the cursor right.
    pub fn enter_char(&mut self, new_char: char)
        requires
            old(self).wf(),
            old(self).filter@.len() < usize::MAX,
        ensures
            final(self).wf(),
            final(self).label@ == old(self).label@,
            final(self).filter@ == insert_char_at(
                old(self).filter@,
                old(self).cursor_index as int,
                new_char,
            ),
            final(self).cursor_index == old(self).cursor_index + 1,
    {
        let p = self.cursor_index;
        self.filter = string_insert_at(self.filter.as_str(), p, new_char);
        proof {
            assert(old(self).filter@.take(p as int).len() == p);
            assert(self.filter@.len() == old(self).filter@.len() + 1);
        }
        self.move_cursor_right();
    }

    /// Takes out the character left of the cursor, if any, and moves
    /// the cursor left.
    pub fn delete_char(&mut self)
        requires
            old(self).wf(),
        ensures
            final(self).wf(),
            final(self).label@ == old(self).label@,
            old(self).cursor_index == 0 ==> *final(self) == *old(self),
            old(self).cursor_index != 0 ==> final(self).filter@ == remove_char_at(
                old(self).filter@,
                old(self).cursor_index - 1,
            ) && final(self).cursor_index == old(self).cursor_index - 1,
    {
        if self.cursor_index == 0 {
            return ;
        }
        let current_index = self.cursor_index;
        self.filter = string_remove_at(self.filter.as_str(), current_index - 1);
        proof {
            assert(old(self).filter@.take(current_index - 1).len() == current_index - 1);
            assert(self.filter@.len() == old(self).filter@.len() - 1);
        }
        self.move_cursor_left();
    }

    /// Takes out the character under the cursor, if any; the cursor
    /// stays.
    pub fn right_delete_char(&mut self)
        requires
            old(self).wf(),
        ensures
            final(self).wf(),
            final(self).label@ == old(self).label@,
            old(self).cursor_index == old(self).filter@.len() ==> *final(self) == *old(self),
            old(self).cursor_index != old(self).filter@.len() ==> final(self).filter@
                == remove_char_at(old(self).filter@, old(self).cursor_index as int)
                && final(self).cursor_index == old(self).cursor_index,
    {
        let count = self.filter.as_str().unicode_len();
        if self.cursor_index >= count {
            return ;
        }
        let cursor_index = self.cursor_index;
        self.filter = string_remove_at(self.filter.as_str(), cursor_index);
        proof {
            assert(old(self).filter@.take(cursor_index as int).len() == cursor_index);
            assert(self.filter@.len() == old(self).filter@.len() - 1);
        }
    }
}

} // verus!
