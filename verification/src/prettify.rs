//! Fixed-width cells for the tool's progress lines. Printing them, and any
//! coloring, is the caller's concern; the padding is decided here.

use vstd::prelude::*;
use vstd::string::StrSliceExecFns;
use vstd::string::StringExecFns;
use crate::text::push_char;

verus! {

/// The width of the leading verb column.
pub const PRETTY_ALIGN: usize = 12;

/// A run of `n` spaces.
pub open spec fn spaces_of(n: nat) -> Seq<char> {
    Seq::new(n, |i: int| ' ')
}

/// The verb cell: its text pushed to the column's right edge, then one
/// separating space.
#[derive(Clone, Copy, Debug, PartialEq, Eq, Hash, PartialOrd, Ord)]
pub struct LeftAligned<'s>(pub &'s str);

impl<'s> LeftAligned<'s> {
    /// Renders the cell. The text must fit the column.
    pub fn render(&self) -> (result: String)
        requires
            self.0@.len() <= PRETTY_ALIGN,
        ensures
            result@ == spaces_of((PRETTY_ALIGN - self.0@.len()) as nat) + self.0@ + " "@,
    {
        let text_len = self.0.unicode_len();
        let pad = PRETTY_ALIGN - text_len;
        let mut result = String::new();
        let mut i: usize = 0;
        while i < pad
            invariant
                i <= pad,
                result@ == spaces_of(i as nat),
            decreases pad - i,
        {
            push_char(&mut result, ' ');
            i = i + 1;
            proof {
                assert(result@ =~= spaces_of(i as nat));
            }
        }
        result.append(self.0);
        result.append(" ");
        proof {
            assert(result@ =~= spaces_of((PRETTY_ALIGN - self.0@.len()) as nat) + self.0@ + " "@);
        }
        result
    }
}

/// The message cell: its text, then one separating space.
#[derive(Clone, Copy, Debug, PartialEq, Eq, Hash, PartialOrd, Ord)]
pub struct RightAligned<'s>(pub &'s str);

impl<'s> RightAligned<'s> {
    /// Renders the cell.
    pub fn render(&self) -> (result: String)
        ensures
            result@ == self.0@ + " "@,
    {
        let mut result = String::from_str(self.0);
        result.append(" ");
        result
    }
}

} // verus!
