//! Which line of a list is selected, and from which line on the list is
//! shown.

use vstd::prelude::*;

verus! {

/// The state of a list on the screen.
#[derive(Clone, Copy, Debug, Default, PartialEq, Eq, Structural)]
pub struct ListState {
    /// The first line that is shown.
    pub offset: usize,
    /// The line that is selected, if any.
    pub selected: Option<usize>,
}

impl ListState {
    /// The line that is selected, if any.
    pub fn selected(&self) -> (r: Option<usize>)
        ensures
            r == self.selected,
    {
        self.selected
    }

    /// Selects the line `index`, or no line. With no line selected the
    /// list is shown from its top.
    pub fn select(&mut self, index: Option<usize>)
        ensures
            final(self).selected == index,
            final(self).offset == (if index is None {
                0
            } else {
                old(self).offset
            }),
    {
        self.selected = index;
        if index.is_none() {
            self.offset = 0;
        }
    }
}

/// The line to select after `selected` in a list of `shown` lines: the
/// next line, and the first line after the last one or where no line is
/// selected.
pub open spec fn line_after(selected: Option<usize>, shown: nat) -> usize {
    match selected {
        Some(i) => if i + 1 >= shown {
            0
        } else {
            (i + 1) as usize
        },
        None => 0,
    }
}

/// The line to select before `selected` in a list of `shown` lines: the
/// line before, the last line before the first one, and the first line
/// where no line is selected or the list is empty.
pub open spec fn line_before(selected: Option<usize>, shown: nat) -> usize {
    match selected {
        Some(i) => if i == 0 {
            if shown == 0 {
                0
            } else {
                (shown - 1) as usize
            }
        } else {
            (i - 1) as usize
        },
        None => 0,
    }
}

/// The line to select after `selected` in a list of `shown` lines.
pub fn next_line(selected: Option<usize>, shown: usize) -> (r: usize)
    ensures
        r == line_after(selected, shown as nat),
        shown > 0 ==> r < shown,
{
    match selected {
        Some(i) => if shown == 0 || i >= shown - 1 {
            0
        } else {
            i + 1
        },
        None => 0,
    }
}

/// The line to select before `selected` in a list of `shown` lines.
pub fn previous_line(selected: Option<usize>, shown: usize) -> (r: usize)
    ensures
        r == line_before(selected, shown as nat),
        shown > 0 && (selected matches Some(i) ==> i <= shown) ==> r < shown,
{
    match selected {
        Some(i) => if i == 0 {
            if shown == 0 {
                0
            } else {
                shown - 1
            }
        } else {
            i - 1
        },
        None => 0,
    }
}

/// Going down and up again comes back to the line, for a line of the
/// list.
pub proof fn lemma_after_then_before(i: usize, shown: nat)
    requires
        i < shown,
        shown <= usize::MAX,
    ensures
        line_before(Some(line_after(Some(i), shown)), shown) == i,
        line_after(Some(line_before(Some(i), shown)), shown) == i,
{
}

} // verus!
