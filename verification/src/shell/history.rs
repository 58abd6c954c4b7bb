//! The bounded list of previously entered command lines, recalled with the
//! Up and Down keys and listed by the `history` command.
use vstd::prelude::*;
use std::collections::VecDeque;
use std::borrow::ToOwned;
use crate::text::{str_equal, trim, trim_str};
use vstd::string::StrSliceExecFns;

verus! {

/// Maximum number of command lines kept in the history. The shell runs for the
/// whole uptime, so an unbounded history would slowly consume the heap.
pub const HISTORY_CAPACITY: usize = 32;

/// A bounded list of the entered command lines, stored from oldest to newest.
/// When the capacity is reached, the oldest entry is dropped.
pub struct History {
    entries: VecDeque<String>,
}

/// The text of a stored line.
pub open spec fn line_text(s: String) -> Seq<char> {
    s@
}

/// The history after `line` was entered: lines that are empty after trimming, or
/// equal to the newest entry, are not stored; a full history drops its oldest entry.
pub open spec fn pushed(h: Seq<Seq<char>>, line: Seq<char>) -> Seq<Seq<char>> {
    let t = trim(line);
    if t.len() == 0 || (h.len() > 0 && h.last() == t) {
        h
    } else if h.len() == HISTORY_CAPACITY {
        h.drop_first().push(t)
    } else {
        h.push(t)
    }
}

impl History {
    /// The stored lines, oldest first.
    pub closed spec fn view(&self) -> Seq<Seq<char>> {
        self.entries@.map_values(|s: String| line_text(s))
    }

    /// At most `HISTORY_CAPACITY` entries, none empty, and no entry equal to the one before it.
    #[verifier::type_invariant]
    closed spec fn inv(&self) -> bool {
        well_formed(self@)
    }

    /// Create an empty history.
    pub fn new() -> (r: History)
        ensures
            r@ == Seq::<Seq<char>>::empty(),
    {
        let r = History { entries: VecDeque::new() };
        assert(r@ =~= Seq::<Seq<char>>::empty());
        r
    }

    /// Add a command line to the history.
    ///
    /// The line is trimmed first. Empty lines are not stored, a line identical to
    /// the newest entry does not create a second entry, and a full history drops
    /// its oldest entry.
    pub fn push(&mut self, line: &str)
        ensures
            final(self)@ == pushed(old(self)@, line@),
            well_formed(final(self)@),
    {
        proof {
            use_type_invariant(&*self);
        }
        let line = trim_str(line);
        if line.unicode_len() == 0 {
            return;
        }
        let len = self.entries.len();
        if len > 0 && str_equal(self.entries[len - 1].as_str(), line) {
            return;
        }
        let ghost before = self@;
        let mut entries: VecDeque<String> = VecDeque::new();
        std::mem::swap(&mut entries, &mut self.entries);
        if entries.len() == HISTORY_CAPACITY {
            let _ = entries.pop_front();
        }
        let ghost mid = entries@;
        entries.push_back(line.to_owned());
        proof {
            let v = entries@.map_values(|s: String| line_text(s));
            if len == HISTORY_CAPACITY {
                assert(v =~= before.drop_first().push(line@));
            } else {
                assert(v =~= before.push(line@));
            }
            assert forall|i: int| 0 <= i < v.len() - 1 implies #[trigger] v[i] != v[i + 1] by {
                if i + 1 < v.len() - 1 {
                    if len == HISTORY_CAPACITY {
                        assert(v[i] == before[i + 1]);
                        assert(v[i + 1] == before[i + 2]);
                    } else {
                        assert(v[i] == before[i]);
                    }
                }
            }
        }
        self.entries = entries;
    }

    /// The number of stored entries; never more than `HISTORY_CAPACITY`.
    pub fn len(&self) -> (r: usize)
        ensures
            r == self@.len(),
            r <= HISTORY_CAPACITY,
    {
        proof {
            use_type_invariant(self);
        }
        self.entries.len()
    }

    /// The entry counted from the newest one, which has the index 0; `None` if
    /// the index is out of range. This is the order the Up key walks through.
    pub fn get(&self, index_from_newest: usize) -> (r: Option<&str>)
        ensures
            index_from_newest < self@.len() ==> (r matches Some(s) && s@ == self@[self@.len() - 1
                - index_from_newest]),
            index_from_newest >= self@.len() ==> r is None,
    {
        let length = self.entries.len();
        if index_from_newest >= length {
            return None;
        }
        let index = length - 1 - index_from_newest;
        Some(self.entries[index].as_str())
    }

    /// The entries from the oldest to the newest one.
    pub fn iter(&self) -> (r: Vec<&str>)
        ensures
            r@.len() == self@.len(),
            forall|i: int| 0 <= i < r@.len() ==> #[trigger] r@[i]@ == self@[i],
    {
        let mut r: Vec<&str> = Vec::new();
        let mut i: usize = 0;
        while i < self.entries.len()
            invariant
                i <= self.entries@.len(),
                r@.len() == i,
                forall|j: int| 0 <= j < i ==> #[trigger] r@[j]@ == self@[j],
            decreases self.entries@.len() - i,
        {
            r.push(self.entries[i].as_str());
            i = i + 1;
        }
        r
    }

    /// The most recently stored entry.
    fn newest(&self) -> (r: Option<&str>)
        ensures
            self@.len() > 0 ==> (r matches Some(s) && s@ == self@.last()),
            self@.len() == 0 ==> r is None,
    {
        self.get(0)
    }
}

/// The properties every history keeps: bounded, no empty entry, and no entry
/// equal to the one stored just before it.
pub open spec fn well_formed(h: Seq<Seq<char>>) -> bool {
    &&& h.len() <= HISTORY_CAPACITY
    &&& forall|i: int| 0 <= i < h.len() ==> (#[trigger] h[i]).len() > 0
    &&& forall|i: int| 0 <= i < h.len() - 1 ==> #[trigger] h[i] != h[i + 1]
}

/// Entering a line that is not blank makes its trimmed text the newest
/// entry, and the history never grows beyond its capacity.
pub proof fn lemma_push_records_line(h: Seq<Seq<char>>, line: Seq<char>)
    requires
        h.len() <= HISTORY_CAPACITY,
        trim(line).len() > 0,
    ensures
        pushed(h, line).last() == trim(line),
        pushed(h, line).len() <= HISTORY_CAPACITY,
        pushed(h, line).len() >= 1,
{
}

/// Entering a blank line leaves the history unchanged.
pub proof fn lemma_push_blank_line(h: Seq<Seq<char>>, line: Seq<char>)
    requires
        trim(line).len() == 0,
    ensures
        pushed(h, line) == h,
{
}

/// Entering the newest entry again does not store a second copy.
pub proof fn lemma_push_repeated_line(h: Seq<Seq<char>>, line: Seq<char>)
    requires
        h.len() > 0,
        h.last() == trim(line),
    ensures
        pushed(h, line) == h,
{
}

} // verus!
