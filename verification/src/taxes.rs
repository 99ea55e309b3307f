//! Remapping of tax payments from one date to another.

use vstd::prelude::*;
use crate::types::Date;

verus! {

/// One remapping: the tax with this description paid on `date` counts as
/// paid on `to_date`.
pub struct TaxRemappingEntry {
    pub date: Date,
    pub description: String,
    pub to_date: Date,
    pub applied: bool,
}

/// A set of remappings in which no date and description occur twice.
pub struct TaxRemapping {
    pub entries: Vec<TaxRemappingEntry>,
}

/// The remapping exists already.
#[derive(Clone, Copy, Debug, PartialEq, Eq, Structural)]
pub struct DuplicatedMatch;

/// An entry with this date and description is among the entries.
pub open spec fn remapped(entries: Seq<TaxRemappingEntry>, date: Date, description: Seq<char>) -> bool {
    exists|i: int|
        0 <= i < entries.len() && (#[trigger] entries[i]).date == date && entries[i].description@
            == description
}

impl TaxRemapping {
    /// No date and description occur twice.
    pub open spec fn wf(self) -> bool {
        forall|i: int, j: int|
            0 <= i < j < self.entries@.len() ==> !((#[trigger] self.entries@[i]).date == (
            #[trigger] self.entries@[j]).date && self.entries@[i].description@
                == self.entries@[j].description@)
    }

    pub fn new() -> (remapping: TaxRemapping)
        ensures
            remapping.wf(),
            remapping.entries@.len() == 0,
    {
        TaxRemapping { entries: Vec::new() }
    }

    /// Whether a remapping for the date and description exists.
    pub fn contains(&self, date: Date, description: &str) -> (found: bool)
        ensures
            found == remapped(self.entries@, date, description@),
    {
        let n: usize = self.entries.len();
        let mut i: usize = 0;
        while i < n
            invariant
                i <= n,
                n == self.entries@.len(),
                forall|j: int|
                    0 <= j < i ==> !((#[trigger] self.entries@[j]).date == date
                        && self.entries@[j].description@ == description@),
            decreases n - i,
        {
            if self.entries[i].date.days == date.days && crate::text::same_text(
                self.entries[i].description.as_str(),
                description,
            ) {
                return true;
            }
            i += 1;
        }
        false
    }

    /// Adds a remapping that is not yet applied, unless one for the date
    /// and description exists; then nothing changes.
    pub fn add(&mut self, date: Date, description: &str, to_date: Date) -> (result: Result<
        (),
        DuplicatedMatch,
    >)
        requires
            old(self).wf(),
        ensures
            final(self).wf(),
            result is Ok <==> !remapped(old(self).entries@, date, description@),
            result is Err ==> final(self).entries@ == old(self).entries@,
            result is Ok ==> {
                &&& final(self).entries@.len() == old(self).entries@.len() + 1
                &&& final(self).entries@.drop_last() == old(self).entries@
                &&& final(self).entries@.last().date == date
                &&& final(self).entries@.last().description@ == description@
                &&& final(self).entries@.last().to_date == to_date
                &&& !final(self).entries@.last().applied
            },
    {
        if self.contains(date, description) {
            return Err(DuplicatedMatch);
        }
        let ghost before = self.entries@;
        self.entries.push(
            TaxRemappingEntry { date, description: description.to_owned(), to_date, applied: false },
        );
        proof {
            let after = self.entries@;
            assert(after.drop_last() =~= before);
            assert forall|i: int, j: int| 0 <= i < j < after.len() implies !((
            #[trigger] after[i]).date == (#[trigger] after[j]).date && after[i].description@
                == after[j].description@) by {
                if j == before.len() {
                    assert(after[i] == before[i]);
                } else {
                    assert(after[i] == before[i]);
                    assert(after[j] == before[j]);
                }
            }
        }
        Ok(())
    }
}

} // verus!
