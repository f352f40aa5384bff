//! Display-row layout bookkeeping for the transcript.
use vstd::prelude::*;

verus! {

#[derive(Debug, Clone, Copy, Default, PartialEq, Eq, Structural)]
pub struct MessageLineRange {
    pub start: usize,
    pub end: usize,
    pub owns_gap: bool,
}

impl MessageLineRange {
    pub fn len(self) -> (r: usize)
        ensures
            r == if self.end > self.start {
                self.end - self.start
            } else {
                0
            },
    {
        self.end.saturating_sub(self.start)
    }

    pub fn is_empty(self) -> (r: bool)
        ensures
            r == (self.start >= self.end),
    {
        self.start >= self.end
    }
}

/// Wrapped-row layout of the base lines at one width.
pub struct DisplayLayoutCache {
    pub width: usize,
    pub generation: u64,
    pub row_counts: Vec<usize>,
    /// `prefix[i]` is the first display row of base line `i`; the final item
    /// is the total display-row count.
    pub prefix: Vec<usize>,
}

/// Index of the first entry above `row`: for a sorted prefix, the number of
/// base lines starting at or before it.
pub open spec fn first_above(prefix: Seq<usize>, row: nat) -> nat
    decreases prefix.len(),
{
    if prefix.len() == 0 || prefix[0] > row {
        0
    } else {
        1 + first_above(prefix.drop_first(), row)
    }
}

pub open spec fn total_rows_of(prefix: Seq<usize>) -> nat {
    if prefix.len() == 0 {
        0
    } else {
        prefix.last() as nat
    }
}

/// `(base line, row offset inside it)` of a display row, clamped to the
/// last row.
pub open spec fn locate_of(row_counts: Seq<usize>, prefix: Seq<usize>, display_row: nat) -> (nat, nat) {
    if row_counts.len() == 0 {
        (0, 0)
    } else {
        let last = if total_rows_of(prefix) > 0 {
            (total_rows_of(prefix) - 1) as nat
        } else {
            0
        };
        let row = if display_row < last {
            display_row
        } else {
            last
        };
        let base = first_above(prefix, row);
        let below = if base > 0 {
            (base - 1) as nat
        } else {
            0
        };
        let index = if below < row_counts.len() - 1 {
            below
        } else {
            (row_counts.len() - 1) as nat
        };
        (index, if row > prefix[index as int] {
            (row - prefix[index as int]) as nat
        } else {
            0
        })
    }
}

impl DisplayLayoutCache {
    pub fn new() -> (r: DisplayLayoutCache)
        ensures
            r.width == 0,
            r.generation == 0,
            r.row_counts@.len() == 0,
            r.prefix@.len() == 0,
    {
        DisplayLayoutCache { width: 0, generation: 0, row_counts: Vec::new(), prefix: Vec::new() }
    }

    pub fn total_rows(&self) -> (r: usize)
        ensures
            r == total_rows_of(self.prefix@),
    {
        if self.prefix.len() == 0 {
            0
        } else {
            self.prefix[self.prefix.len() - 1]
        }
    }

    /// Return `(base line index, wrapped-row offset inside that line)`.
    pub fn locate(&self, display_row: usize) -> (r: (usize, usize))
        requires
            self.row_counts@.len() > 0 ==> self.prefix@.len() >= self.row_counts@.len(),
        ensures
            (r.0 as nat, r.1 as nat) == locate_of(self.row_counts@, self.prefix@, display_row as nat),
    {
        if self.row_counts.len() == 0 {
            return (0, 0);
        }
        let total = self.total_rows();
        let last = total.saturating_sub(1);
        let row = if display_row < last {
            display_row
        } else {
            last
        };
        let mut base: usize = 0;
        proof {
            assert(self.prefix@.skip(0) =~= self.prefix@);
        }
        while base < self.prefix.len() && self.prefix[base] <= row
            invariant
                base <= self.prefix@.len(),
                first_above(self.prefix@, row as nat) == base + first_above(self.prefix@.skip(base as int), row as nat),
            decreases self.prefix.len() - base,
        {
            proof {
                assert(self.prefix@.skip(base as int).drop_first() =~= self.prefix@.skip(base + 1));
            }
            base = base + 1;
        }
        proof {
            if base < self.prefix@.len() {
                assert(self.prefix@.skip(base as int)[0] == self.prefix@[base as int]);
            }
        }
        let below = base.saturating_sub(1);
        let index = if below < self.row_counts.len() - 1 {
            below
        } else {
            self.row_counts.len() - 1
        };
        (index, row.saturating_sub(self.prefix[index]))
    }
}

impl Default for DisplayLayoutCache {
    fn default() -> (r: DisplayLayoutCache)
        ensures
            r.width == 0,
            r.generation == 0,
            r.row_counts@.len() == 0,
            r.prefix@.len() == 0,
    {
        DisplayLayoutCache::new()
    }
}

#[derive(Debug, Clone, Copy, Default, PartialEq, Eq, Structural)]
pub struct CacheWorkStats {
    pub rebuilds: u64,
    pub patches: u64,
    pub materialized_rows: u64,
}

} // verus!
