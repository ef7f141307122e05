//! The bounded ranking of the largest files seen so far.

use crate::candidate::{sizes, views, FileView, Filesize};
use crate::ranking::{
    count_at_least, descending, floor_of, keep, lemma_place_counts, offer, ranked,
};
use crate::sizes::{falling, held, insert_size, no_sizes, place_behind, pop_size};
use sorted_vec::SortedVec;
use std::cmp::Reverse;
use vstd::prelude::*;

verus! {

/// In sizes that stand largest first, a new size put at any place that keeps
/// them so gives the same sequence as putting it behind its equals.
proof fn lemma_same_insert(s: Seq<u64>, size: u64, at: int, behind: int)
    requires
        0 <= at <= s.len(),
        0 <= behind <= s.len(),
        falling(s.insert(at, size)),
        forall|i: int| 0 <= i < behind ==> s[i] >= size,
        forall|i: int| behind <= i < s.len() ==> s[i] < size,
    ensures
        s.insert(at, size) == s.insert(behind, size),
{
    let a = s.insert(at, size);
    let b = s.insert(behind, size);
    assert(a[at] == size);
    assert forall|i: int| 0 <= i < at implies s[i] >= size by {
        assert(a[i] == s[i]);
    }
    assert forall|i: int| at <= i < s.len() implies s[i] <= size by {
        assert(a[i + 1] == s[i]);
    }
    if behind < at {
        assert(s[behind] >= size);
    }
    assert(at <= behind);
    assert forall|i: int| at <= i < behind implies s[i] == size by {}
    assert forall|k: int| 0 <= k < a.len() implies a[k] == b[k] by {
        if k < at {
        } else if k == at {
            if at < behind {
                assert(b[k] == s[k]);
            }
        } else if k <= behind {
            assert(a[k] == s[k - 1]);
            if k < behind {
                assert(b[k] == s[k]);
            }
        } else {
        }
    }
    assert(a =~= b);
}

/// What became of a file that was offered to the ranking.
#[derive(Debug)]
pub enum Placement {
    /// The file did not exceed the floor and was dropped.
    Discarded,
    /// The file was placed at `rank`, counted from 0. `evicted` is the file
    /// that had to leave for it, if one had to.
    Ranked { rank: usize, evicted: Option<Filesize> },
}

/// At most `limit` files, largest first; files of one size in the order in
/// which they came.
pub struct TopKSet {
    order: SortedVec<Reverse<u64>>,
    entries: Vec<Filesize>,
    limit: usize,
    min_size: u64,
}

impl View for TopKSet {
    type V = Seq<FileView>;

    closed spec fn view(&self) -> Seq<FileView> {
        views(self.entries@)
    }
}

impl TopKSet {
    /// The most files that the ranking holds.
    pub closed spec fn limit(&self) -> nat {
        self.limit as nat
    }

    /// The size that every ranked file exceeds.
    pub closed spec fn min_size(&self) -> nat {
        self.min_size as nat
    }

    /// The ranking is in order and within its limit, and the sizes kept for
    /// searching are those of the ranked files.
    pub closed spec fn wf(&self) -> bool {
        &&& held(self.order) == sizes(self.entries@)
        &&& ranked(self@, self.limit(), self.min_size())
    }

    /// An empty ranking of at most `limit` files larger than `min_size`.
    pub fn new(limit: usize, min_size: u64) -> (top: TopKSet)
        ensures
            top.wf(),
            ranked(top@, limit as nat, min_size as nat),
            top@ == Seq::<FileView>::empty(),
            top.limit() == limit,
            top.min_size() == min_size,
    {
        let top = TopKSet { order: no_sizes(), entries: Vec::new(), limit, min_size };
        assert(sizes(top.entries@) =~= Seq::<u64>::empty());
        assert(top@ =~= Seq::<FileView>::empty());
        top
    }

    /// The number of ranked files.
    pub fn len(&self) -> (n: usize)
        requires
            self.wf(),
        ensures
            n == self@.len(),
            n <= self.limit(),
    {
        self.entries.len()
    }

    /// The size that a file must exceed to be ranked.
    pub fn floor(&self) -> (floor: u64)
        requires
            self.wf(),
        ensures
            floor == floor_of(self@, self.limit(), self.min_size()),
    {
        let n = self.entries.len();
        if n > 0 && n >= self.limit {
            self.entries[n - 1].size
        } else {
            self.min_size
        }
    }

    /// Offers `file` to the ranking.
    pub fn insert(&mut self, file: Filesize) -> (placed: Placement)
        requires
            old(self).wf(),
        ensures
            final(self).wf(),
            ranked(final(self)@, old(self).limit(), old(self).min_size()),
            final(self).limit() == old(self).limit(),
            final(self).min_size() == old(self).min_size(),
            final(self)@ == offer(old(self)@, file@, old(self).limit(), old(self).min_size()),
            match placed {
                Placement::Discarded => file@.size <= floor_of(
                    old(self)@,
                    old(self).limit(),
                    old(self).min_size(),
                ),
                Placement::Ranked { rank, evicted } => {
                    &&& file@.size > floor_of(old(self)@, old(self).limit(), old(self).min_size())
                    &&& rank == count_at_least(old(self)@, file@.size)
                    &&& match evicted {
                        Some(gone) => old(self)@.len() == old(self).limit() && gone@ == old(
                            self,
                        )@.insert(rank as int, file@).last(),
                        None => old(self)@.len() < old(self).limit(),
                    }
                },
            },
    {
        let floor = self.floor();
        if file.size <= floor {
            return Placement::Discarded;
        }
        let ghost before = self@;
        let ghost before_sizes = held(self.order);
        let ghost seen = file@;
        let size = file.size;
        proof {
            assert forall|i: int, j: int| 0 <= i <= j < before_sizes.len() implies before_sizes[i]
                >= before_sizes[j] by {
                assert(before[i].size >= before[j].size);
            }
        }
        let rank = place_behind(&self.order, size);
        let at = insert_size(&mut self.order, size);
        proof {
            lemma_same_insert(before_sizes, size, at as int, rank as int);
            assert forall|i: int| 0 <= i < rank implies before[i].size >= seen.size by {
                assert(before_sizes[i] >= size);
            }
            assert forall|i: int| rank <= i < before.len() implies before[i].size < seen.size by {
                assert(before_sizes[i] < size);
            }
            lemma_place_counts(before, seen.size, rank as int);
        }
        self.entries.insert(rank, file);
        proof {
            assert(sizes(self.entries@) =~= before_sizes.insert(rank as int, size));
            assert(self@ =~= before.insert(rank as int, seen));
            assert(descending(self@));
        }
        if self.entries.len() > self.limit {
            let _ = pop_size(&mut self.order);
            let evicted = self.entries.pop();
            proof {
                let grown = before.insert(rank as int, seen);
                assert(sizes(self.entries@) =~= held(self.order));
                assert(self@ =~= grown.drop_last());
                assert(grown.drop_last() =~= keep(grown, self.limit()));
            }
            Placement::Ranked { rank, evicted }
        } else {
            Placement::Ranked { rank, evicted: None }
        }
    }

    /// The ranked files, largest first.
    pub fn entries(&self) -> (files: &Vec<Filesize>)
        requires
            self.wf(),
        ensures
            views(files@) == self@,
            ranked(self@, self.limit(), self.min_size()),
    {
        &self.entries
    }

    /// Gives up the ranking for its files, largest first.
    pub fn into_entries(self) -> (files: Vec<Filesize>)
        requires
            self.wf(),
        ensures
            views(files@) == self@,
            ranked(self@, self.limit(), self.min_size()),
    {
        self.entries
    }
}

} // verus!
