//! The one owner of the ranking and of the running totals.
//!
//! The aggregator takes the events of the walkers in the order in which they
//! arrive. A candidate is checked against the aggregator's own floor, whatever
//! floor the walker saw, and a directory's totals are added to the running
//! totals.

use crate::candidate::{views, FileStat, FileView, Filesize};
use crate::dates::shown_time;
use crate::counts::{ScanResult, Tally};
use crate::ranking::{
    count_at_least, floor_of, lemma_count_at_least_bound, lemma_floor_never_falls,
    lemma_offer_ranked, offer, ranked, ranking,
};
use crate::threshold::SharedThreshold;
use crate::topk::{Placement, TopKSet};
use std::time::Duration;
use vstd::prelude::*;

verus! {

/// An event from a walker.
#[derive(Debug)]
pub enum StatusUpdate {
    /// What one directory added to the totals.
    Result(ScanResult),
    /// A file that was at least as large as the floor its walker saw.
    File(Filesize),
}

impl StatusUpdate {
    /// The event for a file that a walker forwards.
    pub fn from(stat: FileStat) -> (update: StatusUpdate)
        ensures
            update matches StatusUpdate::File(file) && file@ == (FileView {
                path: stat.path@,
                size: stat.size as nat,
                modified: shown_time(stat.modified),
                created: shown_time(stat.created),
                used: shown_time(stat.accessed),
            }),
    {
        StatusUpdate::File(Filesize::new(stat))
    }
}

/// A snapshot for whoever displays the scan.
#[derive(Debug)]
pub enum StatusMsg<'a> {
    /// The totals while the scan runs.
    Status(&'a ScanResult),
    /// The totals of the finished scan and the time it took.
    Final(ScanResult, Duration),
}

/// What the aggregator did with an event.
#[derive(Debug)]
pub enum Reaction {
    /// Totals were added. `refresh` says that a snapshot is due.
    Merged { refresh: bool },
    /// A candidate did not exceed the floor: nothing changed.
    Discarded,
    /// A candidate was ranked at `rank`, `evicted` left the ranking for it,
    /// and `threshold` is the floor to publish to the walkers.
    Ranked { rank: usize, evicted: Option<Filesize>, threshold: u64 },
}

/// The state of one scan on the consuming side.
pub struct Aggregator {
    top: TopKSet,
    totals: ScanResult,
    threshold: SharedThreshold,
    cadence: usize,
    pending: usize,
    offered: Ghost<Seq<FileView>>,
    merged: Ghost<Seq<Tally>>,
}

impl Aggregator {
    /// The ranking, largest first.
    pub closed spec fn top(&self) -> Seq<FileView> {
        self.top@
    }

    /// The running totals.
    pub closed spec fn totals(&self) -> Tally {
        self.totals@
    }

    /// The floor that was last published.
    pub closed spec fn threshold(&self) -> nat {
        self.threshold@
    }

    /// The most files that are ranked.
    pub closed spec fn limit(&self) -> nat {
        self.top.limit()
    }

    /// The configured minimum size.
    pub closed spec fn min_size(&self) -> nat {
        self.top.min_size()
    }

    /// After how many merged totals a snapshot is due.
    pub closed spec fn cadence(&self) -> nat {
        self.cadence as nat
    }

    /// How many totals were merged since the last snapshot was due.
    pub closed spec fn pending(&self) -> nat {
        self.pending as nat
    }

    /// Every candidate received so far, in order of arrival.
    pub closed spec fn offered(&self) -> Seq<FileView> {
        self.offered@
    }

    /// Every directory's totals received so far, in order of arrival.
    pub closed spec fn merged(&self) -> Seq<Tally> {
        self.merged@
    }

    /// The parts of the state agree with each other.
    pub closed spec fn sound(&self) -> bool {
        self.top.wf()
    }

    /// The state is what its history makes it: the ranking is that of the
    /// candidates received, the totals are the sum of the totals received,
    /// and the published floor is the floor of the ranking.
    pub open spec fn wf(&self) -> bool {
        &&& self.sound()
        &&& self.top() == ranking(self.offered(), self.limit(), self.min_size())
        &&& ranked(self.top(), self.limit(), self.min_size())
        &&& self.totals() == Tally::total_of(self.merged())
        &&& self.threshold() == floor_of(self.top(), self.limit(), self.min_size())
        &&& self.pending() < self.cadence() || self.pending() == 0
    }

    /// The state before any event: an empty ranking of at most `limit` files
    /// larger than `min_size`, no totals, and the floor at `min_size`.
    pub fn new(limit: usize, min_size: u64, cadence: usize) -> (agg: Aggregator)
        ensures
            agg.wf(),
            agg.limit() == limit,
            agg.min_size() == min_size,
            agg.cadence() == cadence,
            agg.pending() == 0,
            agg.offered() == Seq::<FileView>::empty(),
            agg.merged() == Seq::<Tally>::empty(),
            agg.top() == Seq::<FileView>::empty(),
            agg.totals() == Tally::zero(),
            agg.threshold() == min_size,
    {
        Aggregator {
            top: TopKSet::new(limit, min_size),
            totals: ScanResult::default(),
            threshold: SharedThreshold::new(min_size),
            cadence,
            pending: 0,
            offered: Ghost(Seq::empty()),
            merged: Ghost(Seq::empty()),
        }
    }

    /// Whether [`Aggregator::handle`] can take `update`: totals can be added
    /// as long as no count leaves the range of `usize`.
    pub fn can_handle(&self, update: &StatusUpdate) -> (ok: bool)
        ensures
            ok == match update {
                StatusUpdate::Result(part) => self.totals().plus(part@).fits(),
                StatusUpdate::File(_) => true,
            },
    {
        match update {
            StatusUpdate::Result(part) => self.totals.can_add(part),
            StatusUpdate::File(_) => true,
        }
    }

    /// Takes one event.
    pub fn handle(&mut self, update: StatusUpdate) -> (done: Reaction)
        requires
            old(self).wf(),
            update matches StatusUpdate::Result(part) ==> old(self).totals().plus(part@).fits(),
        ensures
            final(self).wf(),
            final(self).limit() == old(self).limit(),
            final(self).min_size() == old(self).min_size(),
            final(self).cadence() == old(self).cadence(),
            final(self).threshold() >= old(self).threshold(),
            old(self).totals().le(final(self).totals()),
            match update {
                StatusUpdate::Result(part) => {
                    &&& final(self).merged() == old(self).merged().push(part@)
                    &&& final(self).offered() == old(self).offered()
                    &&& final(self).top() == old(self).top()
                    &&& final(self).totals() == old(self).totals().plus(part@)
                    &&& done matches Reaction::Merged { refresh }
                    &&& refresh == (old(self).pending() + 1 >= old(self).cadence())
                    &&& final(self).pending() == if refresh {
                        0
                    } else {
                        old(self).pending() + 1
                    }
                },
                StatusUpdate::File(file) => {
                    &&& final(self).offered() == old(self).offered().push(file@)
                    &&& final(self).merged() == old(self).merged()
                    &&& final(self).totals() == old(self).totals()
                    &&& final(self).pending() == old(self).pending()
                    &&& final(self).top() == offer(
                        old(self).top(),
                        file@,
                        old(self).limit(),
                        old(self).min_size(),
                    )
                    &&& match done {
                        Reaction::Merged { .. } => false,
                        Reaction::Discarded => file@.size <= old(self).threshold(),
                        Reaction::Ranked { rank, evicted, threshold } => {
                            &&& file@.size > old(self).threshold()
                            &&& rank == count_at_least(old(self).top(), file@.size)
                            &&& rank <= old(self).top().len()
                            &&& threshold == final(self).threshold()
                            &&& match evicted {
                                Some(gone) => {
                                    &&& old(self).top().len() == old(self).limit()
                                    &&& gone@ == old(self).top().insert(rank as int, file@).last()
                                },
                                None => old(self).top().len() < old(self).limit(),
                            }
                        },
                    }
                },
            },
    {
        match update {
            StatusUpdate::Result(part) => {
                self.totals.add_assign(part);
                proof {
                    let parts = self.merged@.push(part@);
                    assert(parts.drop_last() =~= self.merged@);
                    self.merged@ = parts;
                }
                let refresh = self.pending >= self.cadence || self.pending + 1 >= self.cadence;
                if refresh {
                    self.pending = 0;
                } else {
                    self.pending = self.pending + 1;
                }
                Reaction::Merged { refresh }
            },
            StatusUpdate::File(file) => {
                let ghost before = self.top@;
                let ghost seen = file@;
                proof {
                    let files = self.offered@.push(seen);
                    assert(files.drop_last() =~= self.offered@);
                    lemma_offer_ranked(before, seen, self.limit(), self.min_size());
                    lemma_floor_never_falls(before, seen, self.limit(), self.min_size());
                    lemma_count_at_least_bound(before, seen.size);
                    self.offered@ = files;
                }
                match self.top.insert(file) {
                    Placement::Discarded => Reaction::Discarded,
                    Placement::Ranked { rank, evicted } => {
                        let threshold = self.top.floor();
                        self.threshold.raise(threshold);
                        Reaction::Ranked { rank, evicted, threshold }
                    },
                }
            },
        }
    }

    /// The floor to publish to the walkers: the smallest ranked size once the
    /// ranking is full, the configured minimum before that.
    pub fn floor(&self) -> (floor: u64)
        requires
            self.wf(),
        ensures
            floor == self.threshold(),
            floor == floor_of(self.top(), self.limit(), self.min_size()),
    {
        self.threshold.get()
    }

    /// The ranked files, largest first.
    pub fn entries(&self) -> (files: &Vec<Filesize>)
        requires
            self.wf(),
        ensures
            views(files@) == self.top(),
            views(files@) == ranking(self.offered(), self.limit(), self.min_size()),
    {
        self.top.entries()
    }

    /// The snapshot of a scan that still runs.
    pub fn status(&self) -> (msg: StatusMsg<'_>)
        requires
            self.wf(),
        ensures
            msg matches StatusMsg::Status(totals) && totals@ == self.totals() && totals@
                == Tally::total_of(self.merged()),
    {
        StatusMsg::Status(&self.totals)
    }

    /// Ends the scan after `elapsed`: hands out the ranking and the last
    /// snapshot.
    pub fn finish(self, elapsed: Duration) -> (end: (Vec<Filesize>, StatusMsg<'static>))
        requires
            self.wf(),
        ensures
            views(end.0@) == ranking(self.offered(), self.limit(), self.min_size()),
            end.1 matches StatusMsg::Final(totals, time) && time == elapsed && totals@
                == Tally::total_of(self.merged()),
    {
        let totals = self.totals;
        let files = self.top.into_entries();
        (files, StatusMsg::Final(totals, elapsed))
    }
}

} // verus!
