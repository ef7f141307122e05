//! The rule by which the largest files are ranked, as mathematics.
//!
//! A ranking is a sequence of files, largest first, of at most `limit`
//! entries. Files of one size stand in the order in which they were offered.

use crate::candidate::FileView;
use vstd::prelude::*;

verus! {

/// How many files of `files` are at least `size` bytes large.
pub open spec fn count_at_least(files: Seq<FileView>, size: nat) -> nat
    decreases files.len(),
{
    if files.len() == 0 {
        0
    } else {
        count_at_least(files.drop_last(), size) + if files.last().size >= size {
            1nat
        } else {
            0nat
        }
    }
}

/// How many files of `files` are larger than `size` bytes.
pub open spec fn count_above(files: Seq<FileView>, size: nat) -> nat
    decreases files.len(),
{
    if files.len() == 0 {
        0
    } else {
        count_above(files.drop_last(), size) + if files.last().size > size {
            1nat
        } else {
            0nat
        }
    }
}

/// Largest first: no file is smaller than one that stands after it.
pub open spec fn descending(top: Seq<FileView>) -> bool {
    forall|i: int, j: int| 0 <= i <= j < top.len() ==> top[i].size >= top[j].size
}

/// What a ranking always is: largest first, at most `limit` long, and made of
/// files larger than `min_size` only.
pub open spec fn ranked(top: Seq<FileView>, limit: nat, min_size: nat) -> bool {
    &&& descending(top)
    &&& top.len() <= limit
    &&& forall|i: int| 0 <= i < top.len() ==> top[i].size > min_size
}

/// The size that a file must exceed to enter the ranking: the smallest ranked
/// size once the ranking is full, `min_size` before that.
pub open spec fn floor_of(top: Seq<FileView>, limit: nat, min_size: nat) -> nat {
    if top.len() > 0 && top.len() >= limit {
        top.last().size
    } else {
        min_size
    }
}

/// The first `limit` entries of `top`, or all of it where it is shorter.
pub open spec fn keep(top: Seq<FileView>, limit: nat) -> Seq<FileView> {
    if top.len() > limit {
        top.take(limit as int)
    } else {
        top
    }
}

/// The ranking after `file` was offered to `top`. A file that does not exceed
/// the floor changes nothing. Any other file takes its place behind every
/// ranked file of at least its size, and what then stands beyond `limit`
/// leaves.
pub open spec fn offer(top: Seq<FileView>, file: FileView, limit: nat, min_size: nat) -> Seq<
    FileView,
> {
    if file.size <= floor_of(top, limit, min_size) {
        top
    } else {
        keep(top.insert(count_at_least(top, file.size) as int, file), limit)
    }
}

/// The ranking after every file of `offered` was offered, first to last.
pub open spec fn ranking(offered: Seq<FileView>, limit: nat, min_size: nat) -> Seq<FileView>
    decreases offered.len(),
{
    if offered.len() == 0 {
        Seq::empty()
    } else {
        offer(ranking(offered.drop_last(), limit, min_size), offered.last(), limit, min_size)
    }
}

/// Where the rule of placement holds for `at`, it is the number of files of
/// at least `size` bytes.
pub proof fn lemma_place_counts(top: Seq<FileView>, size: nat, at: int)
    requires
        0 <= at <= top.len(),
        forall|i: int| 0 <= i < at ==> top[i].size >= size,
        forall|i: int| at <= i < top.len() ==> top[i].size < size,
    ensures
        count_at_least(top, size) == at,
    decreases top.len(),
{
    if top.len() > 0 {
        let rest = top.drop_last();
        if at == top.len() {
            lemma_place_counts(rest, size, at - 1);
        } else {
            lemma_place_counts(rest, size, at);
        }
    }
}

/// Counting files of at least `size` bytes never gives more than there are.
pub proof fn lemma_count_at_least_bound(files: Seq<FileView>, size: nat)
    ensures
        count_at_least(files, size) <= files.len(),
    decreases files.len(),
{
    if files.len() > 0 {
        lemma_count_at_least_bound(files.drop_last(), size);
    }
}

/// In a ranking, the files of at least `size` bytes are the first ones, and
/// as many as [`count_at_least`] says.
pub proof fn lemma_count_is_place(top: Seq<FileView>, size: nat)
    requires
        descending(top),
    ensures
        0 <= count_at_least(top, size) <= top.len(),
        forall|i: int| 0 <= i < count_at_least(top, size) ==> top[i].size >= size,
        forall|i: int| count_at_least(top, size) <= i < top.len() ==> top[i].size < size,
    decreases top.len(),
{
    if top.len() > 0 {
        let rest = top.drop_last();
        assert forall|i: int, j: int| 0 <= i <= j < rest.len() implies rest[i].size
            >= rest[j].size by {
            assert(top[i].size >= top[j].size);
        }
        lemma_count_is_place(rest, size);
        let place = count_at_least(rest, size) as int;
        if top.last().size >= size {
            if place < rest.len() {
                assert(rest[place].size < size);
                assert(top[place].size >= top[top.len() - 1].size);
            }
            assert(count_at_least(top, size) == top.len());
            assert forall|i: int| 0 <= i < top.len() implies top[i].size >= size by {
                assert(top[i].size >= top[top.len() - 1].size);
            }
        } else {
            assert(count_at_least(top, size) == place);
            assert forall|i: int| 0 <= i < place implies top[i].size >= size by {
                assert(rest[i].size >= size);
            }
            assert forall|i: int| place <= i < top.len() implies top[i].size < size by {
                if i < rest.len() {
                    assert(rest[i].size < size);
                }
            }
        }
    }
}

/// Offering a file to a ranking gives a ranking.
pub proof fn lemma_offer_ranked(top: Seq<FileView>, file: FileView, limit: nat, min_size: nat)
    requires
        ranked(top, limit, min_size),
    ensures
        ranked(offer(top, file, limit, min_size), limit, min_size),
{
    if file.size > floor_of(top, limit, min_size) {
        lemma_count_is_place(top, file.size);
        let place = count_at_least(top, file.size) as int;
        let grown = top.insert(place, file);
        assert forall|i: int, j: int| 0 <= i <= j < grown.len() implies grown[i].size
            >= grown[j].size by {
            if i < place {
                assert(grown[i] == top[i]);
            } else if i > place {
                assert(grown[i] == top[i - 1]);
            }
            if j < place {
                assert(grown[j] == top[j]);
            } else if j > place {
                assert(grown[j] == top[j - 1]);
            }
        }
        assert forall|i: int| 0 <= i < grown.len() implies grown[i].size > min_size by {
            if i < place {
                assert(grown[i] == top[i]);
            } else if i > place {
                assert(grown[i] == top[i - 1]);
            }
        }
        let kept = keep(grown, limit);
        assert forall|i: int, j: int| 0 <= i <= j < kept.len() implies kept[i].size
            >= kept[j].size by {
            assert(kept[i] == grown[i]);
            assert(kept[j] == grown[j]);
        }
        assert forall|i: int| 0 <= i < kept.len() implies kept[i].size > min_size by {
            assert(kept[i] == grown[i]);
        }
    }
}

/// The floor never falls: after a file was offered it is at least what it
/// was before.
pub proof fn lemma_floor_never_falls(top: Seq<FileView>, file: FileView, limit: nat, min_size: nat)
    requires
        ranked(top, limit, min_size),
    ensures
        floor_of(offer(top, file, limit, min_size), limit, min_size) >= floor_of(
            top,
            limit,
            min_size,
        ),
{
    let after = offer(top, file, limit, min_size);
    lemma_offer_ranked(top, file, limit, min_size);
    if file.size > floor_of(top, limit, min_size) {
        lemma_count_is_place(top, file.size);
        let place = count_at_least(top, file.size) as int;
        let grown = top.insert(place, file);
        if top.len() > 0 && top.len() >= limit {
            // The ranking was full: the old last file is the one that leaves.
            assert(place < top.len()) by {
                if place == top.len() {
                    assert(top[top.len() - 1].size >= file.size);
                }
            }
            assert(after =~= grown.take(limit as int));
            assert(after.last() == grown[limit - 1]);
            assert(grown[top.len() as int] == top[top.len() - 1]);
            assert(grown[limit - 1].size >= grown[top.len() as int].size);
        } else if after.len() > 0 && after.len() >= limit {
            assert(after.last().size > min_size);
        }
    }
}

} // verus!
