//! What does not depend on the order in which the events arrive.
//!
//! Walkers run side by side, so their events reach the aggregator in no
//! fixed order. The laws here compare two orders of the same events.

use crate::candidate::FileView;
use crate::counts::Tally;
use crate::laws::{law_ranking_len, lemma_floor_bounds, lemma_ranking_ranked};
use crate::ranking::{
    count_above, count_at_least, floor_of, keep, lemma_count_is_place, lemma_floor_never_falls,
    lemma_offer_ranked, lemma_place_counts, offer, ranked, ranking,
};
use vstd::multiset::Multiset;
use vstd::prelude::*;
use vstd::seq_lib::group_to_multiset_ensures;

verus! {

/// Every ranked file was offered, as often at least as it is ranked; and a
/// file that is larger than the floor is ranked as often as it was offered.
pub open spec fn holds(top: Seq<FileView>, offered: Seq<FileView>, floor: nat) -> bool {
    &&& forall|f: FileView| #[trigger] top.to_multiset().count(f) <= offered.to_multiset().count(f)
    &&& forall|f: FileView|
        f.size > floor ==> #[trigger] top.to_multiset().count(f) == offered.to_multiset().count(f)
}

/// One more file: what the ranking holds of what was offered, after the file
/// was offered.
proof fn lemma_holds_step(
    top: Seq<FileView>,
    before: Seq<FileView>,
    file: FileView,
    limit: nat,
    min_size: nat,
)
    requires
        limit >= 1,
        ranked(top, limit, min_size),
        holds(top, before, floor_of(top, limit, min_size)),
    ensures
        holds(
            offer(top, file, limit, min_size),
            before.push(file),
            floor_of(offer(top, file, limit, min_size), limit, min_size),
        ),
{
    broadcast use group_to_multiset_ensures;

    let offered = before.push(file);
    let after = offer(top, file, limit, min_size);
    let low = floor_of(after, limit, min_size);
    lemma_offer_ranked(top, file, limit, min_size);
    lemma_floor_never_falls(top, file, limit, min_size);
    assert(offered.to_multiset() =~= before.to_multiset().insert(file));
    // The file that left the ranking, if one did, is no larger than the floor.
    let gone: Option<FileView> = if file.size > floor_of(top, limit, min_size) {
        lemma_count_is_place(top, file.size);
        let place = count_at_least(top, file.size) as int;
        let grown = top.insert(place, file);
        assert(grown.to_multiset() =~= top.to_multiset().insert(file));
        if grown.len() > limit {
            assert(after =~= grown.remove(limit as int));
            assert(after.to_multiset() =~= grown.to_multiset().remove(grown.last()));
            assert(after.last() == grown[limit - 1]);
            assert(grown.last().size <= low) by {
                lemma_offer_ranked(top, file, limit + 1, min_size);
                assert(keep(grown, limit + 1) == grown);
                assert(grown[limit - 1].size >= grown[limit as int].size);
            }
            Some(grown.last())
        } else {
            None
        }
    } else {
        None
    };
    assert forall|f: FileView| #[trigger]
        after.to_multiset().count(f) <= offered.to_multiset().count(f) by {
        assert(top.to_multiset().count(f) <= before.to_multiset().count(f));
    }
    assert forall|f: FileView| f.size > low implies #[trigger] after.to_multiset().count(f)
        == offered.to_multiset().count(f) by {
        assert(top.to_multiset().count(f) == before.to_multiset().count(f));
        assert(gone != Some(f));
    }
}

/// Every ranked file was offered, as often at least as it is ranked; and a
/// file that is larger than the floor is ranked as often as it was offered.
pub proof fn lemma_ranking_holds(offered: Seq<FileView>, limit: nat, min_size: nat)
    requires
        limit >= 1,
    ensures
        holds(
            ranking(offered, limit, min_size),
            offered,
            floor_of(ranking(offered, limit, min_size), limit, min_size),
        ),
    decreases offered.len(),
{
    if offered.len() == 0 {
        assert(offered =~= ranking(offered, limit, min_size));
    } else {
        let before = offered.drop_last();
        lemma_ranking_holds(before, limit, min_size);
        lemma_ranking_ranked(before, limit, min_size);
        assert(before.push(offered.last()) =~= offered);
        lemma_holds_step(
            ranking(before, limit, min_size),
            before,
            offered.last(),
            limit,
            min_size,
        );
    }
}

/// Where two sequences hold the same values, each as often, the last value
/// of the first stands somewhere in the second, and without it the two still
/// hold the same values.
proof fn lemma_last_elsewhere<A>(a: Seq<A>, b: Seq<A>) -> (i: int)
    requires
        a.len() > 0,
        a.to_multiset() == b.to_multiset(),
    ensures
        0 <= i < b.len(),
        b[i] == a.last(),
        a.drop_last().to_multiset() == b.remove(i).to_multiset(),
{
    broadcast use group_to_multiset_ensures;

    assert(a[a.len() - 1] == a.last());
    assert(a.contains(a.last()));
    assert(b.to_multiset().count(a.last()) > 0);
    assert(b.contains(a.last()));
    let i = choose|i: int| 0 <= i < b.len() && b[i] == a.last();
    assert(a.drop_last() =~= a.remove(a.len() - 1));
    i
}

/// Taking one part out of a sum and adding it again gives the sum.
proof fn lemma_total_without(parts: Seq<Tally>, i: int)
    requires
        0 <= i < parts.len(),
    ensures
        Tally::total_of(parts) == Tally::total_of(parts.remove(i)).plus(parts[i]),
    decreases parts.len(),
{
    if i < parts.len() - 1 {
        assert(parts.remove(i).drop_last() =~= parts.drop_last().remove(i));
        assert(parts.remove(i).last() == parts.last());
        lemma_total_without(parts.drop_last(), i);
    } else {
        assert(parts.remove(i) =~= parts.drop_last());
    }
}

/// Conservation: the totals of a scan are the sum of what its directories
/// reported, in whatever order the reports arrived.
pub proof fn law_totals_any_order(a: Seq<Tally>, b: Seq<Tally>)
    requires
        a.to_multiset() == b.to_multiset(),
    ensures
        Tally::total_of(a) == Tally::total_of(b),
    decreases a.len(),
{
    broadcast use group_to_multiset_ensures;

    if a.len() == 0 {
        assert(a.to_multiset().len() == a.len());
        assert(b.to_multiset().len() == b.len());
    } else {
        let i = lemma_last_elsewhere(a, b);
        law_totals_any_order(a.drop_last(), b.remove(i));
        lemma_total_without(b, i);
    }
}

/// The sum of two runs of reports, one after the other, is the sum of their
/// sums: no report is counted twice or dropped.
pub proof fn law_totals_add_up(a: Seq<Tally>, b: Seq<Tally>)
    ensures
        Tally::total_of(a + b) == Tally::total_of(a).plus(Tally::total_of(b)),
    decreases b.len(),
{
    if b.len() == 0 {
        assert(a + b =~= a);
    } else {
        assert((a + b).drop_last() =~= a + b.drop_last());
        law_totals_add_up(a, b.drop_last());
    }
}

/// Taking one file out lowers the number of files larger than `size` by one
/// where that file is larger, and not at all where it is not.
proof fn lemma_count_above_without(files: Seq<FileView>, size: nat, i: int)
    requires
        0 <= i < files.len(),
    ensures
        count_above(files, size) == count_above(files.remove(i), size) + if files[i].size > size {
            1nat
        } else {
            0nat
        },
    decreases files.len(),
{
    if i < files.len() - 1 {
        assert(files.remove(i).drop_last() =~= files.drop_last().remove(i));
        assert(files.remove(i).last() == files.last());
        lemma_count_above_without(files.drop_last(), size, i);
    } else {
        assert(files.remove(i) =~= files.drop_last());
    }
}

/// The same, for files of at least `size` bytes.
proof fn lemma_count_at_least_without(files: Seq<FileView>, size: nat, i: int)
    requires
        0 <= i < files.len(),
    ensures
        count_at_least(files, size) == count_at_least(files.remove(i), size) + if files[i].size
            >= size {
            1nat
        } else {
            0nat
        },
    decreases files.len(),
{
    if i < files.len() - 1 {
        assert(files.remove(i).drop_last() =~= files.drop_last().remove(i));
        assert(files.remove(i).last() == files.last());
        lemma_count_at_least_without(files.drop_last(), size, i);
    } else {
        assert(files.remove(i) =~= files.drop_last());
    }
}

/// How many files are larger than `size` does not depend on their order.
pub proof fn lemma_count_above_any_order(a: Seq<FileView>, b: Seq<FileView>, size: nat)
    requires
        a.to_multiset() == b.to_multiset(),
    ensures
        count_above(a, size) == count_above(b, size),
    decreases a.len(),
{
    broadcast use group_to_multiset_ensures;

    if a.len() == 0 {
        assert(a.to_multiset().len() == a.len());
        assert(b.to_multiset().len() == b.len());
    } else {
        let i = lemma_last_elsewhere(a, b);
        lemma_count_above_any_order(a.drop_last(), b.remove(i), size);
        lemma_count_above_without(b, size, i);
    }
}

/// A multiset that is within another and holds some value less often is
/// smaller.
proof fn lemma_smaller_multiset<A>(inner: Multiset<A>, outer: Multiset<A>, v: A)
    requires
        inner.subset_of(outer),
        inner.count(v) < outer.count(v),
    ensures
        inner.len() < outer.len(),
{
    broadcast use vstd::multiset::group_multiset_axioms;

    let rest = outer.sub(inner);
    assert(rest.len() == outer.len() - inner.len());
    assert(rest.count(v) > 0);
    assert(rest.count(v) <= rest.len());
}

/// A multiset that is within another of the same size is that other.
proof fn lemma_same_multiset<A>(inner: Multiset<A>, outer: Multiset<A>)
    requires
        inner.subset_of(outer),
        inner.len() == outer.len(),
    ensures
        inner == outer,
{
    assert forall|v: A| inner.count(v) == outer.count(v) by {
        if inner.count(v) < outer.count(v) {
            lemma_smaller_multiset(inner, outer, v);
        }
    }
    assert(inner =~= outer);
}

/// Where no file is of at least `size` bytes, no file of at least `size`
/// bytes occurs.
proof fn lemma_none_at_least(files: Seq<FileView>, size: nat)
    requires
        count_at_least(files, size) == 0,
    ensures
        forall|f: FileView| f.size >= size ==> #[trigger] files.to_multiset().count(f) == 0,
    decreases files.len(),
{
    broadcast use group_to_multiset_ensures;

    if files.len() > 0 {
        lemma_none_at_least(files.drop_last(), size);
        assert(files.drop_last().push(files.last()) =~= files);
        assert(files.to_multiset() =~= files.drop_last().to_multiset().insert(files.last()));
    }
}

/// Of files that are all among other files, no more are of at least `size`
/// bytes than of the others; and where as many are, every file of at least
/// `size` bytes is among them as often as among the others.
proof fn lemma_part_counts(part: Seq<FileView>, whole: Seq<FileView>, size: nat)
    requires
        part.to_multiset().subset_of(whole.to_multiset()),
    ensures
        count_at_least(part, size) <= count_at_least(whole, size),
        count_at_least(part, size) == count_at_least(whole, size) ==> forall|f: FileView|
            f.size >= size ==> #[trigger] part.to_multiset().count(f) == whole.to_multiset().count(
                f,
            ),
    decreases part.len(),
{
    broadcast use group_to_multiset_ensures;

    if part.len() == 0 {
        assert(part.to_multiset().len() == 0);
        if count_at_least(whole, size) == 0 {
            lemma_none_at_least(whole, size);
            assert forall|f: FileView| f.size >= size implies #[trigger] part.to_multiset().count(
                f,
            ) == whole.to_multiset().count(f) by {
                assert(part.to_multiset().count(f) <= whole.to_multiset().count(f));
            }
        }
    } else {
        let e = part.last();
        assert(part[part.len() - 1] == e);
        assert(part.contains(e));
        assert(part.to_multiset().count(e) > 0);
        assert(whole.to_multiset().count(e) >= part.to_multiset().count(e));
        assert(whole.contains(e));
        let i = choose|i: int| 0 <= i < whole.len() && whole[i] == e;
        let less = part.drop_last();
        let rest = whole.remove(i);
        assert(less =~= part.remove(part.len() - 1));
        assert(less.to_multiset() =~= part.to_multiset().remove(e));
        assert(rest.to_multiset() =~= whole.to_multiset().remove(e));
        assert forall|f: FileView| less.to_multiset().count(f) <= rest.to_multiset().count(f) by {
            assert(part.to_multiset().count(f) <= whole.to_multiset().count(f));
        }
        lemma_part_counts(less, rest, size);
        lemma_count_at_least_without(whole, size, i);
        if count_at_least(part, size) == count_at_least(whole, size) {
            assert forall|f: FileView| f.size >= size implies #[trigger] part.to_multiset().count(
                f,
            ) == whole.to_multiset().count(f) by {
                assert(less.to_multiset().count(f) == rest.to_multiset().count(f));
            }
        }
    }
}

/// A value that a sequence does not hold occurs in it no times, and one that
/// it holds occurs.
proof fn lemma_occurs<A>(s: Seq<A>, v: A)
    ensures
        s.contains(v) <==> s.to_multiset().count(v) > 0,
{
    broadcast use group_to_multiset_ensures;

}

/// No file that was left out is as large as the smallest ranked file: once
/// the ranking is full, at most `limit` of the offered files have at least
/// the size of its last entry.
pub open spec fn clean_cut(offered: Seq<FileView>, limit: nat, min_size: nat) -> bool {
    let top = ranking(offered, limit, min_size);
    top.len() >= limit && limit >= 1 ==> count_at_least(offered, top.last().size) <= limit
}

/// The same files give the same ranked files in whatever order they arrive,
/// as long as the cut is clean. Where a file that was left out is as large
/// as the smallest ranked one, which of the two is ranked depends on which
/// came first.
pub proof fn law_ranking_any_order(
    a: Seq<FileView>,
    b: Seq<FileView>,
    limit: nat,
    min_size: nat,
)
    requires
        a.to_multiset() == b.to_multiset(),
        clean_cut(a, limit, min_size),
    ensures
        ranking(a, limit, min_size).to_multiset() == ranking(b, limit, min_size).to_multiset(),
{
    let ra = ranking(a, limit, min_size);
    let rb = ranking(b, limit, min_size);
    let ma = ra.to_multiset();
    let mb = rb.to_multiset();
    lemma_ranking_ranked(a, limit, min_size);
    lemma_ranking_ranked(b, limit, min_size);
    law_ranking_len(a, limit, min_size);
    law_ranking_len(b, limit, min_size);
    lemma_count_above_any_order(a, b, min_size);
    assert(ra.len() == rb.len());
    assert(ma.len() == mb.len()) by {
        broadcast use group_to_multiset_ensures;

    }
    if limit == 0 {
        assert(ra =~= rb);
    } else {
        lemma_ranking_holds(a, limit, min_size);
        lemma_ranking_holds(b, limit, min_size);
        lemma_floor_bounds(ra, limit, min_size);
        lemma_floor_bounds(rb, limit, min_size);
        if ra.len() < limit {
            assert forall|f: FileView| ma.count(f) == mb.count(f) by {
                if f.size <= min_size {
                    lemma_occurs(ra, f);
                    lemma_occurs(rb, f);
                } else {
                    assert(ma.count(f) == a.to_multiset().count(f));
                    assert(mb.count(f) == b.to_multiset().count(f));
                }
            }
            assert(ma =~= mb);
        } else {
            let fa = ra.last().size;
            let fb = rb.last().size;
            assert(count_at_least(ra, fa) == limit) by {
                lemma_place_counts(ra, fa, ra.len() as int);
            }
            assert(ma.subset_of(a.to_multiset())) by {
                assert forall|f: FileView| ma.count(f) <= a.to_multiset().count(f) by {}
            }
            lemma_part_counts(ra, a, fa);
            // Every offered file of at least the smallest ranked size is
            // ranked, and nothing smaller is.
            assert forall|f: FileView| f.size >= fa implies ma.count(f) == a.to_multiset().count(
                f,
            ) by {}
            assert forall|f: FileView| f.size < fa implies ma.count(f) == 0 by {
                lemma_occurs(ra, f);
            }
            assert forall|f: FileView| f.size < fb implies mb.count(f) == 0 by {
                lemma_occurs(rb, f);
            }
            assert forall|f: FileView| f.size > fb implies mb.count(f) == b.to_multiset().count(
                f,
            ) by {}
            assert forall|f: FileView| mb.count(f) <= b.to_multiset().count(f) by {}
            if fb < fa {
                assert forall|f: FileView| ma.count(f) <= mb.count(f) by {
                    if f.size >= fa {
                        assert(mb.count(f) == b.to_multiset().count(f));
                    }
                }
                assert(rb[rb.len() - 1] == rb.last());
                lemma_occurs(rb, rb.last());
                lemma_smaller_multiset(ma, mb, rb.last());
            } else if fb > fa {
                assert forall|f: FileView| mb.count(f) <= ma.count(f) by {
                    if f.size >= fb {
                        assert(ma.count(f) == a.to_multiset().count(f));
                    }
                }
                assert(ra[ra.len() - 1] == ra.last());
                lemma_occurs(ra, ra.last());
                lemma_smaller_multiset(mb, ma, ra.last());
            } else {
                assert forall|f: FileView| mb.count(f) <= ma.count(f) by {
                    if f.size >= fb {
                        assert(ma.count(f) == a.to_multiset().count(f));
                    }
                }
                lemma_same_multiset(mb, ma);
            }
        }
    }
}

/// The paths of the ranked files, each with its size.
pub open spec fn paths_and_sizes(top: Seq<FileView>) -> Set<(Seq<char>, nat)> {
    Set::new(
        |pair: (Seq<char>, nat)|
            exists|i: int| 0 <= i < top.len() && #[trigger] top[i].path == pair.0 && top[i].size
                == pair.1,
    )
}

/// Of two rankings that hold the same files, each path that the first shows
/// with a size, the second shows with that size.
proof fn lemma_paths_within(first: Seq<FileView>, second: Seq<FileView>)
    requires
        first.to_multiset() == second.to_multiset(),
    ensures
        paths_and_sizes(first).subset_of(paths_and_sizes(second)),
{
    assert forall|pair: (Seq<char>, nat)| paths_and_sizes(first).contains(pair) implies (
    paths_and_sizes(second).contains(pair)) by {
        let i = choose|i: int|
            0 <= i < first.len() && #[trigger] first[i].path == pair.0 && first[i].size == pair.1;
        assert(first.contains(first[i]));
        lemma_occurs(first, first[i]);
        lemma_occurs(second, first[i]);
        let j = choose|j: int| 0 <= j < second.len() && second[j] == first[i];
        assert(second[j].path == pair.0 && second[j].size == pair.1);
    }
}

/// Scanning the same files twice ranks the same paths with the same sizes,
/// in whatever order the files arrive, as long as the cut is clean.
pub proof fn law_ranked_paths_any_order(
    a: Seq<FileView>,
    b: Seq<FileView>,
    limit: nat,
    min_size: nat,
)
    requires
        a.to_multiset() == b.to_multiset(),
        clean_cut(a, limit, min_size),
    ensures
        paths_and_sizes(ranking(a, limit, min_size)) == paths_and_sizes(
            ranking(b, limit, min_size),
        ),
{
    let ra = ranking(a, limit, min_size);
    let rb = ranking(b, limit, min_size);
    law_ranking_any_order(a, b, limit, min_size);
    lemma_paths_within(ra, rb);
    lemma_paths_within(rb, ra);
    assert(paths_and_sizes(ra) =~= paths_and_sizes(rb));
}

} // verus!
