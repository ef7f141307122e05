//! What holds of every scan, whatever files it meets and in whatever order.

use crate::candidate::FileView;
use crate::ranking::{
    count_above, count_at_least, descending, floor_of, keep, lemma_count_is_place,
    lemma_floor_never_falls, lemma_offer_ranked, offer, ranked, ranking,
};
use vstd::prelude::*;

verus! {

/// The ranking of any files is a ranking: largest first, within the limit,
/// and of files larger than the minimum size only.
pub proof fn lemma_ranking_ranked(offered: Seq<FileView>, limit: nat, min_size: nat)
    ensures
        ranked(ranking(offered, limit, min_size), limit, min_size),
    decreases offered.len(),
{
    if offered.len() > 0 {
        lemma_ranking_ranked(offered.drop_last(), limit, min_size);
        lemma_offer_ranked(
            ranking(offered.drop_last(), limit, min_size),
            offered.last(),
            limit,
            min_size,
        );
    }
}

/// The floor of a ranking is at least the minimum size, and no ranked file
/// is smaller than the floor.
pub proof fn lemma_floor_bounds(top: Seq<FileView>, limit: nat, min_size: nat)
    requires
        ranked(top, limit, min_size),
    ensures
        floor_of(top, limit, min_size) >= min_size,
        forall|i: int| 0 <= i < top.len() ==> top[i].size >= floor_of(top, limit, min_size),
{
    assert forall|i: int| 0 <= i < top.len() implies top[i].size >= floor_of(
        top,
        limit,
        min_size,
    ) by {
        assert(top[i].size >= top[top.len() - 1].size);
    }
}

/// The floor never falls in the course of a scan: after the first `later`
/// files it is at least what it was after the first `earlier` ones.
pub proof fn law_floor_never_falls(
    offered: Seq<FileView>,
    earlier: int,
    later: int,
    limit: nat,
    min_size: nat,
)
    requires
        0 <= earlier <= later <= offered.len(),
    ensures
        min_size <= floor_of(ranking(offered.take(earlier), limit, min_size), limit, min_size)
            <= floor_of(ranking(offered.take(later), limit, min_size), limit, min_size),
    decreases later - earlier,
{
    lemma_ranking_ranked(offered.take(earlier), limit, min_size);
    lemma_floor_bounds(ranking(offered.take(earlier), limit, min_size), limit, min_size);
    if earlier < later {
        let shorter = offered.take(later - 1);
        law_floor_never_falls(offered, earlier, later - 1, limit, min_size);
        assert(offered.take(later).drop_last() =~= shorter);
        lemma_ranking_ranked(shorter, limit, min_size);
        lemma_floor_never_falls(
            ranking(shorter, limit, min_size),
            offered.take(later).last(),
            limit,
            min_size,
        );
    }
}

/// `src` says for each entry of `top` which of the `offered` files it is, in
/// such a way that `top` is `offered` sorted by size, larger first, and by
/// arrival, earlier first, among files of one size.
pub open spec fn selects(src: Seq<int>, offered: Seq<FileView>, top: Seq<FileView>) -> bool {
    &&& src.len() == top.len()
    &&& forall|k: int|
        0 <= k < src.len() ==> 0 <= #[trigger] src[k] < offered.len() && top[k] == offered[src[k]]
    &&& forall|i: int, j: int|
        #![trigger top[i], top[j]]
        0 <= i < j < src.len() ==> top[i].size > top[j].size || (top[i].size == top[j].size
            && src[i] < src[j])
}

/// The ranking holds as many files as the limit allows of those that are
/// larger than the minimum size.
pub proof fn law_ranking_len(offered: Seq<FileView>, limit: nat, min_size: nat)
    ensures
        ranking(offered, limit, min_size).len() == if limit <= count_above(offered, min_size) {
            limit
        } else {
            count_above(offered, min_size)
        },
    decreases offered.len(),
{
    if offered.len() > 0 {
        let before = offered.drop_last();
        let top = ranking(before, limit, min_size);
        let file = offered.last();
        law_ranking_len(before, limit, min_size);
        lemma_ranking_ranked(before, limit, min_size);
        lemma_floor_bounds(top, limit, min_size);
        if file.size > floor_of(top, limit, min_size) {
            lemma_count_is_place(top, file.size);
        }
    }
}

/// A ranking that selects from `before` selects from `before` with one more
/// file behind it.
proof fn lemma_selects_longer(
    src: Seq<int>,
    before: Seq<FileView>,
    file: FileView,
    top: Seq<FileView>,
)
    requires
        selects(src, before, top),
    ensures
        selects(src, before.push(file), top),
{
    let offered = before.push(file);
    assert forall|k: int| 0 <= k < src.len() implies 0 <= #[trigger] src[k] < offered.len()
        && top[k] == offered[src[k]] by {
        assert(before[src[k]] == offered[src[k]]);
    }
}

/// Placing the newest file behind the ranked files of at least its size
/// keeps the selection in order.
proof fn lemma_selects_grown(
    src: Seq<int>,
    offered: Seq<FileView>,
    top: Seq<FileView>,
    place: int,
)
    requires
        offered.len() > 0,
        selects(src, offered, top),
        forall|k: int| 0 <= k < src.len() ==> #[trigger] src[k] < offered.len() - 1,
        0 <= place <= top.len(),
        forall|i: int| 0 <= i < place ==> top[i].size >= offered.last().size,
        forall|i: int| place <= i < top.len() ==> top[i].size < offered.last().size,
    ensures
        selects(src.insert(place, offered.len() - 1), offered, top.insert(place, offered.last())),
{
    let newest = offered.len() - 1;
    let file = offered.last();
    let grown = top.insert(place, file);
    let grown_src = src.insert(place, newest);
    assert forall|k: int| 0 <= k < grown_src.len() implies 0 <= #[trigger] grown_src[k]
        < offered.len() && grown[k] == offered[grown_src[k]] by {
        if k < place {
            assert(grown_src[k] == src[k]);
        } else if k > place {
            assert(grown_src[k] == src[k - 1]);
        }
    }
    assert forall|i: int, j: int|
        #![trigger grown[i], grown[j]]
        0 <= i < j < grown_src.len() implies grown[i].size > grown[j].size || (grown[i].size
            == grown[j].size && grown_src[i] < grown_src[j]) by {
        if j < place {
            assert(grown_src[i] == src[i] && grown_src[j] == src[j]);
            assert(grown[i] == top[i] && grown[j] == top[j]);
        } else if j == place {
            assert(grown_src[i] == src[i]);
            assert(grown[i] == top[i]);
            assert(top[i].size >= file.size);
        } else if i < place {
            assert(grown_src[i] == src[i] && grown_src[j] == src[j - 1]);
            assert(grown[i] == top[i] && grown[j] == top[j - 1]);
        } else if i == place {
            assert(grown[j] == top[j - 1]);
            assert(top[j - 1].size < file.size);
        } else {
            assert(grown_src[i] == src[i - 1] && grown_src[j] == src[j - 1]);
            assert(grown[i] == top[i - 1] && grown[j] == top[j - 1]);
        }
    }
}

/// The first entries of a selection are a selection.
proof fn lemma_selects_kept(src: Seq<int>, offered: Seq<FileView>, top: Seq<FileView>, n: int)
    requires
        selects(src, offered, top),
        0 <= n <= src.len(),
    ensures
        selects(src.take(n), offered, top.take(n)),
{
    let s = src.take(n);
    let t = top.take(n);
    assert forall|k: int| 0 <= k < s.len() implies 0 <= #[trigger] s[k] < offered.len() && t[k]
        == offered[s[k]] by {
        assert(s[k] == src[k]);
    }
    assert forall|i: int, j: int|
        #![trigger t[i], t[j]]
        0 <= i < j < s.len() implies t[i].size > t[j].size || (t[i].size == t[j].size && s[i]
            < s[j]) by {
        assert(s[i] == src[i] && s[j] == src[j]);
        assert(t[i] == top[i] && t[j] == top[j]);
    }
}

/// Every offered file that `src` leaves out is of at most `bound` bytes.
pub open spec fn left_out_small(src: Seq<int>, offered: Seq<FileView>, bound: nat) -> bool {
    forall|e: int|
        0 <= e < offered.len() && !src.contains(e) ==> (#[trigger] offered[e]).size <= bound
}

/// With the newest arrival put into the selection, nothing more is left out
/// than before.
proof fn lemma_left_out_grown(
    src: Seq<int>,
    before: Seq<FileView>,
    file: FileView,
    place: int,
    bound: nat,
)
    requires
        0 <= place <= src.len(),
        left_out_small(src, before, bound),
    ensures
        left_out_small(src.insert(place, before.len() as int), before.push(file), bound),
{
    let offered = before.push(file);
    let grown_src = src.insert(place, before.len() as int);
    assert forall|e: int| 0 <= e < offered.len() && !grown_src.contains(e) implies (
    #[trigger] offered[e]).size <= bound by {
        if e == before.len() {
            assert(grown_src[place] == e);
        } else if src.contains(e) {
            let k = choose|k: int| 0 <= k < src.len() && src[k] == e;
            if k < place {
                assert(grown_src[k] == e);
            } else {
                assert(grown_src[k + 1] == e);
            }
        } else {
            assert(before[e] == offered[e]);
        }
    }
}

/// With the selection cut to its first `n` entries, what is left out is of
/// at most the size of the last entry kept.
proof fn lemma_left_out_cut(
    src: Seq<int>,
    top: Seq<FileView>,
    offered: Seq<FileView>,
    n: int,
    bound: nat,
)
    requires
        1 <= n <= src.len(),
        selects(src, offered, top),
        left_out_small(src, offered, bound),
        bound <= top[n - 1].size,
    ensures
        left_out_small(src.take(n), offered, top[n - 1].size),
{
    let kept = src.take(n);
    assert forall|e: int| 0 <= e < offered.len() && !kept.contains(e) implies (
    #[trigger] offered[e]).size <= top[n - 1].size by {
        if src.contains(e) {
            let k = choose|k: int| 0 <= k < src.len() && src[k] == e;
            if k < n {
                assert(kept[k] == e);
            }
            assert(top[k] == offered[e]);
            if n - 1 < k {
                assert(top[n - 1].size > top[k].size || top[n - 1].size == top[k].size);
            }
        }
    }
}

/// One more file: the selection and what it leaves out, after the file was
/// offered.
proof fn lemma_selects_step(
    old_src: Seq<int>,
    before: Seq<FileView>,
    file: FileView,
    top: Seq<FileView>,
    limit: nat,
    min_size: nat,
) -> (src: Seq<int>)
    requires
        limit >= 1,
        ranked(top, limit, min_size),
        selects(old_src, before, top),
        left_out_small(old_src, before, floor_of(top, limit, min_size)),
    ensures
        selects(src, before.push(file), offer(top, file, limit, min_size)),
        left_out_small(
            src,
            before.push(file),
            floor_of(offer(top, file, limit, min_size), limit, min_size),
        ),
{
    let offered = before.push(file);
    let after = offer(top, file, limit, min_size);
    let low = floor_of(top, limit, min_size);
    lemma_offer_ranked(top, file, limit, min_size);
    lemma_floor_never_falls(top, file, limit, min_size);
    lemma_selects_longer(old_src, before, file, top);
    if file.size <= low {
        assert forall|e: int| 0 <= e < offered.len() && !old_src.contains(e) implies (
        #[trigger] offered[e]).size <= low by {
            if e < before.len() {
                assert(before[e] == offered[e]);
            }
        }
        old_src
    } else {
        lemma_count_is_place(top, file.size);
        let place = count_at_least(top, file.size) as int;
        let grown = top.insert(place, file);
        let grown_src = old_src.insert(place, before.len() as int);
        assert(offered.last() == file);
        assert forall|k: int| 0 <= k < old_src.len() implies #[trigger] old_src[k] < offered.len()
            - 1 by {}
        lemma_selects_grown(old_src, offered, top, place);
        lemma_left_out_grown(old_src, before, file, place, low);
        if grown_src.len() > limit {
            let n = limit as int;
            assert(after == grown.take(n));
            assert(after.last() == grown[n - 1]);
            assert(low <= grown[n - 1].size) by {
                assert(grown[grown.len() - 1] == top[top.len() - 1]);
                assert(grown[n - 1].size >= grown[grown.len() - 1].size);
            }
            lemma_selects_kept(grown_src, offered, grown, n);
            lemma_left_out_cut(grown_src, grown, offered, n, low);
            grown_src.take(n)
        } else {
            assert(after == grown);
            grown_src
        }
    }
}

/// At least as many files are of at least `size` bytes as are larger, and
/// just as many where no file is of exactly `size` bytes.
pub proof fn lemma_counts_compared(files: Seq<FileView>, size: nat)
    ensures
        count_at_least(files, size) >= count_above(files, size),
        (forall|i: int| 0 <= i < files.len() ==> files[i].size != size) ==> count_at_least(
            files,
            size,
        ) == count_above(files, size),
    decreases files.len(),
{
    if files.len() > 0 {
        lemma_counts_compared(files.drop_last(), size);
        if forall|i: int| 0 <= i < files.len() ==> files[i].size != size {
            assert forall|i: int| 0 <= i < files.drop_last().len() implies files.drop_last()[i].size
                != size by {
                assert(files.drop_last()[i] == files[i]);
            }
            assert(files[files.len() - 1].size != size);
        }
    }
}

/// The ranking holds as many files as the limit allows of those that are of
/// at least the minimum size, as long as no offered file is of exactly the
/// minimum size or at least `limit` files are larger. A file of exactly the
/// minimum size is never ranked.
pub proof fn law_ranking_len_inclusive(offered: Seq<FileView>, limit: nat, min_size: nat)
    requires
        limit <= count_above(offered, min_size) || forall|i: int|
            0 <= i < offered.len() ==> offered[i].size != min_size,
    ensures
        ranking(offered, limit, min_size).len() == if limit <= count_at_least(offered, min_size) {
            limit
        } else {
            count_at_least(offered, min_size)
        },
{
    law_ranking_len(offered, limit, min_size);
    lemma_counts_compared(offered, min_size);
}

/// The files of the ranking are files that were offered, each at most once,
/// largest first and in order of arrival among files of one size; and every
/// file that was offered and is not ranked is no larger than the floor, so
/// no larger than the smallest ranked file.
pub proof fn law_ranking_selects(offered: Seq<FileView>, limit: nat, min_size: nat) -> (src: Seq<
    int,
>)
    requires
        limit >= 1,
    ensures
        selects(src, offered, ranking(offered, limit, min_size)),
        left_out_small(
            src,
            offered,
            floor_of(ranking(offered, limit, min_size), limit, min_size),
        ),
        ranking(offered, limit, min_size).len() > 0 ==> left_out_small(
            src,
            offered,
            ranking(offered, limit, min_size).last().size,
        ),
    decreases offered.len(),
{
    let after = ranking(offered, limit, min_size);
    lemma_ranking_ranked(offered, limit, min_size);
    lemma_floor_bounds(after, limit, min_size);
    if offered.len() == 0 {
        Seq::empty()
    } else {
        let before = offered.drop_last();
        let top = ranking(before, limit, min_size);
        let old_src = law_ranking_selects(before, limit, min_size);
        assert(before.push(offered.last()) =~= offered);
        lemma_ranking_ranked(before, limit, min_size);
        lemma_selects_step(old_src, before, offered.last(), top, limit, min_size)
    }
}

/// The files of `found` that reach the aggregator, where the walker that
/// found `found[i]` forwards it if it is of at least `seen[i]` bytes.
pub open spec fn forwarded(found: Seq<FileView>, seen: Seq<nat>) -> Seq<FileView>
    decreases found.len(),
{
    if found.len() == 0 || seen.len() != found.len() {
        Seq::empty()
    } else {
        let before = forwarded(found.drop_last(), seen.drop_last());
        if found.last().size >= seen.last() {
            before.push(found.last())
        } else {
            before
        }
    }
}

/// No walker saw a floor above the one that stood when its file came: a
/// walker may have read the floor long before, when it was lower.
pub open spec fn stale_at_worst(
    found: Seq<FileView>,
    seen: Seq<nat>,
    limit: nat,
    min_size: nat,
) -> bool {
    &&& seen.len() == found.len()
    &&& forall|i: int|
        0 <= i < found.len() ==> #[trigger] seen[i] <= floor_of(
            ranking(found.take(i), limit, min_size),
            limit,
            min_size,
        )
}

/// Walkers may hold back every file that is smaller than the floor they
/// saw, however old that floor is: the ranking is the one that all the files
/// would have given.
pub proof fn law_stale_floor_is_safe(
    found: Seq<FileView>,
    seen: Seq<nat>,
    limit: nat,
    min_size: nat,
)
    requires
        stale_at_worst(found, seen, limit, min_size),
    ensures
        ranking(forwarded(found, seen), limit, min_size) == ranking(found, limit, min_size),
    decreases found.len(),
{
    if found.len() > 0 {
        let before = found.drop_last();
        let seen_before = seen.drop_last();
        assert forall|i: int| 0 <= i < before.len() implies #[trigger] seen_before[i] <= floor_of(
            ranking(before.take(i), limit, min_size),
            limit,
            min_size,
        ) by {
            assert(before.take(i) =~= found.take(i));
            assert(seen_before[i] == seen[i]);
        }
        law_stale_floor_is_safe(before, seen_before, limit, min_size);
        let last = found.len() - 1;
        assert(found.take(last) =~= before);
        assert(seen[last] <= floor_of(ranking(before, limit, min_size), limit, min_size));
        if found.last().size >= seen.last() {
            assert(forwarded(found, seen).drop_last() =~= forwarded(before, seen_before));
        }
    }
}

} // verus!
