//! The ranking: rows in descending order of score.
//!
//! Of two rows the one with the larger score comes first. A score that is not
//! a number, and a missing one, count as smaller than every number, so such
//! rows come last. Rows with equal scores come in ascending order of
//! identity, and rows equal in both keep the order in which they were given.

use vstd::prelude::*;
use crate::model::{RankedRow, RankedRowView};

verus! {

/// The key below every number's: that of a score that is missing or not a
/// number.
pub open spec fn lowest_rank() -> int {
    -0x8000_0000
}

/// The integer by which a row's score is ranked.
pub open spec fn rank_of(row: RankedRowView) -> int {
    match row.score {
        Some(score) => score.rank_value(),
        None => lowest_rank(),
    }
}

/// `a` has to come before `b`: its score is larger, or the scores are equal
/// and its identity is smaller.
pub open spec fn outranks(a: RankedRowView, b: RankedRowView) -> bool {
    rank_of(a) > rank_of(b) || (rank_of(a) == rank_of(b) && a.id < b.id)
}

/// Neither row has to come before the other.
pub open spec fn tied(a: RankedRowView, b: RankedRowView) -> bool {
    rank_of(a) == rank_of(b) && a.id == b.id
}

/// No row stands behind one that it outranks.
pub open spec fn is_ranked(rows: Seq<RankedRowView>) -> bool {
    forall|i: int, j: int| 0 <= i < j < rows.len() ==> !outranks(#[trigger] rows[j], #[trigger] rows[i])
}

/// `sorted` with `row` put behind the last row that it does not outrank.
pub open spec fn placed(sorted: Seq<RankedRowView>, row: RankedRowView) -> Seq<RankedRowView>
    decreases sorted.len(),
{
    if sorted.len() > 0 && outranks(row, sorted.last()) {
        placed(sorted.drop_last(), row).push(sorted.last())
    } else {
        sorted.push(row)
    }
}

/// The rows in ranked order: each row in turn is put in its place among
/// those before it.
pub open spec fn ranked(rows: Seq<RankedRowView>) -> Seq<RankedRowView>
    decreases rows.len(),
{
    if rows.len() == 0 {
        Seq::empty()
    } else {
        placed(ranked(rows.drop_last()), rows.last())
    }
}

/// The key by which a row's score is ranked.
pub fn rank_key(row: &RankedRow) -> (key: i64)
    ensures
        key == rank_of(row.deep_view()),
{
    match row.score {
        Some(score) => score.rank_key(),
        None => -0x8000_0000i64,
    }
}

/// Whether `a` has to come before `b`.
pub fn goes_before(a: &RankedRow, b: &RankedRow) -> (before: bool)
    ensures
        before == outranks(a.deep_view(), b.deep_view()),
{
    let ka: i64 = rank_key(a);
    let kb: i64 = rank_key(b);
    ka > kb || (ka == kb && a.id < b.id)
}

/// Putting a row in its place is inserting it in front of the rows that it
/// outranks, where those are the rows from `p` on.
proof fn lemma_placed_is_insert(sorted: Seq<RankedRowView>, row: RankedRowView, p: int)
    requires
        0 <= p <= sorted.len(),
        forall|j: int| p <= j < sorted.len() ==> outranks(row, #[trigger] sorted[j]),
        p == 0 || !outranks(row, sorted[p - 1]),
    ensures
        placed(sorted, row) == sorted.insert(p, row),
    decreases sorted.len(),
{
    if p == sorted.len() {
        assert(sorted.insert(p, row) =~= sorted.push(row));
    } else {
        assert(outranks(row, sorted.last()));
        let shorter = sorted.drop_last();
        assert forall|j: int| p <= j < shorter.len() implies outranks(
            row,
            #[trigger] shorter[j],
        ) by {
            assert(shorter[j] == sorted[j]);
        }
        lemma_placed_is_insert(shorter, row, p);
        assert(shorter.insert(p, row).push(sorted.last()) =~= sorted.insert(p, row));
    }
}

/// Orders the rows by descending score, then by ascending identity; rows
/// equal in both stay in the order given.
pub fn rank(rows: Vec<RankedRow>) -> (out: Vec<RankedRow>)
    ensures
        out.deep_view() == ranked(rows.deep_view()),
{
    let ghost given = rows.deep_view();
    let ghost items = rows@;
    let mut out: Vec<RankedRow> = Vec::new();
    assert(out.deep_view() =~= Seq::empty());
    for row in it: rows.into_iter()
        invariant
            it.seq() == items,
            given.len() == items.len(),
            forall|k: int| 0 <= k < items.len() ==> given[k] == (#[trigger] items[k]).deep_view(),
            out.deep_view() == ranked(given.take(it.index() as int)),
            out.len() == it.index(),
    {
        let ghost k = it.index() as int;
        let ghost before = out.deep_view();
        let mut p: usize = out.len();
        while p > 0 && goes_before(&row, &out[p - 1])
            invariant
                0 <= p <= out.len(),
                before == out.deep_view(),
                forall|j: int|
                    p <= j < before.len() ==> outranks(row.deep_view(), #[trigger] before[j]),
            decreases p,
        {
            p = p - 1;
        }
        proof {
            lemma_placed_is_insert(before, row.deep_view(), p as int);
            assert(given.take(k + 1).drop_last() =~= given.take(k));
            assert(given.take(k + 1).last() == row.deep_view());
        }
        out.insert(p, row);
        assert(out.deep_view() =~= before.insert(p as int, row.deep_view()));
    }
    assert(given.take(given.len() as int) =~= given);
    out
}

/// The rows that are tied with `x`, as a predicate.
pub open spec fn tied_with(x: RankedRowView) -> spec_fn(RankedRowView) -> bool {
    |row: RankedRowView| tied(row, x)
}

/// A row put in its place among ranked rows leaves them ranked.
proof fn lemma_placed_is_ranked(sorted: Seq<RankedRowView>, row: RankedRowView)
    requires
        is_ranked(sorted),
    ensures
        is_ranked(placed(sorted, row)),
        placed(sorted, row).len() == sorted.len() + 1,
        forall|i: int|
            0 <= i < placed(sorted, row).len() ==> (#[trigger] placed(sorted, row)[i]) == row
                || sorted.contains(placed(sorted, row)[i]),
    decreases sorted.len(),
{
    let result = placed(sorted, row);
    if sorted.len() > 0 && outranks(row, sorted.last()) {
        let shorter = sorted.drop_last();
        let inner = placed(shorter, row);
        assert(is_ranked(shorter)) by {
            assert forall|i: int, j: int| 0 <= i < j < shorter.len() implies !outranks(
                #[trigger] shorter[j],
                #[trigger] shorter[i],
            ) by {
                assert(shorter[i] == sorted[i] && shorter[j] == sorted[j]);
            }
        }
        lemma_placed_is_ranked(shorter, row);
        assert forall|i: int| 0 <= i < result.len() implies (#[trigger] result[i]) == row
            || sorted.contains(result[i]) by {
            if i < inner.len() {
                assert(result[i] == inner[i]);
                if inner[i] != row {
                    let w = choose|w: int| 0 <= w < shorter.len() && shorter[w] == inner[i];
                    assert(sorted[w] == inner[i]);
                }
            } else {
                assert(result[i] == sorted[sorted.len() - 1]);
            }
        }
        assert forall|i: int, j: int| 0 <= i < j < result.len() implies !outranks(
            #[trigger] result[j],
            #[trigger] result[i],
        ) by {
            if j < inner.len() {
                assert(result[i] == inner[i] && result[j] == inner[j]);
            } else {
                assert(result[j] == sorted.last());
                assert(result[i] == inner[i]);
                if inner[i] != row {
                    let w = choose|w: int| 0 <= w < shorter.len() && shorter[w] == inner[i];
                    assert(sorted[w] == inner[i]);
                    assert(!outranks(sorted[sorted.len() - 1], sorted[w]));
                }
            }
        }
    } else {
        assert forall|i: int| 0 <= i < result.len() implies (#[trigger] result[i]) == row
            || sorted.contains(result[i]) by {
            if i < sorted.len() {
                assert(result[i] == sorted[i]);
            }
        }
        assert forall|i: int, j: int| 0 <= i < j < result.len() implies !outranks(
            #[trigger] result[j],
            #[trigger] result[i],
        ) by {
            if j < sorted.len() {
                assert(result[i] == sorted[i] && result[j] == sorted[j]);
            } else {
                assert(result[j] == row);
                assert(result[i] == sorted[i]);
                assert(!outranks(sorted[sorted.len() - 1], sorted[i]) || i == sorted.len() - 1);
            }
        }
    }
}

/// The ranking is in order: no row stands behind one that it outranks, and
/// so from each row to the next the score does not rise.
pub proof fn lemma_ranked_is_ranked(rows: Seq<RankedRowView>)
    ensures
        is_ranked(ranked(rows)),
        ranked(rows).len() == rows.len(),
        forall|i: int|
            0 <= i && i + 1 < ranked(rows).len() ==> rank_of(#[trigger] ranked(rows)[i])
                >= rank_of(ranked(rows)[i + 1]),
    decreases rows.len(),
{
    if rows.len() > 0 {
        lemma_ranked_is_ranked(rows.drop_last());
        lemma_placed_is_ranked(ranked(rows.drop_last()), rows.last());
    }
    let out = ranked(rows);
    assert forall|i: int| 0 <= i && i + 1 < out.len() implies rank_of(#[trigger] out[i])
        >= rank_of(out[i + 1]) by {
        assert(!outranks(out[i + 1], out[i]));
    }
}

/// A row put in its place adds that row and nothing else.
proof fn lemma_placed_adds_one(sorted: Seq<RankedRowView>, row: RankedRowView)
    ensures
        placed(sorted, row).to_multiset() == sorted.to_multiset().insert(row),
    decreases sorted.len(),
{
    broadcast use vstd::seq_lib::group_to_multiset_ensures;

    if sorted.len() > 0 && outranks(row, sorted.last()) {
        let shorter = sorted.drop_last();
        lemma_placed_adds_one(shorter, row);
        assert(sorted =~= shorter.push(sorted.last()));
        assert(placed(sorted, row).to_multiset() =~= sorted.to_multiset().insert(row));
    }
}

/// The ranking holds the rows given, each as often as it was given.
pub proof fn lemma_ranked_is_rearrangement(rows: Seq<RankedRowView>)
    ensures
        ranked(rows).to_multiset() == rows.to_multiset(),
    decreases rows.len(),
{
    broadcast use vstd::seq_lib::group_to_multiset_ensures;

    if rows.len() > 0 {
        lemma_ranked_is_rearrangement(rows.drop_last());
        lemma_placed_adds_one(ranked(rows.drop_last()), rows.last());
        assert(rows =~= rows.drop_last().push(rows.last()));
    } else {
        assert(rows =~= Seq::empty());
    }
}

/// The rows of `a` and of `b` that are tied with any one row are the same and
/// come in the same order.
pub open spec fn same_ties(a: Seq<RankedRowView>, b: Seq<RankedRowView>) -> bool {
    forall|x: RankedRowView| #[trigger] a.filter(tied_with(x)) == b.filter(tied_with(x))
}

/// What a predicate keeps of a sequence with one element more.
proof fn lemma_filter_push(
    s: Seq<RankedRowView>,
    last: RankedRowView,
    keep: spec_fn(RankedRowView) -> bool,
)
    ensures
        s.push(last).filter(keep) == if keep(last) {
            s.filter(keep).push(last)
        } else {
            s.filter(keep)
        },
{
    reveal(Seq::filter);
    assert(s.push(last).drop_last() =~= s);
}

/// A row put in its place stands behind the rows it is tied with.
proof fn lemma_placed_keeps_ties(sorted: Seq<RankedRowView>, row: RankedRowView, x: RankedRowView)
    ensures
        placed(sorted, row).filter(tied_with(x)) == sorted.push(row).filter(tied_with(x)),
    decreases sorted.len(),
{
    if sorted.len() > 0 && outranks(row, sorted.last()) {
        let shorter = sorted.drop_last();
        let last = sorted.last();
        let keep = tied_with(x);
        lemma_placed_keeps_ties(shorter, row, x);
        assert(sorted =~= shorter.push(last));
        lemma_filter_push(placed(shorter, row), last, keep);
        lemma_filter_push(shorter, row, keep);
        lemma_filter_push(shorter, last, keep);
        lemma_filter_push(sorted, row, keep);
        assert(!(keep(row) && keep(last)));
    }
}

/// The ranking keeps ties in the order given: the rows tied with any one row
/// are the same in the ranking as in what was given, in the same order.
pub proof fn lemma_ranked_keeps_ties(rows: Seq<RankedRowView>)
    ensures
        same_ties(ranked(rows), rows),
    decreases rows.len(),
{
    assert forall|x: RankedRowView| #[trigger]
        ranked(rows).filter(tied_with(x)) == rows.filter(tied_with(x)) by {
        if rows.len() > 0 {
            let shorter = rows.drop_last();
            lemma_ranked_keeps_ties(shorter);
            assert(ranked(shorter).filter(tied_with(x)) == shorter.filter(tied_with(x)));
            lemma_placed_keeps_ties(ranked(shorter), rows.last(), x);
            lemma_filter_push(ranked(shorter), rows.last(), tied_with(x));
            lemma_filter_push(shorter, rows.last(), tied_with(x));
            assert(rows =~= shorter.push(rows.last()));
        }
    }
}

/// A sequence with no rows has, by its ties, no rows on the other side.
proof fn lemma_same_ties_empty(a: Seq<RankedRowView>, b: Seq<RankedRowView>)
    requires
        a.len() == 0,
        same_ties(a, b),
    ensures
        b.len() == 0,
{
    broadcast use vstd::seq_lib::group_filter_ensures;

    if b.len() > 0 {
        let keep = tied_with(b[0]);
        assert(a.filter(keep) == b.filter(keep));
        assert(keep(b[0]));
        assert(b.filter(keep).contains(b[0]));
        assert(a.filter(keep).len() <= a.len());
    }
}

/// A row of `b` is, by the ties, a row of `a` too.
proof fn lemma_same_ties_member(a: Seq<RankedRowView>, b: Seq<RankedRowView>, j: int) -> (i: int)
    requires
        same_ties(a, b),
        0 <= j < b.len(),
    ensures
        0 <= i < a.len(),
        a[i] == b[j],
{
    broadcast use vstd::seq_lib::group_filter_ensures;

    let keep = tied_with(b[j]);
    assert(a.filter(keep) == b.filter(keep));
    assert(keep(b[j]));
    assert(b.filter(keep).contains(b[j]));
    a.lemma_filter_contains_rev(keep, b[j]);
    choose|i: int| 0 <= i < a.len() && a[i] == b[j]
}

/// Two ranked sequences with the same ties are one sequence.
proof fn lemma_ranked_agree(a: Seq<RankedRowView>, b: Seq<RankedRowView>)
    requires
        is_ranked(a),
        is_ranked(b),
        same_ties(a, b),
    ensures
        a == b,
    decreases a.len(),
{
    if a.len() == 0 {
        lemma_same_ties_empty(a, b);
        assert(a =~= b);
    } else {
        assert(same_ties(b, a)) by {
            assert forall|x: RankedRowView| #[trigger]
                b.filter(tied_with(x)) == a.filter(tied_with(x)) by {
                assert(a.filter(tied_with(x)) == b.filter(tied_with(x)));
            }
        }
        if b.len() == 0 {
            lemma_same_ties_empty(b, a);
        }
        let la = a.last();
        let lb = b.last();
        let a1 = a.drop_last();
        let b1 = b.drop_last();
        assert(a =~= a1.push(la));
        assert(b =~= b1.push(lb));
        assert(tied(la, lb)) by {
            let i = lemma_same_ties_member(a, b, b.len() - 1);
            let j = lemma_same_ties_member(b, a, a.len() - 1);
            if i < a.len() - 1 {
                assert(!outranks(a[a.len() - 1], a[i]));
            }
            if j < b.len() - 1 {
                assert(!outranks(b[b.len() - 1], b[j]));
            }
        }
        assert(la == lb) by {
            let keep = tied_with(la);
            lemma_filter_push(a1, la, keep);
            lemma_filter_push(b1, lb, keep);
            assert(a.filter(keep) == b.filter(keep));
            assert(keep(la) && keep(lb));
            assert(a1.filter(keep).push(la).last() == la);
            assert(b1.filter(keep).push(lb).last() == lb);
        }
        assert(is_ranked(a1)) by {
            assert forall|i: int, j: int| 0 <= i < j < a1.len() implies !outranks(
                #[trigger] a1[j],
                #[trigger] a1[i],
            ) by {
                assert(a1[i] == a[i] && a1[j] == a[j]);
            }
        }
        assert(is_ranked(b1)) by {
            assert forall|i: int, j: int| 0 <= i < j < b1.len() implies !outranks(
                #[trigger] b1[j],
                #[trigger] b1[i],
            ) by {
                assert(b1[i] == b[i] && b1[j] == b[j]);
            }
        }
        assert(same_ties(a1, b1)) by {
            assert forall|x: RankedRowView| #[trigger]
                a1.filter(tied_with(x)) == b1.filter(tied_with(x)) by {
                let keep = tied_with(x);
                lemma_filter_push(a1, la, keep);
                lemma_filter_push(b1, lb, keep);
                assert(a.filter(keep) == b.filter(keep));
                if keep(la) {
                    assert(a1.filter(keep).push(la).drop_last() =~= a1.filter(keep));
                    assert(b1.filter(keep).push(lb).drop_last() =~= b1.filter(keep));
                }
            }
        }
        lemma_ranked_agree(a1, b1);
    }
}

/// The ranking is the only arrangement that is in order and keeps ties in
/// the order given. What comes out is therefore fixed by what goes in.
pub proof fn lemma_ranking_is_unique(rows: Seq<RankedRowView>, other: Seq<RankedRowView>)
    requires
        is_ranked(other),
        same_ties(other, rows),
    ensures
        other == ranked(rows),
{
    lemma_ranked_is_ranked(rows);
    lemma_ranked_keeps_ties(rows);
    assert(same_ties(other, ranked(rows))) by {
        assert forall|x: RankedRowView| #[trigger]
            other.filter(tied_with(x)) == ranked(rows).filter(tied_with(x)) by {
            assert(other.filter(tied_with(x)) == rows.filter(tied_with(x)));
            assert(ranked(rows).filter(tied_with(x)) == rows.filter(tied_with(x)));
        }
    }
    lemma_ranked_agree(other, ranked(rows));
}

/// No two rows are tied.
pub open spec fn no_ties(rows: Seq<RankedRowView>) -> bool {
    forall|i: int, j: int|
        0 <= i < j < rows.len() ==> !tied(#[trigger] rows[i], #[trigger] rows[j])
}

/// Of rows without ties, at most one is tied with a given row.
proof fn lemma_ties_of_untied(rows: Seq<RankedRowView>, x: RankedRowView)
    requires
        no_ties(rows),
    ensures
        (forall|i: int| 0 <= i < rows.len() ==> !tied(#[trigger] rows[i], x)) ==> rows.filter(
            tied_with(x),
        ) == Seq::<RankedRowView>::empty(),
        forall|i: int|
            0 <= i < rows.len() && tied(#[trigger] rows[i], x) ==> rows.filter(tied_with(x))
                == seq![rows[i]],
    decreases rows.len(),
{
    let keep = tied_with(x);
    if rows.len() == 0 {
        reveal(Seq::filter);
    } else {
        let shorter = rows.drop_last();
        let last = rows.last();
        assert(rows =~= shorter.push(last));
        assert(no_ties(shorter)) by {
            assert forall|i: int, j: int| 0 <= i < j < shorter.len() implies !tied(
                #[trigger] shorter[i],
                #[trigger] shorter[j],
            ) by {
                assert(shorter[i] == rows[i] && shorter[j] == rows[j]);
            }
        }
        lemma_ties_of_untied(shorter, x);
        lemma_filter_push(shorter, last, keep);
        if tied(last, x) {
            assert forall|i: int| 0 <= i < shorter.len() implies !tied(
                #[trigger] shorter[i],
                x,
            ) by {
                assert(shorter[i] == rows[i]);
                assert(!tied(rows[i], rows[rows.len() - 1]));
            }
            assert(rows.filter(keep) =~= seq![last]);
            assert forall|i: int| 0 <= i < rows.len() && tied(
                #[trigger] rows[i],
                x,
            ) implies rows.filter(keep) == seq![rows[i]] by {
                if i < shorter.len() {
                    assert(shorter[i] == rows[i]);
                }
            }
        } else {
            assert forall|i: int| 0 <= i < rows.len() && tied(
                #[trigger] rows[i],
                x,
            ) implies rows.filter(keep) == seq![rows[i]] by {
                assert(shorter[i] == rows[i]);
            }
            if forall|i: int| 0 <= i < rows.len() ==> !tied(#[trigger] rows[i], x) {
                assert forall|i: int| 0 <= i < shorter.len() implies !tied(
                    #[trigger] shorter[i],
                    x,
                ) by {
                    assert(shorter[i] == rows[i]);
                }
            }
        }
    }
}

/// Where no two rows are tied, the ranking does not depend on the order in
/// which the rows are given: two lists of the same rows have one ranking.
pub proof fn lemma_ranking_ignores_order(a: Seq<RankedRowView>, b: Seq<RankedRowView>)
    requires
        no_ties(a),
        no_ties(b),
        forall|i: int| 0 <= i < a.len() ==> b.contains(#[trigger] a[i]),
        forall|j: int| 0 <= j < b.len() ==> a.contains(#[trigger] b[j]),
    ensures
        ranked(a) == ranked(b),
{
    lemma_ranked_is_ranked(b);
    lemma_ranked_keeps_ties(b);
    assert(same_ties(ranked(b), a)) by {
        assert forall|x: RankedRowView| #[trigger]
            ranked(b).filter(tied_with(x)) == a.filter(tied_with(x)) by {
            assert(ranked(b).filter(tied_with(x)) == b.filter(tied_with(x)));
            lemma_ties_of_untied(a, x);
            lemma_ties_of_untied(b, x);
            if exists|i: int| 0 <= i < a.len() && tied(#[trigger] a[i], x) {
                let i = choose|i: int| 0 <= i < a.len() && tied(#[trigger] a[i], x);
                assert(b.contains(a[i]));
                let j = choose|j: int| 0 <= j < b.len() && b[j] == a[i];
                assert(tied(b[j], x));
            } else {
                assert forall|j: int| 0 <= j < b.len() implies !tied(#[trigger] b[j], x) by {
                    assert(a.contains(b[j]));
                    let i = choose|i: int| 0 <= i < a.len() && a[i] == b[j];
                    assert(!tied(a[i], x));
                }
            }
        }
    }
    lemma_ranking_is_unique(a, ranked(b));
}

/// Every row of the ranking is one of the rows given, and every row given is
/// in the ranking.
pub proof fn lemma_ranked_has_same_rows(rows: Seq<RankedRowView>)
    ensures
        forall|k: int| 0 <= k < ranked(rows).len() ==> rows.contains(#[trigger] ranked(rows)[k]),
        forall|i: int| 0 <= i < rows.len() ==> ranked(rows).contains(#[trigger] rows[i]),
{
    broadcast use vstd::seq_lib::group_to_multiset_ensures;

    lemma_ranked_is_rearrangement(rows);
    let out = ranked(rows);
    assert forall|k: int| 0 <= k < out.len() implies rows.contains(#[trigger] out[k]) by {
        assert(out.contains(out[k]));
        assert(out.to_multiset().count(out[k]) > 0);
    }
    assert forall|i: int| 0 <= i < rows.len() implies out.contains(#[trigger] rows[i]) by {
        assert(rows.contains(rows[i]));
        assert(rows.to_multiset().count(rows[i]) > 0);
    }
}

} // verus!
