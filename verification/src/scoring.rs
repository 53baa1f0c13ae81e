//! Giving rows their scores.
//!
//! A score is the win rate times the base-two logarithm of the mastery
//! points. The multiplication is done by the caller, in floating point; this
//! module says which numbers to multiply and decides what each product is
//! worth.

use vstd::prelude::*;
use crate::model::{RankedRow, RankedRowView};
use crate::score::{mastery_win_score, score_of, Binary32};

verus! {

/// What the caller multiplies for one row: the win rate, and the mastery
/// points of which it takes the logarithm.
#[derive(Clone, Copy, Debug, PartialEq, Eq, Structural)]
pub struct Factors {
    pub winrate: Binary32,
    pub mastery: i32,
}

/// The factors of each row, in the rows' order.
pub open spec fn factors_of(rows: Seq<RankedRowView>) -> Seq<Factors> {
    Seq::new(rows.len(), |k: int| Factors { winrate: rows[k].winrate, mastery: rows[k].mastery })
}

/// The row with the score that its product is worth.
pub open spec fn scored_row(row: RankedRowView, product: Binary32) -> RankedRowView {
    RankedRowView {
        id: row.id,
        img: row.img,
        name: row.name,
        winrate: row.winrate,
        mastery: row.mastery,
        won: row.won,
        played: row.played,
        score: Some(score_of(row.mastery, product)),
    }
}

/// The rows, each with the score that the product at its position is worth.
/// A row for which there is no product stays as it is.
pub open spec fn scored_rows(rows: Seq<RankedRowView>, products: Seq<Binary32>) -> Seq<
    RankedRowView,
> {
    Seq::new(
        rows.len(),
        |k: int|
            if k < products.len() {
                scored_row(rows[k], products[k])
            } else {
                rows[k]
            },
    )
}

/// Lists what is to be multiplied for each row.
pub fn factors(rows: &Vec<RankedRow>) -> (list: Vec<Factors>)
    ensures
        list@ == factors_of(rows.deep_view()),
{
    let mut list: Vec<Factors> = Vec::new();
    let mut i: usize = 0;
    while i < rows.len()
        invariant
            0 <= i <= rows.len(),
            list@ == factors_of(rows.deep_view()).take(i as int),
        decreases rows.len() - i,
    {
        list.push(Factors { winrate: rows[i].winrate, mastery: rows[i].mastery });
        assert(list@ =~= factors_of(rows.deep_view()).take(i + 1));
        i = i + 1;
    }
    assert(list@ =~= factors_of(rows.deep_view()));
    list
}

/// Gives each row the score that its product is worth: zero up to one
/// mastery point, the product from two points on. The product of a row is
/// the one at the row's position; a row without one is handed back
/// unchanged, and products beyond the last row are not read.
pub fn score_rows(rows: Vec<RankedRow>, products: &Vec<Binary32>) -> (out: Vec<RankedRow>)
    ensures
        out.deep_view() == scored_rows(rows.deep_view(), products@),
{
    let ghost given = rows.deep_view();
    let ghost items = rows@;
    let ghost wanted = scored_rows(given, products@);
    let mut out: Vec<RankedRow> = Vec::new();
    assert(out.deep_view() =~= wanted.take(0));
    for row in it: rows.into_iter()
        invariant
            it.seq() == items,
            given.len() == items.len(),
            forall|k: int| 0 <= k < items.len() ==> given[k] == (#[trigger] items[k]).deep_view(),
            wanted == scored_rows(given, products@),
            out.len() == it.index(),
            out.deep_view() == wanted.take(it.index() as int),
    {
        let ghost k = it.index() as int;
        let ghost before = out.deep_view();
        let at: usize = out.len();
        let score = if at < products.len() {
            Some(mastery_win_score(row.mastery, products[at]))
        } else {
            row.score
        };
        let next = RankedRow {
            id: row.id,
            img: row.img,
            name: row.name,
            winrate: row.winrate,
            mastery: row.mastery,
            won: row.won,
            played: row.played,
            score,
        };
        assert(next.deep_view() == wanted[k]);
        out.push(next);
        assert(out.deep_view() =~= wanted.take(k + 1));
    }
    assert(wanted.take(given.len() as int) =~= wanted);
    out
}

} // verus!
