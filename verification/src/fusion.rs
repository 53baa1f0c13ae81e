//! The join: one row for each champion of the catalog for which the win-rate
//! table, the mastery records and both challenges have an answer, and no row
//! for any other.

use std::collections::HashMap;
use vstd::prelude::*;
use crate::identity::{resolve_id, resolved_id};
use crate::model::{
    portrait,
    portrait_address,
    CatalogEntry,
    CatalogEntryView,
    ChallengeCompletion,
    MasteryRecord,
    RankedRow,
    RankedRowView,
    WinrateRecord,
    ADAPT_TO_ALL_SITUATIONS,
    CHAMPION_OCEAN,
};
use crate::score::Binary32;
use crate::sources::{
    challenge_table,
    contains_id,
    find_challenge,
    find_mastery,
    find_winrate,
    index_mastery,
    mastery_table,
    winrate_table,
};

verus! {

/// Every source has an answer for the champion with this name and identity.
pub open spec fn is_complete(
    name: Seq<char>,
    id: i32,
    winrates: Map<Seq<char>, Binary32>,
    mastery: Map<i32, i32>,
    challenges: Map<Seq<char>, Set<i32>>,
) -> bool {
    &&& winrates.contains_key(name)
    &&& mastery.contains_key(id)
    &&& challenges.contains_key(ADAPT_TO_ALL_SITUATIONS@)
    &&& challenges.contains_key(CHAMPION_OCEAN@)
}

/// The row of one catalog entry, or `None` where the key is no identity or a
/// source has no answer. A row is never filled with a default.
pub open spec fn fused_row(
    entry: CatalogEntryView,
    winrates: Map<Seq<char>, Binary32>,
    mastery: Map<i32, i32>,
    challenges: Map<Seq<char>, Set<i32>>,
) -> Option<RankedRowView> {
    match resolved_id(entry.key) {
        Some(id) => if is_complete(entry.name, id, winrates, mastery, challenges) {
            Some(
                RankedRowView {
                    id,
                    img: portrait_address(entry.key),
                    name: entry.name,
                    winrate: winrates[entry.name],
                    mastery: mastery[id],
                    won: challenges[ADAPT_TO_ALL_SITUATIONS@].contains(id),
                    played: challenges[CHAMPION_OCEAN@].contains(id),
                    score: None,
                },
            )
        } else {
            None
        },
        None => None,
    }
}

/// The rows of a catalog, in the catalog's order.
pub open spec fn fused_rows(
    catalog: Seq<CatalogEntryView>,
    winrates: Map<Seq<char>, Binary32>,
    mastery: Map<i32, i32>,
    challenges: Map<Seq<char>, Set<i32>>,
) -> Seq<RankedRowView>
    decreases catalog.len(),
{
    if catalog.len() == 0 {
        Seq::empty()
    } else {
        let before = fused_rows(catalog.drop_last(), winrates, mastery, challenges);
        match fused_row(catalog.last(), winrates, mastery, challenges) {
            Some(row) => before.push(row),
            None => before,
        }
    }
}

/// Joins one catalog entry with the sources.
pub fn fuse_entry(
    entry: &CatalogEntry,
    winrates: &Vec<WinrateRecord>,
    mastery: &HashMap<i32, i32>,
    challenges: &Vec<ChallengeCompletion>,
) -> (row: Option<RankedRow>)
    ensures
        row.deep_view() == fused_row(
            entry.deep_view(),
            winrate_table(winrates.deep_view()),
            mastery@,
            challenge_table(challenges.deep_view()),
        ),
{
    let id = match resolve_id(entry.key.as_str()) {
        Some(id) => id,
        None => { return None; },
    };
    let winrate = match find_winrate(winrates, &entry.name) {
        Some(winrate) => winrate,
        None => { return None; },
    };
    let points = match find_mastery(mastery, id) {
        Some(points) => points,
        None => { return None; },
    };
    let adapt = ADAPT_TO_ALL_SITUATIONS.to_owned();
    let winners = match find_challenge(challenges, &adapt) {
        Some(ids) => ids,
        None => { return None; },
    };
    let ocean = CHAMPION_OCEAN.to_owned();
    let players = match find_challenge(challenges, &ocean) {
        Some(ids) => ids,
        None => { return None; },
    };
    Some(
        RankedRow {
            id,
            img: portrait(entry.key.as_str()),
            name: entry.name.clone(),
            winrate,
            mastery: points,
            won: contains_id(winners, id),
            played: contains_id(players, id),
            score: None,
        },
    )
}

/// Joins the catalog with the three sources. The rows come in the catalog's
/// order and carry no score yet.
pub fn fuse(
    catalog: &Vec<CatalogEntry>,
    winrates: &Vec<WinrateRecord>,
    mastery: &Vec<MasteryRecord>,
    challenges: &Vec<ChallengeCompletion>,
) -> (rows: Vec<RankedRow>)
    ensures
        rows.deep_view() == fused_rows(
            catalog.deep_view(),
            winrate_table(winrates.deep_view()),
            mastery_table(mastery@),
            challenge_table(challenges.deep_view()),
        ),
{
    let points = index_mastery(mastery);
    let ghost entries = catalog.deep_view();
    let ghost w = winrate_table(winrates.deep_view());
    let ghost m = mastery_table(mastery@);
    let ghost c = challenge_table(challenges.deep_view());
    let mut rows: Vec<RankedRow> = Vec::new();
    let mut i: usize = 0;
    assert(rows.deep_view() =~= Seq::empty());
    while i < catalog.len()
        invariant
            0 <= i <= catalog.len(),
            entries == catalog.deep_view(),
            w == winrate_table(winrates.deep_view()),
            m == points@,
            c == challenge_table(challenges.deep_view()),
            rows.deep_view() == fused_rows(entries.take(i as int), w, m, c),
        decreases catalog.len() - i,
    {
        proof {
            assert(entries.take(i + 1).drop_last() =~= entries.take(i as int));
            assert(entries.take(i + 1).last() == catalog[i as int].deep_view());
        }
        let ghost before = rows.deep_view();
        match fuse_entry(&catalog[i], winrates, &points, challenges) {
            Some(row) => {
                rows.push(row);
                assert(rows.deep_view() =~= before.push(row.deep_view()));
            },
            None => {},
        }
        i = i + 1;
    }
    assert(entries.take(i as int) =~= entries);
    rows
}

/// Every row is the row of some catalog entry.
pub proof fn lemma_row_has_entry(
    catalog: Seq<CatalogEntryView>,
    winrates: Map<Seq<char>, Binary32>,
    mastery: Map<i32, i32>,
    challenges: Map<Seq<char>, Set<i32>>,
    k: int,
) -> (i: int)
    requires
        0 <= k < fused_rows(catalog, winrates, mastery, challenges).len(),
    ensures
        0 <= i < catalog.len(),
        fused_row(catalog[i], winrates, mastery, challenges) == Some(
            fused_rows(catalog, winrates, mastery, challenges)[k],
        ),
    decreases catalog.len(),
{
    let before = fused_rows(catalog.drop_last(), winrates, mastery, challenges);
    if k < before.len() {
        lemma_row_has_entry(catalog.drop_last(), winrates, mastery, challenges, k)
    } else {
        catalog.len() - 1
    }
}

/// Every catalog entry that has a row has it among the rows.
pub proof fn lemma_entry_has_row(
    catalog: Seq<CatalogEntryView>,
    winrates: Map<Seq<char>, Binary32>,
    mastery: Map<i32, i32>,
    challenges: Map<Seq<char>, Set<i32>>,
    i: int,
) -> (k: int)
    requires
        0 <= i < catalog.len(),
        fused_row(catalog[i], winrates, mastery, challenges) is Some,
    ensures
        0 <= k < fused_rows(catalog, winrates, mastery, challenges).len(),
        fused_row(catalog[i], winrates, mastery, challenges) == Some(
            fused_rows(catalog, winrates, mastery, challenges)[k],
        ),
    decreases catalog.len(),
{
    let before = fused_rows(catalog.drop_last(), winrates, mastery, challenges);
    if i == catalog.len() - 1 {
        before.len() as int
    } else {
        lemma_entry_has_row(catalog.drop_last(), winrates, mastery, challenges, i)
    }
}

/// Nothing in a row is a default: the win rate and the mastery points are
/// those that the tables hold for the row's name and identity, and `won` and
/// `played` say whether the identity is in the set that the table of
/// challenges holds for the one challenge and for the other.
pub proof fn lemma_row_is_derived(
    catalog: Seq<CatalogEntryView>,
    winrates: Map<Seq<char>, Binary32>,
    mastery: Map<i32, i32>,
    challenges: Map<Seq<char>, Set<i32>>,
    k: int,
)
    requires
        0 <= k < fused_rows(catalog, winrates, mastery, challenges).len(),
    ensures
        ({
            let row = fused_rows(catalog, winrates, mastery, challenges)[k];
            &&& is_complete(row.name, row.id, winrates, mastery, challenges)
            &&& row.winrate == winrates[row.name]
            &&& row.mastery == mastery[row.id]
            &&& row.won == challenges[ADAPT_TO_ALL_SITUATIONS@].contains(row.id)
            &&& row.played == challenges[CHAMPION_OCEAN@].contains(row.id)
            &&& row.score is None
        }),
{
    let i = lemma_row_has_entry(catalog, winrates, mastery, challenges, k);
}

/// A champion whose name the win-rate table does not hold has no row: its
/// entry gives none, and no row carries its name.
pub proof fn lemma_no_winrate_no_row(
    catalog: Seq<CatalogEntryView>,
    winrates: Map<Seq<char>, Binary32>,
    mastery: Map<i32, i32>,
    challenges: Map<Seq<char>, Set<i32>>,
    i: int,
)
    requires
        0 <= i < catalog.len(),
        !winrates.contains_key(catalog[i].name),
    ensures
        fused_row(catalog[i], winrates, mastery, challenges) is None,
        forall|k: int|
            0 <= k < fused_rows(catalog, winrates, mastery, challenges).len() ==> (
            #[trigger] fused_rows(catalog, winrates, mastery, challenges)[k]).name
                != catalog[i].name,
{
    assert forall|k: int|
        0 <= k < fused_rows(catalog, winrates, mastery, challenges).len() implies (
    #[trigger] fused_rows(catalog, winrates, mastery, challenges)[k]).name
        != catalog[i].name by {
        lemma_row_is_derived(catalog, winrates, mastery, challenges, k);
    }
}

/// A champion for whose identity there is no mastery record has no row: its
/// entry gives none, and no row carries its identity.
pub proof fn lemma_no_mastery_no_row(
    catalog: Seq<CatalogEntryView>,
    winrates: Map<Seq<char>, Binary32>,
    mastery: Map<i32, i32>,
    challenges: Map<Seq<char>, Set<i32>>,
    i: int,
)
    requires
        0 <= i < catalog.len(),
        match resolved_id(catalog[i].key) {
            Some(id) => !mastery.contains_key(id),
            None => true,
        },
    ensures
        fused_row(catalog[i], winrates, mastery, challenges) is None,
        forall|k: int|
            0 <= k < fused_rows(catalog, winrates, mastery, challenges).len() ==> Some(
                (#[trigger] fused_rows(catalog, winrates, mastery, challenges)[k]).id,
            ) != resolved_id(catalog[i].key),
{
    assert forall|k: int|
        0 <= k < fused_rows(catalog, winrates, mastery, challenges).len() implies Some(
        (#[trigger] fused_rows(catalog, winrates, mastery, challenges)[k]).id,
    ) != resolved_id(catalog[i].key) by {
        lemma_row_is_derived(catalog, winrates, mastery, challenges, k);
    }
}

/// Where the table of challenges lacks one of the two challenges, there is
/// no row at all: no champion is marked as not having won, or not having
/// played, for want of the challenge.
pub proof fn lemma_no_challenge_no_rows(
    catalog: Seq<CatalogEntryView>,
    winrates: Map<Seq<char>, Binary32>,
    mastery: Map<i32, i32>,
    challenges: Map<Seq<char>, Set<i32>>,
)
    requires
        !challenges.contains_key(ADAPT_TO_ALL_SITUATIONS@) || !challenges.contains_key(
            CHAMPION_OCEAN@,
        ),
    ensures
        fused_rows(catalog, winrates, mastery, challenges).len() == 0,
{
    if fused_rows(catalog, winrates, mastery, challenges).len() > 0 {
        lemma_row_is_derived(catalog, winrates, mastery, challenges, 0);
    }
}

} // verus!
