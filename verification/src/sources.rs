//! The three sources as tables, and how a champion is looked up in each.
//!
//! A source hands over a list of records. As a table the list maps each key
//! to the value of the last record that has it: a later record replaces an
//! earlier one with the same key.

use std::collections::HashMap;
use vstd::prelude::*;
use vstd::std_specs::hash::*;
use crate::model::{
    ChallengeCompletion,
    ChallengeCompletionView,
    MasteryRecord,
    WinrateRecord,
    WinrateRecordView,
};
use crate::score::Binary32;

verus! {

/// The win rates by champion name.
pub open spec fn winrate_table(records: Seq<WinrateRecordView>) -> Map<Seq<char>, Binary32>
    decreases records.len(),
{
    if records.len() == 0 {
        Map::empty()
    } else {
        winrate_table(records.drop_last()).insert(records.last().name, records.last().win_rate)
    }
}

/// The mastery points by champion identity.
pub open spec fn mastery_table(records: Seq<MasteryRecord>) -> Map<i32, i32>
    decreases records.len(),
{
    if records.len() == 0 {
        Map::empty()
    } else {
        mastery_table(records.drop_last()).insert(
            records.last().champion_id,
            records.last().points,
        )
    }
}

/// The champions that completed each challenge, by the challenge's identity.
pub open spec fn challenge_table(records: Seq<ChallengeCompletionView>) -> Map<
    Seq<char>,
    Set<i32>,
>
    decreases records.len(),
{
    if records.len() == 0 {
        Map::empty()
    } else {
        challenge_table(records.drop_last()).insert(
            records.last().challenge_id,
            records.last().completed_ids.to_set(),
        )
    }
}

/// Looks a champion's win rate up by name.
pub fn find_winrate(records: &Vec<WinrateRecord>, name: &String) -> (found: Option<Binary32>)
    ensures
        found == winrate_table(records.deep_view()).get(name@),
{
    let ghost all = records.deep_view();
    let mut found: Option<Binary32> = None;
    let mut i: usize = 0;
    while i < records.len()
        invariant
            0 <= i <= records.len(),
            all == records.deep_view(),
            found == winrate_table(all.take(i as int)).get(name@),
        decreases records.len() - i,
    {
        proof {
            assert(all.take(i + 1).drop_last() =~= all.take(i as int));
            assert(all.take(i + 1).last() == records[i as int].deep_view());
        }
        if records[i].name == *name {
            found = Some(records[i].win_rate);
        }
        i = i + 1;
    }
    assert(all.take(i as int) =~= all);
    found
}

/// Gathers the mastery records into a map from identity to points.
pub fn index_mastery(records: &Vec<MasteryRecord>) -> (table: HashMap<i32, i32>)
    ensures
        table@ == mastery_table(records@),
{
    broadcast use group_hash_axioms;

    let mut table: HashMap<i32, i32> = HashMap::new();
    let mut i: usize = 0;
    while i < records.len()
        invariant
            0 <= i <= records.len(),
            table@ == mastery_table(records@.take(i as int)),
        decreases records.len() - i,
    {
        proof {
            assert(records@.take(i + 1).drop_last() =~= records@.take(i as int));
        }
        table.insert(records[i].champion_id, records[i].points);
        i = i + 1;
    }
    assert(records@.take(i as int) =~= records@);
    table
}

/// Looks a champion's mastery points up by identity.
pub fn find_mastery(table: &HashMap<i32, i32>, id: i32) -> (found: Option<i32>)
    ensures
        found == table@.get(id),
{
    broadcast use group_hash_axioms;

    match table.get(&id) {
        Some(points) => Some(*points),
        None => None,
    }
}

/// Looks up the champions that completed a challenge.
pub fn find_challenge<'a>(records: &'a Vec<ChallengeCompletion>, challenge_id: &String) -> (found:
    Option<&'a Vec<i32>>)
    ensures
        match found {
            Some(ids) => challenge_table(records.deep_view()).get(challenge_id@) == Some(
                ids@.to_set(),
            ),
            None => challenge_table(records.deep_view()).get(challenge_id@) is None,
        },
{
    let ghost all = records.deep_view();
    let mut found: Option<&'a Vec<i32>> = None;
    let mut i: usize = 0;
    while i < records.len()
        invariant
            0 <= i <= records.len(),
            all == records.deep_view(),
            match found {
                Some(ids) => challenge_table(all.take(i as int)).get(challenge_id@) == Some(
                    ids@.to_set(),
                ),
                None => challenge_table(all.take(i as int)).get(challenge_id@) is None,
            },
        decreases records.len() - i,
    {
        proof {
            assert(all.take(i + 1).drop_last() =~= all.take(i as int));
            assert(all.take(i + 1).last() == records[i as int].deep_view());
        }
        if records[i].challenge_id == *challenge_id {
            found = Some(&records[i].completed_ids);
        }
        i = i + 1;
    }
    assert(all.take(i as int) =~= all);
    found
}

/// Whether `id` is among `ids`.
pub fn contains_id(ids: &Vec<i32>, id: i32) -> (present: bool)
    ensures
        present == ids@.to_set().contains(id),
{
    let mut i: usize = 0;
    while i < ids.len()
        invariant
            0 <= i <= ids.len(),
            forall|j: int| 0 <= j < i ==> ids@[j] != id,
        decreases ids.len() - i,
    {
        if ids[i] == id {
            assert(ids@.contains(id));
            return true;
        }
        i = i + 1;
    }
    assert(!ids@.contains(id));
    false
}

} // verus!
