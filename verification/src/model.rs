//! The records that the sources hand over and the rows that come out.
//!
//! Each type that holds text has a view in which the text is a sequence of
//! characters; the contracts of this crate speak of those views.

use vstd::prelude::*;
use crate::score::Binary32;

verus! {

/// A champion as the catalog lists it.
#[derive(Clone, Debug, PartialEq, Eq)]
pub struct CatalogEntry {
    /// The champion's identity, a decimal number written out.
    pub key: String,
    /// The champion's name, by which the win-rate table is keyed.
    pub name: String,
}

/// The view of a [`CatalogEntry`].
pub struct CatalogEntryView {
    pub key: Seq<char>,
    pub name: Seq<char>,
}

impl DeepView for CatalogEntry {
    type V = CatalogEntryView;

    open spec fn deep_view(&self) -> CatalogEntryView {
        CatalogEntryView { key: self.key@, name: self.name@ }
    }
}

/// The player's mastery of one champion. A champion never played has no
/// record.
#[derive(Clone, Copy, Debug, PartialEq, Eq, Structural)]
pub struct MasteryRecord {
    pub champion_id: i32,
    pub points: i32,
}

/// One challenge and the champions with which the player has completed it.
#[derive(Clone, Debug, PartialEq, Eq)]
pub struct ChallengeCompletion {
    pub challenge_id: String,
    pub completed_ids: Vec<i32>,
}

/// The view of a [`ChallengeCompletion`].
pub struct ChallengeCompletionView {
    pub challenge_id: Seq<char>,
    pub completed_ids: Seq<i32>,
}

impl DeepView for ChallengeCompletion {
    type V = ChallengeCompletionView;

    open spec fn deep_view(&self) -> ChallengeCompletionView {
        ChallengeCompletionView {
            challenge_id: self.challenge_id@,
            completed_ids: self.completed_ids@,
        }
    }
}

/// One line of the win-rate table.
#[derive(Clone, Debug, PartialEq, Eq)]
pub struct WinrateRecord {
    pub name: String,
    pub win_rate: Binary32,
}

/// The view of a [`WinrateRecord`].
pub struct WinrateRecordView {
    pub name: Seq<char>,
    pub win_rate: Binary32,
}

impl DeepView for WinrateRecord {
    type V = WinrateRecordView;

    open spec fn deep_view(&self) -> WinrateRecordView {
        WinrateRecordView { name: self.name@, win_rate: self.win_rate }
    }
}

/// One champion for which every source had an answer.
#[derive(Clone, Debug, PartialEq, Eq)]
pub struct RankedRow {
    /// The catalog key as an integer.
    pub id: i32,
    /// Where the champion's square portrait is found.
    pub img: String,
    pub name: String,
    pub winrate: Binary32,
    pub mastery: i32,
    /// The champion is among those of the challenge [`ADAPT_TO_ALL_SITUATIONS`].
    pub won: bool,
    /// The champion is among those of the challenge [`CHAMPION_OCEAN`].
    pub played: bool,
    /// The score by which the row is ranked, once it has one.
    pub score: Option<Binary32>,
}

/// The view of a [`RankedRow`].
pub struct RankedRowView {
    pub id: i32,
    pub img: Seq<char>,
    pub name: Seq<char>,
    pub winrate: Binary32,
    pub mastery: i32,
    pub won: bool,
    pub played: bool,
    pub score: Option<Binary32>,
}

impl DeepView for RankedRow {
    type V = RankedRowView;

    open spec fn deep_view(&self) -> RankedRowView {
        RankedRowView {
            id: self.id,
            img: self.img@,
            name: self.name@,
            winrate: self.winrate,
            mastery: self.mastery,
            won: self.won,
            played: self.played,
            score: self.score,
        }
    }
}

/// The challenge that a champion completes by being played.
pub const CHAMPION_OCEAN: &'static str = "602001";

/// The challenge that a champion completes by winning.
pub const ADAPT_TO_ALL_SITUATIONS: &'static str = "602002";

/// What stands before the key in a portrait's address.
pub const PORTRAIT_PREFIX: &'static str = "https://cdn.communitydragon.org/latest/champion/";

/// What stands behind the key in a portrait's address.
pub const PORTRAIT_SUFFIX: &'static str = "/square";

/// The address of the portrait of the champion with the given key.
pub open spec fn portrait_address(key: Seq<char>) -> Seq<char> {
    PORTRAIT_PREFIX@ + key + PORTRAIT_SUFFIX@
}

/// Builds the address of a champion's portrait from the catalog key. Nothing
/// is fetched.
pub fn portrait(key: &str) -> (address: String)
    ensures
        address@ == portrait_address(key@),
{
    let mut address = PORTRAIT_PREFIX.to_owned();
    address.append(key);
    address.append(PORTRAIT_SUFFIX);
    address
}

} // verus!
