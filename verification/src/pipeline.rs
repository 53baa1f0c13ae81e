//! One computation of the ranked table, step by step.
//!
//! The sources are asked one after the other: mastery, challenges, win rates,
//! the versions of the catalog, the catalog itself. Asking is the caller's
//! work. This module says at each stage what to ask for next, takes the
//! reply, and decides how the computation goes on: the first source that
//! fails ends it with that source's error, and no later source is asked.
//! When all have answered, the rows are joined, the caller multiplies, and
//! the scored rows are ranked.

use vstd::prelude::*;
use crate::fusion::{fuse, fused_rows, is_complete, lemma_row_is_derived};
use crate::model::{
    ADAPT_TO_ALL_SITUATIONS,
    CHAMPION_OCEAN,
    CatalogEntry,
    CatalogEntryView,
    ChallengeCompletion,
    ChallengeCompletionView,
    MasteryRecord,
    RankedRow,
    RankedRowView,
    WinrateRecord,
    WinrateRecordView,
};
use crate::ranker::{
    is_ranked,
    lemma_ranked_has_same_rows,
    lemma_ranked_is_ranked,
    lemma_ranked_is_rearrangement,
    lemma_ranking_is_unique,
    rank,
    rank_of,
    ranked,
    same_ties,
};
use crate::score::Binary32;
use crate::scoring::{factors, factors_of, score_rows, scored_rows, Factors};
use crate::sources::{challenge_table, mastery_table, winrate_table};

verus! {

/// Why a computation gave no table.
#[derive(Clone, Copy, Debug, PartialEq, Eq, Structural)]
pub enum RankingError {
    /// The mastery records could not be fetched.
    MasteryFetchFailed,
    /// The challenges could not be fetched.
    ChallengesFetchFailed,
    /// The list of catalog versions could not be fetched.
    VersionFetchFailed,
    /// The list of catalog versions was empty.
    NoVersionsFound,
    /// The catalog could not be fetched.
    ChampionDataFetchFailed,
}

impl RankingError {
    /// The tag of this error.
    pub open spec fn spec_tag(self) -> Seq<char> {
        match self {
            RankingError::MasteryFetchFailed => "mastery-fetch-failed"@,
            RankingError::ChallengesFetchFailed => "challenges-fetch-failed"@,
            RankingError::VersionFetchFailed => "version-fetch-failed"@,
            RankingError::NoVersionsFound => "no-versions-found"@,
            RankingError::ChampionDataFetchFailed => "champion-data-fetch-failed"@,
        }
    }

    /// The sentence that tells a user of this error.
    pub open spec fn spec_message(self) -> Seq<char> {
        match self {
            RankingError::MasteryFetchFailed => "Failed to fetch champion mastery"@,
            RankingError::ChallengesFetchFailed => "Failed to fetch challenges"@,
            RankingError::VersionFetchFailed => "Failed to fetch versions"@,
            RankingError::NoVersionsFound => "No versions found"@,
            RankingError::ChampionDataFetchFailed => "Failed to fetch champion data"@,
        }
    }

    /// The tag by which a program tells the errors apart.
    pub fn tag(self) -> (text: &'static str)
        ensures
            text@ == self.spec_tag(),
    {
        match self {
            RankingError::MasteryFetchFailed => "mastery-fetch-failed",
            RankingError::ChallengesFetchFailed => "challenges-fetch-failed",
            RankingError::VersionFetchFailed => "version-fetch-failed",
            RankingError::NoVersionsFound => "no-versions-found",
            RankingError::ChampionDataFetchFailed => "champion-data-fetch-failed",
        }
    }

    /// The sentence that tells a user of the error.
    pub fn message(self) -> (text: &'static str)
        ensures
            text@ == self.spec_message(),
    {
        match self {
            RankingError::MasteryFetchFailed => "Failed to fetch champion mastery",
            RankingError::ChallengesFetchFailed => "Failed to fetch challenges",
            RankingError::VersionFetchFailed => "Failed to fetch versions",
            RankingError::NoVersionsFound => "No versions found",
            RankingError::ChampionDataFetchFailed => "Failed to fetch champion data",
        }
    }
}

/// How far a computation has come, with what it has gathered.
#[derive(Clone, Debug, PartialEq, Eq)]
pub enum Stage {
    NeedMastery,
    NeedChallenges { mastery: Vec<MasteryRecord> },
    NeedWinrates { mastery: Vec<MasteryRecord>, challenges: Vec<ChallengeCompletion> },
    NeedVersions {
        mastery: Vec<MasteryRecord>,
        challenges: Vec<ChallengeCompletion>,
        winrates: Vec<WinrateRecord>,
    },
    NeedCatalog {
        mastery: Vec<MasteryRecord>,
        challenges: Vec<ChallengeCompletion>,
        winrates: Vec<WinrateRecord>,
        version: String,
    },
    NeedProducts { rows: Vec<RankedRow> },
    /// The end: the table.
    Ranked { rows: Vec<RankedRow> },
    /// The end: no table.
    Failed { error: RankingError },
}

/// The view of a [`Stage`].
pub enum StageView {
    NeedMastery,
    NeedChallenges { mastery: Seq<MasteryRecord> },
    NeedWinrates { mastery: Seq<MasteryRecord>, challenges: Seq<ChallengeCompletionView> },
    NeedVersions {
        mastery: Seq<MasteryRecord>,
        challenges: Seq<ChallengeCompletionView>,
        winrates: Seq<WinrateRecordView>,
    },
    NeedCatalog {
        mastery: Seq<MasteryRecord>,
        challenges: Seq<ChallengeCompletionView>,
        winrates: Seq<WinrateRecordView>,
        version: Seq<char>,
    },
    NeedProducts { rows: Seq<RankedRowView> },
    Ranked { rows: Seq<RankedRowView> },
    Failed { error: RankingError },
}

impl DeepView for Stage {
    type V = StageView;

    open spec fn deep_view(&self) -> StageView {
        match self {
            Stage::NeedMastery => StageView::NeedMastery,
            Stage::NeedChallenges { mastery } => StageView::NeedChallenges { mastery: mastery@ },
            Stage::NeedWinrates { mastery, challenges } => StageView::NeedWinrates {
                mastery: mastery@,
                challenges: challenges.deep_view(),
            },
            Stage::NeedVersions { mastery, challenges, winrates } => StageView::NeedVersions {
                mastery: mastery@,
                challenges: challenges.deep_view(),
                winrates: winrates.deep_view(),
            },
            Stage::NeedCatalog { mastery, challenges, winrates, version } => StageView::NeedCatalog {
                mastery: mastery@,
                challenges: challenges.deep_view(),
                winrates: winrates.deep_view(),
                version: version@,
            },
            Stage::NeedProducts { rows } => StageView::NeedProducts { rows: rows.deep_view() },
            Stage::Ranked { rows } => StageView::Ranked { rows: rows.deep_view() },
            Stage::Failed { error } => StageView::Failed { error: *error },
        }
    }
}

/// What a source answered. `None` stands for a source that failed.
#[derive(Clone, Debug, PartialEq, Eq)]
pub enum Reply {
    Mastery(Option<Vec<MasteryRecord>>),
    Challenges(Option<Vec<ChallengeCompletion>>),
    Winrates(Vec<WinrateRecord>),
    /// The versions of the catalog, the latest first.
    Versions(Option<Vec<String>>),
    Catalog(Option<Vec<CatalogEntry>>),
    /// For each row, in the rows' order, the win rate times the base-two
    /// logarithm of the mastery points.
    Products(Vec<Binary32>),
}

/// The view of a [`Reply`].
pub enum ReplyView {
    Mastery(Option<Seq<MasteryRecord>>),
    Challenges(Option<Seq<ChallengeCompletionView>>),
    Winrates(Seq<WinrateRecordView>),
    Versions(Option<Seq<Seq<char>>>),
    Catalog(Option<Seq<CatalogEntryView>>),
    Products(Seq<Binary32>),
}

impl DeepView for Reply {
    type V = ReplyView;

    open spec fn deep_view(&self) -> ReplyView {
        match self {
            Reply::Mastery(Some(records)) => ReplyView::Mastery(Some(records@)),
            Reply::Mastery(None) => ReplyView::Mastery(None),
            Reply::Challenges(Some(records)) => ReplyView::Challenges(Some(records.deep_view())),
            Reply::Challenges(None) => ReplyView::Challenges(None),
            Reply::Winrates(records) => ReplyView::Winrates(records.deep_view()),
            Reply::Versions(Some(versions)) => ReplyView::Versions(Some(versions.deep_view())),
            Reply::Versions(None) => ReplyView::Versions(None),
            Reply::Catalog(Some(entries)) => ReplyView::Catalog(Some(entries.deep_view())),
            Reply::Catalog(None) => ReplyView::Catalog(None),
            Reply::Products(products) => ReplyView::Products(products@),
        }
    }
}

/// What the caller is to do next.
#[derive(Clone, Debug, PartialEq, Eq)]
pub enum Request {
    FetchMastery,
    FetchChallenges,
    LoadWinrates,
    FetchVersions,
    /// Fetch the catalog of this version.
    FetchCatalog { version: String },
    /// Multiply, for each of these, the win rate by the base-two logarithm of
    /// the mastery points.
    Multiply { factors: Vec<Factors> },
    /// Nothing: the computation has ended.
    Stop,
}

/// The view of a [`Request`].
pub enum RequestView {
    FetchMastery,
    FetchChallenges,
    LoadWinrates,
    FetchVersions,
    FetchCatalog { version: Seq<char> },
    Multiply { factors: Seq<Factors> },
    Stop,
}

impl DeepView for Request {
    type V = RequestView;

    open spec fn deep_view(&self) -> RequestView {
        match self {
            Request::FetchMastery => RequestView::FetchMastery,
            Request::FetchChallenges => RequestView::FetchChallenges,
            Request::LoadWinrates => RequestView::LoadWinrates,
            Request::FetchVersions => RequestView::FetchVersions,
            Request::FetchCatalog { version } => RequestView::FetchCatalog { version: version@ },
            Request::Multiply { factors } => RequestView::Multiply { factors: factors@ },
            Request::Stop => RequestView::Stop,
        }
    }
}

/// Where a computation starts.
pub open spec fn first_stage() -> StageView {
    StageView::NeedMastery
}

/// What a stage waits for.
pub open spec fn pending(stage: StageView) -> RequestView {
    match stage {
        StageView::NeedMastery => RequestView::FetchMastery,
        StageView::NeedChallenges { .. } => RequestView::FetchChallenges,
        StageView::NeedWinrates { .. } => RequestView::LoadWinrates,
        StageView::NeedVersions { .. } => RequestView::FetchVersions,
        StageView::NeedCatalog { version, .. } => RequestView::FetchCatalog { version },
        StageView::NeedProducts { rows } => RequestView::Multiply { factors: factors_of(rows) },
        StageView::Ranked { .. } => RequestView::Stop,
        StageView::Failed { .. } => RequestView::Stop,
    }
}

/// The stage that follows `stage` on `reply`.
///
/// A source that failed ends the computation with its error; so does an
/// empty list of versions. Of the versions the first is taken. The catalog
/// is joined at once, and the products are turned into scores and the rows
/// ranked at once. A reply that the stage does not wait for changes nothing.
pub open spec fn next(stage: StageView, reply: ReplyView) -> StageView {
    match (stage, reply) {
        (StageView::NeedMastery, ReplyView::Mastery(Some(mastery))) => StageView::NeedChallenges {
            mastery,
        },
        (StageView::NeedMastery, ReplyView::Mastery(None)) => StageView::Failed {
            error: RankingError::MasteryFetchFailed,
        },
        (
            StageView::NeedChallenges { mastery },
            ReplyView::Challenges(Some(challenges)),
        ) => StageView::NeedWinrates { mastery, challenges },
        (StageView::NeedChallenges { .. }, ReplyView::Challenges(None)) => StageView::Failed {
            error: RankingError::ChallengesFetchFailed,
        },
        (
            StageView::NeedWinrates { mastery, challenges },
            ReplyView::Winrates(winrates),
        ) => StageView::NeedVersions { mastery, challenges, winrates },
        (
            StageView::NeedVersions { mastery, challenges, winrates },
            ReplyView::Versions(Some(versions)),
        ) => if versions.len() == 0 {
            StageView::Failed { error: RankingError::NoVersionsFound }
        } else {
            StageView::NeedCatalog { mastery, challenges, winrates, version: versions[0] }
        },
        (StageView::NeedVersions { .. }, ReplyView::Versions(None)) => StageView::Failed {
            error: RankingError::VersionFetchFailed,
        },
        (
            StageView::NeedCatalog { mastery, challenges, winrates, .. },
            ReplyView::Catalog(Some(catalog)),
        ) => StageView::NeedProducts {
            rows: fused_rows(
                catalog,
                winrate_table(winrates),
                mastery_table(mastery),
                challenge_table(challenges),
            ),
        },
        (StageView::NeedCatalog { .. }, ReplyView::Catalog(None)) => StageView::Failed {
            error: RankingError::ChampionDataFetchFailed,
        },
        (StageView::NeedProducts { rows }, ReplyView::Products(products)) => StageView::Ranked {
            rows: ranked(scored_rows(rows, products)),
        },
        (stage, _) => stage,
    }
}

/// What a computation has come to: the table, the error, or nothing yet.
pub open spec fn outcome(stage: StageView) -> Option<Result<Seq<RankedRowView>, RankingError>> {
    match stage {
        StageView::Ranked { rows } => Some(Ok(rows)),
        StageView::Failed { error } => Some(Err(error)),
        _ => None,
    }
}

/// The view of what [`Stage::finish`] returns.
pub open spec fn outcome_view(found: Option<Result<Vec<RankedRow>, RankingError>>) -> Option<
    Result<Seq<RankedRowView>, RankingError>,
> {
    match found {
        Some(Ok(rows)) => Some(Ok(rows.deep_view())),
        Some(Err(error)) => Some(Err(error)),
        None => None,
    }
}

impl Stage {
    /// The stage at which every computation starts.
    pub fn start() -> (stage: Stage)
        ensures
            stage.deep_view() == first_stage(),
    {
        Stage::NeedMastery
    }

    /// What the caller is to do at this stage.
    pub fn request(&self) -> (request: Request)
        ensures
            request.deep_view() == pending(self.deep_view()),
    {
        match self {
            Stage::NeedMastery => Request::FetchMastery,
            Stage::NeedChallenges { .. } => Request::FetchChallenges,
            Stage::NeedWinrates { .. } => Request::LoadWinrates,
            Stage::NeedVersions { .. } => Request::FetchVersions,
            Stage::NeedCatalog { version, .. } => Request::FetchCatalog { version: version.clone() },
            Stage::NeedProducts { rows } => Request::Multiply { factors: factors(rows) },
            Stage::Ranked { .. } => Request::Stop,
            Stage::Failed { .. } => Request::Stop,
        }
    }

    /// Takes a reply and goes on to the stage that follows: see [`next`].
    pub fn advance(self, reply: Reply) -> (stage: Stage)
        ensures
            stage.deep_view() == next(self.deep_view(), reply.deep_view()),
    {
        match self {
            Stage::NeedMastery => match reply {
                Reply::Mastery(Some(mastery)) => Stage::NeedChallenges { mastery },
                Reply::Mastery(None) => Stage::Failed { error: RankingError::MasteryFetchFailed },
                _ => Stage::NeedMastery,
            },
            Stage::NeedChallenges { mastery } => match reply {
                Reply::Challenges(Some(challenges)) => Stage::NeedWinrates { mastery, challenges },
                Reply::Challenges(None) => Stage::Failed {
                    error: RankingError::ChallengesFetchFailed,
                },
                _ => Stage::NeedChallenges { mastery },
            },
            Stage::NeedWinrates { mastery, challenges } => match reply {
                Reply::Winrates(winrates) => Stage::NeedVersions { mastery, challenges, winrates },
                _ => Stage::NeedWinrates { mastery, challenges },
            },
            Stage::NeedVersions { mastery, challenges, winrates } => match reply {
                Reply::Versions(Some(versions)) => {
                    if versions.len() == 0 {
                        Stage::Failed { error: RankingError::NoVersionsFound }
                    } else {
                        let version = versions[0].clone();
                        Stage::NeedCatalog { mastery, challenges, winrates, version }
                    }
                },
                Reply::Versions(None) => Stage::Failed { error: RankingError::VersionFetchFailed },
                _ => Stage::NeedVersions { mastery, challenges, winrates },
            },
            Stage::NeedCatalog { mastery, challenges, winrates, version } => match reply {
                Reply::Catalog(Some(catalog)) => {
                    let rows = fuse(&catalog, &winrates, &mastery, &challenges);
                    Stage::NeedProducts { rows }
                },
                Reply::Catalog(None) => Stage::Failed {
                    error: RankingError::ChampionDataFetchFailed,
                },
                _ => Stage::NeedCatalog { mastery, challenges, winrates, version },
            },
            Stage::NeedProducts { rows } => match reply {
                Reply::Products(products) => {
                    let scored = score_rows(rows, &products);
                    Stage::Ranked { rows: rank(scored) }
                },
                _ => Stage::NeedProducts { rows },
            },
            Stage::Ranked { rows } => Stage::Ranked { rows },
            Stage::Failed { error } => Stage::Failed { error },
        }
    }

    /// Hands out what the computation has come to: the table or the error
    /// where it has ended, `None` where it has not.
    pub fn finish(self) -> (found: Option<Result<Vec<RankedRow>, RankingError>>)
        ensures
            outcome_view(found) == outcome(self.deep_view()),
    {
        match self {
            Stage::Ranked { rows } => Some(Ok(rows)),
            Stage::Failed { error } => Some(Err(error)),
            _ => None,
        }
    }
}

/// Where a computation stands that was at `stage` and has since taken
/// `replies`, one after the other.
pub open spec fn stage_after(stage: StageView, replies: Seq<ReplyView>) -> StageView
    decreases replies.len(),
{
    if replies.len() == 0 {
        stage
    } else {
        next(stage_after(stage, replies.drop_last()), replies.last())
    }
}

/// A computation that has ended stays as it is, whatever reply it is given:
/// a table is never changed afterwards, and an error never turns into a
/// table.
pub proof fn lemma_end_is_final(stage: StageView, replies: Seq<ReplyView>)
    requires
        outcome(stage) is Some,
    ensures
        stage_after(stage, replies) == stage,
    decreases replies.len(),
{
    if replies.len() > 0 {
        lemma_end_is_final(stage, replies.drop_last());
    }
}

/// A computation whose first source fails ends with that source's error and
/// gives no rows, whatever the other sources would have answered.
pub proof fn lemma_mastery_failure_ends(later: Seq<ReplyView>)
    ensures
        outcome(stage_after(first_stage(), seq![ReplyView::Mastery(None)] + later)) == Some(
            Err::<Seq<RankedRowView>, RankingError>(RankingError::MasteryFetchFailed),
        ),
    decreases later.len(),
{
    let first = seq![ReplyView::Mastery(None)];
    if later.len() == 0 {
        assert(first + later =~= first);
        assert(first.drop_last() =~= Seq::<ReplyView>::empty());
        assert(stage_after(first_stage(), first.drop_last()) == first_stage());
    } else {
        lemma_mastery_failure_ends(later.drop_last());
        assert((first + later).drop_last() =~= first + later.drop_last());
    }
}

/// The only errors are those of the sources: a computation fails with the
/// error of the source it waited for, and with no other.
pub proof fn lemma_error_names_source(stage: StageView, reply: ReplyView)
    requires
        outcome(stage) is None,
        next(stage, reply) is Failed,
    ensures
        match next(stage, reply)->error {
            RankingError::MasteryFetchFailed => stage is NeedMastery && reply == ReplyView::Mastery(
                None,
            ),
            RankingError::ChallengesFetchFailed => stage is NeedChallenges && reply
                == ReplyView::Challenges(None),
            RankingError::VersionFetchFailed => stage is NeedVersions && reply
                == ReplyView::Versions(None),
            RankingError::NoVersionsFound => stage is NeedVersions && reply == ReplyView::Versions(
                Some(Seq::empty()),
            ),
            RankingError::ChampionDataFetchFailed => stage is NeedCatalog && reply
                == ReplyView::Catalog(None),
        },
{
    if stage is NeedVersions && reply is Versions {
        if let ReplyView::Versions(Some(versions)) = reply {
            assert(versions =~= Seq::empty());
        }
    }
}

/// The table that a computation ends with is in order: it holds the scored
/// rows, each as often as the join gave it, and from each row to the next
/// the score does not rise.
pub proof fn lemma_table_is_ranked(rows: Seq<RankedRowView>, products: Seq<Binary32>)
    ensures
        ({
            let end = next(StageView::NeedProducts { rows }, ReplyView::Products(products));
            &&& end is Ranked
            &&& outcome(end) == Some(
                Ok::<Seq<RankedRowView>, RankingError>(ranked(scored_rows(rows, products))),
            )
            &&& is_ranked(end->Ranked_rows)
            &&& end->Ranked_rows.len() == rows.len()
            &&& end->Ranked_rows.to_multiset() == scored_rows(rows, products).to_multiset()
            &&& forall|i: int|
                0 <= i && i + 1 < end->Ranked_rows.len() ==> rank_of(
                    #[trigger] end->Ranked_rows[i],
                ) >= rank_of(end->Ranked_rows[i + 1])
        }),
{
    lemma_ranked_is_ranked(scored_rows(rows, products));
    lemma_ranked_is_rearrangement(scored_rows(rows, products));
}

/// Two computations that are given the same replies come to the same end.
pub proof fn lemma_same_replies_same_end(first: Seq<ReplyView>, second: Seq<ReplyView>)
    requires
        first =~= second,
    ensures
        stage_after(first_stage(), first) == stage_after(first_stage(), second),
        outcome(stage_after(first_stage(), first)) == outcome(
            stage_after(first_stage(), second),
        ),
{
}

/// The table is fixed by the rows and the products: it is the only
/// arrangement of the scored rows that is in order and keeps ties in the
/// order of the join.
pub proof fn lemma_table_is_determined(
    rows: Seq<RankedRowView>,
    products: Seq<Binary32>,
    other: Seq<RankedRowView>,
)
    requires
        is_ranked(other),
        same_ties(other, scored_rows(rows, products)),
    ensures
        next(StageView::NeedProducts { rows }, ReplyView::Products(products)) == (
        StageView::Ranked { rows: other }),
{
    lemma_ranking_is_unique(scored_rows(rows, products), other);
}

/// The table that follows a catalog and the products.
pub open spec fn table_of(
    mastery: Seq<MasteryRecord>,
    challenges: Seq<ChallengeCompletionView>,
    winrates: Seq<WinrateRecordView>,
    catalog: Seq<CatalogEntryView>,
    products: Seq<Binary32>,
) -> Seq<RankedRowView> {
    ranked(
        scored_rows(
            fused_rows(
                catalog,
                winrate_table(winrates),
                mastery_table(mastery),
                challenge_table(challenges),
            ),
            products,
        ),
    )
}

/// A computation that gets a catalog and then the products ends with
/// [`table_of`] them.
pub proof fn lemma_catalog_then_products(
    mastery: Seq<MasteryRecord>,
    challenges: Seq<ChallengeCompletionView>,
    winrates: Seq<WinrateRecordView>,
    version: Seq<char>,
    catalog: Seq<CatalogEntryView>,
    products: Seq<Binary32>,
)
    ensures
        stage_after(
            StageView::NeedCatalog { mastery, challenges, winrates, version },
            seq![ReplyView::Catalog(Some(catalog)), ReplyView::Products(products)],
        ) == (StageView::Ranked {
            rows: table_of(mastery, challenges, winrates, catalog, products),
        }),
{
    let start = StageView::NeedCatalog { mastery, challenges, winrates, version };
    let replies = seq![ReplyView::Catalog(Some(catalog)), ReplyView::Products(products)];
    assert(replies.drop_last() =~= seq![ReplyView::Catalog(Some(catalog))]);
    assert(replies.drop_last().drop_last() =~= Seq::<ReplyView>::empty());
    assert(stage_after(start, replies.drop_last().drop_last()) == start);
    assert(stage_after(start, replies.drop_last()) == next(
        start,
        ReplyView::Catalog(Some(catalog)),
    ));
}

/// Every row of the table is complete: the win-rate table holds its name and
/// the mastery records its identity, both challenges are there, and what the
/// row says is what those sources hold. A champion that lacks one of them is
/// not in the table. The score is zero up to one mastery point.
pub proof fn lemma_table_rows_are_complete(
    mastery: Seq<MasteryRecord>,
    challenges: Seq<ChallengeCompletionView>,
    winrates: Seq<WinrateRecordView>,
    catalog: Seq<CatalogEntryView>,
    products: Seq<Binary32>,
    k: int,
)
    requires
        0 <= k < table_of(mastery, challenges, winrates, catalog, products).len(),
    ensures
        ({
            let row = table_of(mastery, challenges, winrates, catalog, products)[k];
            let w = winrate_table(winrates);
            let m = mastery_table(mastery);
            let c = challenge_table(challenges);
            &&& is_complete(row.name, row.id, w, m, c)
            &&& row.winrate == w[row.name]
            &&& row.mastery == m[row.id]
            &&& row.won == c[ADAPT_TO_ALL_SITUATIONS@].contains(row.id)
            &&& row.played == c[CHAMPION_OCEAN@].contains(row.id)
            &&& (row.mastery <= 1 ==> row.score is None || row.score == Some(Binary32::spec_zero()))
        }),
{
    let w = winrate_table(winrates);
    let m = mastery_table(mastery);
    let c = challenge_table(challenges);
    let joined = fused_rows(catalog, w, m, c);
    let scored = scored_rows(joined, products);
    lemma_ranked_has_same_rows(scored);
    let row = ranked(scored)[k];
    assert(scored.contains(row));
    let j = choose|j: int| 0 <= j < scored.len() && scored[j] == row;
    lemma_row_is_derived(catalog, w, m, c, j);
}

} // verus!
