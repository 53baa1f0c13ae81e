use champion_ranking::fusion::fuse;
use champion_ranking::model::{
    portrait, CatalogEntry, ChallengeCompletion, MasteryRecord, RankedRow, WinrateRecord,
    ADAPT_TO_ALL_SITUATIONS, CHAMPION_OCEAN,
};
use champion_ranking::score::Binary32;
use champion_ranking::sources::{
    contains_id, find_challenge, find_mastery, find_winrate, index_mastery,
};

fn number(x: f32) -> Binary32 {
    Binary32 { bits: x.to_bits() }
}

fn entry(name: &str, key: &str) -> CatalogEntry {
    CatalogEntry { key: key.to_string(), name: name.to_string() }
}

fn winrate(name: &str, win: f32) -> WinrateRecord {
    WinrateRecord { name: name.to_string(), win_rate: number(win) }
}

fn mastery(champion_id: i32, points: i32) -> MasteryRecord {
    MasteryRecord { champion_id, points }
}

fn challenge(id: &str, completed: &[i32]) -> ChallengeCompletion {
    ChallengeCompletion { challenge_id: id.to_string(), completed_ids: completed.to_vec() }
}

fn both_challenges(won: &[i32], played: &[i32]) -> Vec<ChallengeCompletion> {
    vec![challenge(ADAPT_TO_ALL_SITUATIONS, won), challenge(CHAMPION_OCEAN, played)]
}

#[test]
fn the_challenges_have_their_identities() {
    assert_eq!(CHAMPION_OCEAN, "602001");
    assert_eq!(ADAPT_TO_ALL_SITUATIONS, "602002");
}

#[test]
fn the_portrait_is_addressed_by_key() {
    assert_eq!(portrait("266"), "https://cdn.communitydragon.org/latest/champion/266/square");
    assert_eq!(portrait(""), "https://cdn.communitydragon.org/latest/champion//square");
}

#[test]
fn one_champion_with_all_data_and_one_without_a_win_rate() {
    let catalog = vec![entry("A", "1"), entry("B", "2")];
    let winrates = vec![winrate("A", 0.6)];
    let points = vec![mastery(1, 4)];
    let challenges = both_challenges(&[1], &[]);
    let rows = fuse(&catalog, &winrates, &points, &challenges);
    assert_eq!(
        rows,
        vec![RankedRow {
            id: 1,
            img: "https://cdn.communitydragon.org/latest/champion/1/square".to_string(),
            name: "A".to_string(),
            winrate: number(0.6),
            mastery: 4,
            won: true,
            played: false,
            score: None,
        }]
    );
    assert!(rows.iter().all(|row| row.name != "B"));
}

#[test]
fn no_win_rate_no_row() {
    let catalog = vec![entry("A", "1"), entry("B", "2"), entry("C", "3")];
    let winrates = vec![winrate("A", 0.5), winrate("C", 0.4)];
    let points = vec![mastery(1, 10), mastery(2, 20), mastery(3, 30)];
    let challenges = both_challenges(&[1, 2, 3], &[1, 2, 3]);
    let rows = fuse(&catalog, &winrates, &points, &challenges);
    let names: Vec<&str> = rows.iter().map(|row| row.name.as_str()).collect();
    assert_eq!(names, vec!["A", "C"]);
}

#[test]
fn a_win_rate_under_another_spelling_is_no_match() {
    let catalog = vec![entry("Kai'Sa", "145")];
    let winrates = vec![winrate("Kaisa", 0.5), winrate("kai'sa", 0.5), winrate("Kai'Sa ", 0.5)];
    let points = vec![mastery(145, 10)];
    let challenges = both_challenges(&[], &[]);
    assert!(fuse(&catalog, &winrates, &points, &challenges).is_empty());
}

#[test]
fn no_mastery_no_row() {
    let catalog = vec![entry("A", "1"), entry("B", "2"), entry("C", "3")];
    let winrates = vec![winrate("A", 0.5), winrate("B", 0.6), winrate("C", 0.4)];
    let points = vec![mastery(2, 20)];
    let challenges = both_challenges(&[1, 2, 3], &[1, 2, 3]);
    let rows = fuse(&catalog, &winrates, &points, &challenges);
    let ids: Vec<i32> = rows.iter().map(|row| row.id).collect();
    assert_eq!(ids, vec![2]);
}

#[test]
fn mastery_of_zero_points_is_still_mastery() {
    let catalog = vec![entry("A", "1")];
    let winrates = vec![winrate("A", 0.5)];
    let points = vec![mastery(1, 0)];
    let challenges = both_challenges(&[], &[1]);
    let rows = fuse(&catalog, &winrates, &points, &challenges);
    assert_eq!(rows.len(), 1);
    assert_eq!(rows[0].mastery, 0);
    assert!(!rows[0].won);
    assert!(rows[0].played);
}

#[test]
fn without_the_winning_challenge_there_is_no_row() {
    let catalog = vec![entry("A", "1"), entry("B", "2")];
    let winrates = vec![winrate("A", 0.5), winrate("B", 0.6)];
    let points = vec![mastery(1, 10), mastery(2, 20)];
    let challenges = vec![challenge(CHAMPION_OCEAN, &[1, 2])];
    assert!(fuse(&catalog, &winrates, &points, &challenges).is_empty());
}

#[test]
fn without_the_playing_challenge_there_is_no_row() {
    let catalog = vec![entry("A", "1"), entry("B", "2")];
    let winrates = vec![winrate("A", 0.5), winrate("B", 0.6)];
    let points = vec![mastery(1, 10), mastery(2, 20)];
    let challenges = vec![challenge(ADAPT_TO_ALL_SITUATIONS, &[1, 2]), challenge("602003", &[1])];
    assert!(fuse(&catalog, &winrates, &points, &challenges).is_empty());
}

#[test]
fn a_challenge_that_nobody_completed_gives_false_not_absence() {
    let catalog = vec![entry("A", "1")];
    let winrates = vec![winrate("A", 0.5)];
    let points = vec![mastery(1, 10)];
    let challenges = both_challenges(&[], &[]);
    let rows = fuse(&catalog, &winrates, &points, &challenges);
    assert_eq!(rows.len(), 1);
    assert!(!rows[0].won);
    assert!(!rows[0].played);
}

#[test]
fn a_key_that_is_no_number_gives_no_row() {
    let catalog = vec![entry("A", "one"), entry("B", "2"), entry("C", ""), entry("D", "4294967296")];
    let winrates =
        vec![winrate("A", 0.5), winrate("B", 0.6), winrate("C", 0.4), winrate("D", 0.3)];
    let points = vec![mastery(1, 10), mastery(2, 20), mastery(0, 5)];
    let challenges = both_challenges(&[2], &[2]);
    let rows = fuse(&catalog, &winrates, &points, &challenges);
    let names: Vec<&str> = rows.iter().map(|row| row.name.as_str()).collect();
    assert_eq!(names, vec!["B"]);
}

#[test]
fn rows_come_in_the_order_of_the_catalog() {
    let catalog = vec![entry("C", "3"), entry("A", "1"), entry("B", "2")];
    let winrates = vec![winrate("A", 0.5), winrate("B", 0.6), winrate("C", 0.4)];
    let points = vec![mastery(1, 10), mastery(2, 20), mastery(3, 30)];
    let challenges = both_challenges(&[3], &[1]);
    let rows = fuse(&catalog, &winrates, &points, &challenges);
    let ids: Vec<i32> = rows.iter().map(|row| row.id).collect();
    assert_eq!(ids, vec![3, 1, 2]);
    assert_eq!(rows[0].img, "https://cdn.communitydragon.org/latest/champion/3/square");
    assert!(rows[0].won && !rows[0].played);
    assert!(!rows[1].won && rows[1].played);
    assert!(!rows[2].won && !rows[2].played);
}

#[test]
fn an_empty_catalog_gives_no_rows() {
    let rows = fuse(&vec![], &vec![winrate("A", 0.5)], &vec![mastery(1, 1)], &both_challenges(&[1], &[1]));
    assert!(rows.is_empty());
}

#[test]
fn the_later_of_two_records_counts() {
    let winrates = vec![winrate("A", 0.1), winrate("B", 0.2), winrate("A", 0.3)];
    assert_eq!(find_winrate(&winrates, &"A".to_string()), Some(number(0.3)));
    assert_eq!(find_winrate(&winrates, &"B".to_string()), Some(number(0.2)));
    assert_eq!(find_winrate(&winrates, &"C".to_string()), None);

    let table = index_mastery(&vec![mastery(1, 10), mastery(2, 20), mastery(1, 30)]);
    assert_eq!(table.len(), 2);
    assert_eq!(find_mastery(&table, 1), Some(30));
    assert_eq!(find_mastery(&table, 2), Some(20));
    assert_eq!(find_mastery(&table, 3), None);

    let challenges = vec![challenge("x", &[1]), challenge("y", &[2]), challenge("x", &[3, 4])];
    assert_eq!(find_challenge(&challenges, &"x".to_string()), Some(&vec![3, 4]));
    assert_eq!(find_challenge(&challenges, &"y".to_string()), Some(&vec![2]));
    assert_eq!(find_challenge(&challenges, &"z".to_string()), None);
}

#[test]
fn the_later_record_counts_in_the_join_too() {
    let catalog = vec![entry("A", "1")];
    let winrates = vec![winrate("A", 0.1), winrate("A", 0.3)];
    let points = vec![mastery(1, 10), mastery(1, 30)];
    let challenges = vec![
        challenge(ADAPT_TO_ALL_SITUATIONS, &[1]),
        challenge(CHAMPION_OCEAN, &[1]),
        challenge(ADAPT_TO_ALL_SITUATIONS, &[]),
    ];
    let rows = fuse(&catalog, &winrates, &points, &challenges);
    assert_eq!(rows.len(), 1);
    assert_eq!(rows[0].winrate, number(0.3));
    assert_eq!(rows[0].mastery, 30);
    assert!(!rows[0].won);
    assert!(rows[0].played);
}

#[test]
fn membership_in_a_list_of_identities() {
    assert!(contains_id(&vec![3, 1, 2], 1));
    assert!(contains_id(&vec![3, 1, 2, 1], 1));
    assert!(!contains_id(&vec![3, 1, 2], 4));
    assert!(!contains_id(&vec![], 0));
    assert!(contains_id(&vec![i32::MIN], i32::MIN));
}

#[test]
fn joining_twice_gives_the_same_rows() {
    let catalog = vec![entry("C", "3"), entry("A", "1"), entry("B", "2")];
    let winrates = vec![winrate("A", 0.5), winrate("B", 0.6), winrate("C", 0.4)];
    let points = vec![mastery(1, 10), mastery(2, 20), mastery(3, 30)];
    let challenges = both_challenges(&[3], &[1]);
    assert_eq!(
        fuse(&catalog, &winrates, &points, &challenges),
        fuse(&catalog, &winrates, &points, &challenges)
    );
}
