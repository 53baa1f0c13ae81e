use champion_ranking::model::RankedRow;
use champion_ranking::ranker::{goes_before, rank, rank_key};
use champion_ranking::score::Binary32;
use champion_ranking::scoring::{factors, score_rows, Factors};

fn number(x: f32) -> Binary32 {
    Binary32 { bits: x.to_bits() }
}

fn row(id: i32, name: &str, score: Option<f32>) -> RankedRow {
    RankedRow {
        id,
        img: format!("https://cdn.communitydragon.org/latest/champion/{}/square", id),
        name: name.to_string(),
        winrate: number(0.5),
        mastery: 100,
        won: false,
        played: true,
        score: score.map(number),
    }
}

fn names(rows: &[RankedRow]) -> Vec<&str> {
    rows.iter().map(|r| r.name.as_str()).collect()
}

#[test]
fn the_larger_score_comes_first() {
    let rows = vec![row(1, "low", Some(0.2)), row(2, "high", Some(3.5)), row(3, "mid", Some(1.2))];
    let out = rank(rows);
    assert_eq!(names(&out), vec!["high", "mid", "low"]);
}

#[test]
fn scores_do_not_rise_along_the_ranking() {
    let scores = [0.3f32, 7.0, -1.0, 0.0, 2.5, 2.5, 100.0, -0.0, 1.0e-40, 6.9];
    let mut rows: Vec<RankedRow> = Vec::new();
    for s in scores {
        let id = i32::try_from(rows.len()).unwrap();
        rows.push(row(id, "r", Some(s)));
    }
    let out = rank(rows);
    assert_eq!(out.len(), scores.len());
    for pair in out.windows(2) {
        let a = f32::from_bits(pair[0].score.unwrap().bits);
        let b = f32::from_bits(pair[1].score.unwrap().bits);
        assert!(a >= b, "{} before {}", a, b);
        assert!(rank_key(&pair[0]) >= rank_key(&pair[1]));
    }
}

#[test]
fn equal_scores_come_by_identity() {
    let rows = vec![row(30, "c", Some(1.0)), row(10, "a", Some(1.0)), row(20, "b", Some(1.0))];
    let out = rank(rows);
    assert_eq!(names(&out), vec!["a", "b", "c"]);
}

#[test]
fn the_two_zeros_are_one_score() {
    let rows = vec![row(2, "positive", Some(0.0)), row(1, "negative", Some(-0.0))];
    let out = rank(rows);
    assert_eq!(names(&out), vec!["negative", "positive"]);
}

#[test]
fn rows_equal_in_score_and_identity_keep_their_order() {
    let rows = vec![
        row(5, "first", Some(1.0)),
        row(9, "top", Some(2.0)),
        row(5, "second", Some(1.0)),
        row(1, "bottom", Some(0.5)),
        row(5, "third", Some(1.0)),
    ];
    let out = rank(rows);
    assert_eq!(names(&out), vec!["top", "first", "second", "third", "bottom"]);
}

#[test]
fn what_is_not_a_number_comes_last() {
    let rows = vec![
        row(1, "nan", Some(f32::NAN)),
        row(2, "minus infinity", Some(f32::NEG_INFINITY)),
        row(3, "none", None),
        row(4, "one", Some(1.0)),
        row(5, "infinity", Some(f32::INFINITY)),
    ];
    let out = rank(rows);
    assert_eq!(names(&out), vec!["infinity", "one", "minus infinity", "nan", "none"]);
}

#[test]
fn every_pattern_that_is_not_a_number_ranks_alike() {
    let mut quiet = row(2, "quiet", None);
    quiet.score = Some(Binary32 { bits: 0x7fc0_0000 });
    let mut signalling = row(1, "signalling", None);
    signalling.score = Some(Binary32 { bits: 0xff80_0001 });
    let out = rank(vec![quiet, signalling]);
    assert_eq!(names(&out), vec!["signalling", "quiet"]);
}

#[test]
fn ranking_nothing_gives_nothing() {
    assert!(rank(vec![]).is_empty());
}

#[test]
fn ranking_one_row_gives_that_row() {
    let only = row(7, "only", Some(0.1));
    assert_eq!(rank(vec![only.clone()]), vec![only]);
}

#[test]
fn ranking_keeps_every_row() {
    let rows = vec![
        row(3, "c", Some(0.1)),
        row(1, "a", Some(0.9)),
        row(3, "c", Some(0.1)),
        row(2, "b", None),
    ];
    let mut out = rank(rows.clone());
    let mut given = rows;
    out.sort_by_key(|r| (r.id, r.name.clone(), r.score.map(|s| s.bits)));
    given.sort_by_key(|r| (r.id, r.name.clone(), r.score.map(|s| s.bits)));
    assert_eq!(out, given);
}

#[test]
fn ranking_what_is_ranked_changes_nothing() {
    let rows = vec![
        row(3, "c", Some(0.1)),
        row(1, "a", Some(0.9)),
        row(4, "d", Some(0.1)),
        row(2, "b", None),
    ];
    let once = rank(rows);
    let twice = rank(once.clone());
    assert_eq!(once, twice);
}

#[test]
fn ranking_does_not_depend_on_the_order_given() {
    let a = row(1, "a", Some(0.4));
    let b = row(2, "b", Some(0.4));
    let c = row(3, "c", Some(0.9));
    let d = row(4, "d", None);
    let one = rank(vec![a.clone(), b.clone(), c.clone(), d.clone()]);
    let other = rank(vec![d, c, b, a]);
    assert_eq!(one, other);
    assert_eq!(names(&one), vec!["c", "a", "b", "d"]);
}

#[test]
fn which_row_goes_before_which() {
    let high = row(9, "high", Some(2.0));
    let low = row(1, "low", Some(1.0));
    let low_later = row(2, "low", Some(1.0));
    let unscored = row(0, "unscored", None);
    assert!(goes_before(&high, &low));
    assert!(!goes_before(&low, &high));
    assert!(goes_before(&low, &low_later));
    assert!(!goes_before(&low_later, &low));
    assert!(!goes_before(&low, &low));
    assert!(goes_before(&low, &unscored));
    assert!(!goes_before(&unscored, &low));
    assert_eq!(rank_key(&unscored), -0x8000_0000);
    assert_eq!(rank_key(&low), 0x3f80_0000);
}

#[test]
fn the_factors_are_win_rate_and_mastery() {
    let mut a = row(1, "a", None);
    a.winrate = number(0.6);
    a.mastery = 4;
    let mut b = row(2, "b", None);
    b.winrate = number(0.25);
    b.mastery = 0;
    assert_eq!(
        factors(&vec![a, b]),
        vec![
            Factors { winrate: number(0.6), mastery: 4 },
            Factors { winrate: number(0.25), mastery: 0 },
        ]
    );
    assert!(factors(&vec![]).is_empty());
}

#[test]
fn each_row_gets_the_score_of_its_product() {
    let mut a = row(1, "a", None);
    a.mastery = 4;
    let mut b = row(2, "b", None);
    b.mastery = 1;
    let mut c = row(3, "c", None);
    c.mastery = 0;
    let out = score_rows(vec![a.clone(), b.clone(), c.clone()], &vec![number(1.2), number(0.0), number(f32::NEG_INFINITY)]);
    assert_eq!(out.len(), 3);
    assert_eq!(out[0].score, Some(number(1.2)));
    assert_eq!(out[1].score, Some(Binary32 { bits: 0 }));
    assert_eq!(out[2].score, Some(Binary32 { bits: 0 }));
    a.score = Some(number(1.2));
    b.score = Some(number(0.0));
    c.score = Some(number(0.0));
    assert_eq!(out, vec![a, b, c]);
}

#[test]
fn a_row_without_a_product_stays_as_it_is() {
    let mut a = row(1, "a", None);
    a.mastery = 8;
    let b = row(2, "b", None);
    let c = row(3, "c", Some(0.7));
    let out = score_rows(vec![a, b.clone(), c.clone()], &vec![number(2.0)]);
    assert_eq!(out[0].score, Some(number(2.0)));
    assert_eq!(out[1], b);
    assert_eq!(out[2], c);
}

#[test]
fn products_beyond_the_rows_are_not_read() {
    let mut a = row(1, "a", None);
    a.mastery = 8;
    let out = score_rows(vec![a], &vec![number(2.0), number(9.0)]);
    assert_eq!(out.len(), 1);
    assert_eq!(out[0].score, Some(number(2.0)));
}
