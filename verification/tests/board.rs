use yahtzee::categories::check::full_house;
use yahtzee::categories::check::n_of_a_kind;
use yahtzee::categories::check::n_straight;
use yahtzee::categories::check::upper;
use yahtzee::categories::score;
use yahtzee::categories::Categories;
use yahtzee::categories::ScoreResult;
use yahtzee::categories::ScoreStatus;
use yahtzee::die::Die;
use yahtzee::dicerow::DiceRow;

fn row(values: [u8; 5]) -> DiceRow {
    DiceRow::try_from_u8s(values).unwrap()
}

#[test]
fn test_straight() {
    let _sorted = DiceRow::roll();

    assert_eq!(n_straight(&row([1, 2, 3, 4, 1]), 4), true);
    assert_eq!(n_straight(&row([1, 2, 2, 3, 4]), 4), true);
    assert_eq!(n_straight(&row([1, 2, 4, 4, 5]), 4), false);
    assert_eq!(n_straight(&row([1, 2, 3, 4, 5]), 4), false);
}

#[test]
fn large_straight_is_exactly_five_long() {
    assert_eq!(n_straight(&row([1, 2, 3, 4, 5]), 5), true);
    assert_eq!(n_straight(&row([2, 3, 4, 5, 6]), 5), true);
    assert_eq!(n_straight(&row([1, 2, 3, 4, 6]), 5), false);
}

#[test]
fn full_house_needs_a_triple_and_a_pair() {
    assert_eq!(full_house(&row([2, 2, 3, 3, 3])), true);
    assert_eq!(full_house(&row([5, 5, 5, 1, 2])), false);
    // a five-of-a-kind has no face with count exactly two
    assert_eq!(full_house(&row([4, 4, 4, 4, 4])), false);
}

#[test]
fn n_of_a_kind_counts_any_face() {
    assert_eq!(n_of_a_kind(&row([3, 3, 3, 2, 2]), 3), true);
    assert_eq!(n_of_a_kind(&row([3, 3, 2, 2, 1]), 3), false);
    assert_eq!(n_of_a_kind(&row([4, 4, 4, 4, 3]), 5), false);
    assert_eq!(n_of_a_kind(&row([4, 4, 4, 4, 4]), 5), true);
}

#[test]
fn upper_check_and_score() {
    let r = row([3, 3, 5, 3, 1]);
    assert_eq!(upper(&r, &Die::Three), true);
    assert_eq!(upper(&r, &Die::Six), false);
    assert_eq!(score::upper(&r, &Die::Three), 9);
    let r2 = row([1, 2, 4, 5, 6]);
    assert_eq!(score::upper(&r2, &Die::Three), 0);
}

#[test]
fn total_sums_all_dice() {
    assert_eq!(score::total(&row([1, 2, 3, 4, 5])), 15);
    assert_eq!(score::total(&row([6, 6, 6, 6, 6])), 30);
    assert_eq!(score::total(&row([1, 1, 1, 1, 1])), 5);
}

#[test]
fn board_lists_thirteen_categories_in_order() {
    let cats = Categories::new();
    assert_eq!(cats.len(), 13);
    let names: Vec<String> = (0..13).map(|i| cats.name_at(i).clone()).collect();
    assert_eq!(
        names,
        vec![
            "1",
            "2",
            "3",
            "4",
            "5",
            "6",
            "3-kind",
            "4-kind",
            "house",
            "s-straight",
            "l-straight",
            "yahtzee",
            "chance"
        ]
    );
    for i in 0..13 {
        assert!(matches!(cats.status_at(i), ScoreStatus::Unscored));
    }
}

#[test]
fn upper_three_scores_nine_on_three_threes() {
    let mut cats = Categories::new();
    let res = cats.score("3", &row([3, 3, 5, 3, 1]));
    assert!(matches!(res, Some(ScoreResult::Score(Some(9)))));
    assert!(matches!(cats.status_at(2), ScoreStatus::Scored(Some(9))));
}

#[test]
fn upper_three_scores_zero_without_threes() {
    let mut cats = Categories::new();
    let res = cats.score("3", &row([1, 2, 4, 5, 6]));
    assert!(matches!(res, Some(ScoreResult::Score(Some(0)))));
    assert!(matches!(cats.status_at(2), ScoreStatus::Scored(Some(0))));
}

#[test]
fn scoring_twice_reports_already_scored() {
    let mut cats = Categories::new();
    let first = cats.score("chance", &row([1, 2, 3, 4, 5]));
    assert!(matches!(first, Some(ScoreResult::Score(Some(15)))));
    let second = cats.score("chance", &row([6, 6, 6, 6, 6]));
    assert!(matches!(second, Some(ScoreResult::AlreadyScored)));
    // the recorded outcome did not move
    assert!(matches!(cats.status_at(12), ScoreStatus::Scored(Some(15))));
}

#[test]
fn scoring_unknown_name_reports_nothing_and_changes_nothing() {
    let mut cats = Categories::new();
    let res = cats.score("bogus", &row([1, 2, 3, 4, 5]));
    assert!(res.is_none());
    for i in 0..13 {
        assert!(matches!(cats.status_at(i), ScoreStatus::Unscored));
    }
}

#[test]
fn yahtzee_row_scores_fifty() {
    let mut cats = Categories::new();
    let res = cats.score("yahtzee", &row([4, 4, 4, 4, 4]));
    assert!(matches!(res, Some(ScoreResult::Score(Some(50)))));
}

#[test]
fn near_yahtzee_records_zero() {
    let mut cats = Categories::new();
    let res = cats.score("yahtzee", &row([4, 4, 4, 4, 3]));
    assert!(matches!(res, Some(ScoreResult::Score(None))));
    assert!(matches!(cats.status_at(11), ScoreStatus::Scored(None)));
}

#[test]
fn straight_categories_use_exact_length() {
    let mut cats = Categories::new();
    // a five-long run is no small straight under the exact-length rule
    let res = cats.score("s-straight", &row([1, 2, 3, 4, 5]));
    assert!(matches!(res, Some(ScoreResult::Score(None))));
    let res = cats.score("l-straight", &row([1, 2, 3, 4, 5]));
    assert!(matches!(res, Some(ScoreResult::Score(Some(40)))));
    let mut cats2 = Categories::new();
    let res = cats2.score("s-straight", &row([1, 2, 3, 4, 1]));
    assert!(matches!(res, Some(ScoreResult::Score(Some(30)))));
}

#[test]
fn of_a_kind_categories_score_the_sum() {
    let mut cats = Categories::new();
    let res = cats.score("3-kind", &row([3, 3, 3, 2, 2]));
    assert!(matches!(res, Some(ScoreResult::Score(Some(13)))));
    let res = cats.score("4-kind", &row([2, 2, 2, 2, 5]));
    assert!(matches!(res, Some(ScoreResult::Score(Some(13)))));
    let res = cats.score("house", &row([3, 3, 3, 2, 2]));
    assert!(matches!(res, Some(ScoreResult::Score(Some(25)))));
}
