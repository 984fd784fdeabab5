use yahtzee::categories::ScoreResult;
use yahtzee::categories::ScoreStatus;
use yahtzee::help::help;
use yahtzee::yahtzee::LastCommand;
use yahtzee::yahtzee::Yahtzee;

#[test]
fn new_game_starts_clean() {
    let game = Yahtzee::new();
    assert_eq!(game.current_score(), 0);
    assert_eq!(game.rolls_left(), 2);
    assert_eq!(game.held(), [false; 5]);
    for v in game.dice() {
        assert!((1..=6).contains(&v));
    }
    assert!(matches!(game.last(), LastCommand::Idle));
    let cats = game.categories();
    assert_eq!(cats.len(), 13);
    for i in 0..13 {
        assert!(matches!(cats.status_at(i), ScoreStatus::Unscored));
    }
}

#[test]
fn rolling_counts_down_and_then_fails() {
    let mut game = Yahtzee::new();
    game.roll();
    assert_eq!(game.rolls_left(), 1);
    assert!(matches!(game.last(), LastCommand::Roll(true)));
    game.roll();
    assert_eq!(game.rolls_left(), 0);
    let dice_before = game.dice();
    game.roll();
    // out of rolls: reported as failure, dice untouched
    assert_eq!(game.rolls_left(), 0);
    assert!(matches!(game.last(), LastCommand::Roll(false)));
    assert_eq!(game.dice(), dice_before);
}

#[test]
fn rolling_keeps_held_dice() {
    let mut game = Yahtzee::new();
    let dice_before = game.dice();
    game.hold(Some(vec![1, 3, 5]));
    game.roll();
    let dice_after = game.dice();
    assert_eq!(dice_after[0], dice_before[0]);
    assert_eq!(dice_after[2], dice_before[2]);
    assert_eq!(dice_after[4], dice_before[4]);
}

#[test]
fn hold_toggles_each_named_position() {
    let mut game = Yahtzee::new();
    game.hold(Some(vec![1, 3]));
    assert_eq!(game.held(), [true, false, true, false, false]);
    assert!(matches!(game.last(), LastCommand::Hold(Some(_))));
    // holding again unholds
    game.hold(Some(vec![1]));
    assert_eq!(game.held(), [false, false, true, false, false]);
    // a doubled position ends where it began
    game.hold(Some(vec![2, 2]));
    assert_eq!(game.held(), [false, false, true, false, false]);
}

#[test]
fn hold_out_of_range_rejects_the_whole_request() {
    let mut game = Yahtzee::new();
    game.hold(Some(vec![1, 6]));
    assert_eq!(game.held(), [false; 5]);
    assert!(matches!(game.last(), LastCommand::Hold(None)));
}

#[test]
fn hold_without_positions_is_invalid() {
    let mut game = Yahtzee::new();
    game.hold(None);
    assert_eq!(game.held(), [false; 5]);
    assert!(matches!(game.last(), LastCommand::Hold(None)));
}

#[test]
fn scoring_chance_adds_the_dice_and_resets_the_turn() {
    let mut game = Yahtzee::new();
    game.hold(Some(vec![2, 4]));
    let sum: u16 = game.dice().iter().map(|&v| v as u16).sum();
    game.score("chance");
    assert_eq!(game.current_score(), sum);
    // the turn state resets: mask clear, two explicit rolls again
    assert_eq!(game.held(), [false; 5]);
    assert_eq!(game.rolls_left(), 2);
    match game.last() {
        LastCommand::Score(Some(ScoreResult::Score(Some(s)))) => assert_eq!(*s, sum),
        _ => panic!("expected a recorded score"),
    }
}

#[test]
fn scoring_a_category_twice_changes_nothing_the_second_time() {
    let mut game = Yahtzee::new();
    game.score("chance");
    let score_after_first = game.current_score();
    game.score("chance");
    assert_eq!(game.current_score(), score_after_first);
    assert!(matches!(
        game.last(),
        LastCommand::Score(Some(ScoreResult::AlreadyScored))
    ));
    assert_eq!(game.rolls_left(), 2);
}

#[test]
fn scoring_an_unknown_category_changes_nothing() {
    let mut game = Yahtzee::new();
    let dice_before = game.dice();
    game.hold(Some(vec![5]));
    game.score("nonsense");
    assert_eq!(game.current_score(), 0);
    assert_eq!(game.dice(), dice_before);
    assert_eq!(game.held(), [false, false, false, false, true]);
    assert!(matches!(game.last(), LastCommand::Score(None)));
    let cats = game.categories();
    for i in 0..13 {
        assert!(matches!(cats.status_at(i), ScoreStatus::Unscored));
    }
}

#[test]
fn message_is_recorded() {
    let mut game = Yahtzee::new();
    game.message(String::from("no such command"));
    match game.last() {
        LastCommand::Message(m) => assert_eq!(m, "no such command"),
        _ => panic!("expected a message"),
    }
}

#[test]
fn a_whole_game_commits_every_category_once() {
    let mut game = Yahtzee::new();
    let names = [
        "1",
        "2",
        "3",
        "4",
        "5",
        "6",
        "3-kind",
        "4-kind",
        "house",
        "s-straight",
        "l-straight",
        "yahtzee",
        "chance",
    ];
    for name in names {
        game.score(name);
        assert!(matches!(
            game.last(),
            LastCommand::Score(Some(ScoreResult::Score(_)))
        ));
    }
    // every slot is consumed now: the board is full and stays put
    let final_score = game.current_score();
    assert!(final_score <= 650);
    for name in names {
        game.score(name);
        assert!(matches!(
            game.last(),
            LastCommand::Score(Some(ScoreResult::AlreadyScored))
        ));
    }
    assert_eq!(game.current_score(), final_score);
    let cats = game.categories();
    for i in 0..13 {
        assert!(matches!(cats.status_at(i), ScoreStatus::Scored(_)));
    }
}

#[test]
fn help_names_the_commands() {
    let text = help(&[]);
    assert!(text.contains("COMMANDS"));
    assert!(text.contains("roll"));
    assert!(text.contains("hold"));
    assert!(text.contains("score"));
    assert_eq!(help(&["roll"]), text);
}
