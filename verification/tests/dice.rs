use yahtzee::die::Die;
use yahtzee::dicerow::DiceRow;

#[test]
fn die_roll_stays_in_range() {
    for _ in 0..200 {
        let d = Die::roll();
        let v = d.to_u8();
        assert!((1..=6).contains(&v));
    }
}

#[test]
fn die_try_from_accepts_faces_only() {
    for v in 1..=6u8 {
        let d = Die::try_from_u8(v).unwrap();
        assert_eq!(d.to_u8(), v);
    }
    assert!(Die::try_from_u8(0).is_err());
    assert!(Die::try_from_u8(7).is_err());
    assert!(Die::try_from_u8(255).is_err());
}

#[test]
fn row_try_from_rejects_out_of_range() {
    assert!(DiceRow::try_from_u8s([1, 2, 3, 4, 7]).is_err());
    assert!(DiceRow::try_from_u8s([0, 2, 3, 4, 5]).is_err());
    let row = DiceRow::try_from_u8s([1, 2, 3, 4, 5]).unwrap();
    assert_eq!(row.to_u8(), [1, 2, 3, 4, 5]);
}

#[test]
fn reroll_all_held_keeps_row() {
    let mut row = DiceRow::try_from_u8s([6, 5, 4, 3, 2]).unwrap();
    row.reroll([true, true, true, true, true]);
    assert_eq!(row.to_u8(), [6, 5, 4, 3, 2]);
}

#[test]
fn reroll_none_held_is_a_fresh_roll() {
    let mut row = DiceRow::try_from_u8s([1, 1, 1, 1, 1]).unwrap();
    row.reroll([false, false, false, false, false]);
    let values = row.to_u8();
    assert_eq!(values.len(), 5);
    for v in values {
        assert!((1..=6).contains(&v));
    }
}

#[test]
fn reroll_keeps_held_positions() {
    let mut row = DiceRow::try_from_u8s([1, 2, 3, 4, 5]).unwrap();
    row.reroll([true, false, true, false, true]);
    let values = row.to_u8();
    assert_eq!(values[0], 1);
    assert_eq!(values[2], 3);
    assert_eq!(values[4], 5);
    for v in values {
        assert!((1..=6).contains(&v));
    }
}

#[test]
fn row_roll_gives_five_faces() {
    let row = DiceRow::roll();
    let values = row.to_u8();
    assert_eq!(values.len(), 5);
    for v in values {
        assert!((1..=6).contains(&v));
    }
    let inner = row.as_inner();
    assert_eq!(inner.len(), 5);
}

#[test]
fn into_inner_hands_the_dice_out() {
    let row = DiceRow::try_from_u8s([2, 2, 6, 6, 6]).unwrap();
    let dice = row.into_inner();
    let values: Vec<u8> = dice.iter().map(|d| d.to_u8()).collect();
    assert_eq!(values, vec![2, 2, 6, 6, 6]);
}
