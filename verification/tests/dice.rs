use yahtzee::dice::{valid_faces, DiceSet, Die, DICE_COUNT, HIGHEST_FACE};
use yahtzee::error::GameError;

#[test]
fn a_new_die_is_unrolled_and_not_frozen() {
    let die = Die::new();
    assert_eq!(die.value, 0);
    assert!(!die.frozen);
    assert_eq!(Die::default(), die);
}

#[test]
fn toggle_freeze_flips_the_flag_and_keeps_the_face() {
    let mut die = Die { value: 4, frozen: false };
    die.toggle_freeze();
    assert_eq!(die, Die { value: 4, frozen: true });
    die.toggle_freeze();
    assert_eq!(die, Die { value: 4, frozen: false });
}

#[test]
fn a_die_can_be_frozen_before_its_first_roll() {
    let mut die = Die::new();
    die.toggle_freeze();
    assert_eq!(die, Die { value: 0, frozen: true });
    die.roll();
    assert_eq!(die, Die { value: 0, frozen: true });
}

#[test]
fn land_on_sets_the_face_of_an_unfrozen_die() {
    let mut die = Die::new();
    die.land_on(5);
    assert_eq!(die, Die { value: 5, frozen: false });
    die.land_on(2);
    assert_eq!(die, Die { value: 2, frozen: false });
}

#[test]
fn land_on_leaves_a_frozen_die_alone() {
    let mut die = Die { value: 3, frozen: true };
    die.land_on(6);
    assert_eq!(die, Die { value: 3, frozen: true });
}

#[test]
fn roll_gives_an_unfrozen_die_one_of_the_six_faces() {
    for _ in 0..500 {
        let mut die = Die::new();
        die.roll();
        assert!(1 <= die.value && die.value <= HIGHEST_FACE);
        assert!(!die.frozen);
    }
}

#[test]
fn roll_leaves_a_frozen_die_alone() {
    for _ in 0..100 {
        let mut die = Die { value: 2, frozen: true };
        die.roll();
        assert_eq!(die, Die { value: 2, frozen: true });
    }
}

#[test]
fn rolls_reach_every_face() {
    let mut seen = [false; 7];
    for _ in 0..2000 {
        let mut die = Die::new();
        die.roll();
        seen[die.value as usize] = true;
    }
    assert!(!seen[0]);
    for face in 1..=6 {
        assert!(seen[face]);
    }
}

#[test]
fn a_new_dice_set_holds_five_unrolled_dice() {
    let dice = DiceSet::new();
    let snapshot = dice.snapshot();
    assert_eq!(snapshot.len(), DICE_COUNT);
    for die in snapshot {
        assert_eq!(die, Die { value: 0, frozen: false });
    }
    assert_eq!(dice.values(), [0, 0, 0, 0, 0]);
}

#[test]
fn roll_all_with_gives_each_die_its_own_face() {
    let mut dice = DiceSet::new();
    dice.roll_all_with(&[4, 4, 2, 4, 6]);
    assert_eq!(dice.values(), [4, 4, 2, 4, 6]);
    dice.roll_all_with(&[1, 2, 3, 4, 5]);
    assert_eq!(dice.values(), [1, 2, 3, 4, 5]);
}

#[test]
fn roll_all_with_skips_the_frozen_dice() {
    let mut dice = DiceSet::new();
    dice.roll_all_with(&[6, 5, 4, 3, 2]);
    assert_eq!(dice.toggle_freeze(1), Ok(()));
    assert_eq!(dice.toggle_freeze(4), Ok(()));
    dice.roll_all_with(&[1, 1, 1, 1, 1]);
    assert_eq!(dice.values(), [1, 5, 1, 1, 2]);
    let snapshot = dice.snapshot();
    assert_eq!(
        [
            snapshot[0].frozen,
            snapshot[1].frozen,
            snapshot[2].frozen,
            snapshot[3].frozen,
            snapshot[4].frozen
        ],
        [false, true, false, false, true]
    );
}

#[test]
fn roll_all_keeps_frozen_dice_and_rolls_the_others() {
    for _ in 0..200 {
        let mut dice = DiceSet::new();
        dice.roll_all_with(&[6, 5, 4, 3, 2]);
        assert_eq!(dice.toggle_freeze(0), Ok(()));
        assert_eq!(dice.toggle_freeze(3), Ok(()));
        let before = dice.snapshot();
        dice.roll_all();
        let after = dice.snapshot();
        for i in 0..DICE_COUNT {
            assert_eq!(after[i].frozen, before[i].frozen);
            if before[i].frozen {
                assert_eq!(after[i].value, before[i].value);
            } else {
                assert!(1 <= after[i].value && after[i].value <= 6);
            }
        }
    }
}

#[test]
fn roll_all_draws_for_each_die_on_its_own() {
    let mut differing = false;
    let mut not_one = false;
    for _ in 0..200 {
        let mut dice = DiceSet::new();
        dice.roll_all();
        let values = dice.values();
        for value in values {
            assert!(1 <= value && value <= 6);
            if value != 1 {
                not_one = true;
            }
            if value != values[0] {
                differing = true;
            }
        }
    }
    assert!(not_one);
    assert!(differing);
}

#[test]
fn toggle_freeze_addresses_a_die_by_index() {
    let mut dice = DiceSet::new();
    assert_eq!(dice.toggle_freeze(2), Ok(()));
    let snapshot = dice.snapshot();
    for i in 0..DICE_COUNT {
        assert_eq!(snapshot[i].frozen, i == 2);
        assert_eq!(snapshot[i].value, 0);
    }
    assert_eq!(dice.toggle_freeze(2), Ok(()));
    assert_eq!(dice, DiceSet::new());
}

#[test]
fn toggle_freeze_refuses_an_index_out_of_range() {
    let mut dice = DiceSet::new();
    dice.roll_all_with(&[1, 2, 3, 4, 5]);
    let before = dice;
    assert_eq!(dice.toggle_freeze(5), Err(GameError::IndexOutOfRange));
    assert_eq!(dice.toggle_freeze(usize::MAX), Err(GameError::IndexOutOfRange));
    assert_eq!(dice, before);
}

#[test]
fn snapshot_does_not_change_the_dice() {
    let mut dice = DiceSet::new();
    dice.roll_all_with(&[3, 3, 4, 5, 6]);
    assert_eq!(dice.toggle_freeze(0), Ok(()));
    let before = dice;
    let first = dice.snapshot();
    let second = dice.snapshot();
    assert_eq!(first, second);
    assert_eq!(dice, before);
    assert_eq!(first[0], Die { value: 3, frozen: true });
    assert_eq!(first[4], Die { value: 6, frozen: false });
}

#[test]
fn reset_clears_faces_and_freezes() {
    let mut dice = DiceSet::new();
    dice.roll_all_with(&[3, 3, 4, 5, 6]);
    assert_eq!(dice.toggle_freeze(0), Ok(()));
    assert_eq!(dice.toggle_freeze(4), Ok(()));
    dice.reset();
    assert_eq!(dice, DiceSet::new());
    for die in dice.snapshot() {
        assert_eq!(die, Die { value: 0, frozen: false });
    }
}

#[test]
fn valid_faces_accepts_the_faces_one_to_six_only() {
    assert!(valid_faces(&[1, 2, 3, 4, 5]));
    assert!(valid_faces(&[6, 6, 6, 6, 6]));
    assert!(valid_faces(&[1, 1, 1, 1, 1]));
    assert!(!valid_faces(&[0, 2, 3, 4, 5]));
    assert!(!valid_faces(&[1, 2, 3, 4, 7]));
    assert!(!valid_faces(&[1, 2, 255, 4, 5]));
    assert!(!valid_faces(&[0, 0, 0, 0, 0]));
}
