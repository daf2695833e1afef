use yahtzee::rules::{
    count_face, distinct_faces, max_multiplicity, n_of_a_kind_points, number_match_points, shows,
    straight_points, sum_dice, CategoryKind, MAX_POINTS,
};

#[test]
fn number_match_sums_the_matching_dice() {
    assert_eq!(CategoryKind::NumberMatch(4).evaluate(&[4, 4, 2, 4, 6]), 12);
}

#[test]
fn number_match_is_face_times_count() {
    assert_eq!(CategoryKind::NumberMatch(1).evaluate(&[1, 1, 1, 1, 1]), 5);
    assert_eq!(CategoryKind::NumberMatch(6).evaluate(&[6, 6, 6, 6, 6]), 30);
    assert_eq!(CategoryKind::NumberMatch(3).evaluate(&[3, 1, 3, 2, 5]), 6);
    assert_eq!(number_match_points(&[2, 5, 2, 5, 2], 5), 10);
}

#[test]
fn number_match_without_a_match_scores_nothing() {
    assert_eq!(CategoryKind::NumberMatch(5).evaluate(&[1, 2, 3, 4, 6]), 0);
    assert_eq!(CategoryKind::NumberMatch(2).evaluate(&[1, 1, 3, 3, 6]), 0);
}

#[test]
fn three_of_a_kind_pays_the_sum_of_all_dice() {
    assert_eq!(CategoryKind::NOfAKind(3).evaluate(&[2, 2, 2, 5, 6]), 17);
}

#[test]
fn three_of_a_kind_needs_three_equal_dice() {
    assert_eq!(CategoryKind::NOfAKind(3).evaluate(&[1, 2, 3, 4, 5]), 0);
    assert_eq!(CategoryKind::NOfAKind(3).evaluate(&[1, 1, 3, 3, 5]), 0);
}

#[test]
fn n_of_a_kind_compares_the_largest_multiplicity_with_the_threshold() {
    assert_eq!(CategoryKind::NOfAKind(4).evaluate(&[3, 3, 3, 3, 6]), 18);
    assert_eq!(CategoryKind::NOfAKind(4).evaluate(&[3, 3, 3, 6, 6]), 0);
    assert_eq!(CategoryKind::NOfAKind(5).evaluate(&[4, 4, 4, 4, 4]), 20);
    assert_eq!(CategoryKind::NOfAKind(5).evaluate(&[4, 4, 4, 4, 1]), 0);
    assert_eq!(CategoryKind::NOfAKind(3).evaluate(&[6, 6, 6, 6, 6]), 30);
    assert_eq!(CategoryKind::NOfAKind(2).evaluate(&[1, 2, 3, 4, 4]), 14);
    assert_eq!(CategoryKind::NOfAKind(1).evaluate(&[1, 2, 3, 4, 5]), 15);
    assert_eq!(CategoryKind::NOfAKind(6).evaluate(&[5, 5, 5, 5, 5]), 0);
}

#[test]
fn five_of_a_kind_pays_the_sum_and_no_fixed_bonus() {
    assert_eq!(CategoryKind::NOfAKind(5).evaluate(&[6, 6, 6, 6, 6]), 30);
    assert_eq!(CategoryKind::NOfAKind(5).evaluate(&[1, 1, 1, 1, 1]), 5);
}

#[test]
fn threshold_zero_is_always_met() {
    assert_eq!(CategoryKind::NOfAKind(0).evaluate(&[1, 2, 3, 4, 6]), 16);
    assert_eq!(n_of_a_kind_points(&[6, 5, 4, 3, 1], 0), 19);
}

#[test]
fn straight_of_five_needs_exactly_one_of_the_two_runs() {
    assert_eq!(CategoryKind::Straight(5).evaluate(&[1, 2, 3, 4, 5]), 50);
    assert_eq!(CategoryKind::Straight(5).evaluate(&[2, 3, 4, 5, 6]), 50);
    assert_eq!(CategoryKind::Straight(5).evaluate(&[1, 2, 3, 4, 6]), 0);
}

#[test]
fn straight_of_five_in_any_order() {
    assert_eq!(CategoryKind::Straight(5).evaluate(&[5, 3, 1, 4, 2]), 50);
    assert_eq!(CategoryKind::Straight(5).evaluate(&[6, 2, 5, 3, 4]), 50);
}

#[test]
fn straight_of_five_rejects_a_repeated_face() {
    assert_eq!(CategoryKind::Straight(5).evaluate(&[2, 3, 4, 5, 5]), 0);
    assert_eq!(CategoryKind::Straight(5).evaluate(&[1, 1, 2, 3, 4]), 0);
    assert_eq!(CategoryKind::Straight(5).evaluate(&[1, 3, 4, 5, 6]), 0);
    assert_eq!(CategoryKind::Straight(5).evaluate(&[3, 3, 3, 3, 3]), 0);
}

#[test]
fn full_house_shape_is_no_straight_of_five() {
    assert_eq!(CategoryKind::Straight(5).evaluate(&[2, 2, 3, 3, 3]), 0);
}

#[test]
fn straight_of_four_has_three_runs() {
    assert_eq!(CategoryKind::Straight(4).evaluate(&[1, 2, 3, 4, 4]), 40);
    assert_eq!(CategoryKind::Straight(4).evaluate(&[2, 3, 4, 5, 2]), 40);
    assert_eq!(CategoryKind::Straight(4).evaluate(&[6, 5, 4, 3, 1]), 40);
    assert_eq!(CategoryKind::Straight(4).evaluate(&[1, 2, 3, 4, 5]), 40);
    assert_eq!(CategoryKind::Straight(4).evaluate(&[1, 2, 3, 5, 6]), 0);
    assert_eq!(CategoryKind::Straight(4).evaluate(&[1, 2, 4, 5, 6]), 0);
    assert_eq!(CategoryKind::Straight(4).evaluate(&[1, 1, 1, 1, 1]), 0);
}

#[test]
fn straight_of_three_has_four_runs() {
    assert_eq!(CategoryKind::Straight(3).evaluate(&[1, 2, 3, 6, 6]), 30);
    assert_eq!(CategoryKind::Straight(3).evaluate(&[2, 3, 4, 1, 1]), 30);
    assert_eq!(CategoryKind::Straight(3).evaluate(&[3, 4, 5, 1, 1]), 30);
    assert_eq!(CategoryKind::Straight(3).evaluate(&[1, 2, 4, 5, 6]), 30);
    assert_eq!(CategoryKind::Straight(3).evaluate(&[1, 2, 4, 5, 4]), 0);
    assert_eq!(CategoryKind::Straight(3).evaluate(&[1, 1, 2, 2, 4]), 0);
    assert_eq!(CategoryKind::Straight(3).evaluate(&[1, 3, 5, 1, 3]), 0);
}

#[test]
fn duplicates_collapse_before_the_runs_are_sought() {
    assert_eq!(CategoryKind::Straight(3).evaluate(&[1, 2, 2, 3, 3]), 30);
    assert_eq!(CategoryKind::Straight(3).evaluate(&[5, 5, 4, 6, 6]), 30);
    assert_eq!(CategoryKind::Straight(4).evaluate(&[3, 4, 4, 5, 6]), 40);
}

#[test]
fn only_lengths_three_four_and_five_are_straights() {
    for length in [0u8, 1, 2, 6, 7, 10, 255] {
        assert_eq!(CategoryKind::Straight(length).evaluate(&[1, 2, 3, 4, 5]), 0);
        assert_eq!(straight_points(&[2, 3, 4, 5, 6], length), 0);
    }
}

#[test]
fn chance_pays_the_sum_of_any_dice() {
    assert_eq!(CategoryKind::Chance.evaluate(&[1, 1, 1, 1, 1]), 5);
    assert_eq!(CategoryKind::Chance.evaluate(&[6, 6, 6, 6, 6]), 30);
    assert_eq!(CategoryKind::Chance.evaluate(&[1, 2, 3, 4, 6]), 16);
    assert_eq!(CategoryKind::Chance.evaluate(&[2, 2, 2, 5, 6]), 17);
    assert_eq!(CategoryKind::Chance.evaluate(&[3, 5, 1, 6, 2]), 17);
}

#[test]
fn chance_equals_the_sum_on_every_roll_of_five_dice() {
    for a in 1u8..=6 {
        for b in 1u8..=6 {
            for c in 1u8..=6 {
                for d in 1u8..=6 {
                    for e in 1u8..=6 {
                        let dice = [a, b, c, d, e];
                        let sum = a as u32 + b as u32 + c as u32 + d as u32 + e as u32;
                        assert_eq!(CategoryKind::Chance.evaluate(&dice), sum);
                        assert_eq!(
                            CategoryKind::Chance.evaluate(&dice),
                            CategoryKind::NOfAKind(0).evaluate(&dice)
                        );
                    }
                }
            }
        }
    }
}

#[test]
fn scoring_ignores_the_order_of_the_dice() {
    let kinds = [
        CategoryKind::NumberMatch(2),
        CategoryKind::NumberMatch(5),
        CategoryKind::NOfAKind(3),
        CategoryKind::NOfAKind(4),
        CategoryKind::Straight(3),
        CategoryKind::Straight(4),
        CategoryKind::Straight(5),
        CategoryKind::Chance,
    ];
    let orders: [[u8; 5]; 4] =
        [[2, 3, 4, 5, 5], [5, 5, 4, 3, 2], [5, 2, 5, 3, 4], [3, 5, 2, 4, 5]];
    for kind in kinds {
        let expected = kind.evaluate(&orders[0]);
        for order in orders {
            assert_eq!(kind.evaluate(&order), expected);
        }
    }
}

#[test]
fn unrolled_dice_score_nothing() {
    let kinds = [
        CategoryKind::NumberMatch(1),
        CategoryKind::NOfAKind(3),
        CategoryKind::NOfAKind(5),
        CategoryKind::Straight(3),
        CategoryKind::Straight(5),
        CategoryKind::Chance,
    ];
    for kind in kinds {
        assert_eq!(kind.evaluate(&[0, 0, 0, 0, 0]), 0);
    }
}

#[test]
fn no_rule_pays_more_than_the_maximum() {
    assert_eq!(MAX_POINTS, 1275);
    assert_eq!(CategoryKind::Chance.evaluate(&[255, 255, 255, 255, 255]), MAX_POINTS);
    assert_eq!(CategoryKind::NumberMatch(255).evaluate(&[255, 255, 255, 255, 255]), MAX_POINTS);
}

#[test]
fn sum_dice_adds_the_five_values() {
    assert_eq!(sum_dice(&[1, 2, 3, 4, 5]), 15);
    assert_eq!(sum_dice(&[6, 6, 6, 6, 6]), 30);
    assert_eq!(sum_dice(&[0, 0, 0, 0, 0]), 0);
}

#[test]
fn count_face_counts_the_dice_that_show_a_face() {
    assert_eq!(count_face(&[4, 4, 2, 4, 6], 4), 3);
    assert_eq!(count_face(&[4, 4, 2, 4, 6], 2), 1);
    assert_eq!(count_face(&[4, 4, 2, 4, 6], 5), 0);
    assert_eq!(count_face(&[3, 3, 3, 3, 3], 3), 5);
}

#[test]
fn max_multiplicity_is_the_largest_count() {
    assert_eq!(max_multiplicity(&[1, 2, 3, 4, 5]), 1);
    assert_eq!(max_multiplicity(&[1, 2, 2, 4, 5]), 2);
    assert_eq!(max_multiplicity(&[2, 2, 2, 5, 6]), 3);
    assert_eq!(max_multiplicity(&[5, 2, 5, 5, 5]), 4);
    assert_eq!(max_multiplicity(&[6, 6, 6, 6, 6]), 5);
    assert_eq!(max_multiplicity(&[1, 1, 6, 6, 6]), 3);
}

#[test]
fn distinct_faces_keeps_each_value_once_in_order_of_appearance() {
    assert_eq!(distinct_faces(&[4, 4, 2, 4, 6]), vec![4, 2, 6]);
    assert_eq!(distinct_faces(&[1, 2, 3, 4, 5]), vec![1, 2, 3, 4, 5]);
    assert_eq!(distinct_faces(&[3, 3, 3, 3, 3]), vec![3]);
}

#[test]
fn shows_finds_a_face_among_values() {
    assert!(shows(&[4, 2, 6], 2));
    assert!(!shows(&[4, 2, 6], 5));
    assert!(!shows(&[], 1));
}
