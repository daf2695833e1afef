//! The four scoring rules and what each awards for five dice.
//!
//! Scoring reads the dice as a multiset: only how often each value occurs
//! matters, never where it stands.

use vstd::prelude::*;

verus! {

/// The rule by which a category turns five dice into points.
#[derive(Clone, Copy, Debug, PartialEq, Eq, Structural)]
pub enum CategoryKind {
    /// Pays the sum of the dice that show the given face.
    NumberMatch(u8),
    /// Pays the sum of all dice if some value occurs at least this often.
    NOfAKind(u8),
    /// Pays ten times the length if a run of that length (3, 4 or 5) shows.
    Straight(u8),
    /// Pays the sum of all dice.
    Chance,
}

/// Sum of the values in `dice`.
pub open spec fn sum_of(dice: Seq<u8>) -> nat
    decreases dice.len(),
{
    if dice.len() == 0 {
        0
    } else {
        sum_of(dice.drop_last()) + dice.last() as nat
    }
}

/// How many entries of `dice` equal `face`.
pub open spec fn count_of(dice: Seq<u8>, face: u8) -> nat
    decreases dice.len(),
{
    if dice.len() == 0 {
        0
    } else {
        count_of(dice.drop_last(), face) + if dice.last() == face {
            1nat
        } else {
            0nat
        }
    }
}

/// Whether some value occurs at least `threshold` times in `dice`. With a
/// threshold of 0 this always holds.
pub open spec fn has_n_of_a_kind(dice: Seq<u8>, threshold: u8) -> bool {
    exists|face: u8| count_of(dice, face) >= threshold
}

/// The distinct values that `dice` shows.
pub open spec fn present(dice: Seq<u8>) -> Set<u8> {
    dice.to_set()
}

/// The run of `length` consecutive faces that begins at `start`.
pub open spec fn window(start: u8, length: u8) -> Set<u8> {
    Set::new(|face: u8| start <= face < start + length)
}

/// Whether the dice hold a straight of the given length.
///
/// A straight of 3 or 4 needs one of the runs of that length within 1..=6 among
/// the values present. A straight of 5 needs the values present to be exactly
/// 1..=5 or exactly 2..=6. No other length is a straight.
pub open spec fn has_straight(dice: Seq<u8>, length: u8) -> bool {
    if length == 3 {
        exists|start: u8| 1 <= start <= 4 && #[trigger] window(start, 3).subset_of(present(dice))
    } else if length == 4 {
        exists|start: u8| 1 <= start <= 3 && #[trigger] window(start, 4).subset_of(present(dice))
    } else if length == 5 {
        present(dice) == window(1, 5) || present(dice) == window(2, 5)
    } else {
        false
    }
}

/// What a rule with the given threshold awards: the sum of all dice if some
/// value occurs at least `threshold` times, else nothing.
pub open spec fn n_of_a_kind_score(dice: Seq<u8>, threshold: u8) -> nat {
    if has_n_of_a_kind(dice, threshold) {
        sum_of(dice)
    } else {
        0
    }
}

impl CategoryKind {
    /// The points that this rule awards for `dice`. `Chance` is the
    /// n-of-a-kind rule with a threshold of 0. The rules are defined for every
    /// value that a byte can hold, not only for the faces 1 to 6.
    pub open spec fn score(self, dice: Seq<u8>) -> nat {
        match self {
            CategoryKind::NumberMatch(face) => face as nat * count_of(dice, face),
            CategoryKind::NOfAKind(threshold) => n_of_a_kind_score(dice, threshold),
            CategoryKind::Straight(length) => if has_straight(dice, length) {
                length as nat * 10
            } else {
                0
            },
            CategoryKind::Chance => n_of_a_kind_score(dice, 0),
        }
    }
}

/// Sums and counts grow with the sequence: one entry more adds its value to
/// the sum and, where it equals `face`, one to the count.
pub proof fn lemma_take_step(dice: Seq<u8>, i: int, face: u8)
    requires
        0 <= i < dice.len(),
    ensures
        sum_of(dice.take(i + 1)) == sum_of(dice.take(i)) + dice[i] as nat,
        count_of(dice.take(i + 1), face) == count_of(dice.take(i), face) + if dice[i] == face {
            1nat
        } else {
            0nat
        },
{
    assert(dice.take(i + 1).drop_last() =~= dice.take(i));
}

/// No value occurs more often than there are dice, and the sum of `n` bytes is
/// at most `255 * n`.
pub proof fn lemma_bounds(dice: Seq<u8>, face: u8)
    ensures
        count_of(dice, face) <= dice.len(),
        sum_of(dice) <= 255 * dice.len(),
    decreases dice.len(),
{
    if dice.len() > 0 {
        lemma_bounds(dice.drop_last(), face);
    }
}

/// Sum of the five dice.
pub fn sum_dice(dice: &[u8; 5]) -> (total: u32)
    ensures
        total == sum_of(dice@),
{
    let mut total: u32 = 0;
    let mut i: usize = 0;
    while i < 5
        invariant
            i <= 5,
            total == sum_of(dice@.take(i as int)),
            total <= 255 * i,
        decreases 5 - i,
    {
        proof {
            lemma_take_step(dice@, i as int, 0);
        }
        total = total + dice[i] as u32;
        i = i + 1;
    }
    assert(dice@.take(5) =~= dice@);
    total
}

/// How many of the five dice show `face`.
pub fn count_face(dice: &[u8; 5], face: u8) -> (count: u8)
    ensures
        count == count_of(dice@, face),
        count <= 5,
{
    let mut count: u8 = 0;
    let mut i: usize = 0;
    while i < 5
        invariant
            i <= 5,
            count == count_of(dice@.take(i as int), face),
            count <= i,
        decreases 5 - i,
    {
        proof {
            lemma_take_step(dice@, i as int, face);
        }
        if dice[i] == face {
            count = count + 1;
        }
        i = i + 1;
    }
    assert(dice@.take(5) =~= dice@);
    count
}

/// Whether `face` is among `values`.
pub fn shows(values: &[u8], face: u8) -> (found: bool)
    ensures
        found == values@.contains(face),
{
    let mut i: usize = 0;
    while i < values.len()
        invariant
            i <= values.len(),
            forall|j: int| 0 <= j < i ==> values@[j] != face,
        decreases values.len() - i,
    {
        if values[i] == face {
            return true;
        }
        i = i + 1;
    }
    false
}

/// The distinct values among the five dice, each once, in the order in which
/// they first appear.
pub fn distinct_faces(dice: &[u8; 5]) -> (faces: Vec<u8>)
    ensures
        faces@.no_duplicates(),
        faces@.to_set() == present(dice@),
        faces@.len() <= 5,
{
    let mut faces: Vec<u8> = Vec::new();
    let mut i: usize = 0;
    while i < 5
        invariant
            i <= 5,
            faces@.len() <= i,
            faces@.no_duplicates(),
            forall|face: u8| faces@.contains(face) <==> dice@.take(i as int).contains(face),
        decreases 5 - i,
    {
        let value = dice[i];
        let seen = shows(faces.as_slice(), value);
        let ghost before = faces@;
        if !seen {
            faces.push(value);
        }
        proof {
            let grown = dice@.take(i + 1);
            assert(grown.drop_last() =~= dice@.take(i as int));
            assert forall|face: u8| faces@.contains(face) <==> grown.contains(face) by {
                if grown.contains(face) {
                    let k = choose|k: int| 0 <= k < grown.len() && grown[k] == face;
                    if k < i {
                        assert(dice@.take(i as int)[k] == face);
                        assert(before.contains(face));
                        let m = choose|m: int| 0 <= m < before.len() && before[m] == face;
                        assert(faces@[m] == face);
                    } else {
                        if seen {
                            assert(before.contains(face));
                        } else {
                            assert(faces@[before.len() as int] == face);
                        }
                    }
                }
                if faces@.contains(face) {
                    let m = choose|m: int| 0 <= m < faces@.len() && faces@[m] == face;
                    if m < before.len() {
                        assert(before[m] == face);
                        assert(before.contains(face));
                        let k = choose|k: int|
                            0 <= k < i && dice@.take(i as int)[k] == face;
                        assert(grown[k] == face);
                    } else {
                        assert(grown[i as int] == face);
                    }
                }
            }
        }
        i = i + 1;
    }
    proof {
        assert(dice@.take(5) =~= dice@);
        assert(faces@.to_set() =~= present(dice@));
    }
    faces
}

/// A run lies within the values present exactly if each of its faces is shown.
pub proof fn lemma_window_shown(dice: Seq<u8>, start: u8, length: u8)
    requires
        start + length <= 256,
    ensures
        window(start, length).subset_of(present(dice)) <==> forall|face: u8|
            start <= face < start + length ==> dice.contains(face),
{
    if window(start, length).subset_of(present(dice)) {
        assert forall|face: u8| start <= face < start + length implies dice.contains(face) by {
            assert(window(start, length).contains(face));
            assert(present(dice).contains(face));
        }
    }
}

/// Five dice that show five different values show nothing else.
pub proof fn lemma_five_distinct(dice: Seq<u8>, a: u8, b: u8, c: u8, d: u8, e: u8, other: u8)
    requires
        dice.len() == 5,
        a != b && a != c && a != d && a != e,
        b != c && b != d && b != e,
        c != d && c != e,
        d != e,
        dice.contains(a),
        dice.contains(b),
        dice.contains(c),
        dice.contains(d),
        dice.contains(e),
        dice.contains(other),
    ensures
        other == a || other == b || other == c || other == d || other == e,
{
    let ia = choose|i: int| 0 <= i < dice.len() && dice[i] == a;
    let ib = choose|i: int| 0 <= i < dice.len() && dice[i] == b;
    let ic = choose|i: int| 0 <= i < dice.len() && dice[i] == c;
    let id = choose|i: int| 0 <= i < dice.len() && dice[i] == d;
    let ie = choose|i: int| 0 <= i < dice.len() && dice[i] == e;
    let io = choose|i: int| 0 <= i < dice.len() && dice[i] == other;
    assert(io == ia || io == ib || io == ic || io == id || io == ie);
}

/// With five dice, the values present are exactly a run of five if and only if
/// every face of the run is shown.
pub proof fn lemma_exact_run(dice: Seq<u8>, start: u8)
    requires
        dice.len() == 5,
        start <= 251,
    ensures
        present(dice) == window(start, 5) <==> forall|face: u8|
            start <= face < start + 5 ==> dice.contains(face),
{
    if present(dice) == window(start, 5) {
        assert forall|face: u8| start <= face < start + 5 implies dice.contains(face) by {
            assert(window(start, 5).contains(face));
        }
    }
    if forall|face: u8| start <= face < start + 5 ==> dice.contains(face) {
        assert forall|other: u8| present(dice).contains(other) implies window(start, 5).contains(
            other,
        ) by {
            lemma_five_distinct(
                dice,
                start,
                (start + 1) as u8,
                (start + 2) as u8,
                (start + 3) as u8,
                (start + 4) as u8,
                other,
            );
        }
        assert(present(dice) =~= window(start, 5));
    }
}

/// Five dice hold a straight of five exactly if they show 2, 3, 4 and 5 and one
/// of the two outer faces 1 and 6, not both.
pub proof fn lemma_straight_of_five(dice: Seq<u8>)
    requires
        dice.len() == 5,
    ensures
        has_straight(dice, 5) <==> dice.contains(2) && dice.contains(3) && dice.contains(4)
            && dice.contains(5) && (dice.contains(1) != dice.contains(6)),
{
    lemma_exact_run(dice, 1);
    lemma_exact_run(dice, 2);
    if dice.contains(1) && dice.contains(2) && dice.contains(3) && dice.contains(4)
        && dice.contains(5) && dice.contains(6) {
        lemma_five_distinct(dice, 1, 2, 3, 4, 5, 6);
    }
}

/// Points of a straight: ten times `length` if the five dice hold a straight of
/// that length, else nothing.
pub fn straight_points(dice: &[u8; 5], length: u8) -> (points: u32)
    ensures
        points == CategoryKind::Straight(length).score(dice@),
{
    let faces = distinct_faces(dice);
    let one = shows(faces.as_slice(), 1);
    let two = shows(faces.as_slice(), 2);
    let three = shows(faces.as_slice(), 3);
    let four = shows(faces.as_slice(), 4);
    let five = shows(faces.as_slice(), 5);
    let six = shows(faces.as_slice(), 6);
    proof {
        assert forall|face: u8| faces@.contains(face) == dice@.contains(face) by {
            assert(faces@.to_set().contains(face) == present(dice@).contains(face));
        }
    }
    let straight = if length == 5 {
        proof {
            lemma_straight_of_five(dice@);
        }
        (one != six) && two && three && four && five
    } else if length == 4 {
        proof {
            lemma_window_shown(dice@, 1, 4);
            lemma_window_shown(dice@, 2, 4);
            lemma_window_shown(dice@, 3, 4);
        }
        (one && two && three && four) || (two && three && four && five) || (three && four && five
            && six)
    } else if length == 3 {
        proof {
            lemma_window_shown(dice@, 1, 3);
            lemma_window_shown(dice@, 2, 3);
            lemma_window_shown(dice@, 3, 3);
            lemma_window_shown(dice@, 4, 3);
        }
        (one && two && three) || (two && three && four) || (three && four && five) || (four && five
            && six)
    } else {
        false
    };
    assert(straight == has_straight(dice@, length));
    if straight {
        length as u32 * 10
    } else {
        0
    }
}

/// Points of a number category: the sum of the dice that show `face`.
pub fn number_match_points(dice: &[u8; 5], face: u8) -> (points: u32)
    ensures
        points == CategoryKind::NumberMatch(face).score(dice@),
{
    let mut points: u32 = 0;
    let mut i: usize = 0;
    assert(count_of(dice@.take(0), face) == 0);
    while i < 5
        invariant
            i <= 5,
            points == face as nat * count_of(dice@.take(i as int), face),
            count_of(dice@.take(i as int), face) <= i,
        decreases 5 - i,
    {
        proof {
            lemma_take_step(dice@, i as int, face);
            let sofar = count_of(dice@.take(i as int), face);
            assert(face as nat * (sofar + 1) == face as nat * sofar + face as nat)
                by (nonlinear_arith);
            assert(face as nat * sofar <= 255 * 5) by (nonlinear_arith)
                requires
                    sofar <= 5,
                    face <= 255,
            ;
        }
        if dice[i] == face {
            points = points + dice[i] as u32;
        }
        i = i + 1;
    }
    assert(dice@.take(5) =~= dice@);
    points
}

/// A value that stands in the sequence is counted at least once.
pub proof fn lemma_count_positive(dice: Seq<u8>, i: int)
    requires
        0 <= i < dice.len(),
    ensures
        count_of(dice, dice[i]) >= 1,
    decreases dice.len(),
{
    if i < dice.len() - 1 {
        lemma_count_positive(dice.drop_last(), i);
    }
}

/// A value that is counted at least once stands in the sequence.
pub proof fn lemma_counted_is_shown(dice: Seq<u8>, face: u8)
    requires
        count_of(dice, face) > 0,
    ensures
        dice.contains(face),
    decreases dice.len(),
{
    if dice.last() == face {
        assert(dice[dice.len() - 1] == face);
    } else {
        lemma_counted_is_shown(dice.drop_last(), face);
        let k = choose|k: int| 0 <= k < dice.drop_last().len() && dice.drop_last()[k] == face;
        assert(dice[k] == face);
    }
}

/// The largest number of dice that show one and the same value.
pub fn max_multiplicity(dice: &[u8; 5]) -> (most: u8)
    ensures
        forall|face: u8| count_of(dice@, face) <= most,
        exists|face: u8| count_of(dice@, face) == most,
        1 <= most <= 5,
{
    let mut most: u8 = 0;
    let mut i: usize = 0;
    while i < 5
        invariant
            i <= 5,
            most <= 5,
            forall|j: int| 0 <= j < i ==> count_of(dice@, #[trigger] dice@[j]) <= most,
            i > 0 ==> exists|face: u8| count_of(dice@, face) == most,
            i > 0 ==> most >= 1,
            i == 0 ==> most == 0,
        decreases 5 - i,
    {
        let count = count_face(dice, dice[i]);
        proof {
            lemma_count_positive(dice@, i as int);
        }
        if count > most {
            most = count;
        }
        i = i + 1;
    }
    proof {
        assert forall|face: u8| count_of(dice@, face) <= most by {
            if count_of(dice@, face) > 0 {
                lemma_counted_is_shown(dice@, face);
                let j = choose|j: int| 0 <= j < dice@.len() && dice@[j] == face;
                assert(count_of(dice@, dice@[j]) <= most);
            }
        }
    }
    most
}

/// Points of an n-of-a-kind category: the sum of all five dice if some value
/// occurs at least `threshold` times, else nothing.
pub fn n_of_a_kind_points(dice: &[u8; 5], threshold: u8) -> (points: u32)
    ensures
        points == n_of_a_kind_score(dice@, threshold),
{
    let most = max_multiplicity(dice);
    if most >= threshold {
        sum_dice(dice)
    } else {
        0
    }
}

impl CategoryKind {
    /// Computes the points that this rule awards for the five dice.
    pub fn evaluate(&self, dice: &[u8; 5]) -> (points: u32)
        ensures
            points == self.score(dice@),
    {
        match *self {
            CategoryKind::NumberMatch(face) => number_match_points(dice, face),
            CategoryKind::NOfAKind(threshold) => n_of_a_kind_points(dice, threshold),
            CategoryKind::Straight(length) => straight_points(dice, length),
            CategoryKind::Chance => n_of_a_kind_points(dice, 0),
        }
    }
}

/// The most that any rule can award for five dice.
pub const MAX_POINTS: u32 = 1275;

/// No rule awards more than `MAX_POINTS` for five dice.
pub proof fn lemma_score_bound(kind: CategoryKind, dice: Seq<u8>)
    requires
        dice.len() == 5,
    ensures
        kind.score(dice) <= MAX_POINTS,
{
    lemma_bounds(dice, 0);
    match kind {
        CategoryKind::NumberMatch(face) => {
            lemma_bounds(dice, face);
            assert(face as nat * count_of(dice, face) <= 255 * 5) by (nonlinear_arith)
                requires
                    count_of(dice, face) <= 5,
                    face <= 255,
            ;
        },
        _ => {},
    }
}

/// The chance rule has no condition: it awards the sum of the dice, whatever
/// they show.
pub proof fn lemma_chance_is_sum(dice: Seq<u8>)
    ensures
        CategoryKind::Chance.score(dice) == sum_of(dice),
        CategoryKind::Chance.score(dice) == CategoryKind::NOfAKind(0).score(dice),
{
    assert(count_of(dice, 0) >= 0);
}

/// `count_of` counts as the multiset of the dice does.
pub proof fn lemma_count_is_multiplicity(dice: Seq<u8>, face: u8)
    ensures
        count_of(dice, face) == dice.to_multiset().count(face),
    decreases dice.len(),
{
    broadcast use vstd::seq_lib::group_to_multiset_ensures;

    if dice.len() == 0 {
        assert(dice.to_multiset().len() == 0);
    } else {
        lemma_count_is_multiplicity(dice.drop_last(), face);
        assert(dice =~= dice.drop_last().push(dice.last()));
        vstd::seq_lib::to_multiset_build(dice.drop_last(), dice.last());
    }
}

/// The part of the sum that the values below `bound` make up: each value
/// times the number of dice that show it.
pub open spec fn weighted_count(dice: Seq<u8>, bound: nat) -> nat
    decreases bound,
{
    if bound == 0 {
        0
    } else {
        weighted_count(dice, (bound - 1) as nat) + (bound - 1) as nat * count_of(
            dice,
            (bound - 1) as u8,
        )
    }
}

/// One die more adds its value to the weighted count, once the bound lies
/// above that value.
pub proof fn lemma_weighted_step(dice: Seq<u8>, bound: nat)
    requires
        dice.len() > 0,
        bound <= 256,
    ensures
        weighted_count(dice, bound) == weighted_count(dice.drop_last(), bound) + if dice.last()
            < bound {
            dice.last() as nat
        } else {
            0nat
        },
    decreases bound,
{
    if bound > 0 {
        let below = (bound - 1) as nat;
        lemma_weighted_step(dice, below);
        let earlier = count_of(dice.drop_last(), below as u8);
        if dice.last() == below {
            assert(below * (earlier + 1) == below * earlier + below) by (nonlinear_arith);
        }
    }
}

/// The sum of the dice is each value times the number of dice that show it,
/// added up over all values.
pub proof fn lemma_sum_by_counts(dice: Seq<u8>)
    ensures
        sum_of(dice) == weighted_count(dice, 256),
    decreases dice.len(),
{
    if dice.len() == 0 {
        lemma_weighted_of_none(dice, 256);
    } else {
        lemma_sum_by_counts(dice.drop_last());
        lemma_weighted_step(dice, 256);
    }
}

/// Without dice the weighted count is 0.
pub proof fn lemma_weighted_of_none(dice: Seq<u8>, bound: nat)
    requires
        dice.len() == 0,
    ensures
        weighted_count(dice, bound) == 0,
    decreases bound,
{
    if bound > 0 {
        lemma_weighted_of_none(dice, (bound - 1) as nat);
        assert((bound - 1) as nat * 0 == 0) by (nonlinear_arith);
    }
}

/// Dice with the same counts have the same weighted count.
pub proof fn lemma_weighted_same(first: Seq<u8>, second: Seq<u8>, bound: nat)
    requires
        forall|face: u8| count_of(first, face) == count_of(second, face),
    ensures
        weighted_count(first, bound) == weighted_count(second, bound),
    decreases bound,
{
    if bound > 0 {
        lemma_weighted_same(first, second, (bound - 1) as nat);
    }
}

/// Scoring reads the dice as a multiset: two sequences that hold the same
/// values equally often score the same under every rule, in whatever order
/// they stand.
pub proof fn lemma_score_ignores_order(kind: CategoryKind, first: Seq<u8>, second: Seq<u8>)
    requires
        first.to_multiset() == second.to_multiset(),
    ensures
        kind.score(first) == kind.score(second),
{
    assert forall|face: u8| count_of(first, face) == count_of(second, face) by {
        lemma_count_is_multiplicity(first, face);
        lemma_count_is_multiplicity(second, face);
    }
    assert(sum_of(first) == sum_of(second)) by {
        lemma_sum_by_counts(first);
        lemma_sum_by_counts(second);
        lemma_weighted_same(first, second, 256);
    }
    assert forall|face: u8| first.contains(face) == second.contains(face) by {
        if first.contains(face) {
            let i = choose|i: int| 0 <= i < first.len() && first[i] == face;
            lemma_count_positive(first, i);
            lemma_counted_is_shown(second, face);
        }
        if second.contains(face) {
            let i = choose|i: int| 0 <= i < second.len() && second[i] == face;
            lemma_count_positive(second, i);
            lemma_counted_is_shown(first, face);
        }
    }
    assert(present(first) =~= present(second));
    assert(has_n_of_a_kind(first, 0) == has_n_of_a_kind(second, 0)) by {
        assert(count_of(first, 0) >= 0);
        assert(count_of(second, 0) >= 0);
    }
    match kind {
        CategoryKind::NOfAKind(threshold) => {
            if has_n_of_a_kind(first, threshold) {
                let face = choose|face: u8| count_of(first, face) >= threshold;
                assert(count_of(second, face) >= threshold);
            }
            if has_n_of_a_kind(second, threshold) {
                let face = choose|face: u8| count_of(second, face) >= threshold;
                assert(count_of(first, face) >= threshold);
            }
        },
        _ => {},
    }
}

} // verus!
