//! The scorecard: thirteen categories in a fixed order, and their total.

use crate::category::{CategoryState, ScoreCategory};
use crate::error::GameError;
use crate::rules::{lemma_score_bound, CategoryKind, MAX_POINTS};
use vstd::prelude::*;

verus! {

/// Number of categories on the scorecard.
pub const CATEGORY_COUNT: usize = 13;

/// The rule of the category at position `index` of the scorecard.
pub open spec fn rule_at(index: int) -> CategoryKind {
    if index == 0 {
        CategoryKind::NumberMatch(1)
    } else if index == 1 {
        CategoryKind::NumberMatch(2)
    } else if index == 2 {
        CategoryKind::NumberMatch(3)
    } else if index == 3 {
        CategoryKind::NumberMatch(4)
    } else if index == 4 {
        CategoryKind::NumberMatch(5)
    } else if index == 5 {
        CategoryKind::NumberMatch(6)
    } else if index == 6 {
        CategoryKind::NOfAKind(3)
    } else if index == 7 {
        CategoryKind::NOfAKind(4)
    } else if index == 8 {
        CategoryKind::NOfAKind(5)
    } else if index == 9 {
        CategoryKind::Straight(3)
    } else if index == 10 {
        CategoryKind::Straight(4)
    } else if index == 11 {
        CategoryKind::Straight(5)
    } else {
        CategoryKind::Chance
    }
}

/// The name of the category at position `index` of the scorecard.
pub open spec fn name_at(index: int) -> Seq<char> {
    if index == 0 {
        "Aces"@
    } else if index == 1 {
        "Twos"@
    } else if index == 2 {
        "Threes"@
    } else if index == 3 {
        "Fours"@
    } else if index == 4 {
        "Fives"@
    } else if index == 5 {
        "Sixes"@
    } else if index == 6 {
        "3-of-a-Kind"@
    } else if index == 7 {
        "4-of-a-Kind"@
    } else if index == 8 {
        "Yahtzee"@
    } else if index == 9 {
        "Small Straight"@
    } else if index == 10 {
        "Large Straight"@
    } else if index == 11 {
        "Full House"@
    } else {
        "Chance"@
    }
}

/// The scorecard at the start of a game: every category open.
pub open spec fn blank_card() -> Seq<CategoryState> {
    Seq::new(CATEGORY_COUNT as nat, |i: int| CategoryState::blank(name_at(i), rule_at(i)))
}

/// Whether `category` can stand at position `index` of a scorecard: it has the
/// name and rule of that position, no points while open, and once filled no
/// more points than a rule can award.
pub open spec fn slot_wf(category: CategoryState, index: int) -> bool {
    &&& category.name == name_at(index)
    &&& category.rule == rule_at(index)
    &&& category.wf()
    &&& category.points <= MAX_POINTS
}

/// Whether `card` is a scorecard: the thirteen categories, each in its place.
pub open spec fn card_wf(card: Seq<CategoryState>) -> bool {
    &&& card.len() == CATEGORY_COUNT
    &&& forall|i: int| 0 <= i < card.len() ==> slot_wf(#[trigger] card[i], i)
}

/// Sum of the points of the filled categories.
pub open spec fn total(card: Seq<CategoryState>) -> nat
    decreases card.len(),
{
    if card.len() == 0 {
        0
    } else {
        total(card.drop_last()) + card.last().contribution()
    }
}

/// Number of filled categories.
pub open spec fn filled_count(card: Seq<CategoryState>) -> nat
    decreases card.len(),
{
    if card.len() == 0 {
        0
    } else {
        filled_count(card.drop_last()) + if card.last().filled {
            1nat
        } else {
            0nat
        }
    }
}

/// Whether some category is still open.
pub open spec fn has_open(card: Seq<CategoryState>) -> bool {
    exists|i: int| 0 <= i < card.len() && !(#[trigger] card[i]).filled
}

/// The answer to a request to score `dice` in the category at `index`: the
/// points awarded, or why the request is refused.
pub open spec fn score_reply(card: Seq<CategoryState>, index: int, dice: Seq<u8>) -> Result<
    u32,
    GameError,
> {
    if !(0 <= index < card.len()) {
        Err(GameError::IndexOutOfRange)
    } else if card[index].filled {
        Err(GameError::AlreadyFilled)
    } else {
        Ok(card[index].rule.score(dice) as u32)
    }
}

/// The scorecard after a request to score `dice` in the category at `index`:
/// a granted request fills that category, a refused one changes nothing.
pub open spec fn after_score(card: Seq<CategoryState>, index: int, dice: Seq<u8>) -> Seq<
    CategoryState,
> {
    if score_reply(card, index, dice) is Ok {
        card.update(index, card[index].committed(card[index].rule.score(dice)))
    } else {
        card
    }
}

/// The thirteen categories of a game.
#[derive(Clone, Copy, Debug, PartialEq, Eq)]
pub struct Scorecard {
    categories: [ScoreCategory; 13],
}

impl View for Scorecard {
    type V = Seq<CategoryState>;

    closed spec fn view(&self) -> Seq<CategoryState> {
        Seq::new(CATEGORY_COUNT as nat, |i: int| self.categories@[i]@)
    }
}

impl Scorecard {
    #[verifier::type_invariant]
    spec fn inv(self) -> bool {
        forall|i: int| 0 <= i < CATEGORY_COUNT ==> slot_wf((#[trigger] self.categories@[i])@, i)
    }

    /// Creates the scorecard of a new game.
    pub fn new() -> (card: Scorecard)
        ensures
            card@ == blank_card(),
    {
        let card = Scorecard {
            categories: [
                ScoreCategory::new("Aces", CategoryKind::NumberMatch(1)),
                ScoreCategory::new("Twos", CategoryKind::NumberMatch(2)),
                ScoreCategory::new("Threes", CategoryKind::NumberMatch(3)),
                ScoreCategory::new("Fours", CategoryKind::NumberMatch(4)),
                ScoreCategory::new("Fives", CategoryKind::NumberMatch(5)),
                ScoreCategory::new("Sixes", CategoryKind::NumberMatch(6)),
                ScoreCategory::new("3-of-a-Kind", CategoryKind::NOfAKind(3)),
                ScoreCategory::new("4-of-a-Kind", CategoryKind::NOfAKind(4)),
                ScoreCategory::new("Yahtzee", CategoryKind::NOfAKind(5)),
                ScoreCategory::new("Small Straight", CategoryKind::Straight(3)),
                ScoreCategory::new("Large Straight", CategoryKind::Straight(4)),
                ScoreCategory::new("Full House", CategoryKind::Straight(5)),
                ScoreCategory::new("Chance", CategoryKind::Chance),
            ],
        };
        assert(card@ =~= blank_card());
        card
    }

    /// The category at `index`, where `index` counts from 0.
    pub fn category_at(&self, index: usize) -> (result: Result<&ScoreCategory, GameError>)
        ensures
            card_wf(self@),
            index < CATEGORY_COUNT ==> result is Ok && result->Ok_0@ == self@[index as int],
            index >= CATEGORY_COUNT ==> result == Err::<&ScoreCategory, GameError>(
                GameError::IndexOutOfRange,
            ),
    {
        proof {
            use_type_invariant(self);
        }
        if index >= CATEGORY_COUNT {
            return Err(GameError::IndexOutOfRange);
        }
        Ok(&self.categories[index])
    }

    /// The thirteen categories in their order, for display.
    pub fn categories(&self) -> (categories: &[ScoreCategory; 13])
        ensures
            card_wf(self@),
            forall|i: int| 0 <= i < CATEGORY_COUNT ==> (#[trigger] categories@[i])@ == self@[i],
    {
        proof {
            use_type_invariant(self);
        }
        &self.categories
    }

    /// Scores `dice` in the category at `index`: evaluates the category's rule
    /// and commits the points, unless the index is out of range or the
    /// category is filled already. Returns the points awarded.
    pub fn apply_score(&mut self, index: usize, dice: &[u8; 5]) -> (result: Result<u32, GameError>)
        ensures
            result == score_reply(old(self)@, index as int, dice@),
            final(self)@ == after_score(old(self)@, index as int, dice@),
            card_wf(old(self)@),
            card_wf(final(self)@),
    {
        proof {
            use_type_invariant(&*self);
        }
        if index >= CATEGORY_COUNT {
            return Err(GameError::IndexOutOfRange);
        }
        let mut category = self.categories[index];
        assert(category@ == self@[index as int]);
        if category.is_filled() {
            return Err(GameError::AlreadyFilled);
        }
        let points = category.evaluate(dice);
        proof {
            lemma_score_bound(category@.rule, dice@);
        }
        let committed = category.commit(points);
        assert(committed is Ok);
        let ghost before = self@;
        self.categories[index] = category;
        proof {
            assert(self@ =~= before.update(index as int, before[index as int].committed(points as nat)));
        }
        Ok(points)
    }
}

/// One category more adds its contribution to the total and, if filled, one to
/// the number of filled categories.
pub proof fn lemma_card_step(card: Seq<CategoryState>, i: int)
    requires
        0 <= i < card.len(),
    ensures
        total(card.take(i + 1)) == total(card.take(i)) + card[i].contribution(),
        filled_count(card.take(i + 1)) == filled_count(card.take(i)) + if card[i].filled {
            1nat
        } else {
            0nat
        },
{
    assert(card.take(i + 1).drop_last() =~= card.take(i));
}

/// Replacing one category changes the total by the difference of the two
/// contributions, and the number of filled categories accordingly.
pub proof fn lemma_replace(card: Seq<CategoryState>, index: int, category: CategoryState)
    requires
        0 <= index < card.len(),
    ensures
        total(card.update(index, category)) + card[index].contribution() == total(card)
            + category.contribution(),
        filled_count(card.update(index, category)) + (if card[index].filled {
            1nat
        } else {
            0nat
        }) == filled_count(card) + (if category.filled {
            1nat
        } else {
            0nat
        }),
    decreases card.len(),
{
    let next = card.update(index, category);
    if index == card.len() - 1 {
        assert(next.drop_last() =~= card.drop_last());
    } else {
        lemma_replace(card.drop_last(), index, category);
        assert(next.drop_last() =~= card.drop_last().update(index, category));
    }
}

/// There are no more filled categories than categories, and all are filled
/// exactly if none is open.
pub proof fn lemma_filled_count(card: Seq<CategoryState>)
    ensures
        filled_count(card) <= card.len(),
        has_open(card) <==> filled_count(card) < card.len(),
    decreases card.len(),
{
    if card.len() > 0 {
        let rest = card.drop_last();
        lemma_filled_count(rest);
        if has_open(rest) {
            let i = choose|i: int| 0 <= i < rest.len() && !(#[trigger] rest[i]).filled;
            assert(!card[i].filled);
        }
        if has_open(card) {
            let i = choose|i: int| 0 <= i < card.len() && !(#[trigger] card[i]).filled;
            if i < rest.len() {
                assert(!rest[i].filled);
            }
        }
        if !card.last().filled {
            assert(!card[card.len() - 1].filled);
        }
    }
}

/// Total score: the sum of the points of the filled categories.
pub fn get_score(scorecard: &Scorecard) -> (score: u32)
    ensures
        score == total(scorecard@),
{
    let categories = scorecard.categories();
    let mut score: u32 = 0;
    let mut i: usize = 0;
    while i < CATEGORY_COUNT
        invariant
            i <= CATEGORY_COUNT,
            card_wf(scorecard@),
            forall|k: int| 0 <= k < CATEGORY_COUNT ==> (#[trigger] categories@[k])@ == scorecard@[k],
            score == total(scorecard@.take(i as int)),
            score <= MAX_POINTS * i,
        decreases CATEGORY_COUNT - i,
    {
        proof {
            lemma_card_step(scorecard@, i as int);
            assert(slot_wf(scorecard@[i as int], i as int));
        }
        score = score + categories[i].get_points();
        i = i + 1;
    }
    assert(scorecard@.take(CATEGORY_COUNT as int) =~= scorecard@);
    score
}

/// Whether some category is still open, that is, whether the game goes on.
pub fn empty_section(scorecard: &Scorecard) -> (open: bool)
    ensures
        open == has_open(scorecard@),
        open == (filled_count(scorecard@) < CATEGORY_COUNT),
{
    let categories = scorecard.categories();
    proof {
        lemma_filled_count(scorecard@);
    }
    let mut i: usize = 0;
    while i < CATEGORY_COUNT
        invariant
            i <= CATEGORY_COUNT,
            card_wf(scorecard@),
            forall|k: int| 0 <= k < CATEGORY_COUNT ==> (#[trigger] categories@[k])@ == scorecard@[k],
            forall|k: int| 0 <= k < i ==> (#[trigger] scorecard@[k]).filled,
            has_open(scorecard@) <==> filled_count(scorecard@) < CATEGORY_COUNT,
        decreases CATEGORY_COUNT - i,
    {
        if !categories[i].is_filled() {
            assert(!scorecard@[i as int].filled);
            return true;
        }
        i = i + 1;
    }
    false
}

/// A granted request to score adds the points awarded to the total and fills
/// one more category; a refused one changes neither. So the total never
/// decreases.
pub proof fn lemma_total_grows(card: Seq<CategoryState>, index: int, dice: Seq<u8>)
    requires
        card_wf(card),
        dice.len() == 5,
    ensures
        card_wf(after_score(card, index, dice)),
        total(after_score(card, index, dice)) >= total(card),
        score_reply(card, index, dice) is Ok ==> total(after_score(card, index, dice)) == total(
            card,
        ) + score_reply(card, index, dice)->Ok_0 && filled_count(after_score(card, index, dice))
            == filled_count(card) + 1,
        score_reply(card, index, dice) is Err ==> after_score(card, index, dice) == card,
{
    if score_reply(card, index, dice) is Ok {
        assert(slot_wf(card[index], index));
        lemma_score_bound(card[index].rule, dice);
        lemma_replace(card, index, card[index].committed(card[index].rule.score(dice)));
    }
}

/// Scoring twice in the same category: the second request is refused as
/// already filled, whatever the dice, and leaves the card, and with it the
/// points of the first request, as they were.
pub proof fn lemma_second_score_refused(
    card: Seq<CategoryState>,
    index: int,
    first: Seq<u8>,
    second: Seq<u8>,
)
    requires
        card_wf(card),
        first.len() == 5,
        second.len() == 5,
        score_reply(card, index, first) is Ok,
    ensures
        score_reply(after_score(card, index, first), index, second) == Err::<u32, GameError>(
            GameError::AlreadyFilled,
        ),
        after_score(after_score(card, index, first), index, second) == after_score(
            card,
            index,
            first,
        ),
        after_score(card, index, first)[index].points == score_reply(card, index, first)->Ok_0,
{
    assert(slot_wf(card[index], index));
    lemma_score_bound(card[index].rule, first);
}

/// A filled category is never touched again: whatever is scored afterwards,
/// and wherever, it keeps its points.
pub proof fn lemma_commitment_is_final(
    card: Seq<CategoryState>,
    filled: int,
    index: int,
    dice: Seq<u8>,
)
    requires
        0 <= filled < card.len(),
        card[filled].filled,
    ensures
        after_score(card, index, dice)[filled] == card[filled],
{
}

/// Scoring changes neither the names nor the rules, and touches no category
/// but the one that it fills.
pub proof fn lemma_score_touches_one(card: Seq<CategoryState>, index: int, dice: Seq<u8>)
    ensures
        after_score(card, index, dice).len() == card.len(),
        forall|i: int|
            0 <= i < card.len() ==> {
                &&& (#[trigger] after_score(card, index, dice)[i]).name == card[i].name
                &&& after_score(card, index, dice)[i].rule == card[i].rule
                &&& i != index ==> after_score(card, index, dice)[i] == card[i]
            },
{
}

/// The thirteen categories have thirteen different names.
pub proof fn lemma_names_differ(i: int, j: int)
    requires
        0 <= i < j < CATEGORY_COUNT,
    ensures
        name_at(i) != name_at(j),
{
    reveal_strlit("Aces");
    reveal_strlit("Twos");
    reveal_strlit("Threes");
    reveal_strlit("Fours");
    reveal_strlit("Fives");
    reveal_strlit("Sixes");
    reveal_strlit("3-of-a-Kind");
    reveal_strlit("4-of-a-Kind");
    reveal_strlit("Yahtzee");
    reveal_strlit("Small Straight");
    reveal_strlit("Large Straight");
    reveal_strlit("Full House");
    reveal_strlit("Chance");
    if name_at(i).len() == name_at(j).len() {
        assert(name_at(i)[0] != name_at(j)[0] || name_at(i)[1] != name_at(j)[1]);
    }
}

} // verus!
