//! A scoring category: a named rule that is committed to at most once.

use crate::error::GameError;
use crate::rules::CategoryKind;
use vstd::prelude::*;

verus! {

/// What a category is, as a mathematical value.
pub struct CategoryState {
    pub name: Seq<char>,
    pub filled: bool,
    pub points: nat,
    pub rule: CategoryKind,
}

impl CategoryState {
    /// An open category holds no points.
    pub open spec fn wf(self) -> bool {
        !self.filled ==> self.points == 0
    }

    /// The category as it is created: not filled, with no points.
    pub open spec fn blank(name: Seq<char>, rule: CategoryKind) -> CategoryState {
        CategoryState { name, filled: false, points: 0, rule }
    }

    /// The category once `points` have been committed to it.
    pub open spec fn committed(self, points: nat) -> CategoryState {
        CategoryState { name: self.name, filled: true, points, rule: self.rule }
    }

    /// What the category adds to the total: its points once filled.
    pub open spec fn contribution(self) -> nat {
        if self.filled {
            self.points
        } else {
            0
        }
    }
}

/// One slot of the scorecard. Its points are set once, when it is filled, and
/// never change afterwards.
#[derive(Clone, Copy, Debug, PartialEq, Eq)]
pub struct ScoreCategory {
    name: &'static str,
    filled: bool,
    points: u32,
    rule: CategoryKind,
}

impl View for ScoreCategory {
    type V = CategoryState;

    closed spec fn view(&self) -> CategoryState {
        CategoryState {
            name: self.name@,
            filled: self.filled,
            points: self.points as nat,
            rule: self.rule,
        }
    }
}

impl ScoreCategory {
    #[verifier::type_invariant]
    spec fn inv(self) -> bool {
        !self.filled ==> self.points == 0
    }

    /// Creates an open category with the given name and rule.
    pub fn new(name: &'static str, rule: CategoryKind) -> (category: ScoreCategory)
        ensures
            category@ == CategoryState::blank(name@, rule),
    {
        ScoreCategory { name, filled: false, points: 0, rule }
    }

    /// Whether points have been committed to this category.
    pub fn is_filled(&self) -> (filled: bool)
        ensures
            filled == self@.filled,
    {
        self.filled
    }

    /// The committed points; 0 while the category is open.
    pub fn get_points(&self) -> (points: u32)
        ensures
            points == self@.points,
            points == self@.contribution(),
            self@.wf(),
    {
        proof {
            use_type_invariant(self);
        }
        self.points
    }

    /// The committed points, or `None` while the category is open.
    pub fn committed_points(&self) -> (points: Option<u32>)
        ensures
            points == if self@.filled {
                Some(self@.points as u32)
            } else {
                None
            },
    {
        if self.filled {
            Some(self.points)
        } else {
            None
        }
    }

    /// The label of the category.
    pub fn get_name(&self) -> (name: &'static str)
        ensures
            name@ == self@.name,
    {
        self.name
    }

    /// The rule by which the category scores.
    pub fn rule(&self) -> (rule: CategoryKind)
        ensures
            rule == self@.rule,
    {
        self.rule
    }

    /// The points that this category would award for the five dice. The
    /// category itself is not touched.
    pub fn evaluate(&self, dice: &[u8; 5]) -> (points: u32)
        ensures
            points == self@.rule.score(dice@),
    {
        self.rule.evaluate(dice)
    }

    /// Commits `points` to the category. An open category becomes filled with
    /// these points; a filled one refuses and stays as it is.
    pub fn commit(&mut self, points: u32) -> (result: Result<(), GameError>)
        ensures
            old(self)@.filled ==> result == Err::<(), GameError>(GameError::AlreadyFilled)
                && final(self)@ == old(self)@,
            !old(self)@.filled ==> result == Ok::<(), GameError>(()) && final(self)@ == old(
                self,
            )@.committed(points as nat),
            final(self)@.wf(),
    {
        proof {
            use_type_invariant(&*self);
        }
        if self.filled {
            return Err(GameError::AlreadyFilled);
        }
        self.filled = true;
        self.points = points;
        Ok(())
    }
}

} // verus!
