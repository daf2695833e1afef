//! A die and the set of five dice that a turn is played with.

use crate::error::GameError;
use crate::random::draw_between;
use vstd::prelude::*;

verus! {

/// Number of dice in play.
pub const DICE_COUNT: usize = 5;

/// Highest face of a die; the lowest is 1.
pub const HIGHEST_FACE: u8 = 6;

/// One die: the face it shows and whether it is held back from rolls.
///
/// A value of 0 marks a die that has not been rolled in the current turn.
#[derive(Clone, Copy, Debug, PartialEq, Eq, Structural)]
pub struct Die {
    pub value: u8,
    pub frozen: bool,
}

/// Whether `face` is one of the six faces that a roll can produce.
pub open spec fn is_face(face: u8) -> bool {
    1 <= face <= HIGHEST_FACE
}

impl Die {
    /// The die before its first roll: no face, not frozen.
    pub open spec fn unrolled() -> Die {
        Die { value: 0, frozen: false }
    }

    /// A die shows nothing or one of the six faces.
    pub open spec fn wf(self) -> bool {
        self.value <= HIGHEST_FACE
    }

    /// The die after a roll that drew `face`: a frozen die ignores the draw.
    pub open spec fn rolled(self, face: u8) -> Die {
        if self.frozen {
            self
        } else {
            Die { value: face, frozen: false }
        }
    }

    /// The die with its frozen flag flipped and its face kept.
    pub open spec fn toggled(self) -> Die {
        Die { value: self.value, frozen: !self.frozen }
    }

    /// What any roll guarantees: the frozen flag stays, a frozen die keeps its
    /// face, and an unfrozen die shows one of the six faces.
    pub open spec fn is_roll_of(self, before: Die) -> bool {
        &&& self.frozen == before.frozen
        &&& before.frozen ==> self.value == before.value
        &&& !before.frozen ==> is_face(self.value)
    }

    /// Creates an unrolled die.
    pub fn new() -> (die: Die)
        ensures
            die == Die::unrolled(),
    {
        Die { value: 0, frozen: false }
    }

    /// Applies the outcome `face` of a draw to this die.
    pub fn land_on(&mut self, face: u8)
        requires
            is_face(face),
        ensures
            *final(self) == old(self).rolled(face),
    {
        if !self.frozen {
            self.value = face;
        }
    }

    /// Rolls the die: an unfrozen die takes a random face, a frozen die is
    /// left alone and draws nothing.
    pub fn roll(&mut self)
        ensures
            final(self).is_roll_of(*old(self)),
    {
        if !self.frozen {
            let mut rng = rand::thread_rng();
            let face = draw_between(&mut rng, 1, HIGHEST_FACE + 1);
            self.land_on(face);
        }
    }

    /// Flips the frozen flag. The face is not touched.
    pub fn toggle_freeze(&mut self)
        ensures
            *final(self) == old(self).toggled(),
    {
        self.frozen = !self.frozen;
    }
}

impl Default for Die {
    fn default() -> (die: Die)
        ensures
            die == Die::unrolled(),
    {
        Die::new()
    }
}

/// Five dice before the first roll of a turn.
pub open spec fn unrolled_dice() -> Seq<Die> {
    Seq::new(DICE_COUNT as nat, |i: int| Die::unrolled())
}

/// Whether `faces` holds one drawn face for each of the five dice.
pub open spec fn are_faces(faces: Seq<u8>) -> bool {
    &&& faces.len() == DICE_COUNT
    &&& forall|i: int| 0 <= i < faces.len() ==> is_face(#[trigger] faces[i])
}

/// The dice after a roll that drew `faces[i]` for die `i`.
pub open spec fn rolled_dice(dice: Seq<Die>, faces: Seq<u8>) -> Seq<Die> {
    Seq::new(dice.len(), |i: int| dice[i].rolled(faces[i]))
}

/// What any roll of all dice guarantees, die by die.
pub open spec fn is_roll_of(after: Seq<Die>, before: Seq<Die>) -> bool {
    &&& after.len() == before.len()
    &&& forall|i: int| 0 <= i < before.len() ==> (#[trigger] after[i]).is_roll_of(before[i])
}

/// The face values of the dice, in order.
pub open spec fn values_of(dice: Seq<Die>) -> Seq<u8> {
    Seq::new(dice.len(), |i: int| dice[i].value)
}

/// Whether every die shows nothing or one of the six faces.
pub open spec fn dice_wf(dice: Seq<Die>) -> bool {
    &&& dice.len() == DICE_COUNT
    &&& forall|i: int| 0 <= i < dice.len() ==> (#[trigger] dice[i]).wf()
}

/// A roll with drawn faces is a roll: frozen dice keep their faces and the
/// others show one of the six faces.
pub proof fn lemma_rolled_is_roll(dice: Seq<Die>, faces: Seq<u8>)
    requires
        dice.len() == DICE_COUNT,
        are_faces(faces),
    ensures
        is_roll_of(rolled_dice(dice, faces), dice),
        dice_wf(dice) ==> dice_wf(rolled_dice(dice, faces)),
{
    assert forall|i: int| 0 <= i < dice.len() implies (#[trigger] rolled_dice(
        dice,
        faces,
    )[i]).is_roll_of(dice[i]) by {
        assert(is_face(faces[i]));
    }
    if dice_wf(dice) {
        assert forall|i: int| 0 <= i < dice.len() implies (#[trigger] rolled_dice(
            dice,
            faces,
        )[i]).wf() by {
            assert(is_face(faces[i]));
            assert(dice[i].wf());
        }
    }
}

/// Every roll is a roll with some draws: if `after` keeps the frozen dice and
/// shows a face on every other die, then five faces exist that lead from
/// `before` to `after`.
pub proof fn lemma_roll_has_draws(before: Seq<Die>, after: Seq<Die>)
    requires
        before.len() == DICE_COUNT,
        is_roll_of(after, before),
    ensures
        exists|faces: Seq<u8>| are_faces(faces) && after == #[trigger] rolled_dice(before, faces),
{
    let faces = Seq::new(
        DICE_COUNT as nat,
        |i: int|
            if before[i].frozen {
                1u8
            } else {
                after[i].value
            },
    );
    assert forall|i: int| 0 <= i < faces.len() implies is_face(#[trigger] faces[i]) by {
        assert(after[i].is_roll_of(before[i]));
    }
    assert forall|i: int| 0 <= i < after.len() implies after[i] == rolled_dice(before, faces)[i] by {
        assert(after[i].is_roll_of(before[i]));
    }
    assert(after =~= rolled_dice(before, faces));
}

/// Whether `faces` holds five faces, so that it can serve as the draws of a
/// roll.
pub fn valid_faces(faces: &[u8; 5]) -> (valid: bool)
    ensures
        valid == are_faces(faces@),
{
    let mut i: usize = 0;
    while i < 5
        invariant
            i <= 5,
            forall|j: int| 0 <= j < i ==> is_face(#[trigger] faces@[j]),
        decreases 5 - i,
    {
        if faces[i] < 1 || faces[i] > HIGHEST_FACE {
            assert(!is_face(faces@[i as int]));
            return false;
        }
        i = i + 1;
    }
    true
}

/// The five dice of the game, addressed by index 0..5.
#[derive(Clone, Copy, Debug, PartialEq, Eq)]
pub struct DiceSet {
    dice: [Die; 5],
}

impl View for DiceSet {
    type V = Seq<Die>;

    closed spec fn view(&self) -> Seq<Die> {
        self.dice@
    }
}

impl DiceSet {
    #[verifier::type_invariant]
    spec fn inv(self) -> bool {
        dice_wf(self.dice@)
    }

    /// There are always five dice.
    pub proof fn lemma_len(self)
        ensures
            self@.len() == DICE_COUNT,
    {
    }

    /// Creates five unrolled dice.
    pub fn new() -> (set: DiceSet)
        ensures
            set@ == unrolled_dice(),
    {
        let set = DiceSet { dice: [Die { value: 0, frozen: false };5] };
        assert(set@ =~= unrolled_dice());
        set
    }

    /// Rolls every die that is not frozen, each with a draw of its own.
    pub fn roll_all(&mut self)
        ensures
            is_roll_of(final(self)@, old(self)@),
            dice_wf(final(self)@),
    {
        proof {
            use_type_invariant(&*self);
        }
        let mut i: usize = 0;
        while i < 5
            invariant
                i <= 5,
                dice_wf(self.dice@),
                forall|j: int| 0 <= j < i ==> (#[trigger] self.dice@[j]).is_roll_of(old(self).dice@[j]),
                forall|j: int| i <= j < 5 ==> self.dice@[j] == old(self).dice@[j],
            decreases 5 - i,
        {
            let mut die = self.dice[i];
            die.roll();
            self.dice[i] = die;
            i = i + 1;
        }
    }

    /// Applies the draws `faces` to the dice: die `i` lands on `faces[i]`
    /// unless it is frozen. The draws must be faces; `valid_faces` tells.
    pub fn roll_all_with(&mut self, faces: &[u8; 5])
        requires
            are_faces(faces@),
        ensures
            final(self)@ == rolled_dice(old(self)@, faces@),
            dice_wf(final(self)@),
    {
        proof {
            use_type_invariant(&*self);
        }
        let mut i: usize = 0;
        while i < 5
            invariant
                i <= 5,
                are_faces(faces@),
                dice_wf(self.dice@),
                forall|j: int| 0 <= j < i ==> self.dice@[j] == old(self).dice@[j].rolled(faces@[j]),
                forall|j: int| i <= j < 5 ==> self.dice@[j] == old(self).dice@[j],
            decreases 5 - i,
        {
            let mut die = self.dice[i];
            assert(is_face(faces@[i as int]));
            die.land_on(faces[i]);
            self.dice[i] = die;
            i = i + 1;
        }
        assert(self@ =~= rolled_dice(old(self)@, faces@));
    }

    /// Flips the frozen flag of the die at `index`.
    pub fn toggle_freeze(&mut self, index: usize) -> (result: Result<(), GameError>)
        ensures
            index < DICE_COUNT ==> result == Ok::<(), GameError>(()) && final(self)@ == old(self)@.update(
                index as int,
                old(self)@[index as int].toggled(),
            ),
            index >= DICE_COUNT ==> result == Err::<(), GameError>(GameError::IndexOutOfRange)
                && final(self)@ == old(self)@,
            dice_wf(final(self)@),
    {
        proof {
            use_type_invariant(&*self);
        }
        if index >= DICE_COUNT {
            return Err(GameError::IndexOutOfRange);
        }
        let mut die = self.dice[index];
        die.toggle_freeze();
        self.dice[index] = die;
        Ok(())
    }

    /// Puts every die back to its state before the first roll.
    pub fn reset(&mut self)
        ensures
            final(self)@ == unrolled_dice(),
    {
        self.dice = [Die { value: 0, frozen: false };5];
        assert(self@ =~= unrolled_dice());
    }

    /// A copy of the five dice, in order, for display.
    pub fn snapshot(&self) -> (dice: [Die; 5])
        ensures
            dice@ == self@,
            dice_wf(dice@),
    {
        proof {
            use_type_invariant(self);
        }
        self.dice
    }

    /// The face values of the five dice, in order.
    pub fn values(&self) -> (values: [u8; 5])
        ensures
            values@ == values_of(self@),
    {
        let values = [
            self.dice[0].value,
            self.dice[1].value,
            self.dice[2].value,
            self.dice[3].value,
            self.dice[4].value,
        ];
        assert(values@ =~= values_of(self@));
        values
    }
}

} // verus!
