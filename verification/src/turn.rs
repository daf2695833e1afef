//! The turn controller: the state machine that sequences rolls, freezes and
//! the commitment of a category, turn after turn, until the card is full.

use crate::category::CategoryState;
use crate::dice::{
    are_faces, dice_wf, is_roll_of, lemma_roll_has_draws, lemma_rolled_is_roll, rolled_dice,
    unrolled_dice, values_of, DiceSet, Die, DICE_COUNT,
};
use crate::error::GameError;
use crate::scorecard::{
    after_score, blank_card, card_wf, empty_section, filled_count, has_open,
    lemma_commitment_is_final, lemma_filled_count, lemma_total_grows, score_reply, total,
    Scorecard, CATEGORY_COUNT,
};
use vstd::prelude::*;

verus! {

/// Number of rolls that each turn starts with.
pub const MAX_ROLLS: u8 = 3;

/// A command from the player.
#[derive(Clone, Copy, Debug, PartialEq, Eq, Structural)]
pub enum Command {
    /// Roll the dice that are not frozen.
    Roll,
    /// Freeze or unfreeze the die at this index (0..5).
    ToggleFreeze(usize),
    /// Score the dice in the category at this index (0..13) and end the turn.
    Score(usize),
    /// Leave the game.
    Quit,
}

/// What a command is about, without its argument.
#[derive(Clone, Copy, Debug, PartialEq, Eq, Structural)]
pub enum Action {
    Roll,
    ToggleFreeze,
    Score,
    Quit,
}

/// What a granted command did.
#[derive(Clone, Copy, Debug, PartialEq, Eq, Structural)]
pub enum Outcome {
    /// The dice were rolled.
    Rolled,
    /// A die was frozen or unfrozen.
    Toggled,
    /// A category was filled with these points, and a new turn began.
    Scored(u32),
    /// The player left; nothing changed.
    Quit,
}

/// Where a turn stands, by the rolls that are left.
#[derive(Clone, Copy, Debug, PartialEq, Eq, Structural)]
pub enum Phase {
    /// No roll yet in this turn.
    Fresh,
    /// At least one roll made, at least one left.
    Active,
    /// No roll left.
    Exhausted,
}

/// The phase of a turn with `rolls_remaining` rolls left.
pub open spec fn phase_of(rolls_remaining: nat) -> Phase {
    if rolls_remaining == 0 {
        Phase::Exhausted
    } else if rolls_remaining >= MAX_ROLLS {
        Phase::Fresh
    } else {
        Phase::Active
    }
}

/// Which actions a phase offers: a fresh turn only the roll, an exhausted turn
/// everything but the roll, an active turn everything. Quitting is always
/// offered.
pub open spec fn offered(phase: Phase, action: Action) -> bool {
    match action {
        Action::Quit => true,
        Action::Roll => phase != Phase::Exhausted,
        Action::ToggleFreeze => phase != Phase::Fresh,
        Action::Score => phase != Phase::Fresh,
    }
}

impl Command {
    /// What this command is about.
    pub open spec fn action_of(self) -> Action {
        match self {
            Command::Roll => Action::Roll,
            Command::ToggleFreeze(_) => Action::ToggleFreeze,
            Command::Score(_) => Action::Score,
            Command::Quit => Action::Quit,
        }
    }

    /// What this command is about.
    pub fn action(&self) -> (action: Action)
        ensures
            action == self.action_of(),
    {
        match self {
            Command::Roll => Action::Roll,
            Command::ToggleFreeze(_) => Action::ToggleFreeze,
            Command::Score(_) => Action::Score,
            Command::Quit => Action::Quit,
        }
    }
}

/// The state of a game, as a mathematical value.
pub struct TurnState {
    pub rolls_remaining: nat,
    pub dice: Seq<Die>,
    pub card: Seq<CategoryState>,
}

impl TurnState {
    /// A state of a game: at most three rolls left, five dice, thirteen
    /// categories.
    pub open spec fn wf(self) -> bool {
        &&& self.rolls_remaining <= MAX_ROLLS
        &&& dice_wf(self.dice)
        &&& card_wf(self.card)
    }

    /// The state in which a game starts.
    pub open spec fn start() -> TurnState {
        TurnState { rolls_remaining: MAX_ROLLS as nat, dice: unrolled_dice(), card: blank_card() }
    }

    /// The phase of the current turn.
    pub open spec fn phase(self) -> Phase {
        phase_of(self.rolls_remaining)
    }

    /// Whether the game is over: every category is filled.
    pub open spec fn is_over(self) -> bool {
        !has_open(self.card)
    }

    /// Whether the game offers `action` to the player in this state. Once the
    /// game is over, it offers nothing but to quit.
    pub open spec fn permits(self, action: Action) -> bool {
        action == Action::Quit || (!self.is_over() && offered(self.phase(), action))
    }

    /// The state after a granted roll that drew `faces`.
    pub open spec fn rolled(self, faces: Seq<u8>) -> TurnState {
        TurnState {
            rolls_remaining: (self.rolls_remaining - 1) as nat,
            dice: rolled_dice(self.dice, faces),
            card: self.card,
        }
    }

    /// Whether `after` can follow from this state by a granted roll: one roll
    /// less, frozen dice as they were, the others showing a face, the card
    /// untouched.
    pub open spec fn rolls_to(self, after: TurnState) -> bool {
        &&& after.rolls_remaining == self.rolls_remaining - 1
        &&& is_roll_of(after.dice, self.dice)
        &&& after.card == self.card
    }

    /// The state after a granted freeze or unfreeze of the die at `index`.
    pub open spec fn toggled(self, index: int) -> TurnState {
        TurnState {
            rolls_remaining: self.rolls_remaining,
            dice: self.dice.update(index, self.dice[index].toggled()),
            card: self.card,
        }
    }

    /// The state after a granted request to score in the category at `index`:
    /// the category holds its points and a fresh turn begins.
    pub open spec fn scored(self, index: int) -> TurnState {
        TurnState {
            rolls_remaining: MAX_ROLLS as nat,
            dice: unrolled_dice(),
            card: after_score(self.card, index, values_of(self.dice)),
        }
    }

    /// The answer to `command` in this state.
    pub open spec fn reply(self, command: Command) -> Result<Outcome, GameError> {
        match command {
            Command::Roll => if self.rolls_remaining == 0 {
                Err(GameError::InvalidRoll)
            } else {
                Ok(Outcome::Rolled)
            },
            Command::ToggleFreeze(index) => if index < DICE_COUNT {
                Ok(Outcome::Toggled)
            } else {
                Err(GameError::IndexOutOfRange)
            },
            Command::Score(index) => match score_reply(
                self.card,
                index as int,
                values_of(self.dice),
            ) {
                Ok(points) => Ok(Outcome::Scored(points)),
                Err(error) => Err(error),
            },
            Command::Quit => Ok(Outcome::Quit),
        }
    }

    /// The state after `command`, where a roll, if granted, draws `faces`. A
    /// refused command and a quit leave the state as it is.
    pub open spec fn step(self, command: Command, faces: Seq<u8>) -> TurnState {
        if self.reply(command) is Err {
            self
        } else {
            match command {
                Command::Roll => self.rolled(faces),
                Command::ToggleFreeze(index) => self.toggled(index as int),
                Command::Score(index) => self.scored(index as int),
                Command::Quit => self,
            }
        }
    }
}

/// Starts the next turn: gives back the full number of rolls and puts every
/// die back to unrolled and unfrozen.
pub fn reset_turn(rolls: &mut u8, dice: &mut DiceSet)
    ensures
        *final(rolls) == MAX_ROLLS,
        final(dice)@ == unrolled_dice(),
{
    *rolls = MAX_ROLLS;
    dice.reset();
}

/// A game in progress: the dice, the scorecard and the rolls left in the
/// current turn.
#[derive(Debug, PartialEq, Eq)]
pub struct TurnController {
    rolls_remaining: u8,
    dice: DiceSet,
    scorecard: Scorecard,
}

impl View for TurnController {
    type V = TurnState;

    closed spec fn view(&self) -> TurnState {
        TurnState {
            rolls_remaining: self.rolls_remaining as nat,
            dice: self.dice@,
            card: self.scorecard@,
        }
    }
}

impl Clone for TurnController {
    /// A second game in the same state.
    fn clone(&self) -> (copy: TurnController)
        ensures
            copy@ == self@,
    {
        proof {
            use_type_invariant(self);
        }
        TurnController {
            rolls_remaining: self.rolls_remaining,
            dice: self.dice,
            scorecard: self.scorecard,
        }
    }
}

impl TurnController {
    #[verifier::type_invariant]
    spec fn inv(self) -> bool {
        &&& self.rolls_remaining <= MAX_ROLLS
        &&& dice_wf(self.dice@)
        &&& card_wf(self.scorecard@)
    }

    /// Starts a game: a blank card, unrolled dice, a fresh turn.
    pub fn new() -> (game: TurnController)
        ensures
            game@ == TurnState::start(),
            game@.wf(),
    {
        TurnController { rolls_remaining: MAX_ROLLS, dice: DiceSet::new(), scorecard: Scorecard::new() }
    }

    /// The rolls left in the current turn, between 0 and 3.
    pub fn rolls_remaining(&self) -> (rolls: u8)
        ensures
            rolls == self@.rolls_remaining,
            rolls <= MAX_ROLLS,
            self@.wf(),
    {
        proof {
            use_type_invariant(self);
        }
        self.rolls_remaining
    }

    /// The dice, for display.
    pub fn dice(&self) -> (dice: &DiceSet)
        ensures
            dice@ == self@.dice,
            dice_wf(dice@),
    {
        proof {
            use_type_invariant(self);
        }
        &self.dice
    }

    /// The scorecard, for display.
    pub fn scorecard(&self) -> (scorecard: &Scorecard)
        ensures
            scorecard@ == self@.card,
            card_wf(scorecard@),
    {
        proof {
            use_type_invariant(self);
        }
        &self.scorecard
    }

    /// The phase of the current turn.
    pub fn phase(&self) -> (phase: Phase)
        ensures
            phase == self@.phase(),
    {
        if self.rolls_remaining == 0 {
            Phase::Exhausted
        } else if self.rolls_remaining >= MAX_ROLLS {
            Phase::Fresh
        } else {
            Phase::Active
        }
    }

    /// Whether the game is over. It is over exactly when all thirteen
    /// categories are filled.
    pub fn is_over(&self) -> (over: bool)
        ensures
            over == self@.is_over(),
            over == (filled_count(self@.card) == CATEGORY_COUNT),
    {
        proof {
            lemma_filled_count(self@.card);
            use_type_invariant(self);
        }
        !empty_section(&self.scorecard)
    }

    /// Whether the game offers `action` to the player now.
    pub fn permits(&self, action: Action) -> (permitted: bool)
        ensures
            permitted == self@.permits(action),
    {
        match action {
            Action::Quit => true,
            Action::Roll => !self.is_over() && self.rolls_remaining != 0,
            Action::ToggleFreeze => !self.is_over() && self.rolls_remaining < MAX_ROLLS,
            Action::Score => !self.is_over() && self.rolls_remaining < MAX_ROLLS,
        }
    }

    /// Rolls the dice that are not frozen and uses up one roll. Refused, with
    /// nothing changed, when no roll is left.
    pub fn roll(&mut self) -> (result: Result<(), GameError>)
        ensures
            old(self)@.rolls_remaining == 0 ==> result == Err::<(), GameError>(
                GameError::InvalidRoll,
            ) && final(self)@ == old(self)@,
            old(self)@.rolls_remaining > 0 ==> result == Ok::<(), GameError>(()) && old(
                self,
            )@.rolls_to(final(self)@),
            final(self)@.wf(),
    {
        proof {
            use_type_invariant(&*self);
        }
        if self.rolls_remaining == 0 {
            return Err(GameError::InvalidRoll);
        }
        let mut dice = self.dice;
        dice.roll_all();
        self.rolls_remaining = self.rolls_remaining - 1;
        self.dice = dice;
        Ok(())
    }

    /// Like `roll`, with the draws given: die `i` lands on `faces[i]` unless it
    /// is frozen. The draws must be faces; `valid_faces` tells.
    pub fn roll_with(&mut self, faces: &[u8; 5]) -> (result: Result<(), GameError>)
        requires
            are_faces(faces@),
        ensures
            old(self)@.rolls_remaining == 0 ==> result == Err::<(), GameError>(
                GameError::InvalidRoll,
            ) && final(self)@ == old(self)@,
            old(self)@.rolls_remaining > 0 ==> result == Ok::<(), GameError>(()) && final(self)@
                == old(self)@.rolled(faces@),
            final(self)@ == old(self)@.step(Command::Roll, faces@),
            final(self)@.wf(),
    {
        proof {
            use_type_invariant(&*self);
        }
        if self.rolls_remaining == 0 {
            return Err(GameError::InvalidRoll);
        }
        let mut dice = self.dice;
        dice.roll_all_with(faces);
        self.rolls_remaining = self.rolls_remaining - 1;
        self.dice = dice;
        Ok(())
    }

    /// Freezes or unfreezes the die at `index`. Refused, with nothing changed,
    /// when `index` is not below 5.
    pub fn toggle_freeze(&mut self, index: usize) -> (result: Result<(), GameError>)
        ensures
            index < DICE_COUNT ==> result == Ok::<(), GameError>(()) && final(self)@ == old(
                self,
            )@.toggled(index as int),
            index >= DICE_COUNT ==> result == Err::<(), GameError>(GameError::IndexOutOfRange)
                && final(self)@ == old(self)@,
            final(self)@ == old(self)@.step(Command::ToggleFreeze(index), Seq::empty()),
            final(self)@.wf(),
    {
        proof {
            use_type_invariant(&*self);
        }
        let mut dice = self.dice;
        let result = dice.toggle_freeze(index);
        self.dice = dice;
        result
    }

    /// Scores the dice in the category at `index` and starts the next turn.
    /// Refused, with nothing changed, when `index` is not below 13 or the
    /// category is filled already. Returns the points awarded. The dice are
    /// scored as they lie; a die that has not been rolled counts as 0.
    pub fn score(&mut self, index: usize) -> (result: Result<u32, GameError>)
        ensures
            result == score_reply(old(self)@.card, index as int, values_of(old(self)@.dice)),
            result is Ok ==> final(self)@ == old(self)@.scored(index as int),
            result is Err ==> final(self)@ == old(self)@,
            final(self)@ == old(self)@.step(Command::Score(index), Seq::empty()),
            final(self)@.wf(),
    {
        proof {
            use_type_invariant(&*self);
        }
        let values = self.dice.values();
        let mut scorecard = self.scorecard;
        let result = scorecard.apply_score(index, &values);
        if result.is_ok() {
            let mut rolls = self.rolls_remaining;
            let mut dice = self.dice;
            reset_turn(&mut rolls, &mut dice);
            self.scorecard = scorecard;
            self.rolls_remaining = rolls;
            self.dice = dice;
        }
        result
    }

    /// Carries out `command`. A roll draws its faces at random. A refused
    /// command leaves the game as it was, and so does quitting: it is for the
    /// caller to stop.
    pub fn execute(&mut self, command: Command) -> (result: Result<Outcome, GameError>)
        ensures
            result == old(self)@.reply(command),
            result is Err ==> final(self)@ == old(self)@,
            result is Ok ==> match command {
                Command::Roll => old(self)@.rolls_to(final(self)@),
                Command::ToggleFreeze(index) => final(self)@ == old(self)@.toggled(index as int),
                Command::Score(index) => final(self)@ == old(self)@.scored(index as int),
                Command::Quit => final(self)@ == old(self)@,
            },
            exists|faces: Seq<u8>|
                are_faces(faces) && final(self)@ == #[trigger] old(self)@.step(command, faces),
            final(self)@.wf(),
            total(final(self)@.card) >= total(old(self)@.card),
    {
        proof {
            use_type_invariant(&*self);
        }
        let ghost ones = Seq::new(DICE_COUNT as nat, |i: int| 1u8);
        assert(are_faces(ones));
        match command {
            Command::Roll => {
                let rolled = self.roll();
                proof {
                    if rolled is Ok {
                        lemma_roll_has_draws(old(self)@.dice, self@.dice);
                        let faces = choose|faces: Seq<u8>|
                            are_faces(faces) && self@.dice == #[trigger] rolled_dice(
                                old(self)@.dice,
                                faces,
                            );
                        assert(self@ == old(self)@.step(command, faces));
                    } else {
                        assert(self@ == old(self)@.step(command, ones));
                    }
                }
                match rolled {
                    Ok(()) => Ok(Outcome::Rolled),
                    Err(error) => Err(error),
                }
            },
            Command::ToggleFreeze(index) => {
                let toggled = self.toggle_freeze(index);
                assert(self@ == old(self)@.step(command, ones));
                match toggled {
                    Ok(()) => Ok(Outcome::Toggled),
                    Err(error) => Err(error),
                }
            },
            Command::Score(index) => {
                proof {
                    lemma_total_grows(self@.card, index as int, values_of(self@.dice));
                }
                let scored = self.score(index);
                assert(self@ == old(self)@.step(command, ones));
                match scored {
                    Ok(points) => Ok(Outcome::Scored(points)),
                    Err(error) => Err(error),
                }
            },
            Command::Quit => {
                assert(self@ == old(self)@.step(command, ones));
                Ok(Outcome::Quit)
            },
        }
    }
}

/// A refused command changes nothing, and neither does quitting.
pub proof fn lemma_refused_changes_nothing(state: TurnState, command: Command, faces: Seq<u8>)
    ensures
        state.reply(command) is Err ==> state.step(command, faces) == state,
        command == Command::Quit ==> state.step(command, faces) == state && state.reply(command)
            == Ok::<Outcome, GameError>(Outcome::Quit),
{
}

/// Each error has its one cause: a roll with no roll left, an index out of
/// range, a category that is filled already.
pub proof fn lemma_errors(state: TurnState, command: Command)
    requires
        state.wf(),
    ensures
        state.reply(command) == Err::<Outcome, GameError>(GameError::InvalidRoll) <==> command
            == Command::Roll && state.rolls_remaining == 0,
        state.reply(command) == Err::<Outcome, GameError>(GameError::IndexOutOfRange) <==> (
        command matches Command::ToggleFreeze(index) && index >= DICE_COUNT) || (
        command matches Command::Score(index) && index >= CATEGORY_COUNT),
        state.reply(command) == Err::<Outcome, GameError>(GameError::AlreadyFilled) <==> (
        command matches Command::Score(index) && index < CATEGORY_COUNT
            && state.card[index as int].filled),
{
}

/// Every step leads from a state of a game to a state of a game.
pub proof fn lemma_step_keeps_wf(state: TurnState, command: Command, faces: Seq<u8>)
    requires
        state.wf(),
        command == Command::Roll ==> are_faces(faces),
    ensures
        state.step(command, faces).wf(),
{
    match command {
        Command::Roll => {
            lemma_rolled_is_roll(state.dice, faces);
        },
        Command::ToggleFreeze(index) => {
            if index < DICE_COUNT {
                assert(state.dice[index as int].wf());
            }
        },
        Command::Score(index) => {
            lemma_total_grows(state.card, index as int, values_of(state.dice));
        },
        Command::Quit => {},
    }
}

/// A granted roll uses up one roll, leaves every frozen die as it was, gives
/// every other die one of the six faces, and does not touch the card.
pub proof fn lemma_roll_respects_freeze(state: TurnState, faces: Seq<u8>)
    requires
        state.wf(),
        are_faces(faces),
        state.rolls_remaining > 0,
    ensures
        state.reply(Command::Roll) == Ok::<Outcome, GameError>(Outcome::Rolled),
        state.rolls_to(state.step(Command::Roll, faces)),
{
    lemma_rolled_is_roll(state.dice, faces);
}

/// A granted request to score ends the turn: afterwards every die is unrolled
/// and unfrozen, and all three rolls are available again.
pub proof fn lemma_score_resets_turn(state: TurnState, index: usize, faces: Seq<u8>)
    requires
        state.wf(),
        state.reply(Command::Score(index)) is Ok,
    ensures
        state.step(Command::Score(index), faces).rolls_remaining == 3,
        state.step(Command::Score(index), faces).phase() == Phase::Fresh,
        state.step(Command::Score(index), faces).dice.len() == 5,
        forall|i: int|
            0 <= i < 5 ==> {
                &&& (#[trigger] state.step(Command::Score(index), faces).dice[i]).value == 0
                &&& !state.step(Command::Score(index), faces).dice[i].frozen
            },
        state.step(Command::Score(index), faces).card[index as int].filled,
{
}

/// No step lowers the total score; a granted request to score raises it by
/// the points awarded, and nothing else changes it.
pub proof fn lemma_total_never_decreases(state: TurnState, command: Command, faces: Seq<u8>)
    requires
        state.wf(),
    ensures
        total(state.step(command, faces).card) >= total(state.card),
        state.reply(command) matches Ok(Outcome::Scored(points)) ==> total(
            state.step(command, faces).card,
        ) == total(state.card) + points,
        !(state.reply(command) matches Ok(Outcome::Scored(_))) ==> state.step(command, faces).card
            == state.card,
{
    match command {
        Command::Score(index) => {
            lemma_total_grows(state.card, index as int, values_of(state.dice));
        },
        _ => {},
    }
}

/// The state after a sequence of commands, where `draws[i]` holds the faces
/// that command `i` draws if it is a granted roll.
pub open spec fn run(state: TurnState, commands: Seq<Command>, draws: Seq<Seq<u8>>) -> TurnState
    decreases commands.len(),
{
    if commands.len() == 0 {
        state
    } else {
        run(state, commands.drop_last(), draws).step(
            commands.last(),
            draws[commands.len() - 1],
        )
    }
}

/// Over a whole game the total score never decreases, and the state stays a
/// state of a game.
pub proof fn lemma_total_monotone(state: TurnState, commands: Seq<Command>, draws: Seq<Seq<u8>>)
    requires
        state.wf(),
        draws.len() == commands.len(),
        forall|i: int| 0 <= i < draws.len() ==> are_faces(#[trigger] draws[i]),
    ensures
        run(state, commands, draws).wf(),
        total(run(state, commands, draws).card) >= total(state.card),
        filled_count(run(state, commands, draws).card) >= filled_count(state.card),
    decreases commands.len(),
{
    if commands.len() > 0 {
        let last = commands.len() - 1;
        lemma_total_monotone(state, commands.drop_last(), draws.drop_last());
        lemma_run_reads_prefix(state, commands.drop_last(), draws, draws.drop_last());
        let before = run(state, commands.drop_last(), draws);
        assert(are_faces(draws[last]));
        lemma_step_keeps_wf(before, commands.last(), draws[last]);
        lemma_total_never_decreases(before, commands.last(), draws[last]);
        match commands.last() {
            Command::Score(index) => {
                lemma_total_grows(before.card, index as int, values_of(before.dice));
            },
            _ => {},
        }
    }
}

/// A run reads only the draws of its own commands.
pub proof fn lemma_run_reads_prefix(
    state: TurnState,
    commands: Seq<Command>,
    draws: Seq<Seq<u8>>,
    fewer: Seq<Seq<u8>>,
)
    requires
        commands.len() <= fewer.len() <= draws.len(),
        forall|i: int| 0 <= i < commands.len() ==> draws[i] == fewer[i],
    ensures
        run(state, commands, draws) == run(state, commands, fewer),
    decreases commands.len(),
{
    if commands.len() > 0 {
        lemma_run_reads_prefix(state, commands.drop_last(), draws, fewer);
    }
}

/// Once a category is filled, no sequence of commands changes it: it keeps its
/// points to the end of the game.
pub proof fn lemma_filled_stays(
    state: TurnState,
    commands: Seq<Command>,
    draws: Seq<Seq<u8>>,
    filled: int,
)
    requires
        0 <= filled < state.card.len(),
        state.card[filled].filled,
    ensures
        run(state, commands, draws).card.len() == state.card.len(),
        run(state, commands, draws).card[filled] == state.card[filled],
    decreases commands.len(),
{
    if commands.len() > 0 {
        lemma_filled_stays(state, commands.drop_last(), draws, filled);
        let before = run(state, commands.drop_last(), draws);
        match commands.last() {
            Command::Score(index) => {
                lemma_commitment_is_final(
                    before.card,
                    filled,
                    index as int,
                    values_of(before.dice),
                );
            },
            _ => {},
        }
    }
}

/// The game is over exactly when all thirteen categories are filled. Until
/// then some category is open; from then on the game offers nothing but to
/// quit, and every request to score is refused.
pub proof fn lemma_game_over(state: TurnState)
    requires
        state.wf(),
    ensures
        state.is_over() <==> filled_count(state.card) == CATEGORY_COUNT,
        !state.is_over() <==> has_open(state.card),
        state.is_over() ==> forall|action: Action|
            action != Action::Quit ==> !#[trigger] state.permits(action),
        state.is_over() ==> forall|index: usize| #[trigger]
            state.reply(Command::Score(index)) is Err,
{
    lemma_filled_count(state.card);
    if state.is_over() {
        assert forall|index: usize| #[trigger] state.reply(Command::Score(index)) is Err by {
            if index < CATEGORY_COUNT {
                assert(state.card[index as int].filled);
            }
        }
    }
}

} // verus!
