//! The turns of a game between a person and the computer player, as a state
//! machine: the console around it performs each step and reports what came
//! back.
use vstd::prelude::*;
use crate::code::{feedback, Answer, Guess, Info};
use crate::player::{after_ask, asked_from, AIPlayer, Player};

verus! {

/// Where a game stands.
#[derive(Clone, Copy, Debug)]
pub enum Phase {
    /// The person is to guess the computer's code.
    HumanTurn,
    /// The computer is to guess the person's code.
    ComputerTurn,
    /// The computer guessed this code and waits for its feedback.
    AwaitingFeedback(Guess),
    /// The person found the computer's code.
    HumanWon,
    /// The computer found the person's code.
    ComputerWon,
    /// No code is consistent with the feedback the person gave.
    Contradiction,
}

/// True for the feedback of a guess equal to the secret: four bulls.
pub open spec fn solves(info: (nat, nat)) -> bool {
    info == (4nat, 0nat)
}

/// True when `info` says that the guess was the secret.
pub fn is_solved(info: &Info) -> (r: bool)
    ensures
        r == solves(info@),
{
    info.toros() == 4 && info.vacas() == 0
}

/// A game against the computer player.
pub struct Game {
    computer: AIPlayer,
    phase: Phase,
    guesser_only: bool,
}

impl Game {
    /// The computer player of this game.
    pub closed spec fn computer(&self) -> AIPlayer {
        self.computer
    }

    /// Where the game stands.
    pub closed spec fn spec_phase(&self) -> Phase {
        self.phase
    }

    /// True when only the computer guesses.
    pub closed spec fn guesser_only(&self) -> bool {
        self.guesser_only
    }

    /// A game against `computer`; when `guesser_only`, only the computer
    /// guesses. The person moves first in a full game.
    pub fn new(computer: AIPlayer, guesser_only: bool) -> (r: Game)
        ensures
            r.computer() == computer,
            r.guesser_only() == guesser_only,
            r.spec_phase() == if guesser_only {
                Phase::ComputerTurn
            } else {
                Phase::HumanTurn
            },
    {
        let phase = if guesser_only {
            Phase::ComputerTurn
        } else {
            Phase::HumanTurn
        };
        Game { computer, phase, guesser_only }
    }

    /// Where the game stands.
    pub fn phase(&self) -> (r: Phase)
        ensures
            r == self.spec_phase(),
    {
        self.phase
    }

    /// The computer player, e.g. to show its candidates.
    pub fn computer_player(&self) -> (r: &AIPlayer)
        ensures
            *r == self.computer(),
    {
        &self.computer
    }

    /// The person guesses `guess`; the computer answers with its secret's
    /// feedback. Four bulls end the game, won by the person; otherwise the
    /// computer is to guess.
    pub fn human_guesses(&mut self, guess: Guess) -> (r: Answer)
        requires
            old(self).spec_phase() == Phase::HumanTurn,
        ensures
            r.guess() == guess,
            r.info()@ == feedback(old(self).computer().secret(), guess),
            final(self).spec_phase() == if solves(r.info()@) {
                Phase::HumanWon
            } else {
                Phase::ComputerTurn
            },
            final(self).computer() == old(self).computer(),
            final(self).guesser_only() == old(self).guesser_only(),
    {
        let ans = self.computer.give_feedback(guess);
        if is_solved(&ans.get_info()) {
            self.phase = Phase::HumanWon;
        } else {
            self.phase = Phase::ComputerTurn;
        }
        ans
    }

    /// The computer makes its next guess, which the person is then to answer;
    /// with no candidate left, the person's feedback was contradictory and
    /// the game ends.
    pub fn computer_guesses(&mut self) -> (r: Option<Guess>)
        requires
            old(self).spec_phase() == Phase::ComputerTurn,
        ensures
            r is None <==> old(self).computer().pool().len() == 0,
            r is None ==> final(self).spec_phase() == Phase::Contradiction
                && final(self).computer().pool() == old(self).computer().pool(),
            r is Some ==> asked_from(old(self).computer().pool(), r->0) && final(self).computer().pool()
                == after_ask(old(self).computer().pool(), r->0),
            r is Some ==> final(self).spec_phase() == Phase::AwaitingFeedback(r->0),
            final(self).computer().secret() == old(self).computer().secret(),
            final(self).computer().history() == old(self).computer().history(),
            final(self).guesser_only() == old(self).guesser_only(),
    {
        let guess = self.computer.ask();
        match guess {
            Some(g) => {
                self.phase = Phase::AwaitingFeedback(g);
            },
            None => {
                self.phase = Phase::Contradiction;
            },
        }
        guess
    }

    /// The person answers the computer's pending guess with `info`. Four
    /// bulls end the game, won by the computer; otherwise the computer
    /// narrows its candidates, and the next turn begins.
    pub fn feedback_received(&mut self, info: Info)
        requires
            old(self).spec_phase() is AwaitingFeedback,
        ensures
            solves(info@) ==> final(self).spec_phase() == Phase::ComputerWon && final(self).computer()
                == old(self).computer(),
            !solves(info@) ==> final(self).spec_phase() == if old(self).guesser_only() {
                Phase::ComputerTurn
            } else {
                Phase::HumanTurn
            } && final(self).computer().pool() == old(self).computer().pool().filter(
                |c: Guess|
                    feedback(c, old(self).spec_phase()->AwaitingFeedback_0) == info@,
            ) && final(self).computer().secret() == old(self).computer().secret(),
            !solves(info@) ==> final(self).computer().history().len() == old(self).computer().history().len()
                + 1 && final(self).computer().history().drop_last() == old(self).computer().history()
                && final(self).computer().history().last().guess() == old(self).spec_phase()->AwaitingFeedback_0
                && final(self).computer().history().last().info() == info,
            final(self).guesser_only() == old(self).guesser_only(),
    {
        if let Phase::AwaitingFeedback(g) = self.phase {
            if is_solved(&info) {
                self.phase = Phase::ComputerWon;
            } else {
                self.computer.receive_feedback(Answer::new(g, info));
                self.phase = if self.guesser_only {
                    Phase::ComputerTurn
                } else {
                    Phase::HumanTurn
                };
            }
        }
    }
}

} // verus!
