//! A game session: guesses, their feedback, and the shrinking candidate set.
use vstd::prelude::*;
use crate::filter::{apply_filter, filter_spec};
use crate::score::{compare_rows, score_spec};
use crate::solver::{is_worst_feedback, worst_feedback};
use crate::space::gen_perms;
use crate::types::{Game, Row, State};

verus! {

/// Where a session stands.
#[derive(Debug, Copy, Clone, PartialEq, Eq, Structural)]
pub enum Status {
    InProgress,
    /// The last feedback was `Complete`.
    Complete,
    /// No candidate agrees with the feedback given so far.
    Unsatisfiable,
}

/// A game in play, against a known target or against the adversarial oracle.
#[derive(Debug)]
pub struct Session {
    pub game: Game,
    pub open: Vec<Row>,
    pub status: Status,
}

/// The status after a feedback that left `remaining` candidates.
pub open spec fn status_after(feedback: State, remaining: nat) -> Status {
    if feedback == State::Complete {
        Status::Complete
    } else if remaining == 0 {
        Status::Unsatisfiable
    } else {
        Status::InProgress
    }
}

/// The oracle's answer as the session records it: the feedback with every position
/// matching is the end of the game.
pub open spec fn oracle_answer(w: State) -> State {
    if w == State::Known(4, 0) {
        State::Complete
    } else {
        w
    }
}

impl Session {
    /// A session over every code, with the given target or, with `None`, against the oracle.
    pub fn new(target: Option<Row>) -> (r: Session)
        ensures
            r.game.target == target,
            r.game.rows@.len() == 0,
            r.open@.len() == crate::types::NUM_CODES,
            forall|i: int|
                0 <= i < crate::types::NUM_CODES ==> (#[trigger] r.open@[i])@
                    == crate::space::code_of_index(i),
            r.status == Status::InProgress,
    {
        Session {
            game: Game { target, rows: Vec::new() },
            open: gen_perms(),
            status: Status::InProgress,
        }
    }

    /// Records `guess` with `feedback`: appends it to the history, keeps the candidates
    /// that agree with it, and moves to the status that follows.
    pub fn record(&mut self, guess: Row, feedback: State)
        requires
            old(self).status == Status::InProgress,
        ensures
            final(self).game.target == old(self).game.target,
            final(self).game.rows@ == old(self).game.rows@.push((guess, feedback)),
            final(self).open@ == filter_spec(old(self).open@, guess@, feedback),
            final(self).status == status_after(feedback, final(self).open@.len()),
    {
        self.game.rows.push((guess, feedback));
        self.open = apply_filter(self.open.as_slice(), &(guess, feedback));
        if feedback.is_complete() {
            self.status = Status::Complete;
        } else if self.open.len() == 0 {
            self.status = Status::Unsatisfiable;
        } else {
            self.status = Status::InProgress;
        }
    }

    /// Plays `guess`: the feedback comes from the target where it is known, else from
    /// the adversarial oracle over the candidates left. Then it is recorded; a guess that
    /// the oracle has to call `Complete` becomes the target.
    pub fn submit(&mut self, guess: Row) -> (r: State)
        requires
            old(self).status == Status::InProgress,
        ensures
            old(self).game.target is Some ==> r == score_spec(
                old(self).game.target->Some_0@,
                guess@,
            ) && final(self).game.target == old(self).game.target,
            old(self).game.target is None ==> exists|w: State|
                is_worst_feedback(old(self).open@, guess@, w) && r == oracle_answer(w),
            old(self).game.target is None ==> final(self).game.target == if r == State::Complete {
                Some(guess)
            } else {
                None
            },
            final(self).game.rows@ == old(self).game.rows@.push((guess, r)),
            final(self).open@ == filter_spec(old(self).open@, guess@, r),
            final(self).status == status_after(r, final(self).open@.len()),
    {
        let ghost mut answer = State::Unknown;
        let feedback = match self.game.target {
            Some(t) => compare_rows(&t, &guess),
            None => {
                let w = worst_feedback(self.open.as_slice(), &guess);
                proof {
                    answer = w;
                }
                if w == State::Known(4, 0) {
                    State::Complete
                } else {
                    w
                }
            },
        };
        if self.game.target.is_none() && feedback.is_complete() {
            self.game.target = Some(guess);
        }
        assert(self.game.target is None ==> is_worst_feedback(self.open@, guess@, answer)
            && feedback == oracle_answer(answer));
        self.record(guess, feedback);
        feedback
    }
}

} // verus!
