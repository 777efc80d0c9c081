//! Reading codes and feedback from the text a player types.
use vstd::prelude::*;
use crate::types::{piece_of, MastermindError, NUM_ELEMENTS, Piece, Row, State};

verus! {

/// The ASCII digit `0`.
pub const DIGIT_ZERO: u8 = 48;
/// ASCII `F` and `f`: a full match.
pub const UPPER_F: u8 = 70;
pub const LOWER_F: u8 = 102;
/// ASCII `P` and `p`: a partial match.
pub const UPPER_P: u8 = 80;
pub const LOWER_P: u8 = 112;

/// A byte that names a color: a digit below the palette size.
pub open spec fn is_color_digit(b: u8) -> bool {
    DIGIT_ZERO <= b && b < (DIGIT_ZERO + 6)
}

/// How many bytes of `s` equal `a` or `b`.
pub open spec fn count_of(s: Seq<u8>, a: u8, b: u8) -> nat
    decreases s.len(),
{
    if s.len() == 0 {
        0
    } else {
        count_of(s.drop_last(), a, b) + if s.last() == a || s.last() == b {
            1nat
        } else {
            0nat
        }
    }
}

/// A byte that marks a peg of feedback: `F`/`f` (full) or `P`/`p` (partial).
pub open spec fn is_feedback_mark(b: u8) -> bool {
    b == UPPER_F || b == LOWER_F || b == UPPER_P || b == LOWER_P
}

/// A code written as one digit per position, `0` to `5`.
pub fn parse_row(bytes: &[u8]) -> (r: Result<Row, MastermindError>)
    ensures
        bytes@.len() != NUM_ELEMENTS ==> r == Err::<Row, MastermindError>(
            MastermindError::WrongLength,
        ),
        bytes@.len() == NUM_ELEMENTS && (exists|i: int|
            0 <= i < NUM_ELEMENTS && !is_color_digit(#[trigger] bytes@[i])) ==> r == Err::<
            Row,
            MastermindError,
        >(MastermindError::InvalidPieceIdentifier),
        bytes@.len() == NUM_ELEMENTS && (forall|i: int|
            0 <= i < NUM_ELEMENTS ==> is_color_digit(#[trigger] bytes@[i])) ==> r is Ok && forall|
            i: int,
        |
            0 <= i < NUM_ELEMENTS ==> #[trigger] r->Ok_0@[i] == piece_of((bytes@[i] - DIGIT_ZERO) as nat),
{
    if bytes.len() != 4 {
        return Err(MastermindError::WrongLength);
    }
    let mut pieces: Vec<Piece> = Vec::new();
    let mut i: usize = 0;
    while i < 4
        invariant
            bytes@.len() == NUM_ELEMENTS,
            i <= 4,
            pieces@.len() == i,
            forall|k: int| 0 <= k < i ==> is_color_digit(#[trigger] bytes@[k]),
            forall|k: int| 0 <= k < i ==> #[trigger] pieces@[k] == piece_of((bytes@[k] - DIGIT_ZERO) as nat),
        decreases 4 - i,
    {
        let b = bytes[i];
        if b < DIGIT_ZERO || b >= (DIGIT_ZERO + 6) {
            return Err(MastermindError::InvalidPieceIdentifier);
        }
        match Piece::from_id(b - DIGIT_ZERO) {
            Ok(p) => pieces.push(p),
            Err(e) => return Err(e),
        }
        i = i + 1;
    }
    let row = Row { items: [pieces[0], pieces[1], pieces[2], pieces[3]] };
    assert forall|k: int| 0 <= k < NUM_ELEMENTS implies #[trigger] row@[k] == pieces@[k] by {}
    Ok(row)
}

/// Feedback written as one `F` per full match and one `P` per partial match, in any order
/// and either case: `Complete` for four `F`s, else `Known(full, partial)`.
pub fn parse_state(bytes: &[u8]) -> (r: Result<State, MastermindError>)
    ensures
        ({
            let full = count_of(bytes@, UPPER_F, LOWER_F);
            let partial = count_of(bytes@, UPPER_P, LOWER_P);
            if exists|i: int| 0 <= i < bytes@.len() && !is_feedback_mark(#[trigger] bytes@[i]) {
                r == Err::<State, MastermindError>(MastermindError::InvalidFeedback)
            } else if full + partial > NUM_ELEMENTS {
                r == Err::<State, MastermindError>(MastermindError::InvalidFeedback)
            } else if full == NUM_ELEMENTS {
                r == Ok::<State, MastermindError>(State::Complete)
            } else {
                r == Ok::<State, MastermindError>(State::Known(full as i32, partial as i32))
            }
        }),
{
    let mut full: usize = 0;
    let mut partial: usize = 0;
    let mut i: usize = 0;
    while i < bytes.len()
        invariant
            i <= bytes@.len(),
            full == count_of(bytes@.subrange(0, i as int), UPPER_F, LOWER_F),
            partial == count_of(bytes@.subrange(0, i as int), UPPER_P, LOWER_P),
            full + partial <= i,
            forall|k: int| 0 <= k < i ==> is_feedback_mark(#[trigger] bytes@[k]),
        decreases bytes@.len() - i,
    {
        let b = bytes[i];
        assert(bytes@.subrange(0, i + 1).drop_last() =~= bytes@.subrange(0, i as int));
        if b == UPPER_F || b == LOWER_F {
            full = full + 1;
        } else if b == UPPER_P || b == LOWER_P {
            partial = partial + 1;
        } else {
            return Err(MastermindError::InvalidFeedback);
        }
        i = i + 1;
    }
    assert(bytes@.subrange(0, bytes@.len() as int) =~= bytes@);
    if full + partial > 4 {
        Err(MastermindError::InvalidFeedback)
    } else if full == 4 {
        Ok(State::Complete)
    } else {
        Ok(State::Known(full as i32, partial as i32))
    }
}

} // verus!
