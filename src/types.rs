//! The data model: pieces, codes (rows), feedback states and games.
use vstd::prelude::*;

verus! {

/// Number of pieces in a code.
pub const NUM_ELEMENTS: usize = 4;

/// Number of real colors in the palette.
pub const NUM_COLORS: usize = 6;

/// Number of distinct codes: `NUM_COLORS ^ NUM_ELEMENTS`.
pub const NUM_CODES: usize = 1296;

/// Number of distinct `Known` feedback values.
pub const NUM_STATES: usize = 15;

/// One peg color.
#[derive(Debug, Hash, Copy, Clone, PartialEq, Eq, Structural)]
pub enum Piece {
    Red,
    Green,
    Blue,
    Yellow,
    Black,
    White,
}

/// The failures that the library reports to its callers.
#[derive(Debug, Copy, Clone, PartialEq, Eq, Structural)]
pub enum MastermindError {
    /// A color identifier outside `0 .. NUM_COLORS`.
    InvalidPieceIdentifier,
    /// A feedback with a negative count, or with `full + partial > NUM_ELEMENTS`.
    InvalidFeedback,
    /// A code written with the wrong number of pieces.
    WrongLength,
    /// A search was asked for over an empty candidate set.
    EmptyCandidateSet,
}

/// The numeric identifier of a color.
pub open spec fn piece_id(p: Piece) -> nat {
    match p {
        Piece::Red => 0,
        Piece::Green => 1,
        Piece::Blue => 2,
        Piece::Yellow => 3,
        Piece::Black => 4,
        Piece::White => 5,
    }
}

/// The color with a given identifier.
pub open spec fn piece_of(id: nat) -> Piece {
    if id == 0 {
        Piece::Red
    } else if id == 1 {
        Piece::Green
    } else if id == 2 {
        Piece::Blue
    } else if id == 3 {
        Piece::Yellow
    } else if id == 4 {
        Piece::Black
    } else {
        Piece::White
    }
}

pub proof fn lemma_piece_id_round_trip(p: Piece)
    ensures
        piece_id(p) < NUM_COLORS,
        piece_of(piece_id(p)) == p,
{
}

impl Piece {
    pub fn id(self) -> (r: usize)
        ensures
            r == piece_id(self),
            r < NUM_COLORS,
    {
        match self {
            Piece::Red => 0,
            Piece::Green => 1,
            Piece::Blue => 2,
            Piece::Yellow => 3,
            Piece::Black => 4,
            Piece::White => 5,
        }
    }

    /// The color with identifier `id`; identifiers from `NUM_COLORS` on are rejected.
    pub fn from_id(id: u8) -> (r: Result<Piece, MastermindError>)
        ensures
            id < NUM_COLORS ==> r == Ok::<Piece, MastermindError>(piece_of(id as nat)),
            id < NUM_COLORS ==> piece_id(piece_of(id as nat)) == id,
            id >= NUM_COLORS ==> r == Err::<Piece, MastermindError>(
                MastermindError::InvalidPieceIdentifier,
            ),
    {
        match id {
            0 => Ok(Piece::Red),
            1 => Ok(Piece::Green),
            2 => Ok(Piece::Blue),
            3 => Ok(Piece::Yellow),
            4 => Ok(Piece::Black),
            5 => Ok(Piece::White),
            _ => Err(MastermindError::InvalidPieceIdentifier),
        }
    }
}

/// Feedback on a guess.
#[derive(Debug, Copy, Clone, PartialEq, Eq, Structural)]
pub enum State {
    /// No information yet.
    Unknown,
    /// `Known(full, partial)`: exact matches, then color-only matches.
    Known(i32, i32),
    /// Every position matched.
    Complete,
}

/// A feedback value that a scorer can produce.
pub open spec fn valid_state(s: State) -> bool {
    match s {
        State::Known(f, p) => 0 <= f && 0 <= p && f + p <= NUM_ELEMENTS,
        _ => true,
    }
}

impl State {
    /// `Known(full, partial)`, or `InvalidFeedback` where the counts break the invariant.
    pub fn known(full: i32, partial: i32) -> (r: Result<State, MastermindError>)
        ensures
            (0 <= full && 0 <= partial && full + partial <= NUM_ELEMENTS) ==> r == Ok::<
                State,
                MastermindError,
            >(State::Known(full, partial)),
            !(0 <= full && 0 <= partial && full + partial <= NUM_ELEMENTS) ==> r == Err::<
                State,
                MastermindError,
            >(MastermindError::InvalidFeedback),
    {
        if 0 <= full && 0 <= partial && full <= 4 && partial <= 4 - full {
            Ok(State::Known(full, partial))
        } else {
            Err(MastermindError::InvalidFeedback)
        }
    }

    pub fn is_complete(&self) -> (r: bool)
        ensures
            r == (*self == State::Complete),
    {
        match self {
            State::Complete => true,
            _ => false,
        }
    }
}

impl Default for State {
    fn default() -> (r: State)
        ensures
            r == State::Unknown,
    {
        State::Unknown
    }
}

/// A code: a fixed-length sequence of colors.
#[derive(Debug, Copy, Clone, PartialEq, Eq)]
pub struct Row {
    pub items: [Piece; NUM_ELEMENTS],
}

impl View for Row {
    type V = Seq<Piece>;

    open spec fn view(&self) -> Seq<Piece> {
        self.items@
    }
}

/// A game: the target, where it is known, and the guesses made so far with
/// their feedback, in order.
#[derive(Debug)]
pub struct Game {
    pub target: Option<Row>,
    pub rows: Vec<(Row, State)>,
}

impl Game {
    pub fn new(target: Row) -> (r: Game)
        ensures
            r.target == Some(target),
            r.rows@.len() == 0,
    {
        Game { target: Some(target), rows: Vec::new() }
    }

    /// A game whose target is not known.
    pub fn empty() -> (r: Game)
        ensures
            r.target.is_none(),
            r.rows@.len() == 0,
    {
        Game { target: None, rows: Vec::new() }
    }
}

} // verus!
