//! Enumeration of every code and of every `Known` feedback value.
use vstd::prelude::*;
use crate::types::{piece_id, piece_of, valid_state, NUM_CODES, NUM_STATES, Piece, Row, State};

verus! {

/// The code at position `i` of the enumeration: `i` read as a base-6 counter with
/// position 0 the least significant digit.
pub open spec fn code_of_index(i: int) -> Seq<Piece> {
    seq![
        piece_of((i % 6) as nat),
        piece_of((i / 6 % 6) as nat),
        piece_of((i / 36 % 6) as nat),
        piece_of((i / 216 % 6) as nat),
    ]
}

/// The position of a code in the enumeration.
pub open spec fn index_of_code(c: Seq<Piece>) -> int {
    (piece_id(c[0]) + 6 * piece_id(c[1]) + 36 * piece_id(c[2]) + 216 * piece_id(c[3])) as int
}

/// Decoding an index and encoding the code again gives the index back, and the
/// other way round.
proof fn lemma_digits(i: int)
    requires
        0 <= i < 1296,
    ensures
        i % 6 + 6 * (i / 6 % 6) + 36 * (i / 36 % 6) + 216 * (i / 216 % 6) == i,
{
    let q1 = i / 6;
    let q2 = q1 / 6;
    let q3 = q2 / 6;
    assert(i == 6 * q1 + i % 6);
    assert(q1 == 6 * q2 + q1 % 6);
    assert(q2 == 6 * q3 + q2 % 6);
    assert(i / 36 == q2);
    assert(i / 216 == q3);
    assert(q3 < 6);
}

proof fn lemma_undigits(a: int, b: int, c: int, d: int)
    requires
        0 <= a < 6,
        0 <= b < 6,
        0 <= c < 6,
        0 <= d < 6,
    ensures
        ({
            let i = a + 6 * b + 36 * c + 216 * d;
            &&& 0 <= i < 1296
            &&& i % 6 == a
            &&& i / 6 % 6 == b
            &&& i / 36 % 6 == c
            &&& i / 216 % 6 == d
        }),
{
    let i = a + 6 * b + 36 * c + 216 * d;
    assert(i / 6 == b + 6 * c + 36 * d);
    assert(i / 36 == c + 6 * d);
    assert(i / 216 == d);
}

/// Decoding an index and encoding the code again gives the index back, and the
/// other way round.
pub proof fn lemma_code_index(i: int, c: Seq<Piece>)
    ensures
        0 <= i < NUM_CODES ==> index_of_code(code_of_index(i)) == i,
        c.len() == 4 ==> 0 <= index_of_code(c) < NUM_CODES,
        c.len() == 4 ==> code_of_index(index_of_code(c)) == c,
{
    if 0 <= i < NUM_CODES {
        lemma_digits(i);
    }
    if c.len() == 4 {
        crate::types::lemma_piece_id_round_trip(c[0]);
        crate::types::lemma_piece_id_round_trip(c[1]);
        crate::types::lemma_piece_id_round_trip(c[2]);
        crate::types::lemma_piece_id_round_trip(c[3]);
        lemma_undigits(
            piece_id(c[0]) as int,
            piece_id(c[1]) as int,
            piece_id(c[2]) as int,
            piece_id(c[3]) as int,
        );
        assert(code_of_index(index_of_code(c)) =~= c);
    }
}

/// The code enumeration has one entry per code, with no code twice, and every code
/// appears in it.
pub proof fn lemma_code_space(codes: Seq<Row>)
    requires
        codes.len() == NUM_CODES,
        forall|i: int| 0 <= i < NUM_CODES ==> (#[trigger] codes[i])@ == code_of_index(i),
    ensures
        codes.len() == 6 * 6 * 6 * 6,
        forall|i: int, j: int|
            0 <= i < codes.len() && 0 <= j < codes.len() && i != j ==> codes[i]@ != codes[j]@,
        forall|c: Row| 0 <= #[trigger] index_of_code(c@) < codes.len() && codes[index_of_code(c@)]@ == c@,
{
    assert forall|i: int, j: int|
        0 <= i < codes.len() && 0 <= j < codes.len() && i != j implies codes[i]@ != codes[j]@ by {
        lemma_code_index(i, seq![]);
        lemma_code_index(j, seq![]);
    }
    assert forall|c: Row| 0 <= #[trigger] index_of_code(c@) < codes.len() && codes[index_of_code(c@)]@ == c@ by {
        lemma_code_index(0, c@);
    }
}

fn piece_at(d: usize) -> (r: Piece)
    requires
        d < 6,
    ensures
        r == piece_of(d as nat),
{
    match Piece::from_id(d as u8) {
        Ok(p) => p,
        Err(_) => Piece::Red,
    }
}

/// Every code, in counter order (see `code_of_index`).
pub fn gen_perms() -> (r: Vec<Row>)
    ensures
        r@.len() == NUM_CODES,
        forall|i: int| 0 <= i < NUM_CODES ==> (#[trigger] r@[i])@ == code_of_index(i),
{
    let mut result: Vec<Row> = Vec::new();
    let mut i: usize = 0;
    while i < 1296
        invariant
            i <= 1296,
            result@.len() == i,
            forall|k: int| 0 <= k < i ==> (#[trigger] result@[k])@ == code_of_index(k),
        decreases 1296 - i,
    {
        let row = Row {
            items: [piece_at(i % 6), piece_at(i / 6 % 6), piece_at(i / 36 % 6), piece_at(i / 216 % 6)],
        };
        assert(row@ =~= code_of_index(i as int));
        result.push(row);
        i = i + 1;
    }
    result
}

/// Where the feedback values with `full == a` begin in the enumeration.
pub open spec fn row_start(a: int) -> int {
    if a <= 0 {
        0
    } else if a == 1 {
        5
    } else if a == 2 {
        9
    } else if a == 3 {
        12
    } else {
        14
    }
}

pub open spec fn full_at(k: int) -> int {
    if k < 5 {
        0
    } else if k < 9 {
        1
    } else if k < 12 {
        2
    } else if k < 14 {
        3
    } else {
        4
    }
}

/// Every `Known(full, partial)` with `full + partial <= 4`, ordered by `full` and then
/// by `partial`.
pub open spec fn feedback_space() -> Seq<State> {
    Seq::new(
        NUM_STATES as nat,
        |k: int| State::Known(full_at(k) as i32, (k - row_start(full_at(k))) as i32),
    )
}

/// The position of a feedback value in `feedback_space()`.
pub open spec fn state_index(a: int, b: int) -> int {
    row_start(a) + b
}

/// The feedback enumeration holds exactly the valid `Known` values, each once, at
/// `state_index`.
pub proof fn lemma_feedback_space()
    ensures
        feedback_space().len() == NUM_STATES,
        forall|k: int| 0 <= k < NUM_STATES ==> valid_state(#[trigger] feedback_space()[k]),
        forall|k: int| 0 <= k < NUM_STATES ==> (#[trigger] feedback_space()[k]) != State::Complete,
        forall|a: i32, b: i32|
            0 <= a && 0 <= b && a + b <= 4 ==> 0 <= #[trigger] state_index(a as int, b as int)
                < NUM_STATES && feedback_space()[state_index(a as int, b as int)] == State::Known(
                a,
                b,
            ),
        forall|k: int, a: i32, b: i32|
            0 <= k < NUM_STATES && #[trigger] feedback_space()[k] == State::Known(a, b) ==> k
                == #[trigger] state_index(a as int, b as int),
{
}

/// Every `Known` feedback value, ordered by `full` and then by `partial`.
pub fn gen_states() -> (r: Vec<State>)
    ensures
        r@ == feedback_space(),
{
    let mut result: Vec<State> = Vec::new();
    let mut a: i32 = 0;
    while a <= 4
        invariant
            0 <= a <= 5,
            result@.len() == row_start(a as int) + if a == 5 { 1int } else { 0int },
            forall|k: int| 0 <= k < result@.len() ==> result@[k] == feedback_space()[k],
        decreases 5 - a,
    {
        let mut b: i32 = 0;
        while b <= 4 - a
            invariant
                0 <= a <= 4,
                0 <= b <= 5 - a,
                result@.len() == row_start(a as int) + b,
                forall|k: int| 0 <= k < result@.len() ==> result@[k] == feedback_space()[k],
            decreases 5 - a - b,
        {
            result.push(State::Known(a, b));
            b = b + 1;
        }
        a = a + 1;
    }
    assert(result@ =~= feedback_space());
    result
}

} // verus!
