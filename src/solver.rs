//! Minimax guess selection and the adversarial feedback oracle.
use vstd::prelude::*;
use rayon::iter::{IndexedParallelIterator, IntoParallelRefIterator, ParallelIterator};
use crate::filter::{count_apply_filter, count_spec};
use crate::score::{compare_rows, lemma_score_bounds, score_spec};
use crate::space::{
    code_of_index, feedback_space, gen_perms, gen_states, index_of_code, lemma_code_space,
    lemma_feedback_space, state_index,
};
use crate::types::{MastermindError, NUM_CODES, NUM_STATES, Piece, Row, State};

verus! {

pub open spec fn max_nat(a: nat, b: nat) -> nat {
    if a >= b {
        a
    } else {
        b
    }
}

/// The largest `count_spec(cands, g, f)` over the first `n` feedback values.
pub open spec fn max_count_upto(cands: Seq<Row>, g: Seq<Piece>, n: nat) -> nat
    decreases n,
{
    if n == 0 {
        0
    } else {
        max_nat(
            max_count_upto(cands, g, (n - 1) as nat),
            count_spec(cands, g, feedback_space()[n - 1]),
        )
    }
}

/// The worst-case partition size of guess `g`: the most candidates that any one
/// feedback value could leave.
pub open spec fn worst_spec(cands: Seq<Row>, g: Seq<Piece>) -> nat {
    max_count_upto(cands, g, NUM_STATES as nat)
}

/// `g` is the code of least index in the enumeration among those of smallest
/// worst-case partition size.
pub open spec fn is_best_guess(cands: Seq<Row>, g: Seq<Piece>) -> bool {
    exists|i: int|
        0 <= i < NUM_CODES && g == code_of_index(i) && (forall|j: int|
            0 <= j < NUM_CODES ==> worst_spec(cands, g) <= worst_spec(
                cands,
                #[trigger] code_of_index(j),
            )) && (forall|j: int|
            0 <= j < i ==> worst_spec(cands, g) < worst_spec(cands, #[trigger] code_of_index(j)))
}

pub(crate) proof fn lemma_max_count_upto(cands: Seq<Row>, g: Seq<Piece>, n: nat, bound: nat)
    requires
        n <= NUM_STATES,
    ensures
        forall|k: int| 0 <= k < n ==> count_spec(cands, g, #[trigger] feedback_space()[k])
            <= max_count_upto(cands, g, n),
        (forall|k: int| 0 <= k < n ==> count_spec(cands, g, #[trigger] feedback_space()[k])
            <= bound) ==> max_count_upto(cands, g, n) <= bound,
        n > 0 ==> exists|k: int|
            0 <= k < n && count_spec(cands, g, #[trigger] feedback_space()[k]) == max_count_upto(
                cands,
                g,
                n,
            ),
    decreases n,
{
    if n > 0 {
        lemma_max_count_upto(cands, g, (n - 1) as nat, bound);
        if max_count_upto(cands, g, n) == count_spec(cands, g, feedback_space()[n - 1]) {
            assert(count_spec(cands, g, feedback_space()[n - 1]) == max_count_upto(cands, g, n));
        }
    }
}

/// Counts of one guess over a prefix of candidates, feedback by feedback.
proof fn lemma_count_step(cands: Seq<Row>, g: Seq<Piece>, i: int, f: State)
    requires
        0 <= i < cands.len(),
    ensures
        count_spec(cands.subrange(0, i + 1), g, f) == count_spec(cands.subrange(0, i), g, f) + if score_spec(
            cands[i]@,
            g,
        ) == f {
            1nat
        } else {
            0nat
        },
{
    assert(cands.subrange(0, i + 1).drop_last() =~= cands.subrange(0, i));
}

fn state_position(a: i32, b: i32) -> (r: usize)
    requires
        0 <= a,
        0 <= b,
        a + b <= 4,
    ensures
        r == state_index(a as int, b as int),
{
    let start: usize = if a == 0 {
        0
    } else if a == 1 {
        5
    } else if a == 2 {
        9
    } else if a == 3 {
        12
    } else {
        14
    };
    start + b as usize
}

/// The worst-case partition size of `guess` over the candidates `open`.
pub fn worst_case(open: &[Row], guess: &Row) -> (r: usize)
    ensures
        r == worst_spec(open@, guess@),
{
    let ghost g = guess@;
    proof {
        lemma_feedback_space();
    }
    let mut hist: Vec<usize> = vec![0usize; 15];
    let mut i: usize = 0;
    while i < open.len()
        invariant
            i <= open@.len(),
            g == guess@,
            hist@.len() == NUM_STATES,
            forall|k: int|
                0 <= k < NUM_STATES ==> hist@[k] == count_spec(
                    open@.subrange(0, i as int),
                    g,
                    #[trigger] feedback_space()[k],
                ),
            forall|k: int| 0 <= k < NUM_STATES ==> hist@[k] <= i,
        decreases open@.len() - i,
    {
        let s = compare_rows(&open[i], guess);
        proof {
            lemma_score_bounds(open@[i as int], *guess);
            assert forall|k: int| 0 <= k < NUM_STATES implies count_spec(
                open@.subrange(0, i + 1),
                g,
                #[trigger] feedback_space()[k],
            ) == count_spec(open@.subrange(0, i as int), g, feedback_space()[k]) + if s
                == feedback_space()[k] {
                1nat
            } else {
                0nat
            } by {
                lemma_count_step(open@, g, i as int, feedback_space()[k]);
            }
        }
        match s {
            State::Known(a, b) => {
                let idx = state_position(a, b);
                hist.set(idx, hist[idx] + 1);
            },
            _ => {},
        }
        i = i + 1;
    }
    assert(open@.subrange(0, open@.len() as int) =~= open@);
    let mut m: usize = 0;
    let mut k: usize = 0;
    while k < 15
        invariant
            k <= NUM_STATES,
            g == guess@,
            hist@.len() == NUM_STATES,
            forall|j: int|
                0 <= j < NUM_STATES ==> hist@[j] == count_spec(open@, g, #[trigger] feedback_space()[j]),
            m == max_count_upto(open@, g, k as nat),
        decreases 15 - k,
    {
        if hist[k] > m {
            m = hist[k];
        }
        k = k + 1;
    }
    m
}

/// Relies on rayon's `par_iter().map(..).collect_into_vec(..)` on a slice: one result per
/// item, in the items' order. Each result is computed by the verified `worst_case`.
#[verifier::external_body]
fn par_worst_cases(guesses: &[Row], open: &[Row]) -> (r: Vec<usize>)
    ensures
        r@.len() == guesses@.len(),
        forall|i: int| 0 <= i < guesses@.len() ==> #[trigger] r@[i] == worst_spec(open@, guesses@[i]@),
{
    let mut out: Vec<usize> = Vec::new();
    guesses.par_iter().map(|g| worst_case(open, g)).collect_into_vec(&mut out);
    out
}

/// The minimax guess over the whole code space for the candidates `open`: of the codes
/// with the smallest worst-case partition size, the first in enumeration order.
pub fn find_best_move(open: &[Row]) -> (r: Result<Row, MastermindError>)
    ensures
        open@.len() == 0 <==> r == Err::<Row, MastermindError>(MastermindError::EmptyCandidateSet),
        open@.len() > 0 <==> r is Ok,
        r is Ok ==> is_best_guess(open@, r->Ok_0@),
        r is Ok ==> forall|c: Row| worst_spec(open@, r->Ok_0@) <= #[trigger] worst_spec(open@, c@),
{
    if open.len() == 0 {
        return Err(MastermindError::EmptyCandidateSet);
    }
    let codes = gen_perms();
    proof {
        lemma_code_space(codes@);
    }
    let worsts = par_worst_cases(codes.as_slice(), open);
    let mut best: usize = 0;
    let mut best_worst: usize = worsts[0];
    let mut i: usize = 1;
    while i < worsts.len()
        invariant
            codes@.len() == NUM_CODES,
            worsts@.len() == NUM_CODES,
            forall|j: int| 0 <= j < NUM_CODES ==> (#[trigger] codes@[j])@ == code_of_index(j),
            forall|j: int|
                0 <= j < NUM_CODES ==> #[trigger] worsts@[j] == worst_spec(open@, codes@[j]@),
            1 <= i <= NUM_CODES,
            best < i,
            best_worst == worst_spec(open@, code_of_index(best as int)),
            forall|j: int|
                0 <= j < i ==> best_worst <= worst_spec(open@, #[trigger] code_of_index(j)),
            forall|j: int|
                0 <= j < best ==> best_worst < worst_spec(open@, #[trigger] code_of_index(j)),
        decreases NUM_CODES - i,
    {
        if worsts[i] < best_worst {
            best = i;
            best_worst = worsts[i];
        }
        i = i + 1;
    }
    let g = codes[best];
    proof {
        assert(is_best_guess(open@, g@));
        assert forall|c: Row| worst_spec(open@, g@) <= #[trigger] worst_spec(open@, c@) by {
            let j = index_of_code(c@);
            assert(codes@[j]@ == c@);
        }
    }
    Ok(g)
}

/// `w` keeps the most candidates for `g`, and is the last such in `feedback_space()`.
pub open spec fn is_worst_feedback(cands: Seq<Row>, g: Seq<Piece>, w: State) -> bool {
    exists|k: int|
        0 <= k < NUM_STATES && w == feedback_space()[k] && count_spec(cands, g, w) == worst_spec(
            cands,
            g,
        ) && (forall|j: int|
            k < j < NUM_STATES ==> count_spec(cands, g, #[trigger] feedback_space()[j])
                < count_spec(cands, g, w))
}

/// The feedback that keeps the most candidates for `guess`; of several such, the last
/// in the feedback enumeration.
pub fn worst_feedback(open: &[Row], guess: &Row) -> (r: State)
    ensures
        is_worst_feedback(open@, guess@, r),
        count_spec(open@, guess@, r) == worst_spec(open@, guess@),
{
    let states = gen_states();
    proof {
        lemma_feedback_space();
    }
    let mut best: usize = 0;
    let mut best_count: usize = count_apply_filter(open, &(*guess, states[0]));
    assert(max_count_upto(open@, guess@, 0) == 0);
    let mut k: usize = 1;
    while k < states.len()
        invariant
            states@ == feedback_space(),
            1 <= k <= NUM_STATES,
            best < k,
            best_count == count_spec(open@, guess@, feedback_space()[best as int]),
            best_count == max_count_upto(open@, guess@, k as nat),
            forall|j: int|
                best < j < k ==> count_spec(open@, guess@, #[trigger] feedback_space()[j])
                    < best_count,
        decreases NUM_STATES - k,
    {
        let c = count_apply_filter(open, &(*guess, states[k]));
        if c >= best_count {
            best = k;
            best_count = c;
        }
        k = k + 1;
    }
    states[best]
}

} // verus!
