//! Driving full games: solving against a known target, and the exhaustive harness.
use vstd::prelude::*;
use crate::filter::{apply_filter, count_spec, filter_spec, lemma_filter_members};
use crate::score::{compare_rows, lemma_score_bounds, lemma_score_self, score_spec};
use crate::solver::{
    find_best_move, is_best_guess, lemma_max_count_upto, worst_spec,
};
use crate::space::{code_of_index, feedback_space, gen_perms, lemma_feedback_space, state_index};
use crate::types::{Game, NUM_CODES, NUM_STATES, Piece, Row, State};

verus! {

/// The candidates left from `start` once every (guess, feedback) of `rows` is applied.
pub open spec fn candidates_after(start: Seq<Row>, rows: Seq<(Row, State)>) -> Seq<Row>
    decreases rows.len(),
{
    if rows.len() == 0 {
        start
    } else {
        filter_spec(candidates_after(start, rows.drop_last()), rows.last().0@, rows.last().1)
    }
}

/// `s` is the code enumeration.
pub open spec fn is_code_space(s: Seq<Row>) -> bool {
    s.len() == NUM_CODES && forall|i: int| 0 <= i < NUM_CODES ==> (#[trigger] s[i])@ == code_of_index(i)
}

/// Row `i` of a game played from `start` against `target`: the minimax guess for the
/// candidates left by the rows before it, with its true feedback.
pub open spec fn is_minimax_row(
    start: Seq<Row>,
    target: Seq<Piece>,
    rows: Seq<(Row, State)>,
    i: int,
) -> bool {
    &&& is_best_guess(candidates_after(start, rows.take(i)), rows[i].0@)
    &&& rows[i].1 == score_spec(target, rows[i].0@)
}

/// A whole minimax game: every row is a minimax row and only the last one is `Complete`.
pub open spec fn is_minimax_game(start: Seq<Row>, target: Seq<Piece>, rows: Seq<(Row, State)>) -> bool {
    &&& rows.len() > 0
    &&& forall|i: int| 0 <= i < rows.len() ==> #[trigger] is_minimax_row(start, target, rows, i)
    &&& forall|i: int| 0 <= i < rows.len() ==> ((#[trigger] rows[i]).1 == State::Complete <==> i == rows.len() - 1)
}

proof fn lemma_count_disjoint(cands: Seq<Row>, g: Seq<Piece>, f1: State, f2: State)
    requires
        f1 != f2,
    ensures
        count_spec(cands, g, f1) + count_spec(cands, g, f2) <= cands.len(),
    decreases cands.len(),
{
    if cands.len() > 0 {
        lemma_count_disjoint(cands.drop_last(), g, f1, f2);
    }
}

/// Once the target is among the candidates, a minimax guess whose feedback is not
/// `Complete` leaves strictly fewer candidates.
pub proof fn lemma_progress(open: Seq<Row>, t: Row, g: Row)
    requires
        open.contains(t),
        forall|c: Row| worst_spec(open, g@) <= #[trigger] worst_spec(open, c@),
        score_spec(t@, g@) != State::Complete,
    ensures
        filter_spec(open, g@, score_spec(t@, g@)).len() < open.len(),
{
    lemma_feedback_space();
    lemma_score_self(t);
    lemma_filter_members(open, t@, State::Complete);
    let kept = filter_spec(open, t@, State::Complete);
    assert(kept.contains(t));
    assert(count_spec(open, t@, State::Complete) >= 1);
    assert forall|k: int| 0 <= k < NUM_STATES implies count_spec(
        open,
        t@,
        #[trigger] feedback_space()[k],
    ) <= (open.len() - 1) as nat by {
        lemma_count_disjoint(open, t@, feedback_space()[k], State::Complete);
    }
    lemma_max_count_upto(open, t@, NUM_STATES as nat, (open.len() - 1) as nat);
    assert(worst_spec(open, g@) <= worst_spec(open, t@));
    let f = score_spec(t@, g@);
    lemma_score_bounds(t, g);
    if let State::Known(a, b) = f {
        let k = state_index(a as int, b as int);
        assert(feedback_space()[k] == f);
        lemma_max_count_upto(open, g@, NUM_STATES as nat, 0);
    }
}

/// Plays a full game against `target`, each guess the minimax guess for the candidates
/// left, until the feedback is `Complete`.
pub fn optimal_solve(target: &Row) -> (game: Game)
    ensures
        game.target == Some(*target),
        game.rows@.len() <= NUM_CODES,
        exists|start: Seq<Row>| is_code_space(start) && is_minimax_game(start, target@, game.rows@),
{
    let mut game = Game::new(*target);
    let mut open = gen_perms();
    let ghost start = open@;
    proof {
        crate::space::lemma_code_space(open@);
        let j = crate::space::index_of_code(target@);
        assert(open@[j] == *target) by {
            assert(open@[j]@ == target@);
            assert(open@[j].items =~= target.items);
        }
        assert(open@.contains(*target));
    }
    loop
        invariant_except_break
            open@ == candidates_after(start, game.rows@),
            open@.contains(*target),
            game.rows@.len() + open@.len() <= NUM_CODES,
            forall|i: int| 0 <= i < game.rows@.len() ==> #[trigger] is_minimax_row(start, target@, game.rows@, i),
            forall|i: int| 0 <= i < game.rows@.len() ==> (#[trigger] game.rows@[i]).1 != State::Complete,
        invariant
            game.target == Some(*target),
            is_code_space(start),
        ensures
            game.rows@.len() <= NUM_CODES,
            is_minimax_game(start, target@, game.rows@),
        decreases open@.len(),
    {
        proof {
            assert(open@.len() > 0);
        }
        let best = find_best_move(open.as_slice());
        let new_row = match best {
            Ok(r) => r,
            Err(_) => *target,
        };
        assert(is_best_guess(open@, new_row@));
        let state = compare_rows(target, &new_row);
        let ghost old_rows = game.rows@;
        let ghost old_open = open@;
        game.rows.push((new_row, state));
        open = apply_filter(open.as_slice(), &(new_row, state));
        proof {
            assert(game.rows@.drop_last() =~= old_rows);
            assert(game.rows@.take(old_rows.len() as int) =~= old_rows);
            assert forall|i: int| 0 <= i < old_rows.len() implies game.rows@.take(i) == old_rows.take(i) by {
                assert(game.rows@.take(i) =~= old_rows.take(i));
            }
            assert forall|i: int| 0 <= i < game.rows@.len() implies #[trigger] is_minimax_row(start, target@, game.rows@, i) by {
                if i < old_rows.len() {
                    assert(is_minimax_row(start, target@, old_rows, i));
                    assert(old_rows[i] == game.rows@[i]);
                } else {
                    assert(game.rows@.take(i) == old_rows);
                }
            }
            crate::filter::lemma_target_kept(old_open, *target, new_row@);
        }
        if state.is_complete() {
            proof {
                assert forall|i: int| 0 <= i < game.rows@.len() implies ((#[trigger] game.rows@[i]).1 == State::Complete <==> i == game.rows@.len() - 1) by {
                    if i < old_rows.len() {
                        assert(old_rows[i] == game.rows@[i]);
                    }
                }
            }
            break;
        }
        proof {
            lemma_progress(old_open, *target, new_row);
        }
    }
    game
}

/// `n` is the number of guesses that the minimax game against `target` takes.
pub open spec fn solves_in(target: Seq<Piece>, n: nat) -> bool {
    exists|start: Seq<Row>, rows: Seq<(Row, State)>|
        is_code_space(start) && is_minimax_game(start, target, rows) && rows.len() == n
}

pub open spec fn sum_of(s: Seq<nat>) -> nat
    decreases s.len(),
{
    if s.len() == 0 {
        0
    } else {
        sum_of(s.drop_last()) + s.last()
    }
}

/// Statistics of minimax games over every possible target.
#[derive(Debug, Copy, Clone)]
pub struct HarnessStats {
    /// Guesses summed over all games.
    pub total: usize,
    /// Number of games played.
    pub count: usize,
    /// The most guesses any game took, and the first target in enumeration order that took them.
    pub max: (usize, Row),
    /// The fewest guesses any game took, and the first target in enumeration order that took them.
    pub min: (usize, Row),
}

/// Plays the minimax game against every code and gathers the number of guesses each took.
pub fn check_correctness() -> (r: HarnessStats)
    ensures
        r.count == NUM_CODES,
        exists|lens: Seq<nat>|
            {
                &&& lens.len() == NUM_CODES
                &&& forall|i: int| 0 <= i < NUM_CODES ==> solves_in(code_of_index(i), #[trigger] lens[i])
                &&& r.total == sum_of(lens)
                &&& exists|m: int|
                    0 <= m < NUM_CODES && r.max.1@ == code_of_index(m) && r.max.0 == lens[m]
                        && (forall|j: int| 0 <= j < NUM_CODES ==> #[trigger] lens[j] <= r.max.0)
                        && (forall|j: int| 0 <= j < m ==> #[trigger] lens[j] < r.max.0)
                &&& exists|m: int|
                    0 <= m < NUM_CODES && r.min.1@ == code_of_index(m) && r.min.0 == lens[m]
                        && (forall|j: int| 0 <= j < NUM_CODES ==> #[trigger] lens[j] >= r.min.0)
                        && (forall|j: int| 0 <= j < m ==> #[trigger] lens[j] > r.min.0)
            },
{
    let codes = gen_perms();
    let mut total: usize = 0;
    let mut count: usize = 0;
    let mut max_rows: usize = 0;
    let mut max_at: usize = 0;
    let mut min_rows: usize = usize::MAX;
    let mut min_at: usize = 0;
    let ghost mut lens: Seq<nat> = seq![];
    while count < codes.len()
        invariant
            codes@.len() == NUM_CODES,
            forall|j: int| 0 <= j < NUM_CODES ==> (#[trigger] codes@[j])@ == code_of_index(j),
            count <= NUM_CODES,
            lens.len() == count,
            forall|i: int| 0 <= i < count ==> solves_in(code_of_index(i), #[trigger] lens[i]),
            forall|i: int| 0 <= i < count ==> 1 <= #[trigger] lens[i] <= NUM_CODES,
            total == sum_of(lens),
            total <= count * NUM_CODES,
            count == 0 ==> max_rows == 0 && min_rows == usize::MAX,
            count > 0 ==> max_at < count && max_rows == lens[max_at as int],
            count > 0 ==> min_at < count && min_rows == lens[min_at as int],
            forall|j: int| 0 <= j < count ==> #[trigger] lens[j] <= max_rows,
            forall|j: int| 0 <= j < max_at ==> #[trigger] lens[j] < max_rows,
            forall|j: int| 0 <= j < count ==> #[trigger] lens[j] >= min_rows,
            forall|j: int| 0 <= j < min_at ==> #[trigger] lens[j] > min_rows,
        decreases NUM_CODES - count,
    {
        let game = optimal_solve(&codes[count]);
        let rows = game.rows.len();
        let ghost old_lens = lens;
        proof {
            lens = lens.push(rows as nat);
            assert(lens.drop_last() =~= old_lens);
            assert forall|i: int| 0 <= i < count implies lens[i] == old_lens[i] by {}
            assert(lens[count as int] == rows);
            assert(rows >= 1);
        }
        if rows > max_rows {
            max_rows = rows;
            max_at = count;
        }
        if rows < min_rows {
            min_rows = rows;
            min_at = count;
        }
        total = total + rows;
        count = count + 1;
    }
    HarnessStats { total, count, max: (max_rows, codes[max_at]), min: (min_rows, codes[min_at]) }
}

} // verus!
