//! Scoring a guess against a reference code.
use vstd::prelude::*;
use crate::types::{piece_id, valid_state, NUM_COLORS, NUM_ELEMENTS, Piece, Row, State};

verus! {

/// Position `i` holds the same color in both codes.
pub open spec fn same_at(r: Seq<Piece>, g: Seq<Piece>, i: int) -> bool {
    r[i] == g[i]
}

/// Number of exact matches among the first `n` positions.
pub open spec fn full_upto(r: Seq<Piece>, g: Seq<Piece>, n: nat) -> nat
    decreases n,
{
    if n == 0 {
        0
    } else {
        full_upto(r, g, (n - 1) as nat) + if same_at(r, g, n - 1) {
            1nat
        } else {
            0nat
        }
    }
}

/// Among the first `n` positions that do not match exactly, how many hold color `c` in `s`
/// (`s` is one of `r` and `g`).
pub open spec fn unmatched_of(r: Seq<Piece>, g: Seq<Piece>, s: Seq<Piece>, c: nat, n: nat) -> nat
    decreases n,
{
    if n == 0 {
        0
    } else {
        unmatched_of(r, g, s, c, (n - 1) as nat) + if !same_at(r, g, n - 1) && piece_id(s[n - 1])
            == c {
            1nat
        } else {
            0nat
        }
    }
}

pub open spec fn min_nat(a: nat, b: nat) -> nat {
    if a <= b {
        a
    } else {
        b
    }
}

/// Sum over the colors `c < m` of the color-only matches of `c`, counting the guess's
/// unmatched positions below `j` only.
pub open spec fn partial_sum(r: Seq<Piece>, g: Seq<Piece>, j: nat, m: nat) -> nat
    decreases m,
{
    if m == 0 {
        0
    } else {
        partial_sum(r, g, j, (m - 1) as nat) + min_nat(
            unmatched_of(r, g, r, (m - 1) as nat, NUM_ELEMENTS as nat),
            unmatched_of(r, g, g, (m - 1) as nat, j),
        )
    }
}

/// Exact matches of `g` against `r`.
pub open spec fn full_of(r: Seq<Piece>, g: Seq<Piece>) -> nat {
    full_upto(r, g, NUM_ELEMENTS as nat)
}

/// Color-only matches: for each color, the smaller of its counts among the unmatched
/// positions of the two codes, summed over the colors.
pub open spec fn partial_of(r: Seq<Piece>, g: Seq<Piece>) -> nat {
    partial_sum(r, g, NUM_ELEMENTS as nat, NUM_COLORS as nat)
}

/// The feedback that guess `g` earns against reference `r`.
pub open spec fn score_spec(r: Seq<Piece>, g: Seq<Piece>) -> State {
    if r == g {
        State::Complete
    } else {
        State::Known(full_of(r, g) as i32, partial_of(r, g) as i32)
    }
}

proof fn lemma_partial_sum_step(r: Seq<Piece>, g: Seq<Piece>, j: nat, m: nat)
    requires
        j < g.len(),
    ensures
        partial_sum(r, g, j + 1, m) == partial_sum(r, g, j, m) + if !same_at(r, g, j as int)
            && piece_id(g[j as int]) < m && unmatched_of(r, g, r, piece_id(g[j as int]), NUM_ELEMENTS as nat)
            > unmatched_of(r, g, g, piece_id(g[j as int]), j) {
            1nat
        } else {
            0nat
        },
    decreases m,
{
    if m > 0 {
        lemma_partial_sum_step(r, g, j, (m - 1) as nat);
    }
}

/// Sum over the colors `c < m` of `unmatched_of(r, g, s, c, n)`.
spec fn unmatched_sum(r: Seq<Piece>, g: Seq<Piece>, s: Seq<Piece>, n: nat, m: nat) -> nat
    decreases m,
{
    if m == 0 {
        0
    } else {
        unmatched_sum(r, g, s, n, (m - 1) as nat) + unmatched_of(r, g, s, (m - 1) as nat, n)
    }
}

proof fn lemma_unmatched_sum_step(r: Seq<Piece>, g: Seq<Piece>, s: Seq<Piece>, n: nat, m: nat)
    ensures
        unmatched_sum(r, g, s, n + 1, m) == unmatched_sum(r, g, s, n, m) + if !same_at(
            r,
            g,
            n as int,
        ) && piece_id(s[n as int]) < m {
            1nat
        } else {
            0nat
        },
    decreases m,
{
    if m > 0 {
        lemma_unmatched_sum_step(r, g, s, n, (m - 1) as nat);
    }
}

proof fn lemma_unmatched_sum_zero(r: Seq<Piece>, g: Seq<Piece>, s: Seq<Piece>, m: nat)
    ensures
        unmatched_sum(r, g, s, 0, m) == 0,
    decreases m,
{
    if m > 0 {
        lemma_unmatched_sum_zero(r, g, s, (m - 1) as nat);
    }
}

proof fn lemma_unmatched_total(r: Seq<Piece>, g: Seq<Piece>, n: nat)
    ensures
        unmatched_sum(r, g, r, n, NUM_COLORS as nat) + full_upto(r, g, n) == n,
    decreases n,
{
    if n > 0 {
        lemma_unmatched_total(r, g, (n - 1) as nat);
        lemma_unmatched_sum_step(r, g, r, (n - 1) as nat, NUM_COLORS as nat);
        crate::types::lemma_piece_id_round_trip(r[n - 1]);
    } else {
        lemma_unmatched_sum_zero(r, g, r, NUM_COLORS as nat);
    }
}

proof fn lemma_partial_sum_zero(r: Seq<Piece>, g: Seq<Piece>, m: nat)
    ensures
        partial_sum(r, g, 0, m) == 0,
    decreases m,
{
    if m > 0 {
        lemma_partial_sum_zero(r, g, (m - 1) as nat);
    }
}

proof fn lemma_partial_bounded(r: Seq<Piece>, g: Seq<Piece>, j: nat, m: nat)
    ensures
        partial_sum(r, g, j, m) <= unmatched_sum(r, g, r, NUM_ELEMENTS as nat, m),
    decreases m,
{
    if m > 0 {
        lemma_partial_bounded(r, g, j, (m - 1) as nat);
    }
}

proof fn lemma_full_all(r: Seq<Piece>, g: Seq<Piece>, n: nat)
    requires
        n <= r.len(),
        n <= g.len(),
    ensures
        full_upto(r, g, n) <= n,
        full_upto(r, g, n) == n <==> forall|i: int| 0 <= i < n ==> r[i] == g[i],
    decreases n,
{
    if n > 0 {
        lemma_full_all(r, g, (n - 1) as nat);
        if full_upto(r, g, n) == n {
            assert forall|i: int| 0 <= i < n implies r[i] == g[i] by {
                if i < n - 1 {
                }
            }
        }
    }
}

/// A code scores `Complete` against itself.
pub proof fn lemma_score_self(c: Row)
    ensures
        score_spec(c@, c@) == State::Complete,
{
}

/// Every score is a valid feedback, and all positions match exactly only when the
/// codes are equal.
pub proof fn lemma_score_bounds(r: Row, g: Row)
    ensures
        full_of(r@, g@) + partial_of(r@, g@) <= NUM_ELEMENTS,
        full_of(r@, g@) == NUM_ELEMENTS <==> r@ == g@,
        score_spec(r@, g@) == State::Complete <==> r@ == g@,
        valid_state(score_spec(r@, g@)),
        r@ != g@ ==> score_spec(r@, g@) == State::Known(
            full_of(r@, g@) as i32,
            partial_of(r@, g@) as i32,
        ),
        r@ != g@ ==> full_of(r@, g@) < NUM_ELEMENTS,
{
    lemma_unmatched_total(r@, g@, NUM_ELEMENTS as nat);
    lemma_partial_bounded(r@, g@, NUM_ELEMENTS as nat, NUM_COLORS as nat);
    lemma_full_all(r@, g@, NUM_ELEMENTS as nat);
    if full_of(r@, g@) == NUM_ELEMENTS {
        assert(r@ =~= g@);
    }
}

/// The feedback for `src` as a guess against `target`: `Complete` when the codes are
/// equal, else the exact matches and the color-only matches, no target piece credited twice.
pub fn compare_rows(target: &Row, src: &Row) -> (r: State)
    ensures
        r == score_spec(target@, src@),
{
    let mut count: Vec<usize> = vec![0usize; 6];
    let mut seen: Vec<bool> = vec![false; 4];
    let mut black: usize = 0;
    let ghost rs = target@;
    let ghost gs = src@;
    let mut i: usize = 0;
    while i < 4
        invariant
            i <= 4,
            rs == target@,
            gs == src@,
            count@.len() == NUM_COLORS,
            seen@.len() == NUM_ELEMENTS,
            black == full_upto(rs, gs, i as nat),
            black <= i,
            forall|c: int| 0 <= c < 6 ==> count@[c] == unmatched_of(rs, gs, rs, c as nat, i as nat),
            forall|c: int| 0 <= c < 6 ==> count@[c] <= i,
            forall|k: int| 0 <= k < i ==> seen@[k] == same_at(rs, gs, k),
            forall|k: int| i <= k < 4 ==> !seen@[k],
        decreases 4 - i,
    {
        if target.items[i] == src.items[i] {
            seen.set(i, true);
            black = black + 1;
        } else {
            let id = target.items[i].id();
            count.set(id, count[id] + 1);
        }
        i = i + 1;
    }
    if black == 4 {
        proof {
            lemma_full_all(rs, gs, 4);
            assert(rs =~= gs);
        }
        return State::Complete;
    }
    proof {
        lemma_score_bounds(*target, *src);
        lemma_unmatched_total(rs, gs, 4);
        lemma_partial_sum_zero(rs, gs, 6);
    }
    let mut white: usize = 0;
    let mut j: usize = 0;
    while j < 4
        invariant
            j <= 4,
            rs == target@,
            gs == src@,
            rs != gs,
            count@.len() == NUM_COLORS,
            seen@.len() == NUM_ELEMENTS,
            black == full_upto(rs, gs, 4),
            forall|k: int| 0 <= k < 4 ==> seen@[k] == same_at(rs, gs, k),
            forall|c: int|
                0 <= c < 6 ==> count@[c] + min_nat(
                    unmatched_of(rs, gs, rs, c as nat, 4),
                    unmatched_of(rs, gs, gs, c as nat, j as nat),
                ) == unmatched_of(rs, gs, rs, c as nat, 4),
            white == partial_sum(rs, gs, j as nat, 6),
            white <= 4,
            unmatched_sum(rs, gs, rs, 4, 6) + black == 4,
        decreases 4 - j,
    {
        let id = src.items[j].id();
        proof {
            lemma_partial_sum_step(rs, gs, j as nat, 6);
            lemma_partial_bounded(rs, gs, (j + 1) as nat, 6);
        }
        if !seen[j] && count[id] > 0 {
            count.set(id, count[id] - 1);
            white = white + 1;
        }
        j = j + 1;
    }
    State::Known(black as i32, white as i32)
}

} // verus!
