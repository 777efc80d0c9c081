//! Narrowing a candidate set by one guess and its feedback.
use vstd::prelude::*;
use crate::score::{compare_rows, score_spec};
use crate::types::{Piece, Row, State};

verus! {

/// The candidates `c` (in their order) for which `score_spec(c, g) == f`.
pub open spec fn filter_spec(cands: Seq<Row>, g: Seq<Piece>, f: State) -> Seq<Row>
    decreases cands.len(),
{
    if cands.len() == 0 {
        seq![]
    } else {
        let rest = filter_spec(cands.drop_last(), g, f);
        if score_spec(cands.last()@, g) == f {
            rest.push(cands.last())
        } else {
            rest
        }
    }
}

/// How many candidates `c` have `score_spec(c, g) == f`.
pub open spec fn count_spec(cands: Seq<Row>, g: Seq<Piece>, f: State) -> nat {
    filter_spec(cands, g, f).len()
}

/// What the filter keeps is exactly the candidates that agree with the feedback.
pub proof fn lemma_filter_members(cands: Seq<Row>, g: Seq<Piece>, f: State)
    ensures
        filter_spec(cands, g, f).len() <= cands.len(),
        forall|x: Row| #[trigger]
            filter_spec(cands, g, f).contains(x) <==> (cands.contains(x) && score_spec(x@, g) == f),
    decreases cands.len(),
{
    if cands.len() > 0 {
        lemma_filter_members(cands.drop_last(), g, f);
        assert forall|x: Row| #[trigger] cands.contains(x) <==> (cands.drop_last().contains(x) || x
            == cands.last()) by {
            if cands.contains(x) {
                let i = choose|i: int| 0 <= i < cands.len() && cands[i] == x;
                if i < cands.len() - 1 {
                    assert(cands.drop_last()[i] == x);
                }
            }
            if cands.drop_last().contains(x) {
                let i = choose|i: int| 0 <= i < cands.len() - 1 && cands.drop_last()[i] == x;
                assert(cands[i] == x);
            }
            if x == cands.last() {
                assert(cands[cands.len() - 1] == x);
            }
        }
        let rest = filter_spec(cands.drop_last(), g, f);
        assert forall|x: Row| #[trigger] rest.push(cands.last()).contains(x) <==> (rest.contains(x)
            || x == cands.last()) by {
            if rest.push(cands.last()).contains(x) {
                let i = choose|i: int|
                    0 <= i < rest.len() + 1 && rest.push(cands.last())[i] == x;
                if i < rest.len() {
                    assert(rest[i] == x);
                }
            }
            if rest.contains(x) {
                let i = choose|i: int| 0 <= i < rest.len() && rest[i] == x;
                assert(rest.push(cands.last())[i] == x);
            }
            if x == cands.last() {
                assert(rest.push(cands.last())[rest.len() as int] == x);
            }
        }
    }
}

/// The target survives filtering by the feedback that it gives to any guess.
pub proof fn lemma_target_kept(cands: Seq<Row>, t: Row, g: Seq<Piece>)
    requires
        cands.contains(t),
    ensures
        filter_spec(cands, g, score_spec(t@, g)).contains(t),
{
    lemma_filter_members(cands, g, score_spec(t@, g));
}

/// The candidates in `open` that give `filter.1` as the feedback to `filter.0`, in order.
pub fn apply_filter(open: &[Row], filter: &(Row, State)) -> (r: Vec<Row>)
    ensures
        r@ == filter_spec(open@, filter.0@, filter.1),
{
    let mut result: Vec<Row> = Vec::new();
    let mut i: usize = 0;
    while i < open.len()
        invariant
            i <= open@.len(),
            result@ == filter_spec(open@.subrange(0, i as int), filter.0@, filter.1),
        decreases open@.len() - i,
    {
        let row = open[i];
        let s = compare_rows(&row, &filter.0);
        assert(open@.subrange(0, i + 1).drop_last() =~= open@.subrange(0, i as int));
        if s == filter.1 {
            result.push(row);
        }
        i = i + 1;
    }
    assert(open@.subrange(0, open@.len() as int) =~= open@);
    result
}

/// How many candidates in `open` give `filter.1` as the feedback to `filter.0`.
pub fn count_apply_filter(open: &[Row], filter: &(Row, State)) -> (r: usize)
    ensures
        r == count_spec(open@, filter.0@, filter.1),
{
    let mut n: usize = 0;
    let mut i: usize = 0;
    while i < open.len()
        invariant
            i <= open@.len(),
            n == count_spec(open@.subrange(0, i as int), filter.0@, filter.1),
            n <= i,
        decreases open@.len() - i,
    {
        let s = compare_rows(&open[i], &filter.0);
        assert(open@.subrange(0, i + 1).drop_last() =~= open@.subrange(0, i as int));
        if s == filter.1 {
            n = n + 1;
        }
        i = i + 1;
    }
    assert(open@.subrange(0, open@.len() as int) =~= open@);
    n
}

} // verus!
