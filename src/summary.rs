use vstd::prelude::*;

use crate::model::{Parsed, TurnView};

verus! {

/// How many turns a report holds, and in how many both agents chose the
/// same action.
#[derive(Clone, Copy, PartialEq, Eq, Structural, Debug)]
pub struct Tally {
    pub turns: usize,
    pub correct: usize,
}

/// The number of turns in the rounds `rs`.
pub open spec fn turn_total(rs: Seq<Seq<TurnView>>) -> int
    decreases rs.len(),
{
    if rs.len() == 0 {
        0
    } else {
        turn_total(rs.drop_last()) + rs.last().len()
    }
}

/// The number of turns in `ts` whose two choices agree.
pub open spec fn agreeing(ts: Seq<TurnView>) -> int
    decreases ts.len(),
{
    if ts.len() == 0 {
        0
    } else {
        agreeing(ts.drop_last()) + if ts.last().player == ts.last().mortal {
            1int
        } else {
            0
        }
    }
}

/// The number of turns in the rounds `rs` whose two choices agree.
pub open spec fn agreeing_total(rs: Seq<Seq<TurnView>>) -> int
    decreases rs.len(),
{
    if rs.len() == 0 {
        0
    } else {
        agreeing_total(rs.drop_last()) + agreeing(rs.last())
    }
}

proof fn lemma_agreeing_bound(ts: Seq<TurnView>)
    ensures
        0 <= agreeing(ts) <= ts.len(),
    decreases ts.len(),
{
    if ts.len() > 0 {
        lemma_agreeing_bound(ts.drop_last());
    }
}

proof fn lemma_totals_bound(rs: Seq<Seq<TurnView>>)
    ensures
        0 <= agreeing_total(rs) <= turn_total(rs),
    decreases rs.len(),
{
    if rs.len() > 0 {
        lemma_totals_bound(rs.drop_last());
        lemma_agreeing_bound(rs.last());
    }
}

proof fn lemma_turn_total_prefix(rs: Seq<Seq<TurnView>>, i: int)
    requires
        0 <= i <= rs.len(),
    ensures
        0 <= turn_total(rs.subrange(0, i)) <= turn_total(rs),
    decreases rs.len() - i,
{
    if i < rs.len() {
        lemma_turn_total_prefix(rs, i + 1);
        assert(rs.subrange(0, i + 1).drop_last() =~= rs.subrange(0, i));
    } else {
        assert(rs.subrange(0, i) =~= rs);
    }
    lemma_nonneg(rs.subrange(0, i));
}

proof fn lemma_nonneg(rs: Seq<Seq<TurnView>>)
    ensures
        turn_total(rs) >= 0,
    decreases rs.len(),
{
    if rs.len() > 0 {
        lemma_nonneg(rs.drop_last());
    }
}

/// Counts the turns of `p` and the turns whose choices agree.
pub fn tally(p: &Parsed) -> (r: Tally)
    requires
        turn_total(p@) <= usize::MAX,
    ensures
        r.turns == turn_total(p@),
        r.correct == agreeing_total(p@),
{
    let mut turns: usize = 0;
    let mut correct: usize = 0;
    let mut i: usize = 0;
    while i < p.rounds.len()
        invariant
            i <= p.rounds@.len(),
            p@.len() == p.rounds@.len(),
            turn_total(p@) <= usize::MAX,
            turns == turn_total(p@.subrange(0, i as int)),
            correct == agreeing_total(p@.subrange(0, i as int)),
        decreases p.rounds@.len() - i,
    {
        let round = &p.rounds[i];
        assert(p@[i as int] == round@);
        proof {
            lemma_turn_total_prefix(p@, i + 1);
            assert(p@.subrange(0, i + 1).drop_last() =~= p@.subrange(0, i as int));
            lemma_totals_bound(p@.subrange(0, i as int));
        }
        let mut k: usize = 0;
        let start = turns;
        let ghost start_correct = correct;
        while k < round.turns.len()
            invariant
                k <= round.turns@.len(),
                round@.len() == round.turns@.len(),
                start + round@.len() <= usize::MAX,
                turns == start + k,
                correct == start_correct + agreeing(round@.subrange(0, k as int)),
                start_correct <= start,
            decreases round.turns@.len() - k,
        {
            let t = &round.turns[k];
            assert(round@[k as int] == t@);
            assert(round@.subrange(0, k + 1).drop_last() =~= round@.subrange(0, k as int));
            proof {
                lemma_agreeing_bound(round@.subrange(0, k as int));
            }
            if t.player == t.mortal {
                correct = correct + 1;
            }
            turns = turns + 1;
            k = k + 1;
        }
        assert(round@.subrange(0, k as int) =~= round@);
        i = i + 1;
    }
    assert(p@.subrange(0, i as int) =~= p@);
    Tally { turns, correct }
}

} // verus!
