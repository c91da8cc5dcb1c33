use vstd::prelude::*;

use crate::dom::{parent_of, Document};
use crate::extract::{
    collect, extract_spec, item_fn, lemma_collect_ok, lemma_find_first, resolve_spec, role_spec,
    round_fn, round_spec, row_fn, somes, turn_fn, turn_spec,
};
use crate::model::{ParseError, Token, TurnView};
use crate::query::{select_all, select_in, Query};

verus! {

/// Both choices of a turn point into its actions.
pub open spec fn choices_valid(t: TurnView) -> bool {
    0 <= t.player < t.actions.len() && 0 <= t.mortal < t.actions.len()
}

/// A turn that is extracted has both choices among its actions.
pub proof fn lemma_turn_choices_valid(d: &Document, t: int)
    requires
        turn_spec(d, t) is Ok,
    ensures
        choices_valid(turn_spec(d, t)->Ok_0),
{
    reveal(turn_spec);
    let roles = select_in(d, t, Query::TurnToRole);
    let trs = select_in(d, t, Query::TurnToActionRow);
    let rows = collect(trs.len() as int, row_fn(d, trs))->Ok_0;
    let pa = role_spec(d, roles[0] as int, "Player: "@)->Ok_0;
    let ma = role_spec(d, roles[1] as int, "Mortal: "@)->Ok_0;
    lemma_find_first(rows, pa, 0);
    lemma_find_first(rows, ma, 0);
}

/// Every turn of an extracted report has both choices among its actions.
pub proof fn lemma_choices_valid(d: &Document)
    requires
        extract_spec(d) is Ok,
    ensures
        forall|r: int, k: int|
            0 <= r < extract_spec(d)->Ok_0.len() && 0 <= k < extract_spec(d)->Ok_0[r].len()
                ==> choices_valid(#[trigger] extract_spec(d)->Ok_0[r][k]),
{
    let hs = select_all(d, Query::RoundHeading);
    let f = round_fn(d, hs);
    lemma_collect_ok(hs.len() as int, f);
    let rounds = extract_spec(d)->Ok_0;
    assert forall|r: int, k: int|
        0 <= r < rounds.len() && 0 <= k < rounds[r].len() implies choices_valid(
        #[trigger] rounds[r][k],
    ) by {
        assert(f(r) == Ok::<Seq<TurnView>, ParseError>(rounds[r]));
        let h = hs[r] as int;
        reveal(round_spec);
        let p = parent_of(d, h)->Some_0;
        let ts = select_in(d, p, Query::RoundToTurn);
        let g = turn_fn(d, ts);
        lemma_collect_ok(ts.len() as int, g);
        assert(g(k) == Ok::<TurnView, ParseError>(rounds[r][k]));
        lemma_turn_choices_valid(d, ts[k] as int);
    }
}

/// An action that resolves is never empty, and nodes that contribute
/// nothing fail to resolve with `EmptyAction`.
pub proof fn lemma_resolve_nonempty(d: &Document, nodes: Seq<usize>)
    ensures
        resolve_spec(d, nodes) is Ok ==> resolve_spec(d, nodes)->Ok_0.len() > 0,
        collect(nodes.len() as int, item_fn(d, nodes)) is Ok && somes(
            collect(nodes.len() as int, item_fn(d, nodes))->Ok_0,
        ).len() == 0 ==> resolve_spec(d, nodes) == Err::<Seq<Token>, ParseError>(
            ParseError::EmptyAction,
        ),
{
}

/// Extraction depends on the document alone: two runs on the same document
/// give equal results.
pub proof fn lemma_extract_deterministic(d1: &Document, d2: &Document)
    requires
        d1 == d2,
    ensures
        extract_spec(d1) == extract_spec(d2),
{
}

} // verus!
