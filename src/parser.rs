use vstd::prelude::*;

use crate::dom::{str_is, Document, NodeKind};
use crate::extract::{
    collect, decode_spec, details_cut, extract_spec, find_first, item_fn, item_spec,
    lemma_collect_err, part_spec, resolve_spec, role_action_nodes, role_spec, round_fn,
    round_spec, row_fn, row_spec, siblings_after, somes, tile_spec, turn_fn, turn_spec,
};
use crate::model::{
    round_views, scored_views, tokens_of, turn_views, Action, ActionElement, ParseError, Parsed,
    Round, ScoredAction, ScoredView, Token, Turn, TurnView,
};
use crate::query::{
    child_range_exec, children_exec, select_all, select_all_exec, select_in_exec, Query,
};
use crate::score::{parse_decimal, Score, ScoreView};
use crate::text::{chars_of, trim_text};

verus! {

/// Extracts the rounds, turns and scored actions of a review report.
pub struct Parser {
    round_heading: Query,
    round_heading_to_turn: Query,
    turn_to_role: Query,
    turn_to_action: Query,
}

impl Parser {
    /// The parser holds each pattern in its own place.
    pub closed spec fn wf(&self) -> bool {
        self.round_heading == Query::RoundHeading && self.round_heading_to_turn
            == Query::RoundToTurn && self.turn_to_role == Query::TurnToRole && self.turn_to_action
            == Query::TurnToActionRow
    }

    pub fn new() -> (r: Self)
        ensures
            r.wf(),
    {
        Parser {
            round_heading: Query::RoundHeading,
            round_heading_to_turn: Query::RoundToTurn,
            turn_to_role: Query::TurnToRole,
            turn_to_action: Query::TurnToActionRow,
        }
    }

    /// The text of a `span` of class `class` with one text child.
    fn parse_action_score_part<'a>(&self, d: &'a Document, node: usize, class: &str) -> (r: Result<
        &'a String,
        ParseError,
    >)
        requires
            node < d.nodes@.len(),
        ensures
            match r {
                Ok(t) => part_spec(d, node as int, class@) == Ok::<Seq<char>, ParseError>(t@),
                Err(e) => part_spec(d, node as int, class@) == Err::<Seq<char>, ParseError>(e),
            },
    {
        if !(d.is_named(node, "span") && d.has_class(node, class)) {
            return Err(ParseError::Structure);
        }
        let ch = children_exec(d, node, false);
        if ch.len() != 1 {
            return Err(ParseError::Structure);
        }
        match &d.nodes[ch[0]].kind {
            NodeKind::Text(t) => Ok(t),
            _ => Err(ParseError::Structure),
        }
    }

    /// Decodes the score written in `cell` as an integer part that ends in a
    /// point and a fractional part.
    pub fn parse_action_score(&self, d: &Document, cell: usize) -> (r: Result<Score, ParseError>)
        requires
            cell < d.nodes@.len(),
        ensures
            match r {
                Ok(x) => decode_spec(d, cell as int) == Ok::<ScoreView, ParseError>(x@),
                Err(e) => decode_spec(d, cell as int) == Err::<ScoreView, ParseError>(e),
            },
    {
        let ec = children_exec(d, cell, true);
        if ec.len() != 2 {
            return Err(ParseError::Structure);
        }
        let int_part = match self.parse_action_score_part(d, ec[0], "int") {
            Ok(t) => t,
            Err(e) => {
                return Err(e);
            },
        };
        let mut digits = chars_of(int_part);
        let n = digits.len();
        if !(n > 0 && digits[n - 1] == '.') {
            return Err(ParseError::Structure);
        }
        let frac_part = match self.parse_action_score_part(d, ec[1], "frac") {
            Ok(t) => t,
            Err(e) => {
                return Err(e);
            },
        };
        let mut rest = chars_of(frac_part);
        digits.append(&mut rest);
        match parse_decimal(&digits) {
            Some(x) => Ok(x),
            None => Err(ParseError::NumericFormat),
        }
    }

    /// The face of a tile element.
    fn parse_svg_action_element(&self, d: &Document, i: usize) -> (r: Result<String, ParseError>)
        requires
            i < d.nodes@.len(),
        ensures
            match r {
                Ok(f) => tile_spec(d, i as int) == Ok::<Seq<char>, ParseError>(f@),
                Err(e) => tile_spec(d, i as int) == Err::<Seq<char>, ParseError>(e),
            },
    {
        let ec = children_exec(d, i, true);
        if !d.has_class(i, "tile") || ec.len() == 0 {
            return Err(ParseError::Structure);
        }
        let u = ec[0];
        if !(d.is_named(u, "use") && d.has_class(u, "face")) {
            return Err(ParseError::Structure);
        }
        match d.attr(u, "href") {
            Some(h) => Ok(h.clone()),
            None => Err(ParseError::MissingAttribute),
        }
    }

    /// What node `i` adds to an action.
    fn parse_action_item(&self, d: &Document, i: usize) -> (r: Result<
        Option<ActionElement>,
        ParseError,
    >)
        requires
            i < d.nodes@.len(),
        ensures
            match r {
                Ok(Some(a)) => item_spec(d, i as int) == Ok::<Option<Token>, ParseError>(Some(a@)),
                Ok(None) => item_spec(d, i as int) == Ok::<Option<Token>, ParseError>(None),
                Err(e) => item_spec(d, i as int) == Err::<Option<Token>, ParseError>(e),
            },
    {
        match &d.nodes[i].kind {
            NodeKind::Text(t) => {
                let s = trim_text(t);
                if s.as_str().is_empty() {
                    Ok(None)
                } else {
                    Ok(Some(ActionElement::Text(s)))
                }
            },
            NodeKind::Element(e) => {
                if str_is(&e.name, "svg") {
                    match self.parse_svg_action_element(d, i) {
                        Ok(f) => Ok(Some(ActionElement::Tile(f))),
                        Err(e) => Err(e),
                    }
                } else {
                    Ok(None)
                }
            },
            NodeKind::Other => Ok(None),
        }
    }

    /// The action that the nodes `nodes` describe, in order: each non-blank
    /// text a word, each tile its face.
    pub fn parse_action(&self, d: &Document, nodes: &Vec<usize>) -> (r: Result<Action, ParseError>)
        requires
            forall|k: int| 0 <= k < nodes@.len() ==> #[trigger] nodes@[k] < d.nodes@.len(),
        ensures
            match r {
                Ok(a) => resolve_spec(d, nodes@) == Ok::<Seq<Token>, ParseError>(a@) && a@.len()
                    > 0,
                Err(e) => resolve_spec(d, nodes@) == Err::<Seq<Token>, ParseError>(e),
            },
    {
        let ghost f = item_fn(d, nodes@);
        let ghost mut os: Seq<Option<Token>> = Seq::empty();
        let mut out: Vec<ActionElement> = Vec::new();
        let mut k: usize = 0;
        while k < nodes.len()
            invariant
                k <= nodes@.len(),
                f == item_fn(d, nodes@),
                forall|m: int| 0 <= m < nodes@.len() ==> #[trigger] nodes@[m] < d.nodes@.len(),
                collect(k as int, f) == Ok::<Seq<Option<Token>>, ParseError>(os),
                tokens_of(out@) == somes(os),
            decreases nodes@.len() - k,
        {
            match self.parse_action_item(d, nodes[k]) {
                Ok(Some(a)) => {
                    proof {
                        assert(os.push(Some(a@)).drop_last() =~= os);
                        os = os.push(Some(a@));
                    }
                    out.push(a);
                    assert(tokens_of(out@) =~= somes(os));
                },
                Ok(None) => {
                    proof {
                        assert(os.push(None).drop_last() =~= os);
                        os = os.push(None);
                    }
                },
                Err(e) => {
                    proof {
                        lemma_collect_err(k + 1, nodes@.len() as int, f);
                    }
                    return Err(e);
                },
            }
            k = k + 1;
        }
        if out.len() == 0 {
            return Err(ParseError::EmptyAction);
        }
        Ok(Action { elements: out })
    }

    /// The nodes that describe a role's action: its following siblings up
    /// to the next `details` element.
    fn role_action_nodes_exec(&self, d: &Document, role: usize) -> (r: Vec<usize>)
        requires
            role < d.nodes@.len(),
        ensures
            r@ == role_action_nodes(d, role as int),
            forall|k: int| 0 <= k < r@.len() ==> #[trigger] r@[k] < d.nodes@.len(),
    {
        let _len = d.nodes.len();
        let sibs = match d.parent(role) {
            Some(p) => child_range_exec(d, p, role + 1),
            None => Vec::new(),
        };
        assert(sibs@ == siblings_after(d, role as int));
        let mut out: Vec<usize> = Vec::new();
        let mut k: usize = 0;
        while k < sibs.len() && !d.is_named(sibs[k], "details")
            invariant
                k <= sibs@.len(),
                sibs@ == siblings_after(d, role as int),
                forall|m: int| 0 <= m < sibs@.len() ==> #[trigger] sibs@[m] < d.nodes@.len(),
                details_cut(d, sibs@, 0) == details_cut(d, sibs@, k as int),
                out@ == sibs@.subrange(0, k as int),
            decreases sibs@.len() - k,
        {
            out.push(sibs[k]);
            k = k + 1;
            assert(out@ =~= sibs@.subrange(0, k as int));
        }
        out
    }

    /// The action of a role whose first child reads `label`.
    pub fn parse_role(&self, d: &Document, role: usize, label: &str) -> (r: Result<
        Action,
        ParseError,
    >)
        requires
            role < d.nodes@.len(),
        ensures
            match r {
                Ok(a) => role_spec(d, role as int, label@) == Ok::<Seq<Token>, ParseError>(a@),
                Err(e) => role_spec(d, role as int, label@) == Err::<Seq<Token>, ParseError>(e),
            },
    {
        let ch = children_exec(d, role, false);
        if ch.len() == 0 {
            return Err(ParseError::RoleLabelMismatch);
        }
        match &d.nodes[ch[0]].kind {
            NodeKind::Text(t) => {
                if !str_is(t, label) {
                    return Err(ParseError::RoleLabelMismatch);
                }
            },
            _ => {
                return Err(ParseError::RoleLabelMismatch);
            },
        }
        let nodes = self.role_action_nodes_exec(d, role);
        self.parse_action(d, &nodes)
    }

    /// A table row of three cells: the action, its quality, its probability.
    pub fn parse_action_with_scores(&self, d: &Document, tr: usize) -> (r: Result<
        ScoredAction,
        ParseError,
    >)
        requires
            tr < d.nodes@.len(),
        ensures
            match r {
                Ok(a) => row_spec(d, tr as int) == Ok::<ScoredView, ParseError>(a@),
                Err(e) => row_spec(d, tr as int) == Err::<ScoredView, ParseError>(e),
            },
    {
        reveal(row_spec);
        let cells = children_exec(d, tr, true);
        if cells.len() != 3 {
            return Err(ParseError::RowShape);
        }
        let nodes = children_exec(d, cells[0], false);
        let action = match self.parse_action(d, &nodes) {
            Ok(a) => a,
            Err(e) => {
                return Err(e);
            },
        };
        let quality = match self.parse_action_score(d, cells[1]) {
            Ok(q) => q,
            Err(e) => {
                return Err(e);
            },
        };
        let probability = match self.parse_action_score(d, cells[2]) {
            Ok(q) => q,
            Err(e) => {
                return Err(e);
            },
        };
        Ok(ScoredAction { action, quality, probability })
    }

    /// The scored rows at the nodes `trs`, in order; the first failure ends
    /// the run.
    fn parse_rows(&self, d: &Document, trs: &Vec<usize>) -> (r: Result<
        Vec<ScoredAction>,
        ParseError,
    >)
        requires
            forall|m: int| 0 <= m < trs@.len() ==> #[trigger] trs@[m] < d.nodes@.len(),
        ensures
            match r {
                Ok(rows) => collect(trs@.len() as int, row_fn(d, trs@)) == Ok::<
                    Seq<ScoredView>,
                    ParseError,
                >(scored_views(rows@)),
                Err(e) => collect(trs@.len() as int, row_fn(d, trs@)) == Err::<
                    Seq<ScoredView>,
                    ParseError,
                >(e),
            },
    {
        let ghost f = row_fn(d, trs@);
        let mut rows: Vec<ScoredAction> = Vec::new();
        assert(scored_views(rows@) =~= Seq::<ScoredView>::empty());
        let mut k: usize = 0;
        while k < trs.len()
            invariant
                k <= trs@.len(),
                f == row_fn(d, trs@),
                forall|m: int| 0 <= m < trs@.len() ==> #[trigger] trs@[m] < d.nodes@.len(),
                collect(k as int, f) == Ok::<Seq<ScoredView>, ParseError>(scored_views(rows@)),
            decreases trs@.len() - k,
        {
            match self.parse_action_with_scores(d, trs[k]) {
                Ok(a) => {
                    let ghost before = rows@;
                    rows.push(a);
                    assert(scored_views(rows@) =~= scored_views(before).push(a@));
                },
                Err(e) => {
                    proof {
                        lemma_collect_err(k + 1, trs@.len() as int, f);
                    }
                    return Err(e);
                },
            }
            k = k + 1;
        }
        Ok(rows)
    }

    /// The turn in the subtree of `turn`.
    pub fn parse_turn(&self, d: &Document, turn: usize) -> (r: Result<Turn, ParseError>)
        requires
            self.wf(),
            turn < d.nodes@.len(),
        ensures
            match r {
                Ok(t) => turn_spec(d, turn as int) == Ok::<TurnView, ParseError>(t@),
                Err(e) => turn_spec(d, turn as int) == Err::<TurnView, ParseError>(e),
            },
    {
        proof {
            reveal(Parser::wf);
            reveal(turn_spec);
        }
        let roles = select_in_exec(d, turn, self.turn_to_role);
        if roles.len() < 2 {
            return Err(ParseError::RoleCount);
        }
        if roles.len() > 2 {
            return Err(ParseError::UnexpectedRole);
        }
        let player = match self.parse_role(d, roles[0], "Player: ") {
            Ok(a) => a,
            Err(e) => {
                return Err(e);
            },
        };
        let mortal = match self.parse_role(d, roles[1], "Mortal: ") {
            Ok(a) => a,
            Err(e) => {
                return Err(e);
            },
        };
        let trs = select_in_exec(d, turn, self.turn_to_action);
        let rows = match self.parse_rows(d, &trs) {
            Ok(rows) => rows,
            Err(e) => {
                return Err(e);
            },
        };
        let player_index = match find_action_index(&rows, &player) {
            Some(i) => i,
            None => {
                return Err(ParseError::ActionNotFound);
            },
        };
        let mortal_index = match find_action_index(&rows, &mortal) {
            Some(i) => i,
            None => {
                return Err(ParseError::ActionNotFound);
            },
        };
        Ok(Turn { player: player_index, mortal: mortal_index, actions: rows })
    }

    /// The turns at the nodes `ts`, in order; the first failure ends the run.
    fn parse_turns(&self, d: &Document, ts: &Vec<usize>) -> (r: Result<Vec<Turn>, ParseError>)
        requires
            self.wf(),
            forall|m: int| 0 <= m < ts@.len() ==> #[trigger] ts@[m] < d.nodes@.len(),
        ensures
            match r {
                Ok(turns) => collect(ts@.len() as int, turn_fn(d, ts@)) == Ok::<
                    Seq<TurnView>,
                    ParseError,
                >(turn_views(turns@)),
                Err(e) => collect(ts@.len() as int, turn_fn(d, ts@)) == Err::<
                    Seq<TurnView>,
                    ParseError,
                >(e),
            },
    {
        let ghost f = turn_fn(d, ts@);
        let mut turns: Vec<Turn> = Vec::new();
        assert(turn_views(turns@) =~= Seq::<TurnView>::empty());
        let mut k: usize = 0;
        while k < ts.len()
            invariant
                self.wf(),
                k <= ts@.len(),
                f == turn_fn(d, ts@),
                forall|m: int| 0 <= m < ts@.len() ==> #[trigger] ts@[m] < d.nodes@.len(),
                collect(k as int, f) == Ok::<Seq<TurnView>, ParseError>(turn_views(turns@)),
            decreases ts@.len() - k,
        {
            match self.parse_turn(d, ts[k]) {
                Ok(t) => {
                    let ghost before = turns@;
                    turns.push(t);
                    assert(turn_views(turns@) =~= turn_views(before).push(t@));
                },
                Err(e) => {
                    proof {
                        lemma_collect_err(k + 1, ts@.len() as int, f);
                    }
                    return Err(e);
                },
            }
            k = k + 1;
        }
        Ok(turns)
    }

    /// The round whose heading is `heading`.
    pub fn parse_round(&self, d: &Document, heading: usize) -> (r: Result<Round, ParseError>)
        requires
            self.wf(),
            heading < d.nodes@.len(),
        ensures
            match r {
                Ok(t) => round_spec(d, heading as int) == Ok::<Seq<TurnView>, ParseError>(t@),
                Err(e) => round_spec(d, heading as int) == Err::<Seq<TurnView>, ParseError>(e),
            },
    {
        proof {
            reveal(Parser::wf);
            reveal(round_spec);
        }
        if !d.is_element(heading) || d.attr(heading, "id").is_none() {
            return Err(ParseError::MissingId);
        }
        let parent = match d.parent(heading) {
            Some(p) => p,
            None => {
                return Err(ParseError::MissingParent);
            },
        };
        if !d.is_element(parent) {
            return Err(ParseError::MissingParent);
        }
        let ts = select_in_exec(d, parent, self.round_heading_to_turn);
        match self.parse_turns(d, &ts) {
            Ok(turns) => Ok(Round { turns }),
            Err(e) => Err(e),
        }
    }

    /// Extracts every round of the report `d`, in document order; the first
    /// failure in document order ends the run.
    pub fn parse(&self, d: &Document) -> (r: Result<Parsed, ParseError>)
        requires
            self.wf(),
        ensures
            match r {
                Ok(p) => extract_spec(d) == Ok::<Seq<Seq<TurnView>>, ParseError>(p@),
                Err(e) => extract_spec(d) == Err::<Seq<Seq<TurnView>>, ParseError>(e),
            },
    {
        proof {
            reveal(Parser::wf);
        }
        let hs = select_all_exec(d, self.round_heading);
        let ghost f = round_fn(d, hs@);
        let mut rounds: Vec<Round> = Vec::new();
        assert(round_views(rounds@) =~= Seq::<Seq<TurnView>>::empty());
        let mut k: usize = 0;
        while k < hs.len()
            invariant
                self.wf(),
                k <= hs@.len(),
                hs@ == select_all(d, Query::RoundHeading),
                f == round_fn(d, hs@),
                forall|m: int| 0 <= m < hs@.len() ==> #[trigger] hs@[m] < d.nodes@.len(),
                collect(k as int, f) == Ok::<Seq<Seq<TurnView>>, ParseError>(round_views(rounds@)),
            decreases hs@.len() - k,
        {
            match self.parse_round(d, hs[k]) {
                Ok(t) => {
                    let ghost before = rounds@;
                    rounds.push(t);
                    assert(round_views(rounds@) =~= round_views(before).push(t@));
                },
                Err(e) => {
                    proof {
                        lemma_collect_err(k + 1, hs@.len() as int, f);
                    }
                    return Err(e);
                },
            }
            k = k + 1;
        }
        Ok(Parsed { rounds })
    }
}

/// Whether two descriptions are the same element by element.
pub fn action_eq(a: &Action, b: &Action) -> (r: bool)
    ensures
        r == (a@ == b@),
{
    if a.elements.len() != b.elements.len() {
        assert(a@.len() != b@.len());
        return false;
    }
    let mut k: usize = 0;
    while k < a.elements.len()
        invariant
            k <= a.elements@.len() == b.elements@.len(),
            forall|m: int| 0 <= m < k ==> a@[m] == b@[m],
        decreases a.elements@.len() - k,
    {
        let same = match (&a.elements[k], &b.elements[k]) {
            (ActionElement::Text(x), ActionElement::Text(y)) => *x == *y,
            (ActionElement::Tile(x), ActionElement::Tile(y)) => *x == *y,
            _ => false,
        };
        if !same {
            assert(a@[k as int] != b@[k as int]);
            return false;
        }
        k = k + 1;
    }
    assert(a@ =~= b@);
    true
}

/// The position of the first row whose action is `a`.
pub fn find_action_index(rows: &Vec<ScoredAction>, a: &Action) -> (r: Option<usize>)
    ensures
        match r {
            Some(i) => find_first(scored_views(rows@), a@, 0) == Some(i as int),
            None => find_first(scored_views(rows@), a@, 0) is None,
        },
{
    let mut k: usize = 0;
    while k < rows.len()
        invariant
            k <= rows@.len(),
            find_first(scored_views(rows@), a@, 0) == find_first(scored_views(rows@), a@, k as int),
        decreases rows@.len() - k,
    {
        if action_eq(&rows[k].action, a) {
            return Some(k);
        }
        k = k + 1;
    }
    None
}

} // verus!
