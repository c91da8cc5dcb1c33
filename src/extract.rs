use vstd::prelude::*;

use crate::dom::{
    attr_of, has_class, is_element, is_named, parent_of, subtree_end, Document, NodeKind,
};
use crate::model::{ParseError, ScoredView, Token, TurnView};
use crate::query::{
    child_pred, children_of, element_children_of, filter_range, select_all, select_in, Query,
};
use crate::score::{decimal_of, ScoreView};
use crate::text::trimmed;

verus! {

/// Applies `f` to `0 .. n` in order and gathers the results; the first
/// error ends the run.
pub open spec fn collect<A>(n: int, f: spec_fn(int) -> Result<A, ParseError>) -> Result<
    Seq<A>,
    ParseError,
>
    decreases n,
{
    if n <= 0 {
        Ok(Seq::empty())
    } else {
        match collect(n - 1, f) {
            Err(e) => Err(e),
            Ok(s) => match f(n - 1) {
                Err(e) => Err(e),
                Ok(a) => Ok(s.push(a)),
            },
        }
    }
}

/// Once a run has failed, it stays failed with the same error.
pub proof fn lemma_collect_err<A>(k: int, n: int, f: spec_fn(int) -> Result<A, ParseError>)
    requires
        0 <= k <= n,
        collect(k, f) is Err,
    ensures
        collect(n, f) == collect(k, f),
    decreases n - k,
{
    if k < n {
        lemma_collect_err(k, n - 1, f);
    }
}

/// A successful run holds one result per index, each the one `f` gave.
pub proof fn lemma_collect_ok<A>(n: int, f: spec_fn(int) -> Result<A, ParseError>)
    requires
        0 <= n,
        collect(n, f) is Ok,
    ensures
        collect(n, f)->Ok_0.len() == n,
        forall|k: int| 0 <= k < n ==> #[trigger] f(k) == Ok::<A, ParseError>(collect(n, f)->Ok_0[k]),
    decreases n,
{
    if n > 0 {
        lemma_collect_ok(n - 1, f);
    }
}

/// The text of node `i`, where it is a text node.
pub open spec fn text_of(d: &Document, i: int) -> Option<Seq<char>> {
    match d.nodes@[i].kind {
        NodeKind::Text(t) => Some(t@),
        _ => None,
    }
}

/// The face of a tile: an `svg.tile` whose first element child is a
/// `use.face` with an `href`.
pub open spec fn tile_spec(d: &Document, i: int) -> Result<Seq<char>, ParseError> {
    let ec = element_children_of(d, i);
    if !has_class(d, i, "tile"@) || ec.len() == 0 {
        Err(ParseError::Structure)
    } else {
        let u = ec[0] as int;
        if !(is_named(d, u, "use"@) && has_class(d, u, "face"@)) {
            Err(ParseError::Structure)
        } else {
            match attr_of(d, u, "href"@) {
                Some(h) => Ok(h),
                None => Err(ParseError::MissingAttribute),
            }
        }
    }
}

/// What node `i` adds to an action: a trimmed word, a tile, or nothing.
pub open spec fn item_spec(d: &Document, i: int) -> Result<Option<Token>, ParseError> {
    match d.nodes@[i].kind {
        NodeKind::Text(t) => if trimmed(t@).len() > 0 {
            Ok(Some(Token::Text(trimmed(t@))))
        } else {
            Ok(None)
        },
        NodeKind::Element(e) => if e.name@ == "svg"@ {
            match tile_spec(d, i) {
                Ok(f) => Ok(Some(Token::Tile(f))),
                Err(e) => Err(e),
            }
        } else {
            Ok(None)
        },
        NodeKind::Other => Ok(None),
    }
}

pub open spec fn item_fn(d: &Document, nodes: Seq<usize>) -> spec_fn(int) -> Result<
    Option<Token>,
    ParseError,
> {
    |k: int| item_spec(d, nodes[k] as int)
}

/// The present values of `s`, in order.
pub open spec fn somes(s: Seq<Option<Token>>) -> Seq<Token>
    decreases s.len(),
{
    if s.len() == 0 {
        Seq::empty()
    } else {
        match s.last() {
            Some(t) => somes(s.drop_last()).push(t),
            None => somes(s.drop_last()),
        }
    }
}

/// The action that the nodes `nodes` describe.
pub open spec fn resolve_spec(d: &Document, nodes: Seq<usize>) -> Result<Seq<Token>, ParseError> {
    match collect(nodes.len() as int, item_fn(d, nodes)) {
        Err(e) => Err(e),
        Ok(os) => if somes(os).len() == 0 {
            Err(ParseError::EmptyAction)
        } else {
            Ok(somes(os))
        },
    }
}

/// The text of a one-text `span` of the given class.
pub open spec fn part_spec(d: &Document, i: int, class: Seq<char>) -> Result<
    Seq<char>,
    ParseError,
> {
    let ch = children_of(d, i);
    if !(is_named(d, i, "span"@) && has_class(d, i, class)) || ch.len() != 1 {
        Err(ParseError::Structure)
    } else {
        match text_of(d, ch[0] as int) {
            Some(t) => Ok(t),
            None => Err(ParseError::Structure),
        }
    }
}

/// The score of a cell holding `span.int` (ending in a point) and
/// `span.frac`.
pub open spec fn decode_spec(d: &Document, cell: int) -> Result<ScoreView, ParseError> {
    let ec = element_children_of(d, cell);
    if ec.len() != 2 {
        Err(ParseError::Structure)
    } else {
        match part_spec(d, ec[0] as int, "int"@) {
            Err(e) => Err(e),
            Ok(int_part) => if !(int_part.len() > 0 && int_part.last() == '.') {
                Err(ParseError::Structure)
            } else {
                match part_spec(d, ec[1] as int, "frac"@) {
                    Err(e) => Err(e),
                    Ok(frac_part) => match decimal_of(int_part + frac_part) {
                        Some(x) => Ok(x),
                        None => Err(ParseError::NumericFormat),
                    },
                }
            },
        }
    }
}

/// The siblings that follow node `i`, in document order.
pub open spec fn siblings_after(d: &Document, i: int) -> Seq<usize> {
    match parent_of(d, i) {
        Some(p) => filter_range(i + 1, subtree_end(d, p), child_pred(d, p)),
        None => Seq::empty(),
    }
}

/// The position in `s`, from `k` on, of the first `details` element, or the
/// length of `s`.
pub open spec fn details_cut(d: &Document, s: Seq<usize>, k: int) -> int
    decreases s.len() - k,
{
    if k < 0 || k >= s.len() {
        s.len() as int
    } else if is_named(d, s[k] as int, "details"@) {
        k
    } else {
        details_cut(d, s, k + 1)
    }
}

/// The nodes that describe a role's action: the role's following siblings
/// up to the next `details` element.
pub open spec fn role_action_nodes(d: &Document, i: int) -> Seq<usize> {
    let s = siblings_after(d, i);
    s.subrange(0, details_cut(d, s, 0))
}

/// The action of a role whose first child is the text `label`.
pub open spec fn role_spec(d: &Document, i: int, label: Seq<char>) -> Result<
    Seq<Token>,
    ParseError,
> {
    let ch = children_of(d, i);
    if ch.len() == 0 || text_of(d, ch[0] as int) != Some(label) {
        Err(ParseError::RoleLabelMismatch)
    } else {
        resolve_spec(d, role_action_nodes(d, i))
    }
}

/// A table row of three cells: the action, its quality, its probability.
#[verifier::opaque]
pub open spec fn row_spec(d: &Document, tr: int) -> Result<ScoredView, ParseError> {
    let ec = element_children_of(d, tr);
    if ec.len() != 3 {
        Err(ParseError::RowShape)
    } else {
        match resolve_spec(d, children_of(d, ec[0] as int)) {
            Err(e) => Err(e),
            Ok(a) => match decode_spec(d, ec[1] as int) {
                Err(e) => Err(e),
                Ok(q) => match decode_spec(d, ec[2] as int) {
                    Err(e) => Err(e),
                    Ok(p) => Ok(ScoredView { action: a, quality: q, probability: p }),
                },
            },
        }
    }
}

pub open spec fn row_fn(d: &Document, rows: Seq<usize>) -> spec_fn(int) -> Result<
    ScoredView,
    ParseError,
> {
    |k: int| row_spec(d, rows[k] as int)
}

/// The first position, from `k` on, of a row whose action is `a`.
pub open spec fn find_first(rows: Seq<ScoredView>, a: Seq<Token>, k: int) -> Option<int>
    decreases rows.len() - k,
{
    if k < 0 || k >= rows.len() {
        None
    } else if rows[k].action == a {
        Some(k)
    } else {
        find_first(rows, a, k + 1)
    }
}

pub proof fn lemma_find_first(rows: Seq<ScoredView>, a: Seq<Token>, k: int)
    requires
        0 <= k,
    ensures
        match find_first(rows, a, k) {
            Some(i) => k <= i < rows.len() && rows[i].action == a && forall|j: int|
                k <= j < i ==> rows[j].action != a,
            None => forall|j: int| k <= j < rows.len() ==> rows[j].action != a,
        },
    decreases rows.len() - k,
{
    if k < rows.len() {
        lemma_find_first(rows, a, k + 1);
    }
}

/// A turn: two roles, the scored rows, and where each role's action stands
/// among the rows.
#[verifier::opaque]
pub open spec fn turn_spec(d: &Document, t: int) -> Result<TurnView, ParseError> {
    let roles = select_in(d, t, Query::TurnToRole);
    let trs = select_in(d, t, Query::TurnToActionRow);
    if roles.len() < 2 {
        Err(ParseError::RoleCount)
    } else if roles.len() > 2 {
        Err(ParseError::UnexpectedRole)
    } else {
        match role_spec(d, roles[0] as int, "Player: "@) {
            Err(e) => Err(e),
            Ok(pa) => match role_spec(d, roles[1] as int, "Mortal: "@) {
                Err(e) => Err(e),
                Ok(ma) => match collect(trs.len() as int, row_fn(d, trs)) {
                    Err(e) => Err(e),
                    Ok(rows) => match find_first(rows, pa, 0) {
                        None => Err(ParseError::ActionNotFound),
                        Some(pi) => match find_first(rows, ma, 0) {
                            None => Err(ParseError::ActionNotFound),
                            Some(mi) => Ok(TurnView { player: pi, mortal: mi, actions: rows }),
                        },
                    },
                },
            },
        }
    }
}

pub open spec fn turn_fn(d: &Document, ts: Seq<usize>) -> spec_fn(int) -> Result<
    TurnView,
    ParseError,
> {
    |k: int| turn_spec(d, ts[k] as int)
}

/// A round: its heading needs an `id` and a parent element, under which the
/// turns stand.
#[verifier::opaque]
pub open spec fn round_spec(d: &Document, h: int) -> Result<Seq<TurnView>, ParseError> {
    match if is_element(d, h) {
        attr_of(d, h, "id"@)
    } else {
        None
    } {
        None => Err(ParseError::MissingId),
        Some(_) => match parent_of(d, h) {
            None => Err(ParseError::MissingParent),
            Some(p) => if !is_element(d, p) {
                Err(ParseError::MissingParent)
            } else {
                let ts = select_in(d, p, Query::RoundToTurn);
                collect(ts.len() as int, turn_fn(d, ts))
            },
        },
    }
}

pub open spec fn round_fn(d: &Document, hs: Seq<usize>) -> spec_fn(int) -> Result<
    Seq<TurnView>,
    ParseError,
> {
    |k: int| round_spec(d, hs[k] as int)
}

/// The whole report: one round per round heading, in document order.
pub open spec fn extract_spec(d: &Document) -> Result<Seq<Seq<TurnView>>, ParseError> {
    let hs = select_all(d, Query::RoundHeading);
    collect(hs.len() as int, round_fn(d, hs))
}

} // verus!
