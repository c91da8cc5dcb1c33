use vstd::prelude::*;

use crate::dom::{
    has_class, is_child, is_element, is_named, node_count, parent_of, subtree_end,
    Document,
};

verus! {

/// The indices `j` in `[lo, hi)` that satisfy `f`, in increasing order.
pub open spec fn filter_range(lo: int, hi: int, f: spec_fn(int) -> bool) -> Seq<usize>
    decreases hi - lo,
{
    if hi <= lo {
        Seq::empty()
    } else {
        let s = filter_range(lo, hi - 1, f);
        if f(hi - 1) {
            s.push((hi - 1) as usize)
        } else {
            s
        }
    }
}

/// The children of `p`, in document order.
pub open spec fn child_pred(d: &Document, p: int) -> spec_fn(int) -> bool {
    |j: int| is_child(d, p, j)
}

/// The children of `p` that are elements.
pub open spec fn element_child_pred(d: &Document, p: int) -> spec_fn(int) -> bool {
    |j: int| is_child(d, p, j) && is_element(d, j)
}

pub open spec fn children_of(d: &Document, p: int) -> Seq<usize> {
    filter_range(p + 1, subtree_end(d, p), child_pred(d, p))
}

pub open spec fn element_children_of(d: &Document, p: int) -> Seq<usize> {
    filter_range(p + 1, subtree_end(d, p), element_child_pred(d, p))
}

/// The 1-based position of `i` among the element children of its parent,
/// or 0 where it has no parent.
pub open spec fn nth_child(d: &Document, i: int) -> int {
    match parent_of(d, i) {
        Some(p) => 1 + filter_range(p + 1, i, element_child_pred(d, p)).len() as int,
        None => 0,
    }
}

/// `i` has a parent named `name`, which is returned.
pub open spec fn parent_named(d: &Document, i: int, name: Seq<char>) -> Option<int> {
    match parent_of(d, i) {
        Some(p) => if is_named(d, p, name) {
            Some(p)
        } else {
            None
        },
        None => None,
    }
}

/// The four structural patterns that locate the parts of a report.
#[derive(Clone, Copy, PartialEq, Eq, Structural)]
pub enum Query {
    /// `html > body > section > h1.kyoku-heading`
    RoundHeading,
    /// `div:nth-child(4) > details:nth-child(2)`
    RoundToTurn,
    /// `span.role`
    TurnToRole,
    /// `details > table > tbody > tr`
    TurnToActionRow,
}

/// Whether node `i` satisfies the pattern `q`.
pub open spec fn matches(d: &Document, i: int, q: Query) -> bool {
    match q {
        Query::RoundHeading => is_named(d, i, "h1"@) && has_class(d, i, "kyoku-heading"@) && match parent_named(d, i, "section"@) {
            Some(s) => match parent_named(d, s, "body"@) {
                Some(b) => parent_named(d, b, "html"@) is Some,
                None => false,
            },
            None => false,
        },
        Query::RoundToTurn => is_named(d, i, "details"@) && nth_child(d, i) == 2 && match parent_named(d, i, "div"@) {
            Some(v) => nth_child(d, v) == 4,
            None => false,
        },
        Query::TurnToRole => is_named(d, i, "span"@) && has_class(d, i, "role"@),
        Query::TurnToActionRow => is_named(d, i, "tr"@) && match parent_named(d, i, "tbody"@) {
            Some(b) => match parent_named(d, b, "table"@) {
                Some(t) => parent_named(d, t, "details"@) is Some,
                None => false,
            },
            None => false,
        },
    }
}

pub open spec fn query_pred(d: &Document, q: Query) -> spec_fn(int) -> bool {
    |j: int| matches(d, j, q)
}

/// The descendants of `scope` that satisfy `q`, in document order.
pub open spec fn select_in(d: &Document, scope: int, q: Query) -> Seq<usize> {
    filter_range(scope + 1, subtree_end(d, scope), query_pred(d, q))
}

/// The nodes of the whole document that satisfy `q`, in document order.
pub open spec fn select_all(d: &Document, q: Query) -> Seq<usize> {
    filter_range(0, node_count(d), query_pred(d, q))
}

/// Every index that `filter_range` yields lies in its range and satisfies
/// its predicate.
pub proof fn lemma_filter_range_members(lo: int, hi: int, f: spec_fn(int) -> bool)
    requires
        0 <= lo,
        hi <= usize::MAX as int + 1,
    ensures
        filter_range(lo, hi, f).len() <= if hi <= lo {
            0
        } else {
            hi - lo
        },
        forall|k: int|
            0 <= k < filter_range(lo, hi, f).len() ==> lo <= #[trigger] filter_range(lo, hi, f)[k]
                < hi && f(filter_range(lo, hi, f)[k] as int),
    decreases hi - lo,
{
    if hi > lo {
        lemma_filter_range_members(lo, hi - 1, f);
    }
}

fn parent_named_exec(d: &Document, i: usize, name: &str) -> (r: Option<usize>)
    requires
        i < d.nodes@.len(),
    ensures
        match r {
            Some(p) => parent_named(d, i as int, name@) == Some(p as int) && p < d.nodes@.len(),
            None => parent_named(d, i as int, name@) is None,
        },
{
    match d.parent(i) {
        Some(p) => if d.is_named(p, name) {
            Some(p)
        } else {
            None
        },
        None => None,
    }
}

/// The 1-based position of `i` among its parent's element children.
fn nth_child_exec(d: &Document, i: usize) -> (r: usize)
    requires
        i < d.nodes@.len(),
    ensures
        r == nth_child(d, i as int),
{
    match d.parent(i) {
        Some(p) => {
            let _len = d.nodes.len();
            let mut n: usize = 0;
            let mut j: usize = p + 1;
            proof {
                lemma_filter_range_members(p + 1, j as int, element_child_pred(d, p as int));
            }
            while j < i
                invariant
                    p < d.nodes@.len(),
                    i < d.nodes@.len(),
                    p + 1 <= j <= i || (j == p + 1 && i < p + 1),
                    n == filter_range(p + 1, j as int, element_child_pred(d, p as int)).len(),
                    n <= j,
                decreases i - j,
            {
                if d.is_child(p, j) && d.is_element(j) {
                    n = n + 1;
                }
                j = j + 1;
                proof {
                    lemma_filter_range_members(p + 1, j as int, element_child_pred(d, p as int));
                }
            }
            if j < i {
                n + 1
            } else {
                proof {
                    if i < p + 1 {
                        assert(filter_range(p + 1, i as int, element_child_pred(d, p as int))
                            =~= Seq::empty());
                    }
                }
                n + 1
            }
        },
        None => 0,
    }
}

/// Whether node `i` satisfies `q`.
pub fn matches_at(d: &Document, i: usize, q: Query) -> (r: bool)
    requires
        i < d.nodes@.len(),
    ensures
        r == matches(d, i as int, q),
{
    match q {
        Query::RoundHeading => {
            if !(d.is_named(i, "h1") && d.has_class(i, "kyoku-heading")) {
                return false;
            }
            match parent_named_exec(d, i, "section") {
                Some(s) => match parent_named_exec(d, s, "body") {
                    Some(b) => parent_named_exec(d, b, "html").is_some(),
                    None => false,
                },
                None => false,
            }
        },
        Query::RoundToTurn => {
            if !(d.is_named(i, "details") && nth_child_exec(d, i) == 2) {
                return false;
            }
            match parent_named_exec(d, i, "div") {
                Some(v) => nth_child_exec(d, v) == 4,
                None => false,
            }
        },
        Query::TurnToRole => d.is_named(i, "span") && d.has_class(i, "role"),
        Query::TurnToActionRow => {
            if !d.is_named(i, "tr") {
                return false;
            }
            match parent_named_exec(d, i, "tbody") {
                Some(b) => match parent_named_exec(d, b, "table") {
                    Some(t) => parent_named_exec(d, t, "details").is_some(),
                    None => false,
                },
                None => false,
            }
        },
    }
}

/// The nodes in `[lo, hi)` that satisfy `q`, in document order.
fn select_range(d: &Document, lo: usize, hi: usize, q: Query) -> (r: Vec<usize>)
    requires
        lo <= hi <= d.nodes@.len(),
    ensures
        r@ == filter_range(lo as int, hi as int, query_pred(d, q)),
{
    let mut out: Vec<usize> = Vec::new();
    let mut j: usize = lo;
    while j < hi
        invariant
            lo <= j <= hi <= d.nodes@.len(),
            out@ == filter_range(lo as int, j as int, query_pred(d, q)),
        decreases hi - j,
    {
        if matches_at(d, j, q) {
            out.push(j);
        }
        j = j + 1;
    }
    out
}

/// The descendants of `scope` that satisfy `q`.
pub fn select_in_exec(d: &Document, scope: usize, q: Query) -> (r: Vec<usize>)
    requires
        scope < d.nodes@.len(),
    ensures
        r@ == select_in(d, scope as int, q),
        forall|k: int| 0 <= k < r@.len() ==> #[trigger] r@[k] < d.nodes@.len(),
{
    proof {
        lemma_filter_range_members(
            scope + 1,
            subtree_end(d, scope as int),
            query_pred(d, q),
        );
    }
    let _len = d.nodes.len();
    let e = d.end_of(scope);
    if e <= scope {
        let r = Vec::new();
        assert(r@ =~= select_in(d, scope as int, q));
        r
    } else {
        select_range(d, scope + 1, e, q)
    }
}

/// The nodes of the whole document that satisfy `q`.
pub fn select_all_exec(d: &Document, q: Query) -> (r: Vec<usize>)
    ensures
        r@ == select_all(d, q),
        forall|k: int| 0 <= k < r@.len() ==> #[trigger] r@[k] < d.nodes@.len(),
{
    let _len = d.nodes.len();
    proof {
        lemma_filter_range_members(0, node_count(d), query_pred(d, q));
    }
    select_range(d, 0, d.nodes.len(), q)
}

/// The children of `p`, in document order.
pub fn children_exec(d: &Document, p: usize, elements_only: bool) -> (r: Vec<usize>)
    requires
        p < d.nodes@.len(),
    ensures
        elements_only ==> r@ == element_children_of(d, p as int),
        !elements_only ==> r@ == children_of(d, p as int),
        forall|k: int| 0 <= k < r@.len() ==> #[trigger] r@[k] < d.nodes@.len(),
{
    proof {
        lemma_filter_range_members(p + 1, subtree_end(d, p as int), child_pred(d, p as int));
        lemma_filter_range_members(
            p + 1,
            subtree_end(d, p as int),
            element_child_pred(d, p as int),
        );
    }
    let e = d.end_of(p);
    let _len = d.nodes.len();
    let mut out: Vec<usize> = Vec::new();
    let mut j: usize = p + 1;
    if e <= p + 1 {
        proof {
            assert(out@ =~= element_children_of(d, p as int));
            assert(out@ =~= children_of(d, p as int));
        }
        return out;
    }
    while j < e
        invariant
            p + 1 <= j <= e <= d.nodes@.len(),
            e == subtree_end(d, p as int),
            elements_only ==> out@ == filter_range(
                p + 1,
                j as int,
                element_child_pred(d, p as int),
            ),
            !elements_only ==> out@ == filter_range(p + 1, j as int, child_pred(d, p as int)),
        decreases e - j,
    {
        if d.is_child(p, j) && (!elements_only || d.is_element(j)) {
            out.push(j);
        }
        j = j + 1;
    }
    out
}

/// The children of `p` from index `lo` on, in document order.
pub fn child_range_exec(d: &Document, p: usize, lo: usize) -> (r: Vec<usize>)
    requires
        p < d.nodes@.len(),
        lo <= d.nodes@.len(),
    ensures
        r@ == filter_range(lo as int, subtree_end(d, p as int), child_pred(d, p as int)),
        forall|k: int| 0 <= k < r@.len() ==> #[trigger] r@[k] < d.nodes@.len(),
{
    proof {
        lemma_filter_range_members(lo as int, subtree_end(d, p as int), child_pred(d, p as int));
    }
    let e = d.end_of(p);
    let mut out: Vec<usize> = Vec::new();
    if e <= lo {
        assert(out@ =~= filter_range(lo as int, e as int, child_pred(d, p as int)));
        return out;
    }
    let mut j: usize = lo;
    while j < e
        invariant
            p < d.nodes@.len(),
            lo <= j <= e <= d.nodes@.len(),
            e == subtree_end(d, p as int),
            out@ == filter_range(lo as int, j as int, child_pred(d, p as int)),
        decreases e - j,
    {
        if d.is_child(p, j) {
            out.push(j);
        }
        j = j + 1;
    }
    out
}

} // verus!
