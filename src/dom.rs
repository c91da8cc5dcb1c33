use vstd::prelude::*;

verus! {

/// One attribute of an element, by its local name.
pub struct Attribute {
    pub name: String,
    pub value: String,
}

/// What the extraction reads of an element: its tag name, its classes
/// (the `class` attribute split at whitespace) and its attributes.
pub struct ElementData {
    pub name: String,
    pub classes: Vec<String>,
    pub attrs: Vec<Attribute>,
}

pub enum NodeKind {
    Text(String),
    Element(ElementData),
    /// The document itself, comments, doctypes and the like.
    Other,
}

/// A node of the arena. Nodes are stored in document order (preorder);
/// `end` is one past the last node of this node's subtree.
pub struct DomNode {
    pub kind: NodeKind,
    pub parent: Option<usize>,
    pub end: usize,
}

/// A parsed HTML document as an arena of nodes in document order.
/// Node 0 is the document root.
pub struct Document {
    pub nodes: Vec<DomNode>,
}

/// The number of nodes of a document.
pub open spec fn node_count(d: &Document) -> int {
    d.nodes@.len() as int
}

/// One past the last node of the subtree of `i`, clipped to the arena.
pub open spec fn subtree_end(d: &Document, i: int) -> int {
    let e = d.nodes@[i].end as int;
    if e <= node_count(d) {
        e
    } else {
        node_count(d)
    }
}

/// The parent of `i`, where it names a node of the arena.
pub open spec fn parent_of(d: &Document, i: int) -> Option<int> {
    match d.nodes@[i].parent {
        Some(p) => if (p as int) < node_count(d) {
            Some(p as int)
        } else {
            None
        },
        None => None,
    }
}

/// `j` is a child of `p`: it lies in `p`'s subtree and names `p` as parent.
pub open spec fn is_child(d: &Document, p: int, j: int) -> bool {
    0 <= p < j < subtree_end(d, p) && parent_of(d, j) == Some(p)
}

pub open spec fn is_element(d: &Document, i: int) -> bool {
    d.nodes@[i].kind is Element
}

pub open spec fn element_of(d: &Document, i: int) -> ElementData
    recommends
        is_element(d, i),
{
    d.nodes@[i].kind->Element_0
}

/// `i` is an element with the given tag name.
pub open spec fn is_named(d: &Document, i: int, name: Seq<char>) -> bool {
    is_element(d, i) && element_of(d, i).name@ == name
}

/// `i` is an element whose class list holds `class`.
pub open spec fn has_class(d: &Document, i: int, class: Seq<char>) -> bool {
    is_element(d, i) && exists|k: int|
        0 <= k < element_of(d, i).classes@.len() && #[trigger] element_of(d, i).classes@[k]@
            == class
}

/// The value of the first attribute of `i` with the given name.
pub open spec fn attr_of(d: &Document, i: int, name: Seq<char>) -> Option<Seq<char>> {
    first_attr(element_of(d, i).attrs@, name, 0)
}

pub open spec fn first_attr(attrs: Seq<Attribute>, name: Seq<char>, from: int) -> Option<
    Seq<char>,
>
    decreases attrs.len() - from,
{
    if from < 0 || from >= attrs.len() {
        None
    } else if attrs[from].name@ == name {
        Some(attrs[from].value@)
    } else {
        first_attr(attrs, name, from + 1)
    }
}

/// Whether `s` equals the string `lit`.
pub fn str_is(s: &String, lit: &str) -> (r: bool)
    ensures
        r == (s@ == lit@),
{
    let l = lit.to_owned();
    *s == l
}

impl Document {
    /// The clipped subtree end of node `i`.
    pub fn end_of(&self, i: usize) -> (r: usize)
        requires
            i < self.nodes@.len(),
        ensures
            r == subtree_end(self, i as int),
    {
        let e = self.nodes[i].end;
        if e <= self.nodes.len() {
            e
        } else {
            self.nodes.len()
        }
    }

    pub fn parent(&self, i: usize) -> (r: Option<usize>)
        requires
            i < self.nodes@.len(),
        ensures
            match r {
                Some(p) => parent_of(self, i as int) == Some(p as int),
                None => parent_of(self, i as int) is None,
            },
    {
        match self.nodes[i].parent {
            Some(p) => if p < self.nodes.len() {
                Some(p)
            } else {
                None
            },
            None => None,
        }
    }

    pub fn is_child(&self, p: usize, j: usize) -> (r: bool)
        requires
            p < self.nodes@.len(),
            j < self.nodes@.len(),
        ensures
            r == is_child(self, p as int, j as int),
    {
        p < j && j < self.end_of(p) && match self.parent(j) {
            Some(q) => q == p,
            None => false,
        }
    }

    pub fn is_element(&self, i: usize) -> (r: bool)
        requires
            i < self.nodes@.len(),
        ensures
            r == is_element(self, i as int),
    {
        match &self.nodes[i].kind {
            NodeKind::Element(_) => true,
            _ => false,
        }
    }

    pub fn is_named(&self, i: usize, name: &str) -> (r: bool)
        requires
            i < self.nodes@.len(),
        ensures
            r == is_named(self, i as int, name@),
    {
        match &self.nodes[i].kind {
            NodeKind::Element(e) => str_is(&e.name, name),
            _ => false,
        }
    }

    pub fn has_class(&self, i: usize, class: &str) -> (r: bool)
        requires
            i < self.nodes@.len(),
        ensures
            r == has_class(self, i as int, class@),
    {
        match &self.nodes[i].kind {
            NodeKind::Element(e) => {
                let mut k: usize = 0;
                while k < e.classes.len()
                    invariant
                        k <= e.classes@.len(),
                        e == element_of(self, i as int),
                        is_element(self, i as int),
                        forall|m: int| 0 <= m < k ==> e.classes@[m]@ != class@,
                    decreases e.classes@.len() - k,
                {
                    if str_is(&e.classes[k], class) {
                        return true;
                    }
                    k = k + 1;
                }
                false
            },
            _ => false,
        }
    }

    pub fn attr(&self, i: usize, name: &str) -> (r: Option<&String>)
        requires
            i < self.nodes@.len(),
            is_element(self, i as int),
        ensures
            match r {
                Some(v) => attr_of(self, i as int, name@) == Some(v@),
                None => attr_of(self, i as int, name@) is None,
            },
    {
        let e = match &self.nodes[i].kind {
            NodeKind::Element(e) => e,
            _ => {
                return None;
            },
        };
        let mut k: usize = 0;
        while k < e.attrs.len()
            invariant
                k <= e.attrs@.len(),
                e == element_of(self, i as int),
                first_attr(e.attrs@, name@, 0) == first_attr(e.attrs@, name@, k as int),
            decreases e.attrs@.len() - k,
        {
            if str_is(&e.attrs[k].name, name) {
                return Some(&e.attrs[k].value);
            }
            k = k + 1;
        }
        None
    }
}

/// Builds a `Document` in document order: elements are opened and closed,
/// text nodes are added under the element that is open.
pub struct DocumentBuilder {
    doc: Document,
    open: Vec<usize>,
}

/// The parent that a node added under the open elements `open` gets.
pub open spec fn top_of(open: Seq<usize>) -> Option<usize> {
    if open.len() > 0 {
        Some(open.last())
    } else {
        None
    }
}

/// `m` was opened at or after position `c` of the stack `open`.
pub open spec fn open_from(open: Seq<usize>, c: int, m: int) -> bool {
    exists|idx: int| c <= idx < open.len() && open[idx] as int == m
}

impl DocumentBuilder {
    /// The nodes added so far.
    pub closed spec fn nodes(&self) -> Seq<DomNode> {
        self.doc.nodes@
    }

    /// The elements that are open, innermost last.
    pub closed spec fn open_stack(&self) -> Seq<usize> {
        self.open@
    }

    /// A builder holding the document root, which is open.
    pub fn new() -> (r: Self)
        ensures
            r.nodes().len() == 1,
            r.nodes()[0].kind is Other,
            r.nodes()[0].parent is None,
            r.nodes()[0].end == 1,
            r.open_stack() == seq![0usize],
    {
        let mut nodes: Vec<DomNode> = Vec::new();
        nodes.push(DomNode { kind: NodeKind::Other, parent: None, end: 1 });
        let mut open: Vec<usize> = Vec::new();
        open.push(0);
        let r = DocumentBuilder { doc: Document { nodes }, open };
        assert(r.open_stack() =~= seq![0usize]);
        r
    }

    /// Adds a node under the innermost open element.
    fn add(&mut self, kind: NodeKind) -> (r: usize)
        requires
            old(self).nodes().len() < usize::MAX,
        ensures
            r == old(self).nodes().len(),
            final(self).nodes() == old(self).nodes().push(
                DomNode { kind, parent: top_of(old(self).open_stack()), end: (r + 1) as usize },
            ),
            final(self).open_stack() == old(self).open_stack(),
    {
        let i = self.doc.nodes.len();
        let parent = if self.open.len() > 0 {
            Some(self.open[self.open.len() - 1])
        } else {
            None
        };
        self.doc.nodes.push(DomNode { kind, parent, end: i + 1 });
        i
    }

    /// Adds an element under the innermost open one and opens it.
    pub fn open_element(&mut self, name: &str, classes: Vec<String>, attrs: Vec<Attribute>) -> (r:
        usize)
        requires
            old(self).nodes().len() < usize::MAX,
        ensures
            r == old(self).nodes().len(),
            final(self).nodes().len() == r + 1,
            final(self).nodes().subrange(0, r as int) == old(self).nodes(),
            final(self).nodes()[r as int].kind == NodeKind::Element(
                ElementData { name: final(self).nodes()[r as int].kind->Element_0.name, classes, attrs },
            ),
            final(self).nodes()[r as int].kind->Element_0.name@ == name@,
            final(self).nodes()[r as int].parent == top_of(old(self).open_stack()),
            final(self).nodes()[r as int].end == r + 1,
            final(self).open_stack() == old(self).open_stack().push(r),
    {
        let i = self.add(NodeKind::Element(ElementData { name: name.to_owned(), classes, attrs }));
        self.open.push(i);
        assert(self.nodes().subrange(0, i as int) =~= old(self).nodes());
        i
    }

    /// Adds a text node under the innermost open element.
    pub fn text(&mut self, t: &str) -> (r: usize)
        requires
            old(self).nodes().len() < usize::MAX,
        ensures
            r == old(self).nodes().len(),
            final(self).nodes().len() == r + 1,
            final(self).nodes().subrange(0, r as int) == old(self).nodes(),
            final(self).nodes()[r as int].kind is Text,
            final(self).nodes()[r as int].kind->Text_0@ == t@,
            final(self).nodes()[r as int].parent == top_of(old(self).open_stack()),
            final(self).nodes()[r as int].end == r + 1,
            final(self).open_stack() == old(self).open_stack(),
    {
        let r = self.add(NodeKind::Text(t.to_owned()));
        assert(self.nodes().subrange(0, r as int) =~= old(self).nodes());
        r
    }

    /// Adds a node that is neither text nor an element (a comment, say).
    pub fn other(&mut self) -> (r: usize)
        requires
            old(self).nodes().len() < usize::MAX,
        ensures
            r == old(self).nodes().len(),
            final(self).nodes() == old(self).nodes().push(
                DomNode {
                    kind: NodeKind::Other,
                    parent: top_of(old(self).open_stack()),
                    end: (r + 1) as usize,
                },
            ),
            final(self).open_stack() == old(self).open_stack(),
    {
        self.add(NodeKind::Other)
    }

    /// The number of nodes added so far.
    pub fn len(&self) -> (r: usize)
        ensures
            r == self.nodes().len(),
    {
        self.doc.nodes.len()
    }

    /// Closes the innermost open element: its subtree ends here.
    pub fn close(&mut self)
        ensures
            old(self).open_stack().len() == 0 ==> final(self).nodes() == old(self).nodes()
                && final(self).open_stack() == old(self).open_stack(),
            old(self).open_stack().len() > 0 ==> final(self).open_stack() == old(
                self,
            ).open_stack().drop_last(),
            old(self).open_stack().len() > 0 ==> ({
                let i = old(self).open_stack().last() as int;
                let n = old(self).nodes();
                final(self).nodes() == if i < n.len() {
                    n.update(i, DomNode { end: n.len() as usize, ..n[i] })
                } else {
                    n
                }
            }),
    {
        match self.open.pop() {
            Some(i) => {
                if i < self.doc.nodes.len() {
                    let end = self.doc.nodes.len();
                    self.doc.nodes[i].end = end;
                    assert(self.nodes() =~= old(self).nodes().update(
                        i as int,
                        DomNode { end: end, ..old(self).nodes()[i as int] },
                    ));
                }
            },
            None => {},
        }
    }

    /// Closes what is open and hands out the document: every node that was
    /// open ends with the document, and nothing else changes.
    pub fn finish(self) -> (r: Document)
        ensures
            r.nodes@.len() == self.nodes().len(),
            forall|m: int|
                0 <= m < r.nodes@.len() ==> (#[trigger] r.nodes@[m]).kind == self.nodes()[m].kind
                    && r.nodes@[m].parent == self.nodes()[m].parent && r.nodes@[m].end == if open_from(
                    self.open_stack(),
                    0,
                    m,
                ) {
                    r.nodes@.len() as usize
                } else {
                    self.nodes()[m].end
                },
    {
        let ghost st = self.open_stack();
        let ghost n0 = self.nodes();
        let mut b = self;
        while b.open.len() > 0
            invariant
                b.nodes().len() == n0.len(),
                b.open_stack().len() <= st.len(),
                b.open_stack() == st.subrange(0, b.open_stack().len() as int),
                forall|m: int|
                    0 <= m < n0.len() ==> (#[trigger] b.nodes()[m]).kind == n0[m].kind
                        && b.nodes()[m].parent == n0[m].parent && b.nodes()[m].end == if open_from(
                        st,
                        b.open_stack().len() as int,
                        m,
                    ) {
                        n0.len() as usize
                    } else {
                        n0[m].end
                    },
            decreases b.open_stack().len(),
        {
            let ghost c = b.open_stack().len() as int;
            let ghost before = b.nodes();
            b.close();
            assert(b.open_stack() =~= st.subrange(0, c - 1));
            assert forall|m: int| 0 <= m < n0.len() implies (#[trigger] b.nodes()[m]).kind
                == n0[m].kind && b.nodes()[m].parent == n0[m].parent && b.nodes()[m].end == if open_from(
                st,
                c - 1,
                m,
            ) {
                n0.len() as usize
            } else {
                n0[m].end
            } by {
                assert(before[m] == b.nodes()[m] || m == st[c - 1] as int);
                if m == st[c - 1] as int {
                    assert(open_from(st, c - 1, m));
                } else if open_from(st, c - 1, m) {
                    let idx = choose|idx: int| c - 1 <= idx < st.len() && st[idx] as int == m;
                    assert(open_from(st, c, m));
                } else {
                    assert(!open_from(st, c, m));
                }
            }
        }
        assert(st.subrange(0, 0) =~= b.open_stack());
        b.doc
    }
}

} // verus!
