//! The spatial index: an immutable forest built over a parsed page, for
//! parent/child/sibling/position queries.
//!
//! Nodes live in an arena and carry synthetic integer ids, assigned in a
//! single depth-first pass from a counter that starts past the reserved
//! "no node" value 0. A node's children therefore always carry larger
//! ids than the node itself, which bounds every descent.

use vstd::prelude::*;
use crate::elements::{
    BlockElement, Cell, DecoratedTextContent, Definition, EnhancedListItem, InlineElement,
    InlineElementContainer, List, ListItemContent, Page, Row, TermAndDefinitions,
};
use crate::eqv::{block_eqv, dup_block, dup_decorated_contents, dup_inline, dup_link, dup_list,
    inline_eqv};
use crate::location::{Located, Position, Region};

verus! {

/// What a node points at: a block-level or an inline-level element.
#[derive(Clone, Debug, PartialEq, Eq)]
pub enum ElementRef {
    Block(BlockElement),
    Inline(InlineElement),
}

/// A node of an `ElementTree`.
#[derive(Debug, PartialEq, Eq)]
pub struct ElementNode {
    pub root_id: usize,
    pub parent_id: Option<usize>,
    pub element_id: usize,
    pub element: ElementRef,
    pub region: Region,
    pub children_ids: Vec<usize>,
}

impl ElementNode {
    /// Id of the node, which maps to the element it references.
    pub fn id(&self) -> (r: usize)
        ensures
            r == self.element_id,
    {
        self.element_id
    }

    /// Whether the node represents a root-level element.
    pub fn is_root(&self) -> (r: bool)
        ensures
            r == (self.root_id == self.element_id),
    {
        self.root_id == self.element_id
    }

    /// The region of the element referenced by the node.
    pub fn region(&self) -> (r: &Region)
        ensures
            r == &self.region,
    {
        &self.region
    }

    /// The referenced element.
    pub fn as_inner(&self) -> (r: &ElementRef)
        ensures
            r == &self.element,
    {
        &self.element
    }

    /// Takes the referenced element out of the node.
    pub fn into_inner(self) -> (r: ElementRef)
        ensures
            r == self.element,
    {
        self.element
    }
}

/// An immutable tree of nodes over the elements of a page.
#[derive(Debug)]
pub struct ElementTree {
    pub page: Page,
    pub root_nodes: Vec<usize>,
    pub nodes: Vec<ElementNode>,
}

impl ElementTree {
    /// Well-formedness of the arena: ids are the positions shifted by
    /// one past the reserved empty id, children point strictly forward,
    /// child nodes point back at their parent and appear among their
    /// parent's children, a node is parentless exactly when it is its
    /// own root, every node's root is a parentless self-rooted node,
    /// and every root and parent id is in range.
    pub open spec fn wf(self) -> bool {
        let ns = self.nodes@;
        &&& forall|i: int| 0 <= i < ns.len() ==> (#[trigger] ns[i]).element_id == i + 1
        &&& forall|i: int| 0 <= i < ns.len() ==> 1 <= (#[trigger] ns[i]).root_id <= ns.len()
        &&& forall|i: int, k: int|
            0 <= i < ns.len() && 0 <= k < ns[i].children_ids@.len() ==> i + 1 < (
            #[trigger] ns[i].children_ids@[k]) <= ns.len()
        &&& forall|i: int, k: int|
            0 <= i < ns.len() && 0 <= k < ns[i].children_ids@.len() ==> ns[(
            #[trigger] ns[i].children_ids@[k]) - 1].parent_id == Some((i + 1) as usize)
        &&& forall|i: int, k: int|
            0 <= i < ns.len() && 0 <= k < ns[i].children_ids@.len() ==> ns[(
            #[trigger] ns[i].children_ids@[k]) - 1].root_id == ns[i].root_id
        &&& forall|i: int|
            0 <= i < ns.len() && (#[trigger] ns[i]).parent_id is Some ==> 1
                <= ns[i].parent_id->Some_0 < i + 1
        &&& forall|i: int|
            0 <= i < ns.len() ==> (((#[trigger] ns[i]).parent_id is None) <==> (ns[i].root_id
                == i + 1))
        &&& forall|i: int|
            0 <= i < ns.len() ==> ns[(#[trigger] ns[i]).root_id - 1].parent_id is None && ns[
                ns[i].root_id - 1
            ].root_id == ns[i].root_id
        &&& forall|i: int|
            0 <= i < ns.len() && (#[trigger] ns[i]).parent_id is Some ==> exists|m: int|
                0 <= m < ns[ns[i].parent_id->Some_0 - 1].children_ids@.len() && (
                #[trigger] ns[ns[i].parent_id->Some_0 - 1].children_ids@[m]) == i + 1
        &&& forall|k: int|
            0 <= k < self.root_nodes@.len() ==> 1 <= (#[trigger] self.root_nodes@[k])
                <= ns.len()
    }

    /// A node value belongs to this tree.
    pub open spec fn has_node(self, n: ElementNode) -> bool {
        1 <= n.element_id <= self.nodes@.len() && self.nodes@[n.element_id - 1] == n
    }

    /// Reference to the page whose elements this tree indexes.
    pub fn page(&self) -> (r: &Page)
        ensures
            r == &self.page,
    {
        &self.page
    }

    /// The first root in document order whose region contains `p`, as
    /// an index into the root list.
    pub open spec fn first_root_at(self, k: int, p: Position) -> Option<int>
        decreases self.root_nodes@.len() - k,
    {
        if k < 0 || k >= self.root_nodes@.len() {
            None
        } else if self.nodes@[self.root_nodes@[k] - 1].region.spec_contains(p) {
            Some(k)
        } else {
            self.first_root_at(k + 1, p)
        }
    }

    /// A found first root index is in range and its region contains the
    /// position.
    pub proof fn lemma_first_root_at(self, k: int, p: Position)
        requires
            0 <= k,
        ensures
            self.first_root_at(k, p) is Some ==> k <= self.first_root_at(k, p)->Some_0
                < self.root_nodes@.len(),
        decreases self.root_nodes@.len() - k,
    {
        if k < self.root_nodes@.len() {
            if !self.nodes@[self.root_nodes@[k] - 1].region.spec_contains(p) {
                self.lemma_first_root_at(k + 1, p);
            }
        }
    }

    /// The id reached from `id` by repeatedly descending into the first
    /// child whose region contains `p`.
    pub open spec fn descend_at(self, id: int, p: Position) -> int
        decreases self.nodes@.len() - id,
        when self.wf() && 1 <= id <= self.nodes@.len()
        via Self::descend_at_decreases
    {
        match self.first_child_at(self.nodes@[id - 1].children_ids@, 0, p) {
            Some(c) => self.descend_at(c, p),
            None => id,
        }
    }

    #[via_fn]
    proof fn descend_at_decreases(self, id: int, p: Position) {
        self.lemma_first_child_at(self.nodes@[id - 1].children_ids@, 0, p);
        if self.first_child_at(self.nodes@[id - 1].children_ids@, 0, p) is Some {
            let c = self.first_child_at(self.nodes@[id - 1].children_ids@, 0, p)->Some_0;
            let m = choose|m: int|
                0 <= m < self.nodes@[id - 1].children_ids@.len() && (#[trigger] self.nodes@[id
                    - 1].children_ids@[m]) == c;
            assert(id < self.nodes@[id - 1].children_ids@[m] <= self.nodes@.len());
        }
    }

    /// A found first child is one of the given ids.
    pub proof fn lemma_first_child_at(self, cids: Seq<usize>, k: int, p: Position)
        ensures
            self.first_child_at(cids, k, p) is Some ==> exists|m: int|
                0 <= m < cids.len() && cids[m] == self.first_child_at(cids, k, p)->Some_0
                    && 1 <= cids[m] <= self.nodes@.len(),
        decreases cids.len() - k,
    {
        if 0 <= k < cids.len() {
            if !(1 <= cids[k] <= self.nodes@.len() && self.nodes@[cids[k]
                - 1].region.spec_contains(p)) {
                self.lemma_first_child_at(cids, k + 1, p);
            }
        }
    }

    /// The first child in `cids[k..]` whose region contains `p`.
    pub open spec fn first_child_at(self, cids: Seq<usize>, k: int, p: Position) -> Option<int>
        decreases cids.len() - k,
    {
        if k < 0 || k >= cids.len() {
            None
        } else if 1 <= cids[k] <= self.nodes@.len() && self.nodes@[cids[k] - 1
        ].region.spec_contains(p) {
            Some(cids[k] as int)
        } else {
            self.first_child_at(cids, k + 1, p)
        }
    }

    /// Retrieves all root-level nodes, in document order.
    pub fn root_nodes(&self) -> (r: Vec<&ElementNode>)
        requires
            self.wf(),
        ensures
            r@.len() == self.root_nodes@.len(),
            forall|k: int| 0 <= k < r@.len() ==> *(#[trigger] r@[k]) == self.nodes@[
                self.root_nodes@[k] - 1
            ],
    {
        let mut out: Vec<&ElementNode> = Vec::new();
        let mut k: usize = 0;
        while k < self.root_nodes.len()
            invariant
                self.wf(),
                0 <= k <= self.root_nodes@.len(),
                out@.len() == k,
                forall|m: int| 0 <= m < k ==> *(#[trigger] out@[m]) == self.nodes@[
                    self.root_nodes@[m] - 1
                ],
            decreases self.root_nodes@.len() - k,
        {
            let id = self.root_nodes[k];
            out.push(&self.nodes[id - 1]);
            k += 1;
        }
        out
    }

    /// Finds the first root node whose region contains the position.
    pub fn find_root_at(&self, position: Position) -> (r: Option<&ElementNode>)
        requires
            self.wf(),
        ensures
            match r {
                Some(n) => {
                    &&& self.first_root_at(0, position) is Some
                    &&& *n == self.nodes@[self.root_nodes@[self.first_root_at(0, position)
                        ->Some_0] - 1]
                    &&& n.region.spec_contains(position)
                },
                None => self.first_root_at(0, position) is None,
            },
    {
        let mut k: usize = 0;
        while k < self.root_nodes.len()
            invariant
                self.wf(),
                0 <= k <= self.root_nodes@.len(),
                self.first_root_at(0, position) == self.first_root_at(k as int, position),
            decreases self.root_nodes@.len() - k,
        {
            let id = self.root_nodes[k];
            let node = &self.nodes[id - 1];
            if node.region.contains(position) {
                return Some(node);
            }
            k += 1;
        }
        None
    }

    /// Finds the node deepest in the tree whose region contains the
    /// position: from the containing root, it repeatedly descends into
    /// the first child containing the position.
    pub fn find_deepest_at(&self, position: Position) -> (r: Option<&ElementNode>)
        requires
            self.wf(),
        ensures
            match r {
                Some(n) => {
                    &&& self.first_root_at(0, position) is Some
                    &&& n.element_id == self.descend_at(
                        self.root_nodes@[self.first_root_at(0, position)->Some_0] as int,
                        position,
                    )
                    &&& self.has_node(*n)
                    &&& n.region.spec_contains(position)
                },
                None => self.first_root_at(0, position) is None,
            },
    {
        let root = match self.find_root_at(position) {
            Some(n) => n,
            None => {
                return None;
            },
        };
        let ghost ridx = self.first_root_at(0, position)->Some_0;
        let ghost rid = self.root_nodes@[ridx] as int;
        proof {
            self.lemma_first_root_at(0, position);
            assert(1 <= self.root_nodes@[ridx] <= self.nodes@.len());
            assert(self.nodes@[rid - 1].element_id == rid);
        }
        let mut cur: &ElementNode = root;
        loop
            invariant
                self.wf(),
                self.has_node(*cur),
                cur.region.spec_contains(position),
                self.first_root_at(0, position) is Some,
                ridx == self.first_root_at(0, position)->Some_0,
                rid == self.root_nodes@[ridx] as int,
                self.descend_at(rid, position) == self.descend_at(
                    cur.element_id as int,
                    position,
                ),
            decreases self.nodes@.len() - cur.element_id,
        {
            match self.first_child_containing(cur, position) {
                Some(n) => {
                    cur = n;
                },
                None => {
                    return Some(cur);
                },
            }
        }
    }

    /// The first child of `node` whose region contains the position.
    fn first_child_containing(&self, node: &ElementNode, p: Position) -> (r: Option<
        &ElementNode,
    >)
        requires
            self.wf(),
            self.has_node(*node),
        ensures
            match r {
                Some(n) => {
                    &&& self.first_child_at(node.children_ids@, 0, p) == Some(
                        n.element_id as int,
                    )
                    &&& self.has_node(*n)
                    &&& n.region.spec_contains(p)
                    &&& n.element_id > node.element_id
                },
                None => self.first_child_at(node.children_ids@, 0, p) is None,
            },
    {
        let mut k: usize = 0;
        while k < node.children_ids.len()
            invariant
                self.wf(),
                self.has_node(*node),
                0 <= k <= node.children_ids@.len(),
                self.first_child_at(node.children_ids@, 0, p) == self.first_child_at(
                    node.children_ids@,
                    k as int,
                    p,
                ),
            decreases node.children_ids@.len() - k,
        {
            let cid = node.children_ids[k];
            let cand = &self.nodes[cid - 1];
            if cand.region.contains(p) {
                return Some(cand);
            }
            k += 1;
        }
        None
    }

    /// Retrieves the root node for the given node.
    pub fn root_for(&self, node: &ElementNode) -> (r: &ElementNode)
        requires
            self.wf(),
            self.has_node(*node),
        ensures
            *r == self.nodes@[node.root_id - 1],
    {
        &self.nodes[node.root_id - 1]
    }

    /// Retrieves the parent node for the given node, if it has one.
    pub fn parent_for(&self, node: &ElementNode) -> (r: Option<&ElementNode>)
        requires
            self.wf(),
            self.has_node(*node),
        ensures
            match r {
                Some(n) => node.parent_id is Some && *n == self.nodes@[node.parent_id->Some_0
                    - 1],
                None => node.parent_id is None,
            },
    {
        match node.parent_id {
            Some(id) => Some(&self.nodes[id - 1]),
            None => None,
        }
    }

    /// Retrieves the children nodes for the given node, in order.
    pub fn children_for(&self, node: &ElementNode) -> (r: Vec<&ElementNode>)
        requires
            self.wf(),
            self.has_node(*node),
        ensures
            r@.len() == node.children_ids@.len(),
            forall|k: int| 0 <= k < r@.len() ==> *(#[trigger] r@[k]) == self.nodes@[
                node.children_ids@[k] - 1
            ],
    {
        let mut out: Vec<&ElementNode> = Vec::new();
        let mut k: usize = 0;
        while k < node.children_ids.len()
            invariant
                self.wf(),
                self.has_node(*node),
                0 <= k <= node.children_ids@.len(),
                out@.len() == k,
                forall|m: int| 0 <= m < k ==> *(#[trigger] out@[m]) == self.nodes@[
                    node.children_ids@[m] - 1
                ],
            decreases node.children_ids@.len() - k,
        {
            let cid = node.children_ids[k];
            out.push(&self.nodes[cid - 1]);
            k += 1;
        }
        out
    }

    /// The ids of `ids` with `me` left out.
    pub open spec fn sibling_ids(self, ids: Seq<usize>, me: usize) -> Seq<usize>
        decreases ids.len(),
    {
        if ids.len() == 0 {
            Seq::empty()
        } else if ids[0] == me {
            self.sibling_ids(ids.drop_first(), me)
        } else {
            seq![ids[0]] + self.sibling_ids(ids.drop_first(), me)
        }
    }

    /// Retrieves the sibling nodes for the given node, excluding the
    /// node itself; a root's siblings are the other roots.
    pub fn siblings_for(&self, node: &ElementNode) -> (r: Vec<&ElementNode>)
        requires
            self.wf(),
            self.has_node(*node),
        ensures
            ({
                let pool = match node.parent_id {
                    Some(q) => self.nodes@[q - 1].children_ids@,
                    None => self.root_nodes@,
                };
                let sibs = self.sibling_ids(pool, node.element_id);
                &&& r@.len() == sibs.len()
                &&& forall|k: int| 0 <= k < r@.len() ==> *(#[trigger] r@[k]) == self.nodes@[
                    sibs[k] - 1
                ]
            }),
    {
        let node_id = node.element_id;
        let pool: &Vec<usize> = match node.parent_id {
            Some(q) => &self.nodes[q - 1].children_ids,
            None => &self.root_nodes,
        };
        proof {
            assert(pool@.skip(0) =~= pool@);
            match node.parent_id {
                Some(q) => {
                    assert(self.nodes@[q - 1].element_id == q);
                    assert forall|m: int| 0 <= m < pool@.len() implies 1 <= (
                    #[trigger] pool@[m]) <= self.nodes@.len() by {
                        assert(self.nodes@[q - 1].children_ids@[m] == pool@[m]);
                    }
                },
                None => {},
            }
        }
        self.collect_siblings(pool, 0, node_id)
    }

    /// Collects the nodes of `pool[k..]`, leaving out the one with id
    /// `me`.
    fn collect_siblings(&self, pool: &Vec<usize>, k: usize, me: usize) -> (r: Vec<&ElementNode>)
        requires
            self.wf(),
            k <= pool@.len(),
            forall|m: int| 0 <= m < pool@.len() ==> 1 <= (#[trigger] pool@[m])
                <= self.nodes@.len(),
        ensures
            ({
                let sibs = self.sibling_ids(pool@.skip(k as int), me);
                &&& r@.len() == sibs.len()
                &&& forall|m: int| 0 <= m < r@.len() ==> *(#[trigger] r@[m]) == self.nodes@[
                    sibs[m] - 1
                ]
            }),
        decreases pool@.len() - k,
    {
        if k == pool.len() {
            proof {
                assert(pool@.skip(k as int) =~= Seq::<usize>::empty());
            }
            return Vec::new();
        }
        let cid = pool[k];
        let rest = self.collect_siblings(pool, k + 1, me);
        proof {
            assert(pool@.skip(k as int).drop_first() =~= pool@.skip(k + 1));
            assert(pool@.skip(k as int)[0] == pool@[k as int]);
        }
        if cid == me {
            proof {
                assert(self.sibling_ids(pool@.skip(k as int), me) == self.sibling_ids(
                    pool@.skip(k + 1),
                    me,
                ));
            }
            rest
        } else {
            let mut out = rest;
            let ghost restg = out@;
            out.insert(0, &self.nodes[cid - 1]);
            proof {
                let sibs = self.sibling_ids(pool@.skip(k as int), me);
                assert(sibs =~= seq![cid] + self.sibling_ids(pool@.skip(k + 1), me));
                assert forall|m: int| 0 <= m < out@.len() implies *(#[trigger] out@[m])
                    == self.nodes@[sibs[m] - 1] by {
                    if m > 0 {
                        assert(out@[m] == restg[m - 1]);
                        assert(sibs[m] == self.sibling_ids(pool@.skip(k + 1), me)[m - 1]);
                    }
                }
            }
            out
        }
    }
}

// ---------------------------------------------------------------------------
// Construction
// ---------------------------------------------------------------------------

// ---------------------------------------------------------------------------
// What a node stands for
// ---------------------------------------------------------------------------

/// The source of one node: the element of the page it indexes, together
/// with the region its node carries.
pub enum NodeSrc {
    B(BlockElement, Region),
    I(InlineElement, Region),
}

pub open spec fn src_region(s: NodeSrc) -> Region {
    match s {
        NodeSrc::B(_, r) => r,
        NodeSrc::I(_, r) => r,
    }
}

/// A node's payload stands for its source element: same level, deep-equal
/// value.
pub open spec fn payload_matches(e: ElementRef, s: NodeSrc) -> bool {
    match (e, s) {
        (ElementRef::Block(b1), NodeSrc::B(b2, _)) => block_eqv(b1, b2),
        (ElementRef::Inline(e1), NodeSrc::I(e2, _)) => inline_eqv(e1, e2),
        _ => false,
    }
}

/// A decorated run's content, seen as a standalone inline element.
pub open spec fn dtc_as_inline(c: DecoratedTextContent) -> InlineElement {
    match c {
        DecoratedTextContent::Text(s) => InlineElement::Text(s),
        DecoratedTextContent::DecoratedText(d) => InlineElement::DecoratedText(d),
        DecoratedTextContent::Keyword(k) => InlineElement::Keyword(k),
        DecoratedTextContent::Link(l) => InlineElement::Link(l),
    }
}

/// The node sources an inline container contributes, in order.
pub open spec fn container_children(c: InlineElementContainer) -> Seq<NodeSrc> {
    Seq::new(
        c.elements@.len(),
        |k: int| NodeSrc::I(c.elements@[k].element, c.elements@[k].region),
    )
}

/// The child sources of an inline element: a decorated run contributes
/// its nested content; every other inline element is a leaf.
pub open spec fn inline_children(e: InlineElement) -> Seq<NodeSrc> {
    match e {
        InlineElement::DecoratedText(d) => Seq::new(
            d.contents@.len(),
            |k: int| NodeSrc::I(dtc_as_inline(d.contents@[k].element), d.contents@[k].region),
        ),
        _ => Seq::empty(),
    }
}

/// The sources contributed by the content cells of a row's cell list
/// from `k` on.
pub open spec fn cells_children(cells: Seq<Located<Cell>>, k: int) -> Seq<NodeSrc>
    decreases cells.len() - k,
{
    if k < 0 || k >= cells.len() {
        Seq::empty()
    } else {
        (match cells[k].element {
            Cell::Content(c) => container_children(c),
            _ => Seq::empty(),
        }) + cells_children(cells, k + 1)
    }
}

/// The sources contributed by a table's rows from `k` on.
pub open spec fn rows_children(rows: Seq<Located<Row>>, k: int) -> Seq<NodeSrc>
    decreases rows.len() - k,
{
    if k < 0 || k >= rows.len() {
        Seq::empty()
    } else {
        (match rows[k].element {
            Row::Content { cells } => cells_children(cells@, 0),
            Row::Divider => Seq::empty(),
        }) + rows_children(rows, k + 1)
    }
}

/// The sources contributed by definitions from `k` on.
pub open spec fn defs_children(defs: Seq<Located<Definition>>, k: int) -> Seq<NodeSrc>
    decreases defs.len() - k,
{
    if k < 0 || k >= defs.len() {
        Seq::empty()
    } else {
        container_children(defs[k].element.content) + defs_children(defs, k + 1)
    }
}

/// The sources contributed by a definition list's entries from `k` on:
/// each term's content, then its definitions' content.
pub open spec fn entries_children(es: Seq<TermAndDefinitions>, k: int) -> Seq<NodeSrc>
    decreases es.len() - k,
{
    if k < 0 || k >= es.len() {
        Seq::empty()
    } else {
        (container_children(es[k].term.element.content) + defs_children(es[k].definitions@, 0))
            + entries_children(es, k + 1)
    }
}

/// The sources contributed by a list item's content pieces from `k` on:
/// inline content spreads out, a sublist becomes one block child.
pub open spec fn pieces_children(cs: Seq<Located<ListItemContent>>, k: int) -> Seq<NodeSrc>
    decreases cs.len() - k,
{
    if k < 0 || k >= cs.len() {
        Seq::empty()
    } else {
        (match cs[k].element {
            ListItemContent::InlineContent(c) => container_children(c),
            ListItemContent::List(sub) => seq![
                NodeSrc::B(BlockElement::List(sub), cs[k].region)
            ],
        }) + pieces_children(cs, k + 1)
    }
}

/// The sources contributed by a list's items from `k` on.
pub open spec fn items_children(items: Seq<Located<EnhancedListItem>>, k: int) -> Seq<NodeSrc>
    decreases items.len() - k,
{
    if k < 0 || k >= items.len() {
        Seq::empty()
    } else {
        pieces_children(items[k].element.item.contents.contents@, 0) + items_children(
            items,
            k + 1,
        )
    }
}

/// The child sources of a block element: the children recursion of the
/// data model. Headers, paragraphs, content cells, terms and definitions
/// contribute their inline content; list items contribute their content
/// and their sublists; every other block is a leaf.
pub open spec fn block_children(b: BlockElement) -> Seq<NodeSrc> {
    match b {
        BlockElement::Header(h) => container_children(h.content),
        BlockElement::Paragraph(p) => container_children(p.content),
        BlockElement::List(l) => items_children(l.items@, 0),
        BlockElement::Table(t) => rows_children(t.rows@, 0),
        BlockElement::DefinitionList(d) => entries_children(d.entries@, 0),
        _ => Seq::empty(),
    }
}

pub open spec fn src_children(s: NodeSrc) -> Seq<NodeSrc> {
    match s {
        NodeSrc::B(b, _) => block_children(b),
        NodeSrc::I(e, _) => inline_children(e),
    }
}

/// The node with id `id` in the arena slice `ns` (whose first node has
/// id `base`) mirrors the source `src`: deep-equal payload, the source's
/// region, and one child node per child source, in order, recursively.
pub open spec fn mirrors_at(ns: Seq<ElementNode>, base: int, id: int, src: NodeSrc) -> bool
    decreases ns.len() - (id - base), 1int,
{
    &&& base <= id < base + ns.len()
    &&& payload_matches(ns[id - base].element, src)
    &&& ns[id - base].region == src_region(src)
    &&& ns[id - base].children_ids@.len() == src_children(src).len()
    &&& forall|k: int|
        0 <= k < ns[id - base].children_ids@.len() ==> mirrors_link(
            ns,
            base,
            id,
            (#[trigger] ns[id - base].children_ids@[k]) as int,
            src_children(src)[k],
        )
}

pub open spec fn mirrors_link(
    ns: Seq<ElementNode>,
    base: int,
    id: int,
    cid: int,
    s: NodeSrc,
) -> bool
    decreases ns.len() - (id - base), 0int,
{
    id < cid < base + ns.len() && mirrors_at(ns, base, cid, s)
}

/// Embedding a mirrored slice in a larger arena, at the offset that
/// keeps its ids, keeps the mirror.
pub proof fn lemma_mirrors_frame(
    ns: Seq<ElementNode>,
    base: int,
    id: int,
    src: NodeSrc,
    pre: Seq<ElementNode>,
    post: Seq<ElementNode>,
)
    requires
        mirrors_at(ns, base, id, src),
    ensures
        mirrors_at(pre + ns + post, base - pre.len(), id, src),
    decreases ns.len() - (id - base),
{
    let big = pre + ns + post;
    let b2 = base - pre.len();
    assert(big[id - b2] == ns[id - base]);
    let n = ns[id - base];
    assert forall|k: int|
        0 <= k < n.children_ids@.len() implies mirrors_link(
        big,
        b2,
        id,
        (#[trigger] n.children_ids@[k]) as int,
        src_children(src)[k],
    ) by {
        let cid = n.children_ids@[k] as int;
        assert(mirrors_link(ns, base, id, cid, src_children(src)[k]));
        lemma_mirrors_frame(ns, base, cid, src_children(src)[k], pre, post);
    }
}

/// A freshly assembled node whose children blocks each mirror their
/// child source mirrors its own source.
pub proof fn lemma_head_mirror(
    r: Seq<ElementNode>,
    kids: Seq<ElementNode>,
    cids: Seq<usize>,
    next_id: int,
    src: NodeSrc,
)
    requires
        r.len() == 1 + kids.len(),
        r.skip(1) == kids,
        r[0].children_ids@ == cids,
        payload_matches(r[0].element, src),
        r[0].region == src_region(src),
        cids.len() == src_children(src).len(),
        forall|k: int| 0 <= k < cids.len() ==> next_id < (#[trigger] cids[k]) < next_id
            + r.len(),
        forall|k: int| 0 <= k < cids.len() ==> mirrors_at(
            kids,
            next_id + 1,
            (#[trigger] cids[k]) as int,
            src_children(src)[k],
        ),
    ensures
        mirrors_at(r, next_id, next_id, src),
{
    assert forall|k: int|
        0 <= k < r[0].children_ids@.len() implies mirrors_link(
        r,
        next_id,
        next_id,
        (#[trigger] r[0].children_ids@[k]) as int,
        src_children(src)[k],
    ) by {
        assert(r[0].children_ids@[k] == cids[k]);
        lemma_mirrors_frame(
            kids,
            next_id + 1,
            cids[k] as int,
            src_children(src)[k],
            r.take(1),
            Seq::empty(),
        );
        assert(r.take(1) + kids + Seq::<ElementNode>::empty() =~= r);
    }
}

/// The nodes of one subtree, laid out in depth-first id order starting
/// at `next_id`: sequential ids, a shared root id, the head's parent as
/// given, internal parents pointing backward, and child edges staying
/// inside the subtree and agreeing with the parent pointers.
pub open spec fn subtree_ok(
    sub: Seq<ElementNode>,
    next_id: int,
    root_id: usize,
    parent: Option<usize>,
) -> bool {
    &&& sub.len() >= 1
    &&& forall|i: int| 0 <= i < sub.len() ==> (#[trigger] sub[i]).element_id == next_id + i
    &&& sub[0].parent_id == parent
    &&& forall|i: int| 0 <= i < sub.len() ==> (#[trigger] sub[i]).root_id == root_id
    &&& forall|i: int, k: int|
        0 <= i < sub.len() && 0 <= k < sub[i].children_ids@.len() ==> next_id + i < (
        #[trigger] sub[i].children_ids@[k]) < next_id + sub.len()
    &&& forall|i: int, k: int|
        0 <= i < sub.len() && 0 <= k < sub[i].children_ids@.len() ==> sub[(
        #[trigger] sub[i].children_ids@[k]) - next_id].parent_id == Some(
            (next_id + i) as usize,
        )
    &&& forall|i: int|
        0 < i < sub.len() ==> ((#[trigger] sub[i]).parent_id matches Some(q) && next_id <= q
            < next_id + i)
    &&& forall|i: int|
        0 < i < sub.len() ==> exists|m: int|
            0 <= m < sub[(#[trigger] sub[i]).parent_id->Some_0 - next_id].children_ids@.len()
                && (#[trigger] sub[sub[i].parent_id->Some_0 - next_id].children_ids@[m])
                == next_id + i
}

/// The node blocks built for the children of one node: the union of
/// consecutive subtrees, with `cids` their heads.
pub open spec fn kids_ok(
    kids: Seq<ElementNode>,
    cids: Seq<usize>,
    next_id: int,
    root_id: usize,
    parent: usize,
) -> bool {
    &&& (parent as int) < next_id
    &&& forall|i: int| 0 <= i < kids.len() ==> (#[trigger] kids[i]).element_id == next_id + i
    &&& forall|i: int| 0 <= i < kids.len() ==> (#[trigger] kids[i]).root_id == root_id
    &&& forall|j: int| 0 <= j < cids.len() ==> next_id <= (#[trigger] cids[j]) < next_id
        + kids.len()
    &&& forall|j: int| 0 <= j < cids.len() ==> kids[(#[trigger] cids[j]) - next_id].parent_id
        == Some(parent)
    &&& forall|i: int|
        0 <= i < kids.len() ==> ((#[trigger] kids[i]).parent_id matches Some(q) && (q == parent
            || next_id <= q < next_id + i))
    &&& forall|i: int, k: int|
        0 <= i < kids.len() && 0 <= k < kids[i].children_ids@.len() ==> next_id + i < (
        #[trigger] kids[i].children_ids@[k]) < next_id + kids.len()
    &&& forall|i: int, k: int|
        0 <= i < kids.len() && 0 <= k < kids[i].children_ids@.len() ==> kids[(
        #[trigger] kids[i].children_ids@[k]) - next_id].parent_id == Some(
            (next_id + i) as usize,
        )
    &&& forall|i: int|
        0 <= i < kids.len() && (#[trigger] kids[i]).parent_id == Some(parent) ==> exists|
            j: int,
        | 0 <= j < cids.len() && (#[trigger] cids[j]) == next_id + i
    &&& forall|i: int|
        0 <= i < kids.len() && (#[trigger] kids[i]).parent_id != Some(parent) ==> exists|
            m: int,
        |
            0 <= m < kids[kids[i].parent_id->Some_0 - next_id].children_ids@.len() && (
            #[trigger] kids[kids[i].parent_id->Some_0 - next_id].children_ids@[m]) == next_id
                + i
}

/// Appending one more subtree to a block of children keeps it well laid
/// out.
proof fn lemma_kids_extend(
    kids: Seq<ElementNode>,
    cids: Seq<usize>,
    sub: Seq<ElementNode>,
    next_id: int,
    root_id: usize,
    parent: usize,
)
    requires
        kids_ok(kids, cids, next_id, root_id, parent),
        subtree_ok(sub, next_id + kids.len(), root_id, Some(parent)),
    ensures
        kids_ok(
            kids + sub,
            cids.push((next_id + kids.len()) as usize),
            next_id,
            root_id,
            parent,
        ),
{
    let all = kids + sub;
    let cs = cids.push((next_id + kids.len()) as usize);
    assert forall|i: int| 0 <= i < all.len() implies (#[trigger] all[i]).element_id == next_id
        + i by {
        if i >= kids.len() {
            assert(all[i] == sub[i - kids.len()]);
        }
    }
    assert forall|i: int| 0 <= i < all.len() implies (#[trigger] all[i]).root_id
        == root_id by {
        if i >= kids.len() {
            assert(all[i] == sub[i - kids.len()]);
        }
    }
    assert forall|i: int|
        0 <= i < all.len() implies (#[trigger] all[i]).parent_id matches Some(q) && (q == parent
            || next_id <= q < next_id + i) by {
        if i >= kids.len() {
            assert(all[i] == sub[i - kids.len()]);
        }
    }
    assert forall|i: int, k: int|
        0 <= i < all.len() && 0 <= k < all[i].children_ids@.len() implies next_id + i < (
        #[trigger] all[i].children_ids@[k]) < next_id + all.len() && all[all[i].children_ids@[k]
        - next_id].parent_id == Some((next_id + i) as usize) by {
        if i >= kids.len() {
            assert(all[i] == sub[i - kids.len()]);
            assert(sub[i - kids.len()].children_ids@[k] == all[i].children_ids@[k]);
            let c = all[i].children_ids@[k] - next_id;
            assert(all[c] == sub[c - kids.len()]);
        } else {
            let c = all[i].children_ids@[k] - next_id;
            assert(all[c] == kids[c]);
        }
    }
    assert forall|j: int| 0 <= j < cs.len() implies next_id <= (#[trigger] cs[j]) < next_id
        + all.len() && all[cs[j] - next_id].parent_id == Some(parent) by {
        if j < cids.len() {
            assert(cs[j] == cids[j]);
            assert(all[cs[j] - next_id] == kids[cs[j] - next_id]);
        } else {
            assert(all[cs[j] - next_id] == sub[0]);
        }
    }
    assert forall|i: int|
        0 <= i < all.len() && (#[trigger] all[i]).parent_id == Some(parent) implies exists|
            j: int,
        | 0 <= j < cs.len() && (#[trigger] cs[j]) == next_id + i by {
        if i < kids.len() {
            assert(all[i] == kids[i]);
            let j = choose|j: int| 0 <= j < cids.len() && (#[trigger] cids[j]) == next_id + i;
            assert(cs[j] == cids[j]);
        } else if i == kids.len() {
            assert(cs[cids.len() as int] == next_id + kids.len());
        } else {
            assert(all[i] == sub[i - kids.len()]);
        }
    }
    assert forall|i: int|
        0 <= i < all.len() && (#[trigger] all[i]).parent_id != Some(parent) implies exists|
            m: int,
        |
            0 <= m < all[all[i].parent_id->Some_0 - next_id].children_ids@.len() && (
            #[trigger] all[all[i].parent_id->Some_0 - next_id].children_ids@[m]) == next_id
                + i by {
        if i < kids.len() {
            assert(all[i] == kids[i]);
            let q = kids[i].parent_id->Some_0;
            let m = choose|m: int|
                0 <= m < kids[q - next_id].children_ids@.len() && (#[trigger] kids[q
                    - next_id].children_ids@[m]) == next_id + i;
            assert(all[q - next_id] == kids[q - next_id]);
        } else {
            assert(all[i] == sub[i - kids.len()]);
            assert(i > kids.len());
            let q = sub[i - kids.len()].parent_id->Some_0;
            let sb = next_id + kids.len();
            let m = choose|m: int|
                0 <= m < sub[q - sb].children_ids@.len() && (#[trigger] sub[q
                    - sb].children_ids@[m]) == sb + (i - kids.len());
            assert(all[q - next_id] == sub[q - sb]);
        }
    }
}

impl ElementTree {
    /// Builds a node whose payload is `payload`, with the given children
    /// block, and lays the whole subtree out in id order.
    fn assemble(
        payload: ElementRef,
        region: Region,
        next_id: usize,
        root_id: usize,
        parent: Option<usize>,
        kids: Vec<ElementNode>,
        cids: Vec<usize>,
    ) -> (r: Vec<ElementNode>)
        requires
            kids_ok(kids@, cids@, next_id + 1, root_id, next_id),
            next_id + 1 + kids@.len() <= usize::MAX,
        ensures
            subtree_ok(r@, next_id as int, root_id, parent),
            r@.len() == 1 + kids@.len(),
            r@[0].region == region,
            r@[0].element == payload,
            r@[0].children_ids == cids,
            r@.skip(1) == kids@,
    {
        let node = ElementNode {
            root_id,
            parent_id: parent,
            element_id: next_id,
            element: payload,
            region,
            children_ids: cids,
        };
        let mut out: Vec<ElementNode> = Vec::new();
        out.push(node);
        let mut rest = kids;
        out.append(&mut rest);
        proof {
            assert(out@.skip(1) =~= kids@);
            let sub = out@;
            assert forall|i: int| 0 <= i < sub.len() implies (#[trigger] sub[i]).element_id
                == next_id + i by {
                if i > 0 {
                    assert(sub[i] == kids@[i - 1]);
                }
            }
            assert forall|i: int| 0 <= i < sub.len() implies (#[trigger] sub[i]).root_id
                == root_id by {
                if i > 0 {
                    assert(sub[i] == kids@[i - 1]);
                }
            }
            assert forall|i: int|
                0 < i < sub.len() implies (#[trigger] sub[i]).parent_id matches Some(q)
                    && next_id <= q < next_id + i by {
                assert(sub[i] == kids@[i - 1]);
            }
            assert forall|i: int, k: int|
                0 <= i < sub.len() && 0 <= k < sub[i].children_ids@.len() implies next_id + i
                    < (#[trigger] sub[i].children_ids@[k]) < next_id + sub.len() && sub[
                sub[i].children_ids@[k] - next_id].parent_id == Some((next_id + i) as usize) by {
                if i > 0 {
                    assert(sub[i] == kids@[i - 1]);
                    let c = sub[i].children_ids@[k] - next_id;
                    assert(sub[c] == kids@[c - 1]);
                } else {
                    let c = sub[0].children_ids@[k] - next_id;
                    assert(cids@[k] == sub[0].children_ids@[k]);
                    assert(sub[c] == kids@[c - 1]);
                }
            }
            assert forall|i: int|
                0 < i < sub.len() implies exists|m: int|
                0 <= m < sub[(#[trigger] sub[i]).parent_id->Some_0 - next_id
                ].children_ids@.len() && (#[trigger] sub[sub[i].parent_id->Some_0
                    - next_id].children_ids@[m]) == next_id + i by {
                assert(sub[i] == kids@[i - 1]);
                let q = sub[i].parent_id->Some_0;
                if q == next_id {
                    assert(kids@[i - 1].parent_id == Some(next_id));
                    let j = choose|j: int|
                        0 <= j < cids@.len() && (#[trigger] cids@[j]) == next_id + 1 + (i
                            - 1);
                    assert(sub[0].children_ids@[j] == cids@[j]);
                } else {
                    assert(kids@[i - 1].parent_id != Some(next_id));
                    let m = choose|m: int|
                        0 <= m < kids@[q - (next_id + 1)].children_ids@.len() && (
                        #[trigger] kids@[q - (next_id + 1)].children_ids@[m]) == next_id + 1
                            + (i - 1);
                    assert(sub[q - next_id] == kids@[q - next_id - 1]);
                }
            }
        }
        out
    }
}

/// Turns a decorated run's content into a standalone inline element.
fn dtc_to_inline(c: &crate::elements::DecoratedTextContent) -> (r: InlineElement)
    ensures
        inline_eqv(r, dtc_as_inline(*c)),
{
    match c {
        crate::elements::DecoratedTextContent::Text(s) => InlineElement::Text(s.clone()),
        crate::elements::DecoratedTextContent::DecoratedText(d) => InlineElement::DecoratedText(
            crate::elements::DecoratedText {
                contents: dup_decorated_contents(d),
                decoration: d.decoration,
            },
        ),
        crate::elements::DecoratedTextContent::Keyword(k) => InlineElement::Keyword(*k),
        crate::elements::DecoratedTextContent::Link(l) => InlineElement::Link(dup_link(l)),
    }
}

impl ElementTree {
    /// Adds one inline element's subtree: a decorated run contributes
    /// its nested content as children; every other inline element is a
    /// leaf.
    #[verifier::rlimit(100)]
    fn add_inline(
        e: &InlineElement,
        region: Region,
        next_id: usize,
        root_id: usize,
        parent: Option<usize>,
    ) -> (r: Vec<ElementNode>)
        requires
            next_id >= 1,
            next_id < usize::MAX,
        ensures
            subtree_ok(r@, next_id as int, root_id, parent),
            r@[0].region == region,
            r@[0].element is Inline,
            next_id + r@.len() <= usize::MAX,
            next_id + r@.len() < usize::MAX - 8 ==> mirrors_at(
                r@,
                next_id as int,
                next_id as int,
                NodeSrc::I(*e, region),
            ),
    {
        let ghost src = NodeSrc::I(*e, region);
        let (kids, cids) = match e {
            InlineElement::DecoratedText(d) => Self::add_decorated_children(
                d,
                next_id,
                root_id,
            ),
            _ => (Vec::new(), Vec::new()),
        };
        let ghost kidsg = kids@;
        let ghost cidsg = cids@;
        let r = Self::assemble(
            ElementRef::Inline(dup_inline(e)),
            region,
            next_id,
            root_id,
            parent,
            kids,
            cids,
        );
        proof {
            if next_id + r@.len() < usize::MAX - 8 {
                assert forall|k: int|
                    0 <= k < r@[0].children_ids@.len() implies mirrors_link(
                    r@,
                    next_id as int,
                    next_id as int,
                    (#[trigger] r@[0].children_ids@[k]) as int,
                    src_children(src)[k],
                ) by {
                    assert(r@[0].children_ids@[k] == cidsg[k]);
                    lemma_mirrors_frame(
                        kidsg,
                        next_id + 1,
                        cidsg[k] as int,
                        src_children(src)[k],
                        r@.take(1),
                        Seq::empty(),
                    );
                    assert(r@.take(1) + kidsg + Seq::<ElementNode>::empty() =~= r@);
                }
            }
        }
        r
    }

    /// Adds one subtree per nested element of a decorated run, as the
    /// children block of the node at `next_id`.
    #[verifier::rlimit(100)]
    fn add_decorated_children(
        d: &crate::elements::DecoratedText,
        next_id: usize,
        root_id: usize,
    ) -> (r: (Vec<ElementNode>, Vec<usize>))
        requires
            next_id >= 1,
            next_id < usize::MAX,
        ensures
            kids_ok(r.0@, r.1@, next_id + 1, root_id, next_id),
            next_id + 1 + r.0@.len() <= usize::MAX,
            next_id + 1 + r.0@.len() < usize::MAX - 8 ==> r.1@.len() == d.contents@.len(),
            next_id + 1 + r.0@.len() < usize::MAX - 8 ==> forall|j: int|
                0 <= j < r.1@.len() ==> mirrors_at(
                    r.0@,
                    next_id + 1,
                    (#[trigger] r.1@[j]) as int,
                    NodeSrc::I(dtc_as_inline(d.contents@[j].element), d.contents@[j].region),
                ),
        decreases *d, 1int,
    {
        let mut kids: Vec<ElementNode> = Vec::new();
        let mut cids: Vec<usize> = Vec::new();
        let mut k: usize = 0;
        while k < d.contents.len() && next_id + 1 + kids.len() < usize::MAX - 8
            invariant
                next_id >= 1,
                next_id < usize::MAX,
                0 <= k <= d.contents@.len(),
                kids_ok(kids@, cids@, next_id + 1, root_id, next_id),
                next_id + 1 + kids@.len() <= usize::MAX,
                cids@.len() <= k,
                next_id + 1 + kids@.len() < usize::MAX - 8 ==> cids@.len() == k,
                next_id + 1 + kids@.len() < usize::MAX - 8 ==> forall|j: int|
                    0 <= j < cids@.len() ==> mirrors_at(
                        kids@,
                        next_id + 1,
                        (#[trigger] cids@[j]) as int,
                        NodeSrc::I(
                            dtc_as_inline(d.contents@[j].element),
                            d.contents@[j].region,
                        ),
                    ),
            decreases d.contents@.len() - k, 0int,
        {
            let cbase = next_id + 1 + kids.len();
            let lc = &d.contents[k];
            proof {
                assert(decreases_to!(*d => d.contents@[k as int].element));
            }
            let sub = Self::add_dtc(&lc.element, lc.region, cbase, root_id, Some(next_id));
            let ghost oldkids = kids@;
            let ghost oldcids = cids@;
            proof {
                lemma_kids_extend(kids@, cids@, sub@, next_id + 1, root_id, next_id);
            }
            cids.push(cbase);
            let mut subv = sub;
            let ghost subg = subv@;
            kids.append(&mut subv);
            proof {
                if next_id + 1 + kids@.len() < usize::MAX - 8 {
                    assert forall|j: int|
                        0 <= j < cids@.len() implies mirrors_at(
                        kids@,
                        next_id + 1,
                        (#[trigger] cids@[j]) as int,
                        NodeSrc::I(
                            dtc_as_inline(d.contents@[j].element),
                            d.contents@[j].region,
                        ),
                    ) by {
                        if j < oldcids.len() {
                            assert(cids@[j] == oldcids[j]);
                            lemma_mirrors_frame(
                                oldkids,
                                next_id + 1,
                                oldcids[j] as int,
                                NodeSrc::I(
                                    dtc_as_inline(d.contents@[j].element),
                                    d.contents@[j].region,
                                ),
                                Seq::empty(),
                                subg,
                            );
                            assert(Seq::<ElementNode>::empty() + oldkids + subg =~= kids@);
                        } else {
                            assert(cids@[j] == cbase);
                            lemma_mirrors_frame(
                                subg,
                                cbase as int,
                                cbase as int,
                                NodeSrc::I(
                                    dtc_as_inline(d.contents@[j].element),
                                    d.contents@[j].region,
                                ),
                                oldkids,
                                Seq::empty(),
                            );
                            assert(oldkids + subg + Seq::<ElementNode>::empty() =~= kids@);
                        }
                    }
                }
            }
            k += 1;
        }
        (kids, cids)
    }

    /// Adds one decorated-content element's subtree.
    #[verifier::rlimit(100)]
    fn add_dtc(
        c: &crate::elements::DecoratedTextContent,
        region: Region,
        next_id: usize,
        root_id: usize,
        parent: Option<usize>,
    ) -> (r: Vec<ElementNode>)
        requires
            next_id >= 1,
            next_id < usize::MAX,
        ensures
            subtree_ok(r@, next_id as int, root_id, parent),
            r@[0].region == region,
            r@[0].element is Inline,
            next_id + r@.len() <= usize::MAX,
            next_id + r@.len() < usize::MAX - 8 ==> mirrors_at(
                r@,
                next_id as int,
                next_id as int,
                NodeSrc::I(dtc_as_inline(*c), region),
            ),
        decreases *c, 2int,
    {
        let ghost src = NodeSrc::I(dtc_as_inline(*c), region);
        let (kids, cids) = match c {
            crate::elements::DecoratedTextContent::DecoratedText(d) => {
                proof {
                    assert((*c)->DecoratedText_0 == *d);
                    assert(decreases_to!(*c => (*c)->DecoratedText_0));
                }
                Self::add_decorated_children(d, next_id, root_id)
            },
            _ => (Vec::new(), Vec::new()),
        };
        let ghost kidsg = kids@;
        let ghost cidsg = cids@;
        let r = Self::assemble(
            ElementRef::Inline(dtc_to_inline(c)),
            region,
            next_id,
            root_id,
            parent,
            kids,
            cids,
        );
        proof {
            if next_id + r@.len() < usize::MAX - 8 {
                assert forall|k: int|
                    0 <= k < r@[0].children_ids@.len() implies mirrors_link(
                    r@,
                    next_id as int,
                    next_id as int,
                    (#[trigger] r@[0].children_ids@[k]) as int,
                    src_children(src)[k],
                ) by {
                    assert(r@[0].children_ids@[k] == cidsg[k]);
                    lemma_mirrors_frame(
                        kidsg,
                        next_id + 1,
                        cidsg[k] as int,
                        src_children(src)[k],
                        r@.take(1),
                        Seq::empty(),
                    );
                    assert(r@.take(1) + kidsg + Seq::<ElementNode>::empty() =~= r@);
                }
            }
        }
        r
    }

    /// Adds one subtree per element of an inline container, extending
    /// the growing children block of the node at `parent`.
    #[verifier::rlimit(100)]
    fn add_container(
        c: &InlineElementContainer,
        base: usize,
        root_id: usize,
        parent: usize,
        kids: Vec<ElementNode>,
        cids: Vec<usize>,
    ) -> (r: (Vec<ElementNode>, Vec<usize>))
        requires
            parent >= 1,
            base == parent + 1,
            kids_ok(kids@, cids@, base as int, root_id, parent),
            base + kids@.len() <= usize::MAX,
        ensures
            kids_ok(r.0@, r.1@, base as int, root_id, parent),
            base + r.0@.len() <= usize::MAX,
            r.0@.take(kids@.len() as int) == kids@,
            r.0@.len() >= kids@.len(),
            r.1@.take(cids@.len() as int) == cids@,
            r.1@.len() >= cids@.len(),
            base + r.0@.len() < usize::MAX - 8 ==> r.1@.len() == cids@.len()
                + c.elements@.len(),
            base + r.0@.len() < usize::MAX - 8 ==> forall|j: int|
                cids@.len() <= j < r.1@.len() ==> mirrors_at(
                    r.0@,
                    base as int,
                    (#[trigger] r.1@[j]) as int,
                    NodeSrc::I(
                        c.elements@[j - cids@.len()].element,
                        c.elements@[j - cids@.len()].region,
                    ),
                ),
        decreases *c, 0int,
    {
        let ghost kids0 = kids@;
        let ghost cids0 = cids@;
        let mut kids = kids;
        let mut cids = cids;
        let mut k: usize = 0;
        proof {
            assert(kids@.take(kids0.len() as int) =~= kids0);
            assert(cids@.take(cids0.len() as int) =~= cids0);
        }
        while k < c.elements.len() && base + kids.len() < usize::MAX - 8
            invariant
                parent >= 1,
                base == parent + 1,
                0 <= k <= c.elements@.len(),
                kids_ok(kids@, cids@, base as int, root_id, parent),
                base + kids@.len() <= usize::MAX,
                kids@.take(kids0.len() as int) == kids0,
                kids@.len() >= kids0.len(),
                cids@.take(cids0.len() as int) == cids0,
                cids@.len() >= cids0.len(),
                base + kids@.len() < usize::MAX - 8 ==> cids@.len() == cids0.len() + k,
                base + kids@.len() < usize::MAX - 8 ==> forall|j: int|
                    cids0.len() <= j < cids@.len() ==> mirrors_at(
                        kids@,
                        base as int,
                        (#[trigger] cids@[j]) as int,
                        NodeSrc::I(
                            c.elements@[j - cids0.len()].element,
                            c.elements@[j - cids0.len()].region,
                        ),
                    ),
            decreases c.elements@.len() - k,
        {
            let cbase = base + kids.len();
            let le = &c.elements[k];
            let sub = Self::add_inline(&le.element, le.region, cbase, root_id, Some(parent));
            let ghost oldkids = kids@;
            let ghost oldcids = cids@;
            proof {
                lemma_kids_extend(kids@, cids@, sub@, base as int, root_id, parent);
            }
            cids.push(cbase);
            let mut subv = sub;
            let ghost subg = subv@;
            kids.append(&mut subv);
            proof {
                assert(oldkids.take(kids0.len() as int) == kids0);
                assert(kids0.len() <= oldkids.len());
                assert(kids@.take(kids0.len() as int) =~= oldkids.take(kids0.len() as int));
                assert(oldcids.take(cids0.len() as int) == cids0);
                assert(cids@.take(cids0.len() as int) =~= oldcids.take(cids0.len() as int));
                if base + kids@.len() < usize::MAX - 8 {
                    assert forall|j: int|
                        cids0.len() <= j < cids@.len() implies mirrors_at(
                        kids@,
                        base as int,
                        (#[trigger] cids@[j]) as int,
                        NodeSrc::I(
                            c.elements@[j - cids0.len()].element,
                            c.elements@[j - cids0.len()].region,
                        ),
                    ) by {
                        let src = NodeSrc::I(
                            c.elements@[j - cids0.len()].element,
                            c.elements@[j - cids0.len()].region,
                        );
                        if j < oldcids.len() {
                            assert(cids@[j] == oldcids[j]);
                            lemma_mirrors_frame(
                                oldkids,
                                base as int,
                                oldcids[j] as int,
                                src,
                                Seq::empty(),
                                subg,
                            );
                            assert(Seq::<ElementNode>::empty() + oldkids + subg =~= kids@);
                        } else {
                            assert(cids@[j] == cbase);
                            lemma_mirrors_frame(
                                subg,
                                cbase as int,
                                cbase as int,
                                src,
                                oldkids,
                                Seq::empty(),
                            );
                            assert(oldkids + subg + Seq::<ElementNode>::empty() =~= kids@);
                        }
                    }
                }
            }
            k += 1;
        }
        (kids, cids)
    }
}

impl ElementTree {
    /// Adds one block element's subtree: headers and paragraphs
    /// contribute their inline content, tables their content cells'
    /// content, definition lists their terms' and definitions' content,
    /// and lists their items' content and sublists; every other block is
    /// a leaf.
    #[verifier::rlimit(100)]
    fn add_block(
        e: &BlockElement,
        region: Region,
        next_id: usize,
        root_id: usize,
        parent: Option<usize>,
    ) -> (r: Vec<ElementNode>)
        requires
            next_id >= 1,
            next_id < usize::MAX,
        ensures
            subtree_ok(r@, next_id as int, root_id, parent),
            r@[0].region == region,
            r@[0].element is Block,
            next_id + r@.len() <= usize::MAX,
            next_id + r@.len() < usize::MAX - 8 ==> mirrors_at(
                r@,
                next_id as int,
                next_id as int,
                NodeSrc::B(*e, region),
            ),
    {
        match e {
            BlockElement::List(l) => {
                let r = Self::add_list(l, region, next_id, root_id, parent);
                proof {
                    assert(*e == BlockElement::List(*l));
                }
                r
            },
            _ => {
                let ghost src = NodeSrc::B(*e, region);
                let ghost full = src_children(src);
                let mut kids: Vec<ElementNode> = Vec::new();
                let mut cids: Vec<usize> = Vec::new();
                match e {
                    BlockElement::Header(h) => {
                        let (nk, nc) = Self::add_container(
                            &h.content,
                            next_id + 1,
                            root_id,
                            next_id,
                            kids,
                            cids,
                        );
                        kids = nk;
                        cids = nc;
                        proof {
                            if next_id + 1 + kids@.len() < usize::MAX - 8 {
                                assert(cids@.len() == full.len());
                                assert forall|j: int|
                                    0 <= j < cids@.len() implies mirrors_at(
                                    kids@,
                                    next_id + 1,
                                    (#[trigger] cids@[j]) as int,
                                    full[j],
                                ) by {
                                    assert(full[j] == NodeSrc::I(
                                        h.content.elements@[j].element,
                                        h.content.elements@[j].region,
                                    ));
                                }
                            }
                        }
                    },
                    BlockElement::Paragraph(p) => {
                        let (nk, nc) = Self::add_container(
                            &p.content,
                            next_id + 1,
                            root_id,
                            next_id,
                            kids,
                            cids,
                        );
                        kids = nk;
                        cids = nc;
                        proof {
                            if next_id + 1 + kids@.len() < usize::MAX - 8 {
                                assert(cids@.len() == full.len());
                                assert forall|j: int|
                                    0 <= j < cids@.len() implies mirrors_at(
                                    kids@,
                                    next_id + 1,
                                    (#[trigger] cids@[j]) as int,
                                    full[j],
                                ) by {
                                    assert(full[j] == NodeSrc::I(
                                        p.content.elements@[j].element,
                                        p.content.elements@[j].region,
                                    ));
                                }
                            }
                        }
                    },
                    BlockElement::Table(t) => {
                        let mut ri: usize = 0;
                        proof {
                            assert(full.skip(0) =~= full);
                        }
                        while ri < t.rows.len()
                            invariant
                                next_id >= 1,
                                next_id < usize::MAX,
                                0 <= ri <= t.rows@.len(),
                                kids_ok(kids@, cids@, next_id + 1, root_id, next_id),
                                next_id + 1 + kids@.len() <= usize::MAX,
                                full == rows_children(t.rows@, 0),
                                next_id + 1 + kids@.len() < usize::MAX - 8 ==> {
                                    &&& cids@.len() <= full.len()
                                    &&& full.skip(cids@.len() as int) == rows_children(
                                        t.rows@,
                                        ri as int,
                                    )
                                    &&& forall|j: int|
                                        0 <= j < cids@.len() ==> mirrors_at(
                                            kids@,
                                            next_id + 1,
                                            (#[trigger] cids@[j]) as int,
                                            full[j],
                                        )
                                },
                            decreases t.rows@.len() - ri,
                        {
                            let ghost row_tail = rows_children(t.rows@, ri + 1);
                            match &t.rows[ri].element {
                                Row::Content { cells } => {
                                    let mut ci: usize = 0;
                                    proof {
                                        if next_id + 1 + kids@.len() < usize::MAX - 8 {
                                            assert(cells_children(cells@, 0) + row_tail
                                                =~= rows_children(t.rows@, ri as int));
                                        }
                                    }
                                    while ci < cells.len()
                                        invariant
                                            next_id >= 1,
                                            next_id < usize::MAX,
                                            0 <= ci <= cells@.len(),
                                            kids_ok(
                                                kids@,
                                                cids@,
                                                next_id + 1,
                                                root_id,
                                                next_id,
                                            ),
                                            next_id + 1 + kids@.len() <= usize::MAX,
                                            full == rows_children(t.rows@, 0),
                                            row_tail == rows_children(t.rows@, ri + 1),
                                            next_id + 1 + kids@.len() < usize::MAX - 8 ==> {
                                                &&& cids@.len() <= full.len()
                                                &&& full.skip(cids@.len() as int)
                                                    == cells_children(cells@, ci as int)
                                                    + row_tail
                                                &&& forall|j: int|
                                                    0 <= j < cids@.len() ==> mirrors_at(
                                                        kids@,
                                                        next_id + 1,
                                                        (#[trigger] cids@[j]) as int,
                                                        full[j],
                                                    )
                                            },
                                        decreases cells@.len() - ci,
                                    {
                                        let ghost cell_tail = cells_children(
                                            cells@,
                                            ci + 1,
                                        ) + row_tail;
                                        match &cells[ci].element {
                                            Cell::Content(cc) => {
                                                let ghost oldkids = kids@;
                                                let ghost oldcids = cids@;
                                                proof {
                                                    if next_id + 1 + kids@.len()
                                                        < usize::MAX - 8 {
                                                        assert(container_children(*cc)
                                                            + cell_tail =~= cells_children(
                                                            cells@,
                                                            ci as int,
                                                        ) + row_tail);
                                                    }
                                                }
                                                let (nk, nc) = Self::add_container(
                                                    cc,
                                                    next_id + 1,
                                                    root_id,
                                                    next_id,
                                                    kids,
                                                    cids,
                                                );
                                                kids = nk;
                                                cids = nc;
                                                proof {
                                                    if next_id + 1 + kids@.len()
                                                        < usize::MAX - 8 {
                                                        lemma_flat_step(
                                                            full,
                                                            oldcids.len() as int,
                                                            container_children(*cc),
                                                            cell_tail,
                                                            cids@.len() as int,
                                                        );
                                                        assert forall|j: int|
                                                            0 <= j < cids@.len() implies
                                                            mirrors_at(
                                                            kids@,
                                                            next_id + 1,
                                                            (#[trigger] cids@[j]) as int,
                                                            full[j],
                                                        ) by {
                                                            if j < oldcids.len() {
                                                                assert(cids@[j]
                                                                    == oldcids[j]);
                                                                lemma_mirrors_frame(
                                                                    oldkids,
                                                                    next_id + 1,
                                                                    oldcids[j] as int,
                                                                    full[j],
                                                                    Seq::empty(),
                                                                    kids@.skip(
                                                                        oldkids.len()
                                                                            as int,
                                                                    ),
                                                                );
                                                                assert(Seq::<
                                                                    ElementNode,
                                                                >::empty() + oldkids
                                                                    + kids@.skip(
                                                                    oldkids.len() as int,
                                                                ) =~= kids@);
                                                            } else {
                                                                assert(full[j]
                                                                    == full.skip(
                                                                    oldcids.len() as int,
                                                                )[j - oldcids.len()]);
                                                                assert(full[j]
                                                                    == container_children(
                                                                    *cc,
                                                                )[j - oldcids.len()]);
                                                            }
                                                        }
                                                    }
                                                }
                                            },
                                            _ => {
                                                proof {
                                                    if next_id + 1 + kids@.len()
                                                        < usize::MAX - 8 {
                                                        assert(cells_children(
                                                            cells@,
                                                            ci as int,
                                                        ) =~= cells_children(
                                                            cells@,
                                                            ci + 1,
                                                        ));
                                                    }
                                                }
                                            },
                                        }
                                        ci += 1;
                                    }
                                    proof {
                                        if next_id + 1 + kids@.len() < usize::MAX - 8 {
                                            assert(cells_children(
                                                cells@,
                                                cells@.len() as int,
                                            ) =~= Seq::<NodeSrc>::empty());
                                            assert(Seq::<NodeSrc>::empty() + row_tail
                                                =~= row_tail);
                                        }
                                    }
                                },
                                _ => {
                                    proof {
                                        if next_id + 1 + kids@.len() < usize::MAX - 8 {
                                            assert(rows_children(t.rows@, ri as int)
                                                =~= row_tail);
                                        }
                                    }
                                },
                            }
                            ri += 1;
                        }
                        proof {
                            if next_id + 1 + kids@.len() < usize::MAX - 8 {
                                assert(rows_children(t.rows@, t.rows@.len() as int)
                                    =~= Seq::<NodeSrc>::empty());
                                assert(cids@.len() == full.len());
                            }
                        }
                    },
                    BlockElement::DefinitionList(dl) => {
                        let mut ei: usize = 0;
                        proof {
                            assert(full.skip(0) =~= full);
                        }
                        while ei < dl.entries.len()
                            invariant
                                next_id >= 1,
                                next_id < usize::MAX,
                                0 <= ei <= dl.entries@.len(),
                                kids_ok(kids@, cids@, next_id + 1, root_id, next_id),
                                next_id + 1 + kids@.len() <= usize::MAX,
                                full == entries_children(dl.entries@, 0),
                                next_id + 1 + kids@.len() < usize::MAX - 8 ==> {
                                    &&& cids@.len() <= full.len()
                                    &&& full.skip(cids@.len() as int) == entries_children(
                                        dl.entries@,
                                        ei as int,
                                    )
                                    &&& forall|j: int|
                                        0 <= j < cids@.len() ==> mirrors_at(
                                            kids@,
                                            next_id + 1,
                                            (#[trigger] cids@[j]) as int,
                                            full[j],
                                        )
                                },
                            decreases dl.entries@.len() - ei,
                        {
                            let entry = &dl.entries[ei];
                            let ghost entry_tail = entries_children(dl.entries@, ei + 1);
                            let ghost oldkids = kids@;
                            let ghost oldcids = cids@;
                            proof {
                                if next_id + 1 + kids@.len() < usize::MAX - 8 {
                                    assert((container_children(entry.term.element.content)
                                        + defs_children(entry.definitions@, 0))
                                        + entry_tail =~= entries_children(
                                        dl.entries@,
                                        ei as int,
                                    ));
                                    assert(container_children(entry.term.element.content)
                                        + (defs_children(entry.definitions@, 0)
                                        + entry_tail) =~= (container_children(
                                        entry.term.element.content,
                                    ) + defs_children(entry.definitions@, 0))
                                        + entry_tail);
                                }
                            }
                            let (nk, nc) = Self::add_container(
                                &entry.term.element.content,
                                next_id + 1,
                                root_id,
                                next_id,
                                kids,
                                cids,
                            );
                            kids = nk;
                            cids = nc;
                            proof {
                                if next_id + 1 + kids@.len() < usize::MAX - 8 {
                                    lemma_flat_step(
                                        full,
                                        oldcids.len() as int,
                                        container_children(entry.term.element.content),
                                        defs_children(entry.definitions@, 0) + entry_tail,
                                        cids@.len() as int,
                                    );
                                    assert forall|j: int|
                                        0 <= j < cids@.len() implies mirrors_at(
                                        kids@,
                                        next_id + 1,
                                        (#[trigger] cids@[j]) as int,
                                        full[j],
                                    ) by {
                                        if j < oldcids.len() {
                                            assert(cids@[j] == oldcids[j]);
                                            lemma_mirrors_frame(
                                                oldkids,
                                                next_id + 1,
                                                oldcids[j] as int,
                                                full[j],
                                                Seq::empty(),
                                                kids@.skip(oldkids.len() as int),
                                            );
                                            assert(Seq::<ElementNode>::empty() + oldkids
                                                + kids@.skip(oldkids.len() as int)
                                                =~= kids@);
                                        } else {
                                            assert(full[j] == full.skip(
                                                oldcids.len() as int,
                                            )[j - oldcids.len()]);
                                            assert(full[j] == container_children(
                                                entry.term.element.content,
                                            )[j - oldcids.len()]);
                                        }
                                    }
                                }
                            }
                            let mut di: usize = 0;
                            while di < entry.definitions.len()
                                invariant
                                    next_id >= 1,
                                    next_id < usize::MAX,
                                    0 <= di <= entry.definitions@.len(),
                                    kids_ok(kids@, cids@, next_id + 1, root_id, next_id),
                                    next_id + 1 + kids@.len() <= usize::MAX,
                                    full == entries_children(dl.entries@, 0),
                                    entry_tail == entries_children(dl.entries@, ei + 1),
                                    0 <= ei < dl.entries@.len(),
                                    *entry == dl.entries@[ei as int],
                                    next_id + 1 + kids@.len() < usize::MAX - 8 ==> {
                                        &&& cids@.len() <= full.len()
                                        &&& full.skip(cids@.len() as int) == defs_children(
                                            entry.definitions@,
                                            di as int,
                                        ) + entry_tail
                                        &&& forall|j: int|
                                            0 <= j < cids@.len() ==> mirrors_at(
                                                kids@,
                                                next_id + 1,
                                                (#[trigger] cids@[j]) as int,
                                                full[j],
                                            )
                                    },
                                decreases entry.definitions@.len() - di,
                            {
                                let ghost def_tail = defs_children(
                                    entry.definitions@,
                                    di + 1,
                                ) + entry_tail;
                                let ghost oldkids2 = kids@;
                                let ghost oldcids2 = cids@;
                                proof {
                                    if next_id + 1 + kids@.len() < usize::MAX - 8 {
                                        assert(container_children(
                                            entry.definitions@[di as int].element.content,
                                        ) + def_tail =~= defs_children(
                                            entry.definitions@,
                                            di as int,
                                        ) + entry_tail);
                                    }
                                }
                                let (nk2, nc2) = Self::add_container(
                                    &entry.definitions[di].element.content,
                                    next_id + 1,
                                    root_id,
                                    next_id,
                                    kids,
                                    cids,
                                );
                                kids = nk2;
                                cids = nc2;
                                proof {
                                    if next_id + 1 + kids@.len() < usize::MAX - 8 {
                                        lemma_flat_step(
                                            full,
                                            oldcids2.len() as int,
                                            container_children(
                                                entry.definitions@[
                                                    di as int
                                                ].element.content,
                                            ),
                                            def_tail,
                                            cids@.len() as int,
                                        );
                                        assert forall|j: int|
                                            0 <= j < cids@.len() implies mirrors_at(
                                            kids@,
                                            next_id + 1,
                                            (#[trigger] cids@[j]) as int,
                                            full[j],
                                        ) by {
                                            if j < oldcids2.len() {
                                                assert(cids@[j] == oldcids2[j]);
                                                lemma_mirrors_frame(
                                                    oldkids2,
                                                    next_id + 1,
                                                    oldcids2[j] as int,
                                                    full[j],
                                                    Seq::empty(),
                                                    kids@.skip(oldkids2.len() as int),
                                                );
                                                assert(Seq::<ElementNode>::empty()
                                                    + oldkids2 + kids@.skip(
                                                    oldkids2.len() as int,
                                                ) =~= kids@);
                                            } else {
                                                assert(full[j] == full.skip(
                                                    oldcids2.len() as int,
                                                )[j - oldcids2.len()]);
                                                assert(full[j] == container_children(
                                                    entry.definitions@[
                                                        di as int
                                                    ].element.content,
                                                )[j - oldcids2.len()]);
                                            }
                                        }
                                    }
                                }
                                di += 1;
                            }
                            ei += 1;
                        }
                        proof {
                            if next_id + 1 + kids@.len() < usize::MAX - 8 {
                                assert(entries_children(
                                    dl.entries@,
                                    dl.entries@.len() as int,
                                ) =~= Seq::<NodeSrc>::empty());
                                assert(cids@.len() == full.len());
                            }
                        }
                    },
                    _ => {
                        proof {
                            assert(full =~= Seq::<NodeSrc>::empty());
                        }
                    },
                }
                let ghost kidsg = kids@;
                let ghost cidsg = cids@;
                let r = Self::assemble(
                    ElementRef::Block(dup_block(e)),
                    region,
                    next_id,
                    root_id,
                    parent,
                    kids,
                    cids,
                );
                proof {
                    if next_id + r@.len() < usize::MAX - 8 {
                        lemma_head_mirror(r@, kidsg, cidsg, next_id as int, src);
                    }
                }
                r
            },
        }
    }
}

/// Stepping past one flattened slice of child sources: when the sources
/// from `lo` on read as `mid + tail` and `hi` sits `mid`'s length past
/// `lo`, the sources from `hi` on read as `tail`, and each index into
/// `mid` maps back into `full`.
proof fn lemma_flat_step(full: Seq<NodeSrc>, lo: int, mid: Seq<NodeSrc>, tail: Seq<NodeSrc>, hi: int)
    requires
        0 <= lo <= full.len(),
        full.skip(lo) == mid + tail,
        hi == lo + mid.len(),
    ensures
        hi <= full.len(),
        full.skip(hi) =~= tail,
        forall|j: int| lo <= j < hi ==> #[trigger] full[j] == mid[j - lo],
{
    assert(full.skip(lo).len() == full.len() - lo);
    assert forall|j: int| lo <= j < hi implies #[trigger] full[j] == mid[j - lo] by {
        assert(full.skip(lo)[j - lo] == full[j]);
        assert((mid + tail)[j - lo] == mid[j - lo]);
    }
    assert forall|m: int| 0 <= m < tail.len() implies full.skip(hi)[m] == tail[m] by {
        assert(full.skip(hi)[m] == full[hi + m]);
        assert(full.skip(lo)[hi + m - lo] == full[hi + m]);
        assert((mid + tail)[hi + m - lo] == tail[m]);
    }
}

impl ElementTree {
    /// Adds a list's subtree: each item contributes its inline content
    /// and, for nested sublists, a recursive block child.
    #[verifier::rlimit(100)]
    fn add_list(
        l: &List,
        region: Region,
        next_id: usize,
        root_id: usize,
        parent: Option<usize>,
    ) -> (r: Vec<ElementNode>)
        requires
            next_id >= 1,
            next_id < usize::MAX,
        ensures
            subtree_ok(r@, next_id as int, root_id, parent),
            r@[0].region == region,
            r@[0].element is Block,
            next_id + r@.len() <= usize::MAX,
            next_id + r@.len() < usize::MAX - 8 ==> mirrors_at(
                r@,
                next_id as int,
                next_id as int,
                NodeSrc::B(BlockElement::List(*l), region),
            ),
        decreases *l, 1int,
    {
        let ghost src = NodeSrc::B(BlockElement::List(*l), region);
        let ghost full = src_children(src);
        let mut kids: Vec<ElementNode> = Vec::new();
        let mut cids: Vec<usize> = Vec::new();
        let mut ii: usize = 0;
        proof {
            assert(full.skip(0) =~= full);
        }
        while ii < l.items.len()
            invariant
                next_id >= 1,
                next_id < usize::MAX,
                0 <= ii <= l.items@.len(),
                kids_ok(kids@, cids@, next_id + 1, root_id, next_id),
                next_id + 1 + kids@.len() <= usize::MAX,
                full == items_children(l.items@, 0),
                next_id + 1 + kids@.len() < usize::MAX - 8 ==> {
                    &&& cids@.len() <= full.len()
                    &&& full.skip(cids@.len() as int) == items_children(l.items@, ii as int)
                    &&& forall|j: int|
                        0 <= j < cids@.len() ==> mirrors_at(
                            kids@,
                            next_id + 1,
                            (#[trigger] cids@[j]) as int,
                            full[j],
                        )
                },
            decreases l.items@.len() - ii, 0int,
        {
            let item = &l.items[ii];
            let contents = &item.element.item.contents.contents;
            let ghost item_tail = items_children(l.items@, ii + 1);
            let mut pi: usize = 0;
            proof {
                if next_id + 1 + kids@.len() < usize::MAX - 8 {
                    assert(pieces_children(contents@, 0) + item_tail =~= items_children(
                        l.items@,
                        ii as int,
                    ));
                }
            }
            while pi < contents.len()
                invariant
                    next_id >= 1,
                    next_id < usize::MAX,
                    0 <= pi <= contents@.len(),
                    0 <= ii < l.items@.len(),
                    *item == l.items@[ii as int],
                    contents == &item.element.item.contents.contents,
                    kids_ok(kids@, cids@, next_id + 1, root_id, next_id),
                    next_id + 1 + kids@.len() <= usize::MAX,
                    full == items_children(l.items@, 0),
                    item_tail == items_children(l.items@, ii + 1),
                    next_id + 1 + kids@.len() < usize::MAX - 8 ==> {
                        &&& cids@.len() <= full.len()
                        &&& full.skip(cids@.len() as int) == pieces_children(
                            contents@,
                            pi as int,
                        ) + item_tail
                        &&& forall|j: int|
                            0 <= j < cids@.len() ==> mirrors_at(
                                kids@,
                                next_id + 1,
                                (#[trigger] cids@[j]) as int,
                                full[j],
                            )
                    },
                decreases contents@.len() - pi, 1int,
            {
                let piece = &contents[pi];
                let ghost piece_tail = pieces_children(contents@, pi + 1) + item_tail;
                match &piece.element {
                    ListItemContent::InlineContent(cc) => {
                        let ghost oldkids = kids@;
                        let ghost oldcids = cids@;
                        proof {
                            if next_id + 1 + kids@.len() < usize::MAX - 8 {
                                assert(container_children(*cc) + piece_tail
                                    =~= pieces_children(contents@, pi as int) + item_tail);
                            }
                        }
                        let (nk, nc) = Self::add_container(
                            cc,
                            next_id + 1,
                            root_id,
                            next_id,
                            kids,
                            cids,
                        );
                        kids = nk;
                        cids = nc;
                        proof {
                            if next_id + 1 + kids@.len() < usize::MAX - 8 {
                                lemma_flat_step(
                                    full,
                                    oldcids.len() as int,
                                    container_children(*cc),
                                    piece_tail,
                                    cids@.len() as int,
                                );
                                assert forall|j: int|
                                    0 <= j < cids@.len() implies mirrors_at(
                                    kids@,
                                    next_id + 1,
                                    (#[trigger] cids@[j]) as int,
                                    full[j],
                                ) by {
                                    if j < oldcids.len() {
                                        assert(cids@[j] == oldcids[j]);
                                        lemma_mirrors_frame(
                                            oldkids,
                                            next_id + 1,
                                            oldcids[j] as int,
                                            full[j],
                                            Seq::empty(),
                                            kids@.skip(oldkids.len() as int),
                                        );
                                        assert(Seq::<ElementNode>::empty() + oldkids
                                            + kids@.skip(oldkids.len() as int) =~= kids@);
                                    } else {
                                        assert(full[j] == full.skip(
                                            oldcids.len() as int,
                                        )[j - oldcids.len()]);
                                        assert(full[j] == container_children(*cc)[j
                                            - oldcids.len()]);
                                    }
                                }
                            }
                        }
                    },
                    ListItemContent::List(sub) => {
                        let cbase = next_id + 1 + kids.len();
                        if cbase < usize::MAX {
                            proof {
                                assert(decreases_to!(*l => l.items@[ii as int].element));
                                assert(decreases_to!(l.items@[ii as int].element =>
                                    l.items@[ii as int].element.item.contents.contents@[
                                    pi as int
                                ].element));
                                assert((piece.element)->List_0 == *sub);
                                assert(decreases_to!(piece.element => (piece.element)
                                    ->List_0));
                            }
                            let subnodes = Self::add_list(
                                sub,
                                piece.region,
                                cbase,
                                root_id,
                                Some(next_id),
                            );
                            let ghost oldkids = kids@;
                            let ghost oldcids = cids@;
                            proof {
                                lemma_kids_extend(
                                    kids@,
                                    cids@,
                                    subnodes@,
                                    next_id + 1,
                                    root_id,
                                    next_id,
                                );
                            }
                            cids.push(cbase);
                            let mut subv = subnodes;
                            let ghost subg = subv@;
                            kids.append(&mut subv);
                            proof {
                                if next_id + 1 + kids@.len() < usize::MAX - 8 {
                                    assert(seq![
                                        NodeSrc::B(
                                            BlockElement::List(*sub),
                                            contents@[pi as int].region,
                                        )
                                    ] + piece_tail =~= pieces_children(
                                        contents@,
                                        pi as int,
                                    ) + item_tail);
                                    lemma_flat_step(
                                        full,
                                        oldcids.len() as int,
                                        seq![
                                            NodeSrc::B(
                                                BlockElement::List(*sub),
                                                contents@[pi as int].region,
                                            )
                                        ],
                                        piece_tail,
                                        cids@.len() as int,
                                    );
                                    assert forall|j: int|
                                        0 <= j < cids@.len() implies mirrors_at(
                                        kids@,
                                        next_id + 1,
                                        (#[trigger] cids@[j]) as int,
                                        full[j],
                                    ) by {
                                        if j < oldcids.len() {
                                            assert(cids@[j] == oldcids[j]);
                                            lemma_mirrors_frame(
                                                oldkids,
                                                next_id + 1,
                                                oldcids[j] as int,
                                                full[j],
                                                Seq::empty(),
                                                subg,
                                            );
                                            assert(Seq::<ElementNode>::empty() + oldkids
                                                + subg =~= kids@);
                                        } else {
                                            assert(cids@[j] == cbase);
                                            assert(full[j] == NodeSrc::B(
                                                BlockElement::List(*sub),
                                                contents@[pi as int].region,
                                            ));
                                            lemma_mirrors_frame(
                                                subg,
                                                cbase as int,
                                                cbase as int,
                                                full[j],
                                                oldkids,
                                                Seq::empty(),
                                            );
                                            assert(oldkids + subg + Seq::<
                                                ElementNode,
                                            >::empty() =~= kids@);
                                        }
                                    }
                                }
                            }
                        }
                    },
                }
                pi += 1;
            }
            proof {
                if next_id + 1 + kids@.len() < usize::MAX - 8 {
                    assert(pieces_children(contents@, contents@.len() as int) =~= Seq::<
                        NodeSrc,
                    >::empty());
                    assert(Seq::<NodeSrc>::empty() + item_tail =~= item_tail);
                }
            }
            ii += 1;
        }
        proof {
            if next_id + 1 + kids@.len() < usize::MAX - 8 {
                assert(items_children(l.items@, l.items@.len() as int) =~= Seq::<
                    NodeSrc,
                >::empty());
                assert(cids@.len() == full.len());
            }
        }
        let ghost kidsg = kids@;
        let ghost cidsg = cids@;
        let r = Self::assemble(
            ElementRef::Block(BlockElement::List(dup_list(l))),
            region,
            next_id,
            root_id,
            parent,
            kids,
            cids,
        );
        proof {
            if next_id + r@.len() < usize::MAX - 8 {
                lemma_head_mirror(r@, kidsg, cidsg, next_id as int, src);
            }
        }
        r
    }
}

impl ElementTree {
    /// Constructs a tree over the top-level elements of the given page.
    ///
    /// Every element of the page becomes a root, in document order, with
    /// its region; the whole arena is well formed. Should a document
    /// ever exhaust the id space — which no document that fits in memory
    /// can — the remaining elements are left out rather than misnumbered.
    #[verifier::rlimit(100)]
    pub fn from_page(page: Page) -> (r: ElementTree)
        ensures
            r.wf(),
            r.page == page,
            r.root_nodes@.len() == page.elements@.len() || r.nodes@.len() + 1 >= usize::MAX,
            forall|k: int|
                0 <= k < r.root_nodes@.len() ==> {
                    let n = r.nodes@[(#[trigger] r.root_nodes@[k]) - 1];
                    &&& n.region == page.elements@[k].region
                    &&& n.element is Block
                    &&& n.parent_id is None
                    &&& n.root_id == r.root_nodes@[k]
                },
            r.nodes@.len() + 1 < usize::MAX - 8 ==> forall|k: int|
                0 <= k < r.root_nodes@.len() ==> mirrors_at(
                    r.nodes@,
                    1,
                    (#[trigger] r.root_nodes@[k]) as int,
                    NodeSrc::B(page.elements@[k].element, page.elements@[k].region),
                ),
    {
        let mut nodes: Vec<ElementNode> = Vec::new();
        let mut roots: Vec<usize> = Vec::new();
        let mut k: usize = 0;
        while k < page.elements.len() && nodes.len() < usize::MAX - 1
            invariant
                0 <= k <= page.elements@.len(),
                roots@.len() == k,
                forall|i: int| 0 <= i < nodes@.len() ==> (#[trigger] nodes@[i]).element_id == i
                    + 1,
                forall|i: int| 0 <= i < nodes@.len() ==> 1 <= (#[trigger] nodes@[i]).root_id
                    <= nodes@.len(),
                forall|i: int, m: int|
                    0 <= i < nodes@.len() && 0 <= m < nodes@[i].children_ids@.len() ==> i + 1
                        < (#[trigger] nodes@[i].children_ids@[m]) <= nodes@.len(),
                forall|i: int, m: int|
                    0 <= i < nodes@.len() && 0 <= m < nodes@[i].children_ids@.len() ==> nodes@[
                    (#[trigger] nodes@[i].children_ids@[m]) - 1].parent_id == Some(
                        (i + 1) as usize,
                    ),
                forall|i: int, m: int|
                    0 <= i < nodes@.len() && 0 <= m < nodes@[i].children_ids@.len() ==> nodes@[
                    (#[trigger] nodes@[i].children_ids@[m]) - 1].root_id == nodes@[i].root_id,
                forall|i: int|
                    0 <= i < nodes@.len() && (#[trigger] nodes@[i]).parent_id is Some ==> 1
                        <= nodes@[i].parent_id->Some_0 < i + 1,
                forall|m: int| 0 <= m < roots@.len() ==> 1 <= (#[trigger] roots@[m])
                    <= nodes@.len(),
                forall|m: int|
                    0 <= m < roots@.len() ==> {
                        let n = nodes@[(#[trigger] roots@[m]) - 1];
                        &&& n.region == page.elements@[m].region
                        &&& n.element is Block
                        &&& n.parent_id is None
                        &&& n.root_id == roots@[m]
                    },
                forall|i: int|
                    0 <= i < nodes@.len() ==> (((#[trigger] nodes@[i]).parent_id is None)
                        <==> (nodes@[i].root_id == i + 1)),
                forall|i: int|
                    0 <= i < nodes@.len() ==> nodes@[(#[trigger] nodes@[i]).root_id
                        - 1].parent_id is None && nodes@[nodes@[i].root_id - 1].root_id
                        == nodes@[i].root_id,
                forall|i: int|
                    0 <= i < nodes@.len() && (#[trigger] nodes@[i]).parent_id is Some
                        ==> exists|m: int|
                        0 <= m < nodes@[nodes@[i].parent_id->Some_0 - 1].children_ids@.len()
                            && (#[trigger] nodes@[nodes@[i].parent_id->Some_0
                            - 1].children_ids@[m]) == i + 1,
                nodes@.len() + 1 < usize::MAX - 8 ==> forall|m: int|
                    0 <= m < roots@.len() ==> mirrors_at(
                        nodes@,
                        1,
                        (#[trigger] roots@[m]) as int,
                        NodeSrc::B(page.elements@[m].element, page.elements@[m].region),
                    ),
            decreases page.elements@.len() - k,
        {
            let base = nodes.len() + 1;
            let le = &page.elements[k];
            let sub = Self::add_block(&le.element, le.region, base, base, None);
            let ghost oldn = nodes@;
            let ghost oldr = roots@;
            roots.push(base);
            let mut subv = sub;
            let ghost subg = subv@;
            nodes.append(&mut subv);
            proof {
                assert forall|i: int|
                    0 <= i < nodes@.len() implies (#[trigger] nodes@[i]).element_id == i + 1
                        && 1 <= nodes@[i].root_id <= nodes@.len() by {
                    if i >= oldn.len() {
                        assert(nodes@[i] == subg[i - oldn.len()]);
                    } else {
                        assert(nodes@[i] == oldn[i]);
                    }
                }
                assert forall|i: int|
                    0 <= i < nodes@.len() && (#[trigger] nodes@[i]).parent_id is Some implies 1
                        <= nodes@[i].parent_id->Some_0 < i + 1 by {
                    if i >= oldn.len() {
                        assert(nodes@[i] == subg[i - oldn.len()]);
                    } else {
                        assert(nodes@[i] == oldn[i]);
                    }
                }
                assert forall|i: int, m: int|
                    0 <= i < nodes@.len() && 0 <= m < nodes@[i].children_ids@.len() implies i
                        + 1 < (#[trigger] nodes@[i].children_ids@[m]) <= nodes@.len()
                        && nodes@[nodes@[i].children_ids@[m] - 1].parent_id == Some(
                        (i + 1) as usize,
                    ) && nodes@[nodes@[i].children_ids@[m] - 1].root_id
                        == nodes@[i].root_id by {
                    if i >= oldn.len() {
                        assert(nodes@[i] == subg[i - oldn.len()]);
                        let c = nodes@[i].children_ids@[m] - base;
                        assert(subg[i - oldn.len()].children_ids@[m]
                            == nodes@[i].children_ids@[m]);
                        assert(nodes@[c + base - 1] == subg[c]);
                    } else {
                        assert(nodes@[i] == oldn[i]);
                        let c = nodes@[i].children_ids@[m] - 1;
                        assert(nodes@[c] == oldn[c]);
                    }
                }
                assert forall|m: int|
                    0 <= m < roots@.len() implies 1 <= (#[trigger] roots@[m]) <= nodes@.len()
                        && {
                        let n = nodes@[roots@[m] - 1];
                        &&& n.region == page.elements@[m].region
                        &&& n.element is Block
                        &&& n.parent_id is None
                        &&& n.root_id == roots@[m]
                    } by {
                    if m < oldr.len() {
                        assert(roots@[m] == oldr[m]);
                        assert(nodes@[roots@[m] - 1] == oldn[roots@[m] - 1]);
                    } else {
                        assert(roots@[m] == base);
                        assert(nodes@[base - 1] == subg[0]);
                    }
                }
                assert forall|i: int|
                    0 <= i < nodes@.len() implies (((#[trigger] nodes@[i]).parent_id is None)
                        <==> (nodes@[i].root_id == i + 1)) by {
                    if i >= oldn.len() {
                        assert(nodes@[i] == subg[i - oldn.len()]);
                    } else {
                        assert(nodes@[i] == oldn[i]);
                    }
                }
                assert forall|i: int|
                    0 <= i < nodes@.len() implies nodes@[(#[trigger] nodes@[i]).root_id
                        - 1].parent_id is None && nodes@[nodes@[i].root_id - 1].root_id
                        == nodes@[i].root_id by {
                    if i >= oldn.len() {
                        assert(nodes@[i] == subg[i - oldn.len()]);
                        assert(nodes@[base - 1] == subg[0]);
                    } else {
                        assert(nodes@[i] == oldn[i]);
                        assert(nodes@[oldn[i].root_id - 1] == oldn[oldn[i].root_id - 1]);
                    }
                }
                assert forall|i: int|
                    0 <= i < nodes@.len() && (#[trigger] nodes@[i]).parent_id
                        is Some implies exists|m: int|
                    0 <= m < nodes@[nodes@[i].parent_id->Some_0 - 1].children_ids@.len() && (
                    #[trigger] nodes@[nodes@[i].parent_id->Some_0 - 1].children_ids@[m]) == i
                        + 1 by {
                    if i >= oldn.len() {
                        assert(nodes@[i] == subg[i - oldn.len()]);
                        assert(i - oldn.len() > 0);
                        let q = subg[i - oldn.len()].parent_id->Some_0;
                        let m = choose|m: int|
                            0 <= m < subg[q - base].children_ids@.len() && (#[trigger] subg[q
                                - base].children_ids@[m]) == base + (i - oldn.len());
                        assert(nodes@[q - 1] == subg[q - base]);
                    } else {
                        assert(nodes@[i] == oldn[i]);
                        let q = oldn[i].parent_id->Some_0;
                        let m = choose|m: int|
                            0 <= m < oldn[q - 1].children_ids@.len() && (#[trigger] oldn[q
                                - 1].children_ids@[m]) == i + 1;
                        assert(nodes@[q - 1] == oldn[q - 1]);
                    }
                }
                if nodes@.len() + 1 < usize::MAX - 8 {
                    assert forall|m: int|
                        0 <= m < roots@.len() implies mirrors_at(
                        nodes@,
                        1,
                        (#[trigger] roots@[m]) as int,
                        NodeSrc::B(page.elements@[m].element, page.elements@[m].region),
                    ) by {
                        if m < oldr.len() {
                            assert(roots@[m] == oldr[m]);
                            lemma_mirrors_frame(
                                oldn,
                                1,
                                oldr[m] as int,
                                NodeSrc::B(
                                    page.elements@[m].element,
                                    page.elements@[m].region,
                                ),
                                Seq::empty(),
                                subg,
                            );
                            assert(Seq::<ElementNode>::empty() + oldn + subg =~= nodes@);
                        } else {
                            assert(roots@[m] == base);
                            assert(base + subg.len() < usize::MAX - 8);
                            lemma_mirrors_frame(
                                subg,
                                base as int,
                                base as int,
                                NodeSrc::B(
                                    page.elements@[m].element,
                                    page.elements@[m].region,
                                ),
                                oldn,
                                Seq::empty(),
                            );
                            assert(oldn + subg + Seq::<ElementNode>::empty() =~= nodes@);
                        }
                    }
                }
            }
            k += 1;
        }
        ElementTree { page, root_nodes: roots, nodes }
    }
}

impl ElementTree {
    /// No two sibling regions — children of one node, or two roots —
    /// both contain the position `p`. The grammar produces trees with
    /// this shape; it is what makes position descent deterministic.
    pub open spec fn siblings_disjoint_at(self, p: Position) -> bool {
        let ns = self.nodes@;
        &&& forall|i: int, k1: int, k2: int|
            0 <= i < ns.len() && 0 <= k1 < k2 < ns[i].children_ids@.len() && 1 <= (
            #[trigger] ns[i].children_ids@[k1]) <= ns.len() && 1 <= (
            #[trigger] ns[i].children_ids@[k2]) <= ns.len() ==> !(ns[ns[i].children_ids@[k1]
                - 1].region.spec_contains(p) && ns[ns[i].children_ids@[k2]
                - 1].region.spec_contains(p))
        &&& forall|k1: int, k2: int|
            0 <= k1 < k2 < self.root_nodes@.len() && 1 <= (#[trigger] self.root_nodes@[k1])
                <= ns.len() && 1 <= (#[trigger] self.root_nodes@[k2]) <= ns.len() ==> !(ns[
                self.root_nodes@[k1] - 1].region.spec_contains(p) && ns[self.root_nodes@[k2]
                - 1].region.spec_contains(p))
    }

    /// The node `r` lies on the descent chain from `id` for `p`.
    pub open spec fn on_chain(self, id: int, r: int, p: Position) -> bool
        decreases self.nodes@.len() - id,
        when self.wf() && 1 <= id <= self.nodes@.len()
        via Self::on_chain_decreases
    {
        id == r || match self.first_child_at(self.nodes@[id - 1].children_ids@, 0, p) {
            Some(c) => self.on_chain(c, r, p),
            None => false,
        }
    }

    #[via_fn]
    proof fn on_chain_decreases(self, id: int, r: int, p: Position) {
        self.lemma_first_child_at(self.nodes@[id - 1].children_ids@, 0, p);
        if self.first_child_at(self.nodes@[id - 1].children_ids@, 0, p) is Some {
            let c = self.first_child_at(self.nodes@[id - 1].children_ids@, 0, p)->Some_0;
            let m = choose|m: int|
                0 <= m < self.nodes@[id - 1].children_ids@.len() && (#[trigger] self.nodes@[id
                    - 1].children_ids@[m]) == c;
            assert(id < self.nodes@[id - 1].children_ids@[m] <= self.nodes@.len());
        }
    }

    /// Law: a position descent lands on a node whose region contains the
    /// position, that node has no child containing it, and — when
    /// sibling regions are disjoint — no sibling of any node along the
    /// descent chain below the start contains the position either.
    pub proof fn lemma_descend_exclusive(self, id: int, p: Position)
        requires
            self.wf(),
            1 <= id <= self.nodes@.len(),
            self.nodes@[id - 1].region.spec_contains(p),
            self.siblings_disjoint_at(p),
        ensures
            1 <= self.descend_at(id, p) <= self.nodes@.len(),
            self.nodes@[self.descend_at(id, p) - 1].region.spec_contains(p),
            self.first_child_at(
                self.nodes@[self.descend_at(id, p) - 1].children_ids@,
                0,
                p,
            ) is None,
            self.on_chain(id, self.descend_at(id, p), p),
            forall|a: int|
                1 <= a <= self.nodes@.len() && #[trigger] self.on_chain(id, a, p) && a != id
                    ==> self.nodes@[a - 1].parent_id is Some && (forall|m: int|
                    0 <= m < self.nodes@[self.nodes@[a - 1].parent_id->Some_0
                        - 1].children_ids@.len() && (#[trigger] self.nodes@[self.nodes@[a - 1
                    ].parent_id->Some_0 - 1].children_ids@[m]) != a ==> !self.nodes@[
                        self.nodes@[self.nodes@[a - 1].parent_id->Some_0
                            - 1].children_ids@[m] - 1
                    ].region.spec_contains(p)),
        decreases self.nodes@.len() - id,
    {
        let ns = self.nodes@;
        let cids = ns[id - 1].children_ids@;
        self.lemma_first_child_props(cids, 0, p);
        match self.first_child_at(cids, 0, p) {
            None => {
                assert(self.descend_at(id, p) == id);
                assert(self.on_chain(id, id, p));
            },
            Some(c) => {
                let mc = choose|m: int|
                    0 <= m < cids.len() && (#[trigger] cids[m]) == c && ns[cids[m]
                        - 1].region.spec_contains(p);
                assert(ns[c - 1].parent_id == Some(id as usize));
                self.lemma_descend_exclusive(c, p);
                let r = self.descend_at(id, p);
                assert(r == self.descend_at(c, p));
                assert(self.on_chain(id, r, p));
                // siblings of `c` cannot contain `p`
                assert forall|m: int|
                    0 <= m < cids.len() && (#[trigger] cids[m]) != c implies !ns[cids[m]
                        - 1].region.spec_contains(p) by {
                    if ns[cids[m] - 1].region.spec_contains(p) {
                        if m < mc {
                            assert(!(ns[cids[m] - 1].region.spec_contains(p) && ns[cids[mc]
                                - 1].region.spec_contains(p)));
                        } else {
                            assert(!(ns[cids[mc] - 1].region.spec_contains(p) && ns[cids[m]
                                - 1].region.spec_contains(p)));
                        }
                    }
                }
                assert forall|a: int|
                    1 <= a <= ns.len() && #[trigger] self.on_chain(id, a, p) && a != id implies
                    ns[a - 1].parent_id is Some && (forall|m: int|
                    0 <= m < ns[ns[a - 1].parent_id->Some_0 - 1].children_ids@.len() && (
                    #[trigger] ns[ns[a - 1].parent_id->Some_0 - 1].children_ids@[m]) != a
                        ==> !ns[ns[ns[a - 1].parent_id->Some_0 - 1].children_ids@[m]
                        - 1].region.spec_contains(p)) by {
                    if a == c {
                        assert(ns[a - 1].parent_id == Some(id as usize));
                        assert(ns[ns[a - 1].parent_id->Some_0 - 1].children_ids@ == cids);
                    } else {
                        assert(self.on_chain(c, a, p));
                    }
                }
            },
        }
    }

    /// A found first child contains the position and is one of the ids.
    pub proof fn lemma_first_child_props(self, cids: Seq<usize>, k: int, p: Position)
        ensures
            self.first_child_at(cids, k, p) is Some ==> exists|m: int|
                0 <= m < cids.len() && (#[trigger] cids[m]) == self.first_child_at(
                    cids,
                    k,
                    p,
                )->Some_0 && self.nodes@[cids[m] - 1].region.spec_contains(p) && 1 <= cids[m]
                    <= self.nodes@.len(),
        decreases cids.len() - k,
    {
        if 0 <= k < cids.len() {
            if !(1 <= cids[k] <= self.nodes@.len() && self.nodes@[cids[k]
                - 1].region.spec_contains(p)) {
                self.lemma_first_child_props(cids, k + 1, p);
            }
        }
    }
}

} // verus!
