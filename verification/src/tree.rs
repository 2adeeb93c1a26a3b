//! The immutable syntax tree, built in one pass by replaying the event log.
//!
//! The arena holds every node in pre-order: inner nodes, token leaves and
//! missing-slot leaves. Structure is carried by parent links; a node's slot
//! children are the arena entries whose parent it is, in arena order, trivia
//! excluded. Trivia tokens stay in the arena, so the leaves of the tree cover
//! every character of the text.

use vstd::prelude::*;

use crate::kind::SyntaxKind;
use crate::lexer::{lemma_chained_facts, token_seq_chained, Token};
use crate::parser::Event;
use crate::text::TextRange;

verus! {

/// One arena entry: an inner node, a token leaf or a missing-slot leaf.
#[derive(Clone, Copy, Debug, PartialEq, Eq, Structural)]
pub struct TreeNode {
    pub kind: SyntaxKind,
    pub range: TextRange,
    /// Arena index of the parent; the root points at itself.
    pub parent: usize,
    pub is_leaf: bool,
}

/// The syntax tree: the text it was parsed from and the node arena, root
/// first, in pre-order.
#[derive(Debug)]
pub struct SyntaxTree {
    pub source: Vec<char>,
    pub nodes: Vec<TreeNode>,
}

/// A slot child of a node: a child node, a non-trivia token, or a missing
/// placeholder (kind [`SyntaxKind::Missing`]).
#[derive(Clone, Copy, Debug, PartialEq, Eq, Structural)]
pub struct ChildSlot {
    pub kind: SyntaxKind,
    pub range: TextRange,
}

/// Ranges of the token leaves of the arena, in arena order.
pub open spec fn leaf_ranges(nodes: Seq<TreeNode>) -> Seq<TextRange>
    decreases nodes.len(),
{
    if nodes.len() == 0 {
        Seq::empty()
    } else {
        leaf_ranges(nodes.drop_last()) + (if nodes.last().is_leaf && nodes.last().kind
            != SyntaxKind::Missing {
            seq![nodes.last().range]
        } else {
            Seq::empty()
        })
    }
}

pub proof fn lemma_leaf_ranges_push(nodes: Seq<TreeNode>, n: TreeNode)
    ensures
        leaf_ranges(nodes.push(n)) == leaf_ranges(nodes) + (if n.is_leaf && n.kind
            != SyntaxKind::Missing {
            seq![n.range]
        } else {
            Seq::empty()
        }),
{
    assert(nodes.push(n).drop_last() =~= nodes);
    assert(nodes.push(n).last() == n);
}

/// Ranges of the tokens the `Leaf` events consumed, in log order.
pub open spec fn event_leaf_ranges(log: Seq<Event>, toks: Seq<Token>) -> Seq<TextRange>
    decreases log.len(),
{
    if log.len() == 0 {
        Seq::empty()
    } else {
        event_leaf_ranges(log.drop_last(), toks) + (match log.last() {
            Event::Leaf { token } => seq![toks[token as int].range],
            _ => Seq::empty(),
        })
    }
}

/// `rs` splits `[0, n)` into consecutive pieces with nothing dropped.
pub open spec fn ranges_partition(rs: Seq<TextRange>, n: int) -> bool {
    &&& (n == 0 ==> rs.len() == 0)
    &&& (n > 0 ==> rs.len() > 0 && rs[0].start == 0 && rs[rs.len() - 1].end == n)
    &&& forall|k1: int, k2: int|
        0 <= k1 && k2 == k1 + 1 && k2 < rs.len() ==> (#[trigger] rs[k1]).end == (
        #[trigger] rs[k2]).start
    &&& forall|k: int| 0 <= k < rs.len() ==> (#[trigger] rs[k]).start <= rs[k].end
}

/// The well-formedness the builder guarantees: a root that spans the whole
/// text stands first, and parent links are in bounds.
pub open spec fn tree_wf(t: SyntaxTree) -> bool {
    &&& t.nodes@.len() >= 1
    &&& !t.nodes@[0].is_leaf
    &&& t.nodes@[0].range == (TextRange { start: 0, end: t.source@.len() as usize })
    &&& forall|j: int|
        0 <= j < t.nodes@.len() ==> (#[trigger] t.nodes@[j]).parent < t.nodes@.len()
    &&& forall|j: int|
        0 <= j < t.nodes@.len() ==> (#[trigger] t.nodes@[j]).range.start <= t.nodes@[j].range.end
            <= t.source@.len()
}

/// The slot children of node `idx`: entries whose parent is `idx`, trivia
/// excluded, in arena (that is, source) order.
pub open spec fn slot_children_of(nodes: Seq<TreeNode>, idx: int) -> Seq<ChildSlot>
    decreases nodes.len(),
{
    if nodes.len() == 0 {
        Seq::empty()
    } else {
        slot_children_of(nodes.drop_last(), idx) + (if nodes.last().parent == idx && nodes.len()
            - 1 != idx && !nodes.last().kind.spec_is_trivia() {
            seq![ChildSlot { kind: nodes.last().kind, range: nodes.last().range }]
        } else {
            Seq::empty()
        })
    }
}

impl SyntaxTree {
    pub open spec fn wf(&self) -> bool {
        tree_wf(*self)
    }

    /// Number of arena entries.
    pub fn len(&self) -> (n: usize)
        ensures
            n == self.nodes@.len(),
    {
        self.nodes.len()
    }

    /// Text of the given range of the source.
    pub fn text_of(&self, range: TextRange) -> (r: Vec<char>)
        requires
            range.start <= range.end <= self.source@.len(),
        ensures
            r@ == self.source@.subrange(range.start as int, range.end as int),
    {
        let mut r: Vec<char> = Vec::new();
        let mut i = range.start;
        while i < range.end
            invariant
                range.start <= i <= range.end <= self.source@.len(),
                r@ == self.source@.subrange(range.start as int, i as int),
            decreases range.end - i,
        {
            r.push(self.source[i]);
            proof {
                assert(r@ =~= self.source@.subrange(range.start as int, i + 1));
            }
            i = i + 1;
        }
        r
    }

    /// The slot children of node `idx`, in source order.
    pub fn slot_children(&self, idx: usize) -> (r: Vec<ChildSlot>)
        ensures
            r@ == slot_children_of(self.nodes@, idx as int),
    {
        let mut r: Vec<ChildSlot> = Vec::new();
        let mut j: usize = 0;
        while j < self.nodes.len()
            invariant
                j <= self.nodes@.len(),
                r@ == slot_children_of(self.nodes@.subrange(0, j as int), idx as int),
            decreases self.nodes@.len() - j,
        {
            let n = self.nodes[j];
            proof {
                assert(self.nodes@.subrange(0, j + 1).drop_last() =~= self.nodes@.subrange(
                    0,
                    j as int,
                ));
                assert(self.nodes@.subrange(0, j + 1).last() == n);
            }
            if n.parent == idx && j != idx && !n.kind.is_trivia() {
                r.push(ChildSlot { kind: n.kind, range: n.range });
            }
            j = j + 1;
        }
        proof {
            assert(self.nodes@.subrange(0, self.nodes@.len() as int) =~= self.nodes@);
        }
        r
    }

    /// References of all nodes of `kind`, in source order.
    pub fn nodes_of_kind(&self, kind: SyntaxKind) -> (r: Vec<SyntaxNodeRef>)
        ensures
            refs_view(r@) == nodes_of_kind_view(self.nodes@, kind),
    {
        let mut r: Vec<SyntaxNodeRef> = Vec::new();
        let mut j: usize = 0;
        while j < self.nodes.len()
            invariant
                j <= self.nodes@.len(),
                refs_view(r@) == nodes_of_kind_upto(self.nodes@, kind, j as int),
            decreases self.nodes@.len() - j,
        {
            let n = self.nodes[j];
            if n.kind == kind && !n.is_leaf {
                let node_ref = SyntaxNodeRef {
                    index: j,
                    kind: n.kind,
                    range: n.range,
                    children: self.slot_children(j),
                };
                let ghost before = r@;
                let ghost nrv = node_ref@;
                proof {
                    assert(nrv == ref_at(self.nodes@, j as int));
                }
                r.push(node_ref);
                proof {
                    assert(refs_view(r@) =~= refs_view(before).push(nrv));
                    assert(refs_view(r@) =~= nodes_of_kind_upto(self.nodes@, kind, j + 1));
                }
            } else {
                proof {
                    assert(refs_view(r@) =~= nodes_of_kind_upto(self.nodes@, kind, j + 1));
                }
            }
            j = j + 1;
        }
        r
    }

    /// A copy of the tree, equal node for node.
    pub fn duplicate(&self) -> (r: SyntaxTree)
        ensures
            r.source@ == self.source@,
            r.nodes@ == self.nodes@,
    {
        let mut source: Vec<char> = Vec::new();
        let mut i: usize = 0;
        while i < self.source.len()
            invariant
                i <= self.source@.len(),
                source@ == self.source@.subrange(0, i as int),
            decreases self.source@.len() - i,
        {
            source.push(self.source[i]);
            proof {
                assert(source@ =~= self.source@.subrange(0, i + 1));
            }
            i = i + 1;
        }
        let mut nodes: Vec<TreeNode> = Vec::new();
        let mut j: usize = 0;
        while j < self.nodes.len()
            invariant
                j <= self.nodes@.len(),
                nodes@ == self.nodes@.subrange(0, j as int),
            decreases self.nodes@.len() - j,
        {
            nodes.push(self.nodes[j]);
            proof {
                assert(nodes@ =~= self.nodes@.subrange(0, j + 1));
            }
            j = j + 1;
        }
        proof {
            assert(source@ =~= self.source@.subrange(0, self.source@.len() as int));
            assert(self.source@.subrange(0, self.source@.len() as int) =~= self.source@);
            assert(self.nodes@.subrange(0, self.nodes@.len() as int) =~= self.nodes@);
        }
        SyntaxTree { source, nodes }
    }

    /// Whether the trees are equal, node for node and character for
    /// character. This equality drives the incremental cutoff.
    pub fn equals(&self, other: &SyntaxTree) -> (r: bool)
        ensures
            r == (self.source@ == other.source@ && self.nodes@ == other.nodes@),
    {
        if !crate::text::chars_eq(&self.source, &other.source) {
            return false;
        }
        if self.nodes.len() != other.nodes.len() {
            return false;
        }
        let mut j: usize = 0;
        while j < self.nodes.len()
            invariant
                j <= self.nodes@.len(),
                self.nodes@.len() == other.nodes@.len(),
                self.nodes@.subrange(0, j as int) == other.nodes@.subrange(0, j as int),
            decreases self.nodes@.len() - j,
        {
            if !(self.nodes[j] == other.nodes[j]) {
                return false;
            }
            proof {
                assert(self.nodes@.subrange(0, j + 1) =~= other.nodes@.subrange(0, j + 1));
            }
            j = j + 1;
        }
        proof {
            assert(self.nodes@.subrange(0, self.nodes@.len() as int) =~= self.nodes@);
            assert(other.nodes@.subrange(0, other.nodes@.len() as int) =~= other.nodes@);
        }
        true
    }
}

/// A detached view of one node: its arena index, kind, range and slot
/// children. Queries return lists of these, in source order.
#[derive(Debug)]
pub struct SyntaxNodeRef {
    pub index: usize,
    pub kind: SyntaxKind,
    pub range: TextRange,
    pub children: Vec<ChildSlot>,
}

/// Mathematical image of a [`SyntaxNodeRef`].
pub struct SyntaxNodeRefView {
    pub index: int,
    pub kind: SyntaxKind,
    pub range: TextRange,
    pub children: Seq<ChildSlot>,
}

impl View for SyntaxNodeRef {
    type V = SyntaxNodeRefView;

    open spec fn view(&self) -> SyntaxNodeRefView {
        SyntaxNodeRefView {
            index: self.index as int,
            kind: self.kind,
            range: self.range,
            children: self.children@,
        }
    }
}

/// The images of a list of node references.
pub open spec fn refs_view(s: Seq<SyntaxNodeRef>) -> Seq<SyntaxNodeRefView> {
    s.map(|i: int, n: SyntaxNodeRef| n@)
}

/// The reference of node `j` of the arena.
pub open spec fn ref_at(nodes: Seq<TreeNode>, j: int) -> SyntaxNodeRefView {
    SyntaxNodeRefView {
        index: j,
        kind: nodes[j].kind,
        range: nodes[j].range,
        children: slot_children_of(nodes, j),
    }
}

/// References of the nodes of the given kind among the first `j` arena
/// entries, in arena (source) order.
pub open spec fn nodes_of_kind_upto(nodes: Seq<TreeNode>, kind: SyntaxKind, j: int) -> Seq<
    SyntaxNodeRefView,
>
    decreases j,
{
    if j <= 0 {
        Seq::empty()
    } else {
        nodes_of_kind_upto(nodes, kind, j - 1) + (if nodes[j - 1].kind == kind && !nodes[j
            - 1].is_leaf {
            seq![ref_at(nodes, j - 1)]
        } else {
            Seq::empty()
        })
    }
}

/// References of all nodes of the given kind, in source order.
pub open spec fn nodes_of_kind_view(nodes: Seq<TreeNode>, kind: SyntaxKind) -> Seq<
    SyntaxNodeRefView,
> {
    nodes_of_kind_upto(nodes, kind, nodes.len() as int)
}

/// The references whose range lies inside `range`, order kept.
pub open spec fn refs_in_range_view(s: Seq<SyntaxNodeRefView>, range: TextRange) -> Seq<
    SyntaxNodeRefView,
>
    decreases s.len(),
{
    if s.len() == 0 {
        Seq::empty()
    } else {
        refs_in_range_view(s.drop_last(), range) + (if range.spec_contains_range(
            s.last().range,
        ) {
            seq![s.last()]
        } else {
            Seq::empty()
        })
    }
}

/// The range query keeps only elements of the unfiltered query, each inside
/// the query range, their order untouched (their arena indices stay
/// increasing).
pub proof fn lemma_range_query_subset(s: Seq<SyntaxNodeRefView>, range: TextRange)
    ensures
        refs_in_range_view(s, range).len() <= s.len(),
        forall|i: int|
            0 <= i < refs_in_range_view(s, range).len() ==> s.contains(
                #[trigger] refs_in_range_view(s, range)[i],
            ) && range.spec_contains_range(refs_in_range_view(s, range)[i].range),
        (forall|i: int, j: int|
            0 <= i < j < s.len() ==> (#[trigger] s[i]).index < (#[trigger] s[j]).index) ==> (
        forall|i: int, j: int|
            0 <= i < j < refs_in_range_view(s, range).len() ==> (#[trigger] refs_in_range_view(
                s,
                range,
            )[i]).index < (#[trigger] refs_in_range_view(s, range)[j]).index),
    decreases s.len(),
{
    if s.len() == 0 {
    } else {
        lemma_range_query_subset(s.drop_last(), range);
        let prev = refs_in_range_view(s.drop_last(), range);
        let whole = refs_in_range_view(s, range);
        assert forall|i: int| 0 <= i < whole.len() implies s.contains(#[trigger] whole[i])
            && range.spec_contains_range(whole[i].range) by {
            if i < prev.len() {
                assert(whole[i] == prev[i]);
                assert(s.drop_last().contains(prev[i]));
                let w = choose|k: int| 0 <= k < s.drop_last().len() && s.drop_last()[k] == prev[i];
                assert(s[w] == prev[i]);
            } else {
                assert(whole[i] == s.last());
                assert(s[s.len() - 1] == s.last());
            }
        }
        if forall|i: int, j: int|
            0 <= i < j < s.len() ==> (#[trigger] s[i]).index < (#[trigger] s[j]).index {
            assert forall|i: int, j: int|
                0 <= i < j < whole.len() implies (#[trigger] whole[i]).index < (
            #[trigger] whole[j]).index by {
                if j < prev.len() {
                    assert(whole[i] == prev[i] && whole[j] == prev[j]);
                } else {
                    assert(whole[j] == s.last());
                    assert(whole[i] == prev[i]);
                    assert(s.drop_last().contains(prev[i]));
                    let w = choose|k: int|
                        0 <= k < s.drop_last().len() && s.drop_last()[k] == prev[i];
                    assert(s[w] == prev[i]);
                    assert(s[w].index < s[s.len() - 1].index);
                }
            }
        }
    }
}

/// Slot children carry ranges of arena nodes, so they stay inside the
/// source.
pub proof fn lemma_slot_children_ranges(nodes: Seq<TreeNode>, idx: int, n: int)
    requires
        forall|j: int|
            0 <= j < nodes.len() ==> (#[trigger] nodes[j]).range.start <= nodes[j].range.end
                <= n,
    ensures
        forall|c: int|
            0 <= c < slot_children_of(nodes, idx).len() ==> (#[trigger] slot_children_of(
                nodes,
                idx,
            )[c]).range.start <= slot_children_of(nodes, idx)[c].range.end <= n,
    decreases nodes.len(),
{
    if nodes.len() > 0 {
        lemma_slot_children_ranges(nodes.drop_last(), idx, n);
        assert forall|j: int|
            0 <= j < nodes.drop_last().len() implies (#[trigger] nodes.drop_last()[j]).range.start
            <= nodes.drop_last()[j].range.end <= n by {
            assert(nodes.drop_last()[j] == nodes[j]);
        }
    }
}

/// References of a kind query carry ranges of arena nodes, so they and their
/// slots stay inside the source.
pub proof fn lemma_nodes_of_kind_in_source(nodes: Seq<TreeNode>, kind: SyntaxKind, j: int, n: int)
    requires
        j <= nodes.len(),
        forall|i: int|
            0 <= i < nodes.len() ==> (#[trigger] nodes[i]).range.start <= nodes[i].range.end
                <= n,
    ensures
        forall|a: int|
            0 <= a < nodes_of_kind_upto(nodes, kind, j).len() ==> {
                let r = #[trigger] nodes_of_kind_upto(nodes, kind, j)[a];
                &&& r.range.start <= r.range.end <= n
                &&& forall|c: int|
                    0 <= c < r.children.len() ==> (#[trigger] r.children[c]).range.start
                        <= r.children[c].range.end <= n
            },
    decreases j,
{
    if j > 0 {
        lemma_nodes_of_kind_in_source(nodes, kind, j - 1, n);
        if nodes[j - 1].kind == kind && !nodes[j - 1].is_leaf {
            lemma_slot_children_ranges(nodes, j - 1, n);
        }
    }
}

/// The unfiltered kind query lists nodes in strictly increasing arena
/// (source) order.
pub proof fn lemma_nodes_of_kind_increasing(nodes: Seq<TreeNode>, kind: SyntaxKind, j: int)
    requires
        j <= nodes.len(),
    ensures
        forall|a: int, b: int|
            0 <= a < b < nodes_of_kind_upto(nodes, kind, j).len() ==> (
            #[trigger] nodes_of_kind_upto(nodes, kind, j)[a]).index < (#[trigger] nodes_of_kind_upto(
                nodes,
                kind,
                j,
            )[b]).index,
        forall|a: int|
            0 <= a < nodes_of_kind_upto(nodes, kind, j).len() ==> (#[trigger] nodes_of_kind_upto(
                nodes,
                kind,
                j,
            )[a]).index < j,
    decreases j,
{
    if j > 0 {
        lemma_nodes_of_kind_increasing(nodes, kind, j - 1);
    }
}

/// A copy of a node-reference list, element for element.
pub fn copy_refs(refs: &Vec<SyntaxNodeRef>) -> (r: Vec<SyntaxNodeRef>)
    ensures
        refs_view(r@) == refs_view(refs@),
{
    let mut r: Vec<SyntaxNodeRef> = Vec::new();
    let mut i: usize = 0;
    while i < refs.len()
        invariant
            i <= refs@.len(),
            refs_view(r@) == refs_view(refs@.subrange(0, i as int)),
        decreases refs@.len() - i,
    {
        let n = &refs[i];
        let mut children: Vec<ChildSlot> = Vec::new();
        let mut c: usize = 0;
        while c < n.children.len()
            invariant
                c <= n.children@.len(),
                children@ == n.children@.subrange(0, c as int),
            decreases n.children@.len() - c,
        {
            children.push(n.children[c]);
            proof {
                assert(children@ =~= n.children@.subrange(0, c + 1));
            }
            c = c + 1;
        }
        proof {
            assert(children@ =~= n.children@.subrange(0, n.children@.len() as int));
            assert(n.children@.subrange(0, n.children@.len() as int) =~= n.children@);
        }
        let copied = SyntaxNodeRef { index: n.index, kind: n.kind, range: n.range, children };
        let ghost before = r@;
        let ghost cv = copied@;
        r.push(copied);
        proof {
            assert(refs_view(r@) =~= refs_view(before).push(cv));
            assert(refs_view(refs@.subrange(0, i + 1)) =~= refs_view(
                refs@.subrange(0, i as int),
            ).push(refs@[i as int]@));
        }
        i = i + 1;
    }
    proof {
        assert(refs@.subrange(0, refs@.len() as int) =~= refs@);
    }
    r
}

/// Whether two node-reference lists are equal, element for element.
pub fn refs_eq(a: &Vec<SyntaxNodeRef>, b: &Vec<SyntaxNodeRef>) -> (r: bool)
    ensures
        r == (refs_view(a@) == refs_view(b@)),
{
    if a.len() != b.len() {
        proof {
            assert(refs_view(a@).len() == a@.len());
            assert(refs_view(b@).len() == b@.len());
        }
        return false;
    }
    let mut i: usize = 0;
    while i < a.len()
        invariant
            i <= a@.len(),
            a@.len() == b@.len(),
            forall|k: int| 0 <= k < i ==> #[trigger] refs_view(a@)[k] == refs_view(b@)[k],
        decreases a@.len() - i,
    {
        let x = &a[i];
        let y = &b[i];
        if x.index != y.index || x.kind != y.kind || !(x.range == y.range) {
            proof {
                assert(refs_view(a@)[i as int] != refs_view(b@)[i as int]);
            }
            return false;
        }
        if x.children.len() != y.children.len() {
            proof {
                assert(refs_view(a@)[i as int] != refs_view(b@)[i as int]);
            }
            return false;
        }
        let mut c: usize = 0;
        while c < x.children.len()
            invariant
                c <= x.children@.len(),
                x.children@.len() == y.children@.len(),
                x == &a[i as int],
                y == &b[i as int],
                i < a@.len(),
                a@.len() == b@.len(),
                forall|k: int| 0 <= k < c ==> #[trigger] x.children@[k] == y.children@[k],
            decreases x.children@.len() - c,
        {
            if !(x.children[c] == y.children[c]) {
                proof {
                    assert(x.children@[c as int] != y.children@[c as int]);
                    assert(refs_view(a@)[i as int] != refs_view(b@)[i as int]);
                }
                return false;
            }
            c = c + 1;
        }
        proof {
            assert(x.children@ =~= y.children@);
            assert(refs_view(a@)[i as int] == refs_view(b@)[i as int]);
        }
        i = i + 1;
    }
    proof {
        assert(refs_view(a@) =~= refs_view(b@));
    }
    true
}

/// The elements whose range lies inside `range`, order kept.
pub fn filter_refs_in_range(refs: &Vec<SyntaxNodeRef>, range: TextRange) -> (r: Vec<
    SyntaxNodeRef,
>)
    ensures
        refs_view(r@) == refs_in_range_view(refs_view(refs@), range),
{
    let mut r: Vec<SyntaxNodeRef> = Vec::new();
    let mut i: usize = 0;
    while i < refs.len()
        invariant
            i <= refs@.len(),
            refs_view(r@) == refs_in_range_view(refs_view(refs@.subrange(0, i as int)), range),
        decreases refs@.len() - i,
    {
        proof {
            assert(refs_view(refs@.subrange(0, i + 1)).drop_last() =~= refs_view(
                refs@.subrange(0, i as int),
            ));
            assert(refs_view(refs@.subrange(0, i + 1)).last() == refs@[i as int]@);
        }
        if range.contains_range(&refs[i].range) {
            let singleton = copy_refs_one(refs, i);
            let ghost before = r@;
            let ghost cv = singleton@;
            r.push(singleton);
            proof {
                assert(refs_view(r@) =~= refs_view(before).push(cv));
                assert(refs_view(r@) =~= refs_in_range_view(
                    refs_view(refs@.subrange(0, i + 1)),
                    range,
                ));
            }
        } else {
            proof {
                assert(refs_view(r@) =~= refs_in_range_view(
                    refs_view(refs@.subrange(0, i + 1)),
                    range,
                ));
            }
        }
        i = i + 1;
    }
    proof {
        assert(refs@.subrange(0, refs@.len() as int) =~= refs@);
    }
    r
}

/// A copy of one element of a node-reference list.
fn copy_refs_one(refs: &Vec<SyntaxNodeRef>, i: usize) -> (r: SyntaxNodeRef)
    requires
        i < refs@.len(),
    ensures
        r@ == refs@[i as int]@,
{
    let n = &refs[i];
    let mut children: Vec<ChildSlot> = Vec::new();
    let mut c: usize = 0;
    while c < n.children.len()
        invariant
            c <= n.children@.len(),
            children@ == n.children@.subrange(0, c as int),
        decreases n.children@.len() - c,
    {
        children.push(n.children[c]);
        proof {
            assert(children@ =~= n.children@.subrange(0, c + 1));
        }
        c = c + 1;
    }
    proof {
        assert(children@ =~= n.children@.subrange(0, n.children@.len() as int));
        assert(n.children@.subrange(0, n.children@.len() as int) =~= n.children@);
    }
    SyntaxNodeRef { index: n.index, kind: n.kind, range: n.range, children }
}

/// `event_leaf_ranges` is `leaf_tokens` read through the token list.
pub proof fn lemma_event_leaf_ranges_from_tokens(
    log: Seq<Event>,
    toks: Seq<Token>,
    leading: int,
    pos: int,
)
    requires
        crate::parser::leaf_tokens(log) == crate::parser::index_range(leading, pos),
        0 <= leading <= pos <= toks.len(),
    ensures
        event_leaf_ranges(log, toks) == Seq::new(
            (pos - leading) as nat,
            |k: int| toks[leading + k].range,
        ),
    decreases log.len(),
{
    let target = Seq::new((pos - leading) as nat, |k: int| toks[leading + k].range);
    if log.len() == 0 {
        assert(crate::parser::leaf_tokens(log) =~= Seq::<int>::empty());
        assert(pos == leading);
        assert(event_leaf_ranges(log, toks) =~= target);
    } else {
        let l2 = log.drop_last();
        match log.last() {
            Event::Leaf { token } => {
                assert(crate::parser::leaf_tokens(log) == crate::parser::leaf_tokens(l2)
                    + seq![token as int]);
                assert(pos - leading >= 1) by {
                    assert(crate::parser::leaf_tokens(log).len() == (pos - leading));
                }
                assert(token as int == crate::parser::index_range(leading, pos)[pos - leading
                    - 1]);
                assert(token as int == pos - 1);
                assert(crate::parser::leaf_tokens(l2).len() == pos - 1 - leading);
                assert forall|k: int|
                    0 <= k < pos - 1 - leading implies crate::parser::leaf_tokens(l2)[k]
                    == leading + k by {
                    assert(crate::parser::leaf_tokens(l2)[k] == crate::parser::leaf_tokens(
                        log,
                    )[k]);
                    assert(crate::parser::leaf_tokens(log)[k] == crate::parser::index_range(
                        leading,
                        pos,
                    )[k]);
                }
                assert(crate::parser::leaf_tokens(l2) =~= crate::parser::index_range(
                    leading,
                    pos - 1,
                ));
                lemma_event_leaf_ranges_from_tokens(l2, toks, leading, pos - 1);
                assert(event_leaf_ranges(log, toks) =~= target);
            },
            _ => {
                assert(crate::parser::leaf_tokens(log) == crate::parser::leaf_tokens(l2));
                lemma_event_leaf_ranges_from_tokens(l2, toks, leading, pos);
                assert(event_leaf_ranges(log, toks) =~= target);
            },
        }
    }
}

/// The ranges of all tokens but the end-of-file token split `[0, n)`.
pub proof fn lemma_token_ranges_partition(toks: Seq<Token>, n: int)
    requires
        token_seq_chained(toks, 0, n),
        0 <= n <= usize::MAX,
    ensures
        ranges_partition(Seq::new((toks.len() - 1) as nat, |k: int| toks[k].range), n),
{
    reveal(token_seq_chained);
    let rs = Seq::new((toks.len() - 1) as nat, |k: int| toks[k].range);
    if toks.len() == 1 {
        assert(toks[0] == crate::lexer::eof_token(n));
        assert(toks[0].range.start == 0);
        assert(n == 0);
    } else {
        assert(rs[rs.len() - 1].end == n) by {
            assert(toks[toks.len() - 1] == crate::lexer::eof_token(n));
            assert(toks[toks.len() - 2].range.end == toks[toks.len() - 1].range.start);
        }
        assert(n > 0) by {
            assert(toks[0].range.start < toks[0].range.end <= n);
        }
    }
}

/// Replays the event log into the arena tree. The first event must be the
/// start of the root node.
#[verifier::loop_isolation(false)]
pub fn build_tree(source: Vec<char>, tokens: &Vec<Token>, leading: usize, events: &Vec<Event>) -> (t:
    SyntaxTree)
    requires
        token_seq_chained(tokens@, 0, source@.len() as int),
        leading < tokens@.len(),
        events@.len() >= 1,
        (events@[0] matches Event::Start { kind, forward_parent, .. } && kind
            != SyntaxKind::Tombstone && forward_parent is None),
        forall|j: int|
            0 <= j < events@.len() ==> match #[trigger] events@[j] {
                Event::Leaf { token } => token < tokens@.len() - 1,
                _ => true,
            },
        forall|j: int|
            0 <= j < events@.len() ==> match #[trigger] events@[j] {
                Event::Start { forward_parent: Some(t), .. } => j < t < events@.len(),
                _ => true,
            },
        forall|j: int|
            0 <= j < events@.len() ==> match #[trigger] events@[j] {
                Event::Start { range, .. } => range.start <= range.end <= source@.len(),
                _ => true,
            },
    ensures
        t.wf(),
        t.source@ == source@,
        (events@[0] matches Event::Start { kind, .. } ==> t.nodes@[0].kind == kind),
        leaf_ranges(t.nodes@) == Seq::new(leading as nat, |k: int| tokens@[k].range)
            + event_leaf_ranges(events@, tokens@),
{
    let n = source.len();
    let ghost prefix = Seq::new(leading as nat, |k: int| tokens@[k].range);
    let mut nodes: Vec<TreeNode> = Vec::new();
    let mut stack: Vec<usize> = Vec::new();
    let mut claimed: Vec<bool> = vec![false; events.len()];
    let root_kind = match events[0] {
        Event::Start { kind, .. } => kind,
        _ => SyntaxKind::JsRoot,
    };
    let root_node = TreeNode {
        kind: root_kind,
        range: TextRange { start: 0, end: n },
        parent: 0,
        is_leaf: false,
    };
    nodes.push(root_node);
    stack.push(0);
    let mut offset: usize = 0;
    let mut tix: usize = 0;
    proof {
        assert(leaf_ranges(Seq::<TreeNode>::empty()) =~= Seq::<TextRange>::empty());
        lemma_leaf_ranges_push(Seq::<TreeNode>::empty(), root_node);
        assert(Seq::<TreeNode>::empty().push(root_node) =~= nodes@);
        assert(leaf_ranges(nodes@) =~= prefix.subrange(0, 0));
    }
    while tix < leading
        invariant
            tix <= leading,
            nodes@.len() == 1 + tix,
            nodes@[0].kind == root_kind,
            !nodes@[0].is_leaf,
            nodes@[0].range == (TextRange { start: 0, end: n }),
            stack@ =~= seq![0usize],
            leaf_ranges(nodes@) == prefix.subrange(0, tix as int),
            forall|j: int|
                0 <= j < nodes@.len() ==> (#[trigger] nodes@[j]).parent < nodes@.len(),
            forall|j: int|
                0 <= j < nodes@.len() ==> (#[trigger] nodes@[j]).range.start
                    <= nodes@[j].range.end <= n,
            offset <= n,
        decreases leading - tix,
    {
        proof {
            lemma_chained_facts(tokens@, 0, source@.len() as int, tix as int);
        }
        let tok = tokens[tix];
        proof {
            lemma_leaf_ranges_push(
                nodes@,
                TreeNode { kind: tok.kind, range: tok.range, parent: 0, is_leaf: true },
            );
            assert(prefix.subrange(0, tix as int) + seq![tok.range] =~= prefix.subrange(
                0,
                tix + 1,
            ));
        }
        nodes.push(TreeNode { kind: tok.kind, range: tok.range, parent: 0, is_leaf: true });
        offset = tok.range.end;
        tix = tix + 1;
    }
    proof {
        assert(prefix.subrange(0, leading as int) =~= prefix);
        assert(event_leaf_ranges(events@.subrange(0, 1), tokens@) =~= Seq::<TextRange>::empty())
            by {
            assert(events@.subrange(0, 1).drop_last() =~= events@.subrange(0, 0));
            assert(event_leaf_ranges(events@.subrange(0, 0), tokens@)
                =~= Seq::<TextRange>::empty());
            assert(events@.subrange(0, 1).last() == events@[0]);
        }
        assert(leaf_ranges(nodes@) =~= prefix + event_leaf_ranges(
            events@.subrange(0, 1),
            tokens@,
        ));
    }
    let mut i: usize = 1;
    while i < events.len()
        invariant
            1 <= i <= events@.len(),
            claimed@.len() == events@.len(),
            nodes@.len() >= 1,
            nodes@[0].kind == root_kind,
            !nodes@[0].is_leaf,
            nodes@[0].range == (TextRange { start: 0, end: n }),
            leaf_ranges(nodes@) == prefix + event_leaf_ranges(
                events@.subrange(0, i as int),
                tokens@,
            ),
            forall|k: int| 0 <= k < stack@.len() ==> (#[trigger] stack@[k]) < nodes@.len(),
            forall|j: int|
                0 <= j < nodes@.len() ==> (#[trigger] nodes@[j]).parent < nodes@.len(),
            forall|j: int|
                0 <= j < nodes@.len() ==> (#[trigger] nodes@[j]).range.start
                    <= nodes@[j].range.end <= n,
            offset <= n,
        decreases events@.len() - i,
    {
        let ev = events[i];
        let ghost nodes0 = nodes@;
        match ev {
            Event::Start { kind, forward_parent, range } => {
                if kind != SyntaxKind::Tombstone && !claimed[i] {
                    let mut chain: Vec<(SyntaxKind, TextRange)> = Vec::new();
                    chain.push((kind, range));
                    let mut cur = i;
                    let mut fp = forward_parent;
                    #[verifier::loop_isolation(true)]
                    loop
                        invariant_except_break
                            i <= cur < events@.len(),
                            claimed@.len() == events@.len(),
                            n == source@.len(),
                            forall|j: int|
                                0 <= j < events@.len() ==> match #[trigger] events@[j] {
                                    Event::Start { forward_parent: Some(t), .. } => j < t
                                        < events@.len(),
                                    _ => true,
                                },
                            forall|j: int|
                                0 <= j < events@.len() ==> match #[trigger] events@[j] {
                                    Event::Start { range, .. } => range.start <= range.end
                                        <= source@.len(),
                                    _ => true,
                                },
                            (events@[cur as int] matches Event::Start { forward_parent: f, .. }
                                && fp == f),
                            forall|c: int|
                                0 <= c < chain@.len() ==> (#[trigger] chain@[c]).1.start
                                    <= chain@[c].1.end <= n,
                            chain@.len() >= 1,
                        ensures
                            claimed@.len() == events@.len(),
                            forall|c: int|
                                0 <= c < chain@.len() ==> (#[trigger] chain@[c]).1.start
                                    <= chain@[c].1.end <= n,
                            chain@.len() >= 1,
                        decreases events@.len() - cur,
                    {
                        match fp {
                            Some(t) => {
                                if t < events.len() && !claimed[t] {
                                    let target = events[t];
                                    match target {
                                        Event::Start {
                                            kind: k2,
                                            forward_parent: fp2,
                                            range: r2,
                                        } => {
                                            if k2 != SyntaxKind::Tombstone {
                                                chain.push((k2, r2));
                                                claimed[t] = true;
                                                cur = t;
                                                fp = fp2;
                                            } else {
                                                break ;
                                            }
                                        },
                                        _ => {
                                            break ;
                                        },
                                    }
                                } else {
                                    break ;
                                }
                            },
                            None => {
                                break ;
                            },
                        }
                    }
                    let mut c = chain.len();
                    while c > 0
                        invariant
                            c <= chain@.len(),
                            nodes@.len() >= 1,
                            nodes@[0].kind == root_kind,
                            !nodes@[0].is_leaf,
                            nodes@[0].range == (TextRange { start: 0, end: n }),
                            leaf_ranges(nodes@) == leaf_ranges(nodes0),
                            forall|k: int|
                                0 <= k < stack@.len() ==> (#[trigger] stack@[k]) < nodes@.len(),
                            forall|j: int|
                                0 <= j < nodes@.len() ==> (#[trigger] nodes@[j]).parent
                                    < nodes@.len(),
                            forall|j: int|
                                0 <= j < nodes@.len() ==> (#[trigger] nodes@[j]).range.start
                                    <= nodes@[j].range.end <= n,
                        decreases c,
                    {
                        c = c - 1;
                        let (k2, r2) = chain[c];
                        let parent = if stack.len() > 0 {
                            stack[stack.len() - 1]
                        } else {
                            0
                        };
                        let idx = nodes.len();
                        proof {
                            lemma_leaf_ranges_push(
                                nodes@,
                                TreeNode { kind: k2, range: r2, parent, is_leaf: false },
                            );
                        }
                        nodes.push(TreeNode { kind: k2, range: r2, parent, is_leaf: false });
                        stack.push(idx);
                    }
                }
            },
            Event::Finish => {
                if stack.len() > 0 {
                    stack.pop();
                }
            },
            Event::Leaf { token } => {
                let tok = tokens[token];
                proof {
                    lemma_chained_facts(tokens@, 0, source@.len() as int, token as int);
                }
                let parent = if stack.len() > 0 {
                    stack[stack.len() - 1]
                } else {
                    0
                };
                proof {
                    lemma_leaf_ranges_push(
                        nodes@,
                        TreeNode { kind: tok.kind, range: tok.range, parent, is_leaf: true },
                    );
                }
                nodes.push(TreeNode { kind: tok.kind, range: tok.range, parent, is_leaf: true });
                offset = tok.range.end;
            },
            Event::Missing => {
                let parent = if stack.len() > 0 {
                    stack[stack.len() - 1]
                } else {
                    0
                };
                proof {
                    lemma_leaf_ranges_push(
                        nodes@,
                        TreeNode {
                            kind: SyntaxKind::Missing,
                            range: TextRange { start: offset, end: offset },
                            parent,
                            is_leaf: true,
                        },
                    );
                }
                nodes.push(
                    TreeNode {
                        kind: SyntaxKind::Missing,
                        range: TextRange { start: offset, end: offset },
                        parent,
                        is_leaf: true,
                    },
                );
            },
        }
        proof {
            assert(events@.subrange(0, i + 1).drop_last() =~= events@.subrange(0, i as int));
            assert(events@.subrange(0, i + 1).last() == events@[i as int]);
            match ev {
                Event::Leaf { token } => {
                    assert(leaf_ranges(nodes@) == leaf_ranges(nodes0) + seq![
                        tokens@[token as int].range,
                    ]);
                    assert(event_leaf_ranges(events@.subrange(0, i + 1), tokens@)
                        == event_leaf_ranges(events@.subrange(0, i as int), tokens@) + seq![
                        tokens@[token as int].range,
                    ]);
                },
                _ => {
                    assert(leaf_ranges(nodes0) + Seq::<TextRange>::empty() =~= leaf_ranges(
                        nodes0,
                    ));
                    assert(leaf_ranges(nodes@) == leaf_ranges(nodes0));
                    assert(event_leaf_ranges(events@.subrange(0, i + 1), tokens@)
                        =~= event_leaf_ranges(events@.subrange(0, i as int), tokens@));
                },
            }
            assert(leaf_ranges(nodes@) =~= prefix + event_leaf_ranges(
                events@.subrange(0, i + 1),
                tokens@,
            ));
        }
        i = i + 1;
    }
    proof {
        assert(events@.subrange(0, events@.len() as int) =~= events@);
    }
    SyntaxTree { source, nodes }
}

} // verus!
