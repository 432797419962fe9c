use vstd::prelude::*;

use crate::rule::Rule;

verus! {

/// One matched production: its rule, the half-open range `[start, end)` of
/// the source characters it covers, and its sub-matches in source order.
pub struct Node {
    pub rule: Rule,
    pub start: usize,
    pub end: usize,
    pub children: Vec<Node>,
}

/// `cs` covers `[a, b)` of a source of length `len` without gap or overlap:
/// each node is non-empty and well formed, and each one starts where the
/// one before it ends.
pub open spec fn tiles(cs: Seq<Node>, a: int, b: int, len: int) -> bool
    decreases cs, cs.len(),
{
    if cs.len() == 0 {
        a == b
    } else {
        let l = cs[cs.len() - 1];
        &&& a <= l.start < l.end
        &&& l.end == b
        &&& wf(l, len)
        &&& tiles(cs.subrange(0, cs.len() - 1), a, l.start as int, len)
    }
}

/// A node is well formed over a source of length `len` when its range lies
/// in the source and, if it has children, they tile its range exactly.
pub open spec fn wf(n: Node, len: int) -> bool
    decreases n, 0int,
{
    &&& n.start <= n.end <= len
    &&& (n.children@.len() > 0 ==> tiles(n.children@, n.start as int, n.end as int, len))
}

/// The text that a node covers in `s`.
pub open spec fn span_text(n: Node, s: Seq<char>) -> Seq<char> {
    s.subrange(n.start as int, n.end as int)
}

/// The concatenation of the text of every leaf under `n`, in source order.
pub open spec fn leaf_text(n: Node, s: Seq<char>) -> Seq<char>
    decreases n, 0int,
{
    if n.children@.len() == 0 {
        span_text(n, s)
    } else {
        leaves_text(n.children@, s)
    }
}

/// The leaf text of a sequence of sibling nodes, in order.
pub open spec fn leaves_text(cs: Seq<Node>, s: Seq<char>) -> Seq<char>
    decreases cs, cs.len(),
{
    if cs.len() == 0 {
        Seq::empty()
    } else {
        leaves_text(cs.subrange(0, cs.len() - 1), s) + leaf_text(cs[cs.len() - 1], s)
    }
}

/// The leaf texts of siblings that tile `[a, b)` join up to the text of `[a, b)`.
pub proof fn lemma_leaves_text(cs: Seq<Node>, s: Seq<char>, a: int, b: int)
    requires
        tiles(cs, a, b, s.len() as int),
        0 <= a <= b <= s.len(),
    ensures
        leaves_text(cs, s) == s.subrange(a, b),
    decreases cs, cs.len(),
{
    if cs.len() == 0 {
        assert(s.subrange(a, b) =~= Seq::<char>::empty());
    } else {
        let l = cs[cs.len() - 1];
        let rest = cs.subrange(0, cs.len() - 1);
        assert(wf(l, s.len() as int));
        lemma_leaves_text(rest, s, a, l.start as int);
        lemma_leaf_text_round_trip(l, s);
        assert(s.subrange(a, l.start as int) + s.subrange(l.start as int, b) =~= s.subrange(a, b));
    }
}

/// Text preservation: for any well-formed node, the concatenation of the text
/// of all its leaves, in source order, is exactly the text that the node spans.
pub proof fn lemma_leaf_text_round_trip(n: Node, s: Seq<char>)
    requires
        wf(n, s.len() as int),
    ensures
        leaf_text(n, s) == span_text(n, s),
    decreases n, 1int,
{
    if n.children@.len() > 0 {
        lemma_leaves_text(n.children@, s, n.start as int, n.end as int);
    }
}

/// Siblings that tile `[a, b)` are each well formed, non-empty and inside `[a, b)`.
pub proof fn lemma_tiles_members(cs: Seq<Node>, a: int, b: int, len: int)
    requires
        tiles(cs, a, b, len),
    ensures
        forall|k: int|
            0 <= k < cs.len() ==> wf(#[trigger] cs[k], len) && a <= cs[k].start < cs[k].end <= b,
    decreases cs.len(),
{
    if cs.len() > 0 {
        let l = cs[cs.len() - 1];
        let rest = cs.subrange(0, cs.len() - 1);
        lemma_tiles_members(rest, a, l.start as int, len);
        assert forall|k: int| 0 <= k < cs.len() implies wf(#[trigger] cs[k], len) && a <= cs[k].start
            < cs[k].end <= b by {
            if k < cs.len() - 1 {
                assert(cs[k] == rest[k]);
            }
        }
    }
}

/// A node with no children.
pub fn leaf(rule: Rule, start: usize, end: usize) -> (r: Node)
    ensures
        r.rule == rule,
        r.start == start,
        r.end == end,
        r.children@.len() == 0,
{
    Node { rule, start, end, children: Vec::new() }
}

/// `a` and `b` are the same tree: same rules and ranges all the way down.
pub open spec fn same(a: Node, b: Node) -> bool
    decreases a, 0int,
{
    &&& a.rule == b.rule
    &&& a.start == b.start
    &&& a.end == b.end
    &&& same_all(a.children@, b.children@)
}

/// Two sequences of sibling nodes are pairwise the same trees.
pub open spec fn same_all(x: Seq<Node>, y: Seq<Node>) -> bool
    decreases x, x.len(),
{
    &&& x.len() == y.len()
    &&& (x.len() > 0 ==> {
        &&& same(x[x.len() - 1], y[y.len() - 1])
        &&& same_all(x.subrange(0, x.len() - 1), y.subrange(0, y.len() - 1))
    })
}

/// Well-formedness depends on the tree alone.
pub proof fn lemma_same_wf(a: Node, b: Node, len: int)
    requires
        same(a, b),
        wf(a, len),
    ensures
        wf(b, len),
    decreases a, 1int,
{
    if a.children@.len() > 0 {
        lemma_same_tiles(a.children@, b.children@, a.start as int, a.end as int, len);
    }
}

proof fn lemma_same_tiles(x: Seq<Node>, y: Seq<Node>, lo: int, hi: int, len: int)
    requires
        same_all(x, y),
        tiles(x, lo, hi, len),
    ensures
        tiles(y, lo, hi, len),
    decreases x, x.len(),
{
    if x.len() > 0 {
        let l = x[x.len() - 1];
        lemma_same_wf(l, y[y.len() - 1], len);
        lemma_same_tiles(x.subrange(0, x.len() - 1), y.subrange(0, y.len() - 1), lo, l.start as int, len);
    }
}

impl Node {
    /// A copy of this node and all of its descendants.
    pub fn duplicate(&self) -> (r: Node)
        ensures
            same(*self, r),
        decreases self,
    {
        let mut cs: Vec<Node> = Vec::new();
        let mut i: usize = 0;
        while i < self.children.len()
            invariant
                i <= self.children@.len(),
                same_all(self.children@.subrange(0, i as int), cs@),
            decreases self.children@.len() - i,
        {
            let c = self.children[i].duplicate();
            let ghost old_cs = cs@;
            cs.push(c);
            i = i + 1;
            assert(self.children@.subrange(0, i as int).subrange(0, i - 1) =~= self.children@.subrange(0, i - 1));
            assert(cs@.subrange(0, i - 1) =~= old_cs);
        }
        assert(self.children@.subrange(0, i as int) =~= self.children@);
        Node { rule: self.rule, start: self.start, end: self.end, children: cs }
    }
}

} // verus!
