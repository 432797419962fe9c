use std::rc::Rc;

use vstd::prelude::*;

use crate::grammar::{fails_at_start, match_at, Markdown, ParseError};
use crate::rule::{rule_name, Rule};
use crate::shape::shaped;
use crate::text::{append_chars, chars_of, text_between};
use crate::describe::{depth, depth_of, describe_list, describe_root, lemma_depth_all_pub, MAX_LEVEL};
use crate::tree::{lemma_same_wf, lemma_tiles_members, same, span_text, wf, Node};

verus! {

/// The positions, in order, of the nodes among `cs[0..j)` whose rule is
/// named `name`.
pub open spec fn named(cs: Seq<Node>, name: Seq<char>, j: int) -> Seq<usize>
    decreases j,
{
    if j <= 0 {
        Seq::empty()
    } else if rule_name(cs[j - 1].rule) == name {
        named(cs, name, j - 1).push((j - 1) as usize)
    } else {
        named(cs, name, j - 1)
    }
}

/// The texts of the nodes of `cs` at positions `idx`, joined in that order.
pub open spec fn concat_spans(cs: Seq<Node>, s: Seq<char>, idx: Seq<usize>) -> Seq<char>
    decreases idx.len(),
{
    if idx.len() == 0 {
        Seq::empty()
    } else {
        concat_spans(cs, s, idx.drop_last()) + span_text(cs[idx.last() as int], s)
    }
}

/// The direct children of `n` whose rule is named `name`, in source order.
pub open spec fn children_named(n: Node, name: Seq<char>) -> Seq<usize> {
    named(n.children@, name, n.children@.len() as int)
}

/// The text of every direct child of `n` whose rule is named `name`, joined
/// in source order.
pub open spec fn rule_text(n: Node, s: Seq<char>, name: Seq<char>) -> Seq<char> {
    concat_spans(n.children@, s, children_named(n, name))
}

/// A query for a rule that no direct child has yields empty text: absence
/// is an ordinary answer, not a failure.
pub proof fn lemma_absent_rule_text(n: Node, s: Seq<char>, name: Seq<char>)
    requires
        forall|k: int| 0 <= k < n.children@.len() ==> rule_name((#[trigger] n.children@[k]).rule) != name,
    ensures
        children_named(n, name).len() == 0,
        rule_text(n, s, name) == Seq::<char>::empty(),
{
    lemma_named_empty(n.children@, name, n.children@.len() as int);
}

/// The children of a node whose rule has one name.
pub struct RuleGroup {
    pub name: String,
    pub members: Vec<usize>,
}

/// Some group of `m` is for `name`.
pub open spec fn has_group(m: Seq<RuleGroup>, name: Seq<char>) -> bool {
    exists|g: int| 0 <= g < m.len() && (#[trigger] m[g]).name@ == name
}

/// `m` indexes `cs[0..j)` by rule name: one group per name, in which the
/// positions of the children of that name stand in order.
pub open spec fn index_ok(m: Seq<RuleGroup>, cs: Seq<Node>, j: int) -> bool {
    &&& forall|g: int| 0 <= g < m.len() ==> (#[trigger] m[g]).members@ == named(cs, m[g].name@, j)
    &&& forall|g: int, h: int| 0 <= g < h < m.len() ==> (#[trigger] m[g]).name@ != (#[trigger] m[h]).name@
    &&& forall|k: int| 0 <= k < j ==> has_group(m, rule_name((#[trigger] cs[k]).rule))
}

proof fn lemma_named_empty(cs: Seq<Node>, name: Seq<char>, j: int)
    requires
        forall|k: int| 0 <= k < j ==> rule_name((#[trigger] cs[k]).rule) != name,
    ensures
        named(cs, name, j) == Seq::<usize>::empty(),
    decreases j,
{
    if j > 0 {
        lemma_named_empty(cs, name, j - 1);
    }
}

proof fn lemma_named_bounds(cs: Seq<Node>, name: Seq<char>, j: int)
    requires
        0 <= j <= cs.len(),
    ensures
        forall|i: int|
            0 <= i < named(cs, name, j).len() ==> #[trigger] named(cs, name, j)[i] < j,
    decreases j,
{
    if j > 0 {
        lemma_named_bounds(cs, name, j - 1);
        let prev = named(cs, name, j - 1);
        if rule_name(cs[j - 1].rule) == name {
            assert forall|i: int| 0 <= i < named(cs, name, j).len() implies #[trigger] named(
                cs,
                name,
                j,
            )[i] < j by {
                if i < prev.len() {
                    assert(named(cs, name, j)[i] == prev[i]);
                }
            }
        }
    }
}

fn copy_of<T: Copy>(v: &Vec<T>) -> (r: Vec<T>)
    ensures
        r@ == v@,
{
    let mut r: Vec<T> = Vec::new();
    let mut i: usize = 0;
    while i < v.len()
        invariant
            i <= v@.len(),
            r@ == v@.subrange(0, i as int),
        decreases v@.len() - i,
    {
        r.push(v[i]);
        i = i + 1;
        assert(r@ =~= v@.subrange(0, i as int));
    }
    assert(r@ =~= v@);
    r
}

/// Files the child at position `j`, whose rule is named `name`, in the
/// group of that name, which it opens if there is none yet.
fn push_rule(mapping: &mut Vec<RuleGroup>, name: String, j: usize, Ghost(cs): Ghost<Seq<Node>>)
    requires
        index_ok(old(mapping)@, cs, j as int),
        j < cs.len(),
        name@ == rule_name(cs[j as int].rule),
    ensures
        index_ok(final(mapping)@, cs, j + 1),
{
    let mut gi: usize = 0;
    while gi < mapping.len() && !(mapping[gi].name == name)
        invariant
            gi <= mapping@.len(),
            forall|h: int| 0 <= h < gi ==> (#[trigger] mapping@[h]).name@ != name@,
        decreases mapping@.len() - gi,
    {
        gi = gi + 1;
    }
    let ghost old_m = mapping@;
    if gi < mapping.len() {
        let mut g = mapping.remove(gi);
        g.members.push(j);
        mapping.insert(gi, g);
        assert(mapping@ =~= old_m.update(gi as int, mapping@[gi as int]));
        assert forall|h: int| 0 <= h < mapping@.len() implies (#[trigger] mapping@[h]).members@
            == named(cs, mapping@[h].name@, j + 1) by {
            if h != gi {
                assert(old_m[h].name@ != old_m[gi as int].name@);
            }
        }
        assert forall|k: int| 0 <= k < j + 1 implies has_group(
            mapping@,
            rule_name((#[trigger] cs[k]).rule),
        ) by {
            if k < j {
                let g2 = choose|g2: int| 0 <= g2 < old_m.len() && (#[trigger] old_m[g2]).name@
                    == rule_name(cs[k].rule);
                assert(mapping@[g2].name@ == old_m[g2].name@);
            } else {
                assert(mapping@[gi as int].name@ == name@);
            }
        }
    } else {
        proof {
            assert forall|k: int| 0 <= k < j implies rule_name((#[trigger] cs[k]).rule)
                != name@ by {
                if rule_name(cs[k].rule) == name@ {
                    let g2 = choose|g2: int| 0 <= g2 < old_m.len() && (#[trigger] old_m[g2]).name@
                        == rule_name(cs[k].rule);
                }
            }
            lemma_named_empty(cs, name@, j as int);
        }
        let mut members: Vec<usize> = Vec::new();
        members.push(j);
        mapping.push(RuleGroup { name, members });
        assert(mapping@[old_m.len() as int].members@ =~= named(cs, name@, j + 1));
        assert forall|h: int| 0 <= h < mapping@.len() implies (#[trigger] mapping@[h]).members@
            == named(cs, mapping@[h].name@, j + 1) by {
            if h < old_m.len() {
                assert(mapping@[h] == old_m[h]);
            }
        }
        assert forall|k: int| 0 <= k < j + 1 implies has_group(
            mapping@,
            rule_name((#[trigger] cs[k]).rule),
        ) by {
            if k < j {
                let g2 = choose|g2: int| 0 <= g2 < old_m.len() && (#[trigger] old_m[g2]).name@
                    == rule_name(cs[k].rule);
                assert(mapping@[g2] == old_m[g2]);
            } else {
                assert(mapping@[old_m.len() as int].name@ == name@);
            }
        }
        assert forall|g: int, h: int| 0 <= g < h < mapping@.len() implies (
        #[trigger] mapping@[g]).name@ != (#[trigger] mapping@[h]).name@ by {
            if h < old_m.len() {
                assert(mapping@[g] == old_m[g]);
                assert(mapping@[h] == old_m[h]);
            } else {
                assert(mapping@[g] == old_m[g]);
            }
        }
    }
}

/// Relies on `Rc::clone`: the new handle points to the same value.
#[verifier::external_body]
fn share(text: &Rc<Vec<char>>) -> (r: Rc<Vec<char>>)
    ensures
        r@ == text@,
{
    Rc::clone(text)
}

/// A node, the source text it was matched in, and an index of its direct
/// children by rule name, built on first use. The chains made for children
/// share the source text with the chain they come from.
pub struct RuleChain {
    node: Node,
    text: Rc<Vec<char>>,
    mapping: Vec<RuleGroup>,
    indexed: bool,
}

impl RuleChain {
    /// The node.
    pub closed spec fn tree(&self) -> Node {
        self.node
    }

    /// The source text that the node's positions refer to.
    pub closed spec fn source(&self) -> Seq<char> {
        self.text@
    }

    /// Whether the index has been built.
    pub closed spec fn is_indexed(&self) -> bool {
        self.indexed
    }

    /// The node is well formed over the source, and the index, once built,
    /// is exact.
    pub closed spec fn inv(&self) -> bool {
        &&& wf(self.node, self.text@.len() as int)
        &&& (self.indexed ==> index_ok(
            self.mapping@,
            self.node.children@,
            self.node.children@.len() as int,
        ))
    }

    /// A chain's node is well formed over its source, so the facts about
    /// well-formed trees, such as the text round trip, apply to it.
    pub proof fn lemma_inv_wf(&self)
        requires
            self.inv(),
        ensures
            wf(self.tree(), self.source().len() as int),
    {
    }

    /// A chain over `node`, whose positions refer to `text`.
    pub fn new(node: Node, text: Vec<char>) -> (r: RuleChain)
        requires
            wf(node, text@.len() as int),
        ensures
            r.inv(),
            r.tree() == node,
            r.source() == text@,
            !r.is_indexed(),
    {
        RuleChain { node, text: Rc::new(text), mapping: Vec::new(), indexed: false }
    }

    /// A chain over the one root of `roots`; an error where there is none
    /// or more than one.
    pub fn try_from_roots(roots: Vec<Node>, text: Vec<char>) -> (r: Result<RuleChain, ParseError>)
        requires
            forall|i: int| 0 <= i < roots@.len() ==> wf(#[trigger] roots@[i], text@.len() as int),
        ensures
            roots@.len() == 0 ==> r matches Err(ParseError::EmptyResult),
            roots@.len() > 1 ==> r matches Err(ParseError::MultipleRoots),
            roots@.len() == 1 ==> (r matches Ok(c) && c.inv() && c.tree() == roots@[0]
                && c.source() == text@ && !c.is_indexed()),
    {
        let mut roots = roots;
        if roots.len() == 0 {
            Err(ParseError::EmptyResult)
        } else if roots.len() > 1 {
            Err(ParseError::MultipleRoots)
        } else {
            let root = roots.pop().unwrap();
            Ok(RuleChain::new(root, text))
        }
    }

    /// Parses `content` from its start against `rule` into a chain over the
    /// match; positions count characters of `content`.
    pub fn parse(rule: Rule, content: &str) -> (r: Result<RuleChain, ParseError>)
        ensures
            match r {
                Ok(c) => {
                    &&& c.inv()
                    &&& c.source() == content@
                    &&& match_at(content@, 0, rule) == Some(c.tree().end as int)
                    &&& c.tree().rule == rule
                    &&& c.tree().start == 0
                    &&& shaped(content@, c.tree())
                    &&& !c.is_indexed()
                },
                Err(e) => match_at(content@, 0, rule) is None && fails_at_start(e, content@, rule),
            },
    {
        let text = chars_of(content);
        match Markdown::parse_chars(rule, &text) {
            Ok(n) => Ok(RuleChain::new(n, text)),
            Err(e) => Err(e),
        }
    }

    /// The name of this node's rule.
    pub fn name(&self) -> (r: String)
        ensures
            r@ == rule_name(self.tree().rule),
    {
        self.node.rule.name()
    }

    /// Where this node's match starts in the source.
    pub fn get_start(&self) -> (r: usize)
        ensures
            r == self.tree().start,
    {
        self.node.start
    }

    /// Where this node's match ends in the source.
    pub fn get_end(&self) -> (r: usize)
        ensures
            r == self.tree().end,
    {
        self.node.end
    }

    /// The text that this node's match covers.
    pub fn get_text(&self) -> (r: String)
        requires
            self.inv(),
        ensures
            r@ == span_text(self.tree(), self.source()),
    {
        text_between(&*self.text, self.node.start, self.node.end)
    }

    /// Whether this node has sub-matches.
    pub fn has_children(&self) -> (r: bool)
        ensures
            r == (self.tree().children@.len() > 0),
    {
        self.node.children.len() > 0
    }

    /// Builds the index over the direct children, if it is not built yet.
    fn prep_mapping(&mut self)
        requires
            old(self).inv(),
        ensures
            final(self).inv(),
            final(self).is_indexed(),
            final(self).tree() == old(self).tree(),
            final(self).source() == old(self).source(),
    {
        if self.indexed {
            return;
        }
        let mut mapping: Vec<RuleGroup> = Vec::new();
        let n = self.node.children.len();
        let mut j: usize = 0;
        while j < n
            invariant
                n == self.node.children@.len(),
                j <= n,
                index_ok(mapping@, self.node.children@, j as int),
            decreases n - j,
        {
            let ghost cs = self.node.children@;
            let name = self.node.children[j].rule.name();
            push_rule(&mut mapping, name, j, Ghost(cs));
            j = j + 1;
        }
        self.mapping = mapping;
        self.indexed = true;
    }

    /// The positions of the direct children named `rule`, looked up in the
    /// index, which must be built.
    fn lookup(&self, rule: &str) -> (r: Vec<usize>)
        requires
            self.inv(),
            self.is_indexed(),
        ensures
            r@ == children_named(self.tree(), rule@),
    {
        let q = rule.to_owned();
        let mut gi: usize = 0;
        while gi < self.mapping.len()
            invariant
                gi <= self.mapping@.len(),
                self.inv(),
                self.is_indexed(),
                q@ == rule@,
                forall|h: int| 0 <= h < gi ==> (#[trigger] self.mapping@[h]).name@ != q@,
            decreases self.mapping@.len() - gi,
        {
            if self.mapping[gi].name == q {
                assert(self.mapping@[gi as int].members@ == named(
                    self.node.children@,
                    self.mapping@[gi as int].name@,
                    self.node.children@.len() as int,
                ));
                return copy_of(&self.mapping[gi].members);
            }
            gi = gi + 1;
        }
        let ghost cs = self.node.children@;
        proof {
            assert forall|k: int| 0 <= k < cs.len() implies rule_name((#[trigger] cs[k]).rule) != q@ by {
                if rule_name(cs[k].rule) == q@ {
                    assert(has_group(self.mapping@, rule_name(cs[k].rule)));
                    let g2 = choose|g2: int| 0 <= g2 < self.mapping@.len() && (#[trigger] self.mapping@[g2]).name@
                        == rule_name(cs[k].rule);
                }
            }
            lemma_named_empty(cs, q@, cs.len() as int);
        }
        Vec::new()
    }

    /// The text of every direct child whose rule is named `rule`, joined in
    /// source order; empty where there is none.
    pub fn get_rule_text(&mut self, rule: &str) -> (r: String)
        requires
            old(self).inv(),
        ensures
            r@ == rule_text(old(self).tree(), old(self).source(), rule@),
            final(self).inv(),
            final(self).tree() == old(self).tree(),
            final(self).source() == old(self).source(),
    {
        self.prep_mapping();
        let idx = self.lookup(rule);
        let ghost cs = self.node.children@;
        proof {
            lemma_named_bounds(cs, rule@, cs.len() as int);
            if cs.len() > 0 {
                lemma_tiles_members(cs, self.node.start as int, self.node.end as int, self.text@.len() as int);
            }
        }
        let mut out = String::new();
        let mut i: usize = 0;
        while i < idx.len()
            invariant
                i <= idx@.len(),
                idx@ == children_named(self.node, rule@),
                cs == self.node.children@,
                self.inv(),
                forall|x: int| 0 <= x < idx@.len() ==> #[trigger] idx@[x] < cs.len(),
                cs.len() > 0 ==> forall|k: int| 0 <= k < cs.len() ==> wf(#[trigger] cs[k], self.text@.len() as int),
                out@ == concat_spans(cs, self.text@, idx@.subrange(0, i as int)),
            decreases idx@.len() - i,
        {
            let k = idx[i];
            let c = &self.node.children[k];
            append_chars(&mut out, &*self.text, c.start, c.end);
            i = i + 1;
            assert(idx@.subrange(0, i as int).drop_last() =~= idx@.subrange(0, i - 1));
        }
        assert(idx@.subrange(0, i as int) =~= idx@);
        out
    }

    /// A chain over the direct child at `k`, sharing this chain's source.
    fn child_chain(&self, k: usize) -> (r: RuleChain)
        requires
            self.inv(),
            k < self.tree().children@.len(),
        ensures
            r.inv(),
            same(self.tree().children@[k as int], r.tree()),
            r.source() == self.source(),
            !r.is_indexed(),
    {
        let ghost cs = self.node.children@;
        proof {
            lemma_tiles_members(cs, self.node.start as int, self.node.end as int, self.text@.len() as int);
        }
        let n = self.node.children[k].duplicate();
        proof {
            lemma_same_wf(cs[k as int], n, self.text@.len() as int);
        }
        RuleChain { node: n, text: share(&self.text), mapping: Vec::new(), indexed: false }
    }

    /// Chains over the direct children at the positions `idx`, in order.
    fn chains_at(&self, idx: &Vec<usize>) -> (r: Vec<RuleChain>)
        requires
            self.inv(),
            forall|x: int| 0 <= x < idx@.len() ==> #[trigger] idx@[x] < self.tree().children@.len(),
        ensures
            r@.len() == idx@.len(),
            forall|x: int|
                0 <= x < r@.len() ==> (#[trigger] r@[x]).inv() && same(
                    self.tree().children@[idx@[x] as int],
                    r@[x].tree(),
                ) && r@[x].source() == self.source() && !r@[x].is_indexed(),
    {
        let mut out: Vec<RuleChain> = Vec::new();
        let mut i: usize = 0;
        while i < idx.len()
            invariant
                self.inv(),
                i <= idx@.len(),
                out@.len() == i,
                forall|x: int| 0 <= x < idx@.len() ==> #[trigger] idx@[x] < self.tree().children@.len(),
                forall|x: int|
                    0 <= x < i ==> (#[trigger] out@[x]).inv() && same(
                        self.tree().children@[idx@[x] as int],
                        out@[x].tree(),
                    ) && out@[x].source() == self.source() && !out@[x].is_indexed(),
            decreases idx@.len() - i,
        {
            let c = self.child_chain(idx[i]);
            out.push(c);
            i = i + 1;
        }
        out
    }

    /// The first direct child whose rule is named `rule_name`, if any.
    pub fn find_rule(&mut self, rule_name: &str) -> (r: Option<RuleChain>)
        requires
            old(self).inv(),
        ensures
            final(self).inv(),
            final(self).tree() == old(self).tree(),
            final(self).source() == old(self).source(),
            r is None <==> children_named(old(self).tree(), rule_name@).len() == 0,
            r matches Some(c) ==> c.inv() && c.source() == old(self).source() && !c.is_indexed() && same(
                old(self).tree().children@[children_named(old(self).tree(), rule_name@)[0] as int],
                c.tree(),
            ),
    {
        self.prep_mapping();
        let idx = self.lookup(rule_name);
        proof {
            lemma_named_bounds(self.node.children@, rule_name@, self.node.children@.len() as int);
        }
        if idx.len() == 0 {
            None
        } else {
            Some(self.child_chain(idx[0]))
        }
    }

    /// Every direct child whose rule is named `rule_name`, in source order;
    /// empty where there is none.
    pub fn get_rules(&mut self, rule_name: &str) -> (r: Vec<RuleChain>)
        requires
            old(self).inv(),
        ensures
            final(self).inv(),
            final(self).tree() == old(self).tree(),
            final(self).source() == old(self).source(),
            r@.len() == children_named(old(self).tree(), rule_name@).len(),
            forall|x: int|
                0 <= x < r@.len() ==> (#[trigger] r@[x]).inv() && r@[x].source() == old(self).source()
                    && !r@[x].is_indexed() && same(
                    old(self).tree().children@[children_named(old(self).tree(), rule_name@)[x] as int],
                    r@[x].tree(),
                ),
    {
        self.prep_mapping();
        let idx = self.lookup(rule_name);
        proof {
            lemma_named_bounds(self.node.children@, rule_name@, self.node.children@.len() as int);
        }
        self.chains_at(&idx)
    }

    /// Whether some direct child's rule is named `rule`.
    pub fn has_rule(&mut self, rule: &str) -> (r: bool)
        requires
            old(self).inv(),
        ensures
            final(self).inv(),
            final(self).tree() == old(self).tree(),
            final(self).source() == old(self).source(),
            r == (children_named(old(self).tree(), rule@).len() > 0),
    {
        self.prep_mapping();
        self.lookup(rule).len() > 0
    }

    /// How many direct children have a rule named `rule`.
    pub fn how_many(&mut self, rule: &str) -> (r: usize)
        requires
            old(self).inv(),
        ensures
            final(self).inv(),
            final(self).tree() == old(self).tree(),
            final(self).source() == old(self).source(),
            r == children_named(old(self).tree(), rule@).len(),
    {
        self.prep_mapping();
        self.lookup(rule).len()
    }

    /// The index entry for `rule_name`: chains over the direct children of
    /// that name, in source order, once the index is built; nothing before
    /// that, or where no child has that name.
    pub fn get_rule_name(&self, rule_name: &str) -> (r: Option<Vec<RuleChain>>)
        requires
            self.inv(),
        ensures
            !self.is_indexed() ==> r is None,
            self.is_indexed() ==> (r is None <==> children_named(self.tree(), rule_name@).len() == 0),
            r matches Some(v) ==> v@.len() == children_named(self.tree(), rule_name@).len() && forall|x: int|
                0 <= x < v@.len() ==> (#[trigger] v@[x]).inv() && v@[x].source() == self.source()
                    && !v@[x].is_indexed() && same(
                    self.tree().children@[children_named(self.tree(), rule_name@)[x] as int],
                    v@[x].tree(),
                ),
    {
        if !self.indexed {
            return None;
        }
        let idx = self.lookup(rule_name);
        proof {
            lemma_named_bounds(self.node.children@, rule_name@, self.node.children@.len() as int);
        }
        if idx.len() == 0 {
            None
        } else {
            Some(self.chains_at(&idx))
        }
    }

    /// Chains over all direct children, in source order.
    pub fn get_children(&self) -> (r: Vec<RuleChain>)
        requires
            self.inv(),
        ensures
            r@.len() == self.tree().children@.len(),
            forall|x: int|
                0 <= x < r@.len() ==> (#[trigger] r@[x]).inv() && r@[x].source() == self.source()
                    && same(self.tree().children@[x], r@[x].tree()),
    {
        let mut idx: Vec<usize> = Vec::new();
        let mut i: usize = 0;
        while i < self.node.children.len()
            invariant
                i <= self.node.children@.len(),
                idx@.len() == i,
                forall|x: int| 0 <= x < i ==> #[trigger] idx@[x] == x,
            decreases self.node.children@.len() - i,
        {
            idx.push(i);
            i = i + 1;
        }
        self.chains_at(&idx)
    }

    /// How many levels of nodes lie below this node, or one past the
    /// deepest level a dump may reach where it is deeper.
    pub fn depth(&self) -> (r: usize)
        ensures
            r as int == if depth(self.tree()) <= MAX_LEVEL { depth(self.tree()) as int } else { MAX_LEVEL + 1 },
    {
        depth_of(&self.node)
    }

    /// A readable dump of this node and everything under it; each level of
    /// the tree is indented one step deeper.
    pub fn describe(&self) -> (r: String)
        requires
            self.inv(),
            depth(self.tree()) <= MAX_LEVEL,
        ensures
            r@ == describe_root(self.tree(), self.source()),
    {
        let mut out = String::new();
        out.append("\n[");
        out.append(self.name().as_str());
        out.append(" is \"");
        append_chars(&mut out, &*self.text, self.node.start, self.node.end);
        out.append("\"], composed of [\n");
        if self.node.children.len() > 0 {
            proof {
                lemma_tiles_members(self.node.children@, self.node.start as int, self.node.end as int, self.text@.len() as int);
            }
        }
        proof {
            lemma_depth_all_pub(self.node.children@);
        }
        describe_list(&self.node.children, &*self.text, 1, &mut out);
        out
    }

    /// The rule's name followed by the matched text in parentheses.
    pub fn display(&self) -> (r: String)
        requires
            self.inv(),
        ensures
            r@ == rule_name(self.tree().rule) + "("@ + span_text(self.tree(), self.source()) + ")"@,
    {
        let mut out = self.name();
        out.append("(");
        append_chars(&mut out, &*self.text, self.node.start, self.node.end);
        out.append(")");
        out
    }
}

} // verus!
