use vstd::prelude::*;

use crate::block::{
    blank_at, block_at, break_at, heading_any, heading_level, heading_rule, para_end, text_line,
};
use crate::fence::{dict_at, entries_end, entry_at, fence_parts};
use crate::inline::{
    after_attrs, attr_at, attrs_at, attrs_pairs, list_pairs, name_end, pair_at, self_closing_at,
    tag_at, Pair,
};
use crate::rule::Rule;
use crate::scan::{char_at, past_line, run_end, Class};
use crate::tree::{same, same_all, Node};

verus! {

/// The rule and the range of a node.
pub open spec fn triple(n: Node) -> (Rule, int, int) {
    (n.rule, n.start as int, n.end as int)
}

/// The rules and ranges of `cs`, in order.
pub open spec fn kids(cs: Seq<Node>) -> Seq<(Rule, int, int)>
    decreases cs.len(),
{
    if cs.len() == 0 {
        Seq::empty()
    } else {
        kids(cs.subrange(0, cs.len() - 1)).push(triple(cs[cs.len() - 1]))
    }
}

/// One child of `rule` over `[a, b)`, if that range is not empty.
pub open spec fn opt(rule: Rule, a: int, b: int) -> Seq<(Rule, int, int)> {
    if a < b {
        seq![(rule, a, b)]
    } else {
        Seq::empty()
    }
}

/// The rules that never have children.
pub open spec fn is_leaf_rule(rule: Rule) -> bool {
    match rule {
        Rule::blank_line | Rule::text | Rule::eol | Rule::indent | Rule::marks | Rule::space
        | Rule::heading_text | Rule::break_marks | Rule::tag_name | Rule::key | Rule::value
        | Rule::punct | Rule::ws | Rule::tag_content | Rule::fence | Rule::lang | Rule::junk => true,
        _ => false,
    }
}

/// The rule of the block that starts at `p`.
pub open spec fn block_rule(s: Seq<char>, p: int) -> Rule {
    if blank_at(s, p) is Some {
        Rule::blank_line
    } else if heading_any(s, p) is Some {
        Rule::heading
    } else if break_at(s, p) is Some {
        Rule::thematic_break
    } else {
        Rule::paragraph
    }
}

/// The blocks from `p` on, one child each.
pub open spec fn blocks_kids(s: Seq<char>, p: int) -> Seq<(Rule, int, int)>
    decreases s.len() - p,
{
    match block_at(s, p) {
        Some(e) => if p < e <= s.len() {
            seq![(block_rule(s, p), p, e)] + blocks_kids(s, e)
        } else {
            Seq::empty()
        },
        None => Seq::empty(),
    }
}

/// The lines of a paragraph from `q` on: a `text` and an `eol` child each.
pub open spec fn para_kids(s: Seq<char>, q: int) -> Seq<(Rule, int, int)>
    decreases s.len() - q,
{
    let t = run_end(s, q, Class::Line);
    let e = past_line(s, t);
    if text_line(s, q) && q < e <= s.len() {
        opt(Rule::text, q, t) + opt(Rule::eol, t, e) + para_kids(s, e)
    } else {
        Seq::empty()
    }
}

/// The children of a heading line at `p`.
pub open spec fn heading_line_kids(s: Seq<char>, p: int) -> Seq<(Rule, int, int)> {
    let i = run_end(s, p, Class::Ws);
    let m = run_end(s, i, Class::Hash);
    let w = run_end(s, m, Class::Ws);
    let t = run_end(s, w, Class::Line);
    opt(Rule::indent, p, i) + opt(Rule::marks, i, m) + opt(Rule::space, m, w) + opt(
        Rule::heading_text,
        w,
        t,
    ) + opt(Rule::eol, t, past_line(s, t))
}

/// The children of the attribute part of a tag whose name ends at `n`.
pub open spec fn attr_part_kids(s: Seq<char>, n: int) -> Seq<(Rule, int, int)> {
    match attrs_at(s, n) {
        Some(e) => opt(Rule::attrs, n, e),
        None => opt(Rule::ws, n, run_end(s, n, Class::Ws)),
    }
}

/// The further attributes of a list whose last attribute so far ends at `e`.
pub open spec fn attr_list_kids(s: Seq<char>, e: int) -> Seq<(Rule, int, int)>
    decreases s.len() - e,
{
    let w = run_end(s, e, Class::Ws);
    match attr_at(s, w) {
        Some(f) => if w > e && e < f <= s.len() {
            seq![(Rule::ws, e, w), (Rule::attr, w, f)] + attr_list_kids(s, f)
        } else {
            opt(Rule::ws, e, w)
        },
        None => opt(Rule::ws, e, w),
    }
}

/// The further entries of a dictionary whose last entry so far ends at `e`.
pub open spec fn entries_kids(s: Seq<char>, e: int) -> Seq<(Rule, int, int)>
    decreases s.len() - e,
{
    let w = run_end(s, e, Class::Ws);
    let b = run_end(s, w + 1, Class::Ws);
    if char_at(s, w, ',') {
        match entry_at(s, b) {
            Some(f) => if e < f <= s.len() {
                seq![(Rule::punct, e, b), (Rule::dict_entry, b, f)] + entries_kids(s, f)
            } else {
                Seq::empty()
            },
            None => Seq::empty(),
        }
    } else {
        Seq::empty()
    }
}

/// The children that a node of `rule` matched at `p` has, by rule and range.
pub open spec fn expected_kids(s: Seq<char>, p: int, rule: Rule) -> Seq<(Rule, int, int)> {
    match rule {
        Rule::file => blocks_kids(s, p),
        Rule::paragraph => para_kids(s, p),
        Rule::heading => match heading_any(s, p) {
            Some(e) => seq![(heading_rule(heading_level(s, p)), p, e)],
            None => Seq::empty(),
        },
        Rule::h1 | Rule::h2 | Rule::h3 | Rule::h4 | Rule::h5 | Rule::h6 => heading_line_kids(s, p),
        Rule::thematic_break => {
            let t = run_end(s, p, Class::Line);
            opt(Rule::break_marks, p, t) + opt(Rule::eol, t, past_line(s, t))
        },
        Rule::tag => match tag_at(s, p) {
            Some(e) => seq![
                (if self_closing_at(s, p) is Some {
                    Rule::self_closing_tag
                } else {
                    Rule::block_tag
                }, p, e),
            ],
            None => Seq::empty(),
        },
        Rule::self_closing_tag => {
            let n = name_end(s, p);
            let a = after_attrs(s, n);
            opt(Rule::punct, p, p + 1) + opt(Rule::tag_name, p + 1, n) + attr_part_kids(s, n) + opt(
                Rule::punct,
                a,
                a + 2,
            )
        },
        Rule::block_tag => {
            let n = name_end(s, p);
            let a = after_attrs(s, n);
            let c = run_end(s, a + 1, Class::NotLt);
            let m = run_end(s, c + 2, Class::Ident);
            let w = run_end(s, m, Class::Ws);
            opt(Rule::punct, p, p + 1) + opt(Rule::tag_name, p + 1, n) + attr_part_kids(s, n) + opt(
                Rule::punct,
                a,
                a + 1,
            ) + opt(Rule::tag_content, a + 1, c) + opt(Rule::punct, c, c + 2) + opt(
                Rule::tag_name,
                c + 2,
                m,
            ) + opt(Rule::ws, m, w) + opt(Rule::punct, w, w + 1)
        },
        Rule::attrs => {
            let a = run_end(s, p, Class::Ws);
            match attr_at(s, a) {
                Some(e) => opt(Rule::ws, p, a) + seq![(Rule::attr, a, e)] + attr_list_kids(s, e),
                None => Seq::empty(),
            }
        },
        Rule::attr => {
            let k = run_end(s, p, Class::Ident);
            match attr_at(s, p) {
                Some(f) => opt(Rule::key, p, k) + opt(Rule::punct, k, k + 1) + opt(
                    Rule::value,
                    k + 1,
                    f,
                ),
                None => Seq::empty(),
            }
        },
        Rule::dict_entry => {
            let k = run_end(s, p, Class::Ident);
            let a = run_end(s, k, Class::Ws);
            let b = run_end(s, a + 1, Class::Ws);
            match entry_at(s, p) {
                Some(f) => opt(Rule::key, p, k) + opt(Rule::punct, k, b) + opt(Rule::value, b, f),
                None => Seq::empty(),
            }
        },
        Rule::dict => {
            let q = run_end(s, p + 1, Class::Ws);
            let r = match entry_at(s, q) {
                Some(e) => entries_end(s, e),
                None => q,
            };
            let w = run_end(s, r, Class::Ws);
            opt(Rule::punct, p, q) + match entry_at(s, q) {
                Some(e) => seq![(Rule::dict_entry, q, e)] + entries_kids(s, e),
                None => Seq::empty(),
            } + opt(Rule::punct, r, w + 1)
        },
        Rule::fence_defn => {
            let (q1, l, q2, d) = fence_parts(s, p);
            opt(Rule::fence, p, p + 3) + opt(Rule::ws, p + 3, q1) + opt(Rule::lang, q1, l) + opt(
                Rule::ws,
                l,
                q2,
            ) + opt(Rule::dict, q2, d) + opt(Rule::junk, d, run_end(s, d, Class::Line))
        },
        _ => Seq::empty(),
    }
}

/// `n` is the tree that the grammar builds over `s` for its rule at its
/// start: its children are the expected ones, and so on all the way down.
pub open spec fn shaped(s: Seq<char>, n: Node) -> bool
    decreases n, 0int,
{
    &&& kids(n.children@) == expected_kids(s, n.start as int, n.rule)
    &&& all_shaped(s, n.children@)
}

/// Every node of `cs` is shaped as the grammar builds it.
pub open spec fn all_shaped(s: Seq<char>, cs: Seq<Node>) -> bool
    decreases cs, cs.len(),
{
    cs.len() == 0 || (shaped(s, cs[cs.len() - 1]) && all_shaped(s, cs.subrange(0, cs.len() - 1)))
}

/// The grammar builds one tree per rule and range: two shaped nodes with the
/// same rule and range are the same tree.
pub proof fn lemma_shaped_unique(s: Seq<char>, a: Node, b: Node)
    requires
        shaped(s, a),
        shaped(s, b),
        triple(a) == triple(b),
    ensures
        same(a, b),
    decreases a, 1int,
{
    lemma_all_shaped_unique(s, a.children@, b.children@);
}

proof fn lemma_all_shaped_unique(s: Seq<char>, x: Seq<Node>, y: Seq<Node>)
    requires
        all_shaped(s, x),
        all_shaped(s, y),
        kids(x) == kids(y),
    ensures
        same_all(x, y),
    decreases x, x.len(),
{
    if x.len() == 0 {
        if y.len() > 0 {
            assert(kids(y).len() > 0);
        }
    } else {
        if y.len() == 0 {
            assert(kids(x).len() > 0);
        }
        let xl = x.subrange(0, x.len() - 1);
        let yl = y.subrange(0, y.len() - 1);
        assert(kids(xl) == kids(x).drop_last());
        assert(kids(yl) == kids(y).drop_last());
        assert(triple(x[x.len() - 1]) == kids(x).last());
        assert(triple(y[y.len() - 1]) == kids(y).last());
        lemma_shaped_unique(s, x[x.len() - 1], y[y.len() - 1]);
        lemma_all_shaped_unique(s, xl, yl);
    }
}

/// The key and value of each `attr` entry of `ks`, in order.
pub open spec fn kid_pairs(s: Seq<char>, ks: Seq<(Rule, int, int)>) -> Seq<Pair>
    decreases ks.len(),
{
    if ks.len() == 0 {
        Seq::empty()
    } else {
        (if ks[0].0 == Rule::attr {
            seq![pair_at(s, ks[0].1)]
        } else {
            Seq::empty()
        }) + kid_pairs(s, ks.drop_first())
    }
}

proof fn lemma_kid_pairs_concat(s: Seq<char>, a: Seq<(Rule, int, int)>, b: Seq<(Rule, int, int)>)
    ensures
        kid_pairs(s, a + b) == kid_pairs(s, a) + kid_pairs(s, b),
    decreases a.len(),
{
    if a.len() == 0 {
        assert(a + b =~= b);
        assert(kid_pairs(s, a) + kid_pairs(s, b) =~= kid_pairs(s, b));
    } else {
        assert((a + b).drop_first() =~= a.drop_first() + b);
        lemma_kid_pairs_concat(s, a.drop_first(), b);
        assert((a + b)[0] == a[0]);
        let h = if a[0].0 == Rule::attr {
            seq![pair_at(s, a[0].1)]
        } else {
            Seq::<Pair>::empty()
        };
        assert(h + (kid_pairs(s, a.drop_first()) + kid_pairs(s, b)) =~= (h + kid_pairs(
            s,
            a.drop_first(),
        )) + kid_pairs(s, b));
    }
}

proof fn lemma_list_kid_pairs(s: Seq<char>, e: int)
    ensures
        kid_pairs(s, attr_list_kids(s, e)) == list_pairs(s, e),
    decreases s.len() - e,
{
    reveal_with_fuel(kid_pairs, 3);
    let w = run_end(s, e, Class::Ws);
    if e < w {
        assert(opt(Rule::ws, e, w).drop_first() =~= Seq::<(Rule, int, int)>::empty());
    }
    match attr_at(s, w) {
        Some(f) => if w > e && e < f <= s.len() {
            let two = seq![(Rule::ws, e, w), (Rule::attr, w, f)];
            lemma_list_kid_pairs(s, f);
            lemma_kid_pairs_concat(s, two, attr_list_kids(s, f));
            assert(two.drop_first().drop_first() =~= Seq::<(Rule, int, int)>::empty());
            assert(two.drop_first()[0] == (Rule::attr, w, f));
            assert(kid_pairs(s, two) =~= seq![pair_at(s, w)]);
        } else {
            assert(kid_pairs(s, opt(Rule::ws, e, w)) =~= Seq::<Pair>::empty());
        },
        None => {
            assert(kid_pairs(s, opt(Rule::ws, e, w)) =~= Seq::<Pair>::empty());
        },
    }
}

/// The attribute pairs of a parsed attribute list, read off its `attr`
/// children, are the pairs that the grammar reads from the text; with the
/// whitespace law this makes the tree's pairs independent of whitespace.
pub proof fn lemma_attrs_tree_pairs(s: Seq<char>, n: Node)
    requires
        shaped(s, n),
        n.rule == Rule::attrs,
        attrs_at(s, n.start as int) is Some,
    ensures
        kid_pairs(s, kids(n.children@)) == attrs_pairs(s, n.start as int),
{
    reveal_with_fuel(kid_pairs, 3);
    let p = n.start as int;
    let a = run_end(s, p, Class::Ws);
    if p < a {
        assert(opt(Rule::ws, p, a).drop_first() =~= Seq::<(Rule, int, int)>::empty());
    }
    let e = attr_at(s, a)->0;
    let head = opt(Rule::ws, p, a) + seq![(Rule::attr, a, e)];
    assert(kids(n.children@) == head + attr_list_kids(s, e));
    lemma_kid_pairs_concat(s, head, attr_list_kids(s, e));
    lemma_kid_pairs_concat(s, opt(Rule::ws, p, a), seq![(Rule::attr, a, e)]);
    assert(kid_pairs(s, opt(Rule::ws, p, a)) =~= Seq::<Pair>::empty());
    assert(seq![(Rule::attr, a, e)].drop_first() =~= Seq::<(Rule, int, int)>::empty());
    assert(kid_pairs(s, seq![(Rule::attr, a, e)]) =~= seq![pair_at(s, a)]);
    lemma_list_kid_pairs(s, e);
    assert(kid_pairs(s, kids(n.children@)) =~= attrs_pairs(s, p));
}

proof fn lemma_kids_index(cs: Seq<Node>)
    ensures
        kids(cs).len() == cs.len(),
        forall|i: int| 0 <= i < cs.len() ==> #[trigger] kids(cs)[i] == triple(cs[i]),
    decreases cs.len(),
{
    if cs.len() > 0 {
        let rest = cs.subrange(0, cs.len() - 1);
        lemma_kids_index(rest);
        assert forall|i: int| 0 <= i < cs.len() implies #[trigger] kids(cs)[i] == triple(cs[i]) by {
            if i < cs.len() - 1 {
                assert(cs[i] == rest[i]);
            }
        }
    }
}

proof fn lemma_all_shaped_index(s: Seq<char>, cs: Seq<Node>)
    requires
        all_shaped(s, cs),
    ensures
        forall|i: int| 0 <= i < cs.len() ==> shaped(s, #[trigger] cs[i]),
    decreases cs.len(),
{
    if cs.len() > 0 {
        let rest = cs.subrange(0, cs.len() - 1);
        lemma_all_shaped_index(s, rest);
        assert forall|i: int| 0 <= i < cs.len() implies shaped(s, #[trigger] cs[i]) by {
            if i < cs.len() - 1 {
                assert(cs[i] == rest[i]);
            }
        }
    }
}

/// A shaped node of a rule that never has children has none.
pub proof fn lemma_leaf_rule_childless(s: Seq<char>, n: Node)
    requires
        shaped(s, n),
        is_leaf_rule(n.rule),
    ensures
        n.children@.len() == 0,
{
    lemma_kids_index(n.children@);
}

/// The children of a shaped node are shaped, and stand in the order and with
/// the rules and ranges that the grammar gives.
pub proof fn lemma_shaped_children(s: Seq<char>, n: Node)
    requires
        shaped(s, n),
    ensures
        n.children@.len() == expected_kids(s, n.start as int, n.rule).len(),
        forall|i: int|
            0 <= i < n.children@.len() ==> shaped(s, #[trigger] n.children@[i]) && triple(
                n.children@[i],
            ) == expected_kids(s, n.start as int, n.rule)[i],
{
    lemma_kids_index(n.children@);
    lemma_all_shaped_index(s, n.children@);
}

/// A parsed heading captures its level: its one child is the heading rule of
/// its number of marks, and every child of that is a leaf of the heading
/// line, so no other level rule occurs anywhere in its tree.
pub proof fn lemma_heading_tree(s: Seq<char>, n: Node)
    requires
        shaped(s, n),
        n.rule == Rule::heading,
        heading_any(s, n.start as int) is Some,
    ensures
        n.children@.len() == 1,
        n.children@[0].rule == heading_rule(heading_level(s, n.start as int)),
        forall|i: int|
            0 <= i < n.children@[0].children@.len() ==> {
                let c = #[trigger] n.children@[0].children@[i];
                &&& is_leaf_rule(c.rule)
                &&& c.children@.len() == 0
            },
{
    lemma_shaped_children(s, n);
    let h = n.children@[0];
    assert(triple(h) == expected_kids(s, n.start as int, n.rule)[0]);
    lemma_shaped_children(s, h);
    let hk = heading_line_kids(s, h.start as int);
    assert forall|i: int| 0 <= i < hk.len() implies is_leaf_rule(#[trigger] hk[i].0) by {
        let i0 = run_end(s, h.start as int, Class::Ws);
        let m = run_end(s, i0, Class::Hash);
        let w = run_end(s, m, Class::Ws);
        let t = run_end(s, w, Class::Line);
        let a = opt(Rule::indent, h.start as int, i0);
        let b = opt(Rule::marks, i0, m);
        let c = opt(Rule::space, m, w);
        let d = opt(Rule::heading_text, w, t);
        let e = opt(Rule::eol, t, past_line(s, t));
        assert(hk == a + b + c + d + e);
        assert forall|j: int| 0 <= j < a.len() implies is_leaf_rule(#[trigger] a[j].0) by {}
        assert forall|j: int| 0 <= j < b.len() implies is_leaf_rule(#[trigger] b[j].0) by {}
        assert forall|j: int| 0 <= j < c.len() implies is_leaf_rule(#[trigger] c[j].0) by {}
        assert forall|j: int| 0 <= j < d.len() implies is_leaf_rule(#[trigger] d[j].0) by {}
        assert forall|j: int| 0 <= j < e.len() implies is_leaf_rule(#[trigger] e[j].0) by {}
    }
    assert forall|i: int| 0 <= i < h.children@.len() implies {
        let c = #[trigger] h.children@[i];
        &&& is_leaf_rule(c.rule)
        &&& c.children@.len() == 0
    } by {
        let c = h.children@[i];
        assert(triple(c) == hk[i]);
        assert(is_leaf_rule(hk[i].0));
        lemma_leaf_rule_childless(s, c);
    }
}

} // verus!
