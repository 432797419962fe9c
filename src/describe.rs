use vstd::prelude::*;

use crate::rule::rule_name;
use crate::text::{append_chars, pad, spaces};
use crate::tree::{lemma_tiles_members, span_text, wf, Node};

verus! {

/// The deepest level of indentation that a dump may reach.
pub const MAX_LEVEL: usize = 0x1000_0000;

/// How many levels of nodes lie below `n`.
pub open spec fn depth(n: Node) -> nat
    decreases n, 0int,
{
    if n.children@.len() == 0 {
        0
    } else {
        1 + depth_all(n.children@)
    }
}

/// The greatest depth among `cs`.
pub open spec fn depth_all(cs: Seq<Node>) -> nat
    decreases cs, cs.len(),
{
    if cs.len() == 0 {
        0
    } else {
        let a = depth_all(cs.subrange(0, cs.len() - 1));
        let b = depth(cs[cs.len() - 1]);
        if a >= b {
            a
        } else {
            b
        }
    }
}

/// No node of `cs` is deeper than the deepest of them.
pub proof fn lemma_depth_all_pub(cs: Seq<Node>)
    ensures
        forall|k: int| 0 <= k < cs.len() ==> depth(#[trigger] cs[k]) <= depth_all(cs),
{
    lemma_depth_all(cs);
}

proof fn lemma_depth_all(cs: Seq<Node>)
    ensures
        forall|k: int| 0 <= k < cs.len() ==> depth(#[trigger] cs[k]) <= depth_all(cs),
    decreases cs.len(),
{
    if cs.len() > 0 {
        let rest = cs.subrange(0, cs.len() - 1);
        lemma_depth_all(rest);
        assert forall|k: int| 0 <= k < cs.len() implies depth(#[trigger] cs[k]) <= depth_all(cs) by {
            if k < cs.len() - 1 {
                assert(cs[k] == rest[k]);
            }
        }
    }
}

/// The depth of `n`, or one past the deepest level where it is deeper.
pub fn depth_of(n: &Node) -> (r: usize)
    ensures
        r as int == if depth(*n) <= MAX_LEVEL { depth(*n) as int } else { MAX_LEVEL + 1 },
    decreases *n, 0int,
{
    if n.children.len() == 0 {
        return 0;
    }
    let mut best: usize = 0;
    let mut i: usize = 0;
    while i < n.children.len()
        invariant
            i <= n.children@.len(),
            best as int == if depth_all(n.children@.subrange(0, i as int)) <= MAX_LEVEL {
                depth_all(n.children@.subrange(0, i as int)) as int
            } else {
                MAX_LEVEL + 1
            },
        decreases n.children@.len() - i,
    {
        let d = depth_of(&n.children[i]);
        if d > best {
            best = d;
        }
        i = i + 1;
        assert(n.children@.subrange(0, i as int).subrange(0, i - 1) =~= n.children@.subrange(0, i - 1));
    }
    assert(n.children@.subrange(0, i as int) =~= n.children@);
    if best >= MAX_LEVEL {
        MAX_LEVEL + 1
    } else {
        best + 1
    }
}

/// `content` indented for `level`.
pub open spec fn padded(level: nat, content: Seq<char>) -> Seq<char> {
    spaces(level * 2) + content
}

/// How one node is dumped at `level`. A leaf shows its text. A node with one
/// child is shown on one line with that child, and the child's own children
/// one level deeper (only the child's text where it has exactly one). A node
/// with several children shows them one level deeper.
pub open spec fn describe_node(n: Node, s: Seq<char>, level: nat) -> Seq<char>
    decreases n, 0int,
{
    let name = rule_name(n.rule);
    if n.children@.len() == 0 {
        padded(level, name) + " [\""@ + span_text(n, s) + "\"],\n"@
    } else if n.children@.len() == 1 {
        let child = n.children@[0];
        let inner = if child.children@.len() == 1 {
            padded(level, span_text(child, s))
        } else {
            describe_at_level(child.children@, s, level + 1)
        };
        padded(level, name) + " -> "@ + rule_name(child.rule) + " [\n"@ + inner + "\n"@ + padded(
            level,
            "],\n"@,
        ) + "\n"@
    } else {
        padded(level, name) + " [\n"@ + describe_at_level(n.children@, s, level + 1) + "\n"@
            + padded(level, "],\n"@)
    }
}

/// How a sequence of siblings is dumped at `level`: one after the other.
pub open spec fn describe_at_level(cs: Seq<Node>, s: Seq<char>, level: nat) -> Seq<char>
    decreases cs, cs.len(),
{
    if cs.len() == 0 {
        Seq::empty()
    } else {
        describe_at_level(cs.subrange(0, cs.len() - 1), s, level) + describe_node(
            cs[cs.len() - 1],
            s,
            level,
        )
    }
}

/// The whole dump of a node: its name and text, then its children.
pub open spec fn describe_root(n: Node, s: Seq<char>) -> Seq<char> {
    "\n["@ + rule_name(n.rule) + " is \""@ + span_text(n, s) + "\"], composed of [\n"@
        + describe_at_level(n.children@, s, 1)
}

fn append_padded(out: &mut String, level: usize, content: String)
    requires
        level <= MAX_LEVEL,
    ensures
        final(out)@ == old(out)@ + padded(level as nat, content@),
{
    let p = pad(level, content);
    out.append(p.as_str());
}

/// Appends the dump of `n` at `level` to `out`.
pub fn describe_one(n: &Node, text: &Vec<char>, level: usize, out: &mut String)
    requires
        wf(*n, text@.len() as int),
        level + depth(*n) <= MAX_LEVEL,
    ensures
        final(out)@ == old(out)@ + describe_node(*n, text@, level as nat),
    decreases *n, 0int,
{
    let ghost start = out@;
    let name = n.rule.name();
    if n.children.len() == 0 {
        append_padded(out, level, name);
        out.append(" [\"");
        append_chars(out, text, n.start, n.end);
        out.append("\"],\n");
    } else {
        proof {
            lemma_tiles_members(n.children@, n.start as int, n.end as int, text@.len() as int);
            lemma_depth_all(n.children@);
        }
        if n.children.len() == 1 {
            let child = &n.children[0];
            append_padded(out, level, name);
            out.append(" -> ");
            out.append(child.rule.name().as_str());
            out.append(" [\n");
            if child.children.len() == 1 {
                let mut t = String::new();
                append_chars(&mut t, text, child.start, child.end);
                append_padded(out, level, t);
            } else {
                if child.children.len() > 0 {
                    proof {
                        lemma_tiles_members(
                            child.children@,
                            child.start as int,
                            child.end as int,
                            text@.len() as int,
                        );
                    }
                }
                proof {
                    lemma_depth_all(child.children@);
                }
                describe_list(&child.children, text, level + 1, out);
            }
            out.append("\n");
            append_padded(out, level, "],\n".to_owned());
            out.append("\n");
        } else {
            append_padded(out, level, name);
            out.append(" [\n");
            describe_list(&n.children, text, level + 1, out);
            out.append("\n");
            append_padded(out, level, "],\n".to_owned());
        }
    }
    assert(out@ =~= start + describe_node(*n, text@, level as nat));
}

/// Appends the dump of each of `cs` at `level` to `out`, in order.
pub fn describe_list(cs: &Vec<Node>, text: &Vec<char>, level: usize, out: &mut String)
    requires
        forall|k: int| 0 <= k < cs@.len() ==> wf(#[trigger] cs@[k], text@.len() as int),
        forall|k: int| 0 <= k < cs@.len() ==> level + depth(#[trigger] cs@[k]) <= MAX_LEVEL,
    ensures
        final(out)@ == old(out)@ + describe_at_level(cs@, text@, level as nat),
    decreases cs@, cs@.len(),
{
    let ghost start = out@;
    let mut i: usize = 0;
    while i < cs.len()
        invariant
            i <= cs@.len(),
            forall|k: int| 0 <= k < cs@.len() ==> level + depth(#[trigger] cs@[k]) <= MAX_LEVEL,
            forall|k: int| 0 <= k < cs@.len() ==> wf(#[trigger] cs@[k], text@.len() as int),
            out@ == start + describe_at_level(cs@.subrange(0, i as int), text@, level as nat),
        decreases cs@.len() - i,
    {
        describe_one(&cs[i], text, level, out);
        i = i + 1;
        assert(cs@.subrange(0, i as int).subrange(0, i - 1) =~= cs@.subrange(0, i - 1));
        assert(out@ =~= start + describe_at_level(cs@.subrange(0, i as int), text@, level as nat));
    }
    assert(cs@.subrange(0, i as int) =~= cs@);
}

} // verus!
