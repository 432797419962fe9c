use vstd::prelude::*;

use crate::rule::Rule;
use crate::shape::{all_shaped, is_leaf_rule, kids, opt, shaped, triple};
use crate::tree::{leaf, tiles, wf, Node};

verus! {

/// The classes of characters that the grammar reads in runs.
#[derive(Clone, Copy, PartialEq, Eq, Structural)]
pub enum Class {
    /// A space or a tab.
    Ws,
    /// A `#` mark.
    Hash,
    /// A letter, a digit, `_` or `-`.
    Ident,
    /// Anything but a line feed.
    Line,
    /// Anything but a double quote.
    NotQuote,
    /// Anything but `<`.
    NotLt,
}

pub open spec fn is_ws(c: char) -> bool {
    c == ' ' || c == '\t'
}

pub open spec fn is_ident(c: char) -> bool {
    ('a' <= c && c <= 'z') || ('A' <= c && c <= 'Z') || ('0' <= c && c <= '9') || c == '_' || c
        == '-'
}

pub open spec fn in_class(c: char, k: Class) -> bool {
    match k {
        Class::Ws => is_ws(c),
        Class::Hash => c == '#',
        Class::Ident => is_ident(c),
        Class::Line => c != '\n',
        Class::NotQuote => c != '"',
        Class::NotLt => c != '<',
    }
}

/// The end of the longest run of characters of class `k` that starts at `p`.
pub open spec fn run_end(s: Seq<char>, p: int, k: Class) -> int
    decreases s.len() - p,
{
    if 0 <= p < s.len() && in_class(s[p], k) {
        run_end(s, p + 1, k)
    } else {
        p
    }
}

/// The character at `p`, if `p` is inside `s`, is `c`.
pub open spec fn char_at(s: Seq<char>, p: int, c: char) -> bool {
    0 <= p < s.len() && s[p] == c
}

/// Past a line ending at `t`: over its line feed, if there is one.
pub open spec fn past_line(s: Seq<char>, t: int) -> int {
    if t < s.len() {
        t + 1
    } else {
        t
    }
}

pub proof fn lemma_run_end_bounds(s: Seq<char>, p: int, k: Class)
    requires
        0 <= p <= s.len(),
    ensures
        p <= run_end(s, p, k) <= s.len(),
        run_end(s, p, k) < s.len() ==> !in_class(s[run_end(s, p, k)], k),
        forall|j: int| p <= j < run_end(s, p, k) ==> in_class(#[trigger] s[j], k),
    decreases s.len() - p,
{
    if p < s.len() && in_class(s[p], k) {
        lemma_run_end_bounds(s, p + 1, k);
    }
}

/// A run is determined by where it stops: if every character of `[p, q)` is of
/// class `k` and the one at `q` is not, the run from `p` ends at `q`.
pub proof fn lemma_run_end_at(s: Seq<char>, p: int, q: int, k: Class)
    requires
        0 <= p <= q <= s.len(),
        forall|j: int| p <= j < q ==> in_class(#[trigger] s[j], k),
        q == s.len() || !in_class(s[q], k),
    ensures
        run_end(s, p, k) == q,
    decreases q - p,
{
    if p < q {
        lemma_run_end_at(s, p + 1, q, k);
    }
}

pub fn class_has(c: char, k: Class) -> (r: bool)
    ensures
        r == in_class(c, k),
{
    match k {
        Class::Ws => c == ' ' || c == '\t',
        Class::Hash => c == '#',
        Class::Ident => ('a' <= c && c <= 'z') || ('A' <= c && c <= 'Z') || ('0' <= c && c
            <= '9') || c == '_' || c == '-',
        Class::Line => c != '\n',
        Class::NotQuote => c != '"',
        Class::NotLt => c != '<',
    }
}

/// Scans the run of class `k` that starts at `p`.
pub fn scan(s: &Vec<char>, p: usize, k: Class) -> (r: usize)
    requires
        p <= s@.len(),
    ensures
        r == run_end(s@, p as int, k),
        p <= r <= s@.len(),
{
    let mut i: usize = p;
    while i < s.len() && class_has(s[i], k)
        invariant
            p <= i <= s@.len(),
            run_end(s@, i as int, k) == run_end(s@, p as int, k),
        decreases s@.len() - i,
    {
        i = i + 1;
    }
    i
}

/// Whether the character at `p` is `c`.
pub fn at(s: &Vec<char>, p: usize, c: char) -> (r: bool)
    ensures
        r == char_at(s@, p as int, c),
{
    p < s.len() && s[p] == c
}

/// A node under construction: the children matched so far tile `[start, pos)`.
pub struct Build {
    pub start: usize,
    pub pos: usize,
    pub len: usize,
    pub children: Vec<Node>,
    /// The source text the children are matched in.
    pub src: Ghost<Seq<char>>,
}

impl Build {
    pub open spec fn ok(&self) -> bool {
        &&& self.start <= self.pos <= self.len
        &&& tiles(self.children@, self.start as int, self.pos as int, self.len as int)
        &&& all_shaped(self.src@, self.children@)
    }

    pub fn new(start: usize, len: usize, src: Ghost<Seq<char>>) -> (r: Build)
        requires
            start <= len,
        ensures
            r.ok(),
            r.src == src,
            r.start == start,
            r.pos == start,
            r.len == len,
            r.children@.len() == 0,
    {
        Build { start, pos: start, len, children: Vec::new(), src }
    }

    /// Appends a well-formed node that starts where the last one ended.
    pub fn add(&mut self, n: Node)
        requires
            old(self).ok(),
            n.start == old(self).pos < n.end,
            wf(n, old(self).len as int),
            shaped(old(self).src@, n),
        ensures
            final(self).ok(),
            final(self).src == old(self).src,
            kids(final(self).children@) == kids(old(self).children@).push(triple(n)),
            final(self).start == old(self).start,
            final(self).len == old(self).len,
            final(self).pos == n.end,
            final(self).children@ == old(self).children@.push(n),
            keeps(old(self).children@, final(self).children@),
    {
        let ghost old_cs = self.children@;
        let e = n.end;
        self.children.push(n);
        self.pos = e;
        assert(self.children@.subrange(0, self.children@.len() - 1) =~= old_cs);
    }

    /// Appends a leaf of `rule` up to `to`, if that range is not empty.
    pub fn skip(&mut self, rule: Rule, to: usize)
        requires
            old(self).ok(),
            old(self).pos <= to <= old(self).len,
            is_leaf_rule(rule),
        ensures
            final(self).ok(),
            final(self).src == old(self).src,
            kids(final(self).children@) == kids(old(self).children@) + opt(
                rule,
                old(self).pos as int,
                to as int,
            ),
            final(self).start == old(self).start,
            final(self).len == old(self).len,
            final(self).pos == to,
            to > old(self).pos ==> {
                &&& final(self).children@.len() == old(self).children@.len() + 1
                &&& final(self).children@.subrange(0, old(self).children@.len() as int)
                    == old(self).children@
                &&& is_leaf(final(self).children@.last(), rule, old(self).pos as int, to as int)
            },
            to == old(self).pos ==> final(self).children@ == old(self).children@,
            keeps(old(self).children@, final(self).children@),
    {
        if to > self.pos {
            let n = leaf(rule, self.pos, to);
            self.add(n);
            assert(self.children@.subrange(0, self.children@.len() - 1) =~= old(self).children@);
        } else {
            assert(kids(old(self).children@) + opt(rule, old(self).pos as int, to as int) =~= kids(
                old(self).children@,
            ));
        }
    }

    /// Closes the node as a match of `rule` over `[start, pos)`.
    pub fn finish(self, rule: Rule) -> (r: Node)
        requires
            self.ok(),
        ensures
            wf(r, self.len as int),
            r.rule == rule,
            r.start == self.start,
            r.end == self.pos,
            r.children@ == self.children@,
            all_shaped(self.src@, r.children@),
    {
        Node { rule, start: self.start, end: self.pos, children: self.children }
    }
}

/// `b` extends `a`: what `a` holds stays in place.
pub open spec fn keeps(a: Seq<Node>, b: Seq<Node>) -> bool {
    a.len() <= b.len() && forall|i: int| 0 <= i < a.len() ==> #[trigger] b[i] == a[i]
}

/// Some node of `cs` is a leaf of `rule` over `[a, b)`.
pub open spec fn has_leaf(cs: Seq<Node>, rule: Rule, a: int, b: int) -> bool {
    exists|i: int| 0 <= i < cs.len() && is_leaf(#[trigger] cs[i], rule, a, b)
}

/// `n` is a leaf of `rule` over `[a, b)`.
pub open spec fn is_leaf(n: Node, rule: Rule, a: int, b: int) -> bool {
    n.rule == rule && n.start == a && n.end == b && n.children@.len() == 0
}

} // verus!
