use vstd::prelude::*;

use crate::grammar::{fails_at_start, match_at, Markdown, ParseError};
use crate::rule::Rule;
use crate::shape::shaped;
use crate::text::append_chars;
use crate::tree::{span_text, wf, Node};

verus! {

/// Parses `content` from its start against `rule`.
pub fn parse_rule(rule: Rule, content: &str) -> (r: Result<Node, ParseError>)
    ensures
        match r {
            Ok(n) => {
                &&& match_at(content@, 0, rule) == Some(n.end as int)
                &&& n.rule == rule
                &&& n.start == 0
                &&& wf(n, content@.len() as int)
                &&& shaped(content@, n)
            },
            Err(e) => match_at(content@, 0, rule) is None && fails_at_start(e, content@, rule),
        },
{
    Markdown::parse(rule, content)
}

/// Parses `content` from its start against `rule`, which must match.
pub fn test_parse(rule: Rule, content: &str) -> (r: Option<Node>)
    requires
        match_at(content@, 0, rule) is Some,
    ensures
        r is Some,
        r matches Some(n) ==> match_at(content@, 0, rule) == Some(n.end as int) && n.rule == rule
            && n.start == 0 && wf(n, content@.len() as int) && shaped(content@, n),
{
    match Markdown::parse(rule, content) {
        Ok(n) => Some(n),
        Err(_) => None,
    }
}

/// Parses `content` from its start against `rule`, which must match.
pub fn parse_or_panic(rule: Rule, content: &str) -> (r: Node)
    requires
        match_at(content@, 0, rule) is Some,
    ensures
        match_at(content@, 0, rule) == Some(r.end as int),
        r.rule == rule,
        r.start == 0,
        wf(r, content@.len() as int),
        shaped(content@, r),
{
    match Markdown::parse(rule, content) {
        Ok(n) => n,
        Err(_) => {
            assert(false);
            Node { rule, start: 0, end: 0, children: Vec::new() }
        },
    }
}

/// Whether `nodes` holds exactly one node.
pub fn is_only_child(nodes: &Vec<Node>) -> (r: bool)
    ensures
        r == (nodes@.len() == 1),
{
    nodes.len() == 1
}

/// Something whose text can be read off the source.
pub enum ParsedContainer {
    /// A sequence of sibling nodes.
    Pairs(Vec<Node>),
    /// One node.
    Pair(Node),
    /// A range `[start, end)` of the source.
    Span(usize, usize),
}

/// The texts of `ns`, joined in order.
pub open spec fn nodes_text(ns: Seq<Node>, s: Seq<char>) -> Seq<char>
    decreases ns.len(),
{
    if ns.len() == 0 {
        Seq::empty()
    } else {
        nodes_text(ns.drop_last(), s) + span_text(ns.last(), s)
    }
}

/// The text that `c` covers in `s`.
pub open spec fn container_text(c: ParsedContainer, s: Seq<char>) -> Seq<char> {
    match c {
        ParsedContainer::Pairs(ns) => nodes_text(ns@, s),
        ParsedContainer::Pair(n) => span_text(n, s),
        ParsedContainer::Span(a, b) => s.subrange(a as int, b as int),
    }
}

/// The ranges of `c` lie inside a source of length `len`.
pub open spec fn container_fits(c: ParsedContainer, len: int) -> bool {
    match c {
        ParsedContainer::Pairs(ns) => forall|i: int|
            0 <= i < ns@.len() ==> (#[trigger] ns@[i]).start <= ns@[i].end <= len,
        ParsedContainer::Pair(n) => n.start <= n.end <= len,
        ParsedContainer::Span(a, b) => a <= b <= len,
    }
}

/// The text that `container` covers in `text`.
pub fn get_text(container: &ParsedContainer, text: &Vec<char>) -> (r: String)
    requires
        container_fits(*container, text@.len() as int),
    ensures
        r@ == container_text(*container, text@),
{
    let mut out = String::new();
    match container {
        ParsedContainer::Pairs(ns) => {
            let mut i: usize = 0;
            while i < ns.len()
                invariant
                    i <= ns@.len(),
                    forall|k: int| 0 <= k < ns@.len() ==> (#[trigger] ns@[k]).start <= ns@[k].end <= text@.len(),
                    out@ == nodes_text(ns@.subrange(0, i as int), text@),
                decreases ns@.len() - i,
            {
                append_chars(&mut out, text, ns[i].start, ns[i].end);
                i = i + 1;
                assert(ns@.subrange(0, i as int).drop_last() =~= ns@.subrange(0, i - 1));
            }
            assert(ns@.subrange(0, i as int) =~= ns@);
        },
        ParsedContainer::Pair(n) => {
            append_chars(&mut out, text, n.start, n.end);
        },
        ParsedContainer::Span(a, b) => {
            append_chars(&mut out, text, *a, *b);
        },
    }
    assert(out@ =~= container_text(*container, text@));
    out
}

} // verus!
