use vstd::prelude::*;

use crate::block::{
    blank_at, break_at, file_at, heading_any, heading_at, paragraph_at, parse_blank_line,
    parse_file, parse_heading, parse_heading_level, parse_paragraph, parse_thematic_break, parsed,
};
use crate::fence::{dict_at, entry_at, fence_at, parse_dict, parse_entry, parse_fence_defn};
use crate::inline::{
    attr_at, attrs_at, block_tag_at, parse_attr, parse_attrs, parse_block_tag,
    parse_self_closing_tag, parse_tag, parse_value, quoted_at, self_closing_at, tag_at,
};
use crate::failure::{failure, failure_at};
use crate::rule::Rule;
use crate::shape::shaped;
use crate::text::chars_of;
use crate::tree::{wf, Node};

verus! {

/// The markdown grammar.
pub struct Markdown;

/// Why a parse failed.
#[derive(Debug)]
pub enum ParseError {
    /// The input does not match `rule` at `position`; `expected` lists the
    /// rules that were expected there.
    GrammarFailure { rule: Rule, position: usize, expected: Vec<Rule> },
    /// A parse that had to yield exactly one root yielded several.
    MultipleRoots,
    /// A parse that had to yield exactly one root yielded none.
    EmptyResult,
}

/// What the grammar matches at `p` when anchored at `rule`, if anything. The
/// rules that only occur inside others are not anchors.
pub open spec fn match_at(s: Seq<char>, p: int, rule: Rule) -> Option<int> {
    match rule {
        Rule::file => file_at(s, p),
        Rule::blank_line => blank_at(s, p),
        Rule::paragraph => paragraph_at(s, p),
        Rule::heading => heading_any(s, p),
        Rule::h1 => heading_at(s, p, 1),
        Rule::h2 => heading_at(s, p, 2),
        Rule::h3 => heading_at(s, p, 3),
        Rule::h4 => heading_at(s, p, 4),
        Rule::h5 => heading_at(s, p, 5),
        Rule::h6 => heading_at(s, p, 6),
        Rule::thematic_break => break_at(s, p),
        Rule::tag => tag_at(s, p),
        Rule::self_closing_tag => self_closing_at(s, p),
        Rule::block_tag => block_tag_at(s, p),
        Rule::attrs => attrs_at(s, p),
        Rule::attr => attr_at(s, p),
        Rule::fence_defn => fence_at(s, p),
        Rule::dict => dict_at(s, p),
        Rule::dict_entry => entry_at(s, p),
        Rule::value => quoted_at(s, p),
        _ => None,
    }
}

/// `e` reports that `rule`, anchored at the start of `s`, did not match:
/// with the deepest position the match reached and the rules expected there.
pub open spec fn fails_at_start(e: ParseError, s: Seq<char>, rule: Rule) -> bool {
    match e {
        ParseError::GrammarFailure { rule: r, position, expected } => r == rule && position
            == failure_at(s, 0, rule).0 && expected@ == failure_at(s, 0, rule).1,
        _ => false,
    }
}

/// Matches `rule` at `p` of `s`.
pub fn parse_at(s: &Vec<char>, p: usize, rule: Rule) -> (r: Option<Node>)
    requires
        p <= s@.len(),
    ensures
        parsed(r, match_at(s@, p as int, rule), rule, p as int, s@.len() as int),
        r matches Some(n) ==> shaped(s@, n),
{
    match rule {
        Rule::file => parse_file(s, p),
        Rule::blank_line => parse_blank_line(s, p),
        Rule::paragraph => parse_paragraph(s, p),
        Rule::heading => parse_heading(s, p),
        Rule::h1 => parse_heading_level(s, p, 1),
        Rule::h2 => parse_heading_level(s, p, 2),
        Rule::h3 => parse_heading_level(s, p, 3),
        Rule::h4 => parse_heading_level(s, p, 4),
        Rule::h5 => parse_heading_level(s, p, 5),
        Rule::h6 => parse_heading_level(s, p, 6),
        Rule::thematic_break => parse_thematic_break(s, p),
        Rule::tag => parse_tag(s, p),
        Rule::self_closing_tag => parse_self_closing_tag(s, p),
        Rule::block_tag => parse_block_tag(s, p),
        Rule::attrs => parse_attrs(s, p),
        Rule::attr => parse_attr(s, p),
        Rule::fence_defn => parse_fence_defn(s, p),
        Rule::dict => parse_dict(s, p),
        Rule::dict_entry => parse_entry(s, p),
        Rule::value => parse_value(s, p),
        _ => None,
    }
}

impl Markdown {
    /// Parses `text` from its start against `rule`: the match, which may
    /// cover only a prefix of the text, or a grammar failure with the deepest
    /// position reached and the rules expected there.
    pub fn parse_chars(rule: Rule, text: &Vec<char>) -> (r: Result<Node, ParseError>)
        ensures
            match r {
                Ok(n) => {
                    &&& match_at(text@, 0, rule) == Some(n.end as int)
                    &&& n.rule == rule
                    &&& n.start == 0
                    &&& wf(n, text@.len() as int)
                    &&& shaped(text@, n)
                },
                Err(e) => match_at(text@, 0, rule) is None && fails_at_start(e, text@, rule),
            },
    {
        match parse_at(text, 0, rule) {
            Some(n) => Ok(n),
            None => {
                let (position, expected) = failure(text, 0, rule);
                Err(ParseError::GrammarFailure { rule, position, expected })
            },
        }
    }

    /// Parses `input` from its start against `rule`; positions in the result
    /// count characters of `input`.
    pub fn parse(rule: Rule, input: &str) -> (r: Result<Node, ParseError>)
        ensures
            match r {
                Ok(n) => {
                    &&& match_at(input@, 0, rule) == Some(n.end as int)
                    &&& n.rule == rule
                    &&& n.start == 0
                    &&& wf(n, input@.len() as int)
                    &&& shaped(input@, n)
                },
                Err(e) => match_at(input@, 0, rule) is None && fails_at_start(e, input@, rule),
            },
    {
        let text = chars_of(input);
        Markdown::parse_chars(rule, &text)
    }
}

} // verus!
