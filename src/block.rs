use vstd::prelude::*;

use crate::rule::Rule;
use crate::shape::{block_rule, blocks_kids, expected_kids, kids, para_kids, shaped};
use crate::scan::{
    at, has_leaf, is_leaf, is_ws, keeps, lemma_run_end_at, past_line, run_end, scan, Build, Class,
};
use crate::tree::{wf, Node};

verus! {

/// What a rule function returns, against what the grammar says of the input:
/// a node of `rule` over `[p, e)` exactly when the grammar matches up to `e`.
pub open spec fn parsed(r: Option<Node>, m: Option<int>, rule: Rule, p: int, len: int) -> bool {
    match r {
        Some(n) => {
            &&& m == Some(n.end as int)
            &&& n.rule == rule
            &&& n.start == p
            &&& wf(n, len)
        },
        None => m is None,
    }
}

/// The rule of a heading with `n` marks.
pub open spec fn heading_rule(n: int) -> Rule {
    if n == 1 {
        Rule::h1
    } else if n == 2 {
        Rule::h2
    } else if n == 3 {
        Rule::h3
    } else if n == 4 {
        Rule::h4
    } else if n == 5 {
        Rule::h5
    } else {
        Rule::h6
    }
}

/// A heading line with exactly `n` marks at `p`: at most three characters of
/// indentation, the marks, required whitespace, non-empty text, and the end
/// of the line. Its end, past the line feed if there is one.
pub open spec fn heading_at(s: Seq<char>, p: int, n: int) -> Option<int> {
    let i = run_end(s, p, Class::Ws);
    let m = run_end(s, i, Class::Hash);
    let w = run_end(s, m, Class::Ws);
    let t = run_end(s, w, Class::Line);
    if i - p <= 3 && m - i == n && w > m && t > w {
        Some(past_line(s, t))
    } else {
        None
    }
}

/// Where the text of a would-be heading line at `p` starts and ends.
pub open spec fn heading_text_span(s: Seq<char>, p: int) -> (int, int) {
    let i = run_end(s, p, Class::Ws);
    let m = run_end(s, i, Class::Hash);
    let w = run_end(s, m, Class::Ws);
    (w, run_end(s, w, Class::Line))
}

/// The number of marks of a would-be heading line at `p`.
pub open spec fn heading_level(s: Seq<char>, p: int) -> int {
    let i = run_end(s, p, Class::Ws);
    run_end(s, i, Class::Hash) - i
}

/// A heading of any level at `p`.
pub open spec fn heading_any(s: Seq<char>, p: int) -> Option<int> {
    let n = heading_level(s, p);
    if 1 <= n <= 6 {
        heading_at(s, p, n)
    } else {
        None
    }
}

fn heading_rule_of(n: usize) -> (r: Rule)
    ensures
        r == heading_rule(n as int),
{
    if n == 1 {
        Rule::h1
    } else if n == 2 {
        Rule::h2
    } else if n == 3 {
        Rule::h3
    } else if n == 4 {
        Rule::h4
    } else if n == 5 {
        Rule::h5
    } else {
        Rule::h6
    }
}

/// Matches a heading with exactly `n` marks at `p`.
pub fn parse_heading_level(s: &Vec<char>, p: usize, n: usize) -> (r: Option<Node>)
    requires
        p <= s@.len(),
        1 <= n <= 6,
    ensures
        parsed(r, heading_at(s@, p as int, n as int), heading_rule(n as int), p as int, s@.len() as int),
        r matches Some(n) ==> p < n.end,
        r matches Some(h) ==> has_leaf(
            h.children@,
            Rule::heading_text,
            heading_text_span(s@, p as int).0,
            heading_text_span(s@, p as int).1,
        ),
        r matches Some(nd) ==> shaped(s@, nd),
{
    let i = scan(s, p, Class::Ws);
    let m = scan(s, i, Class::Hash);
    let w = scan(s, m, Class::Ws);
    let t = scan(s, w, Class::Line);
    if i - p <= 3 && m - i == n && w > m && t > w {
        let mut b = Build::new(p, s.len(), Ghost(s@));
        b.skip(Rule::indent, i);
        b.skip(Rule::marks, m);
        b.skip(Rule::space, w);
        b.skip(Rule::heading_text, t);
        let ghost at_text = b.children@.len() - 1;
        let ghost with_text = b.children@;
        let e = if t < s.len() { t + 1 } else { t };
        b.skip(Rule::eol, e);
        proof {
            assert(is_leaf(with_text[at_text], Rule::heading_text, w as int, t as int));
            assert(keeps(with_text, b.children@));
            assert(b.children@[at_text] == with_text[at_text]);
        }
        Some(b.finish(heading_rule_of(n)))
    } else {
        None
    }
}

/// Matches a heading of any level at `p`; its one child is the heading of
/// the level that its marks give.
pub fn parse_heading(s: &Vec<char>, p: usize) -> (r: Option<Node>)
    requires
        p <= s@.len(),
    ensures
        parsed(r, heading_any(s@, p as int), Rule::heading, p as int, s@.len() as int),
        r matches Some(n) ==> n.children@.len() == 1 && n.children@[0].rule == heading_rule(
            heading_level(s@, p as int),
        ),
        r matches Some(n) ==> p < n.end,
        r matches Some(nd) ==> shaped(s@, nd),
{
    let i = scan(s, p, Class::Ws);
    let m = scan(s, i, Class::Hash);
    let n = m - i;
    if 1 <= n && n <= 6 {
        match parse_heading_level(s, p, n) {
            Some(h) => {
                let mut b = Build::new(p, s.len(), Ghost(s@));
                b.add(h);
                Some(b.finish(Rule::heading))
            },
            None => None,
        }
    } else {
        None
    }
}

/// `c` may make up a thematic break.
pub open spec fn is_break_char(c: char) -> bool {
    c == '-' || c == '*' || c == '_'
}

/// The number of characters `c` in `[a, b)`.
pub open spec fn count_in(s: Seq<char>, a: int, b: int, c: char) -> int
    decreases b - a,
{
    if a < b {
        count_in(s, a, b - 1, c) + if s[b - 1] == c {
            1int
        } else {
            0int
        }
    } else {
        0
    }
}

/// `d` may stand in a thematic break made of `c`.
pub open spec fn fits(d: char, c: char) -> bool {
    d == c || is_ws(d)
}

/// Every character of `[a, b)` may stand in a thematic break made of `c`.
pub open spec fn all_fit(s: Seq<char>, a: int, b: int, c: char) -> bool {
    forall|k: int| a <= k < b ==> fits(#[trigger] s[k], c)
}

/// A thematic break line at `p`: only whitespace and one break character,
/// which occurs at least three times. Its end, past the line feed.
pub open spec fn break_at(s: Seq<char>, p: int) -> Option<int> {
    let t = run_end(s, p, Class::Line);
    let i = run_end(s, p, Class::Ws);
    if i < t && is_break_char(s[i]) && all_fit(s, p, t, s[i]) && count_in(s, p, t, s[i]) >= 3 {
        Some(past_line(s, t))
    } else {
        None
    }
}

/// A blank line at `p`: whitespace up to a line feed, or a non-empty run of
/// whitespace up to the end of the input.
pub open spec fn blank_at(s: Seq<char>, p: int) -> Option<int> {
    let w = run_end(s, p, Class::Ws);
    if w < s.len() && s[w] == '\n' {
        Some(w + 1)
    } else if w == s.len() && w > p {
        Some(w)
    } else {
        None
    }
}

/// A line at `q` that belongs in a paragraph: it is not blank and starts no
/// heading and no thematic break.
pub open spec fn text_line(s: Seq<char>, q: int) -> bool {
    &&& 0 <= q < s.len()
    &&& blank_at(s, q) is None
    &&& heading_any(s, q) is None
    &&& break_at(s, q) is None
}

/// Where the run of paragraph lines from `q` ends.
pub open spec fn para_end(s: Seq<char>, q: int) -> int
    decreases s.len() - q,
{
    let e = past_line(s, run_end(s, q, Class::Line));
    if text_line(s, q) && q < e <= s.len() {
        para_end(s, e)
    } else {
        q
    }
}

/// A paragraph at `p`: one or more paragraph lines.
pub open spec fn paragraph_at(s: Seq<char>, p: int) -> Option<int> {
    if text_line(s, p) {
        Some(para_end(s, p))
    } else {
        None
    }
}

/// A block at `p`, the first of these that matches: a blank line, a
/// heading, a thematic break, a paragraph.
pub open spec fn block_at(s: Seq<char>, p: int) -> Option<int> {
    if blank_at(s, p) is Some {
        blank_at(s, p)
    } else if heading_any(s, p) is Some {
        heading_any(s, p)
    } else if break_at(s, p) is Some {
        break_at(s, p)
    } else {
        paragraph_at(s, p)
    }
}

/// Where the run of blocks from `p` ends.
pub open spec fn blocks_end(s: Seq<char>, p: int) -> int
    decreases s.len() - p,
{
    match block_at(s, p) {
        Some(e) => if p < e <= s.len() {
            blocks_end(s, e)
        } else {
            p
        },
        None => p,
    }
}

/// A whole document from `p`: blocks up to the end of the input.
pub open spec fn file_at(s: Seq<char>, p: int) -> Option<int> {
    if blocks_end(s, p) == s.len() {
        Some(s.len() as int)
    } else {
        None
    }
}

/// Matches a thematic break at `p`.
pub fn parse_thematic_break(s: &Vec<char>, p: usize) -> (r: Option<Node>)
    requires
        p <= s@.len(),
    ensures
        parsed(r, break_at(s@, p as int), Rule::thematic_break, p as int, s@.len() as int),
        r matches Some(n) ==> p < n.end,
        r matches Some(nd) ==> shaped(s@, nd),
{
    let t = scan(s, p, Class::Line);
    let i = scan(s, p, Class::Ws);
    if i >= t {
        return None;
    }
    let c = s[i];
    if !(c == '-' || c == '*' || c == '_') {
        return None;
    }
    let mut k: usize = p;
    let mut count: usize = 0;
    while k < t
        invariant
            p <= k <= t <= s@.len(),
            p <= i < t,
            t == run_end(s@, p as int, Class::Line),
            i == run_end(s@, p as int, Class::Ws),
            c == s@[i as int],
            count == count_in(s@, p as int, k as int, c),
            count <= k - p,
            all_fit(s@, p as int, k as int, c),
        decreases t - k,
    {
        let d = s[k];
        if d == c {
            count = count + 1;
        } else if !(d == ' ' || d == '\t') {
            assert(!fits(s@[k as int], c));
            return None;
        }
        k = k + 1;
    }
    if count < 3 {
        return None;
    }
    let mut b = Build::new(p, s.len(), Ghost(s@));
    b.skip(Rule::break_marks, t);
    let e = if t < s.len() { t + 1 } else { t };
    b.skip(Rule::eol, e);
    Some(b.finish(Rule::thematic_break))
}

/// Matches a blank line at `p`; the node is a leaf.
pub fn parse_blank_line(s: &Vec<char>, p: usize) -> (r: Option<Node>)
    requires
        p <= s@.len(),
    ensures
        parsed(r, blank_at(s@, p as int), Rule::blank_line, p as int, s@.len() as int),
        r matches Some(n) ==> p < n.end,
        r matches Some(nd) ==> shaped(s@, nd),
{
    let w = scan(s, p, Class::Ws);
    let e = if w < s.len() && at(s, w, '\n') {
        w + 1
    } else if w == s.len() && w > p {
        w
    } else {
        return None;
    };
    Some(crate::tree::leaf(Rule::blank_line, p, e))
}

/// Whether a paragraph line starts at `q`.
fn is_text_line(s: &Vec<char>, q: usize) -> (r: bool)
    requires
        q <= s@.len(),
    ensures
        r == text_line(s@, q as int),
{
    q < s.len() && parse_blank_line(s, q).is_none() && parse_heading(s, q).is_none()
        && parse_thematic_break(s, q).is_none()
}

/// Matches a paragraph at `p`: a `text` and an `eol` child for each line.
pub fn parse_paragraph(s: &Vec<char>, p: usize) -> (r: Option<Node>)
    requires
        p <= s@.len(),
    ensures
        parsed(r, paragraph_at(s@, p as int), Rule::paragraph, p as int, s@.len() as int),
        r matches Some(n) ==> p < n.end,
        r matches Some(nd) ==> shaped(s@, nd),
{
    if !is_text_line(s, p) {
        return None;
    }
    let mut b = Build::new(p, s.len(), Ghost(s@));
    let mut q: usize = p;
    assert(kids(b.children@) + para_kids(s@, q as int) =~= para_kids(s@, p as int));
    while is_text_line(s, q)
        invariant
            p <= q <= s@.len(),
            b.ok(),
            b.start == p,
            b.pos == q,
            b.len == s@.len(),
            para_end(s@, q as int) == para_end(s@, p as int),
            q > p || text_line(s@, q as int),
            b.src@ == s@,
            kids(b.children@) + para_kids(s@, q as int) == para_kids(s@, p as int),
        decreases s@.len() - q,
    {
        let t = scan(s, q, Class::Line);
        assert(s@[q as int] != '\n') by {
            if s@[q as int] == '\n' {
                assert(run_end(s@, q as int, Class::Ws) == q);
            }
        }
        let ghost k0 = kids(b.children@);
        let ghost q0 = q;
        b.skip(Rule::text, t);
        let e = if t < s.len() { t + 1 } else { t };
        b.skip(Rule::eol, e);
        q = e;
        assert(k0 + para_kids(s@, q0 as int) =~= kids(b.children@) + para_kids(s@, q as int));
    }
    assert(kids(b.children@) =~= kids(b.children@) + para_kids(s@, q as int));
    Some(b.finish(Rule::paragraph))
}

/// Matches one block at `p`: a blank line, a heading, a thematic break or a
/// paragraph, tried in that order.
pub fn parse_block(s: &Vec<char>, p: usize) -> (r: Option<Node>)
    requires
        p <= s@.len(),
    ensures
        match r {
            Some(n) => {
                &&& block_at(s@, p as int) == Some(n.end as int)
                &&& n.start == p < n.end
                &&& wf(n, s@.len() as int)
            },
            None => block_at(s@, p as int) is None,
        },
        r matches Some(nd) ==> shaped(s@, nd) && nd.rule == block_rule(s@, p as int),
{
    if let Some(n) = parse_blank_line(s, p) {
        return Some(n);
    }
    if let Some(n) = parse_heading(s, p) {
        return Some(n);
    }
    if let Some(n) = parse_thematic_break(s, p) {
        return Some(n);
    }
    parse_paragraph(s, p)
}

/// Matches a whole document from `p`: one child for each block.
pub fn parse_file(s: &Vec<char>, p: usize) -> (r: Option<Node>)
    requires
        p <= s@.len(),
    ensures
        parsed(r, file_at(s@, p as int), Rule::file, p as int, s@.len() as int),
        r matches Some(nd) ==> shaped(s@, nd),
{
    let mut b = Build::new(p, s.len(), Ghost(s@));
    let mut q: usize = p;
    let mut done = false;
    assert(kids(b.children@) + blocks_kids(s@, q as int) =~= blocks_kids(s@, p as int));
    while !done
        invariant
            p <= q <= s@.len(),
            b.ok(),
            b.start == p,
            b.pos == q,
            b.len == s@.len(),
            blocks_end(s@, q as int) == blocks_end(s@, p as int),
            done ==> block_at(s@, q as int) is None,
            b.src@ == s@,
            kids(b.children@) + blocks_kids(s@, q as int) == blocks_kids(s@, p as int),
        decreases s@.len() - q, if done { 0int } else { 1int },
    {
        match parse_block(s, q) {
            Some(n) => {
                let ghost k0 = kids(b.children@);
                let ghost q0 = q;
                q = n.end;
                b.add(n);
                assert(k0 + blocks_kids(s@, q0 as int) =~= kids(b.children@) + blocks_kids(s@, q as int));
            },
            None => {
                done = true;
            },
        }
    }
    assert(kids(b.children@) =~= kids(b.children@) + blocks_kids(s@, q as int));
    if q == s.len() {
        Some(b.finish(Rule::file))
    } else {
        None
    }
}

/// `n` heading marks.
pub open spec fn hashes(n: nat) -> Seq<char> {
    Seq::new(n, |i: int| '#')
}

/// Every character of `s` is a space or a tab.
pub open spec fn all_ws(s: Seq<char>) -> bool {
    forall|i: int| 0 <= i < s.len() ==> is_ws(#[trigger] s[i])
}

/// Heading levels: a line of at most three characters of indentation, `n`
/// marks, whitespace and text matches the heading rule of level `n` and no
/// other, and the heading rule with level `n`, for `n` from one to six; with
/// seven marks it matches no heading rule at all.
pub proof fn lemma_heading_levels(
    indent: Seq<char>,
    n: nat,
    gap: Seq<char>,
    body: Seq<char>,
    rest: Seq<char>,
)
    requires
        indent.len() <= 3,
        all_ws(indent),
        1 <= n <= 7,
        gap.len() >= 1,
        all_ws(gap),
        body.len() >= 1,
        !is_ws(body[0]),
        forall|i: int| 0 <= i < body.len() ==> #[trigger] body[i] != '\n',
        rest.len() == 0 || rest[0] == '\n',
    ensures
        ({
            let s = indent + hashes(n) + gap + body + rest;
            &&& heading_level(s, 0) == n
            &&& forall|m: int| 1 <= m <= 6 ==> (#[trigger] heading_at(s, 0, m) is Some <==> m == n)
            &&& n <= 6 ==> heading_any(s, 0) is Some && heading_any(s, 0) == heading_at(s, 0, n as int)
            &&& n == 7 ==> heading_any(s, 0) is None
        }),
{
    let s = indent + hashes(n) + gap + body + rest;
    let i0 = indent.len() as int;
    let m0 = i0 + n;
    let w0 = m0 + gap.len();
    let t0 = w0 + body.len();
    assert forall|j: int| 0 <= j < i0 implies in_ws(s, j) by {
        assert(s[j] == indent[j]);
    }
    assert(s[i0] == '#');
    lemma_run_end_at(s, 0, i0, Class::Ws);
    assert forall|j: int| i0 <= j < m0 implies #[trigger] s[j] == '#' by {
        assert(s[j] == hashes(n)[j - i0]);
    }
    assert(s[m0] == gap[0]);
    lemma_run_end_at(s, i0, m0, Class::Hash);
    assert forall|j: int| m0 <= j < w0 implies in_ws(s, j) by {
        assert(s[j] == gap[j - m0]);
    }
    assert(s[w0] == body[0]);
    lemma_run_end_at(s, m0, w0, Class::Ws);
    assert forall|j: int| w0 <= j < t0 implies #[trigger] s[j] != '\n' by {
        assert(s[j] == body[j - w0]);
    }
    if t0 < s.len() {
        assert(s[t0] == rest[0]);
    }
    lemma_run_end_at(s, w0, t0, Class::Line);
}

/// The character at `j` of `s` is a space or a tab.
pub open spec fn in_ws(s: Seq<char>, j: int) -> bool {
    is_ws(s[j])
}

} // verus!
