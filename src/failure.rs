use vstd::prelude::*;

use crate::block::{block_at, blocks_end, fits, is_break_char, parse_block};
use crate::inline::{after_attrs, name_end, parse_attrs, same_text};
use crate::fence::{entries_end, entry_at, parse_entry};
use crate::rule::Rule;
use crate::scan::{at, char_at, run_end, scan, Class};

verus! {

/// Where a match fails and what was expected there.
pub type Failure = (int, Seq<Rule>);

/// A double-quoted value at `b` fails at the missing opening quote, or at
/// the end of the input where the closing quote is missing.
pub open spec fn quoted_fail(s: Seq<char>, b: int) -> Failure {
    if !char_at(s, b, '"') {
        (b, seq![Rule::value])
    } else {
        (run_end(s, b + 1, Class::NotQuote), seq![Rule::punct])
    }
}

/// Where an attribute at `q` fails.
pub open spec fn attr_fail(s: Seq<char>, q: int) -> Failure {
    let k = run_end(s, q, Class::Ident);
    if k <= q {
        (q, seq![Rule::key])
    } else if !char_at(s, k, '=') {
        (k, seq![Rule::punct])
    } else {
        quoted_fail(s, k + 1)
    }
}

/// Where a dictionary entry at `q` fails.
pub open spec fn entry_fail(s: Seq<char>, q: int) -> Failure {
    let k = run_end(s, q, Class::Ident);
    let a = run_end(s, k, Class::Ws);
    if k <= q {
        (q, seq![Rule::key])
    } else if !char_at(s, a, ':') {
        (a, seq![Rule::punct])
    } else {
        quoted_fail(s, run_end(s, a + 1, Class::Ws))
    }
}

/// Where a heading with exactly `n` marks at `p` fails.
pub open spec fn heading_fail(s: Seq<char>, p: int, n: int) -> Failure {
    let i = run_end(s, p, Class::Ws);
    let m = run_end(s, i, Class::Hash);
    let w = run_end(s, m, Class::Ws);
    if i - p > 3 {
        (p + 3, seq![Rule::marks])
    } else if m - i < n {
        (m, seq![Rule::marks])
    } else if m - i > n {
        (i + n, seq![Rule::space])
    } else if w <= m {
        (m, seq![Rule::space])
    } else {
        (w, seq![Rule::heading_text])
    }
}

/// Where a heading of any level at `p` fails.
pub open spec fn heading_any_fail(s: Seq<char>, p: int) -> Failure {
    let i = run_end(s, p, Class::Ws);
    let m = run_end(s, i, Class::Hash);
    if i - p > 3 {
        (p + 3, seq![Rule::marks])
    } else if m - i == 0 {
        (i, seq![Rule::marks])
    } else if m - i > 6 {
        (i + 6, seq![Rule::space])
    } else {
        heading_fail(s, p, m - i)
    }
}

/// The first position from `k` on, before `t`, whose character cannot stand
/// in a thematic break made of `c`; `t` if there is none.
pub open spec fn first_misfit(s: Seq<char>, k: int, t: int, c: char) -> int
    decreases t - k,
{
    if k < t && 0 <= k < s.len() && fits(s[k], c) {
        first_misfit(s, k + 1, t, c)
    } else {
        k
    }
}

/// Where a thematic break at `p` fails: at its first character that does not
/// belong, or at the end of its line where marks are missing.
pub open spec fn break_fail(s: Seq<char>, p: int) -> Failure {
    let t = run_end(s, p, Class::Line);
    let i = run_end(s, p, Class::Ws);
    if i >= t || !is_break_char(s[i]) {
        (i, seq![Rule::break_marks])
    } else {
        (first_misfit(s, p, t, s[i]), seq![Rule::break_marks])
    }
}

/// Where a self-closing tag at `p` fails.
pub open spec fn self_closing_fail(s: Seq<char>, p: int) -> Failure {
    let n = name_end(s, p);
    let a = after_attrs(s, n);
    if !char_at(s, p, '<') {
        (p, seq![Rule::punct])
    } else if n <= p + 1 {
        (p + 1, seq![Rule::tag_name])
    } else if !char_at(s, a, '/') {
        (a, seq![Rule::punct])
    } else {
        (a + 1, seq![Rule::punct])
    }
}

/// Where a block tag at `p` fails; a closing name other than the opening one
/// fails where the closing name starts.
pub open spec fn block_tag_fail(s: Seq<char>, p: int) -> Failure {
    let n = name_end(s, p);
    let a = after_attrs(s, n);
    let c = run_end(s, a + 1, Class::NotLt);
    let m = run_end(s, c + 2, Class::Ident);
    let w = run_end(s, m, Class::Ws);
    if !char_at(s, p, '<') {
        (p, seq![Rule::punct])
    } else if n <= p + 1 {
        (p + 1, seq![Rule::tag_name])
    } else if !char_at(s, a, '>') {
        (a, seq![Rule::punct])
    } else if !char_at(s, c, '<') {
        (c, seq![Rule::punct])
    } else if !char_at(s, c + 1, '/') {
        (c + 1, seq![Rule::punct])
    } else if s.subrange(p + 1, n) != s.subrange(c + 2, m) {
        (c + 2, seq![Rule::tag_name])
    } else {
        (w, seq![Rule::punct])
    }
}

/// Of two failures of alternatives, the deeper one; at the same position,
/// what both expected.
pub open spec fn deeper_fail(x: Failure, y: Failure) -> Failure {
    if x.0 > y.0 {
        x
    } else if y.0 > x.0 {
        y
    } else {
        (x.0, x.1 + y.1)
    }
}

/// Where a dictionary at `p` fails: at the missing opening brace, or where
/// its entries end and no closing brace follows.
pub open spec fn dict_fail(s: Seq<char>, p: int) -> Failure {
    let q = run_end(s, p + 1, Class::Ws);
    let r = match entry_at(s, q) {
        Some(e) => entries_end(s, e),
        None => q,
    };
    if !char_at(s, p, '{') {
        (p, seq![Rule::punct])
    } else {
        (run_end(s, r, Class::Ws), seq![Rule::punct])
    }
}

/// Where the grammar anchored at `rule` fails on `s` at `p`: the deepest
/// position the match reached, and the rules expected there.
pub open spec fn failure_at(s: Seq<char>, p: int, rule: Rule) -> Failure {
    match rule {
        Rule::file => (
            blocks_end(s, p),
            seq![Rule::blank_line, Rule::heading, Rule::thematic_break, Rule::paragraph],
        ),
        Rule::blank_line => (run_end(s, p, Class::Ws), seq![Rule::eol]),
        Rule::paragraph => (p, seq![Rule::text]),
        Rule::heading => heading_any_fail(s, p),
        Rule::h1 => heading_fail(s, p, 1),
        Rule::h2 => heading_fail(s, p, 2),
        Rule::h3 => heading_fail(s, p, 3),
        Rule::h4 => heading_fail(s, p, 4),
        Rule::h5 => heading_fail(s, p, 5),
        Rule::h6 => heading_fail(s, p, 6),
        Rule::thematic_break => break_fail(s, p),
        Rule::tag => deeper_fail(self_closing_fail(s, p), block_tag_fail(s, p)),
        Rule::self_closing_tag => self_closing_fail(s, p),
        Rule::block_tag => block_tag_fail(s, p),
        Rule::attrs => attr_fail(s, run_end(s, p, Class::Ws)),
        Rule::attr => attr_fail(s, p),
        Rule::fence_defn => if !char_at(s, p, '`') {
            (p, seq![Rule::fence])
        } else if !char_at(s, p + 1, '`') {
            (p + 1, seq![Rule::fence])
        } else {
            (p + 2, seq![Rule::fence])
        },
        Rule::dict => dict_fail(s, p),
        Rule::dict_entry => entry_fail(s, p),
        Rule::value => quoted_fail(s, p),
        _ => (p, seq![rule]),
    }
}

fn one(rule: Rule) -> (r: Vec<Rule>)
    ensures
        r@ == seq![rule],
{
    let mut v: Vec<Rule> = Vec::new();
    v.push(rule);
    assert(v@ =~= seq![rule]);
    v
}

fn quoted_failure(s: &Vec<char>, b: usize) -> (r: (usize, Vec<Rule>))
    requires
        b <= s@.len(),
    ensures
        r.0 == quoted_fail(s@, b as int).0,
        r.1@ == quoted_fail(s@, b as int).1,
{
    if !(b < s.len() && at(s, b, '"')) {
        (b, one(Rule::value))
    } else {
        (scan(s, b + 1, Class::NotQuote), one(Rule::punct))
    }
}

fn attr_failure(s: &Vec<char>, q: usize) -> (r: (usize, Vec<Rule>))
    requires
        q <= s@.len(),
    ensures
        r.0 == attr_fail(s@, q as int).0,
        r.1@ == attr_fail(s@, q as int).1,
{
    let k = scan(s, q, Class::Ident);
    if k <= q {
        (q, one(Rule::key))
    } else if !(k < s.len() && at(s, k, '=')) {
        (k, one(Rule::punct))
    } else {
        quoted_failure(s, k + 1)
    }
}

fn entry_failure(s: &Vec<char>, q: usize) -> (r: (usize, Vec<Rule>))
    requires
        q <= s@.len(),
    ensures
        r.0 == entry_fail(s@, q as int).0,
        r.1@ == entry_fail(s@, q as int).1,
{
    let k = scan(s, q, Class::Ident);
    let a = scan(s, k, Class::Ws);
    if k <= q {
        (q, one(Rule::key))
    } else if !(a < s.len() && at(s, a, ':')) {
        (a, one(Rule::punct))
    } else {
        quoted_failure(s, scan(s, a + 1, Class::Ws))
    }
}

fn heading_failure(s: &Vec<char>, p: usize, n: usize) -> (r: (usize, Vec<Rule>))
    requires
        p <= s@.len(),
        n <= 6,
    ensures
        r.0 == heading_fail(s@, p as int, n as int).0,
        r.1@ == heading_fail(s@, p as int, n as int).1,
{
    let i = scan(s, p, Class::Ws);
    let m = scan(s, i, Class::Hash);
    let w = scan(s, m, Class::Ws);
    if i - p > 3 {
        (p + 3, one(Rule::marks))
    } else if m - i < n {
        (m, one(Rule::marks))
    } else if m - i > n {
        (i + n, one(Rule::space))
    } else if w <= m {
        (m, one(Rule::space))
    } else {
        (w, one(Rule::heading_text))
    }
}

fn heading_any_failure(s: &Vec<char>, p: usize) -> (r: (usize, Vec<Rule>))
    requires
        p <= s@.len(),
    ensures
        r.0 == heading_any_fail(s@, p as int).0,
        r.1@ == heading_any_fail(s@, p as int).1,
{
    let i = scan(s, p, Class::Ws);
    let m = scan(s, i, Class::Hash);
    if i - p > 3 {
        (p + 3, one(Rule::marks))
    } else if m - i == 0 {
        (i, one(Rule::marks))
    } else if m - i > 6 {
        (i + 6, one(Rule::space))
    } else {
        heading_failure(s, p, m - i)
    }
}

fn break_failure(s: &Vec<char>, p: usize) -> (r: (usize, Vec<Rule>))
    requires
        p <= s@.len(),
    ensures
        r.0 == break_fail(s@, p as int).0,
        r.1@ == break_fail(s@, p as int).1,
{
    let t = scan(s, p, Class::Line);
    let i = scan(s, p, Class::Ws);
    if i >= t || !(s[i] == '-' || s[i] == '*' || s[i] == '_') {
        return (i, one(Rule::break_marks));
    }
    let c = s[i];
    let mut k: usize = p;
    while k < t && (s[k] == c || s[k] == ' ' || s[k] == '\t')
        invariant
            p <= k <= t <= s@.len(),
            first_misfit(s@, k as int, t as int, c) == first_misfit(s@, p as int, t as int, c),
        decreases t - k,
    {
        k = k + 1;
    }
    (k, one(Rule::break_marks))
}

fn self_closing_failure(s: &Vec<char>, p: usize) -> (r: (usize, Vec<Rule>))
    requires
        p <= s@.len(),
    ensures
        r.0 == self_closing_fail(s@, p as int).0,
        r.1@ == self_closing_fail(s@, p as int).1,
{
    if !(p < s.len() && at(s, p, '<')) {
        return (p, one(Rule::punct));
    }
    let n = scan(s, p + 1, Class::Ident);
    if n <= p + 1 {
        return (p + 1, one(Rule::tag_name));
    }
    let a = attr_part_end(s, n);
    if !(a < s.len() && at(s, a, '/')) {
        (a, one(Rule::punct))
    } else {
        (a + 1, one(Rule::punct))
    }
}

/// Where the attribute part of a tag whose name ends at `n` ends.
fn attr_part_end(s: &Vec<char>, n: usize) -> (r: usize)
    requires
        n <= s@.len(),
    ensures
        r == after_attrs(s@, n as int),
        r <= s@.len(),
{
    match parse_attrs(s, n) {
        Some(x) => x.end,
        None => scan(s, n, Class::Ws),
    }
}

fn block_tag_failure(s: &Vec<char>, p: usize) -> (r: (usize, Vec<Rule>))
    requires
        p <= s@.len(),
    ensures
        r.0 == block_tag_fail(s@, p as int).0,
        r.1@ == block_tag_fail(s@, p as int).1,
{
    if !(p < s.len() && at(s, p, '<')) {
        return (p, one(Rule::punct));
    }
    let n = scan(s, p + 1, Class::Ident);
    if n <= p + 1 {
        return (p + 1, one(Rule::tag_name));
    }
    let a = attr_part_end(s, n);
    if !(a < s.len() && at(s, a, '>')) {
        return (a, one(Rule::punct));
    }
    let c = scan(s, a + 1, Class::NotLt);
    if !(c < s.len() && at(s, c, '<')) {
        return (c, one(Rule::punct));
    }
    if !(c + 1 < s.len() && at(s, c + 1, '/')) {
        return (c + 1, one(Rule::punct));
    }
    let m = scan(s, c + 2, Class::Ident);
    if !same_text(s, p + 1, n, c + 2, m) {
        return (c + 2, one(Rule::tag_name));
    }
    (scan(s, m, Class::Ws), one(Rule::punct))
}

fn dict_failure(s: &Vec<char>, p: usize) -> (r: (usize, Vec<Rule>))
    requires
        p <= s@.len(),
    ensures
        r.0 == dict_fail(s@, p as int).0,
        r.1@ == dict_fail(s@, p as int).1,
{
    if !(p < s.len() && at(s, p, '{')) {
        return (p, one(Rule::punct));
    }
    let q = scan(s, p + 1, Class::Ws);
    let mut e = q;
    if let Some(x) = parse_entry(s, q) {
        e = x.end;
        loop
            invariant
                q < e <= s@.len(),
                entry_at(s@, q as int) is Some,
                entries_end(s@, e as int) == entries_end(s@, entry_at(s@, q as int)->0),
            ensures
                q < e <= s@.len(),
                e == entries_end(s@, entry_at(s@, q as int)->0),
            decreases s@.len() - e,
        {
            let w = scan(s, e, Class::Ws);
            if w < s.len() && at(s, w, ',') {
                let b = scan(s, w + 1, Class::Ws);
                if let Some(x) = parse_entry(s, b) {
                    e = x.end;
                    continue ;
                }
            }
            break ;
        }
    }
    (scan(s, e, Class::Ws), one(Rule::punct))
}

/// Where the run of blocks from `p` ends.
fn blocks_stop(s: &Vec<char>, p: usize) -> (r: usize)
    requires
        p <= s@.len(),
    ensures
        r == blocks_end(s@, p as int),
{
    let mut q: usize = p;
    loop
        invariant
            p <= q <= s@.len(),
            blocks_end(s@, q as int) == blocks_end(s@, p as int),
        ensures
            q == blocks_end(s@, p as int),
        decreases s@.len() - q,
    {
        match parse_block(s, q) {
            Some(n) => {
                q = n.end;
            },
            None => {
                assert(block_at(s@, q as int) is None);
                break ;
            },
        }
    }
    q
}

/// Where the grammar anchored at `rule` fails on `s` at `p`, and what it
/// expected there.
pub fn failure(s: &Vec<char>, p: usize, rule: Rule) -> (r: (usize, Vec<Rule>))
    requires
        p <= s@.len(),
    ensures
        r.0 == failure_at(s@, p as int, rule).0,
        r.1@ == failure_at(s@, p as int, rule).1,
{
    match rule {
        Rule::file => {
            let q = blocks_stop(s, p);
            let mut v: Vec<Rule> = Vec::new();
            v.push(Rule::blank_line);
            v.push(Rule::heading);
            v.push(Rule::thematic_break);
            v.push(Rule::paragraph);
            assert(v@ =~= seq![Rule::blank_line, Rule::heading, Rule::thematic_break, Rule::paragraph]);
            (q, v)
        },
        Rule::blank_line => (scan(s, p, Class::Ws), one(Rule::eol)),
        Rule::paragraph => (p, one(Rule::text)),
        Rule::heading => heading_any_failure(s, p),
        Rule::h1 => heading_failure(s, p, 1),
        Rule::h2 => heading_failure(s, p, 2),
        Rule::h3 => heading_failure(s, p, 3),
        Rule::h4 => heading_failure(s, p, 4),
        Rule::h5 => heading_failure(s, p, 5),
        Rule::h6 => heading_failure(s, p, 6),
        Rule::thematic_break => break_failure(s, p),
        Rule::tag => {
            let x = self_closing_failure(s, p);
            let y = block_tag_failure(s, p);
            if x.0 > y.0 {
                x
            } else if y.0 > x.0 {
                y
            } else {
                let mut ex = x.1;
                let mut ey = y.1;
                ex.append(&mut ey);
                (x.0, ex)
            }
        },
        Rule::self_closing_tag => self_closing_failure(s, p),
        Rule::block_tag => block_tag_failure(s, p),
        Rule::attrs => attr_failure(s, scan(s, p, Class::Ws)),
        Rule::attr => attr_failure(s, p),
        Rule::fence_defn => if !(p < s.len() && at(s, p, '`')) {
            (p, one(Rule::fence))
        } else if !(p + 1 < s.len() && at(s, p + 1, '`')) {
            (p + 1, one(Rule::fence))
        } else {
            (p + 2, one(Rule::fence))
        },
        Rule::dict => dict_failure(s, p),
        Rule::dict_entry => entry_failure(s, p),
        Rule::value => quoted_failure(s, p),
        _ => (p, one(rule)),
    }
}

} // verus!
