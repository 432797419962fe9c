use vstd::prelude::*;

use crate::block::parsed;
use crate::inline::quoted_at;
use crate::rule::Rule;
use crate::shape::{entries_kids, expected_kids, kids, opt, shaped};
use crate::scan::{at, char_at, has_leaf, is_leaf, keeps, run_end, scan, Build, Class};
use crate::tree::Node;

verus! {

/// A dictionary entry `key: "value"` at `q`.
pub open spec fn entry_at(s: Seq<char>, q: int) -> Option<int> {
    let k = run_end(s, q, Class::Ident);
    let a = run_end(s, k, Class::Ws);
    let b = run_end(s, a + 1, Class::Ws);
    if k > q && char_at(s, a, ':') {
        quoted_at(s, b)
    } else {
        None
    }
}

/// Where the entries of a dictionary whose last entry so far ends at `e`
/// end: further entries each follow a comma.
pub open spec fn entries_end(s: Seq<char>, e: int) -> int
    decreases s.len() - e,
{
    let w = run_end(s, e, Class::Ws);
    let b = run_end(s, w + 1, Class::Ws);
    if char_at(s, w, ',') {
        match entry_at(s, b) {
            Some(f) => if e < f <= s.len() {
                entries_end(s, f)
            } else {
                e
            },
            None => e,
        }
    } else {
        e
    }
}

/// A dictionary `{ key: "value", ... }` at `p`, possibly empty.
pub open spec fn dict_at(s: Seq<char>, p: int) -> Option<int> {
    let q = run_end(s, p + 1, Class::Ws);
    let r = match entry_at(s, q) {
        Some(e) => entries_end(s, e),
        None => q,
    };
    let w = run_end(s, r, Class::Ws);
    if char_at(s, p, '{') && char_at(s, w, '}') {
        Some(w + 1)
    } else {
        None
    }
}

/// The parts of a fence definition line at `p`, as positions: the end of the
/// whitespace after the backticks, of the language, of the whitespace after
/// it, and of the dictionary (where it has none, the same as the last).
pub open spec fn fence_parts(s: Seq<char>, p: int) -> (int, int, int, int) {
    let q1 = run_end(s, p + 3, Class::Ws);
    let l = run_end(s, q1, Class::Ident);
    let q2 = run_end(s, l, Class::Ws);
    let d = match dict_at(s, q2) {
        Some(e) => e,
        None => q2,
    };
    (q1, l, q2, d)
}

/// A fence definition line at `p`: three backticks, an optional language,
/// an optional dictionary, and anything else up to the end of the line,
/// which is tolerated.
pub open spec fn fence_at(s: Seq<char>, p: int) -> Option<int> {
    let d = fence_parts(s, p).3;
    if char_at(s, p, '`') && char_at(s, p + 1, '`') && char_at(s, p + 2, '`') {
        Some(run_end(s, d, Class::Line))
    } else {
        None
    }
}

/// The language of a fence definition at `p` is named in `[a, b)`.
pub open spec fn lang_span(s: Seq<char>, p: int) -> (int, int) {
    (fence_parts(s, p).0, fence_parts(s, p).1)
}

/// Matches a dictionary entry at `q`: a `key`, a `punct` and a `value`.
pub fn parse_entry(s: &Vec<char>, q: usize) -> (r: Option<Node>)
    requires
        q <= s@.len(),
    ensures
        parsed(r, entry_at(s@, q as int), Rule::dict_entry, q as int, s@.len() as int),
        r matches Some(n) ==> q < n.end,
        r matches Some(nd) ==> shaped(s@, nd),
{
    let k = scan(s, q, Class::Ident);
    let a = scan(s, k, Class::Ws);
    if !(k > q && a < s.len() && at(s, a, ':')) {
        return None;
    }
    let b = scan(s, a + 1, Class::Ws);
    if !(b < s.len() && at(s, b, '"')) {
        return None;
    }
    let e = scan(s, b + 1, Class::NotQuote);
    if e >= s.len() {
        return None;
    }
    let mut bd = Build::new(q, s.len(), Ghost(s@));
    bd.skip(Rule::key, k);
    bd.skip(Rule::punct, b);
    bd.skip(Rule::value, e + 1);
    assert(kids(bd.children@) =~= expected_kids(s@, q as int, Rule::dict_entry));
    Some(bd.finish(Rule::dict_entry))
}

/// Matches a dictionary at `p`: `dict_entry` children, with `punct` children
/// for the braces and the commas and the whitespace around them.
pub fn parse_dict(s: &Vec<char>, p: usize) -> (r: Option<Node>)
    requires
        p <= s@.len(),
    ensures
        parsed(r, dict_at(s@, p as int), Rule::dict, p as int, s@.len() as int),
        r matches Some(n) ==> p < n.end,
        r matches Some(nd) ==> shaped(s@, nd),
{
    if !(p < s.len() && at(s, p, '{')) {
        return None;
    }
    let q = scan(s, p + 1, Class::Ws);
    let mut bd = Build::new(p, s.len(), Ghost(s@));
    bd.skip(Rule::punct, q);
    let mut e = q;
    if let Some(x) = parse_entry(s, q) {
        e = x.end;
        bd.add(x);
        let ghost e1 = e;
        let ghost head = kids(bd.children@);
        assert(head + entries_kids(s@, e as int) =~= head + entries_kids(s@, e1 as int));
        loop
            invariant
                q < e <= s@.len(),
                bd.ok(),
                bd.start == p,
                bd.pos == e,
                bd.len == s@.len(),
                entry_at(s@, q as int) is Some,
                entries_end(s@, e as int) == entries_end(s@, entry_at(s@, q as int)->0),
                bd.src@ == s@,
                kids(bd.children@) + entries_kids(s@, e as int) == head + entries_kids(s@, e1 as int),
            ensures
                bd.src@ == s@,
                kids(bd.children@) == head + entries_kids(s@, e1 as int),
                q < e <= s@.len(),
                bd.ok(),
                bd.start == p,
                bd.pos == e,
                bd.len == s@.len(),
                e == entries_end(s@, entry_at(s@, q as int)->0),
            decreases s@.len() - e,
        {
            let w = scan(s, e, Class::Ws);
            if w < s.len() && at(s, w, ',') {
                let b = scan(s, w + 1, Class::Ws);
                if let Some(x) = parse_entry(s, b) {
                    let ghost k0 = kids(bd.children@);
                    let ghost e0 = e;
                    bd.skip(Rule::punct, b);
                    e = x.end;
                    bd.add(x);
                    assert(k0 + entries_kids(s@, e0 as int) =~= kids(bd.children@) + entries_kids(s@, e as int));
                    continue ;
                }
            }
            assert(kids(bd.children@) + entries_kids(s@, e as int) =~= kids(bd.children@));
            break ;
        }
    }
    let w = scan(s, e, Class::Ws);
    if w < s.len() && at(s, w, '}') {
        bd.skip(Rule::punct, w + 1);
        assert(kids(bd.children@) =~= expected_kids(s@, p as int, Rule::dict));
        Some(bd.finish(Rule::dict))
    } else {
        None
    }
}

/// Matches a fence definition line at `p`: a `fence`, `ws`, an optional
/// `lang`, an optional `dict`, and `junk` for the rest of the line. The
/// `lang` child, if any, spans the language name.
pub fn parse_fence_defn(s: &Vec<char>, p: usize) -> (r: Option<Node>)
    requires
        p <= s@.len(),
    ensures
        parsed(r, fence_at(s@, p as int), Rule::fence_defn, p as int, s@.len() as int),
        r matches Some(n) ==> {
            let (a, b) = lang_span(s@, p as int);
            a < b ==> has_leaf(n.children@, Rule::lang, a, b)
        },
        r matches Some(nd) ==> shaped(s@, nd),
{
    if !(p < s.len() && at(s, p, '`') && p + 1 < s.len() && at(s, p + 1, '`') && p + 2 < s.len()
        && at(s, p + 2, '`')) {
        return None;
    }
    let q1 = scan(s, p + 3, Class::Ws);
    let l = scan(s, q1, Class::Ident);
    let q2 = scan(s, l, Class::Ws);
    let mut bd = Build::new(p, s.len(), Ghost(s@));
    bd.skip(Rule::fence, p + 3);
    bd.skip(Rule::ws, q1);
    bd.skip(Rule::lang, l);
    let ghost lang_at = bd.children@.len() - 1;
    let ghost with_lang = bd.children@;
    bd.skip(Rule::ws, q2);
    let ghost c1 = bd.children@;
    if let Some(x) = parse_dict(s, q2) {
        bd.add(x);
    }
    let ghost c2 = bd.children@;
    let d = bd.pos;
    let t = scan(s, d, Class::Line);
    bd.skip(Rule::junk, t);
    proof {
        if q1 < l {
            assert(is_leaf(with_lang[lang_at], Rule::lang, q1 as int, l as int));
            assert(keeps(with_lang, c1));
            assert(keeps(c1, c2));
            assert(keeps(c2, bd.children@));
            assert(bd.children@[lang_at] == with_lang[lang_at]);
            assert(is_leaf(bd.children@[lang_at], Rule::lang, q1 as int, l as int));
        }
    }
    assert(kids(bd.children@) =~= expected_kids(s@, p as int, Rule::fence_defn));
    Some(bd.finish(Rule::fence_defn))
}

} // verus!
