use vstd::prelude::*;

use crate::block::parsed;
use crate::rule::Rule;
use crate::shape::{attr_list_kids, attr_part_kids, expected_kids, kids, opt, shaped};
use crate::scan::{at, char_at, is_ident, is_ws, lemma_run_end_at, run_end, scan, Build, Class};
use crate::tree::Node;

verus! {

/// A double-quoted value at `b`. Its end, past the closing quote.
pub open spec fn quoted_at(s: Seq<char>, b: int) -> Option<int> {
    let e = run_end(s, b + 1, Class::NotQuote);
    if char_at(s, b, '"') && e < s.len() {
        Some(e + 1)
    } else {
        None
    }
}

/// An attribute `key="value"` at `q`.
pub open spec fn attr_at(s: Seq<char>, q: int) -> Option<int> {
    let k = run_end(s, q, Class::Ident);
    if k > q && char_at(s, k, '=') {
        quoted_at(s, k + 1)
    } else {
        None
    }
}

/// Where a list of attributes whose last one so far ends at `e` ends:
/// further attributes each follow required whitespace, and whitespace after
/// the last one belongs to the list.
pub open spec fn attr_list_end(s: Seq<char>, e: int) -> int
    decreases s.len() - e,
{
    let w = run_end(s, e, Class::Ws);
    match attr_at(s, w) {
        Some(f) => if w > e && e < f <= s.len() {
            attr_list_end(s, f)
        } else {
            w
        },
        None => w,
    }
}

/// A list of attributes at `p`: optional whitespace, then one or more
/// attributes separated by whitespace, then optional whitespace.
pub open spec fn attrs_at(s: Seq<char>, p: int) -> Option<int> {
    let a = run_end(s, p, Class::Ws);
    match attr_at(s, a) {
        Some(e) => Some(attr_list_end(s, e)),
        None => None,
    }
}

/// Where the attribute part of a tag that starts at `n` ends: the attribute
/// list if there is one, else any whitespace.
pub open spec fn after_attrs(s: Seq<char>, n: int) -> int {
    match attrs_at(s, n) {
        Some(e) => e,
        None => run_end(s, n, Class::Ws),
    }
}

/// Where the name of a tag that opens at `p` ends.
pub open spec fn name_end(s: Seq<char>, p: int) -> int {
    run_end(s, p + 1, Class::Ident)
}

/// A self-closing tag `<name attrs />` at `p`.
pub open spec fn self_closing_at(s: Seq<char>, p: int) -> Option<int> {
    let n = name_end(s, p);
    let a = after_attrs(s, n);
    if char_at(s, p, '<') && n > p + 1 && char_at(s, a, '/') && char_at(s, a + 1, '>') {
        Some(a + 2)
    } else {
        None
    }
}

/// A block tag `<name attrs>content</name>` at `p`; the closing name must be
/// the opening name, and the content holds no `<`.
pub open spec fn block_tag_at(s: Seq<char>, p: int) -> Option<int> {
    let n = name_end(s, p);
    let a = after_attrs(s, n);
    let c = run_end(s, a + 1, Class::NotLt);
    let m = run_end(s, c + 2, Class::Ident);
    let w = run_end(s, m, Class::Ws);
    if char_at(s, p, '<') && n > p + 1 && char_at(s, a, '>') && char_at(s, c, '<') && char_at(
        s,
        c + 1,
        '/',
    ) && s.subrange(p + 1, n) == s.subrange(c + 2, m) && char_at(s, w, '>') {
        Some(w + 1)
    } else {
        None
    }
}

/// A tag at `p`: self-closing, or else a block tag.
pub open spec fn tag_at(s: Seq<char>, p: int) -> Option<int> {
    if self_closing_at(s, p) is Some {
        self_closing_at(s, p)
    } else {
        block_tag_at(s, p)
    }
}

/// No child of `n` is tag content.
pub open spec fn no_content(n: Node) -> bool {
    forall|i: int| 0 <= i < n.children@.len() ==> (#[trigger] n.children@[i]).rule != Rule::tag_content
}

/// Matches a double-quoted value at `b`; the node is a leaf.
pub fn parse_value(s: &Vec<char>, b: usize) -> (r: Option<Node>)
    requires
        b <= s@.len(),
    ensures
        parsed(r, quoted_at(s@, b as int), Rule::value, b as int, s@.len() as int),
        r matches Some(n) ==> b < n.end,
        r matches Some(nd) ==> shaped(s@, nd),
{
    if !(b < s.len() && at(s, b, '"')) {
        return None;
    }
    let e = scan(s, b + 1, Class::NotQuote);
    if e < s.len() {
        Some(crate::tree::leaf(Rule::value, b, e + 1))
    } else {
        None
    }
}

/// Matches an attribute `key="value"` at `q`: a `key`, a `punct` and a
/// `value` child.
pub fn parse_attr(s: &Vec<char>, q: usize) -> (r: Option<Node>)
    requires
        q <= s@.len(),
    ensures
        parsed(r, attr_at(s@, q as int), Rule::attr, q as int, s@.len() as int),
        r matches Some(n) ==> q < n.end,
        r matches Some(nd) ==> shaped(s@, nd),
{
    let k = scan(s, q, Class::Ident);
    if !(k > q && k < s.len() && at(s, k, '=')) {
        return None;
    }
    match parse_value(s, k + 1) {
        Some(v) => {
            let mut b = Build::new(q, s.len(), Ghost(s@));
            b.skip(Rule::key, k);
            b.skip(Rule::punct, k + 1);
            b.add(v);
            assert(kids(b.children@) =~= expected_kids(s@, q as int, Rule::attr));
            Some(b.finish(Rule::attr))
        },
        None => None,
    }
}

/// Matches a list of attributes at `p`: `attr` children with `ws` between
/// and around them.
pub fn parse_attrs(s: &Vec<char>, p: usize) -> (r: Option<Node>)
    requires
        p <= s@.len(),
    ensures
        parsed(r, attrs_at(s@, p as int), Rule::attrs, p as int, s@.len() as int),
        r matches Some(n) ==> p < n.end,
        r matches Some(nd) ==> shaped(s@, nd),
{
    let a = scan(s, p, Class::Ws);
    let first = match parse_attr(s, a) {
        Some(x) => x,
        None => return None,
    };
    let mut b = Build::new(p, s.len(), Ghost(s@));
    b.skip(Rule::ws, a);
    let mut e = first.end;
    b.add(first);
    assert(kids(b.children@) + attr_list_kids(s@, e as int) =~= expected_kids(s@, p as int, Rule::attrs));
    loop
        invariant
            p < e <= s@.len(),
            b.ok(),
            b.start == p,
            b.pos == e,
            b.len == s@.len(),
            attrs_at(s@, p as int) is Some,
            attr_list_end(s@, e as int) == attrs_at(s@, p as int)->0,
            b.src@ == s@,
            kids(b.children@) + attr_list_kids(s@, e as int) == expected_kids(s@, p as int, Rule::attrs),
        decreases s@.len() - e,
    {
        let w = scan(s, e, Class::Ws);
        if w > e {
            match parse_attr(s, w) {
                Some(x) => {
                    let ghost k0 = kids(b.children@);
                    let ghost e0 = e;
                    b.skip(Rule::ws, w);
                    e = x.end;
                    b.add(x);
                    assert(k0 + attr_list_kids(s@, e0 as int) =~= kids(b.children@) + attr_list_kids(s@, e as int));
                    continue ;
                },
                None => {},
            }
        }
        b.skip(Rule::ws, w);
        assert(kids(b.children@) =~= expected_kids(s@, p as int, Rule::attrs));
        return Some(b.finish(Rule::attrs));
    }
}

/// Adds the attribute part of a tag that starts at `n` to `b`: an `attrs`
/// child, or else any whitespace as a `ws` child.
fn add_attrs(s: &Vec<char>, b: &mut Build, n: usize)
    requires
        old(b).ok(),
        old(b).pos == n,
        old(b).len == s@.len(),
        old(b).src@ == s@,
    ensures
        final(b).ok(),
        final(b).start == old(b).start,
        final(b).len == old(b).len,
        final(b).pos == after_attrs(s@, n as int),
        final(b).src == old(b).src,
        kids(final(b).children@) == kids(old(b).children@) + attr_part_kids(s@, n as int),
        no_content_in(old(b).children@) ==> no_content_in(final(b).children@),
{
    let ghost cs = b.children@;
    match parse_attrs(s, n) {
        Some(x) => {
            b.add(x);
            assert(b.children@.subrange(0, cs.len() as int) =~= cs);
        },
        None => {
            let w = scan(s, n, Class::Ws);
            b.skip(Rule::ws, w);
        },
    }
    assert forall|i: int| 0 <= i < b.children@.len() && no_content_in(cs) implies (
    #[trigger] b.children@[i]).rule != Rule::tag_content by {
        if i < cs.len() {
            assert(b.children@[i] == b.children@.subrange(0, cs.len() as int)[i]);
        }
    }
}

/// No node of `cs` is tag content.
pub open spec fn no_content_in(cs: Seq<Node>) -> bool {
    forall|i: int| 0 <= i < cs.len() ==> (#[trigger] cs[i]).rule != Rule::tag_content
}

/// Whether `[a, b)` and `[c, d)` of `s` hold the same text.
pub fn same_text(s: &Vec<char>, a: usize, b: usize, c: usize, d: usize) -> (r: bool)
    requires
        a <= b <= s@.len(),
        c <= d <= s@.len(),
    ensures
        r == (s@.subrange(a as int, b as int) == s@.subrange(c as int, d as int)),
{
    if b - a != d - c {
        assert(s@.subrange(a as int, b as int).len() != s@.subrange(c as int, d as int).len());
        return false;
    }
    let mut i: usize = 0;
    while i < b - a
        invariant
            a <= b <= s@.len(),
            c <= d <= s@.len(),
            b - a == d - c,
            i <= b - a,
            forall|j: int| 0 <= j < i ==> #[trigger] s@[a + j] == s@[c + j],
        decreases b - a - i,
    {
        if s[a + i] != s[c + i] {
            assert(s@.subrange(a as int, b as int)[i as int] != s@.subrange(c as int, d as int)[i as int]);
            return false;
        }
        i = i + 1;
    }
    assert forall|j: int| 0 <= j < b - a implies #[trigger] s@.subrange(a as int, b as int)[j]
        == s@.subrange(c as int, d as int)[j] by {
        assert(s@[a + j] == s@[c + j]);
    }
    assert(s@.subrange(a as int, b as int) =~= s@.subrange(c as int, d as int));
    true
}

/// Matches a self-closing tag at `p`: a `punct`, a `tag_name`, the attribute
/// part and a closing `punct`; it has no content.
pub fn parse_self_closing_tag(s: &Vec<char>, p: usize) -> (r: Option<Node>)
    requires
        p <= s@.len(),
    ensures
        parsed(r, self_closing_at(s@, p as int), Rule::self_closing_tag, p as int, s@.len() as int),
        r matches Some(n) ==> p < n.end && no_content(n),
        r matches Some(nd) ==> shaped(s@, nd),
{
    if !(p < s.len() && at(s, p, '<')) {
        return None;
    }
    let n = scan(s, p + 1, Class::Ident);
    if n <= p + 1 {
        return None;
    }
    let mut b = Build::new(p, s.len(), Ghost(s@));
    b.skip(Rule::punct, p + 1);
    b.skip(Rule::tag_name, n);
    assert(no_content_in(b.children@)) by {
        assert(b.children@.subrange(0, 1)[0] == b.children@[0]);
    }
    add_attrs(s, &mut b, n);
    let a = b.pos;
    if a < s.len() && at(s, a, '/') && a + 1 < s.len() && at(s, a + 1, '>') {
        let ghost cs = b.children@;
        b.skip(Rule::punct, a + 2);
        assert forall|i: int| 0 <= i < b.children@.len() implies (
        #[trigger] b.children@[i]).rule != Rule::tag_content by {
            if i < cs.len() {
                assert(b.children@[i] == b.children@.subrange(0, cs.len() as int)[i]);
            }
        }
        assert(kids(b.children@) =~= expected_kids(s@, p as int, Rule::self_closing_tag));
        Some(b.finish(Rule::self_closing_tag))
    } else {
        None
    }
}

/// Matches a block tag at `p`: the opening tag, any `tag_content`, and a
/// closing tag whose `tag_name` is the opening one.
pub fn parse_block_tag(s: &Vec<char>, p: usize) -> (r: Option<Node>)
    requires
        p <= s@.len(),
    ensures
        parsed(r, block_tag_at(s@, p as int), Rule::block_tag, p as int, s@.len() as int),
        r matches Some(n) ==> p < n.end,
        r matches Some(nd) ==> shaped(s@, nd),
{
    if !(p < s.len() && at(s, p, '<')) {
        return None;
    }
    let n = scan(s, p + 1, Class::Ident);
    if n <= p + 1 {
        return None;
    }
    let mut b = Build::new(p, s.len(), Ghost(s@));
    b.skip(Rule::punct, p + 1);
    b.skip(Rule::tag_name, n);
    add_attrs(s, &mut b, n);
    let a = b.pos;
    if !(a < s.len() && at(s, a, '>')) {
        return None;
    }
    b.skip(Rule::punct, a + 1);
    let c = scan(s, a + 1, Class::NotLt);
    if !(c < s.len() && at(s, c, '<') && c + 1 < s.len() && at(s, c + 1, '/')) {
        return None;
    }
    b.skip(Rule::tag_content, c);
    b.skip(Rule::punct, c + 2);
    let m = scan(s, c + 2, Class::Ident);
    if !same_text(s, p + 1, n, c + 2, m) {
        return None;
    }
    b.skip(Rule::tag_name, m);
    let w = scan(s, m, Class::Ws);
    b.skip(Rule::ws, w);
    if !(w < s.len() && at(s, w, '>')) {
        return None;
    }
    b.skip(Rule::punct, w + 1);
    assert(kids(b.children@) =~= expected_kids(s@, p as int, Rule::block_tag));
    Some(b.finish(Rule::block_tag))
}

/// Matches a tag at `p`; its one child is the self-closing or block tag.
pub fn parse_tag(s: &Vec<char>, p: usize) -> (r: Option<Node>)
    requires
        p <= s@.len(),
    ensures
        parsed(r, tag_at(s@, p as int), Rule::tag, p as int, s@.len() as int),
        r matches Some(n) ==> n.children@.len() == 1 && (n.children@[0].rule
            == Rule::self_closing_tag <==> self_closing_at(s@, p as int) is Some),
        r matches Some(nd) ==> shaped(s@, nd),
{
    let inner = match parse_self_closing_tag(s, p) {
        Some(x) => x,
        None => match parse_block_tag(s, p) {
            Some(x) => x,
            None => return None,
        },
    };
    let mut b = Build::new(p, s.len(), Ghost(s@));
    b.add(inner);
    Some(b.finish(Rule::tag))
}

/// A tag name: one or more name characters.
pub open spec fn is_name(a: Seq<char>) -> bool {
    a.len() >= 1 && forall|i: int| 0 <= i < a.len() ==> is_ident(#[trigger] a[i])
}

/// Block tags close by name: `<a>content</b>`, with content free of `<`,
/// matches the block tag rule, and the tag rule, exactly when `b` is `a`.
pub proof fn lemma_block_tag_names(a: Seq<char>, content: Seq<char>, b: Seq<char>)
    requires
        is_name(a),
        is_name(b),
        forall|i: int| 0 <= i < content.len() ==> #[trigger] content[i] != '<',
    ensures
        ({
            let s = seq!['<'] + a + seq!['>'] + content + seq!['<', '/'] + b + seq!['>'];
            &&& block_tag_at(s, 0) is Some <==> a == b
            &&& tag_at(s, 0) == block_tag_at(s, 0)
        }),
{
    let s = seq!['<'] + a + seq!['>'] + content + seq!['<', '/'] + b + seq!['>'];
    let n = 1 + a.len() as int;
    let c = n + 1 + content.len() as int;
    let m = c + 2 + b.len() as int;
    assert forall|j: int| 1 <= j < n implies is_ident(#[trigger] s[j]) by {
        assert(s[j] == a[j - 1]);
    }
    assert(s[n] == '>');
    lemma_run_end_at(s, 1, n, Class::Ident);
    lemma_run_end_at(s, n, n, Class::Ws);
    lemma_run_end_at(s, n, n, Class::Ident);
    assert(attrs_at(s, n) is None);
    assert(after_attrs(s, n) == n);
    assert forall|j: int| n + 1 <= j < c implies #[trigger] s[j] != '<' by {
        assert(s[j] == content[j - n - 1]);
    }
    assert(s[c] == '<');
    assert(s[c + 1] == '/');
    lemma_run_end_at(s, n + 1, c, Class::NotLt);
    assert forall|j: int| c + 2 <= j < m implies is_ident(#[trigger] s[j]) by {
        assert(s[j] == b[j - c - 2]);
    }
    assert(s[m] == '>');
    lemma_run_end_at(s, c + 2, m, Class::Ident);
    lemma_run_end_at(s, m, m, Class::Ws);
    assert(s.subrange(1, n) =~= a);
    assert(s.subrange(c + 2, m) =~= b);
    assert(self_closing_at(s, 0) is None);
}

/// `t` stands in `s` from position `q` on.
pub open spec fn placed(s: Seq<char>, q: int, t: Seq<char>) -> bool {
    &&& 0 <= q
    &&& q + t.len() <= s.len()
    &&& forall|i: int| 0 <= i < t.len() ==> s[q + i] == #[trigger] t[i]
}

proof fn lemma_placed_split(s: Seq<char>, q: int, x: Seq<char>, y: Seq<char>)
    requires
        placed(s, q, x + y),
    ensures
        placed(s, q, x),
        placed(s, q + x.len(), y),
{
    assert forall|i: int| 0 <= i < x.len() implies s[q + i] == #[trigger] x[i] by {
        assert((x + y)[i] == x[i]);
    }
    assert forall|i: int| 0 <= i < y.len() implies s[q + x.len() + i] == #[trigger] y[i] by {
        assert((x + y)[x.len() + i] == y[i]);
    }
}

/// A key and a value of an attribute.
pub type Pair = (Seq<char>, Seq<char>);

/// The key is a name and the value holds no double quote.
pub open spec fn valid_pair(kv: Pair) -> bool {
    is_name(kv.0) && forall|i: int| 0 <= i < kv.1.len() ==> #[trigger] kv.1[i] != '"'
}

/// An attribute written out: `key="value"`.
pub open spec fn attr_text(kv: Pair) -> Seq<char> {
    kv.0 + seq!['=', '"'] + kv.1 + seq!['"']
}

/// Attributes written out, each after the whitespace that `seps` gives for it.
pub open spec fn render_attrs(kvs: Seq<Pair>, seps: Seq<Seq<char>>) -> Seq<char>
    decreases kvs.len(),
{
    if kvs.len() == 0 || seps.len() == 0 {
        Seq::empty()
    } else {
        seps[0] + attr_text(kvs[0]) + render_attrs(kvs.drop_first(), seps.drop_first())
    }
}

/// The key and the value, without its quotes, of the attribute at `q`.
pub open spec fn pair_at(s: Seq<char>, q: int) -> Pair {
    let k = run_end(s, q, Class::Ident);
    let f = attr_at(s, q)->0;
    (s.subrange(q, k), s.subrange(k + 2, f - 1))
}

/// The pairs of the further attributes of a list whose last attribute so far
/// ends at `e`, as the grammar reads them.
pub open spec fn list_pairs(s: Seq<char>, e: int) -> Seq<Pair>
    decreases s.len() - e,
{
    let w = run_end(s, e, Class::Ws);
    match attr_at(s, w) {
        Some(f) => if w > e && e < f <= s.len() {
            seq![pair_at(s, w)] + list_pairs(s, f)
        } else {
            Seq::empty()
        },
        None => Seq::empty(),
    }
}

/// The pairs of the list of attributes at `p`, as the grammar reads them.
pub open spec fn attrs_pairs(s: Seq<char>, p: int) -> Seq<Pair> {
    let a = run_end(s, p, Class::Ws);
    match attr_at(s, a) {
        Some(e) => seq![pair_at(s, a)] + list_pairs(s, e),
        None => Seq::empty(),
    }
}

proof fn lemma_attr_placed(s: Seq<char>, q: int, kv: Pair)
    requires
        valid_pair(kv),
        placed(s, q, attr_text(kv)),
    ensures
        attr_at(s, q) == Some(q + attr_text(kv).len()),
        pair_at(s, q) == kv,
{
    let kl = kv.0.len() as int;
    let vl = kv.1.len() as int;
    let k = q + kl;
    let e = k + 2 + vl;
    let t = attr_text(kv);
    assert(t[kl] == '=');
    assert(t[kl + 1] == '"');
    assert(t[kl + 2 + vl] == '"');
    assert forall|j: int| q <= j < k implies is_ident(#[trigger] s[j]) by {
        assert(t[j - q] == kv.0[j - q]);
        assert(s[q + (j - q)] == t[j - q]);
    }
    assert(s[q + kl] == t[kl]);
    lemma_run_end_at(s, q, k, Class::Ident);
    assert forall|j: int| k + 2 <= j < e implies #[trigger] s[j] != '"' by {
        assert(t[j - q] == kv.1[j - k - 2]);
        assert(s[q + (j - q)] == t[j - q]);
    }
    assert(s[q + (kl + 2 + vl)] == '"');
    lemma_run_end_at(s, k + 2, e, Class::NotQuote);
    assert(s[q + (kl + 1)] == '"');
    assert(s.subrange(q, k) =~= kv.0) by {
        assert forall|i: int| 0 <= i < kl implies s.subrange(q, k)[i] == kv.0[i] by {
            assert(t[i] == kv.0[i]);
        }
    }
    assert(s.subrange(k + 2, e) =~= kv.1) by {
        assert forall|i: int| 0 <= i < vl implies s.subrange(k + 2, e)[i] == kv.1[i] by {
            assert(t[kl + 2 + i] == kv.1[i]);
            assert(s[q + (kl + 2 + i)] == t[kl + 2 + i]);
        }
    }
}

/// A run of whitespace placed at `e` and followed by the end of the input or
/// by a character that is neither whitespace nor a name character.
proof fn lemma_ws_placed(s: Seq<char>, e: int, ws: Seq<char>)
    requires
        placed(s, e, ws),
        forall|i: int| 0 <= i < ws.len() ==> is_ws(#[trigger] ws[i]),
        e + ws.len() == s.len() || !is_ws(s[e + ws.len()]),
    ensures
        run_end(s, e, Class::Ws) == e + ws.len(),
{
    assert forall|j: int| e <= j < e + ws.len() implies is_ws(#[trigger] s[j]) by {
        assert(s[e + (j - e)] == ws[j - e]);
    }
    lemma_run_end_at(s, e, e + ws.len(), Class::Ws);
}

proof fn lemma_list_placed(
    s: Seq<char>,
    e: int,
    kvs: Seq<Pair>,
    seps: Seq<Seq<char>>,
    trail: Seq<char>,
)
    requires
        seps.len() == kvs.len(),
        forall|i: int| 0 <= i < kvs.len() ==> valid_pair(#[trigger] kvs[i]),
        forall|i: int|
            0 <= i < seps.len() ==> (#[trigger] seps[i]).len() >= 1 && forall|c: int|
                0 <= c < seps[i].len() ==> is_ws(#[trigger] seps[i][c]),
        forall|c: int| 0 <= c < trail.len() ==> is_ws(#[trigger] trail[c]),
        placed(s, e, render_attrs(kvs, seps) + trail),
        ({
            let z = e + (render_attrs(kvs, seps) + trail).len();
            z == s.len() || (!is_ws(s[z]) && !is_ident(s[z]))
        }),
    ensures
        attr_list_end(s, e) == e + (render_attrs(kvs, seps) + trail).len(),
        list_pairs(s, e) == kvs,
    decreases kvs.len(),
{
    let z = e + (render_attrs(kvs, seps) + trail).len();
    if kvs.len() == 0 {
        assert(render_attrs(kvs, seps) + trail =~= trail);
        lemma_ws_placed(s, e, trail);
        lemma_run_end_at(s, z, z, Class::Ident);
        assert(attr_at(s, z) is None);
        assert(list_pairs(s, e) =~= kvs);
    } else {
        let sep = seps[0];
        let at = attr_text(kvs[0]);
        let more = render_attrs(kvs.drop_first(), seps.drop_first()) + trail;
        assert(render_attrs(kvs, seps) + trail =~= sep + (at + more));
        lemma_placed_split(s, e, sep, at + more);
        lemma_placed_split(s, e + sep.len(), at, more);
        let w = e + sep.len();
        assert(kvs[0].0[0] == at[0]);
        assert(s[w] == at[0]);
        assert(is_ident(kvs[0].0[0]));
        lemma_ws_placed(s, e, sep);
        lemma_attr_placed(s, w, kvs[0]);
        let f = w + at.len();
        assert forall|i: int| 0 <= i < kvs.drop_first().len() implies valid_pair(
            #[trigger] kvs.drop_first()[i],
        ) by {
            assert(kvs.drop_first()[i] == kvs[i + 1]);
        }
        assert forall|i: int| 0 <= i < seps.drop_first().len() implies (
        #[trigger] seps.drop_first()[i]).len() >= 1 && forall|c: int|
            0 <= c < seps.drop_first()[i].len() ==> is_ws(#[trigger] seps.drop_first()[i][c]) by {
            assert(seps.drop_first()[i] == seps[i + 1]);
        }
        lemma_list_placed(s, f, kvs.drop_first(), seps.drop_first(), trail);
        assert(list_pairs(s, e) =~= kvs);
    }
}

proof fn lemma_attrs_placed(
    s: Seq<char>,
    p: int,
    kvs: Seq<Pair>,
    lead: Seq<char>,
    seps: Seq<Seq<char>>,
    trail: Seq<char>,
)
    requires
        kvs.len() >= 1,
        seps.len() + 1 == kvs.len(),
        forall|i: int| 0 <= i < kvs.len() ==> valid_pair(#[trigger] kvs[i]),
        forall|c: int| 0 <= c < lead.len() ==> is_ws(#[trigger] lead[c]),
        forall|i: int|
            0 <= i < seps.len() ==> (#[trigger] seps[i]).len() >= 1 && forall|c: int|
                0 <= c < seps[i].len() ==> is_ws(#[trigger] seps[i][c]),
        forall|c: int| 0 <= c < trail.len() ==> is_ws(#[trigger] trail[c]),
        placed(s, p, lead + attr_text(kvs[0]) + render_attrs(kvs.drop_first(), seps) + trail),
        ({
            let z = p + (lead + attr_text(kvs[0]) + render_attrs(kvs.drop_first(), seps)
                + trail).len();
            z == s.len() || (!is_ws(s[z]) && !is_ident(s[z]))
        }),
    ensures
        attrs_at(s, p) == Some(
            p + (lead + attr_text(kvs[0]) + render_attrs(kvs.drop_first(), seps) + trail).len(),
        ),
        attrs_pairs(s, p) == kvs,
{
    let at = attr_text(kvs[0]);
    let more = render_attrs(kvs.drop_first(), seps) + trail;
    assert(lead + attr_text(kvs[0]) + render_attrs(kvs.drop_first(), seps) + trail =~= lead + (at
        + more));
    lemma_placed_split(s, p, lead, at + more);
    lemma_placed_split(s, p + lead.len(), at, more);
    let a = p + lead.len();
    assert(kvs[0].0[0] == at[0]);
    assert(s[a] == at[0]);
    lemma_ws_placed(s, p, lead);
    lemma_attr_placed(s, a, kvs[0]);
    let f = a + at.len();
    assert forall|i: int| 0 <= i < kvs.drop_first().len() implies valid_pair(
        #[trigger] kvs.drop_first()[i],
    ) by {
        assert(kvs.drop_first()[i] == kvs[i + 1]);
    }
    lemma_list_placed(s, f, kvs.drop_first(), seps, trail);
    assert(attrs_pairs(s, p) =~= kvs);
}

/// Whitespace does not change attributes: however much whitespace stands
/// before, between (at least one character) and after `key="value"` pairs,
/// the attribute rule reads the whole text and exactly those pairs, in order.
pub proof fn lemma_attrs_whitespace(
    kvs: Seq<Pair>,
    lead: Seq<char>,
    seps: Seq<Seq<char>>,
    trail: Seq<char>,
)
    requires
        kvs.len() >= 1,
        seps.len() + 1 == kvs.len(),
        forall|i: int| 0 <= i < kvs.len() ==> valid_pair(#[trigger] kvs[i]),
        forall|c: int| 0 <= c < lead.len() ==> is_ws(#[trigger] lead[c]),
        forall|i: int|
            0 <= i < seps.len() ==> (#[trigger] seps[i]).len() >= 1 && forall|c: int|
                0 <= c < seps[i].len() ==> is_ws(#[trigger] seps[i][c]),
        forall|c: int| 0 <= c < trail.len() ==> is_ws(#[trigger] trail[c]),
    ensures
        ({
            let s = lead + attr_text(kvs[0]) + render_attrs(kvs.drop_first(), seps) + trail;
            &&& attrs_at(s, 0) == Some(s.len() as int)
            &&& attrs_pairs(s, 0) == kvs
        }),
{
    let s = lead + attr_text(kvs[0]) + render_attrs(kvs.drop_first(), seps) + trail;
    assert(placed(s, 0, s));
    lemma_attrs_placed(s, 0, kvs, lead, seps, trail);
}

/// Self-closing tags: `<name` followed by whitespace-separated attributes,
/// with any whitespace around them, and `/>` matches the self-closing tag
/// rule and the tag rule over the whole text.
pub proof fn lemma_self_closing_with_attrs(
    name: Seq<char>,
    kvs: Seq<Pair>,
    lead: Seq<char>,
    seps: Seq<Seq<char>>,
    trail: Seq<char>,
)
    requires
        is_name(name),
        kvs.len() >= 1,
        seps.len() + 1 == kvs.len(),
        forall|i: int| 0 <= i < kvs.len() ==> valid_pair(#[trigger] kvs[i]),
        lead.len() >= 1,
        forall|c: int| 0 <= c < lead.len() ==> is_ws(#[trigger] lead[c]),
        forall|i: int|
            0 <= i < seps.len() ==> (#[trigger] seps[i]).len() >= 1 && forall|c: int|
                0 <= c < seps[i].len() ==> is_ws(#[trigger] seps[i][c]),
        forall|c: int| 0 <= c < trail.len() ==> is_ws(#[trigger] trail[c]),
    ensures
        ({
            let body = lead + attr_text(kvs[0]) + render_attrs(kvs.drop_first(), seps) + trail;
            let s = seq!['<'] + name + body + seq!['/', '>'];
            &&& self_closing_at(s, 0) == Some(s.len() as int)
            &&& tag_at(s, 0) == Some(s.len() as int)
        }),
{
    let body = lead + attr_text(kvs[0]) + render_attrs(kvs.drop_first(), seps) + trail;
    let s = seq!['<'] + name + body + seq!['/', '>'];
    let n = 1 + name.len() as int;
    let z = n + body.len();
    assert forall|j: int| 1 <= j < n implies is_ident(#[trigger] s[j]) by {
        assert(s[j] == name[j - 1]);
    }
    assert(body[0] == lead[0]);
    assert(s[n] == body[0]);
    lemma_run_end_at(s, 1, n, Class::Ident);
    assert forall|i: int| 0 <= i < body.len() implies s[n + i] == #[trigger] body[i] by {
        assert(s[n + i] == body[i]);
    }
    assert(s[z] == '/');
    assert(s[z + 1] == '>');
    lemma_attrs_placed(s, n, kvs, lead, seps, trail);
}

/// Self-closing tags without attributes: `<name`, any whitespace, and `/>`
/// match the self-closing tag rule and the tag rule over the whole text.
pub proof fn lemma_self_closing_bare(name: Seq<char>, gap: Seq<char>)
    requires
        is_name(name),
        forall|c: int| 0 <= c < gap.len() ==> is_ws(#[trigger] gap[c]),
    ensures
        ({
            let s = seq!['<'] + name + gap + seq!['/', '>'];
            &&& self_closing_at(s, 0) == Some(s.len() as int)
            &&& tag_at(s, 0) == Some(s.len() as int)
        }),
{
    let s = seq!['<'] + name + gap + seq!['/', '>'];
    let n = 1 + name.len() as int;
    let z = n + gap.len();
    assert forall|j: int| 1 <= j < n implies is_ident(#[trigger] s[j]) by {
        assert(s[j] == name[j - 1]);
    }
    if gap.len() > 0 {
        assert(s[n] == gap[0]);
    } else {
        assert(s[n] == '/');
    }
    lemma_run_end_at(s, 1, n, Class::Ident);
    assert forall|j: int| n <= j < z implies is_ws(#[trigger] s[j]) by {
        assert(s[j] == gap[j - n]);
    }
    assert(s[z] == '/');
    assert(s[z + 1] == '>');
    lemma_run_end_at(s, n, z, Class::Ws);
    if gap.len() > 0 {
        lemma_run_end_at(s, z, z, Class::Ident);
    } else {
        lemma_run_end_at(s, n, n, Class::Ident);
    }
    assert(attrs_at(s, n) is None);
}

/// Block tags with attributes: `<a` followed by whitespace-separated
/// attributes, with any whitespace around them, then `>`, content free of
/// `<`, and `</a>` matches the block tag rule and the tag rule.
pub proof fn lemma_block_tag_with_attrs(
    a: Seq<char>,
    kvs: Seq<Pair>,
    lead: Seq<char>,
    seps: Seq<Seq<char>>,
    trail: Seq<char>,
    content: Seq<char>,
)
    requires
        is_name(a),
        kvs.len() >= 1,
        seps.len() + 1 == kvs.len(),
        forall|i: int| 0 <= i < kvs.len() ==> valid_pair(#[trigger] kvs[i]),
        lead.len() >= 1,
        forall|c: int| 0 <= c < lead.len() ==> is_ws(#[trigger] lead[c]),
        forall|i: int|
            0 <= i < seps.len() ==> (#[trigger] seps[i]).len() >= 1 && forall|c: int|
                0 <= c < seps[i].len() ==> is_ws(#[trigger] seps[i][c]),
        forall|c: int| 0 <= c < trail.len() ==> is_ws(#[trigger] trail[c]),
        forall|i: int| 0 <= i < content.len() ==> #[trigger] content[i] != '<',
    ensures
        ({
            let body = lead + attr_text(kvs[0]) + render_attrs(kvs.drop_first(), seps) + trail;
            let s = seq!['<'] + a + body + seq!['>'] + content + seq!['<', '/'] + a + seq!['>'];
            &&& block_tag_at(s, 0) == Some(s.len() as int)
            &&& tag_at(s, 0) == Some(s.len() as int)
        }),
{
    let body = lead + attr_text(kvs[0]) + render_attrs(kvs.drop_first(), seps) + trail;
    let s = seq!['<'] + a + body + seq!['>'] + content + seq!['<', '/'] + a + seq!['>'];
    let n = 1 + a.len() as int;
    let z = n + body.len();
    let c = z + 1 + content.len();
    let m = c + 2 + a.len();
    assert forall|j: int| 1 <= j < n implies is_ident(#[trigger] s[j]) by {
        assert(s[j] == a[j - 1]);
    }
    assert(body[0] == lead[0]);
    assert(s[n] == body[0]);
    lemma_run_end_at(s, 1, n, Class::Ident);
    assert forall|i: int| 0 <= i < body.len() implies s[n + i] == #[trigger] body[i] by {
        assert(s[n + i] == body[i]);
    }
    assert(s[z] == '>');
    lemma_attrs_placed(s, n, kvs, lead, seps, trail);
    assert(after_attrs(s, n) == z);
    assert forall|j: int| z + 1 <= j < c implies #[trigger] s[j] != '<' by {
        assert(s[j] == content[j - z - 1]);
    }
    assert(s[c] == '<');
    assert(s[c + 1] == '/');
    lemma_run_end_at(s, z + 1, c, Class::NotLt);
    assert forall|j: int| c + 2 <= j < m implies is_ident(#[trigger] s[j]) by {
        assert(s[j] == a[j - c - 2]);
    }
    assert(s[m] == '>');
    lemma_run_end_at(s, c + 2, m, Class::Ident);
    lemma_run_end_at(s, m, m, Class::Ws);
    assert(s.subrange(1, n) =~= a);
    assert(s.subrange(c + 2, m) =~= a);
    assert(self_closing_at(s, 0) is None);
}

} // verus!
