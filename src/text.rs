use vstd::prelude::*;
use vstd::std_specs::iter::IteratorSpec;

verus! {

/// Relies on `String::push`: the character is appended at the end.
#[verifier::external_body]
fn push_char(out: &mut String, c: char)
    ensures
        final(out)@ == old(out)@.push(c),
{
    out.push(c)
}

/// The characters of `s`, in order.
pub fn chars_of(s: &str) -> (r: Vec<char>)
    ensures
        r@ == s@,
{
    let mut v: Vec<char> = Vec::new();
    let mut it = s.chars();
    proof {
        broadcast use vstd::string::axiom_spec_iter;
    }
    loop
        invariant
            it.obeys_prophetic_iter_laws(),
            v@ + it.remaining() == s@,
            it.decrease() is Some,
        ensures
            v@ == s@,
        decreases it.decrease()->0,
    {
        proof {
            broadcast use vstd::string::next_postcondition;
        }
        let ghost before = it.remaining();
        match it.next() {
            Some(c) => {
                assert(v@.push(c) + it.remaining() =~= v@ + before);
                v.push(c);
            },
            None => {
                assert(v@ =~= v@ + before);
                break ;
            },
        }
    }
    v
}

/// Appends the characters `[a, b)` of `text` to `out`.
pub fn append_chars(out: &mut String, text: &Vec<char>, a: usize, b: usize)
    requires
        a <= b <= text@.len(),
    ensures
        final(out)@ == old(out)@ + text@.subrange(a as int, b as int),
{
    let mut i: usize = a;
    while i < b
        invariant
            a <= i <= b <= text@.len(),
            out@ == old(out)@ + text@.subrange(a as int, i as int),
        decreases b - i,
    {
        push_char(out, text[i]);
        i = i + 1;
        assert(text@.subrange(a as int, i as int) =~= text@.subrange(a as int, i - 1).push(
            text@[i - 1],
        ));
    }
}

/// The characters `[a, b)` of `text` as a string.
pub fn text_between(text: &Vec<char>, a: usize, b: usize) -> (r: String)
    requires
        a <= b <= text@.len(),
    ensures
        r@ == text@.subrange(a as int, b as int),
{
    let mut out = String::new();
    append_chars(&mut out, text, a, b);
    assert(out@ =~= text@.subrange(a as int, b as int));
    out
}

/// `n` spaces.
pub open spec fn spaces(n: nat) -> Seq<char> {
    Seq::new(n, |i: int| ' ')
}

/// `content` indented by two spaces for each `level`.
pub fn pad(level: usize, content: String) -> (r: String)
    requires
        level * 2 <= usize::MAX,
    ensures
        r@ == spaces((level * 2) as nat) + content@,
{
    let mut out = String::new();
    let mut i: usize = 0;
    while i < level * 2
        invariant
            i <= level * 2,
            level * 2 <= usize::MAX,
            out@ == spaces(i as nat),
        decreases level * 2 - i,
    {
        push_char(&mut out, ' ');
        i = i + 1;
        assert(out@ =~= spaces(i as nat));
    }
    out.append(content.as_str());
    out
}

} // verus!
