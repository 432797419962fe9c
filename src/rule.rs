use vstd::prelude::*;

verus! {

/// The productions of the markdown grammar.
#[allow(non_camel_case_types)]
#[derive(Clone, Copy, Debug, PartialEq, Eq, Structural)]
pub enum Rule {
    /// A whole document: blank lines, headings, thematic breaks and paragraphs.
    file,
    /// A line holding only whitespace.
    blank_line,
    /// One or more lines of plain text that start no other block.
    paragraph,
    /// The content of one paragraph line.
    text,
    /// A line feed ending a line.
    eol,
    /// A heading of any level from one to six.
    heading,
    /// A heading with exactly one mark.
    h1,
    /// A heading with exactly two marks.
    h2,
    /// A heading with exactly three marks.
    h3,
    /// A heading with exactly four marks.
    h4,
    /// A heading with exactly five marks.
    h5,
    /// A heading with exactly six marks.
    h6,
    /// Leading whitespace of a heading line, at most three characters.
    indent,
    /// The run of `#` marks of a heading.
    marks,
    /// The whitespace between the marks and the text of a heading.
    space,
    /// The text of a heading, up to the end of its line.
    heading_text,
    /// A line of three or more identical `-`, `*` or `_` characters.
    thematic_break,
    /// The content of a thematic break line.
    break_marks,
    /// A self-closing tag or a block tag.
    tag,
    /// A tag of the form `<name attrs />`.
    self_closing_tag,
    /// A tag of the form `<name attrs>content</name>`.
    block_tag,
    /// The name of a tag, in its opening or closing form.
    tag_name,
    /// A list of `key="value"` pairs separated by whitespace.
    attrs,
    /// One `key="value"` pair.
    attr,
    /// The key of an attribute or of a dictionary entry.
    key,
    /// A double-quoted value, quotes included.
    value,
    /// A fixed piece of punctuation.
    punct,
    /// A run of spaces or tabs.
    ws,
    /// The text between the opening and the closing tag of a block tag.
    tag_content,
    /// The opening line of a fenced code block.
    fence_defn,
    /// The three backticks that open a fenced code block.
    fence,
    /// The language named by a fenced code block.
    lang,
    /// A brace-delimited dictionary of `key: "value"` entries.
    dict,
    /// One `key: "value"` entry of a dictionary.
    dict_entry,
    /// Unrecognised trailing content of a fence definition line, which is tolerated.
    junk,
}

/// The name of a rule, as it is written in queries.
pub open spec fn rule_name(r: Rule) -> Seq<char> {
    match r {
        Rule::file => "file"@,
        Rule::blank_line => "blank_line"@,
        Rule::paragraph => "paragraph"@,
        Rule::text => "text"@,
        Rule::eol => "eol"@,
        Rule::heading => "heading"@,
        Rule::h1 => "h1"@,
        Rule::h2 => "h2"@,
        Rule::h3 => "h3"@,
        Rule::h4 => "h4"@,
        Rule::h5 => "h5"@,
        Rule::h6 => "h6"@,
        Rule::indent => "indent"@,
        Rule::marks => "marks"@,
        Rule::space => "space"@,
        Rule::heading_text => "heading_text"@,
        Rule::thematic_break => "thematic_break"@,
        Rule::break_marks => "break_marks"@,
        Rule::tag => "tag"@,
        Rule::self_closing_tag => "self_closing_tag"@,
        Rule::block_tag => "block_tag"@,
        Rule::tag_name => "tag_name"@,
        Rule::attrs => "attrs"@,
        Rule::attr => "attr"@,
        Rule::key => "key"@,
        Rule::value => "value"@,
        Rule::punct => "punct"@,
        Rule::ws => "ws"@,
        Rule::tag_content => "tag_content"@,
        Rule::fence_defn => "fence_defn"@,
        Rule::fence => "fence"@,
        Rule::lang => "lang"@,
        Rule::dict => "dict"@,
        Rule::dict_entry => "dict_entry"@,
        Rule::junk => "junk"@,
    }
}

impl Rule {
    /// The name of this rule, as it is written in queries.
    pub fn name(&self) -> (r: String)
        ensures
            r@ == rule_name(*self),
    {
        let s: &str = match self {
            Rule::file => "file",
            Rule::blank_line => "blank_line",
            Rule::paragraph => "paragraph",
            Rule::text => "text",
            Rule::eol => "eol",
            Rule::heading => "heading",
            Rule::h1 => "h1",
            Rule::h2 => "h2",
            Rule::h3 => "h3",
            Rule::h4 => "h4",
            Rule::h5 => "h5",
            Rule::h6 => "h6",
            Rule::indent => "indent",
            Rule::marks => "marks",
            Rule::space => "space",
            Rule::heading_text => "heading_text",
            Rule::thematic_break => "thematic_break",
            Rule::break_marks => "break_marks",
            Rule::tag => "tag",
            Rule::self_closing_tag => "self_closing_tag",
            Rule::block_tag => "block_tag",
            Rule::tag_name => "tag_name",
            Rule::attrs => "attrs",
            Rule::attr => "attr",
            Rule::key => "key",
            Rule::value => "value",
            Rule::punct => "punct",
            Rule::ws => "ws",
            Rule::tag_content => "tag_content",
            Rule::fence_defn => "fence_defn",
            Rule::fence => "fence",
            Rule::lang => "lang",
            Rule::dict => "dict",
            Rule::dict_entry => "dict_entry",
            Rule::junk => "junk",
        };
        s.to_owned()
    }
}

} // verus!
