use parkdown::{
    get_text, is_only_child, pad, parse_or_panic, parse_rule, test_parse, AbstractParser, Markdown,
    Output, Parkdown, ParseError, ParsedContainer, Parser, ParserStage, Rule, RuleChain,
    StageError, TokenContainer,
};

const HEADING_RULES: [Rule; 6] = [Rule::h1, Rule::h2, Rule::h3, Rule::h4, Rule::h5, Rule::h6];

fn heading_line(n: usize) -> String {
    format!("{} Title text\n", "#".repeat(n))
}

/// The key and unquoted value of each `attr` child of an `attrs` chain.
fn pairs_of(attrs: &mut RuleChain) -> Vec<(String, String)> {
    let mut out = Vec::new();
    for mut a in attrs.get_rules("attr") {
        let key = a.get_rule_text("key");
        let value = a.get_rule_text("value");
        out.push((key, value.trim_matches('"').to_string()));
    }
    out
}

/// The text of every leaf under `c`, in source order.
fn leaf_text(c: &RuleChain) -> String {
    if !c.has_children() {
        return c.get_text();
    }
    c.get_children().iter().map(leaf_text).collect()
}

fn child_rules(c: &RuleChain) -> Vec<String> {
    c.get_children().iter().map(|k| k.name()).collect()
}

#[test]
fn heading_level_matches_mark_count() {
    for n in 1..=6 {
        let line = heading_line(n);
        for (i, rule) in HEADING_RULES.iter().enumerate() {
            let ok = RuleChain::parse(*rule, &line).is_ok();
            assert_eq!(ok, i + 1 == n, "{} marks against level {}", n, i + 1);
        }
        let mut h = RuleChain::parse(Rule::heading, &line).unwrap();
        let level = h.find_rule(&format!("h{}", n));
        assert!(level.is_some());
        assert_eq!(h.how_many(&format!("h{}", n)), 1);
    }
}

#[test]
fn seven_marks_match_no_heading_rule() {
    let line = heading_line(7);
    for rule in HEADING_RULES.iter() {
        assert!(RuleChain::parse(*rule, &line).is_err());
    }
    assert!(RuleChain::parse(Rule::heading, &line).is_err());
}

#[test]
fn heading_needs_whitespace_and_text() {
    assert!(RuleChain::parse(Rule::h1, "#Foobar\n").is_err());
    assert!(RuleChain::parse(Rule::h1, "#   \n").is_err());
    assert!(RuleChain::parse(Rule::h1, "    # Foobar\n").is_err());
    assert!(RuleChain::parse(Rule::h1, "   # Foobar").is_ok());
}

#[test]
fn h1_scenario_text_and_level() {
    let mut h = RuleChain::parse(Rule::h1, "# Foobar\n").unwrap();
    assert_eq!(h.name(), "h1");
    assert_eq!(h.get_rule_text("heading_text"), "Foobar");
    assert_eq!(h.get_rule_text("marks"), "#");
    assert_eq!(h.get_start(), 0);
    assert_eq!(h.get_end(), 9);
    assert_eq!(h.get_text(), "# Foobar\n");
}

#[test]
fn h6_scenario_with_indent() {
    let mut h = RuleChain::parse(Rule::h6, "  ###### Foobar\n").unwrap();
    assert_eq!(h.get_rule_text("indent"), "  ");
    assert_eq!(h.get_rule_text("marks"), "######");
    assert_eq!(h.get_rule_text("heading_text"), "Foobar");
}

#[test]
fn self_closing_tag_attributes() {
    let mut tag = RuleChain::parse(Rule::tag, "<test class=\"foo bar\" style=\"color: red\" />").unwrap();
    let mut inner = tag.find_rule("self_closing_tag").unwrap();
    assert!(tag.find_rule("block_tag").is_none());
    assert_eq!(inner.get_rule_text("tag_name"), "test");
    assert!(!inner.has_rule("tag_content"));
    let mut attrs = inner.find_rule("attrs").unwrap();
    assert_eq!(
        pairs_of(&mut attrs),
        vec![
            ("class".to_string(), "foo bar".to_string()),
            ("style".to_string(), "color: red".to_string())
        ]
    );
}

#[test]
fn self_closing_tag_without_attributes() {
    let mut tag = RuleChain::parse(Rule::self_closing_tag, "<br/>").unwrap();
    assert_eq!(tag.get_rule_text("tag_name"), "br");
    assert!(!tag.has_rule("tag_content"));
    assert!(RuleChain::parse(Rule::self_closing_tag, "<br />").is_ok());
    assert!(RuleChain::parse(Rule::self_closing_tag, "<br>").is_err());
}

#[test]
fn block_tag_names_must_match() {
    let mut ok = RuleChain::parse(Rule::block_tag, "<foo>hello</foo>").unwrap();
    assert_eq!(ok.get_rule_text("tag_content"), "hello");
    assert_eq!(ok.get_rule_text("tag_name"), "foofoo");
    assert_eq!(ok.how_many("tag_name"), 2);
    assert!(RuleChain::parse(Rule::block_tag, "<foo>hello</bar>").is_err());
    assert!(RuleChain::parse(Rule::tag, "<foo>hello</bar>").is_err());
    assert!(RuleChain::parse(Rule::tag, "<foo>hello</Foo>").is_err());
    assert!(RuleChain::parse(Rule::tag, "<foo>hello</foo >").is_ok());
}

#[test]
fn block_tag_with_attributes() {
    let mut tag = RuleChain::parse(Rule::tag, r#"<foo-bar class="foo bar">hello world</foo-bar>"#).unwrap();
    let mut inner = tag.find_rule("block_tag").unwrap();
    assert_eq!(inner.get_rule_text("tag_content"), "hello world");
    let mut attrs = inner.find_rule("attrs").unwrap();
    assert_eq!(pairs_of(&mut attrs), vec![("class".to_string(), "foo bar".to_string())]);
}

#[test]
fn attrs_ignore_whitespace() {
    let spaced = ["a=\"1\" b=\"two words\"", "   a=\"1\"    b=\"two words\"   ", "a=\"1\"\tb=\"two words\"\t"];
    let expected = vec![("a".to_string(), "1".to_string()), ("b".to_string(), "two words".to_string())];
    for s in spaced.iter() {
        let mut c = RuleChain::parse(Rule::attrs, s).unwrap();
        assert_eq!(c.get_end(), s.chars().count());
        assert_eq!(pairs_of(&mut c), expected);
    }
}

#[test]
fn attrs_need_separating_whitespace() {
    let mut c = RuleChain::parse(Rule::attrs, "a=\"1\"b=\"2\"").unwrap();
    assert_eq!(c.get_end(), 5);
    assert_eq!(c.how_many("attr"), 1);
    assert!(parse_rule(Rule::attrs, "   ").is_err());
    assert!(parse_rule(Rule::attr, "a=\"unclosed").is_err());
}

#[test]
fn fence_definition_parts() {
    let text = r#"```ts { foo: "bar", bar: "baz" } bad-juju"#;
    let mut f = RuleChain::parse(Rule::fence_defn, text).unwrap();
    assert_eq!(f.get_rule_text("lang"), "ts");
    assert_eq!(f.get_rule_text("junk"), " bad-juju");
    assert_eq!(f.get_end(), text.chars().count());
    let mut dict = f.find_rule("dict").unwrap();
    assert_eq!(dict.get_text(), r#"{ foo: "bar", bar: "baz" }"#);
    assert_eq!(dict.how_many("dict_entry"), 2);
}

#[test]
fn fence_definition_without_language() {
    let mut f = RuleChain::parse(Rule::fence_defn, "```").unwrap();
    assert_eq!(f.get_rule_text("lang"), "");
    assert!(!f.has_rule("lang"));
    assert!(RuleChain::parse(Rule::fence_defn, "``ts").is_err());
}

#[test]
fn file_with_thematic_break() {
    let md = "\n# Foobar\n\nsomething\n---\nsomething else\n        ";
    let file = RuleChain::parse(Rule::file, md).unwrap();
    assert_eq!(
        child_rules(&file),
        vec!["blank_line", "heading", "blank_line", "paragraph", "thematic_break", "paragraph", "blank_line"]
    );
    assert_eq!(file.get_end(), md.chars().count());
}

#[test]
fn thematic_break_forms() {
    assert!(parse_rule(Rule::thematic_break, "***\n").is_ok());
    assert!(parse_rule(Rule::thematic_break, " - - -").is_ok());
    assert!(parse_rule(Rule::thematic_break, "___ _").is_ok());
    assert!(parse_rule(Rule::thematic_break, "--").is_err());
    assert!(parse_rule(Rule::thematic_break, "-*-").is_err());
    assert!(parse_rule(Rule::thematic_break, "--- x").is_err());
}

#[test]
fn empty_file_parses_to_an_empty_root() {
    let file = RuleChain::parse(Rule::file, "").unwrap();
    assert!(!file.has_children());
    assert_eq!(file.get_end(), 0);
}

#[test]
fn absent_rule_text_is_empty() {
    let mut h = RuleChain::parse(Rule::h1, "# Foobar\n").unwrap();
    assert_eq!(h.get_rule_text("lang"), "");
    assert_eq!(h.get_rule_text("no_such_rule"), "");
    assert!(h.find_rule("lang").is_none());
    assert!(h.get_rules("lang").is_empty());
    assert!(!h.has_rule("lang"));
    assert_eq!(h.how_many("lang"), 0);
}

#[test]
fn leaf_text_reconstructs_the_span() {
    let inputs = [
        (Rule::file, "\n# Foobar\n\nsomething\n---\nsomething else\n        "),
        (Rule::tag, "<test class=\"foo bar\" style=\"color: red\" />"),
        (Rule::tag, r#"<foo-bar class="foo bar">hello world</foo-bar>"#),
        (Rule::fence_defn, r#"```ts { foo: "bar", bar: "baz" } bad-juju"#),
        (Rule::heading, "  ###### Foobar\n"),
    ];
    for (rule, text) in inputs.iter() {
        let c = RuleChain::parse(*rule, text).unwrap();
        assert_eq!(leaf_text(&c), c.get_text());
    }
}

#[test]
fn rule_index_is_built_on_first_query() {
    let mut p = RuleChain::parse(Rule::paragraph, "one\ntwo\n").unwrap();
    assert!(p.get_rule_name("text").is_none());
    assert_eq!(p.get_rule_text("text"), "onetwo");
    let texts: Vec<(usize, usize)> =
        p.get_rule_name("text").unwrap().iter().map(|c| (c.get_start(), c.get_end())).collect();
    assert_eq!(texts, vec![(0, 3), (4, 7)]);
    let eols: Vec<(usize, usize)> =
        p.get_rule_name("eol").unwrap().iter().map(|c| (c.get_start(), c.get_end())).collect();
    assert_eq!(eols, vec![(3, 4), (7, 8)]);
    assert!(p.get_rule_name("lang").is_none());
    let lines: Vec<String> = p.get_rules("text").iter().map(|c| c.get_text()).collect();
    assert_eq!(lines, vec!["one", "two"]);
}

#[test]
fn describe_leaf_children() {
    let c = RuleChain::parse(Rule::h1, "# A\n").unwrap();
    assert_eq!(
        c.describe(),
        "\n[h1 is \"# A\n\"], composed of [\n  marks [\"#\"],\n  space [\" \"],\n  heading_text [\"A\"],\n  eol [\"\n\"],\n"
    );
}

#[test]
fn describe_collapses_single_child() {
    let c = RuleChain::parse(Rule::file, "# A").unwrap();
    assert_eq!(
        c.describe(),
        "\n[file is \"# A\"], composed of [\n  heading -> h1 [\n    marks [\"#\"],\n    space [\" \"],\n    heading_text [\"A\"],\n\n  ],\n\n"
    );
}

#[test]
fn depth_counts_levels_below() {
    assert_eq!(RuleChain::parse(Rule::file, "# A").unwrap().depth(), 3);
    assert_eq!(RuleChain::parse(Rule::attr, "k=\"v\"").unwrap().depth(), 1);
    assert_eq!(RuleChain::parse(Rule::file, "").unwrap().depth(), 0);
}

#[test]
fn display_shows_name_and_text() {
    let c = RuleChain::parse(Rule::attr, "k=\"v\"").unwrap();
    assert_eq!(c.display(), "attr(k=\"v\")");
}

#[test]
fn pad_indents_two_spaces_per_level() {
    assert_eq!(pad(2, "x".to_string()), "    x");
    assert_eq!(pad(0, "y".to_string()), "y");
}

#[test]
fn grammar_failure_names_the_rule() {
    match Markdown::parse(Rule::h1, "plain text") {
        Err(ParseError::GrammarFailure { rule, position, expected }) => {
            assert_eq!(rule, Rule::h1);
            assert_eq!(position, 0);
            assert_eq!(expected, vec![Rule::marks]);
        }
        _ => panic!("expected a grammar failure"),
    }
    assert!(matches!(Markdown::parse(Rule::text, "x"), Err(ParseError::GrammarFailure { .. })));
}

fn failure_of(rule: Rule, text: &str) -> (usize, Vec<Rule>) {
    match parse_rule(rule, text) {
        Err(ParseError::GrammarFailure { position, expected, .. }) => (position, expected),
        _ => panic!("expected a grammar failure"),
    }
}

#[test]
fn grammar_failure_reports_the_deepest_position() {
    assert_eq!(failure_of(Rule::h1, "#"), (1, vec![Rule::space]));
    assert_eq!(failure_of(Rule::h1, "## x"), (1, vec![Rule::space]));
    assert_eq!(failure_of(Rule::h2, "# x"), (1, vec![Rule::marks]));
    assert_eq!(failure_of(Rule::h1, "#  \n"), (3, vec![Rule::heading_text]));
    assert_eq!(failure_of(Rule::heading, "####### x"), (6, vec![Rule::space]));
    assert_eq!(failure_of(Rule::tag, "<a>x</b>"), (6, vec![Rule::tag_name]));
    assert_eq!(failure_of(Rule::tag, "<a x>"), (3, vec![Rule::punct, Rule::punct]));
    assert_eq!(failure_of(Rule::attrs, "  k=v"), (4, vec![Rule::value]));
    assert_eq!(failure_of(Rule::attr, "k=\"open"), (7, vec![Rule::punct]));
    assert_eq!(failure_of(Rule::thematic_break, "--x"), (2, vec![Rule::break_marks]));
    assert_eq!(failure_of(Rule::fence_defn, "``x"), (2, vec![Rule::fence]));
    assert_eq!(failure_of(Rule::dict, "{ a: \"b\" ;"), (9, vec![Rule::punct]));
    match RuleChain::parse(Rule::h1, "#") {
        Err(ParseError::GrammarFailure { position, .. }) => assert_eq!(position, 1),
        _ => panic!("expected a grammar failure"),
    }
}

#[test]
fn one_root_is_required() {
    let text: Vec<char> = "ab".chars().collect();
    assert!(matches!(RuleChain::try_from_roots(Vec::new(), text.clone()), Err(ParseError::EmptyResult)));
    let a = parse_or_panic(Rule::paragraph, "ab");
    let b = parse_or_panic(Rule::paragraph, "ab");
    assert!(matches!(
        RuleChain::try_from_roots(vec![a, b], text.clone()),
        Err(ParseError::MultipleRoots)
    ));
    let c = parse_or_panic(Rule::paragraph, "ab");
    let chain = RuleChain::try_from_roots(vec![c], text).unwrap();
    assert_eq!(chain.get_text(), "ab");
}

#[test]
fn free_functions() {
    assert!(test_parse(Rule::h2, "## x").is_some());
    let n = parse_or_panic(Rule::paragraph, "hello\nworld");
    assert!(!is_only_child(&n.children));
    let text: Vec<char> = "hello\nworld".chars().collect();
    assert_eq!(get_text(&ParsedContainer::Pairs(n.children), &text), "hello\nworld");
    assert_eq!(get_text(&ParsedContainer::Span(1, 4), &text), "ell");
    let h = parse_or_panic(Rule::heading, "# x");
    assert!(is_only_child(&h.children));
    assert_eq!(get_text(&ParsedContainer::Pair(h), &text), "hel");
}

#[test]
fn positions_count_characters() {
    let mut h = RuleChain::parse(Rule::h1, "# Café ☕\n").unwrap();
    assert_eq!(h.get_rule_text("heading_text"), "Café ☕");
    assert_eq!(h.get_end(), 9);
}

#[test]
fn parkdown_stages() {
    let p = Parkdown::new("# Title\n\nbody\n");
    assert_eq!(p.stage(), ParserStage::Init);
    assert_eq!(
        p.pairs().err(),
        Some(StageError { expected: ParserStage::Parsed, found: ParserStage::Init })
    );
    let parsed = p.parse().ok().unwrap();
    assert_eq!(parsed.stage(), ParserStage::Parsed);
    assert_eq!(parsed.pairs().unwrap().rule, Rule::file);
    assert!(parsed.html().is_err());
    assert!(matches!(parsed.parse(), Err(Ok(_))));
    let done = parsed.transform("<h1>Title</h1>".to_string()).ok().unwrap();
    assert_eq!(done.stage(), ParserStage::Transformed);
    assert_eq!(done.html().unwrap(), "<h1>Title</h1>");
    assert!(done.transform(String::new()).is_err());
}

#[test]
fn parkdown_with_rule_and_file() {
    let p = Parkdown::with_rule(Rule::h1, "no heading");
    assert!(matches!(p.parse(), Err(Err(ParseError::GrammarFailure { .. }))));
    let q = Parkdown::new_owned("text".to_string()).with_file("notes.md".to_string());
    assert_eq!(q.file(), Some("notes.md".to_string()));
    assert_eq!(q.rule, Rule::file);
}

struct Upper;

impl AbstractParser for Upper {
    fn name(&self) -> String {
        "upper".to_string()
    }

    fn tokenize(&self, content: &str) -> TokenContainer {
        TokenContainer::Nom(Box::new(content.to_uppercase()))
    }

    fn to_html(&self) -> String {
        "<p></p>".to_string()
    }
}

#[test]
fn parser_pipeline_refuses_out_of_order_steps() {
    let mut p = Parser::new(Upper, "abc".to_string(), Output::HTML);
    assert_eq!(p.name, "upper");
    assert_eq!(p.output, Output::HTML);
    assert!(p.tokens().is_err());
    assert_eq!(
        p.transform(),
        Err(StageError { expected: ParserStage::Parsed, found: ParserStage::Init })
    );
    assert_eq!(p.tokenize(), Ok(()));
    assert_eq!(p.stage, ParserStage::Parsed);
    assert!(matches!(p.tokens(), Ok(TokenContainer::Nom(s)) if s.as_str() == "ABC"));
    assert!(p.tokenize().is_err());
    assert_eq!(p.transform(), Ok(()));
    assert_eq!(p.html().unwrap(), "<p></p>");
    assert_eq!(p.stage, ParserStage::Transformed);
}
