use parkdown::{parse_rule, Rule, RuleChain};

#[test]
fn is_attrs() {
    let p = parse_rule(
        Rule::attrs, //
        "   class=\"foo bar baz\" data-flag=\"false\"  ",
    );

    assert!(matches!(p, Ok(_)))
}

#[test]
fn self_closing_tag() {
    let p = RuleChain::parse(
        Rule::tag, //
        "<test class=\"foo bar\" style=\"color: red\" />",
    );

    if let Ok(tag) = p {
        println!("{}", tag.describe());
    }
}

#[test]
fn block_tag() {
    let p1 = RuleChain::parse(
        Rule::tag,
        r#"<foo-bar class="foo bar">hello world</foo-bar>"#,
    );

    match p1 {
        Ok(tag) => println!("{}", tag.describe()),
        Err(err) => {
            panic!("{:?}", err);
        }
    }
}

#[test]
fn h1() {
    let p = RuleChain::parse(
        Rule::h1, //
        "# Foobar\n",
    );

    assert!(matches!(p, Ok(_)));
}

#[test]
fn h6_with_two_space_indent() {
    let p = RuleChain::parse(
        Rule::h6, //
        "  ###### Foobar\n",
    );

    assert!(matches!(p, Ok(_)));
}

#[test]
fn h4_from_heading() {
    let p = RuleChain::parse(
        Rule::heading, //
        " #### Foobar\n",
    );
    assert!(matches!(p, Ok(_)));
}

#[test]
fn fenced_code_block() {
    let dict = RuleChain::parse(
        Rule::fence_defn,
        r#"```ts { foo: "bar", bar: "baz" } bad-juju"#,
    );
    if let Ok(mut tag) = dict {
        println!("{}", &tag.describe());

        let lang = tag.get_rule_text("lang");
        assert!(matches!(lang.as_str(), "ts"));
    }
}

#[test]
fn thematic_break() {
    let md = r#"
# Foobar

something
---
something else
        "#;
    let p = parse_rule(
        Rule::file, //
        md,
    );

    assert!(matches!(p, Ok(_)))
}
