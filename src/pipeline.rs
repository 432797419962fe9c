use vstd::prelude::*;

use crate::grammar::{fails_at_start, match_at, Markdown, ParseError};
use crate::rule::Rule;
use crate::shape::shaped;
use crate::text::chars_of;
use crate::tree::{wf, Node};

verus! {

/// Marks a pipeline whose content is loaded and not yet parsed.
pub struct Init;

/// Marks a pipeline whose content is parsed.
pub struct Parsed;

/// Marks a pipeline whose output is rendered.
pub struct Html;

/// The stages of a pipeline, in the order it passes through them.
#[derive(Clone, Copy, Debug, PartialEq, Eq, Structural)]
pub enum ParserStage {
    /// Markdown content has been read into memory and is ready to parse.
    Init,
    /// The parser has produced all of its tokens.
    Parsed,
    /// The tokens have been turned into HTML.
    Transformed,
}

/// The tokens that a parser produced.
pub enum TokenContainer {
    Pest(Box<String>),
    Nom(Box<String>),
}

/// A parser that a pipeline can drive.
pub trait AbstractParser {
    fn name(&self) -> String;

    fn tokenize(&self, content: &str) -> TokenContainer;

    fn to_html(&self) -> String;
}

/// What a pipeline produces.
#[derive(Clone, Copy, Debug, PartialEq, Eq, Structural)]
pub enum Output {
    /// HTML output.
    HTML,
    /// The parse tokens.
    Tokens,
}

/// An operation was asked of a pipeline in a stage where it is not valid.
#[derive(Clone, Copy, Debug, PartialEq, Eq, Structural)]
pub struct StageError {
    /// The stage that the operation needs.
    pub expected: ParserStage,
    /// The stage that the pipeline is in.
    pub found: ParserStage,
}

/// A pipeline around any parser: it tokenizes the content once, then renders
/// it once, and refuses each step in the wrong stage.
pub struct Parser<T: AbstractParser> {
    /// The name of the parser.
    pub name: String,
    pub stage: ParserStage,
    /// What the pipeline should produce.
    pub output: Output,
    /// The parser.
    parser: T,
    /// The markdown content.
    pub md: String,
    /// The tokens that the parser produced.
    tokens: Option<TokenContainer>,
    /// The rendered HTML.
    html: Option<String>,
}

impl<T: AbstractParser> Parser<T> {
    /// The stage the pipeline is in.
    pub closed spec fn spec_stage(&self) -> ParserStage {
        self.stage
    }

    /// The markdown content.
    pub closed spec fn spec_md(&self) -> String {
        self.md
    }

    /// What the pipeline should produce.
    pub closed spec fn spec_output(&self) -> Output {
        self.output
    }

    /// The parser.
    pub closed spec fn spec_parser(&self) -> T {
        self.parser
    }

    /// The tokens that the parser produced, from the parsed stage on.
    pub closed spec fn spec_tokens(&self) -> Option<TokenContainer> {
        self.tokens
    }

    /// The HTML that the parser rendered, in the transformed stage.
    pub closed spec fn spec_html(&self) -> Option<String> {
        self.html
    }

    /// The pipeline's tokens exist exactly from the parsed stage on, and its
    /// HTML exactly in the transformed stage.
    pub closed spec fn stage_ok(&self) -> bool {
        &&& (self.tokens is Some <==> self.stage != ParserStage::Init)
        &&& (self.html is Some <==> self.stage == ParserStage::Transformed)
    }

    /// A pipeline in the initial stage over `md`.
    pub fn new(parser: T, md: String, output: Output) -> (r: Self)
        ensures
            r.spec_stage() == ParserStage::Init,
            r.stage_ok(),
            r.spec_md() == md,
            r.spec_output() == output,
    {
        let name = parser.name();
        Parser { name, stage: ParserStage::Init, output, parser, md, tokens: None, html: None }
    }

    /// Tokenizes the content: from the initial stage to the parsed one.
    pub fn tokenize(&mut self) -> (r: Result<(), StageError>)
        requires
            old(self).stage_ok(),
        ensures
            final(self).stage_ok(),
            final(self).spec_md() == old(self).spec_md(),
            final(self).spec_parser() == old(self).spec_parser(),
            old(self).spec_stage() == ParserStage::Init ==> r is Ok && final(self).spec_stage()
                == ParserStage::Parsed,
            old(self).spec_stage() == ParserStage::Init ==> (final(self).spec_tokens() matches Some(
                t,
            ) && exists|c: &str|
                c@ == old(self).spec_md()@ && #[trigger] call_ensures(
                    T::tokenize,
                    (&old(self).spec_parser(), c),
                    t,
                )),
            old(self).spec_stage() != ParserStage::Init ==> final(self).spec_tokens() == old(
                self,
            ).spec_tokens(),
            old(self).spec_stage() != ParserStage::Init ==> r == Err::<(), StageError>(
                StageError { expected: ParserStage::Init, found: old(self).spec_stage() },
            ) && final(self).spec_stage() == old(self).spec_stage(),
    {
        if self.stage != ParserStage::Init {
            return Err(StageError { expected: ParserStage::Init, found: self.stage });
        }
        let c = self.md.as_str();
        let tokens = self.parser.tokenize(c);
        assert(call_ensures(T::tokenize, (&self.parser, c), tokens));
        self.tokens = Some(tokens);
        self.stage = ParserStage::Parsed;
        Ok(())
    }

    /// Renders the tokens: from the parsed stage to the transformed one.
    pub fn transform(&mut self) -> (r: Result<(), StageError>)
        requires
            old(self).stage_ok(),
        ensures
            final(self).stage_ok(),
            final(self).spec_md() == old(self).spec_md(),
            final(self).spec_parser() == old(self).spec_parser(),
            final(self).spec_tokens() == old(self).spec_tokens(),
            old(self).spec_stage() == ParserStage::Parsed ==> r is Ok && final(self).spec_stage()
                == ParserStage::Transformed,
            old(self).spec_stage() == ParserStage::Parsed ==> (final(self).spec_html() matches Some(
                h,
            ) && call_ensures(T::to_html, (&old(self).spec_parser(),), h)),
            old(self).spec_stage() != ParserStage::Parsed ==> r == Err::<(), StageError>(
                StageError { expected: ParserStage::Parsed, found: old(self).spec_stage() },
            ) && final(self).spec_stage() == old(self).spec_stage(),
    {
        if self.stage != ParserStage::Parsed {
            return Err(StageError { expected: ParserStage::Parsed, found: self.stage });
        }
        let html = self.parser.to_html();
        self.html = Some(html);
        self.stage = ParserStage::Transformed;
        Ok(())
    }

    /// The tokens, from the parsed stage on.
    pub fn tokens(&self) -> (r: Result<&TokenContainer, StageError>)
        requires
            self.stage_ok(),
        ensures
            r is Ok <==> self.spec_stage() != ParserStage::Init,
            r matches Ok(t) ==> self.spec_tokens() == Some(*t),
            r is Err ==> r == Err::<&TokenContainer, StageError>(
                StageError { expected: ParserStage::Parsed, found: self.spec_stage() },
            ),
    {
        match &self.tokens {
            Some(t) => Ok(t),
            None => Err(StageError { expected: ParserStage::Parsed, found: self.stage }),
        }
    }

    /// The rendered HTML, in the transformed stage.
    pub fn html(&self) -> (r: Result<&String, StageError>)
        requires
            self.stage_ok(),
        ensures
            r is Ok <==> self.spec_stage() == ParserStage::Transformed,
            r matches Ok(h) ==> self.spec_html() == Some(*h),
            r is Err ==> r == Err::<&String, StageError>(
                StageError { expected: ParserStage::Transformed, found: self.spec_stage() },
            ),
    {
        match &self.html {
            Some(h) => Ok(h),
            None => Err(StageError { expected: ParserStage::Transformed, found: self.stage }),
        }
    }
}

/// A pipeline around the markdown grammar: content, the rule to parse it
/// against, and, stage by stage, the parse tree and the rendered output.
pub struct Parkdown {
    /// The raw markdown content.
    pub content: String,
    /// The file the content was read from, if any.
    file: Option<String>,
    /// The rule to parse against.
    pub rule: Rule,
    /// The root of the parse, from the parsed stage on.
    root: Option<Node>,
    /// The rendered output, in the transformed stage.
    html: Option<String>,
    stage: ParserStage,
}

impl Parkdown {
    /// The raw markdown content.
    pub closed spec fn spec_content(&self) -> String {
        self.content
    }

    /// The rule to parse against.
    pub closed spec fn spec_rule(&self) -> Rule {
        self.rule
    }

    /// The stage the pipeline is in.
    pub closed spec fn spec_stage(&self) -> ParserStage {
        self.stage
    }

    /// The rendered output, in the transformed stage.
    pub closed spec fn spec_html(&self) -> Option<String> {
        self.html
    }

    /// The root of the parse, from the parsed stage on.
    pub closed spec fn spec_root(&self) -> Option<Node> {
        self.root
    }

    /// The file the content was read from, if any.
    pub closed spec fn spec_file(&self) -> Option<String> {
        self.file
    }

    /// The root exists exactly from the parsed stage on, and matches the rule
    /// over the content; the output exists exactly in the transformed stage.
    pub closed spec fn stage_ok(&self) -> bool {
        &&& (self.root is Some <==> self.stage != ParserStage::Init)
        &&& (self.html is Some <==> self.stage == ParserStage::Transformed)
        &&& (self.root matches Some(n) ==> match_at(self.content@, 0, self.rule) == Some(
            n.end as int,
        ) && n.rule == self.rule && n.start == 0 && wf(n, self.content@.len() as int) && shaped(
            self.content@,
            n,
        ))
    }

    /// A pipeline over `content`, to be parsed as a whole file.
    pub fn new(content: &str) -> (r: Parkdown)
        ensures
            r.stage_ok(),
            r.spec_stage() == ParserStage::Init,
            r.spec_content()@ == content@,
            r.spec_rule() == Rule::file,
            r.spec_file() is None,
    {
        Parkdown::with_rule(Rule::file, content)
    }

    /// A pipeline that owns `content`, to be parsed as a whole file.
    pub fn new_owned(content: String) -> (r: Parkdown)
        ensures
            r.stage_ok(),
            r.spec_stage() == ParserStage::Init,
            r.spec_content() == content,
            r.spec_rule() == Rule::file,
            r.spec_file() is None,
    {
        Parkdown { content, file: None, rule: Rule::file, root: None, html: None, stage: ParserStage::Init }
    }

    /// A pipeline over `content`, to be parsed against `rule`.
    pub fn with_rule(rule: Rule, content: &str) -> (r: Parkdown)
        ensures
            r.stage_ok(),
            r.spec_stage() == ParserStage::Init,
            r.spec_content()@ == content@,
            r.spec_rule() == rule,
            r.spec_file() is None,
    {
        Parkdown {
            content: content.to_owned(),
            file: None,
            rule,
            root: None,
            html: None,
            stage: ParserStage::Init,
        }
    }

    /// Records the file that the content was read from.
    pub fn with_file(self, file: String) -> (r: Parkdown)
        requires
            self.stage_ok(),
        ensures
            r.stage_ok(),
            r.spec_stage() == self.spec_stage(),
            r.spec_content() == self.spec_content(),
            r.spec_rule() == self.spec_rule(),
            r.spec_file() == Some(file),
    {
        Parkdown { file: Some(file), ..self }
    }

    /// The file that the content was read from, if any.
    pub fn file(&self) -> (r: Option<String>)
        ensures
            r == self.spec_file(),
    {
        self.file.clone()
    }

    /// The stage the pipeline is in.
    pub fn stage(&self) -> (r: ParserStage)
        ensures
            r == self.spec_stage(),
    {
        self.stage
    }

    /// Parses the content against the rule: a pipeline in the parsed stage,
    /// or the grammar failure; in any stage but the initial one, a stage
    /// error.
    pub fn parse(&self) -> (r: Result<Parkdown, Result<StageError, ParseError>>)
        requires
            self.stage_ok(),
        ensures
            self.spec_stage() != ParserStage::Init ==> r == Err::<Parkdown, Result<StageError, ParseError>>(
                Ok(StageError { expected: ParserStage::Init, found: self.spec_stage() }),
            ),
            self.spec_stage() == ParserStage::Init ==> (r is Ok <==> match_at(self.spec_content()@, 0, self.spec_rule()) is Some),
            self.spec_stage() == ParserStage::Init && r is Err ==> (r matches Err(Err(e)) && fails_at_start(e, self.spec_content()@, self.spec_rule())),
            r matches Ok(p) ==> p.spec_root() matches Some(n) && n.rule == self.spec_rule() && n.start
                == 0 && match_at(self.spec_content()@, 0, self.spec_rule()) == Some(n.end as int) && wf(
                n,
                self.spec_content()@.len() as int,
            ) && shaped(self.spec_content()@, n),
            r matches Ok(p) ==> p.stage_ok() && p.spec_stage() == ParserStage::Parsed && p.spec_content()
                == self.spec_content() && p.spec_rule() == self.spec_rule() && p.spec_file() == self.spec_file(),
    {
        if self.stage != ParserStage::Init {
            return Err(Ok(StageError { expected: ParserStage::Init, found: self.stage }));
        }
        let text = chars_of(self.content.as_str());
        match Markdown::parse_chars(self.rule, &text) {
            Ok(n) => Ok(
                Parkdown {
                    content: self.content.clone(),
                    file: self.file.clone(),
                    rule: self.rule,
                    root: Some(n),
                    html: None,
                    stage: ParserStage::Parsed,
                },
            ),
            Err(e) => Err(Err(e)),
        }
    }

    /// The root of the parse, from the parsed stage on.
    pub fn pairs(&self) -> (r: Result<&Node, StageError>)
        requires
            self.stage_ok(),
        ensures
            r is Ok <==> self.spec_stage() != ParserStage::Init,
            r matches Ok(n) ==> self.spec_root() == Some(*n),
            r matches Ok(n) ==> n.rule == self.spec_rule() && n.start == 0 && match_at(
                self.spec_content()@,
                0,
                self.spec_rule(),
            ) == Some(n.end as int) && wf(*n, self.spec_content()@.len() as int) && shaped(
                self.spec_content()@,
                *n,
            ),
            r is Err ==> r == Err::<&Node, StageError>(
                StageError { expected: ParserStage::Parsed, found: self.spec_stage() },
            ),
    {
        match &self.root {
            Some(n) => Ok(n),
            None => Err(StageError { expected: ParserStage::Parsed, found: self.stage }),
        }
    }

    /// Takes the output that a renderer made of the parse: from the parsed
    /// stage to the transformed one.
    pub fn transform(self, html: String) -> (r: Result<Parkdown, StageError>)
        requires
            self.stage_ok(),
        ensures
            self.spec_stage() == ParserStage::Parsed ==> (r matches Ok(p) && p.stage_ok()
                && p.spec_stage() == ParserStage::Transformed && p.spec_content() == self.spec_content()
                && p.spec_root() == self.spec_root() && p.spec_html() == Some(html)),
            self.spec_stage() != ParserStage::Parsed ==> r == Err::<Parkdown, StageError>(
                StageError { expected: ParserStage::Parsed, found: self.spec_stage() },
            ),
    {
        if self.stage != ParserStage::Parsed {
            return Err(StageError { expected: ParserStage::Parsed, found: self.stage });
        }
        Ok(Parkdown { html: Some(html), stage: ParserStage::Transformed, ..self })
    }

    /// The rendered output, in the transformed stage.
    pub fn html(&self) -> (r: Result<&String, StageError>)
        requires
            self.stage_ok(),
        ensures
            r is Ok <==> self.spec_stage() == ParserStage::Transformed,
            r matches Ok(h) ==> self.spec_html() == Some(*h),
            r is Err ==> r == Err::<&String, StageError>(
                StageError { expected: ParserStage::Transformed, found: self.spec_stage() },
            ),
    {
        match &self.html {
            Some(h) => Ok(h),
            None => Err(StageError { expected: ParserStage::Transformed, found: self.stage }),
        }
    }
}

} // verus!
