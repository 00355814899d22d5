//! Parsing of `.orbit` files: the file is split into its sections and the
//! template is parsed into an element tree.
use vstd::prelude::*;
use crate::text::{chars_of, lines, lines_of, push_char, push_chars, string_from, trim, trim_vec, views};

pub mod ast;
pub mod template;
pub mod tokenizer;

use ast::{OrbitAst, ScriptNode, StyleNode};
use template::{parsed_view, template_parse, TemplateParser};

verus! {

/// Sections of an `.orbit` file.
#[derive(Debug, Clone, Copy, PartialEq, Eq, Structural)]
pub enum SectionKind {
    Template,
    Style,
    Script,
}

/// The state of splitting a file into sections: the text of each section
/// found so far, the section being read and its text so far.
pub struct SplitState {
    pub template: Seq<char>,
    pub style: Seq<char>,
    pub script: Seq<char>,
    pub current: Option<SectionKind>,
    pub content: Seq<char>,
}

/// Nothing read yet.
pub open spec fn split_start() -> SplitState {
    SplitState {
        template: Seq::empty(),
        style: Seq::empty(),
        script: Seq::empty(),
        current: None,
        content: Seq::empty(),
    }
}

/// Reading one line: a line that is (after trimming) `<template>`,
/// `<style>`, or one of `<script>`, `<code>`, `<code lang="rust">` opens
/// that section; `</template>`, `</style>`, `</script>` or `</code>`
/// closes one, and what was collected becomes that section's text. Any
/// other line is collected, with a line break, while a section is open.
pub open spec fn split_step(st: SplitState, line: Seq<char>) -> SplitState {
    let t = trim(line);
    if t == "<template>"@ {
        SplitState { current: Some(SectionKind::Template), ..st }
    } else if t == "</template>"@ {
        SplitState { template: st.content, content: Seq::empty(), current: None, ..st }
    } else if t == "<style>"@ {
        SplitState { current: Some(SectionKind::Style), ..st }
    } else if t == "</style>"@ {
        SplitState { style: st.content, content: Seq::empty(), current: None, ..st }
    } else if t == "<script>"@ || t == "<code>"@ || t == "<code lang=\"rust\">"@ {
        SplitState { current: Some(SectionKind::Script), ..st }
    } else if t == "</script>"@ || t == "</code>"@ {
        SplitState { script: st.content, content: Seq::empty(), current: None, ..st }
    } else if st.current is Some {
        SplitState { content: st.content + line + seq!['\n'], ..st }
    } else {
        st
    }
}

/// The state after reading some lines.
pub open spec fn split_lines(ls: Seq<Seq<char>>) -> SplitState
    decreases ls.len(),
{
    if ls.len() == 0 {
        split_start()
    } else {
        split_step(split_lines(ls.drop_last()), ls.last())
    }
}

/// The template, style and script text of a file; an error when it has
/// no (or an empty) template.
pub open spec fn split_sections(content: Seq<char>) -> Result<(Seq<char>, Seq<char>, Seq<char>), Seq<char>> {
    let st = split_lines(lines(content));
    if st.template.len() == 0 {
        Err("Missing <template> section"@)
    } else {
        Ok((st.template, st.style, st.script))
    }
}

/// The parser of `.orbit` files.
#[derive(Debug, Default)]
pub struct OrbitParser;

/// The sections of a file.
struct Sections {
    template: String,
    style: String,
    script: String,
}

/// Whether the characters `t` spell the string literal `lit`.
fn is_line(t: &Vec<char>, lit: &str) -> (r: bool)
    ensures
        r == (t@ == lit@),
{
    let w = chars_of(lit);
    crate::text::eq_chars(t.as_slice(), w.as_slice())
}

impl OrbitParser {
    /// Splits a file into its sections.
    fn split_sections(content: &str) -> (r: Result<Sections, String>)
        ensures
            match split_sections(content@) {
                Ok((t, s, c)) => r matches Ok(secs) && secs.template@ == t && secs.style@ == s
                    && secs.script@ == c,
                Err(m) => r matches Err(e) && e@ == m,
            },
    {
        let chars = chars_of(content);
        let ls = lines_of(chars.as_slice());
        let ghost gls = lines(content@);
        let mut template: Vec<char> = Vec::new();
        let mut style: Vec<char> = Vec::new();
        let mut script: Vec<char> = Vec::new();
        let mut current: Option<SectionKind> = None;
        let mut collected: Vec<char> = Vec::new();
        let mut i: usize = 0;
        assert(gls.take(0) =~= Seq::<Seq<char>>::empty());
        while i < ls.len()
            invariant
                views(ls@) == gls,
                gls == lines(content@),
                i <= ls@.len(),
                split_lines(gls.take(i as int)) == (SplitState {
                    template: template@,
                    style: style@,
                    script: script@,
                    current,
                    content: collected@,
                }),
            decreases ls@.len() - i,
        {
            let line = &ls[i];
            assert(gls.take(i + 1).drop_last() =~= gls.take(i as int));
            assert(gls[i as int] == line@);
            let t = trim_vec(line.as_slice());
            if is_line(&t, "<template>") {
                current = Some(SectionKind::Template);
            } else if is_line(&t, "</template>") {
                template = collected;
                collected = Vec::new();
                current = None;
            } else if is_line(&t, "<style>") {
                current = Some(SectionKind::Style);
            } else if is_line(&t, "</style>") {
                style = collected;
                collected = Vec::new();
                current = None;
            } else if is_line(&t, "<script>") || is_line(&t, "<code>") || is_line(&t, "<code lang=\"rust\">") {
                current = Some(SectionKind::Script);
            } else if is_line(&t, "</script>") || is_line(&t, "</code>") {
                script = collected;
                collected = Vec::new();
                current = None;
            } else if current.is_some() {
                let ghost before = collected@;
                let mut copy = line.clone();
                collected.append(&mut copy);
                collected.push('\n');
                assert(collected@ =~= before + line@ + seq!['\n']);
            }
            i = i + 1;
        }
        assert(gls.take(ls@.len() as int) =~= gls);
        if template.len() == 0 {
            return Err("Missing <template> section".to_owned());
        }
        Ok(Sections {
            template: string_from(template.as_slice()),
            style: string_from(style.as_slice()),
            script: string_from(script.as_slice()),
        })
    }

    /// Parses a file: its template becomes an element tree; its style and
    /// script sections are left empty in the result. Errors: a missing
    /// template section, or the template parser's error.
    pub fn parse(content: &str) -> (r: Result<OrbitAst, String>)
        ensures
            match split_sections(content@) {
                Err(m) => r matches Err(e) && e@ == m,
                Ok((t, _, _)) => match template_parse(t) {
                    Ok(n) => r matches Ok(ast) && ast.template@ == n && ast.style.rules@.len() == 0
                        && !ast.style.scoped && ast.script.imports@.len() == 0
                        && ast.script.component_name@.len() == 0 && ast.script.props@.len() == 0
                        && ast.script.state@.len() == 0 && ast.script.methods@.len() == 0
                        && ast.script.lifecycle@.len() == 0,
                    Err(m) => r matches Err(e) && e@ == m,
                },
            },
    {
        let sections = Self::split_sections(content)?;
        let mut parser = TemplateParser::new(sections.template.as_str());
        let template_node = parser.parse()?;
        let style_node = StyleNode { rules: Vec::new(), scoped: false };
        let script_node = ScriptNode {
            imports: Vec::new(),
            component_name: String::new(),
            props: Vec::new(),
            state: Vec::new(),
            methods: Vec::new(),
            lifecycle: Vec::new(),
        };
        Ok(OrbitAst::new(template_node, style_node, script_node))
    }
}

} // verus!
