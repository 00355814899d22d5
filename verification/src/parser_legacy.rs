//! Section-based parser and compiler for `.orbit` files.
//!
//! An `.orbit` file holds a `<template>`, a `<style>` and a script section;
//! the script section is enclosed in `<script>`, `<code lang="rust">` or
//! `<code>` tags.
use vstd::prelude::*;
use crate::Error;
use crate::text::{
    chars_of, contains, eq_chars, find, find_from, find_in, join, lemma_find_correct, lines,
    lines_of, opt_nat, push_char, push_chars, push_str, rfind, rfind_in, shift, slice_vec,
    starts_with, starts_with_at, string_from, trim, trim_bounds, views,
};

verus! {

// ---------------------------------------------------------------------
// Types
// ---------------------------------------------------------------------

/// Parser for `.orbit` files.
pub struct OrbitParser;

/// A section of an `.orbit` file: its trimmed content and where it stood.
struct Section {
    content: String,
    start_pos: usize,
    end_pos: usize,
}

/// A parsed `.orbit` file.
#[derive(Debug, Clone)]
pub struct OrbitFile {
    /// The HTML/XML template.
    pub template: String,
    /// Attributes of the template tag, as (name, value) pairs.
    pub template_attrs: Vec<(String, String)>,
    /// The CSS style.
    pub style: String,
    /// Attributes of the style tag, as (name, value) pairs.
    pub style_attrs: Vec<(String, String)>,
    /// The Rust script.
    pub script: String,
    /// The file path, if known.
    pub file_path: Option<String>,
}

/// A compiled Orbit component.
#[derive(Debug)]
pub struct CompiledComponent {
    /// Generated Rust code.
    pub code: String,
    /// Component name.
    pub name: String,
    /// Original file path.
    pub file_path: Option<String>,
    /// CSS styles.
    pub styles: String,
    /// Whether the styles are scoped.
    pub scoped_styles: bool,
}

/// Attributes as (name, value) character sequences.
pub type AttrsView = Seq<(Seq<char>, Seq<char>)>;

/// The views of a list of attributes.
pub open spec fn attrs_view(a: Seq<(String, String)>) -> AttrsView {
    a.map_values(|p: (String, String)| (p.0@, p.1@))
}

/// An optional string as an optional character sequence.
pub open spec fn opt_view(o: Option<String>) -> Option<Seq<char>> {
    match o {
        Some(s) => Some(s@),
        None => None,
    }
}

/// The content of a parsed file.
pub struct OrbitFileView {
    pub template: Seq<char>,
    pub template_attrs: AttrsView,
    pub style: Seq<char>,
    pub style_attrs: AttrsView,
    pub script: Seq<char>,
    pub file_path: Option<Seq<char>>,
}

impl View for OrbitFile {
    type V = OrbitFileView;

    open spec fn view(&self) -> OrbitFileView {
        OrbitFileView {
            template: self.template@,
            template_attrs: attrs_view(self.template_attrs@),
            style: self.style@,
            style_attrs: attrs_view(self.style_attrs@),
            script: self.script@,
            file_path: opt_view(self.file_path),
        }
    }
}

/// The content of a compiled component.
pub struct CompiledView {
    pub code: Seq<char>,
    pub name: Seq<char>,
    pub file_path: Option<Seq<char>>,
    pub styles: Seq<char>,
    pub scoped_styles: bool,
}

impl View for CompiledComponent {
    type V = CompiledView;

    open spec fn view(&self) -> CompiledView {
        CompiledView {
            code: self.code@,
            name: self.name@,
            file_path: opt_view(self.file_path),
            styles: self.styles@,
            scoped_styles: self.scoped_styles,
        }
    }
}

// ---------------------------------------------------------------------
// Sections
// ---------------------------------------------------------------------

/// What looking for a section between two tags gives.
pub enum SectionOutcome {
    /// The trimmed text between the tags.
    Found(Seq<char>),
    /// The opening tag does not occur.
    MissingOpen,
    /// The opening tag occurs but no closing tag follows it.
    Unclosed,
}

/// The text between the first `open` tag and the next `close` tag, trimmed.
pub open spec fn section(content: Seq<char>, open: Seq<char>, close: Seq<char>) -> SectionOutcome {
    match find(content, open) {
        None => SectionOutcome::MissingOpen,
        Some(s) => {
            let cs = s + open.len();
            match find(content.skip(cs as int), close) {
                None => SectionOutcome::Unclosed,
                Some(e) => SectionOutcome::Found(trim(content.subrange(cs as int, (cs + e) as int))),
            }
        },
    }
}

/// `<name>`.
pub open spec fn open_tag(name: Seq<char>) -> Seq<char> {
    seq!['<'] + name + seq!['>']
}

/// `</name>`.
pub open spec fn close_tag(name: Seq<char>) -> Seq<char> {
    seq!['<', '/'] + name + seq!['>']
}

/// The section enclosed in `<name>` and `</name>`.
pub open spec fn named_section(content: Seq<char>, name: Seq<char>) -> SectionOutcome {
    section(content, open_tag(name), close_tag(name))
}

/// The script section: enclosed in `<script>`, else `<code lang="rust">`, else `<code>`.
pub open spec fn script_section(content: Seq<char>) -> SectionOutcome {
    let a = named_section(content, "script"@);
    if !(a is MissingOpen) {
        a
    } else {
        let b = section(content, "<code lang=\"rust\">"@, close_tag("code"@));
        if !(b is MissingOpen) {
            b
        } else {
            named_section(content, "code"@)
        }
    }
}

/// The error message for a section that could not be extracted.
pub open spec fn section_error(outcome: SectionOutcome, name: Seq<char>) -> Seq<char> {
    if outcome is Unclosed {
        "Unclosed <"@ + name + " tag"@
    } else {
        seq!['<'] + name + "> tag not found"@
    }
}

/// The first error met while extracting the three sections, if any.
pub open spec fn parse_error(content: Seq<char>) -> Option<Seq<char>> {
    let t = named_section(content, "template"@);
    let s = named_section(content, "style"@);
    let c = script_section(content);
    if !(t is Found) {
        Some(section_error(t, "template"@))
    } else if !(s is Found) {
        Some(section_error(s, "style"@))
    } else if !(c is Found) {
        Some(section_error(c, "script"@))
    } else {
        None
    }
}

/// The text of a found section.
pub open spec fn found_text(o: SectionOutcome) -> Seq<char> {
    match o {
        SectionOutcome::Found(t) => t,
        _ => Seq::empty(),
    }
}

/// Attributes of the style section: `scoped` is `"false"` when the style
/// holds `scoped="false"` or `scoped='false'`, and `"true"` otherwise.
pub open spec fn style_attributes(style: Seq<char>) -> AttrsView {
    if contains(style, "scoped=\"false\""@) || contains(style, "scoped='false'"@) {
        seq![("scoped"@, "false"@)]
    } else {
        seq![("scoped"@, "true"@)]
    }
}

/// The parsed file for content whose sections are all present.
pub open spec fn parsed_file(content: Seq<char>) -> OrbitFileView {
    let style = found_text(named_section(content, "style"@));
    OrbitFileView {
        template: found_text(named_section(content, "template"@)),
        template_attrs: Seq::empty(),
        style,
        style_attrs: style_attributes(style),
        script: found_text(script_section(content)),
        file_path: None,
    }
}

/// What extracting a section gave, in executable form.
enum Extracted {
    Found(Vec<char>, usize, usize),
    MissingOpen,
    Unclosed,
}

/// The text between the first `open` and the next `close`, trimmed, with
/// the position of the opening tag and the end of the closing tag.
fn extract_between(content: &[char], open: &[char], close: &[char]) -> (r: Extracted)
    ensures
        match (r, section(content@, open@, close@)) {
            (Extracted::Found(t, _, _), SectionOutcome::Found(u)) => t@ == u,
            (Extracted::MissingOpen, SectionOutcome::MissingOpen) => true,
            (Extracted::Unclosed, SectionOutcome::Unclosed) => true,
            _ => false,
        },
{
    proof {
        lemma_find_correct(content@, open@);
    }
    match find_in(content, open) {
        None => Extracted::MissingOpen,
        Some(s) => {
            assert(find(content@, open@) == Some(s as nat));
            assert(s + open.len() <= content.len());
            let cs = s + open.len();
            proof {
                lemma_find_correct(content@.skip(cs as int), close@);
            }
            match find_from(content, close, cs) {
                None => Extracted::Unclosed,
                Some(e) => {
                    assert(find(content@.skip(cs as int), close@) == Some((e - cs) as nat));
                    assert(e + close.len() <= content.len());
                    let (a, b) = trim_bounds(content, cs, e);
                    let t = slice_vec(content, a, b);
                    Extracted::Found(t, s, e + close.len())
                },
            }
        },
    }
}

/// The section enclosed in `<name>` and `</name>`.
fn extract_section(content: &[char], section_name: &str) -> (r: Result<Section, Error>)
    ensures
        match named_section(content@, section_name@) {
            SectionOutcome::Found(t) => r matches Ok(sec) && sec.content@ == t,
            o => r matches Err(Error::Parser(m)) && m@ == section_error(o, section_name@),
        },
{
    let name = chars_of(section_name);
    let mut open: Vec<char> = vec!['<'];
    let mut close: Vec<char> = vec!['<', '/'];
    let mut i: usize = 0;
    while i < name.len()
        invariant
            i <= name.len(),
            open@ == seq!['<'] + name@.take(i as int),
            close@ == seq!['<', '/'] + name@.take(i as int),
        decreases name.len() - i,
    {
        open.push(name[i]);
        close.push(name[i]);
        i = i + 1;
        assert(open@ =~= seq!['<'] + name@.take(i as int));
        assert(close@ =~= seq!['<', '/'] + name@.take(i as int));
    }
    open.push('>');
    close.push('>');
    assert(name@.take(name.len() as int) =~= name@);
    assert(open@ =~= open_tag(section_name@));
    assert(close@ =~= close_tag(section_name@));
    section_from(content, &open, &close, section_name)
}

/// The section between `open` and `close`; errors are reported under `name`.
fn section_from(content: &[char], open: &[char], close: &[char], name: &str) -> (r: Result<
    Section,
    Error,
>)
    ensures
        match section(content@, open@, close@) {
            SectionOutcome::Found(t) => r matches Ok(sec) && sec.content@ == t,
            o => r matches Err(Error::Parser(m)) && m@ == section_error(o, name@),
        },
{
    match extract_between(content, open, close) {
        Extracted::Found(t, s, e) => Ok(Section { content: string_from(&t), start_pos: s, end_pos: e }),
        Extracted::MissingOpen => {
            let mut m = String::new();
            push_char(&mut m, '<');
            push_str(&mut m, name);
            push_str(&mut m, "> tag not found");
            assert(m@ =~= seq!['<'] + name@ + "> tag not found"@);
            Err(Error::Parser(m))
        },
        Extracted::Unclosed => {
            let mut m = String::new();
            push_str(&mut m, "Unclosed <");
            push_str(&mut m, name);
            push_str(&mut m, " tag");
            Err(Error::Parser(m))
        },
    }
}

/// Extract the template section.
fn extract_template(content: &[char]) -> (r: Result<Section, Error>)
    ensures
        match named_section(content@, "template"@) {
            SectionOutcome::Found(t) => r matches Ok(sec) && sec.content@ == t,
            o => r matches Err(Error::Parser(m)) && m@ == section_error(o, "template"@),
        },
{
    extract_section(content, "template")
}

/// Extract the style section.
fn extract_style(content: &[char]) -> (r: Result<Section, Error>)
    ensures
        match named_section(content@, "style"@) {
            SectionOutcome::Found(t) => r matches Ok(sec) && sec.content@ == t,
            o => r matches Err(Error::Parser(m)) && m@ == section_error(o, "style"@),
        },
{
    extract_section(content, "style")
}

/// Extract the script section, enclosed in `<script>`, `<code lang="rust">` or `<code>`.
fn extract_script(content: &[char]) -> (r: Result<Section, Error>)
    ensures
        match script_section(content@) {
            SectionOutcome::Found(t) => r matches Ok(sec) && sec.content@ == t,
            o => r matches Err(Error::Parser(m)) && m@ == section_error(o, "script"@),
        },
{
    let script_open = chars_of("<script>");
    let script_close = chars_of("</script>");
    proof {
        reveal_strlit("<script>");
        reveal_strlit("</script>");
        reveal_strlit("script");
        assert(script_open@ =~= open_tag("script"@));
        assert(script_close@ =~= close_tag("script"@));
    }
    match extract_between(content, &script_open, &script_close) {
        Extracted::MissingOpen => {},
        _ => {
            return section_from(content, &script_open, &script_close, "script");
        },
    }
    let code_rust = chars_of("<code lang=\"rust\">");
    let code_open = chars_of("<code>");
    let code_close = chars_of("</code>");
    proof {
        reveal_strlit("</code>");
        reveal_strlit("code");
        assert(code_close@ =~= close_tag("code"@));
        reveal_strlit("<code>");
        assert(code_open@ =~= open_tag("code"@));
    }
    match extract_between(content, &code_rust, &code_close) {
        Extracted::MissingOpen => {},
        _ => {
            return section_from(content, &code_rust, &code_close, "script");
        },
    }
    section_from(content, &code_open, &code_close, "script")
}

/// Attributes of the template tag (none are recognized).
fn parse_template_attributes(_template: &[char]) -> (r: Vec<(String, String)>)
    ensures
        r@.len() == 0,
{
    Vec::new()
}

/// Attributes of the style tag: whether scoping is disabled.
fn parse_style_attributes(style: &[char]) -> (r: Vec<(String, String)>)
    ensures
        attrs_view(r@) == style_attributes(style@),
{
    let p1 = chars_of("scoped=\"false\"");
    let p2 = chars_of("scoped='false'");
    let disabled = find_in(style, &p1).is_some() || find_in(style, &p2).is_some();
    let mut attrs: Vec<(String, String)> = Vec::new();
    let key = string_from(&chars_of("scoped"));
    if disabled {
        attrs.push((key, string_from(&chars_of("false"))));
    } else {
        attrs.push((key, string_from(&chars_of("true"))));
    }
    assert(attrs_view(attrs@) =~= style_attributes(style@));
    attrs
}

// ---------------------------------------------------------------------
// Script analysis
// ---------------------------------------------------------------------

/// The lines starting with `use `.
pub open spec fn use_lines(ls: Seq<Seq<char>>) -> Seq<Seq<char>>
    decreases ls.len(),
{
    if ls.len() == 0 {
        Seq::empty()
    } else if starts_with(ls.last(), "use "@) {
        use_lines(ls.drop_last()).push(ls.last())
    } else {
        use_lines(ls.drop_last())
    }
}

/// The import lines of a script joined by newlines, or none when there are none.
pub open spec fn script_imports(script: Seq<char>) -> Option<Seq<char>> {
    let us = use_lines(lines(script));
    if us.len() == 0 {
        None
    } else {
        Some(join(us, seq!['\n']))
    }
}

/// `pub struct `.
pub open spec fn pub_struct() -> Seq<char> {
    seq!['p', 'u', 'b', ' ', 's', 't', 'r', 'u', 'c', 't', ' ']
}

/// `impl Component for `.
pub open spec fn impl_component() -> Seq<char> {
    seq!['i', 'm', 'p', 'l', ' ', 'C', 'o', 'm', 'p', 'o', 'n', 'e', 'n', 't', ' ', 'f', 'o', 'r', ' ']
}

/// The end of the component impl: a closing brace on its own line, a blank
/// line and the next `impl `.
pub open spec fn impl_end() -> Seq<char> {
    seq!['\n', '}', '\n', '\n', 'i', 'm', 'p', 'l', ' ']
}

/// The component name (the trimmed text between `pub struct ` and ` {`) and
/// the struct definition (from `pub struct ` through the closing brace of the
/// `impl Component for` block that follows it).
pub open spec fn name_and_struct(script: Seq<char>) -> Option<(Seq<char>, Seq<char>)> {
    match find(script, pub_struct()) {
        None => None,
        Some(p) => {
            let st = p + 11;
            match find(script.skip(st as int), seq![' ', '{']) {
                None => None,
                Some(ne) => {
                    let name = trim(script.subrange(st as int, (st + ne) as int));
                    match find(script.skip(p as int), impl_component()) {
                        None => None,
                        Some(ip) => {
                            let is = p + ip;
                            match find(script.skip(is as int), impl_end()) {
                                None => None,
                                Some(e) => Some((name, script.subrange(p as int, (is + e + 3) as int))),
                            }
                        },
                    }
                },
            }
        },
    }
}

/// The methods of the script: from `impl Component for ` to the last `}` that
/// ends a line (or to the end of the script).
pub open spec fn component_methods(script: Seq<char>) -> Option<Seq<char>> {
    match find(script, impl_component()) {
        None => None,
        Some(pos) => match find(script.skip(pos as int), seq!['i', 'm', 'p', 'l', ' ']) {
            None => None,
            Some(ip) => {
                let mp = pos + ip;
                match rfind(script.skip(mp as int), seq!['}', '\n']) {
                    Some(ep) => Some(script.subrange(mp as int, (mp + ep + 2) as int)),
                    None => if mp < script.len() {
                        Some(script.skip(mp as int))
                    } else {
                        None
                    },
                }
            },
        },
    }
}

/// Template expressions `{{ e }}` rewritten to Rust format arguments `{e}`;
/// an unclosed `{{` is kept.
#[verifier::opaque]
pub open spec fn process_expressions(t: Seq<char>) -> Seq<char>
    decreases t.len(),
{
    match find(t, seq!['{', '{']) {
        None => t,
        Some(o) => {
            proof {
                lemma_find_correct(t, seq!['{', '{']);
            }
            t.take(o as int) + match find(t.skip(o as int), seq!['}', '}']) {
                Some(c) => {
                    proof {
                        lemma_find_correct(t.skip(o as int), seq!['}', '}']);
                    }
                    seq!['{'] + trim(t.subrange((o + 2) as int, (o + c) as int)) + seq!['}']
                        + process_expressions(t.skip((o + c + 2) as int))
                },
                None => seq!['{', '{'] + process_expressions(t.skip((o + 2) as int)),
            }
        },
    }
}

/// Every `"` preceded by a backslash.
pub open spec fn escape_quotes(s: Seq<char>) -> Seq<char>
    decreases s.len(),
{
    if s.len() == 0 {
        Seq::empty()
    } else {
        escape_quotes(s.drop_last()) + if s.last() == '"' {
            seq!['\\', '"']
        } else {
            seq![s.last()]
        }
    }
}

/// The generated `render` method for a template and a component name.
pub open spec fn render_method(template: Seq<char>, name: Seq<char>) -> Seq<char> {
    "    fn render(&self) -> String {\n        // Auto-generated render method for "@ + name
        + "\n        format!(\""@ + escape_quotes(process_expressions(template))
        + "\",\n            // Component properties available in template:\n"@
        + "            // self.property_name"@ + "\n        )\n    }"@
}

/// The value of the first attribute named `key`.
pub open spec fn lookup(attrs: AttrsView, key: Seq<char>) -> Option<Seq<char>>
    decreases attrs.len(),
{
    if attrs.len() == 0 {
        None
    } else if attrs[0].0 == key {
        Some(attrs[0].1)
    } else {
        lookup(attrs.drop_first(), key)
    }
}

/// Styles are scoped unless the `scoped` attribute is `"false"`.
pub open spec fn styles_scoped(attrs: AttrsView) -> bool {
    match lookup(attrs, "scoped"@) {
        Some(v) => v != "false"@,
        None => true,
    }
}

/// The generated code of a component.
pub open spec fn compiled_code(f: OrbitFileView, name: Seq<char>, def: Seq<char>) -> Seq<char> {
    "use orbit::prelude::*;\n"@ + match script_imports(f.script) {
        Some(i) => i + "\n\n"@,
        None => Seq::empty(),
    } + def + "\n\n"@ + render_method(f.template, name) + "\n\n"@ + match component_methods(
        f.script,
    ) {
        Some(m) => m + "\n"@,
        None => Seq::empty(),
    }
}

/// The import lines of a script, joined by newlines.
fn extract_imports_from_script(script: &[char]) -> (r: Option<Vec<char>>)
    ensures
        match (r, script_imports(script@)) {
            (Some(v), Some(u)) => v@ == u,
            (None, None) => true,
            _ => false,
        },
{
    let ls = lines_of(script);
    let ghost gls = lines(script@);
    let prefix = chars_of("use ");
    let mut out: Vec<char> = Vec::new();
    let mut count: usize = 0;
    let mut i: usize = 0;
    assert(gls.take(0) =~= Seq::<Seq<char>>::empty());
    while i < ls.len()
        invariant
            views(ls@) == gls,
            prefix@ == "use "@,
            i <= ls.len(),
            count <= i,
            count == use_lines(gls.take(i as int)).len(),
            count > 0 ==> out@ == join(use_lines(gls.take(i as int)), seq!['\n']),
            count == 0 ==> out@.len() == 0,
        decreases ls.len() - i,
    {
        let line = &ls[i];
        assert(line@ == gls[i as int]);
        assert(gls.take(i + 1).drop_last() =~= gls.take(i as int));
        assert(line@.skip(0) =~= line@);
        if starts_with_at(line, &prefix, 0) {
            let ghost old_out = out@;
            if count > 0 {
                out.push('\n');
            }
            let ghost before = out@;
            let mut k: usize = 0;
            while k < line.len()
                invariant
                    k <= line.len(),
                    out@ == before + line@.take(k as int),
                decreases line.len() - k,
            {
                out.push(line[k]);
                k = k + 1;
                assert(out@ =~= before + line@.take(k as int));
            }
            assert(line@.take(line.len() as int) =~= line@);
            proof {
                let us = use_lines(gls.take(i + 1));
                assert(us == use_lines(gls.take(i as int)).push(line@));
                if count > 0 {
                    assert(us.drop_last() =~= use_lines(gls.take(i as int)));
                    assert(out@ =~= old_out + seq!['\n'] + line@);
                } else {
                    assert(us.len() == 1);
                    assert(out@ =~= line@);
                }
            }
            count = count + 1;
        }
        i = i + 1;
    }
    assert(gls.take(ls.len() as int) =~= gls);
    if count == 0 {
        None
    } else {
        Some(out)
    }
}

/// Copy `s[lo..hi]` as a vector, given that the bounds hold.
fn take_range(s: &[char], lo: usize, hi: usize) -> (r: Vec<char>)
    requires
        lo <= hi <= s.len(),
    ensures
        r@ == s@.subrange(lo as int, hi as int),
{
    slice_vec(s, lo, hi)
}

/// The component name and struct definition of a script.
fn extract_component_name_and_struct(script: &[char]) -> (r: Option<(Vec<char>, Vec<char>)>)
    ensures
        match (r, name_and_struct(script@)) {
            (Some((n, d)), Some((m, e))) => n@ == m && d@ == e,
            (None, None) => true,
            _ => false,
        },
{
    let ps = vec!['p', 'u', 'b', ' ', 's', 't', 'r', 'u', 'c', 't', ' '];
    let brace = vec![' ', '{'];
    let ic = vec!['i', 'm', 'p', 'l', ' ', 'C', 'o', 'm', 'p', 'o', 'n', 'e', 'n', 't', ' ', 'f', 'o', 'r', ' '];
    let ie = vec!['\n', '}', '\n', '\n', 'i', 'm', 'p', 'l', ' '];
    assert(ps@ =~= pub_struct());
    assert(brace@ =~= seq![' ', '{']);
    assert(ic@ =~= impl_component());
    assert(ie@ =~= impl_end());
    proof {
        lemma_find_correct(script@, pub_struct());
    }
    let p = match find_in(script, &ps) {
        None => return None,
        Some(p) => p,
    };
    assert(p + 11 <= script.len());
    let st = p + 11;
    proof {
        lemma_find_correct(script@.skip(st as int), seq![' ', '{']);
    }
    let ne = match find_from(script, &brace, st) {
        None => return None,
        Some(e) => e,
    };
    assert(find(script@.skip(st as int), seq![' ', '{']) == Some((ne - st) as nat));
    let (a, b) = trim_bounds(script, st, ne);
    let name = take_range(script, a, b);
    proof {
        lemma_find_correct(script@.skip(p as int), impl_component());
    }
    let is = match find_from(script, &ic, p) {
        None => return None,
        Some(i) => i,
    };
    assert(find(script@.skip(p as int), impl_component()) == Some((is - p) as nat));
    proof {
        lemma_find_correct(script@.skip(is as int), impl_end());
    }
    let e = match find_from(script, &ie, is) {
        None => return None,
        Some(e) => e,
    };
    assert(find(script@.skip(is as int), impl_end()) == Some((e - is) as nat));
    assert(e + 9 <= script.len());
    let def = take_range(script, p, e + 3);
    Some((name, def))
}

/// The component methods of a script.
fn extract_component_methods(script: &[char]) -> (r: Option<Vec<char>>)
    ensures
        match (r, component_methods(script@)) {
            (Some(v), Some(u)) => v@ == u,
            (None, None) => true,
            _ => false,
        },
{
    let ic = vec!['i', 'm', 'p', 'l', ' ', 'C', 'o', 'm', 'p', 'o', 'n', 'e', 'n', 't', ' ', 'f', 'o', 'r', ' '];
    let im = vec!['i', 'm', 'p', 'l', ' '];
    let close = vec!['}', '\n'];
    assert(ic@ =~= impl_component());
    assert(im@ =~= seq!['i', 'm', 'p', 'l', ' ']);
    assert(close@ =~= seq!['}', '\n']);
    proof {
        lemma_find_correct(script@, impl_component());
    }
    let pos = match find_in(script, &ic) {
        None => return None,
        Some(p) => p,
    };
    proof {
        lemma_find_correct(script@.skip(pos as int), seq!['i', 'm', 'p', 'l', ' ']);
    }
    let mp = match find_from(script, &im, pos) {
        None => return None,
        Some(m) => m,
    };
    assert(find(script@.skip(pos as int), seq!['i', 'm', 'p', 'l', ' ']) == Some((mp - pos) as nat));
    let rest = slice_vec(script, mp, script.len());
    assert(rest@ =~= script@.skip(mp as int));
    proof {
        lemma_rfind_correct(rest@, seq!['}', '\n']);
    }
    match rfind_in(&rest, &close) {
        Some(ep) => Some(take_range(script, mp, mp + ep + 2)),
        None => {
            if mp < script.len() {
                Some(rest)
            } else {
                None
            }
        },
    }
}

/// A found last occurrence lies within the text.
pub proof fn lemma_rfind_correct(s: Seq<char>, p: Seq<char>)
    ensures
        rfind(s, p) matches Some(k) ==> k + p.len() <= s.len(),
    decreases s.len(),
{
    if !(p.len() <= s.len() && s.skip(s.len() - p.len()) == p) && s.len() > 0 {
        lemma_rfind_correct(s.drop_last(), p);
    }
}

/// Appends `t[lo..hi]` to `out`.
fn append_range(out: &mut Vec<char>, t: &[char], lo: usize, hi: usize)
    requires
        lo <= hi <= t.len(),
    ensures
        final(out)@ == old(out)@ + t@.subrange(lo as int, hi as int),
{
    let ghost before = out@;
    let mut k: usize = lo;
    while k < hi
        invariant
            lo <= k <= hi <= t.len(),
            out@ == before + t@.subrange(lo as int, k as int),
        decreases hi - k,
    {
        out.push(t[k]);
        k = k + 1;
        assert(out@ =~= before + t@.subrange(lo as int, k as int));
    }
}

/// Unfolding the expression rewriting at a closed `{{ ... }}`.
proof fn lemma_process_closed(t: Seq<char>, cur: int, oa: int, ca: int)
    requires
        0 <= cur <= oa,
        oa + 2 <= ca,
        ca + 2 <= t.len(),
        find(t.skip(cur), seq!['{', '{']) == Some((oa - cur) as nat),
        find(t.skip(oa), seq!['}', '}']) == Some((ca - oa) as nat),
    ensures
        process_expressions(t.skip(cur)) == t.subrange(cur, oa) + seq!['{'] + trim(
            t.subrange(oa + 2, ca),
        ) + seq!['}'] + process_expressions(t.skip(ca + 2)),
{
    reveal(process_expressions);
    let rest = t.skip(cur);
    let o = oa - cur;
    let c = ca - oa;
    assert(rest.skip(o) =~= t.skip(oa));
    assert(rest.take(o) =~= t.subrange(cur, oa));
    assert(rest.subrange(o + 2, o + c) =~= t.subrange(oa + 2, ca));
    assert(rest.skip(o + c + 2) =~= t.skip(ca + 2));
}

/// Unfolding the expression rewriting at an unclosed `{{`.
proof fn lemma_process_unclosed(t: Seq<char>, cur: int, oa: int)
    requires
        0 <= cur <= oa,
        oa + 2 <= t.len(),
        find(t.skip(cur), seq!['{', '{']) == Some((oa - cur) as nat),
        find(t.skip(oa), seq!['}', '}']) is None,
    ensures
        process_expressions(t.skip(cur)) == t.subrange(cur, oa) + seq!['{', '{']
            + process_expressions(t.skip(oa + 2)),
{
    reveal(process_expressions);
    let rest = t.skip(cur);
    let o = oa - cur;
    assert(rest.skip(o) =~= t.skip(oa));
    assert(rest.take(o) =~= t.subrange(cur, oa));
    assert(rest.skip(o + 2) =~= t.skip(oa + 2));
}

/// Without `{{` the text is kept as it is.
proof fn lemma_process_plain(t: Seq<char>)
    requires
        find(t, seq!['{', '{']) is None,
    ensures
        process_expressions(t) == t,
{
    reveal(process_expressions);
}

/// Rewrite template expressions `{{ e }}` as Rust format arguments `{e}`.
fn process_template_expressions(t: &[char]) -> (r: Vec<char>)
    ensures
        r@ == process_expressions(t@),
{
    let open = vec!['{', '{'];
    let close = vec!['}', '}'];
    assert(open@ =~= seq!['{', '{']);
    assert(close@ =~= seq!['}', '}']);
    let mut out: Vec<char> = Vec::new();
    let mut cur: usize = 0;
    assert(t@.skip(0) =~= t@);
    loop
        invariant
            cur <= t.len(),
            open@ == seq!['{', '{'],
            close@ == seq!['}', '}'],
            process_expressions(t@) == out@ + process_expressions(t@.skip(cur as int)),
        decreases t.len() - cur,
    {
        let ghost rest = t@.skip(cur as int);
        proof {
            lemma_find_correct(rest, seq!['{', '{']);
        }
        match find_from(t, &open, cur) {
            None => {
                append_range(&mut out, t, cur, t.len());
                assert(t@.subrange(cur as int, t.len() as int) =~= rest);
                proof {
                    lemma_process_plain(rest);
                }
                return out;
            },
            Some(oa) => {
                assert(find(rest, seq!['{', '{']) == Some((oa - cur) as nat));
                assert(t@[oa as int] == '{' && t@[oa + 1] == '{') by {
                    let o = oa - cur;
                    assert(rest.subrange(o, o + 2) == seq!['{', '{']);
                    assert(rest.subrange(o, o + 2)[0] == t@[oa as int]);
                    assert(rest.subrange(o, o + 2)[1] == t@[oa + 1]);
                }
                let ghost before = out@;
                append_range(&mut out, t, cur, oa);
                proof {
                    lemma_find_correct(t@.skip(oa as int), seq!['}', '}']);
                }
                match find_from(t, &close, oa) {
                    Some(ca) => {
                        let ghost sk = t@.skip(oa as int);
                        assert(find(sk, seq!['}', '}']) == Some((ca - oa) as nat));
                        assert(ca >= oa + 2) by {
                            let c = ca - oa;
                            assert(sk.subrange(c, c + 2) == seq!['}', '}']);
                            assert(sk.subrange(c, c + 2)[0] == t@[ca as int]);
                            assert(sk.subrange(c, c + 2)[1] == t@[ca + 1]);
                        }
                        let (a, b) = trim_bounds(t, oa + 2, ca);
                        out.push('{');
                        append_range(&mut out, t, a, b);
                        out.push('}');
                        proof {
                            lemma_process_closed(t@, cur as int, oa as int, ca as int);
                        }
                        assert(out@ =~= before + t@.subrange(cur as int, oa as int) + seq!['{']
                            + trim(t@.subrange(oa + 2, ca as int)) + seq!['}']);
                        cur = ca + 2;
                    },
                    None => {
                        out.push('{');
                        out.push('{');
                        proof {
                            lemma_process_unclosed(t@, cur as int, oa as int);
                        }
                        assert(out@ =~= before + t@.subrange(cur as int, oa as int) + seq![
                            '{',
                            '{',
                        ]);
                        cur = oa + 2;
                    },
                }
            },
        }
    }
}

/// Escape double quotes with a backslash.
fn escape_quotes_vec(s: &[char]) -> (r: Vec<char>)
    ensures
        r@ == escape_quotes(s@),
{
    let mut out: Vec<char> = Vec::new();
    let mut i: usize = 0;
    assert(s@.take(0) =~= Seq::<char>::empty());
    while i < s.len()
        invariant
            i <= s.len(),
            out@ == escape_quotes(s@.take(i as int)),
        decreases s.len() - i,
    {
        let c = s[i];
        assert(s@.take(i + 1).drop_last() =~= s@.take(i as int));
        if c == '"' {
            out.push('\\');
            out.push('"');
        } else {
            out.push(c);
        }
        i = i + 1;
        assert(out@ =~= escape_quotes(s@.take(i as int)));
    }
    assert(s@.take(s.len() as int) =~= s@);
    out
}

/// The `render` method generated from a template.
fn generate_render_method_from_template(template: &[char], component_name: &[char]) -> (r: String)
    ensures
        r@ == render_method(template@, component_name@),
{
    let processed = process_template_expressions(template);
    let escaped = escape_quotes_vec(&processed);
    let mut code = String::new();
    push_str(&mut code, "    fn render(&self) -> String {\n        // Auto-generated render method for ");
    push_chars(&mut code, component_name);
    push_str(&mut code, "\n        format!(\"");
    push_chars(&mut code, &escaped);
    push_str(&mut code, "\",\n            // Component properties available in template:\n");
    push_str(&mut code, "            // self.property_name");
    push_str(&mut code, "\n        )\n    }");
    code
}

/// The value of the first attribute named `key`.
fn lookup_attr(attrs: &Vec<(String, String)>, key: &[char]) -> (r: Option<Vec<char>>)
    ensures
        match (r, lookup(attrs_view(attrs@), key@)) {
            (Some(v), Some(u)) => v@ == u,
            (None, None) => true,
            _ => false,
        },
{
    let ghost av = attrs_view(attrs@);
    let mut i: usize = 0;
    assert(av.skip(0) =~= av);
    while i < attrs.len()
        invariant
            i <= attrs.len(),
            av == attrs_view(attrs@),
            lookup(av, key@) == lookup(av.skip(i as int), key@),
        decreases attrs.len() - i,
    {
        let name = chars_of(attrs[i].0.as_str());
        assert(av.skip(i as int)[0] == av[i as int]);
        if eq_chars(&name, key) {
            return Some(chars_of(attrs[i].1.as_str()));
        }
        assert(av.skip(i as int).drop_first() =~= av.skip(i + 1));
        i = i + 1;
    }
    None
}

impl OrbitParser {
    /// Parse an `.orbit` file into its template, style and script sections.
    pub fn parse(content: &str) -> (r: Result<OrbitFile, Error>)
        ensures
            match parse_error(content@) {
                None => r matches Ok(f) && f@ == parsed_file(content@),
                Some(m) => r matches Err(Error::Parser(e)) && e@ == m,
            },
    {
        let chars = chars_of(content);
        let template = match extract_template(&chars) {
            Ok(t) => t,
            Err(e) => return Err(e),
        };
        let style = match extract_style(&chars) {
            Ok(s) => s,
            Err(e) => return Err(e),
        };
        let script = match extract_script(&chars) {
            Ok(s) => s,
            Err(e) => return Err(e),
        };
        let template_attrs = parse_template_attributes(&chars_of(template.content.as_str()));
        let style_attrs = parse_style_attributes(&chars_of(style.content.as_str()));
        let f = OrbitFile {
            template: template.content,
            template_attrs,
            style: style.content,
            style_attrs,
            script: script.content,
            file_path: None,
        };
        assert(attrs_view(f.template_attrs@) =~= Seq::empty());
        Ok(f)
    }

    /// Parse an `.orbit` file whose path is known.
    pub fn parse_file(content: &str, file_path: &str) -> (r: Result<OrbitFile, Error>)
        ensures
            match parse_error(content@) {
                None => r matches Ok(f) && f@ == (OrbitFileView {
                    file_path: Some(file_path@),
                    ..parsed_file(content@)
                }),
                Some(m) => r matches Err(Error::Parser(e)) && e@ == m,
            },
    {
        let mut f = match Self::parse(content) {
            Ok(f) => f,
            Err(e) => return Err(e),
        };
        f.file_path = Some(string_from(&chars_of(file_path)));
        Ok(f)
    }

    /// Compile a parsed `.orbit` file to Rust code: the standard prelude
    /// import, the script's imports, the component struct, a generated
    /// `render` method and the component's methods.
    pub fn compile(file: &OrbitFile) -> (r: Result<CompiledComponent, Error>)
        ensures
            match name_and_struct(file@.script) {
                None => r matches Err(Error::Parser(e)) && e@ == "Could not extract component struct"@,
                Some((name, def)) => r matches Ok(c) && c@ == (CompiledView {
                    code: compiled_code(file@, name, def),
                    name,
                    file_path: file@.file_path,
                    styles: file@.style,
                    scoped_styles: styles_scoped(file@.style_attrs),
                }),
            },
    {
        let script = chars_of(file.script.as_str());
        let (name, def) = match extract_component_name_and_struct(&script) {
            Some(p) => p,
            None => {
                return Err(Error::Parser(string_from(&chars_of("Could not extract component struct"))));
            },
        };
        let mut code = String::new();
        push_str(&mut code, "use orbit::prelude::*;\n");
        let ghost c0 = code@;
        match extract_imports_from_script(&script) {
            Some(imports) => {
                push_chars(&mut code, &imports);
                push_str(&mut code, "\n\n");
            },
            None => {},
        }
        push_chars(&mut code, &def);
        push_str(&mut code, "\n\n");
        let template = chars_of(file.template.as_str());
        let render = generate_render_method_from_template(&template, &name);
        push_str(&mut code, render.as_str());
        push_str(&mut code, "\n\n");
        match extract_component_methods(&script) {
            Some(methods) => {
                push_chars(&mut code, &methods);
                push_str(&mut code, "\n");
            },
            None => {},
        }
        assert(code@ =~= compiled_code(file@, name@, def@));
        let key = chars_of("scoped");
        let scoped_styles = match lookup_attr(&file.style_attrs, &key) {
            Some(v) => !eq_chars(&v, &chars_of("false")),
            None => true,
        };
        let file_path = match &file.file_path {
            Some(p) => Some(p.clone()),
            None => None,
        };
        Ok(CompiledComponent {
            code,
            name: string_from(&name),
            file_path,
            styles: file.style.clone(),
            scoped_styles,
        })
    }
}

/// The text with the backslash before each quote removed, reading from
/// the end: a backslash directly before a quote is dropped.
pub open spec fn unescape_quotes(t: Seq<char>) -> Seq<char>
    decreases t.len(),
{
    if t.len() == 0 {
        Seq::empty()
    } else if t.len() >= 2 && t.last() == '"' && t[t.len() - 2] == '\\' {
        unescape_quotes(t.take(t.len() - 2)).push('"')
    } else {
        unescape_quotes(t.drop_last()).push(t.last())
    }
}

/// Law: in the escaped text every quote has a backslash directly before
/// it, and removing the backslash before each quote gives back the text;
/// so the escaped text can stand inside a Rust string literal.
pub proof fn law_escaped_quotes(s: Seq<char>)
    ensures
        forall|i: int|
            0 <= i < escape_quotes(s).len() && #[trigger] escape_quotes(s)[i] == '"' ==> i >= 1 && escape_quotes(
                s,
            )[i - 1] == '\\',
        unescape_quotes(escape_quotes(s)) == s,
    decreases s.len(),
{
    if s.len() > 0 {
        law_escaped_quotes(s.drop_last());
        let e0 = escape_quotes(s.drop_last());
        let e = escape_quotes(s);
        if s.last() == '"' {
            assert(e == e0 + seq!['\\', '"']);
            assert(e.take(e.len() - 2) =~= e0);
            assert forall|i: int| 0 <= i < e.len() && #[trigger] e[i] == '"' implies i >= 1 && e[i - 1] == '\\' by {
                if i < e0.len() {
                    assert(e0[i] == '"');
                }
            }
        } else {
            assert(e == e0.push(s.last()));
            assert(e.drop_last() =~= e0);
            assert forall|i: int| 0 <= i < e.len() && #[trigger] e[i] == '"' implies i >= 1 && e[i - 1] == '\\' by {
                if i < e0.len() {
                    assert(e0[i] == '"');
                }
            }
        }
        assert(s.drop_last().push(s.last()) =~= s);
    }
}

/// Law: the generated `render` method holds the processed template as the
/// format string, escaped so that every quote in it has a backslash before
/// it and unescaping it gives the processed template back.
pub proof fn law_render_format_string(template: Seq<char>, name: Seq<char>)
    ensures
        ({
            let head = "    fn render(&self) -> String {\n        // Auto-generated render method for "@ + name
                + "\n        format!(\""@;
            let f = render_method(template, name).subrange(
                head.len() as int,
                (head.len() + escape_quotes(process_expressions(template)).len()) as int,
            );
            &&& render_method(template, name).len() >= head.len() + f.len()
            &&& render_method(template, name).take(head.len() as int) == head
            &&& unescape_quotes(f) == process_expressions(template)
            &&& forall|i: int| 0 <= i < f.len() && #[trigger] f[i] == '"' ==> i >= 1 && f[i - 1] == '\\'
        }),
{
    let t = process_expressions(template);
    law_escaped_quotes(t);
    let head = "    fn render(&self) -> String {\n        // Auto-generated render method for "@ + name
        + "\n        format!(\""@;
    let e = escape_quotes(t);
    let rm = render_method(template, name);
    assert(rm.subrange(head.len() as int, (head.len() + e.len()) as int) =~= e);
    assert(rm.take(head.len() as int) =~= head);
}

} // verus!
