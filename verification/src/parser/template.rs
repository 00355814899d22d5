//! The template parser: builds the element tree of a template from its
//! tokens.
use vstd::prelude::*;
use crate::parser::ast::{
    attr_view, attrs_view, events_view, lemma_nodes_view, node_view, nodes_view, AttrView,
    AttributeValue, NodeView, TemplateNode,
};
use crate::parser::tokenizer::{lemma_token_progress, token_at, token_debug, Token, TokenView, Tokenizer};
use crate::text::{chars_of, key_index, lemma_key_index_at, push_char, push_str, set_pair, string_from};

verus! {

/// `x` without its leading `@` characters.
pub open spec fn drop_ats(x: Seq<char>) -> Seq<char>
    decreases x.len(),
{
    if x.len() > 0 && x[0] == '@' {
        drop_ats(x.drop_first())
    } else {
        x
    }
}

/// The expression text built from the tokens at `p` up to `}}`, with
/// `acc` built so far and whether the last token was an operator or an
/// operand: identifiers and numbers are separated by a space, operators
/// are surrounded by spaces, string literals are quoted, commas are
/// followed by a space. Also where reading stops.
pub open spec fn expr_scan(s: Seq<char>, p: int, acc: Seq<char>, prev_op: bool, prev_id: bool) -> (Result<Seq<char>, Seq<char>>, int)
    decreases s.len() - p,
{
    if p < 0 || p > s.len() {
        (Err(Seq::empty()), p)
    } else {
        proof {
            lemma_token_progress(s, p);
        }
        let (t, q) = token_at(s, p);
        let sep = if !prev_op && acc.len() > 0 { acc.push(' ') } else { acc };
        match t {
            TokenView::ExprEnd => (Ok(acc), q),
            TokenView::Identifier(x) => expr_scan(s, q, (if prev_id { acc.push(' ') } else { acc }) + x, false, true),
            TokenView::Number(x) => expr_scan(s, q, (if prev_id { acc.push(' ') } else { acc }) + x, false, true),
            TokenView::Dot => expr_scan(s, q, acc.push('.'), false, false),
            TokenView::StringLiteral(x) => expr_scan(s, q, acc + seq!['"'] + x + seq!['"'], false, true),
            TokenView::Plus => expr_scan(s, q, sep + "+ "@, true, false),
            TokenView::Minus => expr_scan(s, q, sep + "- "@, true, false),
            TokenView::Star => expr_scan(s, q, sep + "* "@, true, false),
            TokenView::Slash => expr_scan(s, q, sep + "/ "@, true, false),
            TokenView::OpenParen => expr_scan(s, q, acc.push('('), false, false),
            TokenView::CloseParen => expr_scan(s, q, acc.push(')'), false, true),
            TokenView::Comma => expr_scan(s, q, acc + ", "@, false, false),
            TokenView::Eof => (Err("Unclosed expression"@), q),
            other => (Err("Unexpected token in expression: "@ + token_debug(other)), q),
        }
    }
}

/// Reading an expression stops within the input, not before its start.
pub proof fn lemma_expr_scan(s: Seq<char>, p: int, acc: Seq<char>, prev_op: bool, prev_id: bool)
    requires
        0 <= p <= s.len(),
    ensures
        p <= expr_scan(s, p, acc, prev_op, prev_id).1 <= s.len(),
    decreases s.len() - p,
{
    lemma_token_progress(s, p);
    let (t, q) = token_at(s, p);
    let sep = if !prev_op && acc.len() > 0 { acc.push(' ') } else { acc };
    match t {
        TokenView::Identifier(x) => lemma_expr_scan(s, q, (if prev_id { acc.push(' ') } else { acc }) + x, false, true),
        TokenView::Number(x) => lemma_expr_scan(s, q, (if prev_id { acc.push(' ') } else { acc }) + x, false, true),
        TokenView::Dot => lemma_expr_scan(s, q, acc.push('.'), false, false),
        TokenView::StringLiteral(x) => lemma_expr_scan(s, q, acc + seq!['"'] + x + seq!['"'], false, true),
        TokenView::Plus => lemma_expr_scan(s, q, sep + "+ "@, true, false),
        TokenView::Minus => lemma_expr_scan(s, q, sep + "- "@, true, false),
        TokenView::Star => lemma_expr_scan(s, q, sep + "* "@, true, false),
        TokenView::Slash => lemma_expr_scan(s, q, sep + "/ "@, true, false),
        TokenView::OpenParen => lemma_expr_scan(s, q, acc.push('('), false, false),
        TokenView::CloseParen => lemma_expr_scan(s, q, acc.push(')'), false, true),
        TokenView::Comma => lemma_expr_scan(s, q, acc + ", "@, false, false),
        _ => {},
    }
}


/// Law: a dot joins what comes before it to the identifier after it with
/// no space: reading a `.` token and then an identifier `x` continues as
/// if the text read so far had been followed by `.` and `x`, whatever came
/// before the dot.
pub proof fn law_dot_then_identifier(
    s: Seq<char>,
    p: int,
    acc: Seq<char>,
    prev_op: bool,
    prev_id: bool,
    x: Seq<char>,
)
    requires
        0 <= p <= s.len(),
        token_at(s, p).0 == TokenView::Dot,
        token_at(s, token_at(s, p).1).0 == TokenView::Identifier(x),
    ensures
        expr_scan(s, p, acc, prev_op, prev_id) == expr_scan(
            s,
            token_at(s, token_at(s, p).1).1,
            acc + seq!['.'] + x,
            false,
            true,
        ),
{
    lemma_token_progress(s, p);
    let q = token_at(s, p).1;
    lemma_token_progress(s, q);
    assert(acc.push('.') + x =~= acc + seq!['.'] + x);
    assert(expr_scan(s, p, acc, prev_op, prev_id) == expr_scan(s, q, acc.push('.'), false, false));
    assert(expr_scan(s, q, acc.push('.'), false, false) == expr_scan(
        s,
        token_at(s, q).1,
        acc.push('.') + x,
        false,
        true,
    ));
}

/// Law: a member access `{{ a.b }}` (an identifier, a dot, an identifier,
/// then `}}`) reads as the text `a.b`.
pub proof fn law_member_access(s: Seq<char>, p: int, a: Seq<char>, b: Seq<char>)
    requires
        0 <= p <= s.len(),
        token_at(s, p).0 == TokenView::Identifier(a),
        token_at(s, token_at(s, p).1).0 == TokenView::Dot,
        token_at(s, token_at(s, token_at(s, p).1).1).0 == TokenView::Identifier(b),
        token_at(s, token_at(s, token_at(s, token_at(s, p).1).1).1).0 == TokenView::ExprEnd,
    ensures
        expr_scan(s, p, Seq::empty(), false, false).0 == Ok::<Seq<char>, Seq<char>>(a + seq!['.'] + b),
{
    lemma_token_progress(s, p);
    let q1 = token_at(s, p).1;
    lemma_token_progress(s, q1);
    let q2 = token_at(s, q1).1;
    lemma_token_progress(s, q2);
    let q3 = token_at(s, q2).1;
    lemma_token_progress(s, q3);
    assert(Seq::<char>::empty() + a =~= a);
    law_dot_then_identifier(s, q1, a, false, true, b);
    assert((a + seq!['.'] + b) == expr_scan(s, q3, a + seq!['.'] + b, false, true).0->Ok_0);
}

/// Law: a sum `{{ a + b }}` (an identifier, `+`, an identifier, then
/// `}}`) reads as the text `a + b`: one space on each side of the
/// operator, none elsewhere.
pub proof fn law_sum(s: Seq<char>, p: int, a: Seq<char>, b: Seq<char>)
    requires
        0 <= p <= s.len(),
        a.len() > 0,
        token_at(s, p).0 == TokenView::Identifier(a),
        token_at(s, token_at(s, p).1).0 == TokenView::Plus,
        token_at(s, token_at(s, token_at(s, p).1).1).0 == TokenView::Identifier(b),
        token_at(s, token_at(s, token_at(s, token_at(s, p).1).1).1).0 == TokenView::ExprEnd,
    ensures
        expr_scan(s, p, Seq::empty(), false, false).0 == Ok::<Seq<char>, Seq<char>>(a + " + "@ + b),
{
    lemma_token_progress(s, p);
    let q1 = token_at(s, p).1;
    lemma_token_progress(s, q1);
    let q2 = token_at(s, q1).1;
    lemma_token_progress(s, q2);
    let q3 = token_at(s, q2).1;
    lemma_token_progress(s, q3);
    assert(Seq::<char>::empty() + a =~= a);
    assert(expr_scan(s, p, Seq::empty(), false, false) == expr_scan(s, q1, a, false, true));
    assert(expr_scan(s, q1, a, false, true) == expr_scan(s, q2, a.push(' ') + "+ "@, true, false));
    assert(expr_scan(s, q2, a.push(' ') + "+ "@, true, false) == expr_scan(s, q3, a.push(' ') + "+ "@ + b, false, true));
    reveal_strlit("+ ");
    reveal_strlit(" + ");
    assert(a.push(' ') + "+ "@ + b =~= a + " + "@ + b);
}

/// The element whose opening tag `tag` was read, from its attributes and
/// children at `p` to its closing tag, with the attributes, events and
/// children read so far; also where reading stops.
///
/// `name="value"` sets an attribute, or an event handler when the name
/// starts with `@` (the `@` is dropped); `name={{ expr }}` sets a dynamic
/// attribute. Text, identifiers, numbers, commas and the operators
/// `+ - * /` become text children, `{{ expr }}` an expression child, an opening tag
/// a child element. The element ends at a closing tag with the same name,
/// or at a self-closing tag.
pub open spec fn element_scan(
    s: Seq<char>,
    p: int,
    tag: Seq<char>,
    attrs: Seq<(Seq<char>, AttrView)>,
    events: Seq<(Seq<char>, Seq<char>)>,
    children: Seq<NodeView>,
) -> (Result<NodeView, Seq<char>>, int)
    decreases s.len() - p,
{
    if p < 0 || p > s.len() {
        (Err(Seq::empty()), p)
    } else {
        proof {
            lemma_token_progress(s, p);
        }
        let (t, q) = token_at(s, p);
        let done = NodeView::Element(tag, attrs, events, children);
        match t {
            TokenView::AttrName(name) => {
                proof {
                    lemma_token_progress(s, q);
                }
                let (t2, q2) = token_at(s, q);
                match t2 {
                    TokenView::Equal => {
                        proof {
                            lemma_token_progress(s, q2);
                        }
                        let (t3, q3) = token_at(s, q2);
                        match t3 {
                            TokenView::StringLiteral(v) => if name.len() > 0 && name[0] == '@' {
                                element_scan(s, q3, tag, attrs, set_pair(events, drop_ats(name), v), children)
                            } else {
                                element_scan(s, q3, tag, set_pair(attrs, name, AttrView::Static(v)), events, children)
                            },
                            TokenView::ExprStart => {
                                proof {
                                    lemma_expr_scan(s, q3, Seq::empty(), false, false);
                                }
                                let (e, q4) = expr_scan(s, q3, Seq::empty(), false, false);
                                match e {
                                    Ok(x) => element_scan(
                                        s,
                                        q4,
                                        tag,
                                        set_pair(attrs, name, AttrView::Dynamic(x)),
                                        events,
                                        children,
                                    ),
                                    Err(m) => (Err(m), q4),
                                }
                            },
                            other => (Err("Expected attribute value, got "@ + token_debug(other)), q3),
                        }
                    },
                    other => (Err("Expected =, got "@ + token_debug(other)), q2),
                }
            },
            TokenView::CloseTag(c) => if c != tag {
                (Err("Mismatched tags: "@ + tag + " and "@ + c), q)
            } else {
                (Ok(done), q)
            },
            TokenView::SelfClosingTag(_) => (Ok(done), q),
            TokenView::Text(x) => element_scan(s, q, tag, attrs, events, children.push(NodeView::Text(x))),
            TokenView::Identifier(x) => element_scan(s, q, tag, attrs, events, children.push(NodeView::Text(x))),
            TokenView::Number(x) => element_scan(s, q, tag, attrs, events, children.push(NodeView::Text(x))),
            TokenView::Plus => element_scan(s, q, tag, attrs, events, children.push(NodeView::Text("+"@))),
            TokenView::Minus => element_scan(s, q, tag, attrs, events, children.push(NodeView::Text("-"@))),
            TokenView::Star => element_scan(s, q, tag, attrs, events, children.push(NodeView::Text("*"@))),
            TokenView::Slash => element_scan(s, q, tag, attrs, events, children.push(NodeView::Text("/"@))),
            TokenView::Comma => element_scan(s, q, tag, attrs, events, children.push(NodeView::Text(","@))),
            TokenView::ExprStart => {
                proof {
                    lemma_expr_scan(s, q, Seq::empty(), false, false);
                }
                let (e, q4) = expr_scan(s, q, Seq::empty(), false, false);
                match e {
                    Ok(x) => element_scan(s, q4, tag, attrs, events, children.push(NodeView::Expression(x))),
                    Err(m) => (Err(m), q4),
                }
            },
            TokenView::OpenTag(child_tag) => {
                let (r, q2) = element_scan(s, q, child_tag, Seq::empty(), Seq::empty(), Seq::empty());
                match r {
                    Ok(n) => if p < q2 <= s.len() {
                        element_scan(s, q2, tag, attrs, events, children.push(n))
                    } else {
                        (Err(Seq::empty()), q2)
                    },
                    Err(m) => (Err(m), q2),
                }
            },
            TokenView::Eof => (Err("Unexpected end of template"@), q),
            other => (Err("Unexpected token: "@ + token_debug(other)), q),
        }
    }
}

/// Reading an element stops within the input, not before its start.
pub proof fn lemma_element_scan(
    s: Seq<char>,
    p: int,
    tag: Seq<char>,
    attrs: Seq<(Seq<char>, AttrView)>,
    events: Seq<(Seq<char>, Seq<char>)>,
    children: Seq<NodeView>,
)
    requires
        0 <= p <= s.len(),
    ensures
        p <= element_scan(s, p, tag, attrs, events, children).1 <= s.len(),
    decreases s.len() - p,
{
    lemma_token_progress(s, p);
    let (t, q) = token_at(s, p);
    match t {
        TokenView::AttrName(name) => {
            lemma_token_progress(s, q);
            let (t2, q2) = token_at(s, q);
            if t2 is Equal {
                lemma_token_progress(s, q2);
                let (t3, q3) = token_at(s, q2);
                match t3 {
                    TokenView::StringLiteral(v) => if name.len() > 0 && name[0] == '@' {
                        lemma_element_scan(s, q3, tag, attrs, set_pair(events, drop_ats(name), v), children);
                    } else {
                        lemma_element_scan(s, q3, tag, set_pair(attrs, name, AttrView::Static(v)), events, children);
                    },
                    TokenView::ExprStart => {
                        lemma_expr_scan(s, q3, Seq::empty(), false, false);
                        let (e, q4) = expr_scan(s, q3, Seq::empty(), false, false);
                        if let Ok(x) = e {
                            lemma_element_scan(s, q4, tag, set_pair(attrs, name, AttrView::Dynamic(x)), events, children);
                        }
                    },
                    _ => {},
                }
            }
        },
        TokenView::Text(x) => lemma_element_scan(s, q, tag, attrs, events, children.push(NodeView::Text(x))),
        TokenView::Identifier(x) => lemma_element_scan(s, q, tag, attrs, events, children.push(NodeView::Text(x))),
        TokenView::Number(x) => lemma_element_scan(s, q, tag, attrs, events, children.push(NodeView::Text(x))),
        TokenView::Plus => lemma_element_scan(s, q, tag, attrs, events, children.push(NodeView::Text("+"@))),
        TokenView::Minus => lemma_element_scan(s, q, tag, attrs, events, children.push(NodeView::Text("-"@))),
        TokenView::Star => lemma_element_scan(s, q, tag, attrs, events, children.push(NodeView::Text("*"@))),
        TokenView::Slash => lemma_element_scan(s, q, tag, attrs, events, children.push(NodeView::Text("/"@))),
        TokenView::Comma => lemma_element_scan(s, q, tag, attrs, events, children.push(NodeView::Text(","@))),
        TokenView::ExprStart => {
            lemma_expr_scan(s, q, Seq::empty(), false, false);
            let (e, q4) = expr_scan(s, q, Seq::empty(), false, false);
            if let Ok(x) = e {
                lemma_element_scan(s, q4, tag, attrs, events, children.push(NodeView::Expression(x)));
            }
        },
        TokenView::OpenTag(child_tag) => {
            lemma_element_scan(s, q, child_tag, Seq::empty(), Seq::empty(), Seq::empty());
            let (r, q2) = element_scan(s, q, child_tag, Seq::empty(), Seq::empty(), Seq::empty());
            if let Ok(n) = r {
                lemma_element_scan(s, q2, tag, attrs, events, children.push(n));
            }
        },
        _ => {},
    }
}

/// What parsing a whole template gives: its first token must open the
/// root element.
pub open spec fn template_parse(s: Seq<char>) -> Result<NodeView, Seq<char>> {
    let (t, q) = token_at(s, 0);
    match t {
        TokenView::OpenTag(tag) => element_scan(s, q, tag, Seq::empty(), Seq::empty(), Seq::empty()).0,
        other => Err("Expected opening tag, got "@ + token_debug(other)),
    }
}

/// The content of a parse result.
pub open spec fn parsed_view(r: Result<TemplateNode, String>) -> Result<NodeView, Seq<char>> {
    match r {
        Ok(n) => Ok(n@),
        Err(m) => Err(m@),
    }
}

/// Whether two strings are equal.
fn same_text(a: &String, b: &String) -> (r: bool)
    ensures
        r == (a@ == b@),
{
    *a == *b
}

/// Sets attribute `name` to `value`.
fn set_attribute(attrs: &mut Vec<(String, AttributeValue)>, name: String, value: AttributeValue)
    ensures
        attrs_view(final(attrs)@) == set_pair(attrs_view(old(attrs)@), name@, attr_view(value)),
{
    let ghost v0 = attrs_view(attrs@);
    let ghost key = name@;
    let ghost val = attr_view(value);
    let mut i: usize = 0;
    while i < attrs.len()
        invariant
            attrs@ == old(attrs)@,
            v0 == attrs_view(attrs@),
            key == name@,
            val == attr_view(value),
            i <= attrs@.len(),
            forall|j: int| 0 <= j < i ==> v0[j].0 != key,
        decreases attrs@.len() - i,
    {
        assert(v0[i as int].0 == attrs@[i as int].0@);
        if same_text(&attrs[i].0, &name) {
            proof {
                lemma_key_index_at(v0, key, i as int);
            }
            attrs.set(i, (name, value));
            assert(attrs_view(attrs@) =~= v0.update(i as int, (key, val)));
            return;
        }
        i = i + 1;
    }
    attrs.push((name, value));
    assert(attrs_view(attrs@) =~= v0.push((key, val)));
}

/// Sets the handler of event `name` to `handler`.
fn set_event(events: &mut Vec<(String, String)>, name: String, handler: String)
    ensures
        events_view(final(events)@) == set_pair(events_view(old(events)@), name@, handler@),
{
    let ghost v0 = events_view(events@);
    let ghost key = name@;
    let ghost val = handler@;
    let mut i: usize = 0;
    while i < events.len()
        invariant
            events@ == old(events)@,
            v0 == events_view(events@),
            key == name@,
            val == handler@,
            i <= events@.len(),
            forall|j: int| 0 <= j < i ==> v0[j].0 != key,
        decreases events@.len() - i,
    {
        assert(v0[i as int].0 == events@[i as int].0@);
        if same_text(&events[i].0, &name) {
            proof {
                lemma_key_index_at(v0, key, i as int);
            }
            events.set(i, (name, handler));
            assert(events_view(events@) =~= v0.update(i as int, (key, val)));
            return;
        }
        i = i + 1;
    }
    events.push((name, handler));
    assert(events_view(events@) =~= v0.push((key, val)));
}

/// The name without its leading `@` characters.
fn strip_ats(name: &String) -> (r: String)
    ensures
        r@ == drop_ats(name@),
{
    let cs = chars_of(name.as_str());
    let mut i: usize = 0;
    assert(cs@.skip(0) =~= cs@);
    while i < cs.len() && cs[i] == '@'
        invariant
            i <= cs@.len(),
            drop_ats(cs@) == drop_ats(cs@.skip(i as int)),
        decreases cs@.len() - i,
    {
        assert(cs@.skip(i as int).drop_first() =~= cs@.skip(i + 1));
        i = i + 1;
    }
    let rest = crate::text::slice_vec(cs.as_slice(), i, cs.len());
    assert(rest@ =~= cs@.skip(i as int));
    string_from(rest.as_slice())
}

/// Appending a node adds its content at the end.
proof fn lemma_nodes_view_push(ns: Seq<TemplateNode>, n: TemplateNode)
    ensures
        nodes_view(ns.push(n), (ns.len() + 1) as int) == nodes_view(ns, ns.len() as int).push(node_view(n)),
{
    lemma_nodes_view(ns, ns.len() as int);
    lemma_nodes_view(ns.push(n), (ns.len() + 1) as int);
    assert forall|j: int| 0 <= j < ns.len() + 1 implies nodes_view(ns.push(n), (ns.len() + 1) as int)[j]
        == nodes_view(ns, ns.len() as int).push(node_view(n))[j] by {
        if j < ns.len() {
            assert(ns.push(n)[j] == ns[j]);
        }
    }
    assert(nodes_view(ns.push(n), (ns.len() + 1) as int) =~= nodes_view(ns, ns.len() as int).push(node_view(n)));
}

/// Parses the template section of an `.orbit` file.
pub struct TemplateParser {
    tokenizer: Tokenizer,
}

impl TemplateParser {
    /// The template text.
    pub closed spec fn text(&self) -> Seq<char> {
        self.tokenizer.text()
    }

    /// How far the template was read.
    pub closed spec fn position(&self) -> int {
        self.tokenizer.position()
    }

    /// The position never passes the end.
    pub open spec fn wf(&self) -> bool {
        0 <= self.position() <= self.text().len()
    }

    /// A parser at the start of `input`.
    pub fn new(input: &str) -> (r: Self)
        ensures
            r.wf(),
            r.text() == input@,
            r.position() == 0,
    {
        TemplateParser { tokenizer: Tokenizer::new(input) }
    }

    /// Parses the template: its first token must open the root element,
    /// which is then read to its end.
    pub fn parse(&mut self) -> (r: Result<TemplateNode, String>)
        requires
            old(self).wf(),
            old(self).position() == 0,
        ensures
            parsed_view(r) == template_parse(old(self).text()),
    {
        match self.tokenizer.next_token() {
            Token::OpenTag(tag) => self.parse_element(tag),
            token => {
                let mut m = String::new();
                push_str(&mut m, "Expected opening tag, got ");
                push_str(&mut m, token.debug_text().as_str());
                Err(m)
            },
        }
    }

    /// Reads the attributes and children of the element opened by `tag`,
    /// up to its end.
    fn parse_element(&mut self, tag: String) -> (r: Result<TemplateNode, String>)
        requires
            old(self).wf(),
        ensures
            final(self).wf(),
            final(self).text() == old(self).text(),
            ({
                let (e, q) = element_scan(
                    old(self).text(),
                    old(self).position(),
                    tag@,
                    Seq::empty(),
                    Seq::empty(),
                    Seq::empty(),
                );
                &&& final(self).position() == q
                &&& parsed_view(r) == e
            }),
        decreases old(self).text().len() - old(self).position(),
    {
        let ghost s = self.text();
        let ghost start = self.position();
        let mut attributes: Vec<(String, AttributeValue)> = Vec::new();
        let mut events: Vec<(String, String)> = Vec::new();
        let mut children: Vec<TemplateNode> = Vec::new();
        assert(attrs_view(attributes@) =~= Seq::<(Seq<char>, AttrView)>::empty());
        assert(events_view(events@) =~= Seq::<(Seq<char>, Seq<char>)>::empty());
        loop
            invariant
                self.wf(),
                self.text() == s,
                s == old(self).text(),
                start == old(self).position(),
                0 <= start <= self.position() <= s.len(),
                element_scan(
                    s,
                    self.position(),
                    tag@,
                    attrs_view(attributes@),
                    events_view(events@),
                    nodes_view(children@, children@.len() as int),
                ) == element_scan(s, start, tag@, Seq::empty(), Seq::empty(), Seq::empty()),
            decreases s.len() - self.position(),
        {
            let ghost p = self.position();
            let ghost kids = children@;
            proof {
                lemma_token_progress(s, p);
            }
            let token = self.tokenizer.next_token();
            match token {
                Token::AttrName(name) => {
                    proof {
                        lemma_token_progress(s, self.position());
                    }
                    match self.tokenizer.next_token() {
                        Token::Equal => {
                            proof {
                                lemma_token_progress(s, self.position());
                            }
                            match self.tokenizer.next_token() {
                                Token::StringLiteral(value) => {
                                    let n = chars_of(name.as_str());
                                    if n.len() > 0 && n[0] == '@' {
                                        let event_name = strip_ats(&name);
                                        set_event(&mut events, event_name, value);
                                    } else {
                                        set_attribute(&mut attributes, name, AttributeValue::Static(value));
                                    }
                                },
                                Token::ExprStart => {
                                    proof {
                                        lemma_expr_scan(s, self.position(), Seq::empty(), false, false);
                                    }
                                    let expr = self.parse_expression()?;
                                    set_attribute(&mut attributes, name, AttributeValue::Dynamic(expr));
                                },
                                other => {
                                    let mut m = String::new();
                                    push_str(&mut m, "Expected attribute value, got ");
                                    push_str(&mut m, other.debug_text().as_str());
                                    return Err(m);
                                },
                            }
                        },
                        other => {
                            let mut m = String::new();
                            push_str(&mut m, "Expected =, got ");
                            push_str(&mut m, other.debug_text().as_str());
                            return Err(m);
                        },
                    }
                },
                Token::CloseTag(close_tag) => {
                    if close_tag != tag {
                        let mut m = String::new();
                        push_str(&mut m, "Mismatched tags: ");
                        push_str(&mut m, tag.as_str());
                        push_str(&mut m, " and ");
                        push_str(&mut m, close_tag.as_str());
                        return Err(m);
                    }
                    return Ok(TemplateNode::Element { tag, attributes, events, children });
                },
                Token::SelfClosingTag(_) => {
                    return Ok(TemplateNode::Element { tag, attributes, events, children });
                },
                Token::Text(text) => {
                    proof { lemma_nodes_view_push(children@, TemplateNode::Text(text)); }
                    children.push(TemplateNode::Text(text));
                },
                Token::Identifier(text) => {
                    proof { lemma_nodes_view_push(children@, TemplateNode::Text(text)); }
                    children.push(TemplateNode::Text(text));
                },
                Token::Number(text) => {
                    proof { lemma_nodes_view_push(children@, TemplateNode::Text(text)); }
                    children.push(TemplateNode::Text(text));
                },
                Token::Plus => {
                    let n = TemplateNode::Text("+".to_owned());
                    proof { lemma_nodes_view_push(children@, n); }
                    children.push(n);
                },
                Token::Minus => {
                    let n = TemplateNode::Text("-".to_owned());
                    proof { lemma_nodes_view_push(children@, n); }
                    children.push(n);
                },
                Token::Star => {
                    let n = TemplateNode::Text("*".to_owned());
                    proof { lemma_nodes_view_push(children@, n); }
                    children.push(n);
                },
                Token::Slash => {
                    let n = TemplateNode::Text("/".to_owned());
                    proof { lemma_nodes_view_push(children@, n); }
                    children.push(n);
                },
                Token::Comma => {
                    let n = TemplateNode::Text(",".to_owned());
                    proof { lemma_nodes_view_push(children@, n); }
                    children.push(n);
                },
                Token::ExprStart => {
                    proof {
                        lemma_expr_scan(s, self.position(), Seq::empty(), false, false);
                    }
                    let expr = self.parse_expression()?;
                    let n = TemplateNode::Expression(expr);
                    proof { lemma_nodes_view_push(children@, n); }
                    children.push(n);
                },
                Token::OpenTag(child_tag) => {
                    proof {
                        lemma_element_scan(s, self.position(), child_tag@, Seq::empty(), Seq::empty(), Seq::empty());
                    }
                    let child = self.parse_element(child_tag)?;
                    proof { lemma_nodes_view_push(children@, child); }
                    children.push(child);
                },
                Token::Eof => {
                    return Err("Unexpected end of template".to_owned());
                },
                other => {
                    let mut m = String::new();
                    push_str(&mut m, "Unexpected token: ");
                    push_str(&mut m, other.debug_text().as_str());
                    return Err(m);
                },
            }
        }
    }

    /// Reads an expression up to `}}`.
    fn parse_expression(&mut self) -> (r: Result<String, String>)
        requires
            old(self).wf(),
        ensures
            final(self).wf(),
            final(self).text() == old(self).text(),
            ({
                let (e, q) = expr_scan(old(self).text(), old(self).position(), Seq::empty(), false, false);
                &&& final(self).position() == q
                &&& match r {
                    Ok(x) => e == Ok::<Seq<char>, Seq<char>>(x@),
                    Err(m) => e == Err::<Seq<char>, Seq<char>>(m@),
                }
            }),
    {
        let ghost s = self.text();
        let ghost start = self.position();
        let mut expr = String::new();
        let mut prev_op = false;
        let mut prev_id = false;
        loop
            invariant
                self.wf(),
                self.text() == s,
                s == old(self).text(),
                start == old(self).position(),
                0 <= self.position() <= s.len(),
                expr_scan(s, self.position(), expr@, prev_op, prev_id) == expr_scan(s, start, Seq::empty(), false, false),
            decreases s.len() - self.position(),
        {
            let ghost p = self.position();
            let ghost acc = expr@;
            proof {
                lemma_token_progress(s, p);
            }
            let token = self.tokenizer.next_token();
            match token {
                Token::ExprEnd => {
                    return Ok(expr);
                },
                Token::Identifier(ident) => {
                    if prev_id {
                        push_char(&mut expr, ' ');
                    }
                    push_str(&mut expr, ident.as_str());
                    assert(expr@ =~= (if prev_id { acc.push(' ') } else { acc }) + ident@);
                    prev_id = true;
                    prev_op = false;
                },
                Token::Dot => {
                    push_char(&mut expr, '.');
                    prev_id = false;
                    prev_op = false;
                },
                Token::Number(num) => {
                    if prev_id {
                        push_char(&mut expr, ' ');
                    }
                    push_str(&mut expr, num.as_str());
                    assert(expr@ =~= (if prev_id { acc.push(' ') } else { acc }) + num@);
                    prev_id = true;
                    prev_op = false;
                },
                Token::StringLiteral(text) => {
                    push_char(&mut expr, '"');
                    push_str(&mut expr, text.as_str());
                    push_char(&mut expr, '"');
                    assert(expr@ =~= acc + seq!['"'] + text@ + seq!['"']);
                    prev_id = true;
                    prev_op = false;
                },
                Token::Plus => {
                    if !prev_op && !expr.as_str().is_empty() {
                        push_char(&mut expr, ' ');
                    }
                    push_str(&mut expr, "+ ");
                    assert(expr@ =~= (if !prev_op && acc.len() > 0 { acc.push(' ') } else { acc }) + "+ "@);
                    prev_id = false;
                    prev_op = true;
                },
                Token::Minus => {
                    if !prev_op && !expr.as_str().is_empty() {
                        push_char(&mut expr, ' ');
                    }
                    push_str(&mut expr, "- ");
                    assert(expr@ =~= (if !prev_op && acc.len() > 0 { acc.push(' ') } else { acc }) + "- "@);
                    prev_id = false;
                    prev_op = true;
                },
                Token::Star => {
                    if !prev_op && !expr.as_str().is_empty() {
                        push_char(&mut expr, ' ');
                    }
                    push_str(&mut expr, "* ");
                    assert(expr@ =~= (if !prev_op && acc.len() > 0 { acc.push(' ') } else { acc }) + "* "@);
                    prev_id = false;
                    prev_op = true;
                },
                Token::Slash => {
                    if !prev_op && !expr.as_str().is_empty() {
                        push_char(&mut expr, ' ');
                    }
                    push_str(&mut expr, "/ ");
                    assert(expr@ =~= (if !prev_op && acc.len() > 0 { acc.push(' ') } else { acc }) + "/ "@);
                    prev_id = false;
                    prev_op = true;
                },
                Token::OpenParen => {
                    push_char(&mut expr, '(');
                    prev_id = false;
                    prev_op = false;
                },
                Token::CloseParen => {
                    push_char(&mut expr, ')');
                    prev_id = true;
                    prev_op = false;
                },
                Token::Comma => {
                    push_str(&mut expr, ", ");
                    prev_id = false;
                    prev_op = false;
                },
                Token::Eof => {
                    return Err("Unclosed expression".to_owned());
                },
                other => {
                    let mut m = String::new();
                    push_str(&mut m, "Unexpected token in expression: ");
                    push_str(&mut m, other.debug_text().as_str());
                    return Err(m);
                },
            }
        }
    }
}

} // verus!
