use orbit::parser::ast::{AttributeValue, TemplateNode};
use orbit::parser::template::TemplateParser;
use orbit::parser::tokenizer::{Token, Tokenizer};
use orbit::parser::OrbitParser;

fn attribute<'a>(attributes: &'a [(String, AttributeValue)], name: &str) -> Option<&'a AttributeValue> {
    attributes.iter().find(|(n, _)| n == name).map(|(_, v)| v)
}

fn event<'a>(events: &'a [(String, String)], name: &str) -> Option<&'a String> {
    events.iter().find(|(n, _)| n == name).map(|(_, v)| v)
}

#[test]
fn test_parse_simple_element() {
    let input = r#"<div class="greeting">Hello</div>"#;
    let mut parser = TemplateParser::new(input);
    let node = parser.parse().unwrap();

    match node {
        TemplateNode::Element { tag, attributes, events, children } => {
            assert_eq!(tag, "div");
            assert_eq!(attributes.len(), 1);
            assert_eq!(events.len(), 0);
            assert_eq!(children.len(), 1);

            match attribute(&attributes, "class").unwrap() {
                AttributeValue::Static(value) => assert_eq!(value, "greeting"),
                _ => panic!("Expected static attribute"),
            }

            match &children[0] {
                TemplateNode::Text(text) => assert_eq!(text, "Hello"),
                _ => panic!("Expected text node"),
            }
        },
        _ => panic!("Expected element node"),
    }
}

#[test]
fn test_parse_expression() {
    let input = r#"<div>{{ count + 1 }}</div>"#;
    let mut parser = TemplateParser::new(input);
    let node = parser.parse().unwrap();

    match node {
        TemplateNode::Element { tag, attributes, events, children } => {
            assert_eq!(tag, "div");
            assert_eq!(attributes.len(), 0);
            assert_eq!(events.len(), 0);
            assert_eq!(children.len(), 1);

            match &children[0] {
                TemplateNode::Expression(expr) => assert_eq!(expr, "count + 1"),
                _ => panic!("Expected expression node"),
            }
        },
        _ => panic!("Expected element node"),
    }
}

#[test]
fn test_parse_event_handler() {
    let input = r#"<button @click="increment">+</button>"#;
    let mut parser = TemplateParser::new(input);
    let node = parser.parse().unwrap();

    match node {
        TemplateNode::Element { tag, attributes, events, children } => {
            assert_eq!(tag, "button");
            assert_eq!(attributes.len(), 0);
            assert_eq!(events.len(), 1);
            assert_eq!(children.len(), 1);

            assert_eq!(event(&events, "click").unwrap(), "increment");

            match &children[0] {
                TemplateNode::Text(text) => assert_eq!(text, "+"),
                _ => panic!("Expected text node"),
            }
        },
        _ => panic!("Expected element node"),
    }
}

#[test]
fn test_parse_simple_component() {
    let content = r#"
<template>
    <div class="greeting">
        <h1>Hello, {{ name }}!</h1>
        <button @click="increment">Count: {{ count }}</button>
    </div>
</template>

<style>
.greeting {
    font-family: Arial, sans-serif;
    padding: 20px;
}
</style>

<script>
use orbitui::prelude::*;

pub struct Greeting {
    name: String,
    count: i32,
}

impl Component for Greeting {
    fn new() -> Self {
        Self {
            name: String::from("World"),
            count: 0,
        }
    }
}
</script>
"#;

    let ast = OrbitParser::parse(content).unwrap();

    match ast.template {
        TemplateNode::Element { tag, attributes, events: _, children } => {
            assert_eq!(tag, "div");
            assert!(attribute(&attributes, "class").is_some());
            assert_eq!(children.len(), 2);
        },
        _ => panic!("Expected element node"),
    }
}

#[test]
fn unclosed_element_is_an_error() {
    let mut parser = TemplateParser::new("<div>");
    assert!(parser.parse().is_err());
}

#[test]
fn tokenizer_reads_tags_and_text() {
    let mut t = Tokenizer::new("<p>hi</p>");
    assert!(matches!(t.next_token(), Token::OpenTag(ref n) if n == "p"));
    let mut seen_close = false;
    let mut steps = 0;
    loop {
        steps += 1;
        assert!(steps < 20);
        match t.next_token() {
            Token::CloseTag(n) => {
                assert_eq!(n, "p");
                seen_close = true;
            },
            Token::Eof => break,
            _ => {},
        }
    }
    assert!(seen_close);
}
