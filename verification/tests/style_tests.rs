use orbit::style::{
    parse_font_weight, parse_text_align, CssSelector, FontWeight, Specificity, StyleError, StyleRule,
    Stylesheet, TextAlign,
};

#[test]
fn test_specificity_calculation() {
    let rule = StyleRule::new(
        vec![CssSelector {
            selector: "#main .header h1".to_string(),
            properties: vec![],
        }],
        true,
        0,
    );
    assert_eq!(rule.specificity, Specificity(1, 1, 1));

    let rule = StyleRule::new(
        vec![CssSelector {
            selector: ".button.primary:hover".to_string(),
            properties: vec![],
        }],
        true,
        0,
    );
    assert_eq!(rule.specificity, Specificity(0, 3, 0));
}

#[test]
fn test_css_parsing() {
    let css = r#"
            .button {
                background-color: blue;
                color: white;
            }

            .button:hover {
                background-color: darkblue;
            }
        "#;

    let result = Stylesheet::parse(css, true);
    assert!(result.is_ok());

    let stylesheet = result.unwrap();
    assert_eq!(stylesheet.rules.len(), 2);

    let first_rule = &stylesheet.rules[0];
    assert_eq!(first_rule.selectors[0].selector, ".button");
    assert_eq!(first_rule.selectors[0].properties.len(), 2);
    assert_eq!(first_rule.scoped, true);
}

#[test]
fn test_scoping() {
    let mut rule = StyleRule::new(
        vec![CssSelector {
            selector: ".button".to_string(),
            properties: vec![],
        }],
        true,
        0,
    );

    rule.apply_scoping("component-123");
    assert_eq!(rule.selectors[0].selector, ".component-123 .button");
    assert_eq!(rule.specificity, Specificity(0, 2, 0));
}

#[test]
fn test_multiple_selectors() {
    let css = r#"
            h1, h2, h3 {
                font-family: sans-serif;
            }

            .alert, .notice {
                padding: 1rem;
                border: 1px solid;
            }
        "#;

    let result = Stylesheet::parse(css, false);
    assert!(result.is_ok());

    let stylesheet = result.unwrap();
    assert_eq!(stylesheet.rules.len(), 2);

    let first_rule = &stylesheet.rules[0];
    assert_eq!(first_rule.selectors.len(), 3);

    let second_rule = &stylesheet.rules[1];
    assert_eq!(second_rule.selectors.len(), 2);
    assert_eq!(second_rule.selectors[0].properties.len(), 2);
}

#[test]
fn specificity_of_single_selectors() {
    assert_eq!(StyleRule::calculate_specificity("div"), Specificity(0, 0, 1));
    assert_eq!(StyleRule::calculate_specificity("#id .cls"), Specificity(1, 1, 0));
    assert_eq!(StyleRule::calculate_specificity("a:hover"), Specificity(0, 1, 1));
    assert_eq!(StyleRule::calculate_specificity("p::before"), Specificity(0, 1, 2));
    assert_eq!(StyleRule::calculate_specificity("[type=text]"), Specificity(0, 1, 0));
}

#[test]
fn font_weights_by_keyword_and_number() {
    assert!(matches!(parse_font_weight(" bold "), Ok(FontWeight::Bold)));
    assert!(matches!(parse_font_weight("100"), Ok(FontWeight::Thin)));
    assert!(matches!(parse_font_weight("semi-bold"), Ok(FontWeight::SemiBold)));
    assert!(matches!(parse_font_weight("450"), Ok(FontWeight::Numeric(450))));
    match parse_font_weight("heavy") {
        Err(StyleError::ParseError(m)) => assert_eq!(m, "Invalid font weight: heavy"),
        _ => panic!("an unknown weight must be refused"),
    }
    // a number is read from the untrimmed value
    assert!(parse_font_weight(" 450").is_err());
}

#[test]
fn text_alignments() {
    assert!(matches!(parse_text_align("center"), Ok(TextAlign::Center)));
    assert!(matches!(parse_text_align(" end\n"), Ok(TextAlign::End)));
    match parse_text_align("middle") {
        Err(StyleError::ParseError(m)) => assert_eq!(m, "Invalid text align: middle"),
        _ => panic!("an unknown alignment must be refused"),
    }
}

#[test]
fn scoping_keeps_the_most_specific_selector() {
    let mut rule = StyleRule::new(
        vec![
            CssSelector { selector: "#a".to_string(), properties: vec![] },
            CssSelector { selector: ".b".to_string(), properties: vec![] },
        ],
        true,
        0,
    );
    assert_eq!(rule.specificity, Specificity(1, 0, 0));
    rule.apply_scoping("c");
    assert_eq!(rule.selectors[0].selector, ".c #a");
    assert_eq!(rule.selectors[1].selector, ".c .b");
    assert_eq!(rule.specificity, Specificity(1, 1, 0));
}
