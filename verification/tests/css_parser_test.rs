use xoof::cssom::{Declaration, Number, Rule, Selector, SelectorType, StyleSheet, Unit, Value};
use xoof::parser::css_parser::parse;

fn parse_css(style: String) -> StyleSheet {
    let mut warnings = vec![];
    let style_sheet = parse(style, &mut warnings);
    for warn in &warnings {
        println!("Warn: {}", warn)
    }
    assert_eq!(warnings.len(), 0, "No warnings expected");
    return style_sheet;
}

fn amount_of(number: &Number) -> f32 {
    let mut text = number.whole.clone();
    if !number.fraction.is_empty() {
        text.push('.');
        text.push_str(&number.fraction);
    }
    text.parse::<f32>().unwrap()
}

#[test]
fn css_parser_test_it_parses_element_selector_with_attribute() {
    let style_sheet = parse_css("div { height: 100px; }".to_string());
    let rule: &Rule = style_sheet.rules.get(0).unwrap();
    let selector: &Selector = rule.selectors.get(0).unwrap();
    match &selector.selector_type {
        SelectorType::SimpleSelector(s) => {
            assert_eq!(s.tag_name.clone().unwrap(), String::from("div"));
        }
    };
    let declaration: &Declaration = rule.declarations.get(0).unwrap();
    assert_eq!(declaration.name, String::from("height"));
    match &declaration.value {
        Value::Length(amount, unit) => {
            assert_eq!(amount_of(amount), 100_f32);
            let unit_result = match unit {
                Unit::Px => "px",
            };
            assert_eq!(unit_result, "px")
        }
    };
}

#[test]
fn css_parser_test_it_parses_multiple_attributes() {
    let style_sheet = parse_css("span { height: 100px; width: 50px; }".to_string());
    let rule: &Rule = style_sheet.rules.get(0).unwrap();
    let selector: &Selector = rule.selectors.get(0).unwrap();
    match &selector.selector_type {
        SelectorType::SimpleSelector(s) => {
            assert_eq!(s.tag_name.clone().unwrap(), String::from("span"));
        }
    }
    let height_declaration: &Declaration = rule.declarations.get(0).unwrap();
    assert_eq!(height_declaration.name, String::from("height"));
    match &height_declaration.value {
        Value::Length(amount, unit) => {
            assert_eq!(amount_of(amount), 100_f32);
            let unit_result = match unit {
                Unit::Px => "px",
            };
            assert_eq!(unit_result, "px")
        }
    }

    let width_declaration: &Declaration = rule.declarations.get(1).unwrap();
    assert_eq!(width_declaration.name, String::from("width"));
    match &width_declaration.value {
        Value::Length(amount, unit) => {
            assert_eq!(amount_of(amount), 50_f32);
            let unit_result = match unit {
                Unit::Px => "px",
            };
            assert_eq!(unit_result, "px")
        }
    }
}

fn parse_with_warnings(style: &str) -> (StyleSheet, Vec<String>) {
    let mut warnings = vec![];
    let sheet = parse(style.to_string(), &mut warnings);
    (sheet, warnings)
}

fn tag_of(selector: &Selector) -> Option<String> {
    match &selector.selector_type {
        SelectorType::SimpleSelector(s) => s.tag_name.clone(),
    }
}

fn id_of(selector: &Selector) -> Option<String> {
    match &selector.selector_type {
        SelectorType::SimpleSelector(s) => s.id.clone(),
    }
}

fn classes_of(selector: &Selector) -> Vec<String> {
    match &selector.selector_type {
        SelectorType::SimpleSelector(s) => s.class.clone(),
    }
}

fn length_of(declaration: &Declaration) -> (String, String) {
    match &declaration.value {
        Value::Length(number, Unit::Px) => (number.whole.clone(), number.fraction.clone()),
    }
}

#[test]
fn one_rule_one_selector_one_declaration() {
    let (sheet, warnings) = parse_with_warnings("div { height: 100px; }");
    assert!(warnings.is_empty());
    assert_eq!(sheet.rules.len(), 1);
    let rule = &sheet.rules[0];
    assert_eq!(rule.selectors.len(), 1);
    assert_eq!(tag_of(&rule.selectors[0]), Some("div".to_string()));
    assert_eq!(id_of(&rule.selectors[0]), None);
    assert!(classes_of(&rule.selectors[0]).is_empty());
    assert_eq!(rule.declarations.len(), 1);
    assert_eq!(rule.declarations[0].name, "height");
    assert_eq!(length_of(&rule.declarations[0]), ("100".to_string(), "".to_string()));
}

#[test]
fn selectors_of_each_kind_separated_by_commas() {
    let (sheet, warnings) = parse_with_warnings("div, #main , .wide{ }");
    assert!(warnings.is_empty());
    assert_eq!(sheet.rules.len(), 1);
    let selectors = &sheet.rules[0].selectors;
    assert_eq!(selectors.len(), 3);
    assert_eq!(tag_of(&selectors[0]), Some("div".to_string()));
    assert_eq!(id_of(&selectors[1]), Some("main".to_string()));
    assert_eq!(tag_of(&selectors[1]), None);
    assert_eq!(classes_of(&selectors[2]), vec!["wide".to_string()]);
    assert!(sheet.rules[0].declarations.is_empty());
}

#[test]
fn several_rules_keep_source_order() {
    let (sheet, warnings) = parse_with_warnings("a { x: 1px; }\n\nb { y: 2.5px; }\n");
    assert!(warnings.is_empty());
    assert_eq!(sheet.rules.len(), 2);
    assert_eq!(tag_of(&sheet.rules[0].selectors[0]), Some("a".to_string()));
    assert_eq!(tag_of(&sheet.rules[1].selectors[0]), Some("b".to_string()));
    assert_eq!(length_of(&sheet.rules[1].declarations[0]), ("2".to_string(), "5".to_string()));
}

#[test]
fn number_may_end_in_a_point() {
    let (sheet, warnings) = parse_with_warnings("a { x: 7.px; }");
    assert!(warnings.is_empty());
    assert_eq!(length_of(&sheet.rules[0].declarations[0]), ("7".to_string(), "".to_string()));
}

#[test]
fn malformed_declaration_gives_one_warning_and_spares_the_rest() {
    let (sheet, warnings) =
        parse_with_warnings("a { x: 1px; y: red; z: 3px; }\nb { w: 4px; }");
    assert_eq!(warnings.len(), 1);
    assert_eq!(warnings[0], "1:19 (19) - Skipping declaration - Consuming value: r");
    assert_eq!(sheet.rules.len(), 2);
    let first = &sheet.rules[0];
    assert_eq!(first.declarations.len(), 2);
    assert_eq!(first.declarations[0].name, "x");
    assert_eq!(first.declarations[1].name, "z");
    assert_eq!(length_of(&first.declarations[1]), ("3".to_string(), "".to_string()));
    let second = &sheet.rules[1];
    assert_eq!(tag_of(&second.selectors[0]), Some("b".to_string()));
    assert_eq!(second.declarations.len(), 1);
    assert_eq!(second.declarations[0].name, "w");
}

#[test]
fn unknown_unit_is_an_invalid_value() {
    let (sheet, warnings) = parse_with_warnings("a { x: 5em; y: 2px; }");
    assert_eq!(warnings, vec!["1:11 (11) - Skipping declaration - Consuming unit: e".to_string()]);
    assert_eq!(sheet.rules[0].declarations.len(), 1);
    assert_eq!(sheet.rules[0].declarations[0].name, "y");
}

#[test]
fn unit_is_case_sensitive() {
    let (sheet, warnings) = parse_with_warnings("a { x: 5PX; y: 2px; }");
    assert_eq!(warnings, vec!["1:11 (11) - Skipping declaration - Consuming unit: P".to_string()]);
    assert_eq!(sheet.rules[0].declarations.len(), 1);
}

#[test]
fn second_point_in_a_number_is_an_invalid_value() {
    let (sheet, warnings) = parse_with_warnings("a { x: 1.2.3px; y: 2px; }");
    assert_eq!(
        warnings,
        vec!["1:15 (15) - Skipping declaration - Consuming number: 1.2".to_string()]
    );
    assert_eq!(sheet.rules[0].declarations.len(), 1);
    assert_eq!(sheet.rules[0].declarations[0].name, "y");
}

#[test]
fn missing_colon_is_reported_with_what_was_found() {
    let (sheet, warnings) = parse_with_warnings("a { x 1px; y: 2px; }");
    assert_eq!(
        warnings,
        vec!["1:10 (10) - Skipping declaration - Expected: : Found: 1".to_string()]
    );
    assert_eq!(sheet.rules[0].declarations.len(), 1);
    assert_eq!(sheet.rules[0].declarations[0].name, "y");
}

#[test]
fn missing_semicolon_skips_to_the_next_one() {
    let (sheet, warnings) = parse_with_warnings("a { x: 1px y: 2px; z: 3px; }");
    assert_eq!(
        warnings,
        vec!["1:18 (18) - Skipping declaration - Expected: ; Found: y".to_string()]
    );
    assert_eq!(sheet.rules[0].declarations.len(), 1);
    assert_eq!(sheet.rules[0].declarations[0].name, "z");
}

#[test]
fn unexpected_character_between_selectors_is_stepped_over() {
    let (sheet, warnings) = parse_with_warnings("div > p { x: 1px; }");
    assert_eq!(warnings, vec!["1:4 (4) - Consuming selectors: >".to_string()]);
    assert_eq!(sheet.rules.len(), 1);
    let selectors = &sheet.rules[0].selectors;
    assert_eq!(selectors.len(), 2);
    assert_eq!(tag_of(&selectors[0]), Some("div".to_string()));
    assert_eq!(tag_of(&selectors[1]), Some("p".to_string()));
    assert_eq!(sheet.rules[0].declarations.len(), 1);
}

#[test]
fn selectors_cut_short_by_the_end_give_a_rule_without_declarations() {
    let (sheet, warnings) = parse_with_warnings("div");
    assert_eq!(warnings, vec!["1:3 (3) - Unexpected end of input".to_string()]);
    assert_eq!(sheet.rules.len(), 1);
    assert_eq!(tag_of(&sheet.rules[0].selectors[0]), Some("div".to_string()));
    assert!(sheet.rules[0].declarations.is_empty());
}

#[test]
fn block_cut_short_by_the_end_keeps_its_declarations() {
    let (sheet, warnings) = parse_with_warnings("div { x: 1px;");
    assert_eq!(warnings, vec!["1:13 (13) - Unexpected end of input".to_string()]);
    assert_eq!(sheet.rules.len(), 1);
    assert_eq!(sheet.rules[0].declarations.len(), 1);
}

#[test]
fn empty_and_blank_stylesheets_hold_no_rule() {
    let (sheet, warnings) = parse_with_warnings("");
    assert!(sheet.rules.is_empty());
    assert!(warnings.is_empty());
    let (sheet, warnings) = parse_with_warnings(" \n\t ");
    assert!(sheet.rules.is_empty());
    assert!(warnings.is_empty());
}

#[test]
fn warnings_are_added_behind_those_already_there() {
    let mut warnings = vec!["earlier".to_string()];
    let _ = parse("a { x: red; }".to_string(), &mut warnings);
    assert_eq!(warnings.len(), 2);
    assert_eq!(warnings[0], "earlier");
}

#[test]
fn stylesheet_parser_ends_on_odd_inputs() {
    let inputs = [
        "{", "}", "{}", ";", ":", ",", ",,,", "a,", "a{", "a{b", "a{b:", "a{b:1", "a{b:1px", "#",
        ".", "#{", "a { x: 1px; } }", "a { ; }", "a { : ; }", "é { ü: 1px; }", "a\n{\nx\n:\n1px\n;\n}",
        "a{{{{", "a}}}}", "1.2.3", "a { x: 1..px; }",
    ];
    for input in inputs {
        let (sheet, warnings) = parse_with_warnings(input);
        assert!(sheet.rules.len() <= input.len());
        assert!(warnings.len() <= input.len() + 1);
    }
}

#[test]
fn whole_stylesheet_parses_without_warnings() {
    let text = "
html, body {
    margin: 0px;
    padding: 0px;
}

#title {
    font-size: 24.5px;
}

.wide, .dark {
    width: 100px ;
    height : 50px;
}
";
    let (sheet, warnings) = parse_with_warnings(text);
    assert_eq!(warnings, Vec::<String>::new());
    assert_eq!(sheet.rules.len(), 3);
    assert_eq!(sheet.rules[0].selectors.len(), 2);
    assert_eq!(sheet.rules[0].declarations.len(), 2);
    assert_eq!(id_of(&sheet.rules[1].selectors[0]), Some("title".to_string()));
    assert_eq!(
        length_of(&sheet.rules[1].declarations[0]),
        ("24".to_string(), "5".to_string())
    );
    assert_eq!(sheet.rules[2].declarations[0].name, "width");
    assert_eq!(sheet.rules[2].declarations[1].name, "height");
}
