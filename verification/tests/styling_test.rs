use std::cmp::Ordering;
use xoof::cssom::{Selector, SelectorType, SimpleSelectorData, StyleSheet, Unit, Value};
use xoof::dom::{AttrMap, ElementData, Node, NodeType};
use xoof::parser::{css_parser, html_parser};
use xoof::styling::{
    apply_styling, build_style, determine_matching_rules, match_rule, rank_rules, style_node,
    PropertyMap, StyledNode,
};

fn sheet(text: &str) -> StyleSheet {
    let mut warnings = vec![];
    let sheet = css_parser::parse(text.to_string(), &mut warnings);
    assert!(warnings.is_empty(), "{:?}", warnings);
    sheet
}

fn root(text: &str) -> Node {
    let mut warnings = vec![];
    let mut nodes = html_parser::parse(text.to_string(), &mut warnings);
    assert!(warnings.is_empty(), "{:?}", warnings);
    nodes.remove(0)
}

fn element(tag: &str, attributes: &[(&str, &str)]) -> ElementData {
    let mut map = AttrMap::new();
    for (name, value) in attributes {
        map.insert(name.to_string(), value.to_string());
    }
    ElementData { tag_name: tag.to_string(), attributes: map }
}

fn selector(tag: Option<&str>, id: Option<&str>, classes: &[&str]) -> Selector {
    Selector {
        selector_type: SelectorType::SimpleSelector(SimpleSelectorData {
            tag_name: tag.map(|t| t.to_string()),
            id: id.map(|t| t.to_string()),
            class: classes.iter().map(|c| c.to_string()).collect(),
        }),
    }
}

fn length(values: &PropertyMap, name: &str) -> Option<String> {
    values.get(name).map(|value| match value {
        Value::Length(number, Unit::Px) => {
            if number.fraction.is_empty() {
                number.whole.clone() + "px"
            } else {
                number.whole.clone() + "." + &number.fraction + "px"
            }
        }
    })
}

#[test]
fn id_rule_wins_over_tag_rule_in_either_order() {
    let element = element("div", &[("id", "main")]);
    let tag_first = sheet("div { x: 1px; } #main { x: 2px; }");
    let id_first = sheet("#main { x: 2px; } div { x: 1px; }");
    assert_eq!(length(&build_style(&element, &tag_first.rules), "x"), Some("2px".to_string()));
    assert_eq!(length(&build_style(&element, &id_first.rules), "x"), Some("2px".to_string()));
}

#[test]
fn class_rule_lies_between_tag_rule_and_id_rule() {
    let element = element("p", &[("id", "a"), ("class", "b")]);
    let rules = sheet("#a { x: 3px; } .b { x: 2px; y: 2px; } p { x: 1px; y: 1px; z: 1px; }");
    let values = build_style(&element, &rules.rules);
    assert_eq!(values.len(), 3);
    assert_eq!(length(&values, "x"), Some("3px".to_string()));
    assert_eq!(length(&values, "y"), Some("2px".to_string()));
    assert_eq!(length(&values, "z"), Some("1px".to_string()));
}

#[test]
fn among_rules_of_one_weight_the_later_wins() {
    let element = element("p", &[("class", "a b")]);
    let rules = sheet(".a { x: 1px; } .b { x: 2px; }");
    assert_eq!(length(&build_style(&element, &rules.rules), "x"), Some("2px".to_string()));
    let rules = sheet(".b { x: 2px; } .a { x: 1px; }");
    assert_eq!(length(&build_style(&element, &rules.rules), "x"), Some("1px".to_string()));
}

#[test]
fn within_a_rule_the_later_declaration_wins() {
    let element = element("p", &[]);
    let rules = sheet("p { x: 1px; y: 5px; x: 2px; }");
    let values = build_style(&element, &rules.rules);
    assert_eq!(values.len(), 2);
    assert_eq!(length(&values, "x"), Some("2px".to_string()));
    assert_eq!(length(&values, "y"), Some("5px".to_string()));
}

#[test]
fn rule_counts_once_with_its_first_matching_selector() {
    let element = element("p", &[("id", "a")]);
    let rules = sheet("p, #a { x: 1px; } .none, p { x: 2px; }");
    let matches = determine_matching_rules(&element, &rules.rules);
    assert_eq!(matches.len(), 2);
    assert_eq!(matches[0].0.cmp(&matches[1].0).0, Ordering::Equal);
    assert_eq!(length(&build_style(&element, &rules.rules), "x"), Some("2px".to_string()));
}

#[test]
fn rules_that_do_not_match_give_nothing() {
    let element = element("p", &[("id", "a"), ("class", "b")]);
    let rules = sheet("div { x: 1px; } #b { y: 1px; } .a { z: 1px; }");
    assert!(determine_matching_rules(&element, &rules.rules).is_empty());
    assert_eq!(build_style(&element, &rules.rules).len(), 0);
    assert!(match_rule(&element, &rules.rules[0]).is_none());
}

#[test]
fn ranking_is_ascending_and_stable() {
    let element = element("p", &[("id", "a"), ("class", "b c")]);
    let rules = sheet("#a { n: 0px; } p { n: 1px; } .b { n: 2px; } p { n: 3px; } .c { n: 4px; } #a { n: 5px; }");
    let ranked = rank_rules(determine_matching_rules(&element, &rules.rules));
    let order: Vec<String> = ranked
        .iter()
        .map(|(_, rule)| match &rule.declarations[0].value {
            Value::Length(number, _) => number.whole.clone(),
        })
        .collect();
    assert_eq!(order, vec!["1", "3", "2", "4", "0", "5"]);
    assert!(rank_rules(vec![]).is_empty());
}

#[test]
fn selector_matches_by_tag_id_and_classes() {
    let div = element("div", &[("id", "main"), ("class", " wide\tdark  big\n")]);
    assert!(selector(Some("div"), None, &[]).matches(&div));
    assert!(!selector(Some("p"), None, &[]).matches(&div));
    assert!(selector(None, Some("main"), &[]).matches(&div));
    assert!(!selector(None, Some("other"), &[]).matches(&div));
    assert!(selector(None, None, &["wide"]).matches(&div));
    assert!(selector(None, None, &["big", "wide"]).matches(&div));
    assert!(!selector(None, None, &["wide", "small"]).matches(&div));
    assert!(!selector(None, None, &["wid"]).matches(&div));
    assert!(selector(None, None, &[]).matches(&div));
    assert!(selector(Some("div"), Some("main"), &["dark"]).matches(&div));
    assert!(!selector(Some("p"), Some("main"), &["dark"]).matches(&div));
    let bare = element("div", &[]);
    assert!(!selector(None, Some("main"), &[]).matches(&bare));
    assert!(!selector(None, None, &["wide"]).matches(&bare));
    assert!(selector(Some("div"), None, &[]).matches(&bare));
}

#[test]
fn element_id_and_class_list() {
    let div = element("div", &[("id", "main"), ("class", " wide\tdark  big\n")]);
    assert_eq!(div.id(), Some(&"main".to_string()));
    assert_eq!(div.class_list(), vec!["wide", "dark", "big"]);
    let bare = element("div", &[("class", "  ")]);
    assert_eq!(bare.id(), None);
    assert!(bare.class_list().is_empty());
    assert!(element("div", &[]).class_list().is_empty());
}

#[test]
fn specificity_counts_id_classes_and_tag() {
    let tag = selector(Some("div"), None, &[]).specificity();
    let class = selector(None, None, &["a"]).specificity();
    let classes = selector(None, None, &["a", "b"]).specificity();
    let id = selector(None, Some("x"), &[]).specificity();
    let tag_and_class = selector(Some("div"), None, &["a"]).specificity();
    let nothing = selector(None, None, &[]).specificity();
    assert_eq!(tag.cmp(&class).0, Ordering::Less);
    assert_eq!(class.cmp(&tag).0, Ordering::Greater);
    assert_eq!(class.cmp(&classes).0, Ordering::Less);
    assert_eq!(classes.cmp(&id).0, Ordering::Less);
    assert_eq!(id.cmp(&classes).0, Ordering::Greater);
    assert_eq!(class.cmp(&tag_and_class).0, Ordering::Less);
    assert_eq!(tag_and_class.cmp(&classes).0, Ordering::Less);
    assert_eq!(nothing.cmp(&tag).0, Ordering::Less);
    assert_eq!(tag.cmp(&tag).0, Ordering::Equal);
    assert_eq!(id.cmp(&selector(None, Some("y"), &[]).specificity()).0, Ordering::Equal);
    assert!(id.outweighs(&tag));
    assert!(!tag.outweighs(&id));
    assert!(!tag.outweighs(&tag));
}

#[test]
fn cmp_hands_the_comparator_back() {
    let tag = selector(Some("div"), None, &[]).specificity();
    let id = selector(None, Some("x"), &[]).specificity();
    let (_, other) = tag.cmp(&id);
    assert!(std::ptr::eq(other, &id));
}

fn shape(node: &StyledNode) -> String {
    let name = match &node.node_type {
        NodeType::Element(e) => e.tag_name.clone(),
        NodeType::Text(t) => format!("'{}'", t),
        NodeType::Comment(_) => "!".to_string(),
        NodeType::CData(_) => "[".to_string(),
        NodeType::DocType(_) => "?".to_string(),
    };
    let children: Vec<String> = node.children.iter().map(shape).collect();
    format!("{}:{}({})", name, node.specified_values.len(), children.join(","))
}

#[test]
fn styled_tree_keeps_shape_and_order() {
    let dom = root("<a><b>t</b><!--c--><c><d></d><b></b></c></a>");
    let rules = sheet("b { x: 1px; y: 2px; } d { z: 1px; }");
    let tree = apply_styling(&dom, &rules);
    assert_eq!(shape(&tree), "a:0(b:2('t':0()),!:0(),c:0(d:1(),b:2()))");
    assert_eq!(shape(&style_node(&dom, &rules.rules)), shape(&tree));
}

#[test]
fn nodes_that_are_not_elements_have_no_values() {
    let rules = sheet("a { x: 1px; }");
    for text in ["hello", "<!-- a -->", "<![CDATA[a]]>", "<!DOCTYPE a>"] {
        let tree = apply_styling(&root(text), &rules);
        assert_eq!(tree.specified_values.len(), 0);
        assert!(tree.children.is_empty());
    }
}

#[test]
fn styled_tree_with_an_empty_stylesheet_has_no_values() {
    let dom = root("<a id=\"x\"><b></b></a>");
    let tree = apply_styling(&dom, &sheet(""));
    assert_eq!(shape(&tree), "a:0(b:0())");
}
