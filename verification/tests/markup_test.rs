use xoof::dom::{Node, NodeType};
use xoof::parser::html_parser::parse;

fn parse_all(text: &str) -> (Vec<Node>, Vec<String>) {
    let mut warnings = vec![];
    let nodes = parse(text.to_string(), &mut warnings);
    (nodes, warnings)
}

fn tag_of(node: &Node) -> &str {
    match &node.node_type {
        NodeType::Element(e) => e.tag_name.as_str(),
        _ => panic!("not an element"),
    }
}

fn text_of(node: &Node) -> &str {
    match &node.node_type {
        NodeType::Text(t) => t.as_str(),
        _ => panic!("not a text"),
    }
}

#[test]
fn one_element_without_children() {
    let (nodes, warnings) = parse_all("<tag></tag>");
    assert!(warnings.is_empty());
    assert_eq!(nodes.len(), 1);
    assert_eq!(tag_of(&nodes[0]), "tag");
    assert!(nodes[0].children.is_empty());
}

#[test]
fn element_in_element() {
    let (nodes, warnings) = parse_all("<a><b></b></a>");
    assert!(warnings.is_empty());
    assert_eq!(nodes.len(), 1);
    assert_eq!(tag_of(&nodes[0]), "a");
    assert_eq!(nodes[0].children.len(), 1);
    assert_eq!(tag_of(&nodes[0].children[0]), "b");
    assert!(nodes[0].children[0].children.is_empty());
}

#[test]
fn attribute_and_text_child() {
    let (nodes, warnings) = parse_all("<h1 id=\"title\">Hi</h1>");
    assert!(warnings.is_empty());
    assert_eq!(nodes.len(), 1);
    match &nodes[0].node_type {
        NodeType::Element(e) => {
            assert_eq!(e.tag_name, "h1");
            assert_eq!(e.attributes.len(), 1);
            assert_eq!(e.attributes.get("id"), Some(&"title".to_string()));
            assert_eq!(e.attributes.get("class"), None);
        }
        _ => panic!("not an element"),
    }
    assert_eq!(nodes[0].children.len(), 1);
    assert_eq!(text_of(&nodes[0].children[0]), "Hi");
}

#[test]
fn doctype_then_root() {
    let (nodes, warnings) = parse_all("<!DOCTYPE html><html></html>");
    assert!(warnings.is_empty());
    assert_eq!(nodes.len(), 2);
    match &nodes[0].node_type {
        NodeType::DocType(d) => assert_eq!(d.version, "html"),
        _ => panic!("not a doctype"),
    }
    assert_eq!(tag_of(&nodes[1]), "html");
}

#[test]
fn closing_tag_of_the_parent_closes_the_child() {
    let (nodes, warnings) = parse_all("<ul><li>Hello</ul>");
    assert!(warnings.is_empty());
    assert_eq!(nodes.len(), 1);
    assert_eq!(tag_of(&nodes[0]), "ul");
    assert_eq!(nodes[0].children.len(), 1);
    let li = &nodes[0].children[0];
    assert_eq!(tag_of(li), "li");
    assert_eq!(li.children.len(), 1);
    assert_eq!(text_of(&li.children[0]), "Hello");
}

#[test]
fn closing_tag_of_a_grandparent_closes_two_levels() {
    let (nodes, warnings) = parse_all("<a><b><c>x</a><d></d>");
    assert!(warnings.is_empty());
    assert_eq!(nodes.len(), 2);
    assert_eq!(tag_of(&nodes[0].children[0].children[0]), "c");
    assert_eq!(tag_of(&nodes[1]), "d");
}

#[test]
fn void_elements_are_siblings() {
    let (nodes, warnings) = parse_all("<meta><link>");
    assert!(warnings.is_empty());
    assert_eq!(nodes.len(), 2);
    assert_eq!(tag_of(&nodes[0]), "meta");
    assert_eq!(tag_of(&nodes[1]), "link");
    assert!(nodes[0].children.is_empty());
    assert!(nodes[1].children.is_empty());
}

#[test]
fn attributes_in_either_quote_and_repeated_names() {
    let (nodes, warnings) = parse_all("<a x='1' data-y=\"it's\" x=\"2\" />");
    assert!(warnings.is_empty());
    match &nodes[0].node_type {
        NodeType::Element(e) => {
            assert_eq!(e.attributes.len(), 2);
            assert_eq!(e.attributes.get("x"), Some(&"2".to_string()));
            assert_eq!(e.attributes.get("data-y"), Some(&"it's".to_string()));
        }
        _ => panic!("not an element"),
    }
}

#[test]
fn empty_and_blank_texts_hold_no_node() {
    for text in ["", " ", "\n\t  "] {
        let (nodes, warnings) = parse_all(text);
        assert!(nodes.is_empty());
        assert!(warnings.is_empty());
    }
}

#[test]
fn text_outside_elements_is_a_node() {
    let (nodes, warnings) = parse_all("  hello <b></b> you ");
    assert!(warnings.is_empty());
    assert_eq!(nodes.len(), 3);
    assert_eq!(text_of(&nodes[0]), "hello ");
    assert_eq!(tag_of(&nodes[1]), "b");
    assert_eq!(text_of(&nodes[2]), "you ");
}

#[test]
fn closing_tag_at_the_top_ends_the_parse() {
    let (nodes, warnings) = parse_all("<a></a></b><c></c>");
    assert!(warnings.is_empty());
    assert_eq!(nodes.len(), 1);
}

#[test]
fn missing_closing_tag_drops_the_element() {
    let (nodes, warnings) = parse_all("<a>");
    assert!(nodes.is_empty());
    assert_eq!(warnings, vec!["1:3 (3) - Expected: </ Found: ".to_string()]);
}

#[test]
fn closing_tag_that_is_not_on_the_stack_drops_the_element() {
    let (nodes, warnings) = parse_all("<a><b></c></a>");
    assert_eq!(
        warnings,
        vec!["1:10 (10) - Expected closing tag for: b but found closing tag for: c which is not in the stack: [\"a\"]".to_string()]
    );
    assert_eq!(nodes.len(), 1);
    assert_eq!(tag_of(&nodes[0]), "a");
    assert!(nodes[0].children.is_empty());
}

#[test]
fn unmatched_closing_tag_names_the_whole_stack() {
    let (nodes, warnings) = parse_all("<a><b><c></x></b></a>");
    assert_eq!(
        warnings,
        vec!["1:13 (13) - Expected closing tag for: c but found closing tag for: x which is not in the stack: [\"a\", \"b\"]".to_string()]
    );
    assert_eq!(nodes.len(), 1);
    assert_eq!(nodes[0].children.len(), 1);
    assert!(nodes[0].children[0].children.is_empty());
    let (_, warnings) = parse_all("<a></b>");
    assert_eq!(
        warnings,
        vec!["1:7 (7) - Expected closing tag for: a but found closing tag for: b which is not in the stack: []".to_string()]
    );
}

#[test]
fn attribute_without_equals_is_a_warning() {
    let (nodes, warnings) = parse_all("<a b>");
    assert!(nodes.is_empty());
    assert_eq!(
        warnings,
        vec!["1:5 (5) - Unexpected char in attribute parsing Expected: = found: >".to_string()]
    );
}

#[test]
fn attribute_value_without_quote_is_a_warning() {
    let (nodes, warnings) = parse_all("<a b=c></a>");
    assert_eq!(
        warnings,
        vec!["1:6 (6) - Expected opening of attribute value but found: c".to_string()]
    );
    assert_eq!(nodes.len(), 1);
    assert_eq!(text_of(&nodes[0]), ">");
}

#[test]
fn unterminated_attribute_value_is_a_warning() {
    let (nodes, warnings) = parse_all("<a b=\"c");
    assert!(nodes.is_empty());
    assert_eq!(warnings, vec!["1:7 (7) - Unexpected end of input".to_string()]);
}

#[test]
fn tag_cut_short_by_the_end_is_a_warning() {
    for (text, warning) in [
        ("<a", "1:2 (2) - Unexpected end of input"),
        ("<", "1:1 (1) - Unexpected end of input"),
        ("<a b", "1:4 (4) - Unexpected end of input"),
        ("<a b=", "1:5 (5) - Unexpected end of input"),
    ] {
        let (nodes, warnings) = parse_all(text);
        assert!(nodes.is_empty());
        assert_eq!(warnings, vec![warning.to_string()]);
    }
}

#[test]
fn malformed_tag_end_is_a_warning() {
    let (nodes, warnings) = parse_all("<a /x>");
    assert_eq!(warnings, vec!["1:5 (5) - Expected end of tag but found: /x".to_string()]);
    assert_eq!(nodes.len(), 1);
    assert_eq!(text_of(&nodes[0]), ">");
}

#[test]
fn unterminated_comment_and_cdata_are_warnings() {
    let (nodes, warnings) = parse_all("<!-- x");
    assert!(nodes.is_empty());
    assert_eq!(warnings, vec!["1:6 (6) - Expected: --> Found: ".to_string()]);
    let (nodes, warnings) = parse_all("<![CDATA[ x ]]");
    assert!(nodes.is_empty());
    assert_eq!(warnings, vec!["1:14 (14) - Expected: ]]> Found: ".to_string()]);
}

#[test]
fn comment_and_cdata_may_hold_their_own_closing_characters() {
    let (nodes, warnings) = parse_all("<!----><!-- a--b -- -> --><![CDATA[]]]]>");
    assert!(warnings.is_empty());
    assert_eq!(nodes.len(), 3);
    match &nodes[0].node_type {
        NodeType::Comment(c) => assert_eq!(c, ""),
        _ => panic!("not a comment"),
    }
    match &nodes[1].node_type {
        NodeType::Comment(c) => assert_eq!(c, " a--b -- -> "),
        _ => panic!("not a comment"),
    }
    match &nodes[2].node_type {
        NodeType::CData(c) => assert_eq!(c, "]]"),
        _ => panic!("not character data"),
    }
}

#[test]
fn doctype_in_lower_case_is_a_warning() {
    let (nodes, warnings) = parse_all("<!doctype html>");
    assert_eq!(warnings, vec!["1:9 (9) - Expected: <!DOCTYPE Found: <!doctype".to_string()]);
    assert_eq!(nodes.len(), 1);
    assert_eq!(text_of(&nodes[0]), "html>");
}

#[test]
fn doctype_without_end_is_a_warning() {
    let (nodes, warnings) = parse_all("<!DOCTYPE html");
    assert!(nodes.is_empty());
    assert_eq!(warnings, vec!["1:14 (14) - Expected: > Found: ".to_string()]);
}

#[test]
fn warnings_of_children_come_before_the_warning_of_the_parent() {
    let (nodes, warnings) = parse_all("<a>\n<b");
    assert!(nodes.is_empty());
    assert_eq!(
        warnings,
        vec![
            "2:2 (6) - Unexpected end of input".to_string(),
            "2:2 (6) - Expected: </ Found: ".to_string(),
        ]
    );
}

#[test]
fn parsing_goes_on_after_a_warning() {
    let (nodes, warnings) = parse_all("<a b><c></c><d></d>");
    assert_eq!(warnings.len(), 1);
    assert_eq!(nodes.len(), 2);
    assert_eq!(tag_of(&nodes[0]), "c");
    assert_eq!(tag_of(&nodes[1]), "d");
}

#[test]
fn markup_warnings_are_added_behind_those_already_there() {
    let mut warnings = vec!["earlier".to_string()];
    let _ = parse("<a>".to_string(), &mut warnings);
    assert_eq!(warnings.len(), 2);
    assert_eq!(warnings[0], "earlier");
}

#[test]
fn position_in_a_warning_counts_bytes() {
    let (_, warnings) = parse_all("<ä>é</b>");
    assert_eq!(warnings.len(), 1);
    assert!(warnings[0].starts_with("1:"));
    let (_, warnings) = parse_all("é<a b>");
    assert_eq!(
        warnings,
        vec!["1:7 (7) - Unexpected char in attribute parsing Expected: = found: >".to_string()]
    );
}

#[test]
fn markup_parser_ends_on_odd_inputs() {
    let inputs = [
        "<", ">", "<<", "<>", "</", "</>", "<a", "<a ", "<a/", "<a/>", "<a//>", "<!", "<!-", "<!--",
        "<!-->", "<![", "<![CDATA[", "<!D", "<a b=", "<a b='", "<a b=''", "<a =>", "<a =''>",
        "<a><a><a><a>", "</a></a>", "<a></b></a>", "<link></link>", "<é>", "<a>\u{0}</a>",
        "<a\n\n\n>", "<<<<>>>>", "<a b='<c>'>", "a<b", "<-><->", "< a></a>", "<a></ a >",
    ];
    for input in inputs {
        let (nodes, warnings) = parse_all(input);
        assert!(nodes.len() <= input.len());
        assert!(warnings.len() <= 2 * input.len());
    }
}

#[test]
fn deep_nesting_is_followed_to_the_bottom() {
    let depth = 200;
    let text = "<a>".repeat(depth) + &"</a>".repeat(depth);
    let (nodes, warnings) = parse_all(&text);
    assert!(warnings.is_empty());
    let mut node = &nodes[0];
    let mut seen = 1;
    while !node.children.is_empty() {
        node = &node.children[0];
        seen += 1;
    }
    assert_eq!(seen, depth);
}

#[test]
fn whole_document_parses_without_warnings() {
    let text = "<!DOCTYPE html>
<html lang=\"en\">
  <head>
    <meta charset=\"utf-8\">
    <link rel=\"stylesheet\" href='style.css'>
    <title>Example</title>
    <!-- a comment - with dashes -->
  </head>
  <body class=\"wide dark\">
    <h1 id=\"title\">Hello, world</h1>
    <ul>
      <li>One
      <li>Two
    </ul>
    <p>Text with <b>bold</b> and <i>italic</i> words.</p>
    <![CDATA[ <not> a tag ]]>
    <div data-x=\"1\" />
  </body>
</html>
";
    let (nodes, warnings) = parse_all(text);
    assert_eq!(warnings, Vec::<String>::new());
    assert_eq!(nodes.len(), 2);
    let html = &nodes[1];
    assert_eq!(tag_of(html), "html");
    assert_eq!(html.children.len(), 2);
    let head = &html.children[0];
    assert_eq!(head.children.len(), 4);
    assert_eq!(tag_of(&head.children[0]), "meta");
    assert_eq!(tag_of(&head.children[1]), "link");
    assert_eq!(tag_of(&head.children[2]), "title");
    let body = &html.children[1];
    assert_eq!(body.children.len(), 5);
    let list = &body.children[1];
    assert_eq!(tag_of(list), "ul");
    assert_eq!(list.children.len(), 1);
    assert_eq!(tag_of(&list.children[0]), "li");
    assert_eq!(list.children[0].children.len(), 2);
    assert_eq!(tag_of(&list.children[0].children[1]), "li");
    let paragraph = &body.children[2];
    assert_eq!(paragraph.children.len(), 5);
    assert_eq!(text_of(&paragraph.children[0]), "Text with ");
    assert_eq!(
        list.to_string(),
        "ul {}\n li {}\n  Text {One\n      }\n  li {}\n   Text {Two\n    }\n"
    );
}
