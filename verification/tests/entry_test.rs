use xoof::document::create_document;
use xoof::entry::{choose_action, error_text, report, usage_brief, Action};

fn some(text: &str) -> Option<String> {
    Some(text.to_string())
}

#[test]
fn failure_to_read_the_arguments_comes_first() {
    match choose_action(some("Unrecognized option: 'x'"), true, some("a"), some("b")) {
        Action::Error(message) => assert_eq!(message, "Unrecognized option: 'x'"),
        other => panic!("{:?}", other),
    }
}

#[test]
fn help_comes_before_the_paths() {
    assert!(matches!(choose_action(None, true, None, None), Action::Usage));
    assert!(matches!(choose_action(None, true, some("a"), some("b")), Action::Usage));
}

#[test]
fn missing_paths_are_errors() {
    match choose_action(None, false, None, some("b")) {
        Action::Error(message) => assert_eq!(message, "Missing html file path"),
        other => panic!("{:?}", other),
    }
    match choose_action(None, false, None, None) {
        Action::Error(message) => assert_eq!(message, "Missing html file path"),
        other => panic!("{:?}", other),
    }
    match choose_action(None, false, some("a"), None) {
        Action::Error(message) => assert_eq!(message, "Missing css file path"),
        other => panic!("{:?}", other),
    }
}

#[test]
fn two_paths_run_the_program() {
    match choose_action(None, false, some("a.html"), some("b.css")) {
        Action::Run { html_file_path, css_file_path } => {
            assert_eq!(html_file_path, "a.html");
            assert_eq!(css_file_path, "b.css");
        }
        other => panic!("{:?}", other),
    }
}

#[test]
fn usage_and_error_texts() {
    assert_eq!(usage_brief("xoof"), "Usage: xoof [options]");
    assert_eq!(error_text("bad"), "Error: bad\nYou can pass --help for more info\n");
}

#[test]
fn report_has_three_parts() {
    let document =
        create_document("<a><b></b></a><c>".to_string(), "a { x: 1px; }".to_string()).unwrap();
    let expected = format!(
        "DOM Tree:\na {{}}\n b {{}}\n\nCSS:\n{:#?}\nWarnings:\n1:17 (17) - Expected: </ Found: \n",
        document.style_sheet.rules[0]
    );
    assert_eq!(report(&document), expected);
}
