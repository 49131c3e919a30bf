//! What the command line program decides and prints, apart from reading its
//! arguments and its files.
use crate::document::{lines_text, rules_debug_texts, Document};
use crate::text::texts;
use vstd::prelude::*;
use vstd::string::*;

verus! {

/// What the program does with its arguments.
#[derive(Debug)]
pub enum Action {
    /// Print how the program is used.
    Usage,
    /// Print an error and stop.
    Error(String),
    /// Read the two files and print the document.
    Run { html_file_path: String, css_file_path: String },
}

/// An action as plain text.
pub ghost enum ActionView {
    Usage,
    Error(Seq<char>),
    Run { html_file_path: Seq<char>, css_file_path: Seq<char> },
}

impl View for Action {
    type V = ActionView;

    open spec fn view(&self) -> ActionView {
        match *self {
            Action::Usage => ActionView::Usage,
            Action::Error(message) => ActionView::Error(message@),
            Action::Run { html_file_path, css_file_path } => ActionView::Run {
                html_file_path: html_file_path@,
                css_file_path: css_file_path@,
            },
        }
    }
}

/// The action for these arguments: a failure to read them comes first, then a
/// call for help, then a missing path, the markup's before the stylesheet's.
pub open spec fn chosen_action(
    failure: Option<Seq<char>>,
    help: bool,
    html: Option<Seq<char>>,
    css: Option<Seq<char>>,
) -> ActionView {
    if failure is Some {
        ActionView::Error(failure->0)
    } else if help {
        ActionView::Usage
    } else if html is None {
        ActionView::Error("Missing html file path"@)
    } else if css is None {
        ActionView::Error("Missing css file path"@)
    } else {
        ActionView::Run { html_file_path: html->0, css_file_path: css->0 }
    }
}

/// The characters of an optional string.
pub open spec fn optional_text(s: Option<String>) -> Option<Seq<char>> {
    match s {
        Some(s) => Some(s@),
        None => None,
    }
}

/// Decides what to do: `failure` is why the arguments could not be read, `help`
/// whether help was asked for, `html` and `css` the two paths given.
pub fn choose_action(
    failure: Option<String>,
    help: bool,
    html: Option<String>,
    css: Option<String>,
) -> (action: Action)
    ensures
        action@ == chosen_action(
            optional_text(failure),
            help,
            optional_text(html),
            optional_text(css),
        ),
{
    match failure {
        Some(message) => return Action::Error(message),
        None => {},
    }
    if help {
        return Action::Usage;
    }
    let html_file_path = match html {
        Some(p) => p,
        None => return Action::Error(String::from_str("Missing html file path")),
    };
    let css_file_path = match css {
        Some(p) => p,
        None => return Action::Error(String::from_str("Missing css file path")),
    };
    Action::Run { html_file_path, css_file_path }
}

/// The first line of the usage text.
pub fn usage_brief(program: &str) -> (brief: String)
    ensures
        brief@ == "Usage: "@ + program@ + " [options]"@,
{
    let mut brief = String::from_str("Usage: ");
    brief.append(program);
    brief.append(" [options]");
    brief
}

/// The two lines that report an error.
pub fn error_text(error: &str) -> (output: String)
    ensures
        output@ == "Error: "@ + error@ + "\nYou can pass --help for more info\n"@,
{
    let mut output = String::from_str("Error: ");
    output.append(error);
    output.append("\nYou can pass --help for more info\n");
    output
}

/// What the program prints of a document: the tree, the rules and the
/// warnings, each under its heading.
pub fn report(document: &Document) -> (output: String)
    ensures
        output@ == "DOM Tree:\n"@ + document.dom.printed(0) + "\nCSS:\n"@ + lines_text(
            rules_debug_texts(document.style_sheet@),
        ) + "Warnings:\n"@ + lines_text(texts(document.warnings@)),
{
    let mut output = String::from_str("DOM Tree:\n");
    let tree = document.dump_dom_tree();
    output.append(tree.as_str());
    output.append("\nCSS:\n");
    let styles = document.dump_styles();
    output.append(styles.as_str());
    output.append("Warnings:\n");
    let warnings = document.dump_warnings();
    output.append(warnings.as_str());
    output
}

} // verus!
