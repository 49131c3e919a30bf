//! A document: a tree, a stylesheet and the styled tree that the two give.
use crate::cssom::{Rule, RuleView, StyleSheet};
use crate::dom::Node;
use crate::parser::{css_grammar, css_parser, html_grammar, html_parser};
use crate::styling::{apply_styling, styled, StyledNode};
use crate::text::texts;
use vstd::prelude::*;
use vstd::string::*;

verus! {

/// A rule as `{:#?}` writes it.
pub uninterp spec fn rule_debug_text(rule: RuleView) -> Seq<char>;

/// `format!` with `{:#?}` on a rule: the pretty form of the derived `Debug`,
/// which is made of the rule's selectors and declarations and of nothing else.
#[verifier::external_body]
fn rule_debug(rule: &Rule) -> (s: String)
    ensures
        s@ == rule_debug_text(rule@),
{
    format!("{:#?}", rule)
}

/// The lines, each followed by a line break.
pub open spec fn lines_text(lines: Seq<Seq<char>>) -> Seq<char>
    decreases lines.len(),
{
    if lines.len() == 0 {
        Seq::empty()
    } else {
        lines_text(lines.drop_last()) + lines.last() + "\n"@
    }
}

/// The rules as `{:#?}` writes them, in order.
pub open spec fn rules_debug_texts(rules: Seq<RuleView>) -> Seq<Seq<char>> {
    Seq::new(rules.len(), |i: int| rule_debug_text(rules[i]))
}

/// The root of a parsed text, its stylesheet, the styled tree, and the
/// warnings that parsing gave.
#[derive(Debug)]
pub struct Document {
    pub dom: Node,
    pub style_tree: StyledNode,
    pub style_sheet: StyleSheet,
    pub warnings: Vec<String>,
}

/// Parses the two sources and styles the first node of the markup with the
/// stylesheet. Returns nothing where the markup holds no node. The warnings of
/// the markup come before those of the stylesheet.
pub fn create_document(html_source: String, css_source: String) -> (r: Option<Document>)
    ensures
        r is None <==> html_grammar::parsed_nodes(html_source@).len() == 0,
        match r {
            Some(document) => {
                &&& document.dom.model() == html_grammar::parsed_nodes(html_source@)[0]
                &&& document.style_sheet@ == css_grammar::parsed_rules(css_source@)
                &&& document.style_tree.model() == styled(
                    document.dom.model(),
                    document.style_sheet@,
                )
                &&& texts(document.warnings@) == html_grammar::parsed_warnings(html_source@)
                    + css_grammar::parsed_warnings(css_source@)
            },
            None => true,
        },
{
    let mut warnings: Vec<String> = Vec::new();
    let mut nodes = html_parser::parse(html_source, &mut warnings);
    let style_sheet = css_parser::parse(css_source, &mut warnings);
    if nodes.len() == 0 {
        return None;
    }
    let dom = nodes.remove(0);
    let style_tree = apply_styling(&dom, &style_sheet);
    Some(Document { dom, style_tree, style_sheet, warnings })
}

impl Document {
    /// Styles the tree again, after the tree or the stylesheet has changed.
    pub fn on_document_changed(&mut self)
        ensures
            final(self).style_tree.model() == styled(
                old(self).dom.model(),
                old(self).style_sheet@,
            ),
            final(self).dom == old(self).dom,
            final(self).style_sheet == old(self).style_sheet,
            final(self).warnings == old(self).warnings,
    {
        self.style_tree = apply_styling(&self.dom, &self.style_sheet);
    }

    /// The tree, one node on each line, children indented under their parent.
    pub fn dump_dom_tree(&self) -> (output: String)
        ensures
            output@ == self.dom.printed(0),
    {
        self.dom.pretty_print(0)
    }

    /// The rules in source order, each as `{:#?}` writes it, each followed by a
    /// line break.
    pub fn dump_styles(&self) -> (output: String)
        ensures
            output@ == lines_text(rules_debug_texts(self.style_sheet@)),
    {
        let mut output = String::new();
        let ghost lines = rules_debug_texts(self.style_sheet@);
        let mut i: usize = 0;
        while i < self.style_sheet.rules.len()
            invariant
                i <= self.style_sheet.rules.len(),
                lines == rules_debug_texts(self.style_sheet@),
                output@ == lines_text(lines.subrange(0, i as int)),
            decreases self.style_sheet.rules.len() - i,
        {
            let line = rule_debug(&self.style_sheet.rules[i]);
            output.append(line.as_str());
            output.append("\n");
            i += 1;
            proof {
                let shown = lines.subrange(0, i as int);
                assert(shown.drop_last() =~= lines.subrange(0, i - 1));
            }
        }
        proof {
            assert(lines.subrange(0, i as int) =~= lines);
        }
        output
    }

    /// The warnings, each followed by a line break.
    pub fn dump_warnings(&self) -> (output: String)
        ensures
            output@ == lines_text(texts(self.warnings@)),
    {
        let mut output = String::new();
        let ghost lines = texts(self.warnings@);
        let mut i: usize = 0;
        while i < self.warnings.len()
            invariant
                i <= self.warnings.len(),
                lines == texts(self.warnings@),
                output@ == lines_text(lines.subrange(0, i as int)),
            decreases self.warnings.len() - i,
        {
            output.append(self.warnings[i].as_str());
            output.append("\n");
            i += 1;
            proof {
                let shown = lines.subrange(0, i as int);
                assert(shown.drop_last() =~= lines.subrange(0, i - 1));
            }
        }
        proof {
            assert(lines.subrange(0, i as int) =~= lines);
        }
        output
    }
}

} // verus!
