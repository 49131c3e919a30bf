//! The markup parser: text in, a forest of nodes and a list of warnings out.
//!
//! A node that cannot be parsed is left out and a warning stands for it; the
//! parse itself never fails. Elements nest by recursion, so the parser goes as
//! deep as the text nests.
use crate::dom;
use crate::dom::{
    attributes_model, forest_model, lemma_forest_push, lemma_model_inserted, AttrMap, Node, Tree,
};
use crate::parser::html_grammar::{
    attribute_value_at, attributes_at, cdata_at, closing_tag_at, comment_at, doctype_at,
    element_at, enclosed_at, find_pattern, is_void_tag, missing_equals_message,
    missing_quote_message, node_at, nodes_at, parsed_nodes, parsed_warnings, quoted,
    quoted_list, reported, tag_at, tag_name_at, text_at, unmatched_message, yielded, TagHead,
};
use crate::parser::{
    advance, create, end_of_input_message, lemma_scan_bounds, lemma_until_ends, name_end,
    occurs_at, position_at, text_outcome, unit_outcome, warning_text, whitespace_end, word_end,
    Parser,
};
use crate::text::{ends_with_char, lemma_texts_push, same_text, texts};
use vstd::prelude::*;
use vstd::string::*;

verus! {

/// `r` is the node or the message that `expected` names.
pub open spec fn node_outcome(r: Result<Node, String>, expected: Result<Tree, Seq<char>>) -> bool {
    match (r, expected) {
        (Ok(node), Ok(tree)) => node.model() == tree,
        (Err(message), Err(text)) => message@ == text,
        _ => false,
    }
}

proof fn lemma_find_pattern(text: Seq<char>, from: int, to: int, pattern: Seq<char>)
    requires
        from <= to <= text.len(),
        forall|k: int| from <= k < to ==> !occurs_at(text, k, pattern),
        to == text.len() || occurs_at(text, to, pattern),
    ensures
        find_pattern(text, from, pattern) == to,
    decreases to - from,
{
    if from < to {
        lemma_find_pattern(text, from + 1, to, pattern);
    }
}

fn end_of_input() -> (message: String)
    ensures
        message@ == end_of_input_message(),
{
    String::from_str("Unexpected end of input")
}

/// Parses `html`. Returns its top-level nodes and adds to `warnings` one line
/// for each node that had to be left out.
pub fn parse(html: String, warnings: &mut Vec<String>) -> (nodes: Vec<Node>)
    ensures
        forest_model(nodes@) == parsed_nodes(html@),
        texts(final(warnings)@) == texts(old(warnings)@) + parsed_warnings(html@),
{
    let mut parser = HTMLParser { parser: create(html), stack: Vec::new() };
    proof {
        assert(texts(parser.stack@) =~= Seq::<Seq<char>>::empty());
    }
    parser.parse_nodes(warnings)
}

struct HTMLParser {
    parser: Parser,
    stack: Vec<String>,
}

impl HTMLParser {
    /// The parser stands at `index` of the same text, with the same ancestors.
    spec fn resumed(&self, before: &HTMLParser, index: int) -> bool {
        &&& self.parser.wf()
        &&& self.parser.text() == before.parser.text()
        &&& self.parser.index() == index
        &&& self.stack@ == before.stack@
    }

    /// The text that is being parsed.
    spec fn text(&self) -> Seq<char> {
        self.parser.text()
    }

    /// Where the parser stands.
    spec fn index(&self) -> int {
        self.parser.index()
    }

    fn parse_text(&mut self) -> (r: Result<Node, String>)
        requires
            old(self).parser.wf(),
        ensures
            final(self).resumed(old(self), text_at(old(self).text(), old(self).index()).index),
            node_outcome(r, text_at(old(self).text(), old(self).index()).result),
            old(self).index() <= final(self).index() <= old(self).text().len(),
    {
        proof {
            self.parser.lemma_index_in_text();
            lemma_until_ends(self.text(), self.index(), '<');
        }
        let content = self.parser.consume_until('<');
        Ok(dom::text(content))
    }

    /// Reads `opening`, then everything up to `closing`, then `closing`.
    fn consume_enclosed(&mut self, opening: &str, closing: &str) -> (r: Result<String, String>)
        requires
            old(self).parser.wf(),
            opening@.len() > 0,
            closing@.len() > 0,
        ensures
            final(self).resumed(
                old(self),
                enclosed_at(old(self).text(), old(self).index(), opening@, closing@).index,
            ),
            text_outcome(
                r,
                enclosed_at(old(self).text(), old(self).index(), opening@, closing@).value,
            ),
            final(self).index() <= old(self).text().len(),
            old(self).index() < old(self).text().len() ==> old(self).index() < final(self).index(),
    {
        proof {
            self.parser.lemma_index_in_text();
        }
        match self.parser.consume_expected_text(opening) {
            Err(e) => return Err(e),
            _ => {},
        }
        let first = closing.get_char(0);
        let ghost text = self.parser.text();
        let ghost start = self.parser.index();
        proof {
            self.parser.lemma_index_in_text();
        }
        let mut content = String::new();
        let mut done = false;
        while !done
            invariant
                self.parser.wf(),
                self.parser.text() == text,
                old(self).text() == text,
                self.stack@ == old(self).stack@,
                0 <= old(self).index() <= start <= self.parser.index() <= text.len(),
                old(self).index() < text.len() ==> old(self).index() < start,
                content@ == text.subrange(start, self.parser.index()),
                forall|k: int| start <= k < self.parser.index() ==> !occurs_at(text, k, closing@),
                done ==> self.parser.index() == text.len() || occurs_at(
                    text,
                    self.parser.index(),
                    closing@,
                ),
                closing@.len() > 0,
                first == closing@[0],
            decreases
                    text.len() - self.parser.index() + (if done {
                        0int
                    } else {
                        1int
                    }),
        {
            let ghost from = self.parser.index();
            let partial = self.parser.consume_until(first);
            content.append(partial.as_str());
            proof {
                lemma_until_ends(text, from, first);
                let to = self.parser.index();
                assert forall|k: int| from <= k < to implies !occurs_at(text, k, closing@) by {
                    if occurs_at(text, k, closing@) {
                        assert(text.subrange(k, k + closing@.len())[0] == closing@[0]);
                    }
                }
            }
            if self.parser.eof() || self.parser.starts_with(closing) {
                done = true;
            } else {
                match self.parser.consume_char() {
                    Ok(c) => {
                        content.push(c);
                    },
                    Err(_) => {
                        done = true;
                    },
                }
            }
        }
        proof {
            lemma_find_pattern(text, start, self.parser.index(), closing@);
        }
        match self.parser.consume_expected_text(closing) {
            Err(e) => return Err(e),
            _ => {},
        }
        Ok(content)
    }

    fn parse_comment(&mut self) -> (r: Result<Node, String>)
        requires
            old(self).parser.wf(),
        ensures
            final(self).resumed(old(self), comment_at(old(self).text(), old(self).index()).index),
            node_outcome(r, comment_at(old(self).text(), old(self).index()).result),
            final(self).index() <= old(self).text().len(),
            old(self).index() < old(self).text().len() ==> old(self).index() < final(self).index(),
    {
        proof {
            reveal_strlit("-->");
            reveal_strlit("<!--");
        }
        match self.consume_enclosed("<!--", "-->") {
            Ok(content) => Ok(dom::comment(content)),
            Err(e) => Err(e),
        }
    }

    fn parse_cdata(&mut self) -> (r: Result<Node, String>)
        requires
            old(self).parser.wf(),
        ensures
            final(self).resumed(old(self), cdata_at(old(self).text(), old(self).index()).index),
            node_outcome(r, cdata_at(old(self).text(), old(self).index()).result),
            final(self).index() <= old(self).text().len(),
            old(self).index() < old(self).text().len() ==> old(self).index() < final(self).index(),
    {
        proof {
            reveal_strlit("]]>");
            reveal_strlit("<![CDATA[");
        }
        match self.consume_enclosed("<![CDATA[", "]]>") {
            Ok(content) => Ok(dom::cdata(content)),
            Err(e) => Err(e),
        }
    }

    fn parse_doctype(&mut self) -> (r: Result<Node, String>)
        requires
            old(self).parser.wf(),
        ensures
            final(self).resumed(old(self), doctype_at(old(self).text(), old(self).index()).index),
            node_outcome(r, doctype_at(old(self).text(), old(self).index()).result),
            final(self).index() <= old(self).text().len(),
            old(self).index() < old(self).text().len() ==> old(self).index() < final(self).index(),
    {
        proof {
            self.parser.lemma_index_in_text();
            reveal_strlit("<!DOCTYPE");
            let after = advance(self.text(), self.index(), 9);
            lemma_scan_bounds(self.text(), after);
            lemma_scan_bounds(self.text(), whitespace_end(self.text(), after));
            lemma_scan_bounds(
                self.text(),
                word_end(self.text(), whitespace_end(self.text(), after)),
            );
        }
        match self.parser.consume_expected_text("<!DOCTYPE") {
            Err(e) => return Err(e),
            _ => {},
        }
        self.parser.consume_whitespace();
        let version = self.parser.consume_alphanumeric_word();
        self.parser.consume_whitespace();
        match self.parser.consume_expected_text(">") {
            Err(e) => return Err(e),
            _ => {},
        }
        Ok(dom::doctype(version))
    }

    fn parse_tag_name(&mut self) -> (name: String)
        requires
            old(self).parser.wf(),
        ensures
            final(self).resumed(old(self), tag_name_at(old(self).text(), old(self).index()).index),
            name@ == tag_name_at(old(self).text(), old(self).index()).value,
            final(self).parser.saved() == old(self).parser.saved(),
            old(self).index() <= final(self).index() <= old(self).text().len(),
    {
        proof {
            self.parser.lemma_index_in_text();
            lemma_scan_bounds(self.text(), self.index());
            lemma_scan_bounds(self.text(), whitespace_end(self.text(), self.index()));
        }
        self.parser.consume_whitespace();
        self.parser.consume_alphanumeric_word()
    }

    fn parse_attribute_name(&mut self) -> (name: String)
        requires
            old(self).parser.wf(),
        ensures
            final(self).resumed(
                old(self),
                name_end(old(self).text(), old(self).index()),
            ),
            name@ == old(self).text().subrange(old(self).index(), final(self).index()),
    {
        self.parser.consume_name()
    }

    fn parse_attribute_value(&mut self) -> (r: Result<String, String>)
        requires
            old(self).parser.wf(),
        ensures
            final(self).resumed(
                old(self),
                attribute_value_at(old(self).text(), old(self).index()).index,
            ),
            text_outcome(r, attribute_value_at(old(self).text(), old(self).index()).value),
            r is Ok ==> old(self).index() < final(self).index(),
    {
        proof {
            self.parser.lemma_index_in_text();
        }
        let first_char = match self.parser.consume_char() {
            Ok(c) => c,
            Err(_) => return Err(end_of_input()),
        };
        if first_char != '"' && first_char != '\'' {
            let mut message = String::from_str("Expected opening of attribute value but found: ");
            message.push(first_char);
            proof {
                assert(message@ =~= missing_quote_message(first_char));
            }
            return Err(message);
        }
        proof {
            lemma_until_ends(self.text(), self.index(), first_char);
        }
        let value = self.parser.consume_until(first_char);
        match self.parser.consume_char() {
            Ok(_) => Ok(value),
            Err(_) => Err(end_of_input()),
        }
    }

    fn parse_attributes(&mut self) -> (r: Result<AttrMap, String>)
        requires
            old(self).parser.wf(),
        ensures
            final(self).resumed(
                old(self),
                attributes_at(old(self).text(), old(self).index(), Seq::empty()).index,
            ),
            match (r, attributes_at(old(self).text(), old(self).index(), Seq::empty()).value) {
                (Ok(attrs), Ok(found)) => attributes_model(attrs) == found,
                (Err(message), Err(text)) => message@ == text,
                _ => false,
            },
            old(self).index() <= final(self).index() <= old(self).text().len(),
    {
        let mut attrs = AttrMap::new();
        let ghost text = self.text();
        let ghost total = attributes_at(text, self.index(), Seq::empty());
        proof {
            self.parser.lemma_index_in_text();
            assert(attributes_model(attrs) =~= Seq::<(Seq<char>, Seq<char>)>::empty());
        }
        loop
            invariant
                self.parser.wf(),
                self.text() == text,
                old(self).text() == text,
                self.stack@ == old(self).stack@,
                0 <= old(self).index() <= self.index() <= text.len(),
                total == attributes_at(text, old(self).index(), Seq::empty()),
                total == attributes_at(text, self.index(), attributes_model(attrs)),
            decreases text.len() - self.index(),
        {
            let ghost from = self.index();
            let ghost start = whitespace_end(text, from);
            proof {
                lemma_scan_bounds(text, from);
                lemma_scan_bounds(text, start);
            }
            self.parser.consume_whitespace();
            let c = match self.parser.next_char() {
                Ok(c) => c,
                Err(_) => return Err(end_of_input()),
            };
            if c == '>' || c == '/' {
                return Ok(attrs);
            }
            let name = self.parse_attribute_name();
            let next_char = match self.parser.consume_char() {
                Ok(c) => c,
                Err(_) => return Err(end_of_input()),
            };
            if next_char != '=' {
                let mut message = String::from_str(
                    "Unexpected char in attribute parsing Expected: = found: ",
                );
                message.push(next_char);
                return Err(message);
            }
            let value = match self.parse_attribute_value() {
                Ok(v) => v,
                Err(e) => return Err(e),
            };
            proof {
                lemma_model_inserted(attrs.entries(), name@, value);
            }
            attrs.insert(name, value);
        }
    }

    fn parse_tag(&mut self) -> (r: Result<(String, AttrMap, bool), String>)
        requires
            old(self).parser.wf(),
        ensures
            final(self).resumed(old(self), tag_at(old(self).text(), old(self).index()).index),
            match (r, tag_at(old(self).text(), old(self).index()).value) {
                (Ok(head), Ok(found)) => found == (TagHead {
                    tag_name: head.0@,
                    attributes: attributes_model(head.1),
                    self_closed: head.2,
                }),
                (Err(message), Err(text)) => message@ == text,
                _ => false,
            },
            old(self).index() <= final(self).index() <= old(self).text().len(),
    {
        let tag_name = self.parse_tag_name();
        let attributes = match self.parse_attributes() {
            Ok(atts) => atts,
            Err(e) => return Err(e),
        };
        proof {
            lemma_scan_bounds(self.text(), self.index());
            reveal_strlit("/");
        }
        self.parser.consume_whitespace();
        let has_closed_self = self.parser.starts_with("/");
        let ending_len: usize = if has_closed_self {
            2
        } else {
            1
        };
        let ending = self.parser.consume_next_n_chars(ending_len);
        if ends_with_char(ending.as_str(), '>') {
            Ok((tag_name, attributes, has_closed_self))
        } else {
            let mut message = String::from_str("Expected end of tag but found: ");
            message.append(ending.as_str());
            Err(message)
        }
    }

    fn is_self_closing(&self, tag_name: &str) -> (b: bool)
        ensures
            b == is_void_tag(tag_name@),
    {
        same_text(tag_name, "link") || same_text(tag_name, "meta")
    }

    /// The ancestors as they stand in a message: quoted, in brackets.
    fn stack_text(&self) -> (s: String)
        ensures
            s@ == seq!['['] + quoted_list(texts(self.stack@)) + seq![']'],
    {
        let mut s = String::new();
        s.push('[');
        let mut i: usize = 0;
        let ghost names = texts(self.stack@);
        while i < self.stack.len()
            invariant
                i <= self.stack.len(),
                names == texts(self.stack@),
                s@ == seq!['['] + quoted_list(names.subrange(0, i as int)),
            decreases self.stack.len() - i,
        {
            let ghost before = s@;
            if i > 0 {
                s.append(", ");
            }
            s.push('"');
            s.append(self.stack[i].as_str());
            s.push('"');
            i += 1;
            proof {
                let prefix = names.subrange(0, i as int);
                assert(prefix.drop_last() =~= names.subrange(0, i - 1));
                if i == 1 {
                    assert(quoted_list(names.subrange(0, 0)) =~= Seq::<char>::empty());
                } else {
                    assert(s@ =~= before + ", "@ + quoted(prefix.last()));
                }
            }
        }
        proof {
            assert(names.subrange(0, i as int) =~= names);
        }
        s.push(']');
        s
    }

    /// True when `name` is the tag of an open ancestor.
    fn on_stack(&self, name: &String) -> (b: bool)
        ensures
            b == texts(self.stack@).contains(name@),
    {
        let mut i: usize = 0;
        while i < self.stack.len()
            invariant
                i <= self.stack.len(),
                forall|k: int| 0 <= k < i ==> texts(self.stack@)[k] != name@,
            decreases self.stack.len() - i,
        {
            if self.stack[i] == *name {
                proof {
                    assert(texts(self.stack@)[i as int] == name@);
                }
                return true;
            }
            i += 1;
        }
        false
    }

    fn consume_closing_tag(&mut self, tag_name: &str) -> (r: Result<(), String>)
        requires
            old(self).parser.wf(),
        ensures
            final(self).resumed(
                old(self),
                closing_tag_at(
                    old(self).text(),
                    old(self).index(),
                    tag_name@,
                    texts(old(self).stack@),
                ).index,
            ),
            unit_outcome(
                r,
                closing_tag_at(
                    old(self).text(),
                    old(self).index(),
                    tag_name@,
                    texts(old(self).stack@),
                ).value,
            ),
            old(self).index() <= final(self).index() <= old(self).text().len(),
    {
        proof {
            self.parser.lemma_index_in_text();
        }
        self.parser.set_save_point();
        match self.parser.consume_expected_text("</") {
            Err(e) => return Err(e),
            _ => {},
        }
        let closing_tag_name = self.parse_tag_name();
        proof {
            lemma_scan_bounds(self.text(), self.index());
        }
        self.parser.consume_whitespace();
        match self.parser.consume_expected_text(">") {
            Err(e) => return Err(e),
            _ => {},
        }
        if same_text(closing_tag_name.as_str(), tag_name) {
            return Ok(());
        }
        if self.on_stack(&closing_tag_name) {
            self.parser.restore_from_save_point();
            return Ok(());
        }
        let mut message = String::from_str("Expected closing tag for: ");
        message.append(tag_name);
        message.append(" but found closing tag for: ");
        message.append(closing_tag_name.as_str());
        message.append(" which is not in the stack: ");
        let stack = self.stack_text();
        message.append(stack.as_str());
        proof {
            assert(message@ =~= unmatched_message(
                tag_name@,
                closing_tag_name@,
                texts(self.stack@),
            ));
        }
        Err(message)
    }

    fn parse_element(&mut self, warnings: &mut Vec<String>) -> (r: Result<Node, String>)
        requires
            old(self).parser.wf(),
            old(self).index() < old(self).text().len(),
        ensures
            final(self).resumed(
                old(self),
                element_at(old(self).text(), old(self).index(), texts(old(self).stack@)).index,
            ),
            node_outcome(
                r,
                element_at(old(self).text(), old(self).index(), texts(old(self).stack@)).result,
            ),
            texts(final(warnings)@) == texts(old(warnings)@) + element_at(
                old(self).text(),
                old(self).index(),
                texts(old(self).stack@),
            ).warnings,
            old(self).index() < final(self).index() <= old(self).text().len(),
        decreases old(self).text().len() - old(self).index(), 0int,
    {
        let ghost stack = texts(self.stack@);
        proof {
            reveal_strlit("<");
        }
        match self.parser.consume_expected_text("<") {
            Err(e) => return Err(e),
            _ => {},
        }
        let (tag_name, attributes, has_closed_self) = match self.parse_tag() {
            Ok((tag_name, attributes, self_closed)) => (tag_name, attributes, self_closed),
            Err(e) => return Err(e),
        };
        let closed = has_closed_self || self.is_self_closing(tag_name.as_str());
        let mut children: Vec<Node> = Vec::new();
        if !closed {
            let name = tag_name.clone();
            self.stack.push(name);
            proof {
                lemma_texts_push(old(self).stack@, name);
            }
            children = self.parse_nodes(warnings);
            self.stack.pop();
            proof {
                assert(self.stack@ =~= old(self).stack@);
            }
            match self.consume_closing_tag(tag_name.as_str()) {
                Err(e) => return Err(e),
                _ => {},
            }
        } else {
            proof {
                assert(forest_model(children@) =~= Seq::<Tree>::empty());
            }
        }
        Ok(dom::element(tag_name, attributes, children))
    }

    fn parse_node(&mut self, warnings: &mut Vec<String>) -> (r: Result<Node, String>)
        requires
            old(self).parser.wf(),
            old(self).index() < old(self).text().len(),
        ensures
            final(self).resumed(
                old(self),
                node_at(old(self).text(), old(self).index(), texts(old(self).stack@)).index,
            ),
            node_outcome(
                r,
                node_at(old(self).text(), old(self).index(), texts(old(self).stack@)).result,
            ),
            texts(final(warnings)@) == texts(old(warnings)@) + node_at(
                old(self).text(),
                old(self).index(),
                texts(old(self).stack@),
            ).warnings,
            old(self).index() < final(self).index() <= old(self).text().len(),
        decreases old(self).text().len() - old(self).index(), 1int,
    {
        proof {
            reveal_strlit("<!--");
            reveal_strlit("<![CDATA[");
            reveal_strlit("<!DOCTYPE");
            reveal_strlit("-->");
            reveal_strlit("]]>");
            reveal_strlit(">");
            lemma_scan_bounds(self.text(), self.index());
        }
        let c = match self.parser.next_char() {
            Ok(c) => c,
            Err(_) => return Err(end_of_input()),
        };
        if c == '<' {
            if self.parser.starts_with("<!--") {
                self.parse_comment()
            } else if self.parser.starts_with("<![CDATA[") {
                self.parse_cdata()
            } else if self.parser.starts_with("<!") {
                self.parse_doctype()
            } else {
                self.parse_element(warnings)
            }
        } else {
            proof {
                lemma_until_ends(self.text(), self.index() + 1, '<');
            }
            self.parse_text()
        }
    }

    fn parse_nodes(&mut self, warnings: &mut Vec<String>) -> (nodes: Vec<Node>)
        requires
            old(self).parser.wf(),
        ensures
            final(self).resumed(
                old(self),
                nodes_at(old(self).text(), old(self).index(), texts(old(self).stack@)).index,
            ),
            forest_model(nodes@) == nodes_at(
                old(self).text(),
                old(self).index(),
                texts(old(self).stack@),
            ).nodes,
            texts(final(warnings)@) == texts(old(warnings)@) + nodes_at(
                old(self).text(),
                old(self).index(),
                texts(old(self).stack@),
            ).warnings,
            old(self).index() <= final(self).index() <= old(self).text().len(),
        decreases old(self).text().len() - old(self).index(), 2int,
    {
        let mut nodes: Vec<Node> = Vec::new();
        let ghost text = self.text();
        let ghost stack = texts(self.stack@);
        let ghost total = nodes_at(text, self.index(), stack);
        let ghost earlier = texts(warnings@);
        proof {
            self.parser.lemma_index_in_text();
        }
        loop
            invariant
                self.parser.wf(),
                self.text() == text,
                old(self).text() == text,
                self.stack@ == old(self).stack@,
                stack == texts(self.stack@),
                0 <= old(self).index() <= self.index() <= text.len(),
                total == nodes_at(text, old(self).index(), stack),
                earlier == texts(old(warnings)@),
                total.nodes == forest_model(nodes@) + nodes_at(text, self.index(), stack).nodes,
                earlier + total.warnings == texts(warnings@) + nodes_at(
                    text,
                    self.index(),
                    stack,
                ).warnings,
                total.index == nodes_at(text, self.index(), stack).index,
            decreases text.len() - self.index(),
        {
            let ghost from = self.index();
            proof {
                lemma_scan_bounds(text, from);
            }
            self.parser.consume_whitespace();
            if self.parser.eof() || self.parser.starts_with("</") {
                return nodes;
            }
            match self.parse_node(warnings) {
                Ok(node) => {
                    proof {
                        lemma_forest_push(nodes@, node);
                    }
                    nodes.push(node);
                },
                Err(err) => {
                    let mut warning = self.parser.position().to_string();
                    warning.append(" - ");
                    warning.append(err.as_str());
                    proof {
                        lemma_texts_push(warnings@, warning);
                    }
                    warnings.push(warning);
                },
            }
        }
    }
}

} // verus!
