//! The stylesheet parser: text in, an ordered list of rules and a list of
//! warnings out.
//!
//! A declaration that cannot be parsed is left out and a warning stands for
//! it; the parse itself never fails.
use crate::cssom::{
    Declaration, Number, Rule, Selector, SelectorType, SimpleSelectorData, StyleSheet, Unit,
    Value,
};
use crate::parser::css_grammar::{
    declaration_at, declarations_at, length_at, number_at, parsed_rules, parsed_warnings,
    required, rule_at, rules_at, selector_message, selectors_at, simple_selector_at, unit_at,
    unit_message, value_at, value_message,
};
use crate::parser::{
    create, digits_end, lemma_scan_bounds, lemma_until_ends, name_end, position_at,
    unit_outcome, warning_text, whitespace_end, Parser,
};
use crate::text::{is_digit, lemma_texts_push, lemma_views_push, texts, views};
use vstd::prelude::*;
use vstd::string::*;

verus! {

/// Parses `css_text`. Returns its rules in source order and adds to `warnings`
/// one line for each thing that had to be left out or stepped over.
pub fn parse(css_text: String, warnings: &mut Vec<String>) -> (sheet: StyleSheet)
    ensures
        sheet@ == parsed_rules(css_text@),
        texts(final(warnings)@) == texts(old(warnings)@) + parsed_warnings(css_text@),
{
    let mut parser = CSSParser { parser: create(css_text) };
    StyleSheet { rules: parser.parse_rules(warnings) }
}

struct CSSParser {
    parser: Parser,
}

impl CSSParser {
    /// The parser stands at `index` of the same text.
    spec fn resumed(&self, before: &CSSParser, index: int) -> bool {
        &&& self.parser.wf()
        &&& self.parser.text() == before.parser.text()
        &&& self.parser.index() == index
    }

    /// The text that is being parsed.
    spec fn text(&self) -> Seq<char> {
        self.parser.text()
    }

    /// Where the parser stands.
    spec fn index(&self) -> int {
        self.parser.index()
    }

    /// Adds a warning with `message` for the place where the parser stands.
    fn warn(&self, warnings: &mut Vec<String>, message: &str)
        requires
            self.parser.wf(),
        ensures
            texts(final(warnings)@) == texts(old(warnings)@).push(
                warning_text(position_at(self.text(), self.index()), message@),
            ),
    {
        let mut warning = self.parser.position().to_string();
        warning.append(" - ");
        warning.append(message);
        proof {
            lemma_texts_push(warnings@, warning);
        }
        warnings.push(warning);
    }

    /// Reads `pattern`, or fails and stays.
    fn require(&mut self, pattern: &str) -> (r: Result<(), String>)
        requires
            old(self).parser.wf(),
        ensures
            final(self).resumed(
                old(self),
                required(old(self).text(), old(self).index(), pattern@).index,
            ),
            unit_outcome(r, required(old(self).text(), old(self).index(), pattern@).value),
    {
        proof {
            self.parser.lemma_index_in_text();
        }
        self.parser.set_save_point();
        match self.parser.consume_expected_text(pattern) {
            Ok(_) => Ok(()),
            Err(e) => {
                self.parser.restore_from_save_point();
                Err(e)
            },
        }
    }

    fn consume_identifier(&mut self) -> (name: String)
        requires
            old(self).parser.wf(),
        ensures
            final(self).resumed(old(self), name_end(old(self).text(), old(self).index())),
            name@ == old(self).text().subrange(old(self).index(), final(self).index()),
    {
        self.parser.consume_name()
    }

    fn consume_simple_selector(&mut self) -> (selector: SimpleSelectorData)
        requires
            old(self).parser.wf(),
        ensures
            final(self).resumed(
                old(self),
                simple_selector_at(old(self).text(), old(self).index()).index,
            ),
            selector@ == simple_selector_at(old(self).text(), old(self).index()).value,
    {
        let mut selector = SimpleSelectorData { tag_name: None, id: None, class: Vec::new() };
        proof {
            self.parser.lemma_index_in_text();
            assert(texts(selector.class@) =~= Seq::<Seq<char>>::empty());
        }
        match self.parser.next_char() {
            Ok('#') => {
                let _ = self.parser.consume_char();
                selector.id = Some(self.consume_identifier());
            },
            Ok('.') => {
                let _ = self.parser.consume_char();
                let name = self.consume_identifier();
                selector.class.push(name);
                proof {
                    assert(texts(selector.class@) =~= seq![name@]);
                }
            },
            _ => {
                selector.tag_name = Some(self.consume_identifier());
            },
        }
        selector
    }

    fn consume_selectors(&mut self, warnings: &mut Vec<String>) -> (selectors: Vec<Selector>)
        requires
            old(self).parser.wf(),
        ensures
            final(self).resumed(old(self), selectors_at(old(self).text(), old(self).index()).index),
            views(selectors@) == selectors_at(old(self).text(), old(self).index()).selectors,
            texts(final(warnings)@) == texts(old(warnings)@) + selectors_at(
                old(self).text(),
                old(self).index(),
            ).warnings,
            old(self).index() <= final(self).index() <= old(self).text().len(),
            selectors_at(old(self).text(), old(self).index()).opened ==> final(self).index() < old(
                self,
            ).text().len() && old(self).text()[final(self).index()] == '{',
            !selectors_at(old(self).text(), old(self).index()).opened ==> final(self).index() == old(
                self,
            ).text().len(),
    {
        let mut selectors: Vec<Selector> = Vec::new();
        let ghost text = self.text();
        let ghost total = selectors_at(text, self.index());
        let ghost earlier = texts(warnings@);
        proof {
            self.parser.lemma_index_in_text();
        }
        loop
            invariant
                self.parser.wf(),
                self.text() == text,
                old(self).text() == text,
                0 <= old(self).index() <= self.index() <= text.len(),
                total == selectors_at(text, old(self).index()),
                earlier == texts(old(warnings)@),
                total.selectors == views(selectors@) + selectors_at(text, self.index()).selectors,
                earlier + total.warnings == texts(warnings@) + selectors_at(
                    text,
                    self.index(),
                ).warnings,
                total.index == selectors_at(text, self.index()).index,
                total.opened == selectors_at(text, self.index()).opened,
            decreases text.len() - self.index(),
        {
            let ghost from = self.index();
            proof {
                lemma_scan_bounds(text, from);
                let start = whitespace_end(text, from);
                lemma_scan_bounds(text, start);
                if start < text.len() {
                    lemma_scan_bounds(text, start + 1);
                }
                let stop = simple_selector_at(text, start).index;
                lemma_scan_bounds(text, stop);
            }
            self.parser.consume_whitespace();
            let selector = Selector {
                selector_type: SelectorType::SimpleSelector(self.consume_simple_selector()),
            };
            proof {
                lemma_views_push(selectors@, selector);
            }
            selectors.push(selector);
            self.parser.consume_whitespace();
            match self.parser.next_char() {
                Ok(',') => {
                    let _ = self.parser.consume_char();
                },
                Ok('{') => {
                    return selectors;
                },
                Ok(c) => {
                    let mut message = String::from_str("Consuming selectors: ");
                    message.push(c);
                    proof {
                        assert(message@ =~= selector_message(c));
                    }
                    self.warn(warnings, message.as_str());
                    let _ = self.parser.consume_char();
                },
                Err(_) => {
                    self.warn(warnings, "Unexpected end of input");
                    return selectors;
                },
            }
        }
    }

    /// Reads a number: digits and, after a point, more digits.
    fn consume_number(&mut self) -> (r: Result<Number, String>)
        requires
            old(self).parser.wf(),
        ensures
            final(self).resumed(old(self), number_at(old(self).text(), old(self).index()).index),
            match (r, number_at(old(self).text(), old(self).index()).value) {
                (Ok(number), Ok(digits)) => number.whole@ == digits.0 && number.fraction@
                    == digits.1,
                (Err(message), Err(text)) => message@ == text,
                _ => false,
            },
            old(self).index() <= final(self).index() <= old(self).text().len(),
    {
        let ghost text = self.text();
        let ghost from = self.index();
        proof {
            self.parser.lemma_index_in_text();
            lemma_scan_bounds(text, from);
            if digits_end(text, from) < text.len() {
                lemma_scan_bounds(text, digits_end(text, from) + 1);
            }
        }
        let whole = self.parser.consume_digits();
        let mut written = whole.clone();
        let mut fraction = String::new();
        match self.parser.next_char() {
            Ok('.') => {
                let _ = self.parser.consume_char();
                written.push('.');
                fraction = self.parser.consume_digits();
                written.append(fraction.as_str());
                match self.parser.next_char() {
                    Ok('.') => {
                        let mut message = String::from_str("Consuming number: ");
                        message.append(written.as_str());
                        return Err(message);
                    },
                    _ => {},
                }
            },
            _ => {},
        }
        Ok(Number { whole, fraction })
    }

    fn consume_unit(&mut self) -> (r: Result<Unit, String>)
        requires
            old(self).parser.wf(),
        ensures
            final(self).resumed(old(self), unit_at(old(self).text(), old(self).index()).index),
            match (r, unit_at(old(self).text(), old(self).index()).value) {
                (Ok(unit), Ok(found)) => unit == found,
                (Err(message), Err(text)) => message@ == text,
                _ => false,
            },
            old(self).index() <= final(self).index() <= old(self).text().len(),
    {
        proof {
            self.parser.lemma_index_in_text();
            reveal_strlit("px");
        }
        let c = match self.parser.next_char() {
            Ok(c) => c,
            Err(_) => return Err(String::from_str("Unexpected end of input")),
        };
        if self.parser.starts_with("px") {
            let _ = self.parser.consume_next_n_chars(2);
            Ok(Unit::Px)
        } else {
            let mut message = String::from_str("Consuming unit: ");
            message.push(c);
            Err(message)
        }
    }

    fn consume_length(&mut self) -> (r: Result<Value, String>)
        requires
            old(self).parser.wf(),
        ensures
            final(self).resumed(old(self), length_at(old(self).text(), old(self).index()).index),
            match (r, length_at(old(self).text(), old(self).index()).value) {
                (Ok(value), Ok(found)) => value@ == found,
                (Err(message), Err(text)) => message@ == text,
                _ => false,
            },
            old(self).index() <= final(self).index() <= old(self).text().len(),
    {
        let amount = match self.consume_number() {
            Ok(amount) => amount,
            Err(e) => return Err(e),
        };
        let unit = match self.consume_unit() {
            Ok(unit) => unit,
            Err(e) => return Err(e),
        };
        Ok(Value::Length(amount, unit))
    }

    fn consume_value(&mut self) -> (r: Result<Value, String>)
        requires
            old(self).parser.wf(),
        ensures
            final(self).resumed(old(self), value_at(old(self).text(), old(self).index()).index),
            match (r, value_at(old(self).text(), old(self).index()).value) {
                (Ok(value), Ok(found)) => value@ == found,
                (Err(message), Err(text)) => message@ == text,
                _ => false,
            },
            old(self).index() <= final(self).index() <= old(self).text().len(),
    {
        proof {
            self.parser.lemma_index_in_text();
        }
        let c = match self.parser.next_char() {
            Ok(c) => c,
            Err(_) => return Err(String::from_str("Unexpected end of input")),
        };
        if is_digit(c) {
            self.consume_length()
        } else {
            let mut message = String::from_str("Consuming value: ");
            message.push(c);
            Err(message)
        }
    }

    fn consume_declaration(&mut self) -> (r: Result<Declaration, String>)
        requires
            old(self).parser.wf(),
        ensures
            final(self).resumed(
                old(self),
                declaration_at(old(self).text(), old(self).index()).index,
            ),
            match (r, declaration_at(old(self).text(), old(self).index()).value) {
                (Ok(declaration), Ok(found)) => declaration@ == found,
                (Err(message), Err(text)) => message@ == text,
                _ => false,
            },
            old(self).index() <= final(self).index() <= old(self).text().len(),
            r is Ok ==> old(self).index() < final(self).index(),
    {
        let ghost text = self.text();
        proof {
            self.parser.lemma_index_in_text();
            reveal_strlit(":");
            reveal_strlit(";");
            lemma_scan_bounds(text, self.index());
            lemma_scan_bounds(text, name_end(text, self.index()));
        }
        let name = self.consume_identifier();
        self.parser.consume_whitespace();
        match self.require(":") {
            Err(e) => return Err(e),
            _ => {},
        }
        proof {
            lemma_scan_bounds(text, self.index());
        }
        self.parser.consume_whitespace();
        let value = match self.consume_value() {
            Ok(value) => value,
            Err(e) => return Err(e),
        };
        proof {
            lemma_scan_bounds(text, self.index());
        }
        self.parser.consume_whitespace();
        match self.require(";") {
            Err(e) => return Err(e),
            _ => {},
        }
        Ok(Declaration { name, value })
    }

    /// Reads the declarations of a block, whose `{` has been read.
    fn consume_declarations(&mut self, warnings: &mut Vec<String>) -> (declarations: Vec<
        Declaration,
    >)
        requires
            old(self).parser.wf(),
        ensures
            final(self).resumed(
                old(self),
                declarations_at(old(self).text(), old(self).index()).index,
            ),
            views(declarations@) == declarations_at(old(self).text(), old(self).index()).items,
            texts(final(warnings)@) == texts(old(warnings)@) + declarations_at(
                old(self).text(),
                old(self).index(),
            ).warnings,
            old(self).index() <= final(self).index() <= old(self).text().len(),
    {
        let mut declarations: Vec<Declaration> = Vec::new();
        let ghost text = self.text();
        let ghost total = declarations_at(text, self.index());
        let ghost earlier = texts(warnings@);
        proof {
            self.parser.lemma_index_in_text();
        }
        loop
            invariant
                self.parser.wf(),
                self.text() == text,
                old(self).text() == text,
                0 <= old(self).index() <= self.index() <= text.len(),
                total == declarations_at(text, old(self).index()),
                earlier == texts(old(warnings)@),
                total.items == views(declarations@) + declarations_at(text, self.index()).items,
                earlier + total.warnings == texts(warnings@) + declarations_at(
                    text,
                    self.index(),
                ).warnings,
                total.index == declarations_at(text, self.index()).index,
            decreases text.len() - self.index(),
        {
            let ghost from = self.index();
            proof {
                lemma_scan_bounds(text, from);
            }
            self.parser.consume_whitespace();
            match self.parser.next_char() {
                Ok('}') => {
                    let _ = self.parser.consume_char();
                    return declarations;
                },
                Ok(_) => {},
                Err(_) => {
                    self.warn(warnings, "Unexpected end of input");
                    return declarations;
                },
            }
            match self.consume_declaration() {
                Ok(declaration) => {
                    proof {
                        lemma_views_push(declarations@, declaration);
                    }
                    declarations.push(declaration);
                },
                Err(e) => {
                    proof {
                        lemma_until_ends(text, self.index(), ';');
                    }
                    self.parser.consume_until_including(';');
                    let mut message = String::from_str("Skipping declaration - ");
                    message.append(e.as_str());
                    self.warn(warnings, message.as_str());
                },
            }
        }
    }

    fn consume_rule(&mut self, warnings: &mut Vec<String>) -> (rule: Rule)
        requires
            old(self).parser.wf(),
            old(self).index() < old(self).text().len(),
        ensures
            final(self).resumed(old(self), rule_at(old(self).text(), old(self).index()).index),
            rule@ == rule_at(old(self).text(), old(self).index()).rule,
            texts(final(warnings)@) == texts(old(warnings)@) + rule_at(
                old(self).text(),
                old(self).index(),
            ).warnings,
            old(self).index() < final(self).index() <= old(self).text().len(),
    {
        let selectors = self.consume_selectors(warnings);
        let mut declarations: Vec<Declaration> = Vec::new();
        match self.parser.next_char() {
            Ok(_) => {
                let _ = self.parser.consume_char();
                declarations = self.consume_declarations(warnings);
            },
            Err(_) => {
                proof {
                    assert(views(declarations@) =~= Seq::empty());
                }
            },
        }
        Rule { selectors, declarations }
    }

    fn parse_rules(&mut self, warnings: &mut Vec<String>) -> (rules: Vec<Rule>)
        requires
            old(self).parser.wf(),
        ensures
            views(rules@) == rules_at(old(self).text(), old(self).index()).items,
            texts(final(warnings)@) == texts(old(warnings)@) + rules_at(
                old(self).text(),
                old(self).index(),
            ).warnings,
    {
        let mut rules: Vec<Rule> = Vec::new();
        let ghost text = self.text();
        let ghost total = rules_at(text, self.index());
        let ghost earlier = texts(warnings@);
        proof {
            self.parser.lemma_index_in_text();
        }
        loop
            invariant
                self.parser.wf(),
                self.text() == text,
                0 <= self.index() <= text.len(),
                earlier == texts(old(warnings)@),
                total == rules_at(old(self).text(), old(self).index()),
                total.items == views(rules@) + rules_at(text, self.index()).items,
                earlier + total.warnings == texts(warnings@) + rules_at(
                    text,
                    self.index(),
                ).warnings,
            decreases text.len() - self.index(),
        {
            let ghost from = self.index();
            proof {
                lemma_scan_bounds(text, from);
            }
            self.parser.consume_whitespace();
            if self.parser.eof() {
                return rules;
            }
            let rule = self.consume_rule(warnings);
            proof {
                lemma_views_push(rules@, rule);
            }
            rules.push(rule);
        }
    }
}

} // verus!
