//! What the stylesheet parser computes, as functions of the text and of the
//! index at which a construct starts.
use crate::cssom::{
    class_selector, id_selector, tag_selector, DeclarationView, RuleView, SelectorView, Unit,
    ValueView,
};
use crate::parser::{
    advance, digits_end, end_of_input_message, expected_message, lemma_scan_bounds,
    lemma_scan_while, lemma_until_ends, lemma_until_skips, name_end, occurs_at, position_at,
    until, warning_text, whitespace_end, Scan,
};
use crate::text::{is_digit_char, is_name_char, is_whitespace_char};
use vstd::prelude::*;

verus! {

/// A run of items, the warnings given on the way, and the index where the run
/// ended.
pub ghost struct Listed<T> {
    pub items: Seq<T>,
    pub warnings: Seq<Seq<char>>,
    pub index: int,
}

/// The selectors of a rule, the warnings given on the way, the index where
/// they ended, and whether they ended at the `{` of a block.
pub ghost struct SelectorsStep {
    pub selectors: Seq<SelectorView>,
    pub warnings: Seq<Seq<char>>,
    pub index: int,
    pub opened: bool,
}

/// A rule, the warnings given on the way, and the index where it ended.
pub ghost struct RuleStep {
    pub rule: RuleView,
    pub warnings: Seq<Seq<char>>,
    pub index: int,
}

/// The message for a character that stands where `,` or `{` should.
pub open spec fn selector_message(found: char) -> Seq<char> {
    "Consuming selectors: "@ + seq![found]
}

/// The message for a character that cannot start a value.
pub open spec fn value_message(found: char) -> Seq<char> {
    "Consuming value: "@ + seq![found]
}

/// The message for a number with a second point.
pub open spec fn number_message(found: Seq<char>) -> Seq<char> {
    "Consuming number: "@ + found
}

/// The message for a character that cannot start a unit.
pub open spec fn unit_message(found: char) -> Seq<char> {
    "Consuming unit: "@ + seq![found]
}

/// The message of the warning for a declaration that was left out.
pub open spec fn skipped_message(reason: Seq<char>) -> Seq<char> {
    "Skipping declaration - "@ + reason
}

/// One selector: `#` and a name for an id, `.` and a name for a class, a name
/// alone for a tag.
pub open spec fn simple_selector_at(text: Seq<char>, index: int) -> Scan<SelectorView> {
    if 0 <= index < text.len() && text[index] == '#' {
        let end = name_end(text, index + 1);
        Scan { value: id_selector(text.subrange(index + 1, end)), index: end }
    } else if 0 <= index < text.len() && text[index] == '.' {
        let end = name_end(text, index + 1);
        Scan { value: class_selector(text.subrange(index + 1, end)), index: end }
    } else {
        let end = name_end(text, index);
        Scan { value: tag_selector(text.subrange(index, end)), index: end }
    }
}

/// Selectors separated by `,`, up to the `{` that opens the block. Any other
/// character between them is stepped over, with a warning. The end of the
/// text ends them too, with a warning.
pub open spec fn selectors_at(text: Seq<char>, index: int) -> SelectorsStep
    decreases text.len() - index,
{
    let selector = simple_selector_at(text, whitespace_end(text, index));
    let end = whitespace_end(text, selector.index);
    if !(0 <= index <= end < text.len()) {
        SelectorsStep {
            selectors: seq![selector.value],
            warnings: seq![warning_text(position_at(text, end), end_of_input_message())],
            index: end,
            opened: false,
        }
    } else if text[end] == '{' {
        SelectorsStep {
            selectors: seq![selector.value],
            warnings: Seq::empty(),
            index: end,
            opened: true,
        }
    } else {
        let rest = selectors_at(text, end + 1);
        SelectorsStep {
            selectors: seq![selector.value] + rest.selectors,
            warnings: if text[end] == ',' {
                rest.warnings
            } else {
                seq![warning_text(position_at(text, end), selector_message(text[end]))]
                    + rest.warnings
            },
            index: rest.index,
            opened: rest.opened,
        }
    }
}

/// A number: digits, and after a point more digits. A second point is refused.
pub open spec fn number_at(text: Seq<char>, index: int) -> Scan<
    Result<(Seq<char>, Seq<char>), Seq<char>>,
> {
    let whole_end = digits_end(text, index);
    let pointed = 0 <= whole_end < text.len() && text[whole_end] == '.';
    let start = if pointed {
        whole_end + 1
    } else {
        whole_end
    };
    let end = if pointed {
        digits_end(text, start)
    } else {
        whole_end
    };
    if pointed && 0 <= end < text.len() && text[end] == '.' {
        Scan { value: Err(number_message(text.subrange(index, end))), index: end }
    } else {
        Scan {
            value: Ok((text.subrange(index, whole_end), text.subrange(start, end))),
            index: end,
        }
    }
}

/// A unit: `px`.
pub open spec fn unit_at(text: Seq<char>, index: int) -> Scan<Result<Unit, Seq<char>>> {
    if !(0 <= index < text.len()) {
        Scan { value: Err(end_of_input_message()), index }
    } else if !occurs_at(text, index, "px"@) {
        Scan { value: Err(unit_message(text[index])), index }
    } else {
        Scan { value: Ok(Unit::Px), index: index + 2 }
    }
}

/// A length: a number and, right after it, a unit.
pub open spec fn length_at(text: Seq<char>, index: int) -> Scan<Result<ValueView, Seq<char>>> {
    let number = number_at(text, index);
    match number.value {
        Err(message) => Scan { value: Err(message), index: number.index },
        Ok(digits) => {
            let unit = unit_at(text, number.index);
            match unit.value {
                Err(message) => Scan { value: Err(message), index: unit.index },
                Ok(unit_found) => Scan {
                    value: Ok(
                        ValueView::Length { whole: digits.0, fraction: digits.1, unit: unit_found },
                    ),
                    index: unit.index,
                },
            }
        },
    }
}

/// A value: a length, which starts with a digit.
pub open spec fn value_at(text: Seq<char>, index: int) -> Scan<Result<ValueView, Seq<char>>> {
    if !(0 <= index < text.len()) {
        Scan { value: Err(end_of_input_message()), index }
    } else if !is_digit_char(text[index]) {
        Scan { value: Err(value_message(text[index])), index }
    } else {
        length_at(text, index)
    }
}

/// Reading `pattern` at `index` without stepping over anything else: where it
/// does not stand, the index stays.
pub open spec fn required(text: Seq<char>, index: int, pattern: Seq<char>) -> Scan<
    Result<(), Seq<char>>,
> {
    if occurs_at(text, index, pattern) {
        Scan { value: Ok(()), index: index + pattern.len() }
    } else {
        Scan {
            value: Err(
                expected_message(
                    pattern,
                    text.subrange(index, advance(text, index, pattern.len() as int)),
                ),
            ),
            index,
        }
    }
}

/// A declaration: a name, `:`, a value, `;`, with white space between them.
/// Where it fails, nothing past the failure has been read.
pub open spec fn declaration_at(text: Seq<char>, index: int) -> Scan<
    Result<DeclarationView, Seq<char>>,
> {
    let name_stop = name_end(text, index);
    let colon = required(text, whitespace_end(text, name_stop), ":"@);
    match colon.value {
        Err(message) => Scan { value: Err(message), index: colon.index },
        Ok(_) => {
            let value = value_at(text, whitespace_end(text, colon.index));
            match value.value {
                Err(message) => Scan { value: Err(message), index: value.index },
                Ok(found) => {
                    let semicolon = required(text, whitespace_end(text, value.index), ";"@);
                    match semicolon.value {
                        Err(message) => Scan { value: Err(message), index: semicolon.index },
                        Ok(_) => Scan {
                            value: Ok(
                                DeclarationView {
                                    name: text.subrange(index, name_stop),
                                    value: found,
                                },
                            ),
                            index: semicolon.index,
                        },
                    }
                },
            }
        },
    }
}

/// Where parsing resumes after a declaration that failed at `index`: behind
/// the next `;`.
pub open spec fn resume_after(text: Seq<char>, index: int) -> int {
    advance(text, until(text, index, ';'), 1)
}

/// The declarations of a block, from behind its `{` to behind its `}`. A
/// declaration that fails is left out, with one warning, and the next one
/// starts behind the next `;`. The end of the text ends the block too, with a
/// warning.
pub open spec fn declarations_at(text: Seq<char>, index: int) -> Listed<DeclarationView>
    decreases text.len() - index,
{
    let start = whitespace_end(text, index);
    if !(0 <= index <= start < text.len()) {
        Listed {
            items: Seq::empty(),
            warnings: seq![warning_text(position_at(text, start), end_of_input_message())],
            index: start,
        }
    } else if text[start] == '}' {
        Listed { items: Seq::empty(), warnings: Seq::empty(), index: start + 1 }
    } else {
        let declaration = declaration_at(text, start);
        match declaration.value {
            // The first branch is never taken (`lemma_declaration_ends`); it is here so
            // that the definition is seen to end.
            Ok(found) => if !(start < declaration.index <= text.len()) {
                Listed { items: seq![found], warnings: Seq::empty(), index: declaration.index }
            } else {
                let rest = declarations_at(text, declaration.index);
                Listed {
                    items: seq![found] + rest.items,
                    warnings: rest.warnings,
                    index: rest.index,
                }
            },
            Err(message) => {
                let resume = resume_after(text, declaration.index);
                let warning = warning_text(position_at(text, resume), skipped_message(message));
                // Never taken (`lemma_declarations_end`): parsing resumes behind `start`.
                if !(start < resume <= text.len()) {
                    Listed { items: Seq::empty(), warnings: seq![warning], index: resume }
                } else {
                    let rest = declarations_at(text, resume);
                    Listed {
                        items: rest.items,
                        warnings: seq![warning] + rest.warnings,
                        index: rest.index,
                    }
                }
            },
        }
    }
}

/// A declaration that fails has read no `;`.
pub proof fn lemma_failed_declaration_reads_no_semicolon(text: Seq<char>, index: int)
    requires
        0 <= index <= text.len(),
        declaration_at(text, index).value is Err,
    ensures
        index <= declaration_at(text, index).index <= text.len(),
        forall|k: int| index <= k < declaration_at(text, index).index ==> #[trigger] text[k] != ';',
        resume_after(text, declaration_at(text, index).index) == resume_after(text, index),
{
    reveal_strlit(":");
    reveal_strlit(";");
    reveal_strlit("px");
    let name_stop = name_end(text, index);
    lemma_scan_while(text, index, |c: char| is_name_char(c));
    let colon_at = whitespace_end(text, name_stop);
    lemma_scan_while(text, name_stop, |c: char| is_whitespace_char(c));
    let colon = required(text, colon_at, ":"@);
    if colon.value is Ok {
        assert(text.subrange(colon_at, colon_at + 1)[0] == ':');
        let value_at_index = whitespace_end(text, colon.index);
        lemma_scan_while(text, colon.index, |c: char| is_whitespace_char(c));
        let value = value_at(text, value_at_index);
        if value_at_index < text.len() && is_digit_char(text[value_at_index]) {
            let whole_end = digits_end(text, value_at_index);
            lemma_scan_while(text, value_at_index, |c: char| is_digit_char(c));
            if whole_end < text.len() && text[whole_end] == '.' {
                lemma_scan_while(text, whole_end + 1, |c: char| is_digit_char(c));
            }
            let number = number_at(text, value_at_index);
            if number.value is Ok {
                let unit = unit_at(text, number.index);
                if unit.value is Ok {
                    assert(text.subrange(number.index, number.index + 2)[0] == 'p');
                    assert(text.subrange(number.index, number.index + 2)[1] == 'x');
                    lemma_scan_while(text, unit.index, |c: char| is_whitespace_char(c));
                }
            }
        }
    }
    lemma_until_skips(text, index, declaration_at(text, index).index, ';');
}

/// A malformed declaration in a block costs one warning and nothing else: the
/// block goes on behind the first `;` that follows the start of the
/// declaration, as if it had started there.
pub proof fn lemma_malformed_declaration(text: Seq<char>, index: int)
    requires
        0 <= index <= whitespace_end(text, index) < text.len(),
        text[whitespace_end(text, index)] != '}',
        declaration_at(text, whitespace_end(text, index)).value is Err,
    ensures
        ({
            let block = declarations_at(text, index);
            let rest = declarations_at(text, resume_after(text, whitespace_end(text, index)));
            &&& block.items == rest.items
            &&& block.warnings.len() == rest.warnings.len() + 1
            &&& block.warnings.drop_first() == rest.warnings
            &&& block.index == rest.index
        }),
{
    let start = whitespace_end(text, index);
    lemma_failed_declaration_reads_no_semicolon(text, start);
    lemma_until_ends(text, start, ';');
    let block = declarations_at(text, index);
}

/// A rule: selectors, then a block of declarations. Selectors that the end of
/// the text cut short make a rule without declarations.
pub open spec fn rule_at(text: Seq<char>, index: int) -> RuleStep {
    let selectors = selectors_at(text, index);
    if selectors.opened {
        let declarations = declarations_at(text, selectors.index + 1);
        RuleStep {
            rule: RuleView { selectors: selectors.selectors, declarations: declarations.items },
            warnings: selectors.warnings + declarations.warnings,
            index: declarations.index,
        }
    } else {
        RuleStep {
            rule: RuleView { selectors: selectors.selectors, declarations: Seq::empty() },
            warnings: selectors.warnings,
            index: selectors.index,
        }
    }
}

/// The rules from `index` to the end of the text.
pub open spec fn rules_at(text: Seq<char>, index: int) -> Listed<RuleView>
    decreases text.len() - index,
{
    let start = whitespace_end(text, index);
    if !(0 <= index <= start < text.len()) {
        Listed { items: Seq::empty(), warnings: Seq::empty(), index: start }
    } else {
        let rule = rule_at(text, start);
        // Never taken (`lemma_rule_advances`): a rule ends behind its start.
        if !(start < rule.index <= text.len()) {
            Listed { items: seq![rule.rule], warnings: rule.warnings, index: rule.index }
        } else {
            let rest = rules_at(text, rule.index);
            Listed {
                items: seq![rule.rule] + rest.items,
                warnings: rule.warnings + rest.warnings,
                index: rest.index,
            }
        }
    }
}

/// Selectors end inside the text, at or behind their start: at a `{`, or at
/// the end of the text.
pub proof fn lemma_selectors_end(text: Seq<char>, index: int)
    requires
        0 <= index <= text.len(),
    ensures
        index <= selectors_at(text, index).index <= text.len(),
        selectors_at(text, index).opened ==> selectors_at(text, index).index < text.len()
            && text[selectors_at(text, index).index] == '{',
        !selectors_at(text, index).opened ==> selectors_at(text, index).index == text.len(),
    decreases text.len() - index,
{
    lemma_scan_bounds(text, index);
    let start = whitespace_end(text, index);
    lemma_scan_bounds(text, start);
    if start < text.len() {
        lemma_scan_bounds(text, start + 1);
    }
    let selector = simple_selector_at(text, start);
    lemma_scan_bounds(text, selector.index);
    let end = whitespace_end(text, selector.index);
    if end < text.len() && text[end] != '{' {
        lemma_selectors_end(text, end + 1);
    }
}

/// A declaration ends inside the text, at or behind its start, and behind it
/// where it succeeds.
pub proof fn lemma_declaration_ends(text: Seq<char>, index: int)
    requires
        0 <= index <= text.len(),
    ensures
        index <= declaration_at(text, index).index <= text.len(),
        declaration_at(text, index).value is Ok ==> index < declaration_at(text, index).index,
{
    reveal_strlit(":");
    reveal_strlit(";");
    reveal_strlit("px");
    lemma_scan_bounds(text, index);
    let name_stop = name_end(text, index);
    lemma_scan_bounds(text, name_stop);
    let colon = required(text, whitespace_end(text, name_stop), ":"@);
    if colon.value is Ok {
        lemma_scan_bounds(text, colon.index);
        let start = whitespace_end(text, colon.index);
        let value = value_at(text, start);
        if start < text.len() && is_digit_char(text[start]) {
            lemma_scan_bounds(text, start);
            let whole_end = digits_end(text, start);
            if whole_end < text.len() {
                lemma_scan_bounds(text, whole_end + 1);
            }
        }
        if value.value is Ok {
            lemma_scan_bounds(text, value.index);
        }
    }
}

/// A block of declarations ends inside the text, at or behind its start.
pub proof fn lemma_declarations_end(text: Seq<char>, index: int)
    requires
        0 <= index <= text.len(),
    ensures
        index <= declarations_at(text, index).index <= text.len(),
    decreases text.len() - index,
{
    lemma_scan_bounds(text, index);
    let start = whitespace_end(text, index);
    if start < text.len() && text[start] != '}' {
        lemma_declaration_ends(text, start);
        let declaration = declaration_at(text, start);
        if declaration.value is Ok {
            lemma_declarations_end(text, declaration.index);
        } else {
            lemma_until_ends(text, declaration.index, ';');
            lemma_failed_declaration_reads_no_semicolon(text, start);
            lemma_until_ends(text, start, ';');
            lemma_declarations_end(text, resume_after(text, declaration.index));
        }
    }
}

/// Every rule takes at least one character: the parser never stands still.
pub proof fn lemma_rule_advances(text: Seq<char>, index: int)
    requires
        0 <= index < text.len(),
    ensures
        index < rule_at(text, index).index <= text.len(),
{
    lemma_selectors_end(text, index);
    let selectors = selectors_at(text, index);
    if selectors.opened {
        lemma_declarations_end(text, selectors.index + 1);
    }
}

/// The rules that `text` holds.
pub open spec fn parsed_rules(text: Seq<char>) -> Seq<RuleView> {
    rules_at(text, 0).items
}

/// The warnings that parsing `text` gives.
pub open spec fn parsed_warnings(text: Seq<char>) -> Seq<Seq<char>> {
    rules_at(text, 0).warnings
}

} // verus!
