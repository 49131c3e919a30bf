//! A cursor over a text: position tracking, consumption by character class,
//! and a single save point.
use crate::text::{
    char_width, decimal, decimal_string, is_alphanumeric, is_alphanumeric_char, is_digit,
    is_digit_char, is_name, is_name_char, is_whitespace, is_whitespace_char, string_of, to_chars,
    utf8_width,
};
use vstd::prelude::*;
use vstd::string::*;
use vstd::utf8::*;

pub mod css_grammar;
pub mod css_parser;
pub mod html_grammar;
pub mod html_parser;

verus! {

/// Bytes that the first `index` characters of `text` take in UTF-8.
pub open spec fn byte_offset(text: Seq<char>, index: int) -> nat
    decreases index,
{
    if index <= 0 {
        0
    } else {
        byte_offset(text, index - 1) + char_width(text[index - 1])
    }
}

/// Bytes between the last line break before `index` (or the start) and `index`.
pub open spec fn column_at(text: Seq<char>, index: int) -> nat
    decreases index,
{
    if index <= 0 {
        0
    } else if text[index - 1] == '\n' {
        0
    } else {
        column_at(text, index - 1) + char_width(text[index - 1])
    }
}

/// Number of line breaks among the first `index` characters of `text`.
pub open spec fn line_breaks(text: Seq<char>, index: int) -> nat
    decreases index,
{
    if index <= 0 {
        0
    } else if text[index - 1] == '\n' {
        line_breaks(text, index - 1) + 1
    } else {
        line_breaks(text, index - 1)
    }
}

/// Where a cursor stands: line (from 1), column and byte offset (both from 0).
pub ghost struct PositionView {
    pub line: nat,
    pub column: nat,
    pub offset: nat,
}

/// The position of a cursor that has consumed `index` characters of `text`.
pub open spec fn position_at(text: Seq<char>, index: int) -> PositionView {
    PositionView {
        line: line_breaks(text, index) + 1,
        column: column_at(text, index),
        offset: byte_offset(text, index),
    }
}

/// How a position is written in a diagnostic: `line:column (offset)`.
pub open spec fn position_text(p: PositionView) -> Seq<char> {
    decimal(p.line) + seq![':'] + decimal(p.column) + seq![' ', '('] + decimal(p.offset) + seq![
        ')',
    ]
}

/// First index at or after `from` whose character fails `pred`, or the end of `text`.
pub open spec fn scan_while(text: Seq<char>, from: int, pred: spec_fn(char) -> bool) -> int
    decreases text.len() - from,
{
    if 0 <= from < text.len() && pred(text[from]) {
        scan_while(text, from + 1, pred)
    } else {
        from
    }
}

/// End of the run of white space that starts at `from`.
pub open spec fn whitespace_end(text: Seq<char>, from: int) -> int {
    scan_while(text, from, |c: char| is_whitespace_char(c))
}

/// End of the run of anything but white space that starts at `from`.
pub open spec fn word_break(text: Seq<char>, from: int) -> int {
    scan_while(text, from, |c: char| !is_whitespace_char(c))
}

/// End of the run of ASCII digits that starts at `from`.
pub open spec fn digits_end(text: Seq<char>, from: int) -> int {
    scan_while(text, from, |c: char| is_digit_char(c))
}

/// End of the run of ASCII letters and digits that starts at `from`.
pub open spec fn word_end(text: Seq<char>, from: int) -> int {
    scan_while(text, from, |c: char| is_alphanumeric_char(c))
}

/// End of the run of name characters that starts at `from`.
pub open spec fn name_end(text: Seq<char>, from: int) -> int {
    scan_while(text, from, |c: char| is_name_char(c))
}

/// Index of the first `stop` at or after `from`, or the end of `text`.
pub open spec fn until(text: Seq<char>, from: int, stop: char) -> int
    decreases text.len() - from,
{
    if 0 <= from < text.len() && text[from] != stop {
        until(text, from + 1, stop)
    } else {
        from
    }
}

/// The index that `n` more characters lead to, held back by the end of the text.
pub open spec fn advance(text: Seq<char>, from: int, n: int) -> int {
    if from + n <= text.len() {
        from + n
    } else {
        text.len() as int
    }
}

/// True when `pattern` stands in `text` at `from`.
pub open spec fn occurs_at(text: Seq<char>, from: int, pattern: Seq<char>) -> bool {
    &&& 0 <= from
    &&& from + pattern.len() <= text.len()
    &&& text.subrange(from, from + pattern.len()) == pattern
}

/// A value read from the text, and the index where reading stopped.
pub ghost struct Scan<T> {
    pub value: T,
    pub index: int,
}

/// The message for a construct that the end of the text cut short.
pub open spec fn end_of_input_message() -> Seq<char> {
    "Unexpected end of input"@
}

/// A warning: where the parser stood when it gave up on a node, and why.
pub open spec fn warning_text(position: PositionView, message: Seq<char>) -> Seq<char> {
    position_text(position) + " - "@ + message
}

/// `r` is the text or the message that `expected` names.
pub open spec fn text_outcome(
    r: Result<String, String>,
    expected: Result<Seq<char>, Seq<char>>,
) -> bool {
    match (r, expected) {
        (Ok(content), Ok(text)) => content@ == text,
        (Err(message), Err(text)) => message@ == text,
        _ => false,
    }
}

/// `r` succeeds or carries the message that `expected` names.
pub open spec fn unit_outcome(r: Result<(), String>, expected: Result<(), Seq<char>>) -> bool {
    match (r, expected) {
        (Ok(_), Ok(_)) => true,
        (Err(message), Err(text)) => message@ == text,
        _ => false,
    }
}

/// The message of a failed expectation.
pub open spec fn expected_message(expected: Seq<char>, found: Seq<char>) -> Seq<char> {
    "Expected: "@ + expected + " Found: "@ + found
}

/// A scan ends inside the text, behind a run of matching characters and at a
/// character that does not match.
pub proof fn lemma_scan_while(text: Seq<char>, from: int, pred: spec_fn(char) -> bool)
    requires
        0 <= from <= text.len(),
    ensures
        from <= scan_while(text, from, pred) <= text.len(),
        forall|k: int| from <= k < scan_while(text, from, pred) ==> pred(#[trigger] text[k]),
        scan_while(text, from, pred) < text.len() ==> !pred(text[scan_while(text, from, pred)]),
    decreases text.len() - from,
{
    if from < text.len() && pred(text[from]) {
        lemma_scan_while(text, from + 1, pred);
    }
}

/// `scan_while` is the only index that ends a run of matching characters.
pub proof fn lemma_scan_while_unique(
    text: Seq<char>,
    from: int,
    to: int,
    pred: spec_fn(char) -> bool,
)
    requires
        0 <= from <= to <= text.len(),
        forall|k: int| from <= k < to ==> pred(#[trigger] text[k]),
        to < text.len() ==> !pred(text[to]),
    ensures
        scan_while(text, from, pred) == to,
    decreases to - from,
{
    if from < to {
        lemma_scan_while_unique(text, from + 1, to, pred);
    }
}

/// The first `stop` after a run without one is where `until` ends.
pub proof fn lemma_until(text: Seq<char>, from: int, to: int, stop: char)
    requires
        0 <= from <= to <= text.len(),
        forall|k: int| from <= k < to ==> #[trigger] text[k] != stop,
        to < text.len() ==> text[to] == stop,
    ensures
        until(text, from, stop) == to,
    decreases to - from,
{
    if from < to {
        lemma_until(text, from + 1, to, stop);
    }
}

/// Skipping characters that are not `stop` does not change where `until` ends.
pub proof fn lemma_until_skips(text: Seq<char>, from: int, to: int, stop: char)
    requires
        0 <= from <= to <= text.len(),
        forall|k: int| from <= k < to ==> #[trigger] text[k] != stop,
    ensures
        until(text, from, stop) == until(text, to, stop),
    decreases to - from,
{
    if from < to {
        lemma_until_skips(text, from + 1, to, stop);
    }
}

/// `until` ends at the first `stop`, or at the end of the text.
pub proof fn lemma_until_ends(text: Seq<char>, from: int, stop: char)
    requires
        0 <= from <= text.len(),
    ensures
        from <= until(text, from, stop) <= text.len(),
        forall|k: int| from <= k < until(text, from, stop) ==> #[trigger] text[k] != stop,
        until(text, from, stop) < text.len() ==> text[until(text, from, stop)] == stop,
    decreases text.len() - from,
{
    if from < text.len() && text[from] != stop {
        lemma_until_ends(text, from + 1, stop);
    }
}

/// Each named scan ends between its start and the end of the text.
pub proof fn lemma_scan_bounds(text: Seq<char>, from: int)
    requires
        0 <= from <= text.len(),
    ensures
        from <= whitespace_end(text, from) <= text.len(),
        from <= word_end(text, from) <= text.len(),
        from <= name_end(text, from) <= text.len(),
        from <= word_break(text, from) <= text.len(),
        from <= digits_end(text, from) <= text.len(),
        forall|stop: char| from <= #[trigger] until(text, from, stop) <= text.len(),
{
    lemma_scan_while(text, from, |c: char| is_whitespace_char(c));
    lemma_scan_while(text, from, |c: char| is_alphanumeric_char(c));
    lemma_scan_while(text, from, |c: char| is_name_char(c));
    lemma_scan_while(text, from, |c: char| !is_whitespace_char(c));
    lemma_scan_while(text, from, |c: char| is_digit_char(c));
    assert forall|stop: char| from <= #[trigger] until(text, from, stop) <= text.len() by {
        lemma_until_ends(text, from, stop);
    }
}

/// Each character moves the byte offset on by at least one, and a position
/// tells the index it belongs to.
pub proof fn lemma_offset_advances(text: Seq<char>, index: int)
    requires
        0 <= index < text.len(),
    ensures
        byte_offset(text, index) < byte_offset(text, index + 1) <= byte_offset(text, index) + 4,
        position_at(text, index + 1).offset > position_at(text, index).offset,
{
}

/// Line, column and offset grow with the index and stay within the length of
/// the text in bytes.
pub proof fn lemma_position_bounds(text: Seq<char>, index: int)
    requires
        0 <= index <= text.len(),
    ensures
        index <= byte_offset(text, index) <= byte_offset(text, text.len() as int),
        column_at(text, index) <= byte_offset(text, index),
        line_breaks(text, index) <= byte_offset(text, index),
    decreases text.len() - index,
{
    lemma_prefix_bounds(text, index);
    if index < text.len() {
        lemma_position_bounds(text, index + 1);
    }
}

proof fn lemma_prefix_bounds(text: Seq<char>, index: int)
    requires
        0 <= index <= text.len(),
    ensures
        index <= byte_offset(text, index),
        column_at(text, index) <= byte_offset(text, index),
        line_breaks(text, index) <= byte_offset(text, index),
    decreases index,
{
    if index > 0 {
        lemma_prefix_bounds(text, index - 1);
    }
}

proof fn lemma_encoded_width(c: char)
    ensures
        encode_scalar(c as u32).len() == char_width(c),
{
    char_is_scalar(c);
}

proof fn lemma_offset_drop_first(text: Seq<char>, index: int)
    requires
        1 <= index <= text.len(),
    ensures
        byte_offset(text, index) == char_width(text[0]) + byte_offset(
            text.drop_first(),
            index - 1,
        ),
    decreases index,
{
    if index > 1 {
        lemma_offset_drop_first(text, index - 1);
    } else {
        assert(byte_offset(text, 0) == 0);
    }
}

/// The byte offset of the end of `text` is the length of its UTF-8 encoding.
proof fn lemma_offset_is_encoded_len(text: Seq<char>)
    ensures
        byte_offset(text, text.len() as int) == encode_utf8(text).len(),
    decreases text.len(),
{
    if text.len() > 0 {
        lemma_offset_is_encoded_len(text.drop_first());
        lemma_offset_drop_first(text, text.len() as int);
        lemma_encoded_width(text[0]);
    }
}

/// Reading past the end of the text.
#[derive(Debug, Clone, Copy)]
pub struct EndOfInput;

/// A position in a text, for diagnostics.
#[derive(Debug, Clone, Copy)]
pub struct ParserPosition {
    overall: usize,
    x: usize,
    breaks: usize,
}

impl View for ParserPosition {
    type V = PositionView;

    closed spec fn view(&self) -> PositionView {
        PositionView {
            line: self.breaks as nat + 1,
            column: self.x as nat,
            offset: self.overall as nat,
        }
    }
}

impl ParserPosition {
    /// Byte offset from the start of the text.
    pub fn offset(&self) -> (n: usize)
        ensures
            n == self@.offset,
    {
        self.overall
    }

    /// Byte offset from the start of the line.
    pub fn column(&self) -> (n: usize)
        ensures
            n == self@.column,
    {
        self.x
    }

    /// Line number, counted from 1.
    pub fn line(&self) -> (n: u128)
        ensures
            n == self@.line,
    {
        let b: u128 = self.breaks as u128;
        b + 1
    }

    /// The position as `line:column (offset)`.
    pub fn to_string(&self) -> (s: String)
        ensures
            s@ == position_text(self@),
    {
        let mut s = decimal_string(self.line());
        s.push(':');
        let column = decimal_string(self.x as u128);
        s.append(column.as_str());
        s.push(' ');
        s.push('(');
        let offset = decimal_string(self.overall as u128);
        s.append(offset.as_str());
        s.push(')');
        s
    }
}

struct SavePoint {
    index: usize,
    position: ParserPosition,
}

/// A cursor over a text.
pub struct Parser {
    position: ParserPosition,
    text: Vec<char>,
    index: usize,
    save_point: Option<SavePoint>,
}

/// A cursor at the start of `text`, with no save point.
pub fn create(text: String) -> (parser: Parser)
    ensures
        parser.wf(),
        parser.text() == text@,
        parser.index() == 0,
        parser.saved() is None,
{
    let chars = to_chars(text.as_str());
    let bytes = text.as_str().as_bytes();
    let n = bytes.len();
    proof {
        lemma_offset_is_encoded_len(chars@);
    }
    Parser {
        position: ParserPosition { overall: 0, x: 0, breaks: 0 },
        text: chars,
        index: 0,
        save_point: None,
    }
}

impl Parser {
    /// The whole text that the cursor runs over.
    pub closed spec fn text(&self) -> Seq<char> {
        self.text@
    }

    /// Number of characters consumed so far.
    pub closed spec fn index(&self) -> int {
        self.index as int
    }

    /// The index that the save point holds, if one is set.
    pub closed spec fn saved(&self) -> Option<int> {
        match self.save_point {
            Some(p) => Some(p.index as int),
            None => None,
        }
    }

    /// The cursor stands inside its text and its position agrees with its index.
    pub closed spec fn wf(&self) -> bool {
        &&& self.index <= self.text@.len()
        &&& byte_offset(self.text@, self.text@.len() as int) <= usize::MAX
        &&& self.position@ == position_at(self.text@, self.index as int)
        &&& match self.save_point {
            Some(p) => p.index <= self.text@.len() && p.position@ == position_at(
                self.text@,
                p.index as int,
            ),
            None => true,
        }
    }

    /// What is left to consume.
    pub open spec fn remaining(&self) -> Seq<char> {
        self.text().subrange(self.index(), self.text().len() as int)
    }

    /// Same text and same save point as `other`.
    pub open spec fn follows(&self, other: &Parser) -> bool {
        &&& self.wf()
        &&& self.text() == other.text()
        &&& self.saved() == other.saved()
    }

    /// A cursor and its save point stand inside the text.
    pub proof fn lemma_index_in_text(&self)
        requires
            self.wf(),
        ensures
            0 <= self.index() <= self.text().len(),
            self.saved() is Some ==> 0 <= self.saved()->0 <= self.text().len(),
    {
    }

    /// Where the cursor stands.
    pub fn position(&self) -> (p: ParserPosition)
        requires
            self.wf(),
        ensures
            p@ == position_at(self.text(), self.index()),
    {
        self.position
    }

    /// True when nothing is left to consume.
    pub fn eof(&self) -> (b: bool)
        requires
            self.wf(),
        ensures
            b == (self.index() >= self.text().len()),
    {
        self.index >= self.text.len()
    }

    /// True when `text` stands under the cursor.
    pub fn starts_with(&self, text: &str) -> (b: bool)
        requires
            self.wf(),
        ensures
            b == occurs_at(self.text(), self.index(), text@),
    {
        let pattern = to_chars(text);
        if pattern.len() > self.text.len() - self.index {
            return false;
        }
        let mut k: usize = 0;
        while k < pattern.len()
            invariant
                self.wf(),
                pattern@ == text@,
                k <= pattern.len(),
                self.index + pattern.len() <= self.text.len(),
                self.text@.subrange(self.index as int, self.index + k) == pattern@.subrange(
                    0,
                    k as int,
                ),
            decreases pattern.len() - k,
        {
            if self.text[self.index + k] != pattern[k] {
                return false;
            }
            k += 1;
        }
        proof {
            assert(pattern@.subrange(0, pattern@.len() as int) == pattern@);
        }
        true
    }

    /// The character under the cursor.
    pub fn next_char(&self) -> (r: Result<char, EndOfInput>)
        requires
            self.wf(),
        ensures
            self.index() < self.text().len() ==> r == Ok::<char, EndOfInput>(
                self.text()[self.index()],
            ),
            self.index() >= self.text().len() ==> r is Err,
    {
        if self.index < self.text.len() {
            Ok(self.text[self.index])
        } else {
            Err(EndOfInput)
        }
    }

    /// Steps over one character and returns it.
    pub fn consume_char(&mut self) -> (r: Result<char, EndOfInput>)
        requires
            old(self).wf(),
        ensures
            final(self).follows(old(self)),
            old(self).index() < old(self).text().len() ==> r == Ok::<char, EndOfInput>(
                old(self).text()[old(self).index()],
            ) && final(self).index() == old(self).index() + 1,
            old(self).index() >= old(self).text().len() ==> r is Err && final(self).index() == old(
                self,
            ).index(),
    {
        if self.index >= self.text.len() {
            return Err(EndOfInput);
        }
        let c = self.text[self.index];
        let w = utf8_width(c);
        proof {
            lemma_position_bounds(self.text@, self.index + 1);
        }
        self.position.overall = self.position.overall + w;
        if c == '\n' {
            self.position.breaks = self.position.breaks + 1;
            self.position.x = 0;
        } else {
            self.position.x = self.position.x + w;
        }
        self.index = self.index + 1;
        Ok(c)
    }

    /// Steps over at most `len` characters and returns them.
    pub fn consume_next_n_chars(&mut self, len: usize) -> (value: String)
        requires
            old(self).wf(),
        ensures
            final(self).follows(old(self)),
            final(self).index() == advance(old(self).text(), old(self).index(), len as int),
            value@ == old(self).text().subrange(old(self).index(), final(self).index()),
    {
        let start = self.index;
        let mut k: usize = 0;
        while k < len && self.index < self.text.len()
            invariant
                self.follows(old(self)),
                k <= len,
                start == old(self).index(),
                self.index == start + k,
                self.index <= self.text@.len(),
            decreases len - k,
        {
            let _ = self.consume_char();
            k += 1;
        }
        string_of(&self.text, start, self.index)
    }

    /// Steps over `text` if it stands under the cursor. Otherwise steps over as
    /// many characters as `text` has and reports them.
    pub fn consume_expected_text(&mut self, text: &str) -> (r: Result<(), String>)
        requires
            old(self).wf(),
        ensures
            final(self).follows(old(self)),
            final(self).index() == advance(old(self).text(), old(self).index(), text@.len() as int),
            occurs_at(old(self).text(), old(self).index(), text@) <==> r is Ok,
            r is Err ==> r->Err_0@ == expected_message(
                text@,
                old(self).text().subrange(old(self).index(), final(self).index()),
            ),
    {
        let n = text.unicode_len();
        let matched = self.starts_with(text);
        let value = self.consume_next_n_chars(n);
        if matched {
            Ok(())
        } else {
            let mut message = String::from_str("Expected: ");
            message.append(text);
            message.append(" Found: ");
            message.append(value.as_str());
            Err(message)
        }
    }

    /// Steps over the longest run of characters that `test` accepts and returns it.
    pub fn consume_while<F: Fn(char) -> bool>(&mut self, test: F) -> (result: String)
        requires
            old(self).wf(),
            forall|c: char| call_requires(test, (c,)),
        ensures
            final(self).follows(old(self)),
            old(self).index() <= final(self).index() <= old(self).text().len(),
            result@ == old(self).text().subrange(old(self).index(), final(self).index()),
            forall|k: int|
                old(self).index() <= k < final(self).index() ==> call_ensures(
                    test,
                    (#[trigger] old(self).text()[k],),
                    true,
                ),
            final(self).index() < old(self).text().len() ==> call_ensures(
                test,
                (old(self).text()[final(self).index()],),
                false,
            ),
    {
        let start = self.index;
        while self.index < self.text.len()
            invariant
                self.follows(old(self)),
                start == old(self).index(),
                start <= self.index <= self.text@.len(),
                forall|c: char| call_requires(test, (c,)),
                forall|k: int|
                    start <= k < self.index ==> call_ensures(
                        test,
                        (#[trigger] self.text@[k],),
                        true,
                    ),
            ensures
                self.follows(old(self)),
                start <= self.index <= self.text@.len(),
                forall|k: int|
                    start <= k < self.index ==> call_ensures(
                        test,
                        (#[trigger] self.text@[k],),
                        true,
                    ),
                self.index < self.text@.len() ==> call_ensures(
                    test,
                    (self.text@[self.index as int],),
                    false,
                ),
            decreases self.text@.len() - self.index,
        {
            if !test(self.text[self.index]) {
                break;
            }
            let _ = self.consume_char();
        }
        string_of(&self.text, start, self.index)
    }

    /// Steps over a run of ASCII letters and digits and returns it.
    pub fn consume_alphanumeric_word(&mut self) -> (word: String)
        requires
            old(self).wf(),
        ensures
            final(self).follows(old(self)),
            final(self).index() == word_end(old(self).text(), old(self).index()),
            word@ == old(self).text().subrange(old(self).index(), final(self).index()),
    {
        let test = |c: char| -> (b: bool)
            ensures b == is_alphanumeric_char(c)
            { is_alphanumeric(c) };
        let word = self.consume_while(test);
        proof {
            lemma_scan_while_unique(
                self.text(),
                old(self).index(),
                self.index(),
                |c: char| is_alphanumeric_char(c),
            );
        }
        word
    }

    /// Steps over white space.
    pub fn consume_whitespace(&mut self)
        requires
            old(self).wf(),
        ensures
            final(self).follows(old(self)),
            final(self).index() == whitespace_end(old(self).text(), old(self).index()),
    {
        let test = |c: char| -> (b: bool)
            ensures b == is_whitespace_char(c)
            { is_whitespace(c) };
        let _ = self.consume_while(test);
        proof {
            lemma_scan_while_unique(
                self.text(),
                old(self).index(),
                self.index(),
                |c: char| is_whitespace_char(c),
            );
        }
    }

    /// Steps over a run of name characters and returns it.
    pub fn consume_name(&mut self) -> (name: String)
        requires
            old(self).wf(),
        ensures
            final(self).follows(old(self)),
            final(self).index() == name_end(old(self).text(), old(self).index()),
            name@ == old(self).text().subrange(old(self).index(), final(self).index()),
    {
        let test = |c: char| -> (b: bool)
            ensures b == is_name_char(c)
            { is_name(c) };
        let name = self.consume_while(test);
        proof {
            lemma_scan_while_unique(
                self.text(),
                old(self).index(),
                self.index(),
                |c: char| is_name_char(c),
            );
        }
        name
    }

    /// Steps over a run of anything but white space and returns it.
    pub fn consume_non_whitespace(&mut self) -> (word: String)
        requires
            old(self).wf(),
        ensures
            final(self).follows(old(self)),
            final(self).index() == word_break(old(self).text(), old(self).index()),
            word@ == old(self).text().subrange(old(self).index(), final(self).index()),
    {
        let test = |c: char| -> (b: bool)
            ensures b == !is_whitespace_char(c)
            { !is_whitespace(c) };
        let word = self.consume_while(test);
        proof {
            lemma_scan_while_unique(
                self.text(),
                old(self).index(),
                self.index(),
                |c: char| !is_whitespace_char(c),
            );
        }
        word
    }

    /// Steps over a run of ASCII digits and returns it.
    pub fn consume_digits(&mut self) -> (digits: String)
        requires
            old(self).wf(),
        ensures
            final(self).follows(old(self)),
            final(self).index() == digits_end(old(self).text(), old(self).index()),
            digits@ == old(self).text().subrange(old(self).index(), final(self).index()),
    {
        let test = |c: char| -> (b: bool)
            ensures b == is_digit_char(c)
            { is_digit(c) };
        let digits = self.consume_while(test);
        proof {
            lemma_scan_while_unique(
                self.text(),
                old(self).index(),
                self.index(),
                |c: char| is_digit_char(c),
            );
        }
        digits
    }

    /// Steps over everything before the next `stop` and returns it.
    pub fn consume_until(&mut self, stop: char) -> (run: String)
        requires
            old(self).wf(),
        ensures
            final(self).follows(old(self)),
            final(self).index() == until(old(self).text(), old(self).index(), stop),
            run@ == old(self).text().subrange(old(self).index(), final(self).index()),
    {
        let test = |c: char| -> (b: bool)
            ensures b == (c != stop)
            { c != stop };
        let run = self.consume_while(test);
        proof {
            lemma_until(self.text(), old(self).index(), self.index(), stop);
        }
        run
    }

    /// Steps over everything up to the next `breaker` and over the `breaker` itself,
    /// or to the end of the text where there is none.
    pub fn consume_until_including(&mut self, breaker: char)
        requires
            old(self).wf(),
        ensures
            final(self).follows(old(self)),
            final(self).index() == advance(
                old(self).text(),
                until(old(self).text(), old(self).index(), breaker),
                1,
            ),
    {
        let _ = self.consume_until(breaker);
        let _ = self.consume_char();
    }

    /// Remembers where the cursor stands, in place of any earlier save point.
    pub fn set_save_point(&mut self)
        requires
            old(self).wf(),
        ensures
            final(self).wf(),
            final(self).text() == old(self).text(),
            final(self).index() == old(self).index(),
            final(self).saved() == Some(old(self).index()),
    {
        self.save_point = Some(SavePoint { index: self.index, position: self.position });
    }

    /// Goes back to the save point and clears it.
    pub fn restore_from_save_point(&mut self)
        requires
            old(self).wf(),
            old(self).saved() is Some,
        ensures
            final(self).wf(),
            final(self).text() == old(self).text(),
            final(self).index() == old(self).saved()->0,
            final(self).saved() is None,
    {
        let saved = self.save_point.take().unwrap();
        self.index = saved.index;
        self.position = saved.position;
    }
}

} // verus!
