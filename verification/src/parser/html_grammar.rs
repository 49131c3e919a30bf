//! What the markup parser computes, as functions of the text and of the index
//! at which a construct starts.
use crate::dom::{leaf, NodeKind, Tree};
use crate::string_map::inserted;
use crate::parser::{
    advance, end_of_input_message, expected_message, lemma_scan_bounds, lemma_until_ends,
    name_end, occurs_at, position_at, until, warning_text, whitespace_end, word_end, Scan,
};
use vstd::prelude::*;

verus! {

/// A node or a failure, the warnings that its descendants gave, and the index
/// where parsing stopped.
pub ghost struct NodeStep {
    pub result: Result<Tree, Seq<char>>,
    pub warnings: Seq<Seq<char>>,
    pub index: int,
}

/// A run of sibling nodes, the warnings given on the way, and the index where
/// the run ended.
pub ghost struct NodesStep {
    pub nodes: Seq<Tree>,
    pub warnings: Seq<Seq<char>>,
    pub index: int,
}

/// The head of a tag: its name, its attributes, and whether it ended in `/>`.
pub ghost struct TagHead {
    pub tag_name: Seq<char>,
    pub attributes: Seq<(Seq<char>, Seq<char>)>,
    pub self_closed: bool,
}

/// Tags that never have children and need no closing tag.
pub open spec fn is_void_tag(tag_name: Seq<char>) -> bool {
    tag_name == "link"@ || tag_name == "meta"@
}

/// `name` between double quotes.
pub open spec fn quoted(name: Seq<char>) -> Seq<char> {
    seq!['"'] + name + seq!['"']
}

/// The quoted names, separated by a comma and a space.
pub open spec fn quoted_list(names: Seq<Seq<char>>) -> Seq<char>
    decreases names.len(),
{
    if names.len() == 0 {
        Seq::empty()
    } else if names.len() == 1 {
        quoted(names[0])
    } else {
        quoted_list(names.drop_last()) + ", "@ + quoted(names.last())
    }
}

/// The message for a closing tag that closes neither the open element nor one
/// of its ancestors.
pub open spec fn unmatched_message(
    expected: Seq<char>,
    found: Seq<char>,
    stack: Seq<Seq<char>>,
) -> Seq<char> {
    "Expected closing tag for: "@ + expected + " but found closing tag for: "@ + found
        + " which is not in the stack: "@ + seq!['['] + quoted_list(stack) + seq![']']
}

/// Reading `pattern` at `index`: it is stepped over, or as many characters as it
/// has are stepped over and reported.
pub open spec fn expect(text: Seq<char>, index: int, pattern: Seq<char>) -> Scan<
    Result<(), Seq<char>>,
> {
    let end = advance(text, index, pattern.len() as int);
    Scan {
        value: if occurs_at(text, index, pattern) {
            Ok(())
        } else {
            Err(expected_message(pattern, text.subrange(index, end)))
        },
        index: end,
    }
}

/// First index at or after `from` where `pattern` stands, or the end of `text`.
pub open spec fn find_pattern(text: Seq<char>, from: int, pattern: Seq<char>) -> int
    decreases text.len() - from,
{
    if from >= text.len() || occurs_at(text, from, pattern) {
        from
    } else {
        find_pattern(text, from + 1, pattern)
    }
}

/// What stands between `opening` at `index` and the next `closing`.
pub open spec fn enclosed_at(
    text: Seq<char>,
    index: int,
    opening: Seq<char>,
    closing: Seq<char>,
) -> Scan<Result<Seq<char>, Seq<char>>> {
    let open = expect(text, index, opening);
    match open.value {
        Err(message) => Scan { value: Err(message), index: open.index },
        Ok(_) => {
            let end = find_pattern(text, open.index, closing);
            let close = expect(text, end, closing);
            match close.value {
                Err(message) => Scan { value: Err(message), index: close.index },
                Ok(_) => Scan { value: Ok(text.subrange(open.index, end)), index: close.index },
            }
        },
    }
}

/// A step that yields the leaf `kind(content)` where `content` was read.
pub open spec fn leaf_step(
    content: Scan<Result<Seq<char>, Seq<char>>>,
    kind: spec_fn(Seq<char>) -> NodeKind,
) -> NodeStep {
    NodeStep {
        result: match content.value {
            Ok(content) => Ok(leaf(kind(content))),
            Err(message) => Err(message),
        },
        warnings: Seq::empty(),
        index: content.index,
    }
}

/// `<!--`, anything, `-->`.
pub open spec fn comment_at(text: Seq<char>, index: int) -> NodeStep {
    leaf_step(
        enclosed_at(text, index, "<!--"@, "-->"@),
        |content: Seq<char>| NodeKind::Comment(content),
    )
}

/// `<![CDATA[`, anything, `]]>`.
pub open spec fn cdata_at(text: Seq<char>, index: int) -> NodeStep {
    leaf_step(
        enclosed_at(text, index, "<![CDATA["@, "]]>"@),
        |content: Seq<char>| NodeKind::CData(content),
    )
}

/// A run of text up to the next `<`.
pub open spec fn text_at(text: Seq<char>, index: int) -> NodeStep {
    let end = until(text, index, '<');
    NodeStep {
        result: Ok(leaf(NodeKind::Text(text.subrange(index, end)))),
        warnings: Seq::empty(),
        index: end,
    }
}

/// The version named between `<!DOCTYPE` and `>`.
pub open spec fn doctype_version_at(text: Seq<char>, index: int) -> Scan<
    Result<Seq<char>, Seq<char>>,
> {
    let open = expect(text, index, "<!DOCTYPE"@);
    match open.value {
        Err(message) => Scan { value: Err(message), index: open.index },
        Ok(_) => {
            let start = whitespace_end(text, open.index);
            let end = word_end(text, start);
            let close = expect(text, whitespace_end(text, end), ">"@);
            match close.value {
                Err(message) => Scan { value: Err(message), index: close.index },
                Ok(_) => Scan { value: Ok(text.subrange(start, end)), index: close.index },
            }
        },
    }
}

/// `<!DOCTYPE`, a version, `>`.
pub open spec fn doctype_at(text: Seq<char>, index: int) -> NodeStep {
    leaf_step(
        doctype_version_at(text, index),
        |version: Seq<char>| NodeKind::DocType { version },
    )
}

/// The name of a tag: white space, then a run of letters and digits.
pub open spec fn tag_name_at(text: Seq<char>, index: int) -> Scan<Seq<char>> {
    let start = whitespace_end(text, index);
    let end = word_end(text, start);
    Scan { value: text.subrange(start, end), index: end }
}

/// The message for a character that stands where a `=` should.
pub open spec fn missing_equals_message(found: char) -> Seq<char> {
    "Unexpected char in attribute parsing Expected: = found: "@ + seq![found]
}

/// The message for a character that stands where a quote should.
pub open spec fn missing_quote_message(found: char) -> Seq<char> {
    "Expected opening of attribute value but found: "@ + seq![found]
}

/// The message for a tag head that does not end in `>`.
pub open spec fn tag_end_message(found: Seq<char>) -> Seq<char> {
    "Expected end of tag but found: "@ + found
}

/// An attribute value: a quote of either kind, anything, the same quote.
pub open spec fn attribute_value_at(text: Seq<char>, index: int) -> Scan<
    Result<Seq<char>, Seq<char>>,
> {
    if !(0 <= index < text.len()) {
        Scan { value: Err(end_of_input_message()), index }
    } else if text[index] != '"' && text[index] != '\'' {
        Scan { value: Err(missing_quote_message(text[index])), index: index + 1 }
    } else {
        let end = until(text, index + 1, text[index]);
        if end >= text.len() {
            Scan { value: Err(end_of_input_message()), index: end }
        } else {
            Scan { value: Ok(text.subrange(index + 1, end)), index: end + 1 }
        }
    }
}

/// The attributes from `index` up to the `>` or `/` that ends the tag head,
/// added to `attributes`. A name that comes again keeps its place and takes
/// the later value.
pub open spec fn attributes_at(
    text: Seq<char>,
    index: int,
    attributes: Seq<(Seq<char>, Seq<char>)>,
) -> Scan<Result<Seq<(Seq<char>, Seq<char>)>, Seq<char>>>
    decreases text.len() - index,
{
    let start = whitespace_end(text, index);
    if !(0 <= index <= start < text.len()) {
        Scan { value: Err(end_of_input_message()), index: start }
    } else if text[start] == '>' || text[start] == '/' {
        Scan { value: Ok(attributes), index: start }
    } else {
        let end = name_end(text, start);
        if !(start <= end < text.len()) {
            Scan { value: Err(end_of_input_message()), index: end }
        } else if text[end] != '=' {
            Scan { value: Err(missing_equals_message(text[end])), index: end + 1 }
        } else {
            let value = attribute_value_at(text, end + 1);
            match value.value {
                Err(message) => Scan { value: Err(message), index: value.index },
                // The first branch is never taken (`lemma_attributes_end`): a value ends
                // behind its start.
                Ok(content) => if value.index <= index {
                    Scan { value: Err(end_of_input_message()), index: value.index }
                } else {
                    attributes_at(
                        text,
                        value.index,
                        inserted(attributes, text.subrange(start, end), content),
                    )
                },
            }
        }
    }
}

/// A tag head after its `<`: name, attributes, and `>` or `/>`.
pub open spec fn tag_at(text: Seq<char>, index: int) -> Scan<Result<TagHead, Seq<char>>> {
    let name = tag_name_at(text, index);
    let attributes = attributes_at(text, name.index, Seq::empty());
    match attributes.value {
        Err(message) => Scan { value: Err(message), index: attributes.index },
        Ok(found) => {
            let start = whitespace_end(text, attributes.index);
            let self_closed = occurs_at(text, start, "/"@);
            let end = advance(
                text,
                start,
                if self_closed {
                    2
                } else {
                    1
                },
            );
            let ending = text.subrange(start, end);
            if ending.len() > 0 && ending.last() == '>' {
                Scan {
                    value: Ok(TagHead { tag_name: name.value, attributes: found, self_closed }),
                    index: end,
                }
            } else {
                Scan { value: Err(tag_end_message(ending)), index: end }
            }
        },
    }
}

/// The closing tag of the element `tag_name`, whose ancestors are `stack`. A
/// closing tag of an ancestor closes the element too, and is left unread for
/// that ancestor.
pub open spec fn closing_tag_at(
    text: Seq<char>,
    index: int,
    tag_name: Seq<char>,
    stack: Seq<Seq<char>>,
) -> Scan<Result<(), Seq<char>>> {
    let open = expect(text, index, "</"@);
    match open.value {
        Err(message) => Scan { value: Err(message), index: open.index },
        Ok(_) => {
            let name = tag_name_at(text, open.index);
            let close = expect(text, whitespace_end(text, name.index), ">"@);
            match close.value {
                Err(message) => Scan { value: Err(message), index: close.index },
                Ok(_) => if name.value == tag_name {
                    Scan { value: Ok(()), index: close.index }
                } else if stack.contains(name.value) {
                    Scan { value: Ok(()), index }
                } else {
                    Scan {
                        value: Err(unmatched_message(tag_name, name.value, stack)),
                        index: close.index,
                    }
                },
            }
        },
    }
}

/// The element node made of `head` and `children`.
pub open spec fn element_tree(head: TagHead, children: Seq<Tree>) -> Tree {
    Tree {
        kind: NodeKind::Element { tag_name: head.tag_name, attributes: head.attributes },
        children,
    }
}

/// A step that failed with `message` at `index`, after `warnings`.
pub open spec fn failed(message: Seq<char>, warnings: Seq<Seq<char>>, index: int) -> NodeStep {
    NodeStep { result: Err(message), warnings, index }
}

/// An element: `<`, a tag head and, unless the tag closed itself or is void,
/// children and a closing tag.
pub open spec fn element_at(text: Seq<char>, index: int, stack: Seq<Seq<char>>) -> NodeStep
    decreases text.len() - index, 0int,
{
    let open = expect(text, index, "<"@);
    match open.value {
        Err(message) => failed(message, Seq::empty(), open.index),
        Ok(_) => {
            let head = tag_at(text, open.index);
            match head.value {
                Err(message) => failed(message, Seq::empty(), head.index),
                Ok(found) => if found.self_closed || is_void_tag(found.tag_name) {
                    NodeStep {
                        result: Ok(element_tree(found, Seq::empty())),
                        warnings: Seq::empty(),
                        index: head.index,
                    }
                // The second branch is never taken (`lemma_tag_ends`): a tag head ends
                // behind its `<`.
                } else if head.index <= index || head.index > text.len() {
                    failed(end_of_input_message(), Seq::empty(), head.index)
                } else {
                    let body = nodes_at(text, head.index, stack.push(found.tag_name));
                    let close = closing_tag_at(text, body.index, found.tag_name, stack);
                    match close.value {
                        Err(message) => failed(message, body.warnings, close.index),
                        Ok(_) => NodeStep {
                            result: Ok(element_tree(found, body.nodes)),
                            warnings: body.warnings,
                            index: close.index,
                        },
                    }
                },
            }
        },
    }
}

/// One node: a comment, a character data block, a doctype or an element where a
/// `<` stands, a run of text elsewhere.
pub open spec fn node_at(text: Seq<char>, index: int, stack: Seq<Seq<char>>) -> NodeStep
    decreases text.len() - index, 1int,
{
    if 0 <= index < text.len() && text[index] == '<' {
        if occurs_at(text, index, "<!--"@) {
            comment_at(text, index)
        } else if occurs_at(text, index, "<![CDATA["@) {
            cdata_at(text, index)
        } else if occurs_at(text, index, "<!"@) {
            doctype_at(text, index)
        } else {
            element_at(text, index, stack)
        }
    } else {
        text_at(text, index)
    }
}

/// What a step adds to its siblings: a node, or nothing.
pub open spec fn yielded(step: NodeStep) -> Seq<Tree> {
    match step.result {
        Ok(node) => seq![node],
        Err(_) => Seq::empty(),
    }
}

/// The warnings of a step: those of its descendants, then its own failure.
pub open spec fn reported(text: Seq<char>, step: NodeStep) -> Seq<Seq<char>> {
    match step.result {
        Ok(_) => step.warnings,
        Err(message) => step.warnings.push(
            warning_text(position_at(text, step.index), message),
        ),
    }
}

/// Sibling nodes up to the end of the text or to the next closing tag. A node
/// that fails is left out, and a warning stands for it.
pub open spec fn nodes_at(text: Seq<char>, index: int, stack: Seq<Seq<char>>) -> NodesStep
    decreases text.len() - index, 2int,
{
    let start = whitespace_end(text, index);
    if !(0 <= index <= start < text.len()) || occurs_at(text, start, "</"@) {
        NodesStep { nodes: Seq::empty(), warnings: Seq::empty(), index: start }
    } else {
        let step = node_at(text, start, stack);
        // Never taken (`lemma_node_advances`): a node ends behind its start.
        if step.index <= start || step.index > text.len() {
            NodesStep { nodes: yielded(step), warnings: reported(text, step), index: step.index }
        } else {
            let rest = nodes_at(text, step.index, stack);
            NodesStep {
                nodes: yielded(step) + rest.nodes,
                warnings: reported(text, step) + rest.warnings,
                index: rest.index,
            }
        }
    }
}

/// A search for a pattern ends inside the text.
pub proof fn lemma_find_pattern_ends(text: Seq<char>, from: int, pattern: Seq<char>)
    requires
        0 <= from <= text.len(),
    ensures
        from <= find_pattern(text, from, pattern) <= text.len(),
    decreases text.len() - from,
{
    if from < text.len() && !occurs_at(text, from, pattern) {
        lemma_find_pattern_ends(text, from + 1, pattern);
    }
}

/// Attributes end inside the text, at or behind their start.
pub proof fn lemma_attributes_end(
    text: Seq<char>,
    index: int,
    attributes: Seq<(Seq<char>, Seq<char>)>,
)
    requires
        0 <= index <= text.len(),
    ensures
        index <= attributes_at(text, index, attributes).index <= text.len(),
    decreases text.len() - index,
{
    lemma_scan_bounds(text, index);
    let start = whitespace_end(text, index);
    if start < text.len() && text[start] != '>' && text[start] != '/' {
        lemma_scan_bounds(text, start);
        let end = name_end(text, start);
        if end < text.len() && text[end] == '=' {
            let value = attribute_value_at(text, end + 1);
            if end + 1 < text.len() {
                lemma_until_ends(text, end + 2, text[end + 1]);
            }
            if value.value is Ok {
                lemma_attributes_end(
                    text,
                    value.index,
                    inserted(attributes, text.subrange(start, end), value.value->Ok_0),
                );
            }
        }
    }
}

/// A tag head ends inside the text, at or behind its start.
pub proof fn lemma_tag_ends(text: Seq<char>, index: int)
    requires
        0 <= index <= text.len(),
    ensures
        index <= tag_at(text, index).index <= text.len(),
{
    lemma_scan_bounds(text, index);
    lemma_scan_bounds(text, whitespace_end(text, index));
    let name = tag_name_at(text, index);
    lemma_attributes_end(text, name.index, Seq::empty());
    lemma_scan_bounds(text, attributes_at(text, name.index, Seq::empty()).index);
}

/// A closing tag ends inside the text, at or behind its start.
pub proof fn lemma_closing_tag_ends(
    text: Seq<char>,
    index: int,
    tag_name: Seq<char>,
    stack: Seq<Seq<char>>,
)
    requires
        0 <= index <= text.len(),
    ensures
        index <= closing_tag_at(text, index, tag_name, stack).index <= text.len(),
{
    let open = expect(text, index, "</"@);
    lemma_scan_bounds(text, open.index);
    lemma_scan_bounds(text, whitespace_end(text, open.index));
    lemma_scan_bounds(text, tag_name_at(text, open.index).index);
}

/// Every node takes at least one character: the parser never stands still.
pub proof fn lemma_node_advances(text: Seq<char>, index: int, stack: Seq<Seq<char>>)
    requires
        0 <= index < text.len(),
    ensures
        index < node_at(text, index, stack).index <= text.len(),
    decreases text.len() - index, 1int,
{
    reveal_strlit("<!--");
    reveal_strlit("<![CDATA[");
    reveal_strlit("<!DOCTYPE");
    reveal_strlit("-->");
    reveal_strlit("]]>");
    reveal_strlit(">");
    if text[index] == '<' {
        if occurs_at(text, index, "<!--"@) {
            lemma_find_pattern_ends(text, index + 4, "-->"@);
        } else if occurs_at(text, index, "<![CDATA["@) {
            lemma_find_pattern_ends(text, index + 9, "]]>"@);
        } else if occurs_at(text, index, "<!"@) {
            let open = expect(text, index, "<!DOCTYPE"@);
            lemma_scan_bounds(text, open.index);
            lemma_scan_bounds(text, whitespace_end(text, open.index));
            lemma_scan_bounds(text, word_end(text, whitespace_end(text, open.index)));
        } else {
            lemma_element_advances(text, index, stack);
        }
    } else {
        lemma_until_ends(text, index + 1, '<');
    }
}

/// Every element takes at least one character.
pub proof fn lemma_element_advances(text: Seq<char>, index: int, stack: Seq<Seq<char>>)
    requires
        0 <= index < text.len(),
    ensures
        index < element_at(text, index, stack).index <= text.len(),
    decreases text.len() - index, 0int,
{
    reveal_strlit("<");
    let open = expect(text, index, "<"@);
    if open.value is Ok {
        lemma_tag_ends(text, open.index);
        let head = tag_at(text, open.index);
        if head.value is Ok {
            let found = head.value->Ok_0;
            if !(found.self_closed || is_void_tag(found.tag_name)) {
                lemma_nodes_end(text, head.index, stack.push(found.tag_name));
                let body = nodes_at(text, head.index, stack.push(found.tag_name));
                lemma_closing_tag_ends(text, body.index, found.tag_name, stack);
            }
        }
    }
}

/// A run of sibling nodes ends inside the text, at or behind its start.
pub proof fn lemma_nodes_end(text: Seq<char>, index: int, stack: Seq<Seq<char>>)
    requires
        0 <= index <= text.len(),
    ensures
        index <= nodes_at(text, index, stack).index <= text.len(),
    decreases text.len() - index, 2int,
{
    lemma_scan_bounds(text, index);
    let start = whitespace_end(text, index);
    if start < text.len() && !occurs_at(text, start, "</"@) {
        lemma_node_advances(text, start, stack);
        lemma_nodes_end(text, node_at(text, start, stack).index, stack);
    }
}

/// Only elements have children, and void elements have none, all the way
/// down the tree.
pub open spec fn well_shaped(tree: Tree) -> bool
    decreases tree,
{
    &&& match tree.kind {
        NodeKind::Element { tag_name, attributes } => is_void_tag(tag_name)
            ==> tree.children.len() == 0,
        _ => tree.children.len() == 0,
    }
    &&& forall|i: int|
        0 <= i < tree.children.len() ==> well_shaped(#[trigger] tree.children[i])
}

/// Each of the trees is well shaped.
pub open spec fn all_well_shaped(trees: Seq<Tree>) -> bool {
    forall|i: int| 0 <= i < trees.len() ==> well_shaped(#[trigger] trees[i])
}

/// A node that the parser yields is well shaped.
pub proof fn lemma_node_well_shaped(text: Seq<char>, index: int, stack: Seq<Seq<char>>)
    requires
        0 <= index < text.len(),
    ensures
        node_at(text, index, stack).result is Ok ==> well_shaped(
            node_at(text, index, stack).result->Ok_0,
        ),
    decreases text.len() - index, 1int,
{
    if text[index] == '<' && !occurs_at(text, index, "<!--"@) && !occurs_at(
        text,
        index,
        "<![CDATA["@,
    ) && !occurs_at(text, index, "<!"@) {
        lemma_element_well_shaped(text, index, stack);
    }
}

/// An element that the parser yields is well shaped.
pub proof fn lemma_element_well_shaped(text: Seq<char>, index: int, stack: Seq<Seq<char>>)
    requires
        0 <= index < text.len(),
    ensures
        element_at(text, index, stack).result is Ok ==> well_shaped(
            element_at(text, index, stack).result->Ok_0,
        ),
    decreases text.len() - index, 0int,
{
    reveal_strlit("<");
    let open = expect(text, index, "<"@);
    if open.value is Ok {
        lemma_tag_ends(text, open.index);
        let head = tag_at(text, open.index);
        if head.value is Ok {
            let found = head.value->Ok_0;
            if !(found.self_closed || is_void_tag(found.tag_name)) {
                lemma_nodes_well_shaped(text, head.index, stack.push(found.tag_name));
            }
        }
    }
}

/// The nodes that the parser yields are well shaped.
pub proof fn lemma_nodes_well_shaped(text: Seq<char>, index: int, stack: Seq<Seq<char>>)
    requires
        0 <= index <= text.len(),
    ensures
        all_well_shaped(nodes_at(text, index, stack).nodes),
    decreases text.len() - index, 2int,
{
    lemma_scan_bounds(text, index);
    let start = whitespace_end(text, index);
    if start < text.len() && !occurs_at(text, start, "</"@) {
        lemma_node_advances(text, start, stack);
        lemma_node_well_shaped(text, start, stack);
        let step = node_at(text, start, stack);
        lemma_nodes_well_shaped(text, step.index, stack);
        let rest = nodes_at(text, step.index, stack);
        let all = nodes_at(text, index, stack).nodes;
        assert forall|i: int| 0 <= i < all.len() implies well_shaped(#[trigger] all[i]) by {
            if i >= yielded(step).len() {
                assert(all[i] == rest.nodes[i - yielded(step).len()]);
            }
        }
    }
}

/// In the forest of a text, only elements have children and void elements
/// have none.
pub proof fn lemma_parsed_nodes_well_shaped(text: Seq<char>)
    ensures
        all_well_shaped(parsed_nodes(text)),
{
    lemma_nodes_well_shaped(text, 0, Seq::empty());
}

/// The forest that `text` holds.
pub open spec fn parsed_nodes(text: Seq<char>) -> Seq<Tree> {
    nodes_at(text, 0, Seq::empty()).nodes
}

/// The warnings that parsing `text` gives.
pub open spec fn parsed_warnings(text: Seq<char>) -> Seq<Seq<char>> {
    nodes_at(text, 0, Seq::empty()).warnings
}

} // verus!
