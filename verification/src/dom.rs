//! The tree that the markup parser builds.
use crate::string_map::{inserted, lemma_position_of, lookup, position_of, StringMap};
use crate::parser::{create, lemma_scan_bounds, lemma_scan_while, whitespace_end, word_break};
use crate::text::{is_whitespace_char, lemma_texts_push, texts};
use vstd::prelude::*;
use vstd::string::*;

verus! {

/// Attributes of an element, by name.
pub type AttrMap = StringMap<String>;

/// What a node is, as plain values.
pub ghost enum NodeKind {
    Comment(Seq<char>),
    CData(Seq<char>),
    DocType { version: Seq<char> },
    Element { tag_name: Seq<char>, attributes: Seq<(Seq<char>, Seq<char>)> },
    Text(Seq<char>),
}

/// A node with its subtree, as plain values.
pub ghost struct Tree {
    pub kind: NodeKind,
    pub children: Seq<Tree>,
}

/// A node without children.
pub open spec fn leaf(kind: NodeKind) -> Tree {
    Tree { kind, children: Seq::empty() }
}

/// The entries with each value taken by its characters.
pub open spec fn entries_model(entries: Seq<(Seq<char>, String)>) -> Seq<(Seq<char>, Seq<char>)> {
    Seq::new(entries.len(), |i: int| (entries[i].0, entries[i].1@))
}

/// The attributes in their order, each value taken by its characters.
pub open spec fn attributes_model(attributes: AttrMap) -> Seq<(Seq<char>, Seq<char>)> {
    entries_model(attributes.entries())
}

/// A key stands at the same place in the entries and in their model.
pub proof fn lemma_model_position(entries: Seq<(Seq<char>, String)>, key: Seq<char>)
    ensures
        position_of(entries_model(entries), key) == position_of(entries, key),
{
    let model = entries_model(entries);
    lemma_position_of(entries, key);
    lemma_position_of(model, key);
    let p = position_of(entries, key);
    let q = position_of(model, key);
    if p < q {
        assert(model[p].0 == entries[p].0);
    }
    if q < p {
        assert(model[q].0 == entries[q].0);
    }
}

/// Inserting into the entries inserts into their model.
pub proof fn lemma_model_inserted(entries: Seq<(Seq<char>, String)>, key: Seq<char>, value: String)
    ensures
        entries_model(inserted(entries, key, value)) == inserted(
            entries_model(entries),
            key,
            value@,
        ),
{
    lemma_model_position(entries, key);
    lemma_position_of(entries, key);
}

/// The words of `text` from `from` on: its runs of anything but white space.
pub open spec fn words_from(text: Seq<char>, from: int) -> Seq<Seq<char>>
    decreases text.len() - from,
{
    let start = whitespace_end(text, from);
    let end = word_break(text, start);
    if !(0 <= from <= start < end <= text.len()) {
        Seq::empty()
    } else {
        seq![text.subrange(start, end)] + words_from(text, end)
    }
}

/// The value of the attribute `id`, if there is one.
pub open spec fn element_id(attributes: Seq<(Seq<char>, Seq<char>)>) -> Option<Seq<char>> {
    lookup(attributes, "id"@)
}

/// The words of the attribute `class`.
pub open spec fn element_classes(attributes: Seq<(Seq<char>, Seq<char>)>) -> Seq<Seq<char>> {
    match lookup(attributes, "class"@) {
        Some(value) => words_from(value, 0),
        None => Seq::empty(),
    }
}

/// What a doctype declares.
#[derive(Debug, Clone)]
pub struct DocTypeData {
    pub version: String,
}

/// The tag and the attributes of an element.
#[derive(Debug)]
pub struct ElementData {
    pub tag_name: String,
    pub attributes: AttrMap,
}

/// What a node is.
#[derive(Debug)]
pub enum NodeType {
    Comment(String),
    CData(String),
    DocType(DocTypeData),
    Element(ElementData),
    Text(String),
}

/// A node of the tree, with its children.
#[derive(Debug)]
pub struct Node {
    pub children: Vec<Node>,
    pub node_type: NodeType,
}

impl ElementData {
    /// The element's id.
    pub fn id(&self) -> (r: Option<&String>)
        ensures
            match r {
                Some(id) => element_id(attributes_model(self.attributes)) == Some(id@),
                None => element_id(attributes_model(self.attributes)) is None,
            },
    {
        proof {
            lemma_model_position(self.attributes.entries(), "id"@);
            lemma_position_of(self.attributes.entries(), "id"@);
        }
        self.attributes.get("id")
    }

    /// The element's classes.
    pub fn class_list(&self) -> (classes: Vec<String>)
        ensures
            texts(classes@) == element_classes(attributes_model(self.attributes)),
    {
        let mut classes: Vec<String> = Vec::new();
        proof {
            lemma_model_position(self.attributes.entries(), "class"@);
            lemma_position_of(self.attributes.entries(), "class"@);
        }
        let value = match self.attributes.get("class") {
            Some(value) => value,
            None => {
                return classes;
            },
        };
        let mut cursor = create(value.clone());
        let ghost text = value@;
        loop
            invariant
                cursor.wf(),
                cursor.text() == text,
                0 <= cursor.index() <= text.len(),
                words_from(text, 0) == texts(classes@) + words_from(text, cursor.index()),
                element_classes(attributes_model(self.attributes)) == words_from(text, 0),
            decreases text.len() - cursor.index(),
        {
            let ghost from = cursor.index();
            proof {
                lemma_scan_bounds(text, from);
                lemma_scan_bounds(text, whitespace_end(text, from));
            }
            cursor.consume_whitespace();
            if cursor.eof() {
                return classes;
            }
            let ghost start = cursor.index();
            let word = cursor.consume_non_whitespace();
            proof {
                lemma_scan_while(text, start, |c: char| !is_whitespace_char(c));
                lemma_scan_while(text, from, |c: char| is_whitespace_char(c));
                lemma_texts_push(classes@, word);
            }
            classes.push(word);
        }
    }
}

impl NodeType {
    /// The node type as plain values.
    pub open spec fn model(&self) -> NodeKind {
        match *self {
            NodeType::Comment(content) => NodeKind::Comment(content@),
            NodeType::CData(content) => NodeKind::CData(content@),
            NodeType::DocType(data) => NodeKind::DocType { version: data.version@ },
            NodeType::Element(data) => NodeKind::Element {
                tag_name: data.tag_name@,
                attributes: attributes_model(data.attributes),
            },
            NodeType::Text(content) => NodeKind::Text(content@),
        }
    }
}

/// `n` spaces.
pub open spec fn spaces(n: nat) -> Seq<char> {
    Seq::new(n, |i: int| ' ')
}

/// An attribute as it is printed: the name, a colon, the value in quotes.
pub open spec fn attribute_text(name: Seq<char>, value: Seq<char>) -> Seq<char> {
    name + ": \""@ + value + "\""@
}

/// Attributes as they are printed: in their order, separated by a comma and a
/// space.
pub open spec fn attributes_text(entries: Seq<(Seq<char>, Seq<char>)>) -> Seq<char>
    decreases entries.len(),
{
    if entries.len() == 0 {
        Seq::empty()
    } else if entries.len() == 1 {
        attribute_text(entries[0].0, entries[0].1)
    } else {
        attributes_text(entries.drop_last()) + ", "@ + attribute_text(
            entries.last().0,
            entries.last().1,
        )
    }
}

impl NodeType {
    /// The line that stands for a node of this type in a printed tree.
    pub open spec fn label(&self) -> Seq<char> {
        match *self {
            NodeType::Text(content) => "Text {"@ + content@ + "}"@,
            NodeType::DocType(data) => "DocType {"@ + data.version@ + "}"@,
            NodeType::Comment(content) => "Comment {"@ + content@ + "}"@,
            NodeType::CData(content) => "CData {"@ + content@ + "}"@,
            NodeType::Element(data) => data.tag_name@ + " {"@ + attributes_text(
                attributes_model(data.attributes),
            ) + "}"@,
        }
    }

    fn print_label(&self) -> (s: String)
        ensures
            s@ == self.label(),
    {
        match self {
            NodeType::Text(content) => {
                let mut s = String::from_str("Text {");
                s.append(content.as_str());
                s.append("}");
                s
            },
            NodeType::DocType(data) => {
                let mut s = String::from_str("DocType {");
                s.append(data.version.as_str());
                s.append("}");
                s
            },
            NodeType::Comment(content) => {
                let mut s = String::from_str("Comment {");
                s.append(content.as_str());
                s.append("}");
                s
            },
            NodeType::CData(content) => {
                let mut s = String::from_str("CData {");
                s.append(content.as_str());
                s.append("}");
                s
            },
            NodeType::Element(data) => {
                let mut output = data.tag_name.clone();
                output.append(" {");
                let ghost head = output@;
                let ghost entries = attributes_model(data.attributes);
                let mut i: usize = 0;
                while i < data.attributes.len()
                    invariant
                        i <= entries.len(),
                        entries == attributes_model(data.attributes),
                        output@ == head + attributes_text(entries.subrange(0, i as int)),
                    decreases entries.len() - i,
                {
                    let ghost before = output@;
                    if i > 0 {
                        output.append(", ");
                    }
                    output.append(data.attributes.key_at(i).as_str());
                    output.append(": \"");
                    output.append(data.attributes.value_at(i).as_str());
                    output.append("\"");
                    i += 1;
                    proof {
                        let shown = entries.subrange(0, i as int);
                        assert(shown.drop_last() =~= entries.subrange(0, i - 1));
                        let item = attribute_text(shown.last().0, shown.last().1);
                        if i == 1 {
                            assert(shown[0] == shown.last());
                        } else {
                            assert(output@ =~= before + ", "@ + item);
                        }
                    }
                }
                proof {
                    assert(entries.subrange(0, i as int) =~= entries);
                }
                output.append("}");
                output
            },
        }
    }
}

impl Node {
    /// The tree as it is printed at `depth`: one line for the node, indented by
    /// `depth` spaces, then its children, each one deeper.
    pub open spec fn printed(&self, depth: nat) -> Seq<char>
        decreases self, self.children@.len() + 1,
    {
        spaces(depth) + self.node_type.label() + "\n"@ + self.printed_children(
            self.children@.len(),
            depth + 1,
        )
    }

    /// The first `n` children as they are printed at `depth`.
    pub open spec fn printed_children(&self, n: nat, depth: nat) -> Seq<char>
        decreases self, n,
    {
        if n == 0 || n > self.children@.len() {
            Seq::empty()
        } else {
            self.printed_children((n - 1) as nat, depth) + self.children@[n - 1].printed(depth)
        }
    }

    /// The tree as it is printed at depth 0.
    pub fn to_string(&self) -> (s: String)
        ensures
            s@ == self.printed(0),
    {
        self.pretty_print(0)
    }

    /// Prints the tree at `depth`.
    pub fn pretty_print(&self, depth: usize) -> (s: String)
        ensures
            s@ == self.printed(depth as nat),
    {
        let mut indent = String::new();
        let mut i: usize = 0;
        while i < depth
            invariant
                i <= depth,
                indent@ == spaces(i as nat),
            decreases depth - i,
        {
            indent.push(' ');
            i += 1;
        }
        self.print_indented(indent.as_str())
    }

    fn print_indented(&self, indent: &str) -> (s: String)
        requires
            indent@ == spaces(indent@.len()),
        ensures
            s@ == self.printed(indent@.len()),
        decreases self,
    {
        let mut deeper = String::from_str(indent);
        deeper.push(' ');
        let mut children_output = String::new();
        let mut i: usize = 0;
        while i < self.children.len()
            invariant
                i <= self.children.len(),
                deeper@ == spaces(indent@.len() + 1),
                deeper@.len() == indent@.len() + 1,
                children_output@ == self.printed_children(i as nat, indent@.len() + 1),
            decreases self.children.len() - i,
        {
            let child = self.children[i].print_indented(deeper.as_str());
            children_output.append(child.as_str());
            i += 1;
        }
        let mut output = String::from_str(indent);
        let tag = self.node_type.print_label();
        output.append(tag.as_str());
        output.append("\n");
        output.append(children_output.as_str());
        output
    }

    /// The node and its subtree as plain values.
    pub open spec fn model(&self) -> Tree
        decreases self,
    {
        Tree {
            kind: self.node_type.model(),
            children: Seq::new(
                self.children@.len(),
                |i: int|
                    if 0 <= i < self.children@.len() {
                        self.children@[i].model()
                    } else {
                        leaf(NodeKind::Text(Seq::empty()))
                    },
            ),
        }
    }
}

/// The trees of `nodes`, in order.
pub open spec fn forest_model(nodes: Seq<Node>) -> Seq<Tree> {
    Seq::new(nodes.len(), |i: int| nodes[i].model())
}

/// The children of a node's model are the models of its children.
pub proof fn lemma_children_model(node: Node)
    ensures
        node.model().children == forest_model(node.children@),
{
    assert(node.model().children =~= forest_model(node.children@));
}

/// The model of a forest grows with the forest.
pub proof fn lemma_forest_push(nodes: Seq<Node>, node: Node)
    ensures
        forest_model(nodes.push(node)) == forest_model(nodes).push(node.model()),
{
    assert(forest_model(nodes.push(node)) =~= forest_model(nodes).push(node.model()));
}

/// A doctype node.
pub fn doctype(version: String) -> (node: Node)
    ensures
        node.model() == leaf(NodeKind::DocType { version: version@ }),
{
    let node = Node {
        children: Vec::new(),
        node_type: NodeType::DocType(DocTypeData { version: version }),
    };
    proof {
        assert(node.model().children =~= Seq::empty());
    }
    node
}

/// A text node.
pub fn text(data: String) -> (node: Node)
    ensures
        node.model() == leaf(NodeKind::Text(data@)),
{
    let node = Node { children: Vec::new(), node_type: NodeType::Text(data) };
    proof {
        assert(node.model().children =~= Seq::empty());
    }
    node
}

/// A comment node.
pub fn comment(content: String) -> (node: Node)
    ensures
        node.model() == leaf(NodeKind::Comment(content@)),
{
    let node = Node { children: Vec::new(), node_type: NodeType::Comment(content) };
    proof {
        assert(node.model().children =~= Seq::empty());
    }
    node
}

/// A character data node.
pub fn cdata(content: String) -> (node: Node)
    ensures
        node.model() == leaf(NodeKind::CData(content@)),
{
    let node = Node { children: Vec::new(), node_type: NodeType::CData(content) };
    proof {
        assert(node.model().children =~= Seq::empty());
    }
    node
}

/// An element node with these attributes and children.
pub fn element(name: String, attrs: AttrMap, children: Vec<Node>) -> (node: Node)
    ensures
        node.model() == (Tree {
            kind: NodeKind::Element { tag_name: name@, attributes: attributes_model(attrs) },
            children: forest_model(children@),
        }),
        node.children == children,
{
    let node = Node {
        children,
        node_type: NodeType::Element(ElementData { tag_name: name, attributes: attrs }),
    };
    proof {
        lemma_children_model(node);
    }
    node
}

impl Clone for NodeType {
    fn clone(&self) -> (res: Self)
        ensures
            res.model() == self.model(),
    {
        match self {
            NodeType::Comment(content) => NodeType::Comment(content.clone()),
            NodeType::CData(content) => NodeType::CData(content.clone()),
            NodeType::DocType(data) => NodeType::DocType(
                DocTypeData { version: data.version.clone() },
            ),
            NodeType::Element(data) => {
                let copy = data.clone();
                proof {
                    lemma_same_attributes(data.attributes, copy.attributes);
                }
                NodeType::Element(copy)
            },
            NodeType::Text(content) => NodeType::Text(content.clone()),
        }
    }
}

impl Clone for Node {
    fn clone(&self) -> (res: Self)
        ensures
            res.model() == self.model(),
        decreases self,
    {
        let mut children: Vec<Node> = Vec::new();
        let mut i: usize = 0;
        while i < self.children.len()
            invariant
                i <= self.children.len(),
                children@.len() == i,
                forall|k: int|
                    0 <= k < i ==> (#[trigger] children@[k]).model() == self.children@[k].model(),
            decreases self.children.len() - i,
        {
            let child = self.children[i].clone();
            children.push(child);
            i += 1;
        }
        let res = Node { children, node_type: self.node_type.clone() };
        proof {
            assert(res.model().children =~= self.model().children);
        }
        res
    }
}

/// Maps with the same entries, value by value, have the same model.
pub proof fn lemma_same_attributes(a: AttrMap, b: AttrMap)
    requires
        a.entries().len() == b.entries().len(),
        forall|i: int|
            0 <= i < a.entries().len() ==> (#[trigger] b.entries()[i]).0 == a.entries()[i].0
                && b.entries()[i].1@ == a.entries()[i].1@,
    ensures
        attributes_model(a) == attributes_model(b),
{
    assert(attributes_model(a) =~= attributes_model(b));
}

impl Clone for ElementData {
    fn clone(&self) -> (res: Self)
        ensures
            res.tag_name@ == self.tag_name@,
            res.attributes.entries().len() == self.attributes.entries().len(),
            forall|i: int|
                0 <= i < self.attributes.entries().len() ==> (
                #[trigger] res.attributes.entries()[i]).0 == self.attributes.entries()[i].0
                    && res.attributes.entries()[i].1@ == self.attributes.entries()[i].1@,
    {
        ElementData { tag_name: self.tag_name.clone(), attributes: self.attributes.clone() }
    }
}

} // verus!
