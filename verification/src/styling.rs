//! The resolver: which declarations hold for each element of a tree.
//!
//! For an element, each rule with a selector that accepts it counts, with the
//! weight of the first such selector. The rules are applied from the lightest
//! to the heaviest, rules of one weight in source order, each rule's
//! declarations in source order, and a later value replaces an earlier one.
use crate::cssom::{
    selector_matches, weight, weight_less, DeclarationView, Rule, RuleView, SelectorView,
    Specificity, StyleSheet, Value, ValueView,
};
use crate::dom::{attributes_model, ElementData, Node, NodeKind, NodeType, Tree};
use crate::string_map::StringMap;
use crate::text::views;
use vstd::prelude::*;

verus! {

/// The values that hold for an element, by property.
pub type PropertyMap = StringMap<Value>;

/// The properties with each value taken as plain text.
pub open spec fn properties_model(values: PropertyMap) -> Map<Seq<char>, ValueView> {
    values@.map_values(|value: Value| value@)
}

/// A rule that holds for an element, and the weight with which it holds.
pub ghost struct Matched {
    pub weight: (nat, nat, nat),
    pub rule: RuleView,
}

/// A node with the values that hold for it, and its subtree, as plain values.
pub ghost struct StyledTree {
    pub kind: NodeKind,
    pub specified_values: Map<Seq<char>, ValueView>,
    pub children: Seq<StyledTree>,
}

/// The weight of the first of `selectors` that accepts the element.
pub open spec fn first_match(
    selectors: Seq<SelectorView>,
    tag_name: Seq<char>,
    attributes: Seq<(Seq<char>, Seq<char>)>,
) -> Option<(nat, nat, nat)>
    decreases selectors.len(),
{
    if selectors.len() == 0 {
        None
    } else if selector_matches(selectors[0], tag_name, attributes) {
        Some(weight(selectors[0]))
    } else {
        first_match(selectors.drop_first(), tag_name, attributes)
    }
}

/// The rules that hold for the element, in source order.
pub open spec fn matching_rules(
    rules: Seq<RuleView>,
    tag_name: Seq<char>,
    attributes: Seq<(Seq<char>, Seq<char>)>,
) -> Seq<Matched>
    decreases rules.len(),
{
    if rules.len() == 0 {
        Seq::empty()
    } else {
        let earlier = matching_rules(rules.drop_last(), tag_name, attributes);
        match first_match(rules.last().selectors, tag_name, attributes) {
            Some(found) => earlier.push(Matched { weight: found, rule: rules.last() }),
            None => earlier,
        }
    }
}

/// Where a rule of weight `w` goes among `ranked`: behind the last rule that
/// weighs no more than it.
pub open spec fn insertion_point(ranked: Seq<Matched>, w: (nat, nat, nat)) -> int
    decreases ranked.len(),
{
    if ranked.len() == 0 {
        0
    } else if weight_less(w, ranked.last().weight) {
        insertion_point(ranked.drop_last(), w)
    } else {
        ranked.len() as int
    }
}

/// The rules from the lightest to the heaviest, rules of one weight in the
/// order in which they came.
pub open spec fn ranked(matches: Seq<Matched>) -> Seq<Matched>
    decreases matches.len(),
{
    if matches.len() == 0 {
        Seq::empty()
    } else {
        let earlier = ranked(matches.drop_last());
        earlier.insert(insertion_point(earlier, matches.last().weight), matches.last())
    }
}

/// `values` after the declarations, each replacing what its property had.
pub open spec fn with_declarations(
    values: Map<Seq<char>, ValueView>,
    declarations: Seq<DeclarationView>,
) -> Map<Seq<char>, ValueView>
    decreases declarations.len(),
{
    if declarations.len() == 0 {
        values
    } else {
        with_declarations(values, declarations.drop_last()).insert(
            declarations.last().name,
            declarations.last().value,
        )
    }
}

/// `values` after the declarations of each of the rules, in order.
pub open spec fn with_rules(values: Map<Seq<char>, ValueView>, rules: Seq<Matched>) -> Map<
    Seq<char>,
    ValueView,
>
    decreases rules.len(),
{
    if rules.len() == 0 {
        values
    } else {
        with_declarations(with_rules(values, rules.drop_last()), rules.last().rule.declarations)
    }
}

/// The values that `rules` give to an element with this tag and these
/// attributes.
pub open spec fn specified_values(
    rules: Seq<RuleView>,
    tag_name: Seq<char>,
    attributes: Seq<(Seq<char>, Seq<char>)>,
) -> Map<Seq<char>, ValueView> {
    with_rules(Map::empty(), ranked(matching_rules(rules, tag_name, attributes)))
}

/// The values that `rules` give to a node: those of its element, or none.
pub open spec fn node_values(kind: NodeKind, rules: Seq<RuleView>) -> Map<Seq<char>, ValueView> {
    match kind {
        NodeKind::Element { tag_name, attributes } => specified_values(
            rules,
            tag_name,
            attributes,
        ),
        _ => Map::empty(),
    }
}

/// The tree with the values that `rules` give to each of its nodes.
pub open spec fn styled(tree: Tree, rules: Seq<RuleView>) -> StyledTree
    decreases tree,
{
    StyledTree {
        kind: tree.kind,
        specified_values: node_values(tree.kind, rules),
        children: Seq::new(
            tree.children.len(),
            |i: int|
                if 0 <= i < tree.children.len() {
                    styled(tree.children[i], rules)
                } else {
                    StyledTree {
                        kind: tree.kind,
                        specified_values: Map::empty(),
                        children: Seq::empty(),
                    }
                },
        ),
    }
}

/// A node with the values that hold for it.
#[derive(Debug)]
pub struct StyledNode {
    pub node_type: NodeType,
    pub specified_values: PropertyMap,
    pub children: Vec<StyledNode>,
}

impl StyledNode {
    /// The node and its subtree as plain values.
    pub open spec fn model(&self) -> StyledTree
        decreases self,
    {
        StyledTree {
            kind: self.node_type.model(),
            specified_values: properties_model(self.specified_values),
            children: Seq::new(
                self.children@.len(),
                |i: int|
                    if 0 <= i < self.children@.len() {
                        self.children@[i].model()
                    } else {
                        StyledTree {
                            kind: self.node_type.model(),
                            specified_values: Map::empty(),
                            children: Seq::empty(),
                        }
                    },
            ),
        }
    }
}

/// A rule that holds, with its weight, as plain values.
pub open spec fn matched_view(m: (Specificity, &Rule)) -> Matched {
    Matched { weight: m.0@, rule: m.1@ }
}

/// The rules that hold, with their weights, as plain values.
pub open spec fn matched_views(matches: Seq<(Specificity, &Rule)>) -> Seq<Matched> {
    Seq::new(matches.len(), |i: int| matched_view(matches[i]))
}

/// Gives each node of the tree under `dom` the values that `style_sheet` gives
/// it. The shape of the tree and the order of the children stay.
pub fn apply_styling(dom: &Node, style_sheet: &StyleSheet) -> (tree: StyledNode)
    ensures
        tree.model() == styled(dom.model(), style_sheet@),
{
    style_node(dom, &style_sheet.rules)
}

/// Gives each node of the tree under `node` the values that `rules` give it.
pub fn style_node(node: &Node, rules: &Vec<Rule>) -> (tree: StyledNode)
    ensures
        tree.model() == styled(node.model(), views(rules@)),
    decreases node,
{
    let specified_values = match &node.node_type {
        NodeType::Element(element) => build_style(element, rules),
        _ => {
            let values = PropertyMap::new();
            proof {
                assert(properties_model(values) =~= Map::<Seq<char>, ValueView>::empty());
            }
            values
        },
    };
    let mut children: Vec<StyledNode> = Vec::new();
    let mut i: usize = 0;
    while i < node.children.len()
        invariant
            i <= node.children.len(),
            children@.len() == i,
            forall|k: int|
                0 <= k < i ==> (#[trigger] children@[k]).model() == styled(
                    node.children@[k].model(),
                    views(rules@),
                ),
        decreases node.children.len() - i,
    {
        let child = style_node(&node.children[i], rules);
        children.push(child);
        i += 1;
    }
    let tree = StyledNode { node_type: node.node_type.clone(), specified_values, children };
    proof {
        assert(tree.model().children =~= styled(node.model(), views(rules@)).children);
    }
    tree
}

/// The rule with the weight of its first selector that accepts `element`, if
/// one does.
pub fn match_rule<'a>(element: &ElementData, rule: &'a Rule) -> (r: Option<(Specificity, &'a Rule)>)
    ensures
        match (
            r,
            first_match(rule@.selectors, element.tag_name@, attributes_model(element.attributes)),
        ) {
            (Some(found), Some(w)) => found.0@ == w && found.1 == rule,
            (None, None) => true,
            _ => false,
        },
{
    let ghost tag_name = element.tag_name@;
    let ghost attributes = attributes_model(element.attributes);
    let ghost all = views(rule.selectors@);
    let mut i: usize = 0;
    proof {
        assert(all.subrange(0, all.len() as int) =~= all);
    }
    while i < rule.selectors.len()
        invariant
            i <= rule.selectors.len(),
            all == views(rule.selectors@),
            tag_name == element.tag_name@,
            attributes == attributes_model(element.attributes),
            first_match(all, tag_name, attributes) == first_match(
                all.subrange(i as int, all.len() as int),
                tag_name,
                attributes,
            ),
        decreases rule.selectors.len() - i,
    {
        let ghost rest = all.subrange(i as int, all.len() as int);
        proof {
            assert(rest.drop_first() =~= all.subrange(i + 1, all.len() as int));
        }
        if rule.selectors[i].matches(element) {
            return Some((rule.selectors[i].specificity(), rule));
        }
        i += 1;
    }
    None
}

/// The rules that hold for `element`, in source order, each with its weight.
pub fn determine_matching_rules<'a>(element: &ElementData, rules: &'a Vec<Rule>) -> (matches: Vec<
    (Specificity, &'a Rule),
>)
    ensures
        matched_views(matches@) == matching_rules(
            views(rules@),
            element.tag_name@,
            attributes_model(element.attributes),
        ),
{
    let ghost tag_name = element.tag_name@;
    let ghost attributes = attributes_model(element.attributes);
    let ghost all = views(rules@);
    let mut matches: Vec<(Specificity, &'a Rule)> = Vec::new();
    let mut i: usize = 0;
    while i < rules.len()
        invariant
            i <= rules.len(),
            all == views(rules@),
            tag_name == element.tag_name@,
            attributes == attributes_model(element.attributes),
            matched_views(matches@) == matching_rules(
                all.subrange(0, i as int),
                tag_name,
                attributes,
            ),
        decreases rules.len() - i,
    {
        proof {
            let next = all.subrange(0, i + 1);
            assert(next.drop_last() =~= all.subrange(0, i as int));
        }
        match match_rule(element, &rules[i]) {
            Some(found) => {
                matches.push(found);
            },
            None => {},
        }
        i += 1;
    }
    proof {
        assert(all.subrange(0, all.len() as int) =~= all);
    }
    matches
}

/// Orders the rules from the lightest to the heaviest and keeps rules of one
/// weight in the order in which they came.
pub fn rank_rules<'a>(matches: Vec<(Specificity, &'a Rule)>) -> (sorted: Vec<
    (Specificity, &'a Rule),
>)
    ensures
        matched_views(sorted@) == ranked(matched_views(matches@)),
{
    let ghost all = matched_views(matches@);
    let mut sorted: Vec<(Specificity, &'a Rule)> = Vec::new();
    let mut i: usize = 0;
    while i < matches.len()
        invariant
            i <= matches.len(),
            all == matched_views(matches@),
            sorted@.len() == i,
            matched_views(sorted@) == ranked(all.subrange(0, i as int)),
        decreases matches.len() - i,
    {
        let found = matches[i];
        let ghost before = matched_views(sorted@);
        let ghost w = found.0@;
        let mut p: usize = sorted.len();
        proof {
            assert(before.subrange(0, p as int) =~= before);
        }
        while p > 0 && sorted[p - 1].0.outweighs(&found.0)
            invariant
                p <= sorted.len(),
                before == matched_views(sorted@),
                w == found.0@,
                insertion_point(before, w) == insertion_point(before.subrange(0, p as int), w),
            decreases p,
        {
            proof {
                let head = before.subrange(0, p as int);
                assert(head.drop_last() =~= before.subrange(0, p - 1));
            }
            p -= 1;
        }
        proof {
            let head = before.subrange(0, p as int);
            if p > 0 {
                assert(head.last() == before[p - 1]);
            }
            let next = all.subrange(0, i + 1);
            assert(next.drop_last() =~= all.subrange(0, i as int));
        }
        sorted.insert(p, found);
        i += 1;
    }
    proof {
        assert(all.subrange(0, all.len() as int) =~= all);
    }
    sorted
}

/// The values that `rules` give to `element`.
pub fn build_style(element: &ElementData, rules: &Vec<Rule>) -> (styles: PropertyMap)
    ensures
        properties_model(styles) == specified_values(
            views(rules@),
            element.tag_name@,
            attributes_model(element.attributes),
        ),
{
    let mut styles = PropertyMap::new();
    let matching_rules = rank_rules(determine_matching_rules(element, rules));
    let ghost all = matched_views(matching_rules@);
    let mut i: usize = 0;
    while i < matching_rules.len()
        invariant
            i <= matching_rules.len(),
            all == matched_views(matching_rules@),
            properties_model(styles) == with_rules(Map::empty(), all.subrange(0, i as int)),
        decreases matching_rules.len() - i,
    {
        let rule = matching_rules[i].1;
        let ghost declarations = views(rule.declarations@);
        let ghost start = properties_model(styles);
        let mut k: usize = 0;
        while k < rule.declarations.len()
            invariant
                k <= rule.declarations.len(),
                declarations == views(rule.declarations@),
                properties_model(styles) == with_declarations(
                    start,
                    declarations.subrange(0, k as int),
                ),
            decreases rule.declarations.len() - k,
        {
            let declaration = &rule.declarations[k];
            let name = declaration.name.clone();
            let value = declaration.value.clone();
            styles.insert(name, value);
            proof {
                let next = declarations.subrange(0, k + 1);
                assert(next.drop_last() =~= declarations.subrange(0, k as int));
            }
            k += 1;
        }
        proof {
            assert(declarations.subrange(0, k as int) =~= declarations);
            let next = all.subrange(0, i + 1);
            assert(next.drop_last() =~= all.subrange(0, i as int));
        }
        i += 1;
    }
    proof {
        assert(all.subrange(0, all.len() as int) =~= all);
    }
    styles
}

} // verus!
