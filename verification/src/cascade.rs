//! Laws of the cascade: which declaration gives an element its value.
//!
//! Among the rules that hold for an element and declare a property, the
//! heaviest wins, and among the heaviest the last in the stylesheet. Within the
//! winning rule, the last declaration of the property wins.
use crate::cssom::{
    id_selector, selector_matches, tag_selector, weight, weight_less, DeclarationView, RuleView,
    ValueView,
};
use crate::dom::{element_id, Tree};
use crate::styling::{
    first_match, insertion_point, matching_rules, ranked, specified_values, styled,
    with_declarations, with_rules, Matched,
};
use vstd::prelude::*;

verus! {

/// One of the declarations gives `property` a value.
pub open spec fn declares(declarations: Seq<DeclarationView>, property: Seq<char>) -> bool {
    exists|k: int| 0 <= k < declarations.len() && (#[trigger] declarations[k]).name == property
}

/// What declarations give to a property that they declare does not depend on
/// what was there before.
pub proof fn lemma_declared_value(
    a: Map<Seq<char>, ValueView>,
    b: Map<Seq<char>, ValueView>,
    declarations: Seq<DeclarationView>,
    property: Seq<char>,
)
    requires
        declares(declarations, property),
    ensures
        with_declarations(a, declarations).contains_key(property),
        with_declarations(a, declarations)[property] == with_declarations(
            b,
            declarations,
        )[property],
    decreases declarations.len(),
{
    let k = choose|k: int|
        0 <= k < declarations.len() && (#[trigger] declarations[k]).name == property;
    if declarations.last().name != property {
        let earlier = declarations.drop_last();
        assert(earlier[k] == declarations[k]);
        lemma_declared_value(a, b, earlier, property);
    }
}

/// No rule stands before a lighter one.
pub open spec fn ascending(rules: Seq<Matched>) -> bool {
    forall|a: int, b: int|
        0 <= a < b < rules.len() ==> !weight_less(
            (#[trigger] rules[b]).weight,
            (#[trigger] rules[a]).weight,
        )
}

/// The rule at `k` declares `property`, and no rule behind it does.
pub open spec fn last_to_declare(rules: Seq<Matched>, k: int, property: Seq<char>) -> bool {
    &&& 0 <= k < rules.len()
    &&& declares(rules[k].rule.declarations, property)
    &&& forall|b: int|
        k < b < rules.len() ==> !declares((#[trigger] rules[b]).rule.declarations, property)
}

/// Of the rules that hold, in source order, the one at `k` wins `property`: it
/// declares it, no rule that declares it weighs more, and each later rule that
/// declares it weighs less.
pub open spec fn wins(matches: Seq<Matched>, k: int, property: Seq<char>) -> bool {
    &&& 0 <= k < matches.len()
    &&& declares(matches[k].rule.declarations, property)
    &&& forall|i: int|
        0 <= i < matches.len() && declares((#[trigger] matches[i]).rule.declarations, property)
            ==> !weight_less(matches[k].weight, matches[i].weight) && (i > k ==> weight_less(
            matches[i].weight,
            matches[k].weight,
        ))
}

/// Weights are in a strict total order.
pub proof fn lemma_weight_order(a: (nat, nat, nat), b: (nat, nat, nat), c: (nat, nat, nat))
    ensures
        !weight_less(a, a),
        weight_less(a, b) ==> !weight_less(b, a),
        weight_less(a, b) && weight_less(b, c) ==> weight_less(a, c),
        !weight_less(a, b) && !weight_less(b, c) ==> !weight_less(a, c),
        weight_less(a, b) || weight_less(b, a) || a == b,
{
}

/// Declarations that do not declare a property leave it as it was.
pub proof fn lemma_undeclared_value(
    values: Map<Seq<char>, ValueView>,
    declarations: Seq<DeclarationView>,
    property: Seq<char>,
)
    requires
        !declares(declarations, property),
    ensures
        with_declarations(values, declarations).contains_key(property) == values.contains_key(
            property,
        ),
        values.contains_key(property) ==> with_declarations(values, declarations)[property]
            == values[property],
    decreases declarations.len(),
{
    if declarations.len() > 0 {
        let earlier = declarations.drop_last();
        assert forall|k: int| 0 <= k < earlier.len() implies (#[trigger] earlier[k]).name
            != property by {
            assert(declarations[k].name != property);
        }
        lemma_undeclared_value(values, earlier, property);
    }
}

/// Within a rule, the last declaration of a property gives its value.
pub proof fn lemma_last_declaration(
    values: Map<Seq<char>, ValueView>,
    declarations: Seq<DeclarationView>,
    property: Seq<char>,
    k: int,
)
    requires
        0 <= k < declarations.len(),
        declarations[k].name == property,
        forall|later: int|
            k < later < declarations.len() ==> (#[trigger] declarations[later]).name != property,
    ensures
        with_declarations(values, declarations).contains_key(property),
        with_declarations(values, declarations)[property] == declarations[k].value,
    decreases declarations.len(),
{
    if k < declarations.len() - 1 {
        let earlier = declarations.drop_last();
        assert forall|later: int| k < later < earlier.len() implies (
        #[trigger] earlier[later]).name != property by {
            assert(declarations[later].name != property);
        }
        lemma_last_declaration(values, earlier, property, k);
    }
}

/// Rules applied in order give a property the value of the last rule that
/// declares it.
pub proof fn lemma_last_rule_decides(
    values: Map<Seq<char>, ValueView>,
    rules: Seq<Matched>,
    k: int,
    property: Seq<char>,
)
    requires
        last_to_declare(rules, k, property),
    ensures
        with_rules(values, rules).contains_key(property),
        with_rules(values, rules)[property] == with_declarations(
            Map::empty(),
            rules[k].rule.declarations,
        )[property],
    decreases rules.len(),
{
    let earlier = rules.drop_last();
    let before = with_rules(values, earlier);
    if k == rules.len() - 1 {
        lemma_declared_value(before, Map::empty(), rules[k].rule.declarations, property);
    } else {
        assert forall|b: int| k < b < earlier.len() implies !declares(
            (#[trigger] earlier[b]).rule.declarations,
            property,
        ) by {
            assert(earlier[b] == rules[b]);
        }
        lemma_last_rule_decides(values, earlier, k, property);
        lemma_undeclared_value(before, rules.last().rule.declarations, property);
    }
}

/// Rules that do not declare a property leave it as it was.
pub proof fn lemma_no_rule_declares(
    values: Map<Seq<char>, ValueView>,
    rules: Seq<Matched>,
    property: Seq<char>,
)
    requires
        forall|k: int|
            0 <= k < rules.len() ==> !declares((#[trigger] rules[k]).rule.declarations, property),
    ensures
        with_rules(values, rules).contains_key(property) == values.contains_key(property),
    decreases rules.len(),
{
    if rules.len() > 0 {
        let earlier = rules.drop_last();
        assert forall|k: int| 0 <= k < earlier.len() implies !declares(
            (#[trigger] earlier[k]).rule.declarations,
            property,
        ) by {
            assert(earlier[k] == rules[k]);
        }
        lemma_no_rule_declares(values, earlier, property);
        lemma_undeclared_value(
            with_rules(values, earlier),
            rules.last().rule.declarations,
            property,
        );
    }
}

/// A rule goes behind every rule that weighs no more than it, and before every
/// rule behind that.
pub proof fn lemma_insertion_point(rules: Seq<Matched>, w: (nat, nat, nat))
    ensures
        0 <= insertion_point(rules, w) <= rules.len(),
        forall|b: int|
            insertion_point(rules, w) <= b < rules.len() ==> weight_less(
                w,
                (#[trigger] rules[b]).weight,
            ),
        insertion_point(rules, w) > 0 ==> !weight_less(
            w,
            rules[insertion_point(rules, w) - 1].weight,
        ),
    decreases rules.len(),
{
    if rules.len() > 0 && weight_less(w, rules.last().weight) {
        let earlier = rules.drop_last();
        lemma_insertion_point(earlier, w);
        assert forall|b: int| insertion_point(rules, w) <= b < rules.len() implies weight_less(
            w,
            (#[trigger] rules[b]).weight,
        ) by {
            if b < earlier.len() {
                assert(earlier[b] == rules[b]);
            }
        }
        if insertion_point(rules, w) > 0 {
            assert(earlier[insertion_point(rules, w) - 1] == rules[insertion_point(rules, w) - 1]);
        }
    }
}

/// Ranking keeps every rule, loses none, and puts none before a lighter one.
pub proof fn lemma_ranked(matches: Seq<Matched>)
    ensures
        ranked(matches).len() == matches.len(),
        ascending(ranked(matches)),
        forall|b: int|
            0 <= b < matches.len() ==> matches.contains(#[trigger] ranked(matches)[b]),
        forall|i: int|
            0 <= i < matches.len() ==> ranked(matches).contains(#[trigger] matches[i]),
    decreases matches.len(),
{
    if matches.len() > 0 {
        let earlier = matches.drop_last();
        let added = matches.last();
        let before = ranked(earlier);
        let at = insertion_point(before, added.weight);
        let after = ranked(matches);
        lemma_ranked(earlier);
        lemma_insertion_point(before, added.weight);
        assert forall|a: int, b: int| 0 <= a < b < after.len() implies !weight_less(
            (#[trigger] after[b]).weight,
            (#[trigger] after[a]).weight,
        ) by {
            if b < at {
                assert(after[a] == before[a] && after[b] == before[b]);
            } else if b == at {
                if a < at - 1 {
                    assert(!weight_less(before[at - 1].weight, before[a].weight));
                }
                lemma_weight_order(added.weight, before[at - 1].weight, before[a].weight);
            } else if a < at {
                assert(after[a] == before[a] && after[b] == before[b - 1]);
            } else if a == at {
                lemma_weight_order(added.weight, before[b - 1].weight, added.weight);
            } else {
                assert(after[a] == before[a - 1] && after[b] == before[b - 1]);
            }
        }
        assert forall|b: int| 0 <= b < matches.len() implies matches.contains(
            #[trigger] after[b],
        ) by {
            if b == at {
                assert(matches[matches.len() - 1] == added);
            } else {
                let from = if b < at {
                    b
                } else {
                    b - 1
                };
                let i = choose|i: int| 0 <= i < earlier.len() && earlier[i] == before[from];
                assert(matches[i] == after[b]);
            }
        }
        assert forall|i: int| 0 <= i < matches.len() implies after.contains(
            #[trigger] matches[i],
        ) by {
            if i == matches.len() - 1 {
                assert(after[at] == added);
            } else {
                let b = choose|b: int| 0 <= b < before.len() && before[b] == earlier[i];
                if b < at {
                    assert(after[b] == before[b]);
                } else {
                    assert(after[b + 1] == before[b]);
                }
            }
        }
    }
}

/// The rule that wins a property is the last in the ranking to declare it.
pub proof fn lemma_winner_is_ranked_last(matches: Seq<Matched>, k: int, property: Seq<char>)
    requires
        wins(matches, k, property),
    ensures
        exists|j: int|
            last_to_declare(ranked(matches), j, property) && #[trigger] ranked(matches)[j]
                == matches[k],
    decreases matches.len(),
{
    let earlier = matches.drop_last();
    let added = matches.last();
    let before = ranked(earlier);
    let at = insertion_point(before, added.weight);
    let after = ranked(matches);
    lemma_ranked(earlier);
    lemma_insertion_point(before, added.weight);
    if k == matches.len() - 1 {
        assert forall|b: int| at < b < after.len() implies !declares(
            (#[trigger] after[b]).rule.declarations,
            property,
        ) by {
            let i = choose|i: int| 0 <= i < earlier.len() && earlier[i] == before[b - 1];
            assert(matches[i] == after[b]);
        }
        assert(after[at] == matches[k]);
    } else {
        assert forall|i: int|
            0 <= i < earlier.len() && declares(
                (#[trigger] earlier[i]).rule.declarations,
                property,
            ) implies !weight_less(earlier[k].weight, earlier[i].weight) && (i > k
            ==> weight_less(earlier[i].weight, earlier[k].weight)) by {
            assert(earlier[i] == matches[i]);
        }
        lemma_winner_is_ranked_last(earlier, k, property);
        let j = choose|j: int|
            last_to_declare(before, j, property) && #[trigger] before[j] == earlier[k];
        if declares(added.rule.declarations, property) {
            if at > j {
                lemma_weight_order(added.weight, before[at - 1].weight, before[j].weight);
            }
        }
        let to = if at <= j {
            j + 1
        } else {
            j
        };
        assert(after[to] == before[j]);
        assert forall|b: int| to < b < after.len() implies !declares(
            (#[trigger] after[b]).rule.declarations,
            property,
        ) by {
            if b == at {
                assert(after[b] == added);
            } else if b < at {
                assert(after[b] == before[b]);
            } else {
                assert(after[b] == before[b - 1]);
            }
        }
    }
}

/// The cascade: an element takes for a property the value that the winning
/// rule gives it, whatever else the stylesheet holds and in whatever order.
pub proof fn lemma_winner_decides(
    rules: Seq<RuleView>,
    tag_name: Seq<char>,
    attributes: Seq<(Seq<char>, Seq<char>)>,
    property: Seq<char>,
    k: int,
)
    requires
        wins(matching_rules(rules, tag_name, attributes), k, property),
    ensures
        specified_values(rules, tag_name, attributes).contains_key(property),
        specified_values(rules, tag_name, attributes)[property] == with_declarations(
            Map::empty(),
            matching_rules(rules, tag_name, attributes)[k].rule.declarations,
        )[property],
{
    let matches = matching_rules(rules, tag_name, attributes);
    lemma_winner_is_ranked_last(matches, k, property);
    let j = choose|j: int|
        last_to_declare(ranked(matches), j, property) && #[trigger] ranked(matches)[j]
            == matches[k];
    lemma_last_rule_decides(Map::empty(), ranked(matches), j, property);
}

/// A property that no rule that holds declares has no value.
pub proof fn lemma_undeclared_property(
    rules: Seq<RuleView>,
    tag_name: Seq<char>,
    attributes: Seq<(Seq<char>, Seq<char>)>,
    property: Seq<char>,
)
    requires
        forall|i: int|
            0 <= i < matching_rules(rules, tag_name, attributes).len() ==> !declares(
                (#[trigger] matching_rules(rules, tag_name, attributes)[i]).rule.declarations,
                property,
            ),
    ensures
        !specified_values(rules, tag_name, attributes).contains_key(property),
{
    let matches = matching_rules(rules, tag_name, attributes);
    lemma_ranked(matches);
    assert forall|b: int| 0 <= b < ranked(matches).len() implies !declares(
        (#[trigger] ranked(matches)[b]).rule.declarations,
        property,
    ) by {
        assert(matches.contains(ranked(matches)[b]));
    }
    lemma_no_rule_declares(Map::empty(), ranked(matches), property);
}

/// Where two rules hold for an element and both give a value to a property,
/// the element takes the value of the heavier rule, whichever of the two
/// comes first in the stylesheet.
pub proof fn lemma_heavier_rule_wins(
    lighter: RuleView,
    heavier: RuleView,
    tag_name: Seq<char>,
    attributes: Seq<(Seq<char>, Seq<char>)>,
    property: Seq<char>,
)
    requires
        first_match(lighter.selectors, tag_name, attributes) is Some,
        first_match(heavier.selectors, tag_name, attributes) is Some,
        weight_less(
            first_match(lighter.selectors, tag_name, attributes)->0,
            first_match(heavier.selectors, tag_name, attributes)->0,
        ),
        declares(heavier.declarations, property),
    ensures
        specified_values(seq![lighter, heavier], tag_name, attributes).contains_key(property),
        specified_values(seq![heavier, lighter], tag_name, attributes).contains_key(property),
        specified_values(seq![lighter, heavier], tag_name, attributes)[property]
            == with_declarations(Map::empty(), heavier.declarations)[property],
        specified_values(seq![heavier, lighter], tag_name, attributes)[property]
            == with_declarations(Map::empty(), heavier.declarations)[property],
{
    let low = Matched {
        weight: first_match(lighter.selectors, tag_name, attributes)->0,
        rule: lighter,
    };
    let high = Matched {
        weight: first_match(heavier.selectors, tag_name, attributes)->0,
        rule: heavier,
    };
    let none = Seq::<RuleView>::empty();
    assert(matching_rules(none, tag_name, attributes) == Seq::<Matched>::empty());
    assert(seq![lighter].drop_last() =~= none);
    assert(seq![heavier].drop_last() =~= none);
    assert(matching_rules(seq![lighter], tag_name, attributes) =~= seq![low]);
    assert(matching_rules(seq![heavier], tag_name, attributes) =~= seq![high]);
    assert(seq![lighter, heavier].drop_last() =~= seq![lighter]);
    assert(seq![heavier, lighter].drop_last() =~= seq![heavier]);
    lemma_winner_decides(seq![lighter, heavier], tag_name, attributes, property, 1);
    lemma_winner_decides(seq![heavier, lighter], tag_name, attributes, property, 0);
}

/// Where a rule that selects by tag and a rule that selects by id both hold
/// for an element and both give a value to a property, the element takes the
/// value of the rule that selects by id, whichever of the two comes first.
pub proof fn lemma_id_rule_wins(
    tag: Seq<char>,
    id: Seq<char>,
    property: Seq<char>,
    by_tag: ValueView,
    by_id: ValueView,
    attributes: Seq<(Seq<char>, Seq<char>)>,
)
    requires
        element_id(attributes) == Some(id),
    ensures
        ({
            let tag_rule = RuleView {
                selectors: seq![tag_selector(tag)],
                declarations: seq![DeclarationView { name: property, value: by_tag }],
            };
            let id_rule = RuleView {
                selectors: seq![id_selector(id)],
                declarations: seq![DeclarationView { name: property, value: by_id }],
            };
            &&& specified_values(seq![tag_rule, id_rule], tag, attributes).contains_key(property)
            &&& specified_values(seq![id_rule, tag_rule], tag, attributes).contains_key(property)
            &&& specified_values(seq![tag_rule, id_rule], tag, attributes)[property] == by_id
            &&& specified_values(seq![id_rule, tag_rule], tag, attributes)[property] == by_id
        }),
{
    let tag_rule = RuleView {
        selectors: seq![tag_selector(tag)],
        declarations: seq![DeclarationView { name: property, value: by_tag }],
    };
    let id_rule = RuleView {
        selectors: seq![id_selector(id)],
        declarations: seq![DeclarationView { name: property, value: by_id }],
    };
    assert(id_rule.declarations[0].name == property);
    lemma_heavier_rule_wins(tag_rule, id_rule, tag, attributes, property);
}

/// Styling keeps the shape of the tree: each node keeps its kind and its
/// children, in their order, and only elements take values.
pub proof fn lemma_styled_keeps_shape(tree: Tree, rules: Seq<RuleView>)
    ensures
        styled(tree, rules).kind == tree.kind,
        styled(tree, rules).children.len() == tree.children.len(),
        forall|i: int|
            0 <= i < tree.children.len() ==> #[trigger] styled(tree, rules).children[i] == styled(
                tree.children[i],
                rules,
            ),
        !(tree.kind is Element) ==> styled(tree, rules).specified_values == Map::<
            Seq<char>,
            ValueView,
        >::empty(),
{
}

} // verus!
