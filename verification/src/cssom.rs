//! The stylesheet: an ordered list of rules, each with its selectors and its
//! declarations, and the weight by which rules are ranked.
use crate::dom::{attributes_model, element_classes, element_id, ElementData};
use crate::text::{contains_all, texts, views};
use std::cmp::Ordering;
use vstd::prelude::*;

verus! {

/// The unit of a length.
#[derive(Clone, Copy, Debug, PartialEq, Eq, Structural)]
pub enum Unit {
    Px,
}

/// A decimal number as it was written: the digits before the point and the
/// digits after it.
#[derive(Debug)]
pub struct Number {
    pub whole: String,
    pub fraction: String,
}

/// The value of a declaration.
#[derive(Debug)]
pub enum Value {
    Length(Number, Unit),
}

/// A value as plain text.
pub ghost enum ValueView {
    Length { whole: Seq<char>, fraction: Seq<char>, unit: Unit },
}

impl View for Value {
    type V = ValueView;

    open spec fn view(&self) -> ValueView {
        match *self {
            Value::Length(number, unit) => ValueView::Length {
                whole: number.whole@,
                fraction: number.fraction@,
                unit,
            },
        }
    }
}

impl Clone for Value {
    fn clone(&self) -> (res: Self)
        ensures
            res@ == self@,
    {
        match self {
            Value::Length(number, unit) => Value::Length(
                Number { whole: number.whole.clone(), fraction: number.fraction.clone() },
                *unit,
            ),
        }
    }
}

/// A property and the value that it is given.
#[derive(Debug)]
pub struct Declaration {
    pub name: String,
    pub value: Value,
}

/// A declaration as plain text.
pub ghost struct DeclarationView {
    pub name: Seq<char>,
    pub value: ValueView,
}

impl View for Declaration {
    type V = DeclarationView;

    open spec fn view(&self) -> DeclarationView {
        DeclarationView { name: self.name@, value: self.value@ }
    }
}

impl Clone for Declaration {
    fn clone(&self) -> (res: Self)
        ensures
            res@ == self@,
    {
        Declaration { name: self.name.clone(), value: self.value.clone() }
    }
}

/// What a selector asks of an element: a tag, an id, or classes. The parser
/// sets one of the three.
#[derive(Debug)]
pub struct SimpleSelectorData {
    pub tag_name: Option<String>,
    pub id: Option<String>,
    pub class: Vec<String>,
}

/// A selector as plain text.
pub ghost struct SelectorView {
    pub tag_name: Option<Seq<char>>,
    pub id: Option<Seq<char>>,
    pub class: Seq<Seq<char>>,
}

impl View for SimpleSelectorData {
    type V = SelectorView;

    open spec fn view(&self) -> SelectorView {
        SelectorView {
            tag_name: match self.tag_name {
                Some(tag) => Some(tag@),
                None => None,
            },
            id: match self.id {
                Some(id) => Some(id@),
                None => None,
            },
            class: texts(self.class@),
        }
    }
}

/// The kinds of selector. There is one: a simple selector.
#[derive(Debug)]
pub enum SelectorType {
    SimpleSelector(SimpleSelectorData),
}

/// A selector of a rule.
#[derive(Debug)]
pub struct Selector {
    pub selector_type: SelectorType,
}

impl View for Selector {
    type V = SelectorView;

    open spec fn view(&self) -> SelectorView {
        match self.selector_type {
            SelectorType::SimpleSelector(simple) => simple@,
        }
    }
}

/// Selectors and the declarations that hold for what they select.
#[derive(Debug)]
pub struct Rule {
    pub selectors: Vec<Selector>,
    pub declarations: Vec<Declaration>,
}

/// A rule as plain text.
pub ghost struct RuleView {
    pub selectors: Seq<SelectorView>,
    pub declarations: Seq<DeclarationView>,
}

impl View for Rule {
    type V = RuleView;

    open spec fn view(&self) -> RuleView {
        RuleView { selectors: views(self.selectors@), declarations: views(self.declarations@) }
    }
}

/// The rules in source order.
#[derive(Debug)]
pub struct StyleSheet {
    pub rules: Vec<Rule>,
}

impl View for StyleSheet {
    type V = Seq<RuleView>;

    open spec fn view(&self) -> Seq<RuleView> {
        views(self.rules@)
    }
}

/// A selector that asks for the tag `name`.
pub open spec fn tag_selector(name: Seq<char>) -> SelectorView {
    SelectorView { tag_name: Some(name), id: None, class: Seq::empty() }
}

/// A selector that asks for the id `name`.
pub open spec fn id_selector(name: Seq<char>) -> SelectorView {
    SelectorView { tag_name: None, id: Some(name), class: Seq::empty() }
}

/// A selector that asks for the class `name`.
pub open spec fn class_selector(name: Seq<char>) -> SelectorView {
    SelectorView { tag_name: None, id: None, class: seq![name] }
}

/// The weight of a selector: whether it names an id, how many classes it
/// names, whether it names a tag.
pub open spec fn weight(selector: SelectorView) -> (nat, nat, nat) {
    (
        if selector.id is Some {
            1
        } else {
            0
        },
        selector.class.len(),
        if selector.tag_name is Some {
            1
        } else {
            0
        },
    )
}

/// `a` weighs less than `b`: the ids decide, then the classes, then the tags.
pub open spec fn weight_less(a: (nat, nat, nat), b: (nat, nat, nat)) -> bool {
    a.0 < b.0 || (a.0 == b.0 && (a.1 < b.1 || (a.1 == b.1 && a.2 < b.2)))
}

/// The selector accepts an element with this tag and these attributes: its
/// tag and its id are unset or equal to the element's, and the element has
/// each of its classes.
pub open spec fn selector_matches(
    selector: SelectorView,
    tag_name: Seq<char>,
    attributes: Seq<(Seq<char>, Seq<char>)>,
) -> bool {
    &&& selector.tag_name is Some ==> selector.tag_name->0 == tag_name
    &&& selector.id is Some ==> element_id(attributes) == selector.id
    &&& forall|k: int|
        0 <= k < selector.class.len() ==> element_classes(attributes).contains(
            #[trigger] selector.class[k],
        )
}

/// The weight of a selector.
#[derive(Debug, Clone, Copy)]
pub struct Specificity {
    id: usize,
    classes: usize,
    tags: usize,
}

impl View for Specificity {
    type V = (nat, nat, nat);

    closed spec fn view(&self) -> (nat, nat, nat) {
        (self.id as nat, self.classes as nat, self.tags as nat)
    }
}

impl Specificity {
    /// Compares two weights. Returns the order of `self` against `comparator`,
    /// and `comparator`.
    pub fn cmp<'a>(&'a self, comparator: &'a Specificity) -> (r: (Ordering, &'a Specificity))
        ensures
            r.1 == comparator,
            weight_less(self@, comparator@) <==> r.0 == Ordering::Less,
            weight_less(comparator@, self@) <==> r.0 == Ordering::Greater,
            self@ == comparator@ <==> r.0 == Ordering::Equal,
    {
        if self.id < comparator.id {
            (Ordering::Less, comparator)
        } else if self.id > comparator.id {
            (Ordering::Greater, comparator)
        } else if self.classes < comparator.classes {
            (Ordering::Less, comparator)
        } else if self.classes > comparator.classes {
            (Ordering::Greater, comparator)
        } else if self.tags < comparator.tags {
            (Ordering::Less, comparator)
        } else if self.tags > comparator.tags {
            (Ordering::Greater, comparator)
        } else {
            (Ordering::Equal, comparator)
        }
    }

    /// True when `self` weighs more than `other`.
    pub fn outweighs(&self, other: &Specificity) -> (b: bool)
        ensures
            b == weight_less(other@, self@),
    {
        match self.cmp(other).0 {
            Ordering::Greater => true,
            _ => false,
        }
    }
}

impl Selector {
    /// The weight of the selector.
    pub fn specificity(&self) -> (s: Specificity)
        ensures
            s@ == weight(self@),
    {
        match &self.selector_type {
            SelectorType::SimpleSelector(simple) => {
                let id: usize = if simple.id.is_some() {
                    1
                } else {
                    0
                };
                let classes = simple.class.len();
                let tags: usize = if simple.tag_name.is_some() {
                    1
                } else {
                    0
                };
                Specificity { id, classes, tags }
            },
        }
    }

    /// True when the selector accepts `element`.
    pub fn matches(&self, element: &ElementData) -> (b: bool)
        ensures
            b == selector_matches(
                self@,
                element.tag_name@,
                attributes_model(element.attributes),
            ),
    {
        match &self.selector_type {
            SelectorType::SimpleSelector(simple) => {
                match &simple.tag_name {
                    Some(tag) => {
                        if !(element.tag_name == *tag) {
                            return false;
                        }
                    },
                    None => {},
                }
                match &simple.id {
                    Some(id) => {
                        match element.id() {
                            Some(found) => {
                                if !(*found == *id) {
                                    return false;
                                }
                            },
                            None => {
                                return false;
                            },
                        }
                    },
                    None => {},
                }
                let classes = element.class_list();
                contains_all(&classes, &simple.class)
            },
        }
    }
}

} // verus!
