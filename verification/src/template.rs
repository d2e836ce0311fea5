//! Component templates: the tree of classes, attributes and children that a
//! parsed markup document denotes, and the flat style rules of a stylesheet.

use vstd::prelude::*;
use crate::value::{Value, ValueSpec};

verus! {

broadcast use vstd::std_specs::vec::axiom_vec_index_decreases;

/// One `key: value` declaration, optionally gated by a conditional
/// expression that the runtime evaluates at resolution time.
#[derive(Debug)]
pub struct Attribute {
    pub key: String,
    pub value: Value,
    pub conditional: Option<String>,
}

/// Mathematical model of an [`Attribute`].
pub struct AttrSpec {
    pub key: Seq<char>,
    pub value: ValueSpec,
    pub conditional: Option<Seq<char>>,
}

impl Attribute {
    pub open spec fn view(self) -> AttrSpec {
        AttrSpec {
            key: self.key@,
            value: self.value@,
            conditional: match self.conditional {
                Option::None => Option::None,
                Option::Some(c) => Option::Some(c@),
            },
        }
    }

    /// An unconditional attribute.
    pub fn new(key: String, value: Value) -> (r: Attribute)
        ensures
            r@.key == key@,
            r@.value == value@,
            r@.conditional is None,
    {
        Attribute { key, value, conditional: None }
    }

    /// An attribute gated by a conditional expression.
    pub fn new_conditional(key: String, value: Value, conditional: String) -> (r: Attribute)
        ensures
            r@.key == key@,
            r@.value == value@,
            r@.conditional == Option::Some(conditional@),
    {
        Attribute { key, value, conditional: Some(conditional) }
    }
}

/// The model of a sequence of attributes.
pub open spec fn attr_seq_view(s: Seq<Attribute>) -> Seq<AttrSpec> {
    Seq::new(s.len(), |i: int| s[i]@)
}

/// First value declared for `key`, if any.
pub open spec fn spec_attr_lookup(attrs: Seq<AttrSpec>, key: Seq<char>) -> Option<ValueSpec>
    decreases attrs.len(),
{
    if attrs.len() == 0 {
        Option::None
    } else if attrs[0].key == key {
        Option::Some(attrs[0].value)
    } else {
        spec_attr_lookup(attrs.drop_first(), key)
    }
}

/// An ordered list of attribute declarations, as written in one block.
///
/// Order is significant: the cascade applies declarations first to last.
/// Keys may repeat when conditionals distinguish them; the parser rejects a
/// repeated key only when both occurrences are unconditional.
#[derive(Debug)]
pub struct AttributeList {
    pub entries: Vec<Attribute>,
}

impl AttributeList {
    pub open spec fn view(self) -> Seq<AttrSpec> {
        attr_seq_view(self.entries@)
    }

    pub fn new(entries: Vec<Attribute>) -> (r: AttributeList)
        ensures
            r@ == attr_seq_view(entries@),
    {
        AttributeList { entries }
    }

    pub fn len(&self) -> (r: usize)
        ensures
            r == self@.len(),
    {
        self.entries.len()
    }

    /// The value of the first declaration for `key`, if any.
    pub fn get(&self, key: &str) -> (r: Option<&Value>)
        ensures
            match r {
                Option::Some(v) => spec_attr_lookup(self@, key@) == Option::Some(v@),
                Option::None => spec_attr_lookup(self@, key@) is None,
            },
    {
        let key_owned: String = key.to_owned();
        let n = self.entries.len();
        let mut i: usize = 0;
        proof {
            assert(self@.subrange(0, n as int) =~= self@);
        }
        while i < n
            invariant
                n == self.entries@.len(),
                i <= n,
                spec_attr_lookup(self@, key@) == spec_attr_lookup(
                    self@.subrange(i as int, n as int),
                    key@,
                ),
                key_owned@ == key@,
            decreases n - i,
        {
            proof {
                assert(self@.subrange(i as int, n as int)[0] == self@[i as int]);
                assert(self@.subrange(i as int, n as int).drop_first() =~= self@.subrange(
                    i as int + 1,
                    n as int,
                ));
            }
            if self.entries[i].key == key_owned {
                return Some(&self.entries[i].value);
            }
            i = i + 1;
        }
        proof {
            assert(self@.subrange(n as int, n as int).len() == 0);
        }
        None
    }
}

/// A parsed component: its class name, source line (1-based, for
/// diagnostics), attribute declarations, and child components in document
/// order. Exactly one component stands at depth zero in a parsed document.
#[derive(Debug)]
pub struct ComponentTemplate {
    pub class: String,
    pub line: usize,
    pub attributes: AttributeList,
    pub children: Vec<ComponentTemplate>,
}

/// Mathematical model of a [`ComponentTemplate`].
pub struct TemplateSpec {
    pub class: Seq<char>,
    pub line: int,
    pub attributes: Seq<AttrSpec>,
    pub children: Seq<TemplateSpec>,
}

impl ComponentTemplate {
    pub open spec fn view(self) -> TemplateSpec
        decreases self,
    {
        TemplateSpec {
            class: self.class@,
            line: self.line as int,
            attributes: self.attributes@,
            children: Seq::new(
                self.children@.len(),
                |i: int|
                    if 0 <= i < self.children.len() {
                        self.children[i].view()
                    } else {
                        TemplateSpec {
                            class: Seq::empty(),
                            line: 0,
                            attributes: Seq::empty(),
                            children: Seq::empty(),
                        }
                    },
            ),
        }
    }
}

/// A stylesheet rule: attributes applied to every component whose class
/// equals `class` exactly.
#[derive(Debug)]
pub struct StyleComponent {
    pub class: String,
    pub attributes: AttributeList,
}

/// Mathematical model of a [`StyleComponent`].
pub struct StyleRuleSpec {
    pub class: Seq<char>,
    pub attributes: Seq<AttrSpec>,
}

impl StyleComponent {
    pub open spec fn view(self) -> StyleRuleSpec {
        StyleRuleSpec { class: self.class@, attributes: self.attributes@ }
    }
}

/// An ordered stylesheet: every rule whose class matches a component applies,
/// in document order.
#[derive(Debug)]
pub struct Style {
    pub components: Vec<StyleComponent>,
}

impl Style {
    pub open spec fn view(self) -> Seq<StyleRuleSpec> {
        Seq::new(self.components@.len(), |i: int| self.components@[i]@)
    }

}

/// A whole parsed markup document: its single root component.
#[derive(Debug)]
pub struct Template {
    pub root: ComponentTemplate,
}

} // verus!
