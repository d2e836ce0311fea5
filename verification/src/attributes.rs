//! The attribute cascade: merging stylesheet rules with a component's own
//! declarations, in document order, gated by runtime-evaluated conditionals,
//! and typed reads over the resolved mapping.

use vstd::prelude::*;
use crate::error::Error;
use crate::template::{AttrSpec, Attribute, AttributeList, ComponentTemplate, Style, StyleRuleSpec};
use crate::value::{Value, ValueSpec};

verus! {

/// The runtime that decides conditional attributes. This library never
/// interprets expression syntax itself: an implementation supplies both the
/// mathematical verdict (`eval_spec`) and the executable evaluation, which
/// must agree.
pub trait ConditionalEvaluator: Sized {
    /// The runtime's verdict on `expr` in its current state: `Some(b)` when
    /// evaluation succeeds with `b`, `None` when it fails.
    spec fn eval_spec(&self, expr: Seq<char>) -> Option<bool>;

    /// Evaluates a conditional expression against the current runtime state.
    fn evaluate(&self, expr: &str) -> (r: Result<bool, Error>)
        ensures
            match self.eval_spec(expr@) {
                Option::Some(b) => r matches Result::Ok(x) && x == b,
                Option::None => r is Err,
            },
    ;
}

/// Whether an attribute takes part in the cascade: an unconditional one
/// always does, a conditional one as the runtime decides; `None` is an
/// evaluation error.
pub open spec fn spec_include<E: ConditionalEvaluator>(ev: E, a: AttrSpec) -> Option<bool> {
    match a.conditional {
        Option::None => Option::Some(true),
        Option::Some(x) => ev.eval_spec(x),
    }
}

/// The attributes of one list applied to a mapping in document order:
/// every included attribute overwrites its key. `Err` carries the first
/// conditional expression that failed to evaluate.
pub open spec fn spec_apply_attrs<E: ConditionalEvaluator>(
    ev: E,
    m: Map<Seq<char>, ValueSpec>,
    attrs: Seq<AttrSpec>,
) -> Result<Map<Seq<char>, ValueSpec>, Seq<char>>
    decreases attrs.len(),
{
    if attrs.len() == 0 {
        Result::Ok(m)
    } else {
        let a = attrs[0];
        match spec_include(ev, a) {
            Option::None => Result::Err(a.conditional->0),
            Option::Some(true) => spec_apply_attrs(ev, m.insert(a.key, a.value), attrs.drop_first()),
            Option::Some(false) => spec_apply_attrs(ev, m, attrs.drop_first()),
        }
    }
}

/// The style pass: every rule whose class matches, in document order.
pub open spec fn spec_apply_style<E: ConditionalEvaluator>(
    ev: E,
    m: Map<Seq<char>, ValueSpec>,
    rules: Seq<StyleRuleSpec>,
    class: Seq<char>,
) -> Result<Map<Seq<char>, ValueSpec>, Seq<char>>
    decreases rules.len(),
{
    if rules.len() == 0 {
        Result::Ok(m)
    } else {
        if rules[0].class == class {
            match spec_apply_attrs(ev, m, rules[0].attributes) {
                Result::Ok(m2) => spec_apply_style(ev, m2, rules.drop_first(), class),
                Result::Err(x) => Result::Err(x),
            }
        } else {
            spec_apply_style(ev, m, rules.drop_first(), class)
        }
    }
}

/// The whole cascade for one node: matching style rules first, then the
/// node's own attributes, so local declarations win for a shared key.
pub open spec fn spec_resolve<E: ConditionalEvaluator>(
    ev: E,
    t: crate::template::TemplateSpec,
    style: Seq<StyleRuleSpec>,
) -> Result<Map<Seq<char>, ValueSpec>, Seq<char>> {
    match spec_apply_style(ev, Map::empty(), style, t.class) {
        Result::Ok(m) => spec_apply_attrs(ev, m, t.attributes),
        Result::Err(x) => Result::Err(x),
    }
}

/// Everything resolution consults besides the node itself: the stylesheet
/// and the conditional runtime.
pub struct UiContext<E: ConditionalEvaluator> {
    pub style: Style,
    pub runtime: E,
}

/// Distinct keys in an association list.
spec fn kv_wf(s: Seq<(String, Value)>) -> bool {
    forall|i: int, j: int| 0 <= i < j < s.len() ==> (#[trigger] s[i]).0@ != (#[trigger] s[j]).0@
}

/// The mapping an association list denotes, later entries winning.
spec fn kv_map(s: Seq<(String, Value)>) -> Map<Seq<char>, ValueSpec>
    decreases s.len(),
{
    if s.len() == 0 {
        Map::empty()
    } else {
        kv_map(s.drop_last()).insert(s.last().0@, s.last().1@)
    }
}

proof fn lemma_kv_wf_drop_last(s: Seq<(String, Value)>)
    requires
        kv_wf(s),
        s.len() > 0,
    ensures
        kv_wf(s.drop_last()),
{
    assert forall|i: int, j: int| 0 <= i < j < s.drop_last().len() implies (#[trigger] s.drop_last()[i]).0@
        != (#[trigger] s.drop_last()[j]).0@ by {
        assert(s.drop_last()[i] == s[i]);
        assert(s.drop_last()[j] == s[j]);
    }
}

/// Updating the entry that already holds `p`'s key is a map insert.
proof fn lemma_kv_update(s: Seq<(String, Value)>, i: int, p: (String, Value))
    requires
        kv_wf(s),
        0 <= i < s.len(),
        s[i].0@ == p.0@,
    ensures
        kv_map(s.update(i, p)) == kv_map(s).insert(p.0@, p.1@),
    decreases s.len(),
{
    let s2 = s.update(i, p);
    if i == s.len() - 1 {
        assert(s2.drop_last() =~= s.drop_last());
        assert(s2.last() == p);
        assert(kv_map(s.drop_last()).insert(s.last().0@, s.last().1@).insert(p.0@, p.1@)
            =~= kv_map(s.drop_last()).insert(p.0@, p.1@));
    } else {
        assert(s2.drop_last() =~= s.drop_last().update(i, p));
        assert(s2.last() == s.last());
        lemma_kv_wf_drop_last(s);
        assert(s.drop_last()[i] == s[i]);
        lemma_kv_update(s.drop_last(), i, p);
        assert(s.last().0@ != p.0@);
        assert(kv_map(s.drop_last()).insert(p.0@, p.1@).insert(s.last().0@, s.last().1@)
            =~= kv_map(s.drop_last()).insert(s.last().0@, s.last().1@).insert(p.0@, p.1@));
    }
}

/// What a first-match scan of a well-formed association list finds is what
/// the denoted mapping holds.
proof fn lemma_kv_scan(s: Seq<(String, Value)>, key: Seq<char>)
    requires
        kv_wf(s),
    ensures
        forall|i: int|
            0 <= i < s.len() && (#[trigger] s[i]).0@ == key ==> kv_map(s).contains_key(key)
                && kv_map(s)[key] == s[i].1@,
        (forall|i: int| 0 <= i < s.len() ==> (#[trigger] s[i]).0@ != key) ==> !kv_map(
            s,
        ).contains_key(key),
    decreases s.len(),
{
    if s.len() > 0 {
        lemma_kv_wf_drop_last(s);
        lemma_kv_scan(s.drop_last(), key);
        assert forall|i: int| 0 <= i < s.len() && (#[trigger] s[i]).0@ == key implies kv_map(
            s,
        ).contains_key(key) && kv_map(s)[key] == s[i].1@ by {
            if i == s.len() - 1 {
            } else {
                assert(s.drop_last()[i] == s[i]);
                assert(s.last().0@ != key);
            }
        }
        if forall|i: int| 0 <= i < s.len() ==> (#[trigger] s[i]).0@ != key {
            assert(s.last().0@ != key);
            assert forall|i: int| 0 <= i < s.drop_last().len() implies (#[trigger] s.drop_last()[i]).0@
                != key by {
                assert(s.drop_last()[i] == s[i]);
            }
        }
    }
}

/// Inserts `key: value` into the list, overwriting an existing entry for
/// the same key.
fn kv_insert(values: &mut Vec<(String, Value)>, key: String, value: Value)
    requires
        kv_wf(old(values)@),
    ensures
        kv_wf(final(values)@),
        kv_map(final(values)@) == kv_map(old(values)@).insert(key@, value@),
{
    let ghost kview = key@;
    let ghost vview = value@;
    let n = values.len();
    let mut i: usize = 0;
    while i < n
        invariant
            n == values@.len(),
            i <= n,
            values@ == old(values)@,
            forall|k: int| 0 <= k < i ==> (#[trigger] values@[k]).0@ != kview,
            key@ == kview,
            value@ == vview,
            kv_wf(values@),
        decreases n - i,
    {
        if values[i].0 == key {
            let ghost s_old = values@;
            let pair = (key, value);
            let ghost pview = (pair.0@, pair.1@);
            let _ = values.remove(i);
            values.insert(i, pair);
            proof {
                assert(values@ =~= s_old.update(i as int, pair));
                lemma_kv_update(s_old, i as int, pair);
                assert forall|x: int, y: int| 0 <= x < y < values@.len() implies (
                #[trigger] values@[x]).0@ != (#[trigger] values@[y]).0@ by {
                    assert(values@[x].0@ == s_old[x].0@);
                    assert(values@[y].0@ == s_old[y].0@);
                }
            }
            return;
        }
        i = i + 1;
    }
    let ghost s_old = values@;
    values.push((key, value));
    proof {
        assert(values@.drop_last() =~= s_old);
        assert(values@.last().0@ == kview && values@.last().1@ == vview);
        assert(kv_map(values@) == kv_map(s_old).insert(kview, vview));
        assert forall|x: int, y: int| 0 <= x < y < values@.len() implies (#[trigger] values@[x]).0@
            != (#[trigger] values@[y]).0@ by {
            if y < values@.len() - 1 {
                assert(values@[x] == s_old[x]);
                assert(values@[y] == s_old[y]);
            } else {
                assert(values@[x] == s_old[x]);
            }
        }
    }
}

/// The final attribute values of one resolved component, with the class and
/// source line kept for error context.
#[derive(Debug)]
pub struct Attributes {
    attributes: Vec<(String, Value)>,
    component_class: String,
    component_line: usize,
}

impl Attributes {
    /// The resolved mapping.
    pub closed spec fn values(self) -> Map<Seq<char>, ValueSpec> {
        kv_map(self.attributes@)
    }

    pub closed spec fn class_spec(self) -> Seq<char> {
        self.component_class@
    }

    pub closed spec fn line_spec(self) -> int {
        self.component_line as int
    }

    /// Keys in the resolved list are distinct; established by `resolve` and
    /// preserved by every method.
    #[verifier::type_invariant]
    closed spec fn wf(self) -> bool {
        kv_wf(self.attributes@)
    }

    /// First-match lookup in the resolved list.
    fn find(&self, key: &str) -> (r: Option<&Value>)
        ensures
            match r {
                Option::Some(v) => self.values().contains_key(key@) && v@ == self.values()[key@],
                Option::None => !self.values().contains_key(key@),
            },
    {
        proof {
            use_type_invariant(&*self);
            lemma_kv_scan(self.attributes@, key@);
        }
        let key_owned: String = key.to_owned();
        let n = self.attributes.len();
        let mut i: usize = 0;
        while i < n
            invariant
                n == self.attributes@.len(),
                i <= n,
                key_owned@ == key@,
                kv_wf(self.attributes@),
                forall|k: int| 0 <= k < i ==> (#[trigger] self.attributes@[k]).0@ != key@,
                forall|j: int|
                    0 <= j < self.attributes@.len() && (#[trigger] self.attributes@[j]).0@ == key@
                        ==> self.values().contains_key(key@) && self.values()[key@]
                        == self.attributes@[j].1@,
                (forall|j: int|
                    0 <= j < self.attributes@.len() ==> (#[trigger] self.attributes@[j]).0@
                        != key@) ==> !self.values().contains_key(key@),
            decreases n - i,
        {
            if self.attributes[i].0 == key_owned {
                return Some(&self.attributes[i].1);
            }
            i = i + 1;
        }
        None
    }
}

/// Applies one attribute list to the mapping under construction.
fn apply_attr_list<E: ConditionalEvaluator>(
    runtime: &E,
    values: &mut Vec<(String, Value)>,
    attrs: &AttributeList,
) -> (r: Result<(), Error>)
    requires
        kv_wf(old(values)@),
    ensures
        kv_wf(final(values)@),
        match r {
            Result::Ok(_) => spec_apply_attrs(*runtime, kv_map(old(values)@), attrs@)
                matches Result::Ok(m) && kv_map(final(values)@) == m,
            Result::Err(_) => spec_apply_attrs(*runtime, kv_map(old(values)@), attrs@) is Err,
        },
{
    let n = attrs.entries.len();
    let mut i: usize = 0;
    proof {
        assert(attrs@.skip(0) =~= attrs@);
    }
    while i < n
        invariant
            n == attrs.entries@.len(),
            i <= n,
            kv_wf(values@),
            spec_apply_attrs(*runtime, kv_map(values@), attrs@.skip(i as int)) == spec_apply_attrs(
                *runtime,
                kv_map(old(values)@),
                attrs@,
            ),
        decreases n - i,
    {
        proof {
            assert(attrs@.skip(i as int)[0] == attrs@[i as int]);
            assert(attrs@.skip(i as int).drop_first() =~= attrs@.skip(i as int + 1));
            assert(attrs@[i as int] == attrs.entries@[i as int]@);
        }
        let applies = match attrs.entries[i].check_conditional(runtime) {
            Result::Ok(b) => b,
            Result::Err(e) => {
                return Err(e);
            },
        };
        if applies {
            kv_insert(values, attrs.entries[i].key.clone(), attrs.entries[i].value.clone());
        }
        i = i + 1;
    }
    proof {
        assert(attrs@.skip(n as int).len() == 0);
    }
    Ok(())
}

impl Attributes {
    /// Resolves the final attributes of one component from its template and
    /// the enclosing style, consulting the runtime for each conditional.
    /// Matching style rules apply first, then the component's own
    /// declarations: last write wins throughout, so a local declaration
    /// overrides the stylesheet for the same key.
    pub fn resolve<E: ConditionalEvaluator>(
        template: &ComponentTemplate,
        context: &UiContext<E>,
    ) -> (r: Result<Attributes, Error>)
        ensures
            match spec_resolve(context.runtime, template@, context.style@) {
                Result::Ok(m) => r matches Result::Ok(a) && a.values() == m && a.class_spec()
                    == template@.class && a.line_spec() == template@.line,
                Result::Err(_) => r is Err,
            },
    {
        let ghost ev = context.runtime;
        let ghost cls = template@.class;
        let mut values: Vec<(String, Value)> = Vec::new();
        proof {
            assert(kv_map(values@) =~= Map::<Seq<char>, ValueSpec>::empty());
        }
        let nrules = context.style.components.len();
        let mut ri: usize = 0;
        proof {
            assert(context.style@.skip(0) =~= context.style@);
        }
        while ri < nrules
            invariant
                nrules == context.style.components@.len(),
                ri <= nrules,
                kv_wf(values@),
                ev == context.runtime,
                cls == template@.class,
                spec_apply_style(ev, kv_map(values@), context.style@.skip(ri as int), cls)
                    == spec_apply_style(ev, Map::<Seq<char>, ValueSpec>::empty(), context.style@, cls),
            decreases nrules - ri,
        {
            proof {
                assert(context.style@.skip(ri as int)[0] == context.style@[ri as int]);
                assert(context.style@.skip(ri as int).drop_first() =~= context.style@.skip(
                    ri as int + 1,
                ));
                assert(context.style@[ri as int] == context.style.components@[ri as int]@);
            }
            let rule = &context.style.components[ri];
            if rule.class == template.class {
                match apply_attr_list(&context.runtime, &mut values, &rule.attributes) {
                    Result::Ok(_) => {},
                    Result::Err(e) => {
                        return Err(e);
                    },
                }
            }
            ri = ri + 1;
        }
        proof {
            assert(context.style@.skip(nrules as int).len() == 0);
        }
        match apply_attr_list(&context.runtime, &mut values, &template.attributes) {
            Result::Ok(_) => {},
            Result::Err(e) => {
                return Err(e);
            },
        }
        Ok(
            Attributes {
                attributes: values,
                component_class: template.class.clone(),
                component_line: template.line,
            },
        )
    }
}


impl Attribute {
    /// Whether this attribute takes part in the cascade: `Ok(true)` when it
    /// is unconditional or its conditional evaluates to true.
    pub fn check_conditional<E: ConditionalEvaluator>(&self, runtime: &E) -> (r: Result<
        bool,
        Error,
    >)
        ensures
            match spec_include(*runtime, self@) {
                Option::Some(b) => r matches Result::Ok(x) && x == b,
                Option::None => r is Err,
            },
    {
        match &self.conditional {
            Option::None => Ok(true),
            Option::Some(expr) => runtime.evaluate(expr.as_str()),
        }
    }
}

impl Attributes {
    /// Reads `key` through a caller-supplied conversion. An absent key
    /// yields `default` without invoking the conversion; a conversion
    /// failure is wrapped with the consuming component's class, line and
    /// field for context.
    pub fn attribute<O, F: FnOnce(&Value) -> Result<O, Error>>(
        &self,
        key: &str,
        map: F,
        default: O,
    ) -> (r: Result<O, Error>)
        requires
            forall|v: &Value| #[trigger] call_requires(map, (v,)),
        ensures
            !self.values().contains_key(key@) ==> r == Result::<O, Error>::Ok(default),
            self.values().contains_key(key@) ==> match r {
                Result::Ok(o) => exists|v: &Value|
                    v@ == self.values()[key@] && #[trigger] call_ensures(
                        map,
                        (v,),
                        Result::<O, Error>::Ok(o),
                    ),
                Result::Err(e) => e matches Error::Attribute { component, line, field, inner }
                    && component@ == self.class_spec() && line as int == self.line_spec()
                    && field@ == key@ && exists|v: &Value|
                    v@ == self.values()[key@] && #[trigger] call_ensures(
                        map,
                        (v,),
                        Result::<O, Error>::Err(*inner),
                    ),
            },
    {
        match self.find(key) {
            Option::None => Ok(default),
            Option::Some(v) => match map(v) {
                Result::Ok(o) => Ok(o),
                Result::Err(error) => Err(
                    Error::Attribute {
                        component: self.component_class.clone(),
                        line: self.component_line,
                        field: key.to_owned(),
                        inner: Box::new(error),
                    },
                ),
            },
        }
    }

    /// Reads `key` through a caller-supplied conversion, treating both an
    /// absent key and the explicit `Default` sentinel as `None`; any other
    /// present value is converted and wrapped in `Some`.
    #[verifier::rlimit(60)]
    #[verifier::spinoff_prover]
    pub fn attribute_optional<O, F: FnOnce(&Value) -> Result<O, Error>>(
        &self,
        key: &str,
        map: F,
    ) -> (r: Result<Option<O>, Error>)
        requires
            forall|v: &Value| #[trigger] call_requires(map, (v,)),
        ensures
            !self.values().contains_key(key@) ==> r == Result::<Option<O>, Error>::Ok(
                Option::None,
            ),
            self.values().contains_key(key@) && self.values()[key@] is Default ==> r == Result::<
                Option<O>,
                Error,
            >::Ok(Option::None),
            self.values().contains_key(key@) && !(self.values()[key@] is Default) ==> match r {
                Result::Ok(o) => exists|v: &Value, x: O|
                    o == Option::Some(x) && v@ == self.values()[key@] && #[trigger] call_ensures(
                        map,
                        (v,),
                        Result::<O, Error>::Ok(x),
                    ),
                Result::Err(e) => e matches Error::Attribute { component, line, field, inner }
                    && component@ == self.class_spec() && line as int == self.line_spec()
                    && field@ == key@ && exists|v: &Value|
                    v@ == self.values()[key@] && #[trigger] call_ensures(
                        map,
                        (v,),
                        Result::<O, Error>::Err(*inner),
                    ),
            },
    {
        match self.find(key) {
            Option::None => Ok(None),
            Option::Some(v) => {
                if v.is_default() {
                    Ok(None)
                } else {
                    match map(v) {
                        Result::Ok(o) => {
                            proof {
                                assert(call_ensures(map, (v,), Result::<O, Error>::Ok(o)));
                            }
                            Ok(Some(o))
                        },
                        Result::Err(error) => {
                            proof {
                                assert(call_ensures(map, (v,), Result::<O, Error>::Err(error)));
                            }
                            Err(
                                Error::Attribute {
                                    component: self.component_class.clone(),
                                    line: self.component_line,
                                    field: key.to_owned(),
                                    inner: Box::new(error),
                                },
                            )
                        },
                    }
                }
            },
        }
    }
}

/// First verdict recorded for `expr`, if any.
pub open spec fn table_lookup(s: Seq<(String, bool)>, expr: Seq<char>) -> Option<bool>
    decreases s.len(),
{
    if s.len() == 0 {
        Option::None
    } else if s[0].0@ == expr {
        Option::Some(s[0].1)
    } else {
        table_lookup(s.drop_first(), expr)
    }
}

/// A deterministic conditional runtime for hosts and tests: a table from
/// expression text to a fixed verdict. An expression absent from the table
/// fails to evaluate, as a scripting runtime fails on an unknown name.
pub struct TableRuntime {
    pub entries: Vec<(String, bool)>,
}

impl TableRuntime {
    pub fn new(entries: Vec<(String, bool)>) -> (r: TableRuntime)
        ensures
            r.entries@ == entries@,
    {
        TableRuntime { entries }
    }

    /// A runtime with an empty table: every conditional fails to evaluate.
    pub fn empty() -> (r: TableRuntime)
        ensures
            r.entries@.len() == 0,
    {
        TableRuntime { entries: Vec::new() }
    }
}

impl ConditionalEvaluator for TableRuntime {
    open spec fn eval_spec(&self, expr: Seq<char>) -> Option<bool> {
        table_lookup(self.entries@, expr)
    }

    fn evaluate(&self, expr: &str) -> (r: Result<bool, Error>) {
        let expr_owned: String = expr.to_owned();
        let n = self.entries.len();
        let mut i: usize = 0;
        proof {
            assert(self.entries@.subrange(0, n as int) =~= self.entries@);
        }
        while i < n
            invariant
                n == self.entries@.len(),
                i <= n,
                expr_owned@ == expr@,
                table_lookup(self.entries@, expr@) == table_lookup(
                    self.entries@.subrange(i as int, n as int),
                    expr@,
                ),
            decreases n - i,
        {
            proof {
                assert(self.entries@.subrange(i as int, n as int)[0] == self.entries@[i as int]);
                assert(self.entries@.subrange(i as int, n as int).drop_first()
                    =~= self.entries@.subrange(i as int + 1, n as int));
            }
            if self.entries[i].0 == expr_owned {
                return Ok(self.entries[i].1);
            }
            i = i + 1;
        }
        proof {
            assert(self.entries@.subrange(n as int, n as int).len() == 0);
        }
        Err(Error::Script { message: expr.to_owned() })
    }
}

} // verus!
