//! Laws of the parser and of the cascade, stated and proved over the same
//! spec functions the executable contracts use.

use vstd::prelude::*;
use crate::attributes::{
    spec_apply_attrs, spec_apply_style, spec_include, spec_resolve, ConditionalEvaluator,
};
use crate::error::{ParseErrorKind, ParserErrorSpec};
use crate::parser::{
    spec_build, spec_build_children, spec_build_node, spec_dup_uncond, spec_parse_entry,
    spec_spaces_len, EntrySpec,
};
use crate::template::{AttrSpec, StyleRuleSpec, TemplateSpec};
use crate::value::ValueSpec;

verus! {

broadcast use vstd::seq::group_seq_axioms;

/// A component tree written back as component lines: the node itself at
/// `depth`, then every child's lines one unit deeper, in document order.
pub open spec fn spec_flatten(t: TemplateSpec, depth: int) -> Seq<EntrySpec>
    decreases t, 0int,
{
    seq![
        EntrySpec { indent: depth, class: t.class, attributes: t.attributes, line: t.line },
    ] + spec_flatten_seq(t.children, depth + 1)
}

/// A forest written back as component lines, all roots at `depth`.
pub open spec fn spec_flatten_seq(ts: Seq<TemplateSpec>, depth: int) -> Seq<EntrySpec>
    decreases ts, 1int,
{
    if ts.len() == 0 {
        Seq::empty()
    } else {
        spec_flatten(ts[0], depth) + spec_flatten_seq(ts.drop_first(), depth)
    }
}

proof fn lemma_build_node_flatten(entries: Seq<EntrySpec>, i: int)
    requires
        0 <= i < entries.len(),
        spec_build_node(entries, i) is Ok,
    ensures
        ({
            let (t, j) = spec_build_node(entries, i)->Ok_0;
            &&& i < j <= entries.len()
            &&& spec_flatten(t, entries[i].indent) == entries.subrange(i, j)
        }),
    decreases entries.len() - i, 0int,
{
    let e = entries[i];
    let (t, j) = spec_build_node(entries, i)->Ok_0;
    lemma_build_children_flatten(entries, i + 1, e.indent + 1);
    let (cs, k) = spec_build_children(entries, i + 1, e.indent + 1)->Ok_0;
    assert(t.children == cs && j == k);
    assert(spec_flatten_seq(cs, e.indent + 1) == entries.subrange(i + 1, j));
    assert(spec_flatten(t, e.indent) == seq![
        EntrySpec { indent: e.indent, class: t.class, attributes: t.attributes, line: t.line },
    ] + entries.subrange(i + 1, j));
    assert(EntrySpec {
        indent: e.indent,
        class: t.class,
        attributes: t.attributes,
        line: t.line,
    } == e);
    assert(seq![e] + entries.subrange(i + 1, j) =~= entries.subrange(i, j));
}

proof fn lemma_build_children_flatten(entries: Seq<EntrySpec>, i: int, depth: int)
    requires
        0 <= i <= entries.len(),
        spec_build_children(entries, i, depth) is Ok,
    ensures
        ({
            let (cs, k) = spec_build_children(entries, i, depth)->Ok_0;
            &&& i <= k <= entries.len()
            &&& spec_flatten_seq(cs, depth) == entries.subrange(i, k)
        }),
    decreases entries.len() - i, 1int,
{
    let (cs, k) = spec_build_children(entries, i, depth)->Ok_0;
    if i == entries.len() || entries[i].indent < depth {
        assert(cs =~= Seq::<TemplateSpec>::empty());
        assert(spec_flatten_seq(cs, depth) =~= entries.subrange(i, k));
    } else {
        lemma_build_node_flatten(entries, i);
        let (t, j) = spec_build_node(entries, i)->Ok_0;
        lemma_build_children_flatten(entries, j, depth);
        let (rest, k2) = spec_build_children(entries, j, depth)->Ok_0;
        assert(cs == seq![t] + rest && k == k2);
        assert(cs.len() > 0);
        assert(cs[0] == t);
        assert(cs.drop_first() =~= rest);
        assert(spec_flatten(t, depth) == entries.subrange(i, j));
        assert(spec_flatten_seq(rest, depth) == entries.subrange(j, k));
        assert(entries.subrange(i, j) + entries.subrange(j, k) =~= entries.subrange(i, k));
    }
}

/// The tree a document builds flattens back to exactly its component lines:
/// every class, attribute list and source line in document order, every
/// node's depth one unit deeper than its parent's. In particular sibling
/// order and child order are source order.
pub proof fn lemma_build_flatten(entries: Seq<EntrySpec>)
    requires
        spec_build(entries) is Ok,
    ensures
        entries.len() > 0,
        entries[0].indent == 0,
        spec_flatten(spec_build(entries)->Ok_0, 0) == entries,
{
    lemma_build_node_flatten(entries, 0);
    let (t, j) = spec_build_node(entries, 0)->Ok_0;
    assert(j == entries.len());
    assert(entries.subrange(0, j) =~= entries);
}

proof fn lemma_flatten_depth_ge(t: TemplateSpec, depth: int)
    ensures
        spec_flatten(t, depth).len() > 0,
        spec_flatten(t, depth)[0].indent == depth,
        forall|k: int|
            0 <= k < spec_flatten(t, depth).len() ==> (#[trigger] spec_flatten(t, depth)[k]).indent
                >= depth,
    decreases t, 0int,
{
    lemma_flatten_seq_depth_ge(t.children, depth + 1);
    let f = spec_flatten(t, depth);
    let fs = spec_flatten_seq(t.children, depth + 1);
    assert forall|k: int| 0 <= k < f.len() implies (#[trigger] f[k]).indent >= depth by {
        if k > 0 {
            assert(f[k] == fs[k - 1]);
        }
    }
}

proof fn lemma_flatten_seq_depth_ge(ts: Seq<TemplateSpec>, depth: int)
    ensures
        forall|k: int|
            0 <= k < spec_flatten_seq(ts, depth).len() ==> (#[trigger] spec_flatten_seq(
                ts,
                depth,
            )[k]).indent >= depth,
    decreases ts, 1int,
{
    if ts.len() > 0 {
        lemma_flatten_depth_ge(ts[0], depth);
        lemma_flatten_seq_depth_ge(ts.drop_first(), depth);
        let f0 = spec_flatten(ts[0], depth);
        let fr = spec_flatten_seq(ts.drop_first(), depth);
        let f = spec_flatten_seq(ts, depth);
        assert forall|k: int| 0 <= k < f.len() implies (#[trigger] f[k]).indent >= depth by {
            if k < f0.len() {
                assert(f[k] == f0[k]);
            } else {
                assert(f[k] == fr[k - f0.len()]);
            }
        }
    }
}

/// A document builds a tree only when it has exactly one component at depth
/// zero: the first line, and no later one.
pub proof fn lemma_single_root(entries: Seq<EntrySpec>)
    requires
        spec_build(entries) is Ok,
    ensures
        entries.len() > 0,
        entries[0].indent == 0,
        forall|k: int| 1 <= k < entries.len() ==> (#[trigger] entries[k]).indent >= 1,
{
    lemma_build_flatten(entries);
    let t = spec_build(entries)->Ok_0;
    lemma_flatten_seq_depth_ge(t.children, 1);
    let f = spec_flatten(t, 0);
    let fs = spec_flatten_seq(t.children, 1);
    assert forall|k: int| 1 <= k < entries.len() implies (#[trigger] entries[k]).indent >= 1 by {
        assert(entries[k] == f[k]);
        assert(f[k] == fs[k - 1]);
    }
}

proof fn lemma_flatten_steps(t: TemplateSpec, depth: int)
    ensures
        forall|k: int|
            1 <= k < spec_flatten(t, depth).len() ==> (#[trigger] spec_flatten(t, depth)[k]).indent
                <= spec_flatten(t, depth)[k - 1].indent + 1,
    decreases t, 0int,
{
    let f = spec_flatten(t, depth);
    let fs = spec_flatten_seq(t.children, depth + 1);
    lemma_flatten_seq_steps(t.children, depth + 1);
    lemma_flatten_seq_depth_ge(t.children, depth + 1);
    assert forall|k: int| 1 <= k < f.len() implies (#[trigger] f[k]).indent <= f[k - 1].indent
        + 1 by {
        assert(f[k] == fs[k - 1]);
        if k == 1 {
            assert(fs[0].indent == depth + 1);
        } else {
            assert(f[k - 1] == fs[k - 2]);
        }
    }
}

proof fn lemma_flatten_seq_steps(ts: Seq<TemplateSpec>, depth: int)
    ensures
        ts.len() > 0 ==> spec_flatten_seq(ts, depth).len() > 0 && spec_flatten_seq(
            ts,
            depth,
        )[0].indent == depth,
        forall|k: int|
            1 <= k < spec_flatten_seq(ts, depth).len() ==> (#[trigger] spec_flatten_seq(
                ts,
                depth,
            )[k]).indent <= spec_flatten_seq(ts, depth)[k - 1].indent + 1,
    decreases ts, 1int,
{
    if ts.len() > 0 {
        let f = spec_flatten_seq(ts, depth);
        let f0 = spec_flatten(ts[0], depth);
        let fr = spec_flatten_seq(ts.drop_first(), depth);
        lemma_flatten_depth_ge(ts[0], depth);
        lemma_flatten_steps(ts[0], depth);
        lemma_flatten_seq_steps(ts.drop_first(), depth);
        assert forall|k: int| 1 <= k < f.len() implies (#[trigger] f[k]).indent <= f[k - 1].indent
            + 1 by {
            if k < f0.len() {
                assert(f[k] == f0[k]);
                assert(f[k - 1] == f0[k - 1]);
            } else if k == f0.len() {
                assert(f[k] == fr[0]);
                assert(f[k - 1] == f0[k - 1]);
                assert(fr[0].indent == depth);
                assert(f0[k - 1].indent >= depth);
            } else {
                assert(f[k] == fr[k - f0.len()]);
                assert(f[k - 1] == fr[k - 1 - f0.len()]);
            }
        }
    }
}

/// A document builds a tree only when no line is indented more than one
/// unit deeper than the line before it: indentation never jumps.
pub proof fn lemma_no_indent_jump(entries: Seq<EntrySpec>)
    requires
        spec_build(entries) is Ok,
    ensures
        forall|k: int|
            1 <= k < entries.len() ==> (#[trigger] entries[k]).indent <= entries[k - 1].indent + 1,
{
    lemma_build_flatten(entries);
    let t = spec_build(entries)->Ok_0;
    lemma_flatten_steps(t, 0);
    let f = spec_flatten(t, 0);
    assert forall|k: int| 1 <= k < entries.len() implies (#[trigger] entries[k]).indent <= entries[k
        - 1].indent + 1 by {
        assert(entries[k] == f[k]);
        assert(entries[k - 1] == f[k - 1]);
    }
}


/// A component line parses only when its leading whitespace is an exact
/// multiple of the 4-column indentation unit, and its depth is that
/// multiple; any other length is a structural error on that line.
pub proof fn lemma_unit_indentation(s: Seq<char>, pos: int, line: int)
    ensures
        spec_parse_entry(s, pos, line) is Ok ==> spec_spaces_len(s, pos) % 4 == 0
            && spec_parse_entry(s, pos, line)->Ok_0.0.indent == spec_spaces_len(s, pos) / 4,
        spec_spaces_len(s, pos) % 4 != 0 ==> spec_parse_entry(s, pos, line) == Result::<
            (EntrySpec, int, int),
            ParserErrorSpec,
        >::Err(ParserErrorSpec { kind: ParseErrorKind::NonUnitIndentation, line }),
{
}

/// A parsed component line never carries two unconditional attributes with
/// one key: such a block is a structural error.
pub proof fn lemma_no_duplicate_unconditional_keys(s: Seq<char>, pos: int, line: int)
    requires
        spec_parse_entry(s, pos, line) is Ok,
    ensures
        !spec_dup_uncond(spec_parse_entry(s, pos, line)->Ok_0.0.attributes),
{
}

/// The value of the last attribute in `attrs` that has `key` and takes part
/// in the cascade (unconditional, or conditional evaluating to true), if any.
pub open spec fn spec_last_included<E: ConditionalEvaluator>(
    ev: E,
    attrs: Seq<AttrSpec>,
    key: Seq<char>,
) -> Option<ValueSpec>
    decreases attrs.len(),
{
    if attrs.len() == 0 {
        Option::None
    } else {
        let rest = spec_last_included(ev, attrs.drop_first(), key);
        if rest is Some {
            rest
        } else {
            if attrs[0].key == key && spec_include(ev, attrs[0]) == Option::Some(true) {
                Option::Some(attrs[0].value)
            } else {
                Option::None
            }
        }
    }
}

/// The attributes of every rule whose class matches, concatenated in
/// document order.
pub open spec fn spec_matching_attrs(rules: Seq<StyleRuleSpec>, class: Seq<char>) -> Seq<
    AttrSpec,
>
    decreases rules.len(),
{
    if rules.len() == 0 {
        Seq::empty()
    } else {
        (if rules[0].class == class {
            rules[0].attributes
        } else {
            Seq::empty()
        }) + spec_matching_attrs(rules.drop_first(), class)
    }
}

/// The whole cascade of one node as a single attribute list: matching style
/// rules first, the node's own declarations last.
pub open spec fn spec_cascade_attrs(t: TemplateSpec, style: Seq<StyleRuleSpec>) -> Seq<
    AttrSpec,
> {
    spec_matching_attrs(style, t.class) + t.attributes
}

proof fn lemma_apply_attrs_append<E: ConditionalEvaluator>(
    ev: E,
    m: Map<Seq<char>, ValueSpec>,
    a: Seq<AttrSpec>,
    b: Seq<AttrSpec>,
)
    ensures
        spec_apply_attrs(ev, m, a + b) == (match spec_apply_attrs(ev, m, a) {
            Result::Ok(m2) => spec_apply_attrs(ev, m2, b),
            Result::Err(x) => Result::Err(x),
        }),
    decreases a.len(),
{
    if a.len() == 0 {
        assert(a + b =~= b);
    } else {
        assert((a + b)[0] == a[0]);
        assert((a + b).drop_first() =~= a.drop_first() + b);
        match spec_include(ev, a[0]) {
            Option::None => {},
            Option::Some(true) => {
                lemma_apply_attrs_append(ev, m.insert(a[0].key, a[0].value), a.drop_first(), b);
            },
            Option::Some(false) => {
                lemma_apply_attrs_append(ev, m, a.drop_first(), b);
            },
        }
    }
}

/// What the cascade of one attribute list leaves at `key`: the last
/// included declaration's value, or what was there before.
proof fn lemma_apply_attrs_char<E: ConditionalEvaluator>(
    ev: E,
    m: Map<Seq<char>, ValueSpec>,
    attrs: Seq<AttrSpec>,
    key: Seq<char>,
)
    requires
        spec_apply_attrs(ev, m, attrs) is Ok,
    ensures
        ({
            let m2 = spec_apply_attrs(ev, m, attrs)->Ok_0;
            &&& m2.contains_key(key) == (m.contains_key(key) || spec_last_included(
                ev,
                attrs,
                key,
            ) is Some)
            &&& (m2.contains_key(key) ==> m2[key] == (match spec_last_included(ev, attrs, key) {
                Option::Some(v) => v,
                Option::None => m[key],
            }))
        }),
    decreases attrs.len(),
{
    if attrs.len() > 0 {
        let a = attrs[0];
        match spec_include(ev, a) {
            Option::None => {},
            Option::Some(true) => {
                lemma_apply_attrs_char(ev, m.insert(a.key, a.value), attrs.drop_first(), key);
            },
            Option::Some(false) => {
                lemma_apply_attrs_char(ev, m, attrs.drop_first(), key);
            },
        }
    }
}

proof fn lemma_apply_style_concat<E: ConditionalEvaluator>(
    ev: E,
    m: Map<Seq<char>, ValueSpec>,
    rules: Seq<StyleRuleSpec>,
    class: Seq<char>,
)
    ensures
        spec_apply_style(ev, m, rules, class) == spec_apply_attrs(
            ev,
            m,
            spec_matching_attrs(rules, class),
        ),
    decreases rules.len(),
{
    if rules.len() == 0 {
        assert(spec_matching_attrs(rules, class).len() == 0);
    } else {
        let head = if rules[0].class == class {
            rules[0].attributes
        } else {
            Seq::<AttrSpec>::empty()
        };
        lemma_apply_attrs_append(ev, m, head, spec_matching_attrs(rules.drop_first(), class));
        if rules[0].class == class {
            match spec_apply_attrs(ev, m, rules[0].attributes) {
                Result::Ok(m2) => {
                    lemma_apply_style_concat(ev, m2, rules.drop_first(), class);
                },
                Result::Err(_) => {},
            }
        } else {
            assert(head.len() == 0);
            lemma_apply_style_concat(ev, m, rules.drop_first(), class);
        }
    }
}

/// What a successful resolution holds at `key`: exactly the value of the
/// last included declaration for `key` in the whole cascade, and a key with
/// no included declaration is absent.
pub proof fn lemma_resolve_char<E: ConditionalEvaluator>(
    ev: E,
    t: TemplateSpec,
    style: Seq<StyleRuleSpec>,
    key: Seq<char>,
)
    requires
        spec_resolve(ev, t, style) is Ok,
    ensures
        ({
            let m = spec_resolve(ev, t, style)->Ok_0;
            &&& m.contains_key(key) == spec_last_included(
                ev,
                spec_cascade_attrs(t, style),
                key,
            ) is Some
            &&& (m.contains_key(key) ==> Option::Some(m[key]) == spec_last_included(
                ev,
                spec_cascade_attrs(t, style),
                key,
            ))
        }),
{
    let empty = Map::<Seq<char>, ValueSpec>::empty();
    lemma_apply_style_concat(ev, empty, style, t.class);
    lemma_apply_attrs_append(ev, empty, spec_matching_attrs(style, t.class), t.attributes);
    lemma_apply_attrs_char(ev, empty, spec_cascade_attrs(t, style), key);
}

proof fn lemma_last_included_append<E: ConditionalEvaluator>(
    ev: E,
    a: Seq<AttrSpec>,
    b: Seq<AttrSpec>,
    key: Seq<char>,
)
    ensures
        spec_last_included(ev, a + b, key) == (if spec_last_included(ev, b, key) is Some {
            spec_last_included(ev, b, key)
        } else {
            spec_last_included(ev, a, key)
        }),
    decreases a.len(),
{
    if a.len() == 0 {
        assert(a + b =~= b);
    } else {
        assert((a + b)[0] == a[0]);
        assert((a + b).drop_first() =~= a.drop_first() + b);
        lemma_last_included_append(ev, a.drop_first(), b, key);
    }
}

/// Local declarations beat the stylesheet: when the node's own attributes
/// hold an included declaration for `key`, a successful resolution maps
/// `key` to the last such local value, whatever the style rules say.
pub proof fn lemma_local_overrides_style<E: ConditionalEvaluator>(
    ev: E,
    t: TemplateSpec,
    style: Seq<StyleRuleSpec>,
    key: Seq<char>,
)
    requires
        spec_resolve(ev, t, style) is Ok,
        spec_last_included(ev, t.attributes, key) is Some,
    ensures
        spec_resolve(ev, t, style)->Ok_0.contains_key(key),
        Option::Some(spec_resolve(ev, t, style)->Ok_0[key]) == spec_last_included(
            ev,
            t.attributes,
            key,
        ),
{
    lemma_resolve_char(ev, t, style, key);
    lemma_last_included_append(ev, spec_matching_attrs(style, t.class), t.attributes, key);
}

/// Among style rules, the later matching rule wins: with no included local
/// declaration for `key`, a successful resolution maps `key` to the last
/// included declaration among the matching rules' attributes in document
/// order, and holds no entry when there is none.
pub proof fn lemma_later_rule_wins<E: ConditionalEvaluator>(
    ev: E,
    t: TemplateSpec,
    style: Seq<StyleRuleSpec>,
    key: Seq<char>,
)
    requires
        spec_resolve(ev, t, style) is Ok,
        spec_last_included(ev, t.attributes, key) is None,
    ensures
        spec_resolve(ev, t, style)->Ok_0.contains_key(key) == spec_last_included(
            ev,
            spec_matching_attrs(style, t.class),
            key,
        ) is Some,
        spec_resolve(ev, t, style)->Ok_0.contains_key(key) ==> Option::Some(
            spec_resolve(ev, t, style)->Ok_0[key],
        ) == spec_last_included(ev, spec_matching_attrs(style, t.class), key),
{
    lemma_resolve_char(ev, t, style, key);
    lemma_last_included_append(ev, spec_matching_attrs(style, t.class), t.attributes, key);
}

/// Resolution is deterministic: the same node, stylesheet and runtime state
/// always yield the identical mapping. Together with `Attributes::resolve`'s
/// contract, resolving one node twice gives equal results.
pub proof fn lemma_resolve_idempotent<E: ConditionalEvaluator>(
    ev: E,
    t: TemplateSpec,
    style: Seq<StyleRuleSpec>,
    r1: Map<Seq<char>, ValueSpec>,
    r2: Map<Seq<char>, ValueSpec>,
)
    requires
        spec_resolve(ev, t, style) == Result::<Map<Seq<char>, ValueSpec>, Seq<char>>::Ok(r1),
        spec_resolve(ev, t, style) == Result::<Map<Seq<char>, ValueSpec>, Seq<char>>::Ok(r2),
    ensures
        r1 == r2,
{
}

} // verus!
