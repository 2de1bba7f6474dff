//! Template rendering: `{identifier(.identifier)*}` placeholders inside
//! string values are resolved against the enclosing instance's fields and
//! the globals, and replaced by the resolved value's display text.
use vstd::prelude::*;
use crate::context::SpecContext;
use crate::context::TycoContext;
use crate::context::context_model;
use crate::utils;
use crate::value::SpecField;
use crate::value::SpecInstance;
use crate::value::SpecStr;
use crate::value::SpecValue;
use crate::value::TycoField;
use crate::value::TycoInstance;
use crate::value::TycoString;
use crate::value::TycoValue;
use crate::value::clone_instance;
use crate::value::clone_value;
use crate::value::field_model;
use crate::value::fields_model;
use crate::value::instance_model;
use crate::value::lemma_fields_model_index;
use crate::value::spec_lookup;
use crate::value::spec_set_field;
use crate::value::spec_template_text;
use crate::value::str_model;
use crate::value::value_model;
use crate::value::values_model;

verus! {

/// Model of the optional enclosing instance.
pub open spec fn opt_inst_model(o: Option<&TycoInstance>) -> Option<SpecInstance> {
    match o {
        None => None,
        Some(i) => Some(instance_model(*i)),
    }
}

// ---------------------------------------------------------------------------
// Path resolution
// ---------------------------------------------------------------------------
/// The dot-separated segments of a placeholder; every segment is kept, so
/// the list is never empty.
pub open spec fn spec_split_path(s: Seq<char>) -> Seq<Seq<char>>
    decreases s.len(),
{
    match utils::find_char_from(s, '.', 0) {
        None => seq![s],
        Some(i) => if 0 <= i && i < s.len() {
            seq![s.take(i)] + spec_split_path(s.skip(i + 1))
        } else {
            seq![s]
        },
    }
}

/// Path walk rooted at an instance. A found segment descends into instance
/// values and resolved references; a segment that names no field is merged
/// with the next one (rejoined with `.`) and retried, so field names that
/// contain a literal dot still resolve.
pub open spec fn spec_rfi(container: SpecInstance, parts: Seq<Seq<char>>) -> Option<SpecValue>
    decreases parts.len(),
{
    if parts.len() == 0 {
        None
    } else {
        match spec_lookup(container.fields, parts[0]) {
            Some(value) => if parts.len() == 1 {
                Some(value)
            } else {
                match value {
                    SpecValue::Instance(i2) => spec_rfi(i2, parts.skip(1)),
                    SpecValue::Reference(r) => match r.resolved {
                        Some(i2) => spec_rfi(i2, parts.skip(1)),
                        None => None,
                    },
                    _ => None,
                }
            },
            None => if parts.len() > 1 {
                spec_rfi(container, seq![parts[0] + seq!['.'] + parts[1]] + parts.skip(2))
            } else {
                None
            },
        }
    }
}

/// Path walk rooted at the globals; after an unresolved reference the walk
/// falls back to the globals for the next segment.
pub open spec fn spec_rfg(
    container: Option<SpecInstance>,
    globals: Seq<SpecField>,
    parts: Seq<Seq<char>>,
) -> Option<SpecValue>
    decreases parts.len(),
{
    if parts.len() == 0 {
        None
    } else {
        let looked = match container {
            Some(c) => spec_lookup(c.fields, parts[0]),
            None => spec_lookup(globals, parts[0]),
        };
        match looked {
            Some(v) => if parts.len() == 1 {
                Some(v)
            } else {
                match v {
                    SpecValue::Instance(i2) => spec_rfg(Some(i2), globals, parts.skip(1)),
                    SpecValue::Reference(r) => spec_rfg(r.resolved, globals, parts.skip(1)),
                    _ => None,
                }
            },
            None => if parts.len() > 1 {
                spec_rfg(container, globals, seq![parts[0] + seq!['.'] + parts[1]] + parts.skip(2))
            } else {
                None
            },
        }
    }
}

/// What a placeholder resolves to: the enclosing instance first, then the
/// forced-global path behind a leading `global.`, then the globals; the
/// resolved value's display text, or `None` where nothing matches.
pub open spec fn spec_resolve_placeholder(
    ph: Seq<char>,
    c: SpecContext,
    current: Option<SpecInstance>,
) -> Option<Seq<char>> {
    let parts = spec_split_path(ph);
    let v1 = match current {
        Some(inst) => spec_rfi(inst, parts),
        None => None,
    };
    let v2 = if v1 is None && parts.len() > 1 && parts[0] == "global"@ {
        spec_rfg(None, c.globals, parts.skip(1))
    } else {
        v1
    };
    let v3 = if v2 is None {
        spec_rfg(None, c.globals, parts)
    } else {
        v2
    };
    match v3 {
        None => None,
        Some(v) => Some(spec_template_text(v)),
    }
}

/// Splits a placeholder at every dot.
#[verifier::loop_isolation(false)]
pub fn split_path(ph: &str) -> (r: Vec<String>)
    ensures
        utils::views_of(r@) == spec_split_path(ph@),
        r@.len() >= 1,
{
    let s = utils::to_char_vec(ph);
    let n = s.len();
    let mut parts: Vec<String> = Vec::new();
    let mut from: usize = 0;
    proof {
        assert(s@.skip(0) =~= s@);
        assert(utils::views_of(parts@) =~= Seq::<Seq<char>>::empty());
    }
    loop
        invariant
            from <= s@.len(),
            utils::views_of(parts@) + spec_split_path(s@.skip(from as int)) == spec_split_path(
                s@,
            ),
            spec_split_path(s@.skip(from as int)).len() >= 1,
        decreases s@.len() - from,
    {
        let ghost suffix = s@.skip(from as int);
        match utils::find_char(&s, '.', from) {
            None => {
                proof {
                    crate::utils::lemma_find_char_shift(s@, '.', from as int);
                }
                let mut piece: Vec<char> = Vec::new();
                utils::push_subrange(&mut piece, &s, from, s.len());
                let pstr = utils::chars_to_string(&piece);
                let ghost pre = utils::views_of(parts@);
                parts.push(pstr);
                proof {
                    assert(Seq::<char>::empty() + s@.subrange(from as int, s@.len() as int)
                        =~= suffix);
                    assert(utils::views_of(parts@) =~= pre.push(suffix));
                    assert(spec_split_path(suffix) == seq![suffix]);
                    assert(pre.push(suffix) =~= pre + seq![suffix]);
                    assert(utils::views_of(parts@) + Seq::<Seq<char>>::empty() =~= utils::views_of(
                        parts@,
                    ));
                    assert(spec_split_path(s@.skip(s@.len() as int)).len() >= 1);
                }
                return parts;
            },
            Some(j) => {
                proof {
                    crate::utils::lemma_find_char_shift(s@, '.', from as int);
                    assert(utils::find_char_from(suffix, '.', 0) == Some(j - from as int));
                    assert(j < n);
                }
                let mut piece: Vec<char> = Vec::new();
                utils::push_subrange(&mut piece, &s, from, j);
                let pstr = utils::chars_to_string(&piece);
                let ghost pre = utils::views_of(parts@);
                parts.push(pstr);
                proof {
                    assert(Seq::<char>::empty() + s@.subrange(from as int, j as int) =~= suffix.take(
                        j - from as int,
                    ));
                    assert(utils::views_of(parts@) =~= pre.push(suffix.take(j - from as int)));
                    assert(suffix.skip(j - from as int + 1) =~= s@.skip(j as int + 1));
                    assert(spec_split_path(suffix) == seq![suffix.take(j - from as int)]
                        + spec_split_path(s@.skip(j as int + 1)));
                    assert(pre.push(suffix.take(j - from as int)) + spec_split_path(
                        s@.skip(j as int + 1),
                    ) =~= pre + (seq![suffix.take(j - from as int)] + spec_split_path(
                        s@.skip(j as int + 1),
                    )));
                }
                from = j + 1;
            },
        }
    }
}

/// Path walk rooted at an instance; returns an owned copy of the match.
#[verifier::loop_isolation(false)]
pub fn resolve_from_instance(container: &TycoInstance, parts: &Vec<String>) -> (r: Option<
    TycoValue,
>)
    ensures
        r matches Some(v) ==> spec_rfi(instance_model(*container), utils::views_of(parts@))
            == Some(value_model(v)),
        r is None ==> spec_rfi(instance_model(*container), utils::views_of(parts@)) is None,
    decreases parts@.len(),
{
    if parts.len() == 0 {
        return None;
    }
    let ghost pv = utils::views_of(parts@);
    match container.get_attribute(parts[0].as_str()) {
        Some(value) => {
            if parts.len() == 1 {
                Some(clone_value(value))
            } else {
                let rest = tail_parts(parts);
                match value {
                    TycoValue::Instance(i2) => resolve_from_instance(i2, &rest),
                    TycoValue::Reference(rf) => match &rf.resolved {
                        Some(b) => resolve_from_instance(&**b, &rest),
                        None => None,
                    },
                    _ => None,
                }
            }
        },
        None => {
            if parts.len() > 1 {
                let merged = merge_first_two(parts);
                resolve_from_instance(container, &merged)
            } else {
                None
            }
        },
    }
}

/// Path walk rooted at the globals; returns an owned copy of the match.
#[verifier::loop_isolation(false)]
pub fn resolve_from_globals(
    container: Option<&TycoInstance>,
    ctx: &TycoContext,
    parts: &Vec<String>,
) -> (r: Option<TycoValue>)
    ensures
        r matches Some(v) ==> spec_rfg(
            opt_inst_model(container),
            fields_model(ctx.globals@),
            utils::views_of(parts@),
        ) == Some(value_model(v)),
        r is None ==> spec_rfg(
            opt_inst_model(container),
            fields_model(ctx.globals@),
            utils::views_of(parts@),
        ) is None,
    decreases parts@.len(),
{
    if parts.len() == 0 {
        return None;
    }
    let looked: Option<&TycoValue> = match container {
        Some(c) => c.get_attribute(parts[0].as_str()),
        None => ctx.get_global(parts[0].as_str()),
    };
    match looked {
        Some(v) => {
            if parts.len() == 1 {
                Some(clone_value(v))
            } else {
                let rest = tail_parts(parts);
                match v {
                    TycoValue::Instance(i2) => resolve_from_globals(Some(i2), ctx, &rest),
                    TycoValue::Reference(rf) => match &rf.resolved {
                        Some(b) => resolve_from_globals(Some(&**b), ctx, &rest),
                        None => resolve_from_globals(None, ctx, &rest),
                    },
                    _ => None,
                }
            }
        },
        None => {
            if parts.len() > 1 {
                let merged = merge_first_two(parts);
                resolve_from_globals(container, ctx, &merged)
            } else {
                None
            }
        },
    }
}

/// The path without its first segment.
fn tail_parts(parts: &Vec<String>) -> (r: Vec<String>)
    requires
        parts@.len() >= 1,
    ensures
        utils::views_of(r@) == utils::views_of(parts@).skip(1),
        r@.len() == parts@.len() - 1,
{
    let mut out: Vec<String> = Vec::new();
    let mut i: usize = 1;
    while i < parts.len()
        invariant
            1 <= i <= parts@.len(),
            out@.len() == i - 1,
            forall|j: int| 0 <= j < i - 1 ==> out@[j]@ == parts@[j + 1]@,
        decreases parts@.len() - i,
    {
        out.push(parts[i].clone());
        i = i + 1;
    }
    proof {
        assert(utils::views_of(out@) =~= utils::views_of(parts@).skip(1));
    }
    out
}

/// The path with its first two segments rejoined by a dot.
fn merge_first_two(parts: &Vec<String>) -> (r: Vec<String>)
    requires
        parts@.len() >= 2,
    ensures
        utils::views_of(r@) == seq![parts@[0]@ + seq!['.'] + parts@[1]@] + utils::views_of(
            parts@,
        ).skip(2),
        r@.len() == parts@.len() - 1,
{
    let mut merged = String::new();
    merged.append(parts[0].as_str());
    merged.push('.');
    merged.append(parts[1].as_str());
    let mut out: Vec<String> = Vec::new();
    out.push(merged);
    let mut i: usize = 2;
    while i < parts.len()
        invariant
            2 <= i <= parts@.len(),
            out@.len() == i - 1,
            out@[0]@ == parts@[0]@ + seq!['.'] + parts@[1]@,
            forall|j: int| 1 <= j < i - 1 ==> out@[j]@ == parts@[j + 1]@,
        decreases parts@.len() - i,
    {
        out.push(parts[i].clone());
        i = i + 1;
    }
    proof {
        assert(utils::views_of(out@) =~= seq![parts@[0]@ + seq!['.'] + parts@[1]@]
            + utils::views_of(parts@).skip(2));
    }
    out
}

/// Resolves one placeholder to its display text.
pub fn resolve_placeholder(
    placeholder: &str,
    ctx: &TycoContext,
    current: Option<&TycoInstance>,
) -> (r: Option<String>)
    ensures
        r matches Some(t) ==> spec_resolve_placeholder(
            placeholder@,
            context_model(*ctx),
            opt_inst_model(current),
        ) == Some(t@),
        r is None ==> spec_resolve_placeholder(
            placeholder@,
            context_model(*ctx),
            opt_inst_model(current),
        ) is None,
{
    let parts = split_path(placeholder);
    let v1: Option<TycoValue> = match current {
        Some(inst) => resolve_from_instance(inst, &parts),
        None => None,
    };
    let v2: Option<TycoValue> = match v1 {
        Some(v) => Some(v),
        None => {
            if parts.len() > 1 && utils::str_eq(parts[0].as_str(), "global") {
                let rest = tail_parts(&parts);
                resolve_from_globals(None, ctx, &rest)
            } else {
                None
            }
        },
    };
    let v3: Option<TycoValue> = match v2 {
        Some(v) => Some(v),
        None => resolve_from_globals(None, ctx, &parts),
    };
    match v3 {
        None => None,
        Some(v) => Some(v.to_template_text()),
    }
}

// ---------------------------------------------------------------------------
// String rendering
// ---------------------------------------------------------------------------
/// The substitution scan: text is copied until a `{`; the placeholder up to
/// the matching `}` (or the rest of the text, if unclosed) is resolved and
/// its text substituted; an unresolved placeholder is re-emitted between
/// braces.
pub open spec fn spec_render_scan(
    s: Seq<char>,
    i: int,
    c: SpecContext,
    current: Option<SpecInstance>,
) -> Seq<char>
    decreases s.len() - i,
{
    if i >= s.len() {
        Seq::empty()
    } else if s[i] == '{' {
        match utils::find_char_from(s, '}', i + 1) {
            Some(j) => if i + 1 <= j && j < s.len() {
                (match spec_resolve_placeholder(s.subrange(i + 1, j), c, current) {
                    Some(t) => t,
                    None => seq!['{'] + s.subrange(i + 1, j) + seq!['}'],
                }) + spec_render_scan(s, j + 1, c, current)
            } else {
                Seq::empty()
            },
            None => match spec_resolve_placeholder(s.skip(i + 1), c, current) {
                Some(t) => t,
                None => seq!['{'] + s.skip(i + 1) + seq!['}'],
            },
        }
    } else {
        seq![s[i]] + spec_render_scan(s, i + 1, c, current)
    }
}

/// What rendering does to a string value: nothing unless it is
/// template-eligible; otherwise the scan substitutes placeholders and the
/// result passes once through escape processing (kept raw if that fails),
/// and the template flag is cleared.
pub open spec fn spec_render_str(
    sm: SpecStr,
    c: SpecContext,
    current: Option<SpecInstance>,
) -> SpecStr {
    if !sm.has_template || sm.is_literal {
        sm
    } else {
        let sub = spec_render_scan(sm.text, 0, c, current);
        let t2 = match utils::spec_unescape(sub) {
            Some(u) => u,
            None => sub,
        };
        SpecStr { text: t2, has_template: false, is_literal: sm.is_literal }
    }
}

impl TycoString {
    /// Substitutes the `{...}` placeholders of a template-eligible string
    /// and clears its template flag; unresolved placeholders stay verbatim.
    #[verifier::loop_isolation(false)]
    pub fn render(&mut self, ctx: &TycoContext, current: Option<&TycoInstance>)
        ensures
            str_model(*final(self)) == spec_render_str(
                str_model(*old(self)),
                context_model(*ctx),
                opt_inst_model(current),
            ),
    {
        if !self.has_template || self.is_literal {
            return ;
        }
        let s = utils::to_char_vec(self.value.as_str());
        let n = s.len();
        let ghost cm = context_model(*ctx);
        let ghost cur = opt_inst_model(current);
        let mut out = String::new();
        let mut i: usize = 0;
        while i < n
            invariant
                i <= n,
                out@ + spec_render_scan(s@, i as int, cm, cur) == spec_render_scan(s@, 0, cm, cur),
            decreases n - i,
        {
            let ghost preout = out@;
            let ch = s[i];
            if ch == '{' {
                match utils::find_char(&s, '}', i + 1) {
                    Some(j) => {
                        let mut piece: Vec<char> = Vec::new();
                        utils::push_subrange(&mut piece, &s, i + 1, j);
                        let ph = utils::chars_to_string(&piece);
                        proof {
                            assert(ph@ =~= s@.subrange(i as int + 1, j as int));
                        }
                        match resolve_placeholder(ph.as_str(), ctx, current) {
                            Some(t) => {
                                out.append(t.as_str());
                            },
                            None => {
                                out.push('{');
                                out.append(ph.as_str());
                                out.push('}');
                                proof {
                                    assert(out@ =~= preout + (seq!['{'] + s@.subrange(
                                        i as int + 1,
                                        j as int,
                                    ) + seq!['}']));
                                }
                            },
                        }
                        proof {
                            assert(out@ + spec_render_scan(s@, j as int + 1, cm, cur)
                                =~= preout + spec_render_scan(s@, i as int, cm, cur));
                        }
                        i = j + 1;
                    },
                    None => {
                        let mut piece: Vec<char> = Vec::new();
                        utils::push_subrange(&mut piece, &s, i + 1, n);
                        let ph = utils::chars_to_string(&piece);
                        proof {
                            assert(ph@ =~= s@.skip(i as int + 1));
                        }
                        match resolve_placeholder(ph.as_str(), ctx, current) {
                            Some(t) => {
                                out.append(t.as_str());
                            },
                            None => {
                                out.push('{');
                                out.append(ph.as_str());
                                out.push('}');
                                proof {
                                    assert(out@ =~= preout + (seq!['{'] + s@.skip(i as int + 1)
                                        + seq!['}']));
                                }
                            },
                        }
                        proof {
                            assert(spec_render_scan(s@, n as int, cm, cur) == Seq::<
                                char,
                            >::empty());
                            assert(out@ + spec_render_scan(s@, n as int, cm, cur) =~= out@);
                            assert(out@ =~= preout + spec_render_scan(s@, i as int, cm, cur));
                        }
                        i = n;
                    },
                }
            } else {
                out.push(ch);
                proof {
                    assert(out@ + spec_render_scan(s@, i as int + 1, cm, cur) =~= preout + (seq![
                        s@[i as int],
                    ] + spec_render_scan(s@, i as int + 1, cm, cur)));
                }
                i = i + 1;
            }
        }
        proof {
            assert(out@ + Seq::<char>::empty() =~= out@);
            assert(out@ == spec_render_scan(s@, 0, cm, cur));
        }
        match utils::unescape_basic_string(out.as_str()) {
            Ok(u) => {
                self.value = u;
            },
            Err(_) => {
                self.value = out;
            },
        }
        self.has_template = false;
    }
}

// ---------------------------------------------------------------------------
// Rendering over values and instances
// ---------------------------------------------------------------------------
/// The rendering walk over one value: strings render; arrays render
/// element-wise under the same enclosing instance; a nested instance
/// renders its own fields in order, each against the instance's own state
/// so far.
pub open spec fn spec_render_value(
    v: SpecValue,
    c: SpecContext,
    current: Option<SpecInstance>,
) -> SpecValue
    decreases v,
{
    match v {
        SpecValue::Str(sm) => SpecValue::Str(spec_render_str(sm, c, current)),
        SpecValue::Array(items) => SpecValue::Array(spec_render_values(items, c, current)),
        SpecValue::Instance(m) => SpecValue::Instance(spec_render_instance(m, c)),
        _ => v,
    }
}

pub open spec fn spec_render_values(
    items: Seq<SpecValue>,
    c: SpecContext,
    current: Option<SpecInstance>,
) -> Seq<SpecValue>
    decreases items,
{
    if items.len() == 0 {
        Seq::empty()
    } else {
        seq![spec_render_value(items[0], c, current)] + spec_render_values(
            items.skip(1),
            c,
            current,
        )
    }
}

/// The per-field fold of instance rendering: field `k` renders against the
/// instance state holding the already-rendered fields `0..k`, so a later
/// field's placeholder sees an earlier field's rendered value and a
/// not-yet-rendered sibling's raw value.
pub open spec fn spec_render_fields_walk(
    orig: Seq<SpecField>,
    snap: SpecInstance,
    c: SpecContext,
) -> Seq<SpecField>
    decreases orig,
{
    if orig.len() == 0 {
        Seq::empty()
    } else {
        let v2 = spec_render_value(orig[0].value, c, Some(snap));
        let snap2 = SpecInstance {
            struct_name: snap.struct_name,
            fields: spec_set_field(snap.fields, orig[0].name, v2),
        };
        seq![SpecField { name: orig[0].name, value: v2 }] + spec_render_fields_walk(
            orig.skip(1),
            snap2,
            c,
        )
    }
}

pub open spec fn spec_render_instance(m: SpecInstance, c: SpecContext) -> SpecInstance
    decreases m,
{
    SpecInstance { struct_name: m.struct_name, fields: spec_render_fields_walk(m.fields, m, c) }
}

pub proof fn lemma_spec_render_values_index(
    items: Seq<SpecValue>,
    c: SpecContext,
    current: Option<SpecInstance>,
)
    ensures
        spec_render_values(items, c, current).len() == items.len(),
        forall|j: int|
            0 <= j < items.len() ==> spec_render_values(items, c, current)[j] == spec_render_value(
                items[j],
                c,
                current,
            ),
    decreases items,
{
    if items.len() > 0 {
        lemma_spec_render_values_index(items.skip(1), c, current);
    }
}

/// Renders one value, rebuilding it.
#[verifier::loop_isolation(false)]
pub fn render_value_exec(v: &TycoValue, ctx: &TycoContext, current: Option<&TycoInstance>) -> (r:
    TycoValue)
    ensures
        value_model(r) == spec_render_value(
            value_model(*v),
            context_model(*ctx),
            opt_inst_model(current),
        ),
    decreases *v,
{
    match v {
        TycoValue::Str(sm) => {
            let mut s2 = TycoString {
                value: sm.value.clone(),
                has_template: sm.has_template,
                is_literal: sm.is_literal,
            };
            s2.render(ctx, current);
            TycoValue::Str(s2)
        },
        TycoValue::Array(items) => {
            let ghost vm = values_model(items@);
            let mut out: Vec<TycoValue> = Vec::new();
            let mut i: usize = 0;
            proof {
                crate::value::lemma_values_model_index(items@);
                lemma_spec_render_values_index(vm, context_model(*ctx), opt_inst_model(current));
            }
            while i < items.len()
                invariant
                    i <= items@.len(),
                    out@.len() == i as int,
                    forall|j: int|
                        0 <= j < i as int ==> value_model(out@[j]) == spec_render_value(
                            vm[j],
                            context_model(*ctx),
                            opt_inst_model(current),
                        ),
                decreases items@.len() - i,
            {
                proof {
                    assert(decreases_to!(*v => items@[i as int]));
                }
                out.push(render_value_exec(&items[i], ctx, current));
                i = i + 1;
            }
            proof {
                crate::value::lemma_values_model_index(out@);
                assert(values_model(out@) =~= spec_render_values(
                    vm,
                    context_model(*ctx),
                    opt_inst_model(current),
                ));
            }
            TycoValue::Array(out)
        },
        TycoValue::Instance(inst) => {
            proof {
                assert(decreases_to!(*v => *inst));
            }
            TycoValue::Instance(render_instance_exec(inst, ctx))
        },
        _ => clone_value(v),
    }
}

/// Renders one instance's fields in order against its own evolving state.
#[verifier::loop_isolation(false)]
pub fn render_instance_exec(inst: &TycoInstance, ctx: &TycoContext) -> (r: TycoInstance)
    ensures
        instance_model(r) == spec_render_instance(instance_model(*inst), context_model(*ctx)),
    decreases *inst,
{
    let ghost fm = fields_model(inst.fields@);
    let ghost cm = context_model(*ctx);
    let mut snapshot = clone_instance(inst);
    let mut out: Vec<TycoField> = Vec::new();
    let mut k: usize = 0;
    proof {
        lemma_fields_model_index(inst.fields@);
        assert(fm.skip(0) =~= fm);
        assert(fields_model(out@) =~= Seq::<SpecField>::empty());
    }
    while k < inst.fields.len()
        invariant
            k <= inst.fields@.len(),
            snapshot.struct_name@ == inst.struct_name@,
            fields_model(out@) + spec_render_fields_walk(
                fm.skip(k as int),
                instance_model(snapshot),
                cm,
            ) == spec_render_fields_walk(fm, instance_model(*inst), cm),
        decreases inst.fields@.len() - k,
    {
        proof {
            assert(fm.skip(k as int)[0] == fm[k as int]);
            assert(fm.skip(k as int).skip(1) =~= fm.skip(k as int + 1));
            assert(decreases_to!(*inst => inst.fields@[k as int].value));
        }
        let ghost preout = fields_model(out@);
        let ghost presnap = instance_model(snapshot);
        let fv = &inst.fields[k];
        let v2 = render_value_exec(&fv.value, ctx, Some(&snapshot));
        snapshot.set_attribute(fv.name.clone(), clone_value(&v2));
        let nf = TycoField { name: fv.name.clone(), value: v2 };
        let ghost oldout = out@;
        out.push(nf);
        proof {
            crate::value::lemma_fields_model_push(oldout, nf);
            assert(fields_model(out@) =~= preout + seq![field_model(nf)]);
            assert(field_model(nf) == (SpecField {
                name: fm[k as int].name,
                value: value_model(v2),
            }));
            assert(instance_model(snapshot) == (SpecInstance {
                struct_name: presnap.struct_name,
                fields: spec_set_field(presnap.fields, fm[k as int].name, value_model(v2)),
            }));
            assert((preout + seq![field_model(nf)]) + spec_render_fields_walk(
                fm.skip(k as int + 1),
                instance_model(snapshot),
                cm,
            ) =~= preout + (seq![field_model(nf)] + spec_render_fields_walk(
                fm.skip(k as int + 1),
                instance_model(snapshot),
                cm,
            )));
        }
        k = k + 1;
    }
    proof {
        assert(fm.skip(inst.fields@.len() as int).len() == 0);
        assert(fields_model(out@) + Seq::<SpecField>::empty() =~= fields_model(out@));
    }
    TycoInstance { struct_name: inst.struct_name.clone(), fields: out }
}

// ---------------------------------------------------------------------------
// The rendering pass over a whole document
// ---------------------------------------------------------------------------
/// Globals render in order; each renders against the snapshot holding the
/// already-rendered earlier globals, and is then written into the snapshot.
pub open spec fn spec_render_globals(orig: Seq<SpecField>, snap: SpecContext) -> (
    Seq<SpecField>,
    SpecContext,
)
    decreases orig.len(),
{
    if orig.len() == 0 {
        (Seq::empty(), snap)
    } else {
        let v2 = spec_render_value(orig[0].value, snap, None);
        let snap2 = SpecContext {
            globals: spec_set_field(snap.globals, orig[0].name, v2),
            structs: snap.structs,
        };
        let rec = spec_render_globals(orig.skip(1), snap2);
        (seq![SpecField { name: orig[0].name, value: v2 }] + rec.0, rec.1)
    }
}

/// Writes a rendered instance back into the snapshot's struct of the given
/// name, at the instance's position.
pub open spec fn spec_snap_update_instance(
    snap: SpecContext,
    name: Seq<char>,
    idx: nat,
    inst2: SpecInstance,
) -> SpecContext {
    match crate::context::struct_index_of(snap.structs, name) {
        None => snap,
        Some(k) => {
            let st = snap.structs[k];
            let insts2 = if idx < st.instances.len() {
                st.instances.update(idx as int, inst2)
            } else {
                st.instances.push(inst2)
            };
            SpecContext {
                globals: snap.globals,
                structs: snap.structs.update(
                    k,
                    crate::context::SpecStruct { instances: insts2, ..st },
                ),
            }
        },
    }
}

/// One struct's instances render in order, each against the evolving
/// snapshot, which receives every rendered instance.
pub open spec fn spec_render_insts(
    orig: Seq<SpecInstance>,
    sname: Seq<char>,
    idx: nat,
    snap: SpecContext,
) -> (Seq<SpecInstance>, SpecContext)
    decreases orig.len(),
{
    if orig.len() == 0 {
        (Seq::empty(), snap)
    } else {
        let i2 = spec_render_instance(orig[0], snap);
        let snap2 = spec_snap_update_instance(snap, sname, idx, i2);
        let rec = spec_render_insts(orig.skip(1), sname, idx + 1, snap2);
        (seq![i2] + rec.0, rec.1)
    }
}

pub open spec fn spec_render_structs_fold(orig: Seq<crate::context::SpecStruct>, snap: SpecContext) -> (
    Seq<crate::context::SpecStruct>,
    SpecContext,
)
    decreases orig.len(),
{
    if orig.len() == 0 {
        (Seq::empty(), snap)
    } else {
        let s0 = orig[0];
        let reci = spec_render_insts(s0.instances, s0.name, 0, snap);
        let rec = spec_render_structs_fold(orig.skip(1), reci.1);
        (seq![crate::context::SpecStruct { instances: reci.0, ..s0 }] + rec.0, rec.1)
    }
}

/// The whole rendering pass: globals first, then every struct's instances,
/// all against a snapshot taken at the start and updated as values render.
pub open spec fn spec_render_pass(c: SpecContext) -> SpecContext {
    let g = spec_render_globals(c.globals, c);
    let s = spec_render_structs_fold(c.structs, g.1);
    SpecContext { globals: g.0, structs: s.0 }
}

impl TycoValue {
    /// Renders every template-eligible string inside this value.
    pub fn render_templates(&mut self, ctx: &TycoContext, current: Option<&TycoInstance>)
        ensures
            value_model(*final(self)) == spec_render_value(
                value_model(*old(self)),
                context_model(*ctx),
                opt_inst_model(current),
            ),
    {
        let nv = render_value_exec(self, ctx, current);
        *self = nv;
    }
}

} // verus!
