//! The field resolution engine: turns a selection tree into an ordered list
//! of field tasks (`collect_fields`), executes them against a polymorphic
//! root (`do_resolve`), and joins concurrently completed tasks back into
//! declaration order with fail-fast semantics (`join_completions`).

use vstd::prelude::*;
use crate::ast::{Directive, FragmentDefinition, Selection, SelectionField};
use crate::error::{GqlError, Pos, QueryError};
use crate::registry::{strs_view, Registry};
use crate::strutil::str_eq;
use crate::table::{assoc_contains, assoc_find, assoc_get, names_find};
use crate::value::Value;

verus! {

/// What an `if` argument of a `@skip`/`@include` application evaluates to: a
/// boolean literal, or a bound variable holding one; anything else carries
/// no flag and the application is ignored.
pub open spec fn directive_flag(d: Directive, vars: Seq<(String, Value)>) -> Option<bool> {
    match assoc_get(d.arguments@, "if"@) {
        Some(v) => match v {
            Value::Boolean(b) => Some(b),
            Value::Variable(n) => match assoc_get(vars, n@) {
                Some(bound) => match bound {
                    Value::Boolean(b) => Some(b),
                    _ => None,
                },
                None => None,
            },
            _ => None,
        },
        None => None,
    }
}

/// Whether one directive application rules its item out: `@skip` with a
/// true flag, or `@include` with a false one.
pub open spec fn skip_directive(d: Directive, vars: Seq<(String, Value)>) -> bool {
    ||| (d.name@ == "skip"@ && directive_flag(d, vars) == Some(true))
    ||| (d.name@ == "include"@ && directive_flag(d, vars) == Some(false))
}

/// Whether any applied directive rules the item out.
pub open spec fn skip_spec(ds: Seq<Directive>, vars: Seq<(String, Value)>) -> bool {
    exists|i: int| 0 <= i < ds.len() && skip_directive(#[trigger] ds[i], vars)
}

fn eval_flag(d: &Directive, variables: &Vec<(String, Value)>) -> (r: Option<bool>)
    ensures
        r == directive_flag(*d, variables@),
{
    match assoc_find(&d.arguments, "if") {
        Some(v) => match v {
            Value::Boolean(b) => Some(*b),
            Value::Variable(n) => match assoc_find(variables, n.as_str()) {
                Some(bound) => match bound {
                    Value::Boolean(b) => Some(*b),
                    _ => None,
                },
                None => None,
            },
            _ => None,
        },
        None => None,
    }
}

/// Evaluates the `@skip`/`@include` applications of one item against the
/// variable bindings.
#[verifier::loop_isolation(false)]
pub fn is_skip(directives: &Vec<Directive>, variables: &Vec<(String, Value)>) -> (r: bool)
    ensures
        r == skip_spec(directives@, variables@),
{
    proof {
        reveal_strlit("skip");
        reveal_strlit("include");
        assert("skip"@.len() == 4 && "include"@.len() == 7);
    }
    let n = directives.len();
    let mut i: usize = 0;
    while i < n
        invariant
            n == directives@.len(),
            i <= n,
            forall|j: int| 0 <= j < i ==> !skip_directive(#[trigger] directives@[j], variables@),
        decreases n - i,
    {
        let d = &directives[i];
        let flag = eval_flag(d, variables);
        if str_eq(d.name.as_str(), "skip") {
            if let Some(true) = flag {
                proof {
                    assert(skip_directive(directives@[i as int], variables@));
                }
                return true;
            }
        } else if str_eq(d.name.as_str(), "include") {
            if let Some(false) = flag {
                proof {
                    assert(skip_directive(directives@[i as int], variables@));
                }
                return true;
            }
        }
        proof {
            assert(!skip_directive(directives@[i as int], variables@));
        }
        i = i + 1;
    }
    false
}

/// The polymorphic root capability set the resolver-implementation
/// collaborator provides, one impl per concrete schema type: resolving a
/// named field, reporting the runtime type name, and narrowing against a
/// type condition.
pub trait ObjectType {
    /// The runtime type name, mathematically; a verified implementation
    /// overrides this to the name its `introspection_type_name` reports.
    open spec fn type_name_spec(&self) -> Seq<char> {
        Seq::empty()
    }

    /// Whether this value narrows to the given type condition; a verified
    /// implementation overrides this to what its `narrow_matches` decides.
    open spec fn narrow_spec(&self, condition: Seq<char>) -> bool {
        false
    }

    /// Reports the runtime type name.
    fn introspection_type_name(&self) -> (r: String)
        ensures
            r@ == self.type_name_spec(),
    ;

    /// Decides an inline fragment's type condition against the runtime
    /// type.
    fn narrow_matches(&self, condition: &str) -> (b: bool)
        ensures
            b == self.narrow_spec(condition@),
    ;

    /// Produces the value of one requested field, or a resolver-level
    /// failure.
    fn resolve_field(&self, field: &SelectionField, ctx: &ResolveContext<'_>) -> Result<
        Value,
        GqlError,
    >;
}

/// What a field resolver gets to work with: the registry and the query's
/// fragment table and variable bindings.
pub struct ResolveContext<'a> {
    /// The schema catalog.
    pub registry: &'a Registry,
    /// The fragment table, by name.
    pub fragments: &'a Vec<(String, FragmentDefinition)>,
    /// The variable bindings, by name.
    pub variables: &'a Vec<(String, Value)>,
}

/// The per-selection-set context the engine walks: the current items, their
/// position, and the query-wide tables.
pub struct ContextSelectionSet<'a> {
    /// The schema catalog.
    pub registry: &'a Registry,
    /// The fragment table, by name.
    pub fragments: &'a Vec<(String, FragmentDefinition)>,
    /// The variable bindings, by name.
    pub variables: &'a Vec<(String, Value)>,
    /// The selection items at this level.
    pub items: &'a Vec<Selection>,
    /// Where this selection set opens.
    pub pos: Pos,
}

/// One pending field task: the result key, and either a value already known
/// at collection time (`__typename`) or the field left to resolve.
pub struct FieldPlan<'a> {
    /// The key the task's value appears under: the alias if given, else the
    /// field name.
    pub key: String,
    /// The work left to do.
    pub kind: PlanKind<'a>,
}

/// The work a field task holds.
pub enum PlanKind<'a> {
    /// A value known at collection time: the runtime type name.
    Ready(String),
    /// A field to resolve against the root.
    Field(&'a SelectionField),
}

/// The mathematical shape of one pending task.
pub enum PlanView {
    /// A value known at collection time.
    Ready(Seq<char>),
    /// A field left to resolve.
    Deferred(SelectionField),
}

/// The shape of one task.
pub open spec fn plan_view<'a>(p: FieldPlan<'a>) -> (Seq<char>, PlanView) {
    (
        p.key@,
        match p.kind {
            PlanKind::Ready(s) => PlanView::Ready(s@),
            PlanKind::Field(f) => PlanView::Deferred(*f),
        },
    )
}

/// The shapes of a task list, in order.
pub open spec fn plans_view<'a>(ps: Seq<FieldPlan<'a>>) -> Seq<(Seq<char>, PlanView)> {
    ps.map_values(|p: FieldPlan<'a>| plan_view(p))
}

/// How collection can fail, mathematically.
pub enum CollectErr {
    /// A composite-typed selection with zero sub-fields.
    Empty {
        /// The root's runtime type name.
        object: Seq<char>,
        /// The selection set's position.
        pos: Pos,
    },
    /// A spread names no declared fragment.
    Unknown {
        /// The missing fragment name.
        name: Seq<char>,
        /// The spread's position.
        pos: Pos,
    },
    /// A spread re-enters a fragment already being expanded.
    Cycle {
        /// The cycling fragment name.
        name: Seq<char>,
        /// The spread's position.
        pos: Pos,
    },
}

/// Whether an executable error reports a collection failure.
pub open spec fn err_corresponds(e: GqlError, se: CollectErr) -> bool {
    match se {
        CollectErr::Empty { object, pos } => e.pos == pos && (e.err matches
            QueryError::EmptySelection { object: o } && o@ == object),
        CollectErr::Unknown { name, pos } => e.pos == pos && (e.err matches
            QueryError::UnknownFragment { name: n } && n@ == name),
        CollectErr::Cycle { name, pos } => e.pos == pos && (e.err matches
            QueryError::FragmentCycle { name: n } && n@ == name),
    }
}

/// The key a field's value appears under: the alias if given, else the
/// field name.
pub open spec fn result_key(f: SelectionField) -> Seq<char> {
    match f.alias {
        Some(a) => a@,
        None => f.name@,
    }
}

/// The declared fragment names, as a set.
pub open spec fn frag_names(fragments: Seq<(String, FragmentDefinition)>) -> Set<Seq<char>> {
    fragments.map_values(|p: (String, FragmentDefinition)| p.0@).to_set()
}

/// How many declared fragments are not being expanded right now: the
/// termination measure of fragment expansion.
pub open spec fn avail(fragments: Seq<(String, FragmentDefinition)>, visiting: Seq<Seq<char>>) -> nat {
    frag_names(fragments).difference(visiting.to_set()).len()
}

/// Marking one more declared, not-yet-visited fragment as visited shrinks
/// the available count.
pub proof fn lemma_avail_shrinks(
    fragments: Seq<(String, FragmentDefinition)>,
    visiting: Seq<Seq<char>>,
    name: Seq<char>,
)
    requires
        assoc_contains(fragments, name),
        !visiting.to_set().contains(name),
    ensures
        avail(fragments, visiting.push(name)) < avail(fragments, visiting),
{
    broadcast use vstd::seq_lib::seq_to_set_is_finite;
    broadcast use vstd::set::group_set_axioms;

    crate::table::lemma_assoc_get_is_element(fragments, name);
    let i = choose|i: int|
        0 <= i < fragments.len() && (#[trigger] fragments[i]).0@ == name && fragments[i].1
            == assoc_get(fragments, name)->0;
    let mapped = fragments.map_values(|p: (String, FragmentDefinition)| p.0@);
    assert(mapped[i] == name);
    assert(mapped.contains(name));
    assert(frag_names(fragments).contains(name));
    assert forall|x: Seq<char>| visiting.push(name).to_set().contains(x) implies visiting.to_set()
        .insert(name).contains(x) by {
        let idx = choose|idx: int|
            0 <= idx < visiting.push(name).len() && visiting.push(name)[idx] == x;
        if idx < visiting.len() {
            assert(visiting[idx] == x);
        }
    }
    assert forall|x: Seq<char>| visiting.to_set().insert(name).contains(x) implies visiting.push(
        name,
    ).to_set().contains(x) by {
        if visiting.to_set().contains(x) {
            let idx = choose|idx: int| 0 <= idx < visiting.len() && visiting[idx] == x;
            assert(visiting.push(name)[idx] == x);
        } else {
            assert(visiting.push(name)[visiting.len() as int] == name);
        }
    }
    assert(visiting.push(name).to_set() =~= visiting.to_set().insert(name));
    assert(frag_names(fragments).difference(visiting.push(name).to_set()) =~= frag_names(
        fragments,
    ).difference(visiting.to_set()).remove(name));
    assert(frag_names(fragments).difference(visiting.to_set()).contains(name));
    assert(frag_names(fragments).finite());
    assert(frag_names(fragments).difference(visiting.to_set()).finite());
    assert(frag_names(fragments).difference(visiting.to_set()).remove(name).len() == avail(
        fragments,
        visiting,
    ) - 1);
}

/// What collecting one selection set yields: the ordered pending tasks of
/// the fully fragment-expanded selection, or the first failure. An empty
/// selection fails; a skipped item yields no task; `__typename` yields a
/// ready task; a field yields a deferred task under its result key; a
/// spread expands its fragment in place (a second expansion of a fragment
/// still being expanded fails); an inline fragment expands in place when
/// its condition is absent or matched by the root, and yields no task
/// otherwise.
pub open spec fn collect_spec<R: ObjectType>(
    items: Seq<Selection>,
    pos: Pos,
    fragments: Seq<(String, FragmentDefinition)>,
    vars: Seq<(String, Value)>,
    root: &R,
    visiting: Seq<Seq<char>>,
) -> Result<Seq<(Seq<char>, PlanView)>, CollectErr>
    decreases avail(fragments, visiting), items, 2int,
{
    if items.len() == 0 {
        Err(CollectErr::Empty { object: root.type_name_spec(), pos })
    } else {
        collect_items(items, fragments, vars, root, visiting)
    }
}

/// The tasks of the items themselves, head first.
pub open spec fn collect_items<R: ObjectType>(
    items: Seq<Selection>,
    fragments: Seq<(String, FragmentDefinition)>,
    vars: Seq<(String, Value)>,
    root: &R,
    visiting: Seq<Seq<char>>,
) -> Result<Seq<(Seq<char>, PlanView)>, CollectErr>
    decreases avail(fragments, visiting), items, 1int,
    via collect_items_decreases::<R>
{
    if items.len() == 0 {
        Ok(Seq::empty())
    } else {
        match collect_one(items.first(), fragments, vars, root, visiting) {
            Err(e) => Err(e),
            Ok(h) => match collect_items(items.drop_first(), fragments, vars, root, visiting) {
                Err(e) => Err(e),
                Ok(r) => Ok(h + r),
            },
        }
    }
}

/// The tasks of one selection item.
pub open spec fn collect_one<R: ObjectType>(
    item: Selection,
    fragments: Seq<(String, FragmentDefinition)>,
    vars: Seq<(String, Value)>,
    root: &R,
    visiting: Seq<Seq<char>>,
) -> Result<Seq<(Seq<char>, PlanView)>, CollectErr>
    decreases avail(fragments, visiting), item, 0int,
    via collect_one_decreases::<R>
{
    match item {
        Selection::Field(f) => if skip_spec(f.directives@, vars) {
            Ok(Seq::empty())
        } else if f.name@ == "__typename"@ {
            Ok(seq![(result_key(f), PlanView::Ready(root.type_name_spec()))])
        } else {
            Ok(seq![(result_key(f), PlanView::Deferred(f))])
        },
        Selection::FragmentSpread(fs) => if skip_spec(fs.directives@, vars) {
            Ok(Seq::empty())
        } else if visiting.to_set().contains(fs.fragment_name@) {
            Err(CollectErr::Cycle { name: fs.fragment_name@, pos: fs.pos })
        } else {
            match assoc_get(fragments, fs.fragment_name@) {
                Some(frag) => collect_spec(
                    frag.selection_set.items@,
                    frag.selection_set.pos,
                    fragments,
                    vars,
                    root,
                    visiting.push(fs.fragment_name@),
                ),
                None => Err(CollectErr::Unknown { name: fs.fragment_name@, pos: fs.pos }),
            }
        },
        Selection::InlineFragment(inl) => if skip_spec(inl.directives@, vars) {
            Ok(Seq::empty())
        } else {
            match inl.type_condition {
                Some(c) => if root.narrow_spec(c@) {
                    collect_spec(
                        inl.selection_set.items@,
                        inl.selection_set.pos,
                        fragments,
                        vars,
                        root,
                        visiting,
                    )
                } else {
                    Ok(Seq::empty())
                },
                None => collect_spec(
                    inl.selection_set.items@,
                    inl.selection_set.pos,
                    fragments,
                    vars,
                    root,
                    visiting,
                ),
            }
        },
    }
}

#[via_fn]
proof fn collect_items_decreases<R: ObjectType>(
    items: Seq<Selection>,
    fragments: Seq<(String, FragmentDefinition)>,
    vars: Seq<(String, Value)>,
    root: &R,
    visiting: Seq<Seq<char>>,
) {
    if items.len() > 0 {
        assert(items[0] == items.first());
        assert(decreases_to!(items => items[0]));
    }
}

#[via_fn]
proof fn collect_one_decreases<R: ObjectType>(
    item: Selection,
    fragments: Seq<(String, FragmentDefinition)>,
    vars: Seq<(String, Value)>,
    root: &R,
    visiting: Seq<Seq<char>>,
) {
    match item {
        Selection::FragmentSpread(fs) => {
            if !skip_spec(fs.directives@, vars) && !visiting.to_set().contains(fs.fragment_name@)
                && assoc_get(fragments, fs.fragment_name@) is Some {
                lemma_avail_shrinks(fragments, visiting, fs.fragment_name@);
            }
        },
        Selection::InlineFragment(inl) => {
            assert(decreases_to!(item => inl));
            assert(decreases_to!(inl => inl.selection_set));
            assert(decreases_to!(inl.selection_set => inl.selection_set.items));
            assert(decreases_to!(inl.selection_set.items => inl.selection_set.items@));
        },
        _ => {},
    }
}

fn collect_check<'a, R: ObjectType>(
    items: &'a Vec<Selection>,
    pos: Pos,
    fragments: &'a Vec<(String, FragmentDefinition)>,
    variables: &'a Vec<(String, Value)>,
    root: &R,
    visiting: &mut Vec<String>,
    plans: &mut Vec<FieldPlan<'a>>,
) -> (r: Result<(), GqlError>)
    ensures
        final(visiting)@ == old(visiting)@,
        final(plans)@.len() >= old(plans)@.len(),
        final(plans)@.subrange(0, old(plans)@.len() as int) == old(plans)@,
        items@.len() == 0 ==> final(plans)@ == old(plans)@,
        ({
            let spec_r = collect_spec(
                items@,
                pos,
                fragments@,
                variables@,
                root,
                strs_view(old(visiting)@),
            );
            match r {
                Ok(_) => spec_r matches Ok(ps) && plans_view(final(plans)@) == plans_view(
                    old(plans)@,
                ) + ps,
                Err(e) => spec_r matches Err(se) && err_corresponds(e, se),
            }
        }),
    decreases avail(fragments@, strs_view(old(visiting)@)), items@, 1int,
{
    if items.len() == 0 {
        let name = root.introspection_type_name();
        return Err(GqlError { pos, err: QueryError::EmptySelection { object: name } });
    }
    proof {
        assert(items@.skip(0) =~= items@);
    }
    collect_rest(items, 0, fragments, variables, root, visiting, plans)
}

fn collect_rest<'a, R: ObjectType>(
    items: &'a Vec<Selection>,
    idx: usize,
    fragments: &'a Vec<(String, FragmentDefinition)>,
    variables: &'a Vec<(String, Value)>,
    root: &R,
    visiting: &mut Vec<String>,
    plans: &mut Vec<FieldPlan<'a>>,
) -> (r: Result<(), GqlError>)
    requires
        idx <= items@.len(),
    ensures
        final(visiting)@ == old(visiting)@,
        final(plans)@.len() >= old(plans)@.len(),
        final(plans)@.subrange(0, old(plans)@.len() as int) == old(plans)@,
        ({
            let spec_r = collect_items(
                items@.skip(idx as int),
                fragments@,
                variables@,
                root,
                strs_view(old(visiting)@),
            );
            match r {
                Ok(_) => spec_r matches Ok(ps) && plans_view(final(plans)@) == plans_view(
                    old(plans)@,
                ) + ps,
                Err(e) => spec_r matches Err(se) && err_corresponds(e, se),
            }
        }),
    decreases avail(fragments@, strs_view(old(visiting)@)), items@.skip(idx as int), 0int,
{
    let ghost vis0 = strs_view(visiting@);
    let ghost rest_items = items@.skip(idx as int);
    let ghost plans0 = plans@;
    if idx == items.len() {
        proof {
            assert(rest_items =~= Seq::<Selection>::empty());
            assert(plans_view(plans@) =~= plans_view(plans0) + Seq::<(
                Seq<char>,
                PlanView,
            )>::empty());
        }
        return Ok(());
    }
    proof {
        assert(rest_items.first() == items@[idx as int]);
        assert(rest_items.drop_first() =~= items@.skip(idx as int + 1));
    }
    let ghost head_spec = collect_one(items@[idx as int], fragments@, variables@, root, vis0);
    match &items[idx] {
        Selection::Field(f) => {
            if !is_skip(&f.directives, variables) {
                let key = match &f.alias {
                    Some(a) => a.clone(),
                    None => f.name.clone(),
                };
                if str_eq(f.name.as_str(), "__typename") {
                    let tn = root.introspection_type_name();
                    plans.push(FieldPlan { key, kind: PlanKind::Ready(tn) });
                } else {
                    plans.push(FieldPlan { key, kind: PlanKind::Field(f) });
                }
                proof {
                    assert(head_spec matches Ok(h) && plans_view(plans@) =~= plans_view(plans0)
                        + h);
                }
            } else {
                proof {
                    assert(head_spec matches Ok(h) && plans_view(plans@) =~= plans_view(plans0)
                        + h);
                }
            }
        },
        Selection::FragmentSpread(fs) => {
            if !is_skip(&fs.directives, variables) {
                proof {
                    lemma_names_to_set(visiting@, fs.fragment_name@);
                }
                if names_find(visiting, fs.fragment_name.as_str()) {
                    return Err(
                        GqlError {
                            pos: fs.pos,
                            err: QueryError::FragmentCycle { name: fs.fragment_name.clone() },
                        },
                    );
                }
                match assoc_find(fragments, fs.fragment_name.as_str()) {
                    Some(frag) => {
                        proof {
                            lemma_avail_shrinks(fragments@, vis0, fs.fragment_name@);
                        }
                        visiting.push(fs.fragment_name.clone());
                        proof {
                            assert(strs_view(visiting@) =~= vis0.push(fs.fragment_name@));
                        }
                        let res = collect_check(
                            &frag.selection_set.items,
                            frag.selection_set.pos,
                            fragments,
                            variables,
                            root,
                            visiting,
                            plans,
                        );
                        let _popped = visiting.pop();
                        proof {
                            assert(visiting@ =~= old(visiting)@);
                        }
                        match res {
                            Err(e) => {
                                return Err(e);
                            },
                            Ok(_) => {
                                proof {
                                    assert(head_spec matches Ok(h) && plans_view(plans@)
                                        =~= plans_view(plans0) + h);
                                }
                            },
                        }
                    },
                    None => {
                        return Err(
                            GqlError {
                                pos: fs.pos,
                                err: QueryError::UnknownFragment {
                                    name: fs.fragment_name.clone(),
                                },
                            },
                        );
                    },
                }
            } else {
                proof {
                    assert(head_spec matches Ok(h) && plans_view(plans@) =~= plans_view(plans0)
                        + h);
                }
            }
        },
        Selection::InlineFragment(inl) => {
            if !is_skip(&inl.directives, variables) {
                let expand = match &inl.type_condition {
                    Some(c) => root.narrow_matches(c.as_str()),
                    None => true,
                };
                if expand {
                    proof {
                        assert(decreases_to!(rest_items => rest_items[0]));
                        assert(rest_items[0] == items@[idx as int]);
                        assert(decreases_to!(items@[idx as int] => *inl));
                        assert(decreases_to!(*inl => inl.selection_set));
                        assert(decreases_to!(inl.selection_set => inl.selection_set.items));
                        assert(decreases_to!(inl.selection_set.items
                            => inl.selection_set.items@));
                    }
                    let res = collect_check(
                        &inl.selection_set.items,
                        inl.selection_set.pos,
                        fragments,
                        variables,
                        root,
                        visiting,
                        plans,
                    );
                    match res {
                        Err(e) => {
                            return Err(e);
                        },
                        Ok(_) => {
                            proof {
                                assert(head_spec matches Ok(h) && plans_view(plans@)
                                    =~= plans_view(plans0) + h);
                            }
                        },
                    }
                } else {
                    proof {
                        assert(head_spec matches Ok(h) && plans_view(plans@) =~= plans_view(
                            plans0,
                        ) + h);
                    }
                }
            } else {
                proof {
                    assert(head_spec matches Ok(h) && plans_view(plans@) =~= plans_view(plans0)
                        + h);
                }
            }
        },
    }
    proof {
        assert(decreases_to!(rest_items => rest_items.drop_first()));
        assert(rest_items.drop_first() == items@.skip(idx as int + 1));
    }
    let res = collect_rest(items, idx + 1, fragments, variables, root, visiting, plans);
    proof {
        if res is Ok {
            let h = head_spec->Ok_0;
            let rest_spec = collect_items(
                items@.skip(idx as int + 1),
                fragments@,
                variables@,
                root,
                vis0,
            );
            let r2 = rest_spec->Ok_0;
            assert(plans_view(plans@) =~= plans_view(plans0) + (h + r2));
        }
    }
    res
}

/// Relates the list form of the visited-fragments stack to its set form.
pub proof fn lemma_names_to_set(names: Seq<String>, x: Seq<char>)
    ensures
        crate::table::names_contain(names, x) <==> strs_view(names).to_set().contains(x),
{
    if crate::table::names_contain(names, x) {
        let i = choose|i: int| 0 <= i < names.len() && (#[trigger] names[i])@ == x;
        assert(strs_view(names)[i] == x);
        assert(strs_view(names).contains(x));
    }
    if strs_view(names).to_set().contains(x) {
        let i = choose|i: int| 0 <= i < strs_view(names).len() && strs_view(names)[i] == x;
        assert(names[i]@ == x);
    }
}

/// Collects the pending field tasks of a selection set, in the declaration
/// order of the fully fragment-expanded selection, appending them to
/// `plans`; fails with `EmptySelection` on an empty selection, with
/// `UnknownFragment` on a spread naming no declared fragment, and with
/// `FragmentCycle` on a fragment that expands itself.
pub fn collect_fields<'a, R: ObjectType>(
    ctx: &ContextSelectionSet<'a>,
    root: &R,
    plans: &mut Vec<FieldPlan<'a>>,
) -> (r: Result<(), GqlError>)
    ensures
        final(plans)@.len() >= old(plans)@.len(),
        final(plans)@.subrange(0, old(plans)@.len() as int) == old(plans)@,
        ctx.items@.len() == 0 ==> final(plans)@ == old(plans)@,
        ({
            let spec_r = collect_spec(
                ctx.items@,
                ctx.pos,
                ctx.fragments@,
                ctx.variables@,
                root,
                Seq::empty(),
            );
            match r {
                Ok(_) => spec_r matches Ok(ps) && plans_view(final(plans)@) == plans_view(
                    old(plans)@,
                ) + ps,
                Err(e) => spec_r matches Err(se) && err_corresponds(e, se),
            }
        }),
{
    let mut visiting: Vec<String> = Vec::new();
    proof {
        assert(strs_view(visiting@) =~= Seq::<Seq<char>>::empty());
    }
    collect_check(ctx.items, ctx.pos, ctx.fragments, ctx.variables, root, &mut visiting, plans)
}

/// Whether an ordered result object matches a task list: the same length,
/// each key in task order, and every ready task's value is its type-name
/// text.
pub open spec fn resolved_matches(
    ps: Seq<(Seq<char>, PlanView)>,
    out: Seq<(String, Value)>,
) -> bool {
    &&& out.len() == ps.len()
    &&& forall|i: int|
        0 <= i < ps.len() ==> (#[trigger] out[i]).0@ == ps[i].0 && (ps[i].1 matches PlanView::Ready(
            tn,
        ) ==> out[i].1 matches Value::Text(s) && s@ == tn)
}

/// Whether a field of the given name is declared on the static schema type
/// of the given name: the type is in the catalog, carries fields, and one
/// of them is it.
pub open spec fn field_declared(
    types: Seq<(String, crate::registry::Type)>,
    object: Seq<char>,
    fname: Seq<char>,
) -> bool {
    match assoc_get(types, object) {
        Some(t) => match t.spec_fields() {
            Some(fs) => assoc_contains(fs, fname),
            None => false,
        },
        None => false,
    }
}

/// Resolves a selection set against a root: collects the pending tasks,
/// resolves each in declaration order, and yields the ordered result
/// object. The object's key order equals the declaration order of the fully
/// fragment-expanded selection; a `__typename` task is answered from the
/// root's type name without touching its field-resolution capability. Each
/// deferred field is first looked up on the root's static schema type and
/// fails with `FieldNotFound` if undeclared, so an error can arise only
/// from collection, from that lookup, or from a declared field's resolver.
#[verifier::loop_isolation(false)]
pub fn do_resolve<R: ObjectType>(ctx: &ContextSelectionSet<'_>, root: &R) -> (r: Result<
    Value,
    GqlError,
>)
    ensures
        ({
            let spec_r = collect_spec(
                ctx.items@,
                ctx.pos,
                ctx.fragments@,
                ctx.variables@,
                root,
                Seq::empty(),
            );
            match r {
                Ok(v) => spec_r matches Ok(ps) && (v matches Value::Object(out)
                    && resolved_matches(ps, out@)) && (forall|i: int|
                    0 <= i < ps.len() ==> ((#[trigger] ps[i]).1 matches PlanView::Deferred(df)
                        ==> field_declared(
                        ctx.registry.types@,
                        root.type_name_spec(),
                        df.name@,
                    ))),
                Err(e) => (spec_r matches Err(se) && err_corresponds(e, se)) || (
                spec_r matches Ok(ps) && exists|i: int|
                    0 <= i < ps.len() && ((#[trigger] ps[i]).1 matches PlanView::Deferred(df) && (
                    field_declared(ctx.registry.types@, root.type_name_spec(), df.name@) || (e.pos
                        == df.pos && (e.err matches QueryError::FieldNotFound {
                        field_name,
                        object,
                    } && field_name@ == df.name@ && object@ == root.type_name_spec()))))),
            }
        }),
{
    let ghost spec_r = collect_spec(
        ctx.items@,
        ctx.pos,
        ctx.fragments@,
        ctx.variables@,
        root,
        Seq::<Seq<char>>::empty(),
    );
    let mut plans: Vec<FieldPlan<'_>> = Vec::new();
    proof {
        assert(plans_view(plans@) =~= Seq::<(Seq<char>, PlanView)>::empty());
    }
    match collect_fields(ctx, root, &mut plans) {
        Err(e) => {
            return Err(e);
        },
        Ok(_) => {},
    }
    proof {
        assert(plans_view(plans@) =~= spec_r->Ok_0);
    }
    let ghost ps = spec_r->Ok_0;
    let rctx = ResolveContext {
        registry: ctx.registry,
        fragments: ctx.fragments,
        variables: ctx.variables,
    };
    let n = plans.len();
    let mut out: Vec<(String, Value)> = Vec::new();
    let mut i: usize = 0;
    while i < n
        invariant
            n == plans@.len(),
            i <= n,
            plans_view(plans@) == ps,
            out@.len() == i,
            forall|j: int|
                0 <= j < i ==> (#[trigger] out@[j]).0@ == ps[j].0 && (ps[j].1 matches
                    PlanView::Ready(tn) ==> out@[j].1 matches Value::Text(s) && s@ == tn),
            forall|j: int|
                0 <= j < i ==> ((#[trigger] ps[j]).1 matches PlanView::Deferred(df)
                    ==> field_declared(ctx.registry.types@, root.type_name_spec(), df.name@)),
            rctx.registry == ctx.registry,
            rctx.fragments == ctx.fragments,
            rctx.variables == ctx.variables,
        decreases n - i,
    {
        proof {
            assert(plans_view(plans@)[i as int] == plan_view(plans@[i as int]));
        }
        let key = plans[i].key.clone();
        match &plans[i].kind {
            PlanKind::Ready(s) => {
                out.push((key, Value::Text(s.clone())));
            },
            PlanKind::Field(f) => {
                let tn = root.introspection_type_name();
                let declared = match assoc_find(&ctx.registry.types, tn.as_str()) {
                    Some(t) => match t.field_by_name(f.name.as_str()) {
                        Some(_) => true,
                        None => false,
                    },
                    None => false,
                };
                if !declared {
                    proof {
                        assert(!field_declared(
                            ctx.registry.types@,
                            root.type_name_spec(),
                            f.name@,
                        ));
                        assert((#[trigger] ps[i as int]).1 matches PlanView::Deferred(df) && df
                            == **f);
                    }
                    return Err(
                        GqlError {
                            pos: f.pos,
                            err: QueryError::FieldNotFound {
                                field_name: f.name.clone(),
                                object: tn,
                            },
                        },
                    );
                }
                match root.resolve_field(f, &rctx) {
                    Ok(v) => {
                        out.push((key, v));
                    },
                    Err(e) => {
                        proof {
                            assert((#[trigger] ps[i as int]).1 matches PlanView::Deferred(df)
                                && field_declared(
                                ctx.registry.types@,
                                root.type_name_spec(),
                                df.name@,
                            ));
                        }
                        return Err(e);
                    },
                }
            },
        }
        i = i + 1;
    }
    proof {
        assert(out@.len() == ps.len());
        assert(resolved_matches(ps, out@));
    }
    Ok(Value::Object(out))
}

/// Whether some completion carries task index `s`.
pub open spec fn covers(c: Seq<(usize, Result<Value, GqlError>)>, s: int) -> bool {
    exists|i: int| 0 <= i < c.len() && (#[trigger] c[i]).0 == s
}

/// Joins concurrently completed field tasks back into declaration order,
/// fail-fast: `completions` lists each task's index and outcome in the
/// order the tasks finished; the first failure in completion order is the
/// result, whatever stands after it, and when every task succeeded the
/// values come back arranged by task index.
#[verifier::loop_isolation(false)]
pub fn join_completions(n: usize, completions: Vec<(usize, Result<Value, GqlError>)>) -> (r:
    Result<Vec<Value>, GqlError>)
    requires
        completions@.len() == n,
        forall|i: int| 0 <= i < completions@.len() ==> (#[trigger] completions@[i]).0 < n,
        forall|i: int, j: int|
            0 <= i < j < completions@.len() ==> (#[trigger] completions@[i]).0 != (
            #[trigger] completions@[j]).0,
        forall|s: int| 0 <= s < n ==> #[trigger] covers(completions@, s),
    ensures
        forall|k: int|
            (0 <= k < completions@.len() && (#[trigger] completions@[k]).1 is Err && (forall|l: int|
                0 <= l < k ==> (#[trigger] completions@[l]).1 is Ok)) ==> (r matches Err(e) && e
                == completions@[k].1->Err_0),
        (forall|i: int| 0 <= i < completions@.len() ==> (#[trigger] completions@[i]).1 is Ok) ==> (
        r matches Ok(vals) && vals@.len() == n && forall|i: int|
            0 <= i < completions@.len() ==> vals@[(#[trigger] completions@[i]).0 as int]
                == completions@[i].1->Ok_0),
        r is Err ==> exists|k: int|
            0 <= k < completions@.len() && (#[trigger] completions@[k]).1 is Err,
{
    let ghost c0 = completions@;
    let mut completions = completions;
    let mut slots: Vec<Option<Value>> = Vec::new();
    let mut f: usize = 0;
    while f < n
        invariant
            f <= n,
            slots@.len() == f,
            forall|s: int| 0 <= s < f ==> (#[trigger] slots@[s]) is None,
        decreases n - f,
    {
        slots.push(None);
        f = f + 1;
    }
    proof {
        assert(completions@ =~= c0.skip(0));
    }
    let mut k: usize = 0;
    while k < n
        invariant
            k <= n,
            n == c0.len(),
            completions@ == c0.skip(k as int),
            slots@.len() == n,
            forall|i: int| 0 <= i < k ==> (#[trigger] c0[i]).1 is Ok,
            forall|i: int| 0 <= i < c0.len() ==> (#[trigger] c0[i]).0 < n,
            forall|i: int, j: int|
                0 <= i < j < c0.len() ==> (#[trigger] c0[i]).0 != (#[trigger] c0[j]).0,
            forall|s: int|
                0 <= s < n ==> match #[trigger] slots@[s] {
                    Some(v) => exists|i: int|
                        0 <= i < k && (#[trigger] c0[i]).0 == s && (c0[i].1 matches Ok(vv) && vv
                            == v),
                    None => forall|i: int| 0 <= i < k ==> (#[trigger] c0[i]).0 != s,
                },
        decreases n - k,
    {
        proof {
            assert(completions@.first() == c0[k as int]);
            assert(completions@.drop_first() =~= c0.skip(k as int + 1));
        }
        let (slot, res) = completions.remove(0);
        match res {
            Ok(v) => {
                let ghost slots0 = slots@;
                let mut entry = slots.remove(slot);
                entry = Some(v);
                slots.insert(slot, entry);
                proof {
                    assert(slots@ =~= slots0.update(slot as int, slots@[slot as int]));
                }
            },
            Err(e) => {
                proof {
                    assert forall|kk: int|
                        (0 <= kk < c0.len() && (#[trigger] c0[kk]).1 is Err && (forall|l: int|
                            0 <= l < kk ==> (#[trigger] c0[l]).1 is Ok)) implies kk == k as int by {
                        if kk < k as int {
                            assert(c0[kk].1 is Ok);
                        } else if kk > k as int {
                            assert(c0[k as int].1 is Ok);
                        }
                    }
                }
                return Err(e);
            },
        }
        k = k + 1;
    }
    let ghost full = slots@;
    proof {
        assert forall|t: int| 0 <= t < n implies (#[trigger] full[t]) is Some by {
            assert(covers(c0, t));
            let i = choose|i: int| 0 <= i < c0.len() && (#[trigger] c0[i]).0 == t;
            if full[t] is None {
                assert(c0[i].0 != t);
            }
        }
        assert(slots@ =~= full.skip(0));
    }
    let mut vals: Vec<Value> = Vec::new();
    let mut s: usize = 0;
    while s < n
        invariant
            s <= n,
            n == full.len(),
            slots@ =~= full.skip(s as int),
            vals@.len() == s,
            forall|t: int| 0 <= t < full.len() ==> (#[trigger] full[t]) is Some,
            forall|t: int| 0 <= t < s ==> #[trigger] vals@[t] == full[t]->0,
        decreases n - s,
    {
        proof {
            assert(slots@.first() == full[s as int]);
            assert(slots@.drop_first() =~= full.skip(s as int + 1));
        }
        match slots.remove(0) {
            Some(v) => {
                vals.push(v);
            },
            None => {
                proof {
                    assert(false);
                }
                return Err(GqlError { pos: Pos { line: 0, column: 0 }, err: QueryError::FieldError { err: String::new() } });
            },
        }
        s = s + 1;
    }
    proof {
        assert forall|i: int|
            0 <= i < c0.len() implies vals@[(#[trigger] c0[i]).0 as int] == c0[i].1->Ok_0 by {
            let t = c0[i].0 as int;
            assert(full[t] is Some);
            let j = choose|j: int|
                0 <= j < c0.len() && (#[trigger] c0[j]).0 == t && (c0[j].1 matches Ok(vv) && vv
                    == full[t]->0);
            assert(j == i);
            assert(vals@[t] == full[t]->0);
        }
    }
    Ok(vals)
}

/// Spreading a declared fragment yields exactly the tasks of its own
/// selection set, collected in place (with the fragment marked as being
/// expanded): fragment flattening preserves order.
pub proof fn lemma_fragment_spread_flattens<R: ObjectType>(
    fs: crate::ast::FragmentSpread,
    fragments: Seq<(String, FragmentDefinition)>,
    vars: Seq<(String, Value)>,
    root: &R,
    visiting: Seq<Seq<char>>,
)
    requires
        !skip_spec(fs.directives@, vars),
        !visiting.to_set().contains(fs.fragment_name@),
        assoc_get(fragments, fs.fragment_name@) is Some,
    ensures
        ({
            let frag = assoc_get(fragments, fs.fragment_name@)->0;
            collect_one(Selection::FragmentSpread(fs), fragments, vars, root, visiting)
                == collect_spec(
                frag.selection_set.items@,
                frag.selection_set.pos,
                fragments,
                vars,
                root,
                visiting.push(fs.fragment_name@),
            )
        }),
{
    let item = Selection::FragmentSpread(fs);
    let frag = assoc_get(fragments, fs.fragment_name@)->0;
    assert(assoc_get(fragments, fs.fragment_name@) == Some(frag));
    assert(collect_one(item, fragments, vars, root, visiting) == collect_spec(
        frag.selection_set.items@,
        frag.selection_set.pos,
        fragments,
        vars,
        root,
        visiting.push(fs.fragment_name@),
    ));
}

/// A selection made of plain fields collects the same tasks whatever
/// fragments are marked as being expanded: its tasks depend only on the
/// fields themselves.
pub proof fn lemma_field_items_ignore_visiting<R: ObjectType>(
    items: Seq<Selection>,
    fragments: Seq<(String, FragmentDefinition)>,
    vars: Seq<(String, Value)>,
    root: &R,
    v1: Seq<Seq<char>>,
    v2: Seq<Seq<char>>,
)
    requires
        forall|i: int| 0 <= i < items.len() ==> (#[trigger] items[i]) is Field,
    ensures
        collect_items(items, fragments, vars, root, v1) == collect_items(
            items,
            fragments,
            vars,
            root,
            v2,
        ),
    decreases items.len(),
{
    if items.len() > 0 {
        assert(items[0] is Field);
        match items.first() {
            Selection::Field(f) => {
                assert(collect_one(items.first(), fragments, vars, root, v1) == collect_one(
                    items.first(),
                    fragments,
                    vars,
                    root,
                    v2,
                ));
            },
            _ => {
                assert(false);
            },
        }
        assert forall|i: int|
            0 <= i < items.drop_first().len() implies (#[trigger] items.drop_first()[i]) is Field by {
            assert(items.drop_first()[i] == items[i + 1]);
        }
        lemma_field_items_ignore_visiting(items.drop_first(), fragments, vars, root, v1, v2);
    }
}

/// A selection made of plain fields collects the same tasks whether those
/// fields stand inline or inside a spread fragment's body.
pub proof fn lemma_field_selection_ignores_visiting<R: ObjectType>(
    items: Seq<Selection>,
    pos: Pos,
    fragments: Seq<(String, FragmentDefinition)>,
    vars: Seq<(String, Value)>,
    root: &R,
    v1: Seq<Seq<char>>,
    v2: Seq<Seq<char>>,
)
    requires
        items.len() > 0,
        forall|i: int| 0 <= i < items.len() ==> (#[trigger] items[i]) is Field,
    ensures
        collect_spec(items, pos, fragments, vars, root, v1) == collect_spec(
            items,
            pos,
            fragments,
            vars,
            root,
            v2,
        ),
{
    lemma_field_items_ignore_visiting(items, fragments, vars, root, v1, v2);
}

/// The fail-fast join never looks past the first failure: whenever two
/// completion lists agree up to and at the first failing entry, any results
/// meeting the join's first-error guarantee are one and the same error,
/// whatever was completed after it.
pub proof fn lemma_join_fail_fast(
    c1: Seq<(usize, Result<Value, GqlError>)>,
    c2: Seq<(usize, Result<Value, GqlError>)>,
    k: int,
    r1: Result<Vec<Value>, GqlError>,
    r2: Result<Vec<Value>, GqlError>,
)
    requires
        0 <= k < c1.len(),
        k < c2.len(),
        forall|l: int| 0 <= l <= k ==> c1[l] == c2[l],
        c1[k].1 is Err,
        forall|l: int| 0 <= l < k ==> (#[trigger] c1[l]).1 is Ok,
        forall|kk: int|
            (0 <= kk < c1.len() && (#[trigger] c1[kk]).1 is Err && (forall|l: int|
                0 <= l < kk ==> (#[trigger] c1[l]).1 is Ok)) ==> (r1 matches Err(e) && e
                == c1[kk].1->Err_0),
        forall|kk: int|
            (0 <= kk < c2.len() && (#[trigger] c2[kk]).1 is Err && (forall|l: int|
                0 <= l < kk ==> (#[trigger] c2[l]).1 is Ok)) ==> (r2 matches Err(e) && e
                == c2[kk].1->Err_0),
    ensures
        r1 == r2,
        r1 matches Err(e) && e == c1[k].1->Err_0,
{
    assert(c2[k] == c1[k]);
    assert forall|l: int| 0 <= l < k implies (#[trigger] c2[l]).1 is Ok by {
        assert(c2[l] == c1[l]);
    }
}

/// The joined output is independent of completion order: two completion
/// arrangements of the same task outcomes, each fully successful, yield the
/// same value list, arranged by task index.
pub proof fn lemma_join_order_independent(
    n: usize,
    c1: Seq<(usize, Result<Value, GqlError>)>,
    c2: Seq<(usize, Result<Value, GqlError>)>,
    vals1: Seq<Value>,
    vals2: Seq<Value>,
)
    requires
        c1.len() == n && c2.len() == n,
        forall|s: int| 0 <= s < n ==> #[trigger] covers(c1, s),
        forall|s: int| 0 <= s < n ==> #[trigger] covers(c2, s),
        forall|i: int| 0 <= i < c1.len() ==> (#[trigger] c1[i]).1 is Ok,
        forall|i: int| 0 <= i < c2.len() ==> (#[trigger] c2[i]).1 is Ok,
        forall|i: int, j: int|
            0 <= i < c1.len() && 0 <= j < c2.len() && (#[trigger] c1[i]).0 == (#[trigger] c2[j]).0
                ==> c1[i].1 == c2[j].1,
        vals1.len() == n && forall|i: int|
            0 <= i < c1.len() ==> vals1[(#[trigger] c1[i]).0 as int] == c1[i].1->Ok_0,
        vals2.len() == n && forall|i: int|
            0 <= i < c2.len() ==> vals2[(#[trigger] c2[i]).0 as int] == c2[i].1->Ok_0,
    ensures
        vals1 == vals2,
{
    assert forall|s: int| 0 <= s < n implies vals1[s] == vals2[s] by {
        assert(covers(c1, s));
        assert(covers(c2, s));
        let i = choose|i: int| 0 <= i < c1.len() && (#[trigger] c1[i]).0 == s;
        let j = choose|j: int| 0 <= j < c2.len() && (#[trigger] c2[j]).0 == s;
        assert(c1[i].1 == c2[j].1);
    }
    assert(vals1 =~= vals2);
}

} // verus!
