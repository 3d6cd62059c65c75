//! The value validator: checks a literal or variable value against a
//! declared input type, using the registry for named-type rules. A failure
//! is reported as a human-readable message carrying the query path trail.

use vstd::prelude::*;
use crate::registry::{scalar_valid, InputValue, Registry, Type};
use crate::strutil::{dec_of, str_eq, u64_to_dec};
use crate::table::{assoc_contains, assoc_get, assoc_index};
use crate::typeref::{concrete_of, legal_ref, lemma_legal_parse, parse_ref, RefShape, TypeName};
use crate::value::{
    height, lemma_list_height, lemma_obj_height, list_height, obj_height, value_view, Value,
};

verus! {

/// Where a validation rule is looked at: inside one operation or inside one
/// fragment.
#[derive(Debug, Clone, Copy, PartialEq, Eq, Hash)]
pub enum Scope<'a> {
    /// An operation, named or anonymous.
    Operation(Option<&'a str>),
    /// A named fragment.
    Fragment(&'a str),
}

/// One segment of the query path trail.
#[derive(Debug, Clone, Copy)]
pub enum QueryPathSegment<'a> {
    /// An index into a list value.
    Index(usize),
    /// A field name.
    Name(&'a str),
}

/// The backward-linked path trail: each node points at its parent and is
/// only extended by prepending, never mutated.
#[derive(Debug, Clone, Copy)]
pub struct QueryPathNode<'a> {
    /// The position this node descends from, if any.
    pub parent: Option<&'a QueryPathNode<'a>>,
    /// The segment this node adds.
    pub segment: QueryPathSegment<'a>,
}

/// The text of one path segment: the name, or the index in decimal.
pub open spec fn segment_text(s: QueryPathSegment) -> Seq<char> {
    match s {
        QueryPathSegment::Index(i) => dec_of(i as nat),
        QueryPathSegment::Name(n) => n@,
    }
}

/// The text of a whole path trail: segments from the root down, joined by
/// dots.
pub open spec fn path_text(p: QueryPathNode) -> Seq<char>
    decreases p,
{
    match p.parent {
        Some(par) => path_text(*par) + "."@ + segment_text(p.segment),
        None => segment_text(p.segment),
    }
}

/// Writes the path trail onto `out`.
pub fn write_path(p: &QueryPathNode, out: &mut String)
    ensures
        final(out)@ == old(out)@ + path_text(*p),
    decreases *p,
{
    let ghost base = out@;
    match p.parent {
        Some(par) => {
            write_path(par, out);
            out.append(".");
        },
        None => {},
    }
    match p.segment {
        QueryPathSegment::Name(n) => {
            out.append(n);
        },
        QueryPathSegment::Index(i) => {
            let s = u64_to_dec(i as u64);
            out.append(s.as_str());
        },
    }
    proof {
        assert(out@ =~= base + path_text(*p));
    }
}

/// The frame of a validation message: the quoted path trail, then the
/// reason.
pub open spec fn valid_error_text(path: Seq<char>, msg: Seq<char>) -> Seq<char> {
    "\""@ + path + "\", "@ + msg
}

/// Frames a validation message with the quoted path trail.
pub fn valid_error(path_node: &QueryPathNode, msg: String) -> (r: String)
    ensures
        r@ == valid_error_text(path_text(*path_node), msg@),
{
    let mut out = String::new();
    out.append("\"");
    write_path(path_node, &mut out);
    out.append("\", ");
    out.append(msg.as_str());
    proof {
        assert(out@ =~= valid_error_text(path_text(*path_node), msg@));
    }
    out
}

/// The message reporting a value of the wrong shape for a type.
pub open spec fn expected_type_text(path: Seq<char>, name: Seq<char>) -> Seq<char> {
    valid_error_text(path, "expected type \""@ + name + "\""@)
}

/// A framed message starts with the quoted path it was framed at.
pub proof fn lemma_frame_prefix(path: Seq<char>, msg: Seq<char>)
    ensures
        valid_error_text(path, msg).len() > path.len(),
        valid_error_text(path, msg).subrange(0, (path.len() + 1) as int) == "\""@ + path,
{
    reveal_strlit("\"");
    reveal_strlit("\", ");
    assert(valid_error_text(path, msg).subrange(0, (path.len() + 1) as int) =~= "\""@ + path);
}

/// A message that starts with a quoted descendant path also starts with the
/// quoted ancestor path.
pub proof fn lemma_child_frame_prefix(p: Seq<char>, cp: Seq<char>, tail: Seq<char>, m: Seq<char>)
    requires
        cp == p + tail,
        m.len() > cp.len(),
        m.subrange(0, (cp.len() + 1) as int) == "\""@ + cp,
    ensures
        m.len() > p.len(),
        m.subrange(0, (p.len() + 1) as int) == "\""@ + p,
{
    reveal_strlit("\"");
    assert forall|i: int| 0 <= i < p.len() + 1 implies m.subrange(0, (p.len() + 1) as int)[i] == (
    "\""@ + p)[i] by {
        assert(m.subrange(0, (cp.len() + 1) as int)[i] == ("\""@ + cp)[i]);
        if i > 0 {
            assert(cp[i - 1] == p[i - 1]);
        }
    }
    assert(m.subrange(0, (p.len() + 1) as int) =~= "\""@ + p);
}

/// Builds the wrong-shape failure message, framed at the given path.
fn expected_type_error(path_node: &QueryPathNode, name: &str) -> (r: String)
    ensures
        r@ == expected_type_text(path_text(*path_node), name@),
        r@.len() > path_text(*path_node).len(),
        r@.subrange(0, (path_text(*path_node).len() + 1) as int) == "\""@ + path_text(*path_node),
{
    let mut msg = String::new();
    msg.append("expected type \"");
    msg.append(name);
    msg.append("\"");
    let ghost msgv = msg@;
    let m = valid_error(path_node, msg);
    proof {
        assert(msgv =~= "expected type \""@ + name@ + "\""@);
        lemma_frame_prefix(path_text(*path_node), msgv);
        assert(m@ == expected_type_text(path_text(*path_node), name@));
    }
    m
}

/// The variable names a value refers to, in traversal order.
pub open spec fn ref_vars(v: Value) -> Seq<Seq<char>>
    decreases v,
{
    match v {
        Value::Variable(name) => seq![name@],
        Value::List(vs) => ref_vars_list(vs@),
        Value::Object(fs) => ref_vars_fields(fs@),
        _ => Seq::empty(),
    }
}

/// The variable names a list of values refers to, in order.
pub open spec fn ref_vars_list(vs: Seq<Value>) -> Seq<Seq<char>>
    decreases vs,
{
    if vs.len() == 0 {
        Seq::empty()
    } else {
        ref_vars(vs.first()) + ref_vars_list(vs.drop_first())
    }
}

/// The variable names an object's field values refer to, in order.
pub open spec fn ref_vars_fields(fs: Seq<(String, Value)>) -> Seq<Seq<char>>
    decreases fs,
{
    if fs.len() == 0 {
        Seq::empty()
    } else {
        ref_vars(fs.first().1) + ref_vars_fields(fs.drop_first())
    }
}

/// Appending one value appends its variable names.
pub proof fn lemma_ref_vars_list_snoc(vs: Seq<Value>, x: Value)
    ensures
        ref_vars_list(vs.push(x)) == ref_vars_list(vs) + ref_vars(x),
    decreases vs,
{
    reveal_with_fuel(ref_vars_list, 3);
    if vs.len() == 0 {
        assert(vs.push(x).first() == x);
        assert(vs.push(x).drop_first() =~= Seq::<Value>::empty());
        assert(ref_vars_list(vs.push(x)) =~= ref_vars_list(vs) + ref_vars(x));
    } else {
        assert(vs.push(x).first() == vs.first());
        assert(vs.push(x).drop_first() =~= vs.drop_first().push(x));
        lemma_ref_vars_list_snoc(vs.drop_first(), x);
        assert(ref_vars_list(vs.push(x)) =~= ref_vars_list(vs) + ref_vars(x));
    }
}

/// Appending one field appends its value's variable names.
pub proof fn lemma_ref_vars_fields_snoc(fs: Seq<(String, Value)>, x: (String, Value))
    ensures
        ref_vars_fields(fs.push(x)) == ref_vars_fields(fs) + ref_vars(x.1),
    decreases fs,
{
    reveal_with_fuel(ref_vars_fields, 3);
    if fs.len() == 0 {
        assert(fs.push(x).first() == x);
        assert(fs.push(x).drop_first() =~= Seq::<(String, Value)>::empty());
        assert(ref_vars_fields(fs.push(x)) =~= ref_vars_fields(fs) + ref_vars(x.1));
    } else {
        assert(fs.push(x).first() == fs.first());
        assert(fs.push(x).drop_first() =~= fs.drop_first().push(x));
        lemma_ref_vars_fields_snoc(fs.drop_first(), x);
        assert(ref_vars_fields(fs.push(x)) =~= ref_vars_fields(fs) + ref_vars(x.1));
    }
}

/// The views of a list of borrowed names.
pub open spec fn refs_view(v: Seq<&str>) -> Seq<Seq<char>> {
    v.map_values(|s: &str| s@)
}

/// Collects the variable names a value refers to, in traversal order.
pub fn referenced_variables<'a>(value: &'a Value) -> (r: Vec<&'a str>)
    ensures
        refs_view(r@) == ref_vars(*value),
{
    let mut vars: Vec<&str> = Vec::new();
    proof {
        assert(refs_view(vars@) =~= Seq::<Seq<char>>::empty());
    }
    referenced_variables_to_vec(value, &mut vars);
    vars
}

/// Appends the variable names a value refers to onto `vars`.
#[verifier::loop_isolation(false)]
pub fn referenced_variables_to_vec<'a>(value: &'a Value, vars: &mut Vec<&'a str>)
    ensures
        refs_view(final(vars)@) == refs_view(old(vars)@) + ref_vars(*value),
    decreases *value,
{
    let ghost base = vars@;
    match value {
        Value::Variable(name) => {
            vars.push(name.as_str());
            proof {
                assert(refs_view(vars@) =~= refs_view(base) + ref_vars(*value));
            }
        },
        Value::List(vs) => {
            let n = vs.len();
            let mut i: usize = 0;
            while i < n
                invariant
                    n == vs@.len(),
                    i <= n,
                    refs_view(vars@) == refs_view(base) + ref_vars_list(vs@.subrange(0, i as int)),
                decreases n - i,
            {
                proof {
                    assert(decreases_to!(*value => *vs));
                    assert(decreases_to!(*vs => vs@));
                    assert(decreases_to!(vs@ => vs@[i as int]));
                }
                referenced_variables_to_vec(&vs[i], vars);
                proof {
                    assert(vs@.subrange(0, i + 1 as int) =~= vs@.subrange(0, i as int).push(
                        vs@[i as int],
                    ));
                    lemma_ref_vars_list_snoc(vs@.subrange(0, i as int), vs@[i as int]);
                    assert(refs_view(vars@) =~= refs_view(base) + ref_vars_list(
                        vs@.subrange(0, i + 1 as int),
                    ));
                }
                i = i + 1;
            }
            proof {
                assert(vs@.subrange(0, n as int) =~= vs@);
            }
        },
        Value::Object(fs) => {
            let n = fs.len();
            let mut i: usize = 0;
            while i < n
                invariant
                    n == fs@.len(),
                    i <= n,
                    refs_view(vars@) == refs_view(base) + ref_vars_fields(
                        fs@.subrange(0, i as int),
                    ),
                decreases n - i,
            {
                proof {
                    assert(decreases_to!(*value => *fs));
                    assert(decreases_to!(*fs => fs@));
                    assert(decreases_to!(fs@ => fs@[i as int]));
                    assert(decreases_to!(fs@[i as int] => fs@[i as int].1));
                }
                referenced_variables_to_vec(&fs[i].1, vars);
                proof {
                    assert(fs@.subrange(0, i + 1 as int) =~= fs@.subrange(0, i as int).push(
                        fs@[i as int],
                    ));
                    lemma_ref_vars_fields_snoc(fs@.subrange(0, i as int), fs@[i as int]);
                    assert(refs_view(vars@) =~= refs_view(base) + ref_vars_fields(
                        fs@.subrange(0, i + 1 as int),
                    ));
                }
                i = i + 1;
            }
            proof {
                assert(fs@.subrange(0, n as int) =~= fs@);
            }
        },
        _ => {
            proof {
                assert(refs_view(vars@) =~= refs_view(base) + ref_vars(*value));
            }
        },
    }
}

/// Whether some declared input field carries the given name.
pub open spec fn declared_name(decl: Seq<(String, InputValue)>, n: Seq<char>) -> bool {
    exists|j: int| 0 <= j < decl.len() && (#[trigger] decl[j]).1.name@ == n
}

/// Whether a value is valid at a declared input type. A bound variable is
/// always valid at this layer; non-null forbids null; a list validates every
/// element, and coerces a single value to a one-element list; a named type
/// dispatches on the concrete type: scalars use their validity predicate,
/// enumerations require a declared literal, input objects require known
/// field names and, for every declared field, a valid present value (its
/// attached check passing) or a nullable-or-defaulted absence.
pub open spec fn input_valid(types: Seq<(String, Type)>, reference: Seq<char>, v: Value) -> bool
    decreases height(v), reference.len(),
    via input_valid_decreases
{
    if v is Variable {
        true
    } else {
        match parse_ref(reference) {
            RefShape::NonNull(inner) => if v is Null {
                false
            } else {
                input_valid(types, inner, v)
            },
            RefShape::List(inner) => match v {
                Value::List(elems) => forall|i: int|
                    0 <= i < elems@.len() ==> input_valid(types, inner, #[trigger] elems@[i]),
                _ => input_valid(types, inner, v),
            },
            RefShape::Named(name) => if v is Null {
                true
            } else {
                match assoc_get(types, name) {
                    Some(t) => match t {
                        Type::Scalar { kind, .. } => scalar_valid(kind, value_view(v)),
                        Type::Enum { enum_values, .. } => match v {
                            Value::EnumLit(n) => assoc_contains(enum_values@, n@),
                            _ => false,
                        },
                        Type::InputObject { input_fields, .. } => match v {
                            Value::Object(fs) => {
                                &&& (forall|j: int|
                                    0 <= j < input_fields@.len() ==> {
                                        let iv = (#[trigger] input_fields@[j]).1;
                                        match assoc_get(fs@, iv.name@) {
                                            Some(val) => (match iv.validator {
                                                Some(c) => crate::registry::value_check_ok(
                                                    c,
                                                    value_view(val),
                                                ),
                                                None => true,
                                            }) && input_valid(types, iv.ty@, val),
                                            None => !(parse_ref(iv.ty@) is NonNull)
                                                || iv.default_value is Some,
                                        }
                                    })
                                &&& (forall|i: int|
                                    0 <= i < fs@.len() ==> declared_name(
                                        input_fields@,
                                        (#[trigger] fs@[i]).0@,
                                    ))
                            },
                            _ => false,
                        },
                        _ => true,
                    },
                    None => true,
                }
            },
        }
    }
}

#[via_fn]
proof fn input_valid_decreases(types: Seq<(String, Type)>, reference: Seq<char>, v: Value) {
    match v {
        Value::List(elems) => {
            lemma_list_height(elems@);
        },
        Value::Object(fs) => {
            lemma_obj_height(fs@);
            assert forall|k: Seq<char>|
                match #[trigger] assoc_get(fs@, k) {
                    Some(val) => height(val) <= obj_height(fs@),
                    None => true,
                } by {
                crate::table::lemma_assoc_get_is_element(fs@, k);
                if assoc_get(fs@, k) is Some {
                    let i = choose|i: int|
                        0 <= i < fs@.len() && (#[trigger] fs@[i]).0@ == k && fs@[i].1 == assoc_get(
                            fs@,
                            k,
                        )->0;
                    assert(height(fs@[i].1) <= obj_height(fs@));
                }
            }
        },
        _ => {},
    }
}

/// What the validity of one declared input field requires of a given object:
/// a present value passes the attached check and validates at the declared
/// type; an absent one must be nullable or have a default.
pub open spec fn declared_field_ok(
    types: Seq<(String, Type)>,
    iv: InputValue,
    fs: Seq<(String, Value)>,
) -> bool {
    match assoc_get(fs, iv.name@) {
        Some(val) => (match iv.validator {
            Some(c) => crate::registry::value_check_ok(c, value_view(val)),
            None => true,
        }) && input_valid(types, iv.ty@, val),
        None => !(parse_ref(iv.ty@) is NonNull) || iv.default_value is Some,
    }
}

/// Validates a value against a declared type reference. The result is
/// `None` exactly when `input_valid` holds; a failure carries a
/// path-qualified, human-readable message describing the first problem
/// found.
#[verifier::loop_isolation(false)]
#[verifier::rlimit(50)]
pub fn is_valid_input_value(
    registry: &Registry,
    reference: &str,
    value: &Value,
    path_node: QueryPathNode,
) -> (r: Option<String>)
    requires
        registry.wf(),
        legal_ref(reference@),
        assoc_contains(registry.types@, concrete_of(reference@)),
    ensures
        r is None <==> input_valid(registry.types@, reference@, *value),
        r matches Some(m) ==> m@.len() > path_text(path_node).len() && m@.subrange(
            0,
            (path_text(path_node).len() + 1) as int,
        ) == "\""@ + path_text(path_node),
        (!(*value is Variable) && *value is Null && parse_ref(reference@) is NonNull) ==> (
        r matches Some(m) && m@ == expected_type_text(
            path_text(path_node),
            parse_ref(reference@).payload(),
        )),
        (!(*value is Variable) && !(*value is Null) && parse_ref(reference@) is Named) ==> (
        match assoc_get(registry.types@, reference@) {
            Some(t) => match t {
                Type::Scalar { kind, .. } => !scalar_valid(kind, value_view(*value)) ==> (
                r matches Some(m) && m@ == expected_type_text(path_text(path_node), reference@)),
                Type::Enum { enum_values, .. } => match *value {
                    Value::EnumLit(n) => !assoc_contains(enum_values@, n@) ==> (r matches Some(m)
                        && m@ == valid_error_text(
                        path_text(path_node),
                        "enumeration type \""@ + t.spec_name()
                            + "\" does not contain the value \""@ + n@ + "\""@,
                    )),
                    _ => (r matches Some(m) && m@ == expected_type_text(
                        path_text(path_node),
                        reference@,
                    )),
                },
                Type::InputObject { .. } => !(*value is Object) ==> (r matches Some(m) && m@
                    == expected_type_text(path_text(path_node), reference@)),
                _ => true,
            },
            None => true,
        }),
    decreases height(*value), reference@.len(),
{
    if let Value::Variable(_) = value {
        return None;
    }
    proof {
        lemma_legal_parse(reference@);
    }
    match TypeName::create(reference) {
        TypeName::NonNull(inner) => match value {
            Value::Null => Some(expected_type_error(&path_node, inner)),
            _ => is_valid_input_value(registry, inner, value, path_node),
        },
        TypeName::List(inner) => match value {
            Value::List(elems) => {
                proof {
                    lemma_list_height(elems@);
                }
                let n = elems.len();
                let mut idx: usize = 0;
                while idx < n
                    invariant
                        n == elems@.len(),
                        idx <= n,
                        forall|k: int|
                            0 <= k < idx ==> input_valid(
                                registry.types@,
                                inner@,
                                #[trigger] elems@[k],
                            ),
                    decreases n - idx,
                {
                    let child = QueryPathNode {
                        parent: Some(&path_node),
                        segment: QueryPathSegment::Index(idx),
                    };
                    match is_valid_input_value(registry, inner, &elems[idx], child) {
                        Some(reason) => {
                            proof {
                                assert(!input_valid(
                                    registry.types@,
                                    inner@,
                                    elems@[idx as int],
                                ));
                                assert(path_text(child) =~= path_text(path_node) + ("."@
                                    + segment_text(child.segment)));
                                lemma_child_frame_prefix(
                                    path_text(path_node),
                                    path_text(child),
                                    "."@ + segment_text(child.segment),
                                    reason@,
                                );
                            }
                            return Some(reason);
                        },
                        None => {},
                    }
                    idx = idx + 1;
                }
                None
            },
            _ => is_valid_input_value(registry, inner, value, path_node),
        },
        TypeName::Named(name) => {
            if let Value::Null = value {
                return None;
            }
            let t = match crate::table::assoc_find(&registry.types, name) {
                Some(t) => t,
                None => {
                    proof {
                        assert(false);
                    }
                    return None;
                },
            };
            match t {
                Type::Scalar { kind, .. } => {
                    if crate::registry::scalar_check(*kind, value) {
                        None
                    } else {
                        Some(expected_type_error(&path_node, name))
                    }
                },
                Type::Enum { enum_values, .. } => match value {
                    Value::EnumLit(lit) => {
                        if crate::table::assoc_has(enum_values, lit.as_str()) {
                            None
                        } else {
                            let mut msg = String::new();
                            msg.append("enumeration type \"");
                            msg.append(t.name());
                            msg.append("\" does not contain the value \"");
                            msg.append(lit.as_str());
                            msg.append("\"");
                            let ghost msgv = msg@;
                            let m = valid_error(&path_node, msg);
                            proof {
                                assert(msgv =~= "enumeration type \""@ + t.spec_name()
                                    + "\" does not contain the value \""@ + lit@ + "\""@);
                                lemma_frame_prefix(path_text(path_node), msgv);
                            }
                            Some(m)
                        }
                    },
                    _ => Some(expected_type_error(&path_node, name)),
                },
                Type::InputObject { input_fields, .. } => match value {
                    Value::Object(obj) => {
                        proof {
                            lemma_obj_height(obj@);
                            crate::table::lemma_assoc_get_is_element(registry.types@, name@);
                            let ti = choose|ti: int|
                                0 <= ti < registry.types@.len() && (#[trigger] registry.types@[ti]).0@
                                    == name@ && registry.types@[ti].1 == assoc_get(
                                    registry.types@,
                                    name@,
                                )->0;
                            assert(Registry::type_entry_wf(
                                registry.types@,
                                registry.types@[ti].1,
                            ));
                            assert(forall|l: int|
                                0 <= l < input_fields@.len() ==> Registry::iv_wf(
                                    registry.types@,
                                    (#[trigger] input_fields@[l]).1,
                                ));
                        }
                        let m = input_fields.len();
                        let mut j: usize = 0;
                        while j < m
                            invariant
                                m == input_fields@.len(),
                                j <= m,
                                forall|l: int|
                                    0 <= l < j ==> declared_field_ok(
                                        registry.types@,
                                        (#[trigger] input_fields@[l]).1,
                                        obj@,
                                    ),
                            decreases m - j,
                        {
                            let iv = &input_fields[j].1;
                            match assoc_index(obj, iv.name) {
                                Some(vi) => {
                                    let val = &obj[vi].1;
                                    match iv.validator {
                                        Some(c) => match c.check(val) {
                                            Some(reason) => {
                                                let child = QueryPathNode {
                                                    parent: Some(&path_node),
                                                    segment: QueryPathSegment::Name(iv.name),
                                                };
                                                proof {
                                                    assert(!declared_field_ok(
                                                        registry.types@,
                                                        input_fields@[j as int].1,
                                                        obj@,
                                                    ));
                                                    assert(!input_valid(
                                                        registry.types@,
                                                        reference@,
                                                        *value,
                                                    ));
                                                }
                                                let ghost reasonv = reason@;
                                                let m = valid_error(
                                                    &child,
                                                    reason.to_owned(),
                                                );
                                                proof {
                                                    lemma_frame_prefix(
                                                        path_text(child),
                                                        reasonv,
                                                    );
                                                    assert(path_text(child) =~= path_text(
                                                        path_node,
                                                    ) + ("."@ + segment_text(child.segment)));
                                                    lemma_child_frame_prefix(
                                                        path_text(path_node),
                                                        path_text(child),
                                                        "."@ + segment_text(child.segment),
                                                        m@,
                                                    );
                                                }
                                                return Some(m);
                                            },
                                            None => {},
                                        },
                                        None => {},
                                    }
                                    let child = QueryPathNode {
                                        parent: Some(&path_node),
                                        segment: QueryPathSegment::Name(iv.name),
                                    };
                                    match is_valid_input_value(
                                        registry,
                                        iv.ty.as_str(),
                                        val,
                                        child,
                                    ) {
                                        Some(reason) => {
                                            proof {
                                                assert(!declared_field_ok(
                                                    registry.types@,
                                                    input_fields@[j as int].1,
                                                    obj@,
                                                ));
                                                assert(!input_valid(
                                                    registry.types@,
                                                    reference@,
                                                    *value,
                                                ));
                                                assert(path_text(child) =~= path_text(path_node)
                                                    + ("."@ + segment_text(child.segment)));
                                                lemma_child_frame_prefix(
                                                    path_text(path_node),
                                                    path_text(child),
                                                    "."@ + segment_text(child.segment),
                                                    reason@,
                                                );
                                            }
                                            return Some(reason);
                                        },
                                        None => {},
                                    }
                                },
                                None => {
                                    let tn = TypeName::create(iv.ty.as_str());
                                    if tn.is_non_null() && iv.default_value.is_none() {
                                        let mut msg = String::new();
                                        msg.append("field \"");
                                        msg.append(iv.name);
                                        msg.append("\" of type \"");
                                        msg.append(t.name());
                                        msg.append("\" is required but not provided");
                                        proof {
                                            assert(!declared_field_ok(
                                                registry.types@,
                                                input_fields@[j as int].1,
                                                obj@,
                                            ));
                                            assert(!input_valid(
                                                registry.types@,
                                                reference@,
                                                *value,
                                            ));
                                            lemma_frame_prefix(path_text(path_node), msg@);
                                        }
                                        return Some(valid_error(&path_node, msg));
                                    }
                                },
                            }
                            proof {
                                assert(declared_field_ok(
                                    registry.types@,
                                    input_fields@[j as int].1,
                                    obj@,
                                ));
                            }
                            j = j + 1;
                        }
                        let gcount = obj.len();
                        let mut gi: usize = 0;
                        while gi < gcount
                            invariant
                                gcount == obj@.len(),
                                gi <= gcount,
                                forall|l: int|
                                    0 <= l < gi ==> declared_name(
                                        input_fields@,
                                        (#[trigger] obj@[l]).0@,
                                    ),
                            decreases gcount - gi,
                        {
                            if !declared_has_name(input_fields, obj[gi].0.as_str()) {
                                let mut msg = String::new();
                                msg.append("unknown field \"");
                                msg.append(obj[gi].0.as_str());
                                msg.append("\" of type \"");
                                msg.append(t.name());
                                msg.append("\"");
                                proof {
                                    assert(!input_valid(registry.types@, reference@, *value));
                                    lemma_frame_prefix(path_text(path_node), msg@);
                                }
                                return Some(valid_error(&path_node, msg));
                            }
                            gi = gi + 1;
                        }
                        proof {
                            assert(input_valid(registry.types@, reference@, *value));
                        }
                        None
                    },
                    _ => Some(expected_type_error(&path_node, name)),
                },
                _ => None,
            }
        },
    }
}

/// Whether some declared input field is named `n`.
fn declared_has_name(decl: &Vec<(String, InputValue)>, n: &str) -> (r: bool)
    ensures
        r == declared_name(decl@, n@),
{
    let m = decl.len();
    let mut j: usize = 0;
    while j < m
        invariant
            m == decl@.len(),
            j <= m,
            forall|l: int| 0 <= l < j ==> (#[trigger] decl@[l]).1.name@ != n@,
        decreases m - j,
    {
        if str_eq(decl[j].1.name, n) {
            return true;
        }
        j = j + 1;
    }
    false
}

} // verus!
