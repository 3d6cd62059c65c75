//! The federation projection: a reduced SDL view of the registry, and the
//! synthetic `_Service`/`_Entity` machinery injected for cross-service
//! composition.

use vstd::prelude::*;
use crate::cache::CacheControl;
use crate::registry::{
    keys_of, same_but_types, strs_view, Field, InputValue, Registry, ScalarKind, Type,
};
use crate::error::{GqlError, Pos, QueryError};
use crate::table::{assoc_contains, assoc_find, assoc_get, assoc_index};
use crate::value::Value;

verus! {

/// Whether a name carries the introspection prefix `__`.
pub open spec fn is_introspection_name(n: Seq<char>) -> bool {
    n.len() >= 2 && n[0] == '_' && n[1] == '_'
}

/// Checks a name for the introspection prefix `__`.
pub fn has_introspection_prefix(n: &str) -> (r: bool)
    ensures
        r == is_introspection_name(n@),
{
    let len = n.unicode_len();
    len >= 2 && n.get_char(0) == '_' && n.get_char(1) == '_'
}

/// Whether a field is left out of the SDL: introspection fields and the
/// federation-internal `_service`/`_entities` fields.
pub open spec fn skip_field(f: Field) -> bool {
    is_introspection_name(f.name@) || f.name@ == "_service"@ || f.name@ == "_entities"@
}

/// The SDL line of one field, with its federation markers.
pub open spec fn field_sdl(f: Field) -> Seq<char> {
    "\t"@ + f.name@ + ": "@ + f.ty@ + (if f.external {
        " @external"@
    } else {
        Seq::<char>::empty()
    }) + (match f.requires_fields {
        Some(r) => " @requires(fields: \""@ + r@ + "\")"@,
        None => Seq::<char>::empty(),
    }) + (match f.provides_fields {
        Some(p) => " @provides(fields: \""@ + p@ + "\")"@,
        None => Seq::<char>::empty(),
    }) + "\n"@
}

/// The SDL lines of a field table, in declaration order, skipping reserved
/// fields.
pub open spec fn fields_sdl(fs: Seq<(String, Field)>) -> Seq<char>
    decreases fs.len(),
{
    if fs.len() == 0 {
        Seq::empty()
    } else {
        (if skip_field(fs.first().1) {
            Seq::<char>::empty()
        } else {
            field_sdl(fs.first().1)
        }) + fields_sdl(fs.drop_first())
    }
}

/// Appending one field appends its line (or nothing, if it is skipped).
pub proof fn lemma_fields_sdl_snoc(fs: Seq<(String, Field)>, x: (String, Field))
    ensures
        fields_sdl(fs.push(x)) == fields_sdl(fs) + (if skip_field(x.1) {
            Seq::<char>::empty()
        } else {
            field_sdl(x.1)
        }),
    decreases fs.len(),
{
    reveal_with_fuel(fields_sdl, 3);
    if fs.len() == 0 {
        assert(fs.push(x).first() == x);
        assert(fs.push(x).drop_first() =~= Seq::<(String, Field)>::empty());
        assert(fields_sdl(fs.push(x)) =~= fields_sdl(fs) + (if skip_field(x.1) {
            Seq::<char>::empty()
        } else {
            field_sdl(x.1)
        }));
    } else {
        assert(fs.push(x).first() == fs.first());
        assert(fs.push(x).drop_first() =~= fs.drop_first().push(x));
        lemma_fields_sdl_snoc(fs.drop_first(), x);
        assert(fields_sdl(fs.push(x)) =~= fields_sdl(fs) + (if skip_field(x.1) {
            Seq::<char>::empty()
        } else {
            field_sdl(x.1)
        }));
    }
}

/// The `@key(fields: "...") ` markers of a type, in declaration order.
pub open spec fn keys_sdl(ks: Seq<Seq<char>>) -> Seq<char>
    decreases ks.len(),
{
    if ks.len() == 0 {
        Seq::empty()
    } else {
        "@key(fields: \""@ + ks.first() + "\") "@ + keys_sdl(ks.drop_first())
    }
}

/// Appending one key appends its marker.
pub proof fn lemma_keys_sdl_snoc(ks: Seq<Seq<char>>, x: Seq<char>)
    ensures
        keys_sdl(ks.push(x)) == keys_sdl(ks) + "@key(fields: \""@ + x + "\") "@,
    decreases ks.len(),
{
    reveal_with_fuel(keys_sdl, 3);
    if ks.len() == 0 {
        assert(ks.push(x).first() == x);
        assert(ks.push(x).drop_first() =~= Seq::<Seq<char>>::empty());
        assert(keys_sdl(ks.push(x)) =~= keys_sdl(ks) + "@key(fields: \""@ + x + "\") "@);
    } else {
        assert(ks.push(x).first() == ks.first());
        assert(ks.push(x).drop_first() =~= ks.drop_first().push(x));
        lemma_keys_sdl_snoc(ks.drop_first(), x);
        assert(keys_sdl(ks.push(x)) =~= keys_sdl(ks) + "@key(fields: \""@ + x + "\") "@);
    }
}

/// The four field names a bare federated query root carries: the two
/// introspection entry points and the two injected federation fields.
pub open spec fn reserved_root_field_name(n: Seq<char>) -> bool {
    n == "__schema"@ || n == "__type"@ || n == "_service"@ || n == "_entities"@
}

/// A bare query root: exactly four fields, all of them reserved.
pub open spec fn is_bare_root(fields: Seq<(String, Field)>) -> bool {
    fields.len() == 4 && forall|i: int|
        0 <= i < fields.len() ==> reserved_root_field_name((#[trigger] fields[i]).1.name@)
}

/// The SDL block of one type: one `type`/`interface` block per object or
/// interface, skipping introspection types, the synthetic `_Service`, and a
/// query root that carries exactly the four reserved fields and nothing
/// else; every other kind of type projects to nothing.
pub open spec fn type_sdl(t: Type) -> Seq<char> {
    match t {
        Type::Object { name, fields, extends, .. } => {
            if is_introspection_name(name@) || name@ == "_Service"@ || is_bare_root(fields@) {
                Seq::empty()
            } else {
                (if extends {
                    "extend "@
                } else {
                    Seq::<char>::empty()
                }) + "type "@ + name@ + " "@ + keys_sdl(keys_of(t)) + "{\n"@ + fields_sdl(fields@)
                    + "}\n"@
            }
        },
        Type::Interface { name, fields, extends, .. } => {
            (if extends {
                "extend "@
            } else {
                Seq::<char>::empty()
            }) + "interface "@ + name@ + " "@ + keys_sdl(keys_of(t)) + "{\n"@ + fields_sdl(fields@)
                + "}\n"@
        },
        _ => Seq::empty(),
    }
}

/// The whole SDL document: the blocks of all types, in registration order.
pub open spec fn sdl_of(types: Seq<(String, Type)>) -> Seq<char>
    decreases types.len(),
{
    if types.len() == 0 {
        Seq::empty()
    } else {
        type_sdl(types.first().1) + sdl_of(types.drop_first())
    }
}

/// Appending one type appends its block.
pub proof fn lemma_sdl_of_snoc(types: Seq<(String, Type)>, x: (String, Type))
    ensures
        sdl_of(types.push(x)) == sdl_of(types) + type_sdl(x.1),
    decreases types.len(),
{
    reveal_with_fuel(sdl_of, 3);
    if types.len() == 0 {
        assert(types.push(x).first() == x);
        assert(types.push(x).drop_first() =~= Seq::<(String, Type)>::empty());
        assert(sdl_of(types.push(x)) =~= sdl_of(types) + type_sdl(x.1));
    } else {
        assert(types.push(x).first() == types.first());
        assert(types.push(x).drop_first() =~= types.drop_first().push(x));
        lemma_sdl_of_snoc(types.drop_first(), x);
        assert(sdl_of(types.push(x)) =~= sdl_of(types) + type_sdl(x.1));
    }
}

/// Whether a type carries at least one key field set.
pub open spec fn has_nonempty_keys(t: Type) -> bool {
    match t {
        Type::Object { keys: Some(ks), .. } => ks@.len() > 0,
        Type::Interface { keys: Some(ks), .. } => ks@.len() > 0,
        _ => false,
    }
}

/// Whether any declared type carries a key: only then is the federation
/// machinery synthesized.
pub open spec fn spec_has_entities(types: Seq<(String, Type)>) -> bool {
    exists|i: int| 0 <= i < types.len() && has_nonempty_keys((#[trigger] types[i]).1)
}

/// The names of the keyed types, in registration order.
pub open spec fn keyed_names(types: Seq<(String, Type)>) -> Seq<Seq<char>>
    decreases types.len(),
{
    if types.len() == 0 {
        Seq::empty()
    } else {
        (if has_nonempty_keys(types.first().1) {
            seq![types.first().1.spec_name()]
        } else {
            Seq::<Seq<char>>::empty()
        }) + keyed_names(types.drop_first())
    }
}

/// Appending one type appends its name to the keyed names exactly when it
/// is keyed.
pub proof fn lemma_keyed_names_snoc(types: Seq<(String, Type)>, x: (String, Type))
    ensures
        keyed_names(types.push(x)) == keyed_names(types) + (if has_nonempty_keys(x.1) {
            seq![x.1.spec_name()]
        } else {
            Seq::<Seq<char>>::empty()
        }),
    decreases types.len(),
{
    reveal_with_fuel(keyed_names, 3);
    if types.len() == 0 {
        assert(types.push(x).first() == x);
        assert(types.push(x).drop_first() =~= Seq::<(String, Type)>::empty());
        assert(keyed_names(types.push(x)) =~= keyed_names(types) + (if has_nonempty_keys(x.1) {
            seq![x.1.spec_name()]
        } else {
            Seq::<Seq<char>>::empty()
        }));
    } else {
        assert(types.push(x).first() == types.first());
        assert(types.push(x).drop_first() =~= types.drop_first().push(x));
        lemma_keyed_names_snoc(types.drop_first(), x);
        assert(keyed_names(types.push(x)) =~= keyed_names(types) + (if has_nonempty_keys(x.1) {
            seq![x.1.spec_name()]
        } else {
            Seq::<Seq<char>>::empty()
        }));
    }
}

/// The synthetic `_Any` scalar that entity representations arrive as.
pub open spec fn is_any_scalar(t: Type) -> bool {
    match t {
        Type::Scalar { name, description, kind } => name@ == "_Any"@ && description is None && kind
            == ScalarKind::AnyScalar,
        _ => false,
    }
}

/// The synthetic `_Service` object: a single `sdl` string field.
pub open spec fn is_service_type(t: Type) -> bool {
    match t {
        Type::Object { name, description, fields, cache_control, extends, keys } => {
            &&& name@ == "_Service"@
            &&& description is None
            &&& extends == false
            &&& keys is None
            &&& cache_control == (CacheControl { public: true, max_age: 0 })
            &&& fields@.len() == 1
            &&& fields@[0].0@ == "sdl"@
            &&& ({
                let f = fields@[0].1;
                f.name@ == "sdl"@ && f.ty@ == "String"@ && f.args@.len() == 0 && !f.external
                    && f.requires_fields is None && f.provides_fields is None && f.deprecation is None
            })
        },
        _ => false,
    }
}

/// The synthetic `_Entity` union over the given possible-type names.
pub open spec fn is_entity_union(t: Type, names: Seq<Seq<char>>) -> bool {
    match t {
        Type::Union { name, description, possible_types } => name@ == "_Entity"@
            && description is None && strs_view(possible_types@) == names,
        _ => false,
    }
}

/// The injected `_service: _Service!` root field.
pub open spec fn is_service_field(e: (String, Field)) -> bool {
    e.0@ == "_service"@ && e.1.name@ == "_service"@ && e.1.ty@ == "_Service!"@ && e.1.args@.len()
        == 0 && !e.1.external && e.1.requires_fields is None && e.1.provides_fields is None
}

/// The injected `_entities(representations: [_Any!]!): [_Entity]!` root
/// field.
pub open spec fn is_entities_field(e: (String, Field)) -> bool {
    &&& e.0@ == "_entities"@
    &&& e.1.name@ == "_entities"@
    &&& e.1.ty@ == "[_Entity]!"@
    &&& !e.1.external
    &&& e.1.requires_fields is None
    &&& e.1.provides_fields is None
    &&& e.1.args@.len() == 1
    &&& e.1.args@[0].0@ == "representations"@
    &&& ({
        let a = e.1.args@[0].1;
        a.name@ == "representations"@ && a.ty@ == "[_Any!]!"@ && a.default_value is None
            && a.validator is None
    })
}

/// The query root after federation: the same object with the two synthetic
/// fields appended; a non-object root is left as it was.
pub open spec fn root_with_federation_fields(t1: Type, t2: Type) -> bool {
    match t1 {
        Type::Object { name: n1, description: d1, fields: f1, cache_control: c1, extends: x1, keys: k1 } => {
            match t2 {
                Type::Object { name: n2, description: d2, fields: f2, cache_control: c2, extends: x2, keys: k2 } => {
                    &&& n2 == n1
                    &&& d2 == d1
                    &&& c2 == c1
                    &&& x2 == x1
                    &&& k2 == k1
                    &&& f2@.len() == f1@.len() + 2
                    &&& f2@.subrange(0, f1@.len() as int) == f1@
                    &&& is_service_field(f2@[f1@.len() as int])
                    &&& is_entities_field(f2@[f1@.len() as int + 1])
                },
                _ => false,
            }
        },
        _ => t2 == t1,
    }
}

/// The type name an entity representation carries under `__typename`, if
/// it is an object with a string there.
pub open spec fn representation_typename(rep: Value) -> Option<Seq<char>> {
    match rep {
        Value::Object(fs) => match assoc_get(fs@, "__typename"@) {
            Some(v) => match v {
                Value::Text(tn) => Some(tn@),
                _ => None,
            },
            None => None,
        },
        _ => None,
    }
}

/// Whether an entity representation points at a declared keyed type: it
/// carries a `__typename`, and that name is in the catalog with at least
/// one key.
pub open spec fn entity_locatable(types: Seq<(String, Type)>, rep: Value) -> bool {
    match representation_typename(rep) {
        Some(tn) => match assoc_get(types, tn) {
            Some(t) => has_nonempty_keys(t),
            None => false,
        },
        None => false,
    }
}

fn entity_error() -> (e: GqlError)
    ensures
        e.err is FieldError,
{
    GqlError {
        pos: Pos { line: 0, column: 0 },
        err: QueryError::FieldError { err: "entity not found".to_owned() },
    }
}

/// Locates the keyed type one entity representation refers to: the declared
/// object or interface its `__typename` names, provided it carries a key.
/// A failure here is per-item: the caller surfaces it inside the `_Entity`
/// list, never as a whole-request failure.
pub fn entity_target<'a>(registry: &'a Registry, representation: &Value) -> (r: Result<
    &'a Type,
    GqlError,
>)
    ensures
        r is Ok <==> entity_locatable(registry.types@, *representation),
        r matches Ok(t) ==> (representation_typename(*representation) matches Some(tn)
            && assoc_get(registry.types@, tn) == Some(*t)),
        r matches Err(e) ==> e.err is FieldError,
{
    match representation {
        Value::Object(fs) => match assoc_find(fs, "__typename") {
            Some(v) => match v {
                Value::Text(tn) => match assoc_find(&registry.types, tn.as_str()) {
                    Some(t) => {
                        let keyed = match t {
                            Type::Object { keys: Some(ks), .. } => ks.len() > 0,
                            Type::Interface { keys: Some(ks), .. } => ks.len() > 0,
                            _ => false,
                        };
                        if keyed {
                            Ok(t)
                        } else {
                            Err(entity_error())
                        }
                    },
                    None => Err(entity_error()),
                },
                _ => Err(entity_error()),
            },
            None => Err(entity_error()),
        },
        _ => Err(entity_error()),
    }
}

/// Folds per-representation outcomes into the `_Entity` list value: a
/// failed item surfaces as a null inside the list, never as a
/// whole-request failure.
#[verifier::loop_isolation(false)]
pub fn entities_value(items: Vec<Result<Value, GqlError>>) -> (r: Value)
    ensures
        r matches Value::List(out) && out@.len() == items@.len() && (forall|i: int|
            0 <= i < items@.len() ==> match #[trigger] items@[i] {
                Ok(v) => out@[i] == v,
                Err(_) => out@[i] is Null,
            }),
{
    let ghost c0 = items@;
    let mut items = items;
    let mut out: Vec<Value> = Vec::new();
    let n = items.len();
    let mut k: usize = 0;
    while k < n
        invariant
            n == c0.len(),
            k <= n,
            items@ == c0.skip(k as int),
            out@.len() == k,
            forall|i: int|
                0 <= i < k ==> match #[trigger] c0[i] {
                    Ok(v) => out@[i] == v,
                    Err(_) => out@[i] is Null,
                },
        decreases n - k,
    {
        proof {
            assert(items@.first() == c0[k as int]);
            assert(items@.drop_first() =~= c0.skip(k as int + 1));
        }
        match items.remove(0) {
            Ok(v) => {
                out.push(v);
            },
            Err(_) => {
                out.push(Value::Null);
            },
        }
        k = k + 1;
    }
    Value::List(out)
}

/// Checks whether a field table is a bare federated query root's.
fn is_bare_root_check(fields: &Vec<(String, Field)>) -> (r: bool)
    ensures
        r == is_bare_root(fields@),
{
    if fields.len() != 4 {
        return false;
    }
    let mut i: usize = 0;
    while i < 4
        invariant
            fields@.len() == 4,
            i <= 4,
            forall|j: int|
                0 <= j < i ==> reserved_root_field_name((#[trigger] fields@[j]).1.name@),
        decreases 4 - i,
    {
        let f = &fields[i].1;
        let reserved = crate::strutil::str_eq(f.name.as_str(), "__schema")
            || crate::strutil::str_eq(f.name.as_str(), "__type") || crate::strutil::str_eq(
            f.name.as_str(),
            "_service",
        ) || crate::strutil::str_eq(f.name.as_str(), "_entities");
        if !reserved {
            proof {
                assert(!reserved_root_field_name(fields@[i as int].1.name@));
            }
            return false;
        }
        i = i + 1;
    }
    true
}

impl Registry {
    /// Writes the SDL lines of a field table onto `sdl`.
    #[verifier::rlimit(50)]
    fn create_federation_fields(sdl: &mut String, fields: &Vec<(String, Field)>)
        ensures
            final(sdl)@ == old(sdl)@ + fields_sdl(fields@),
    {
        let ghost base = sdl@;
        let n = fields.len();
        let mut i: usize = 0;
        while i < n
            invariant
                n == fields@.len(),
                i <= n,
                sdl@ == base + fields_sdl(fields@.subrange(0, i as int)),
            decreases n - i,
        {
            let ghost pre = sdl@;
            let field = &fields[i].1;
            let skip = has_introspection_prefix(field.name.as_str()) || crate::strutil::str_eq(
                field.name.as_str(),
                "_service",
            ) || crate::strutil::str_eq(field.name.as_str(), "_entities");
            if !skip {
                sdl.append("\t");
                sdl.append(field.name.as_str());
                sdl.append(": ");
                sdl.append(field.ty.as_str());
                if field.external {
                    sdl.append(" @external");
                }
                match field.requires_fields {
                    Some(r) => {
                        sdl.append(" @requires(fields: \"");
                        sdl.append(r);
                        sdl.append("\")");
                    },
                    None => {},
                }
                match field.provides_fields {
                    Some(p) => {
                        sdl.append(" @provides(fields: \"");
                        sdl.append(p);
                        sdl.append("\")");
                    },
                    None => {},
                }
                sdl.append("\n");
                proof {
                    assert(sdl@ =~= pre + field_sdl(fields@[i as int].1));
                }
            }
            proof {
                assert(fields@.subrange(0, i + 1 as int) =~= fields@.subrange(0, i as int).push(
                    fields@[i as int],
                ));
                lemma_fields_sdl_snoc(fields@.subrange(0, i as int), fields@[i as int]);
                assert(sdl@ =~= base + fields_sdl(fields@.subrange(0, i + 1 as int)));
            }
            i = i + 1;
        }
        proof {
            assert(fields@.subrange(0, n as int) =~= fields@);
        }
    }

    /// Writes the `@key` markers of a key list onto `sdl`.
    fn create_federation_keys(sdl: &mut String, keys: &Vec<String>)
        ensures
            final(sdl)@ == old(sdl)@ + keys_sdl(strs_view(keys@)),
    {
        let ghost base = sdl@;
        let n = keys.len();
        let mut i: usize = 0;
        while i < n
            invariant
                n == keys@.len(),
                i <= n,
                sdl@ == base + keys_sdl(strs_view(keys@.subrange(0, i as int))),
            decreases n - i,
        {
            let ghost pre = sdl@;
            sdl.append("@key(fields: \"");
            sdl.append(keys[i].as_str());
            sdl.append("\") ");
            proof {
                assert(strs_view(keys@.subrange(0, i + 1 as int)) =~= strs_view(
                    keys@.subrange(0, i as int),
                ).push(keys@[i as int]@));
                lemma_keys_sdl_snoc(strs_view(keys@.subrange(0, i as int)), keys@[i as int]@);
                assert(sdl@ =~= base + keys_sdl(strs_view(keys@.subrange(0, i + 1 as int))));
            }
            i = i + 1;
        }
        proof {
            assert(keys@.subrange(0, n as int) =~= keys@);
        }
    }

    /// Writes the SDL block of one type onto `sdl`.
    fn create_federation_type(&self, ty: &Type, sdl: &mut String)
        ensures
            final(sdl)@ == old(sdl)@ + type_sdl(*ty),
    {
        let ghost base = sdl@;
        match ty {
            Type::Object { name, fields, extends, keys, .. } => {
                if has_introspection_prefix(name.as_str()) {
                    return ;
                }
                if crate::strutil::str_eq(name.as_str(), "_Service") {
                    return ;
                }
                if is_bare_root_check(fields) {
                    // The bare query root: nothing but the four reserved
                    // introspection and federation fields.
                    return ;
                }
                if *extends {
                    sdl.append("extend ");
                }
                sdl.append("type ");
                sdl.append(name.as_str());
                sdl.append(" ");
                match keys {
                    Some(ks) => {
                        Self::create_federation_keys(sdl, ks);
                    },
                    None => {},
                }
                sdl.append("{\n");
                Self::create_federation_fields(sdl, fields);
                sdl.append("}\n");
                proof {
                    assert(sdl@ =~= base + type_sdl(*ty));
                }
            },
            Type::Interface { name, fields, extends, keys, .. } => {
                if *extends {
                    sdl.append("extend ");
                }
                sdl.append("interface ");
                sdl.append(name.as_str());
                sdl.append(" ");
                match keys {
                    Some(ks) => {
                        Self::create_federation_keys(sdl, ks);
                    },
                    None => {},
                }
                sdl.append("{\n");
                Self::create_federation_fields(sdl, fields);
                sdl.append("}\n");
                proof {
                    assert(sdl@ =~= base + type_sdl(*ty));
                }
            },
            _ => {},
        }
    }

    /// Emits the reduced SDL view of the whole registry, one block per
    /// object or interface, in registration order.
    pub fn create_federation_sdl(&self) -> (r: String)
        ensures
            r@ == sdl_of(self.types@),
    {
        let mut sdl = String::new();
        let n = self.types.len();
        let mut i: usize = 0;
        while i < n
            invariant
                n == self.types@.len(),
                i <= n,
                sdl@ == sdl_of(self.types@.subrange(0, i as int)),
            decreases n - i,
        {
            self.create_federation_type(&self.types[i].1, &mut sdl);
            proof {
                assert(self.types@.subrange(0, i + 1 as int) =~= self.types@.subrange(
                    0,
                    i as int,
                ).push(self.types@[i as int]));
                lemma_sdl_of_snoc(self.types@.subrange(0, i as int), self.types@[i as int]);
            }
            i = i + 1;
        }
        proof {
            assert(self.types@.subrange(0, n as int) =~= self.types@);
        }
        sdl
    }

    /// Whether any declared type carries a non-empty key set.
    fn has_entities(&self) -> (r: bool)
        ensures
            r == spec_has_entities(self.types@),
    {
        let n = self.types.len();
        let mut i: usize = 0;
        while i < n
            invariant
                n == self.types@.len(),
                i <= n,
                forall|j: int| 0 <= j < i ==> !has_nonempty_keys((#[trigger] self.types@[j]).1),
            decreases n - i,
        {
            let keyed = match &self.types[i].1 {
                Type::Object { keys: Some(ks), .. } => ks.len() > 0,
                Type::Interface { keys: Some(ks), .. } => ks.len() > 0,
                _ => false,
            };
            if keyed {
                return true;
            }
            i = i + 1;
        }
        false
    }

    /// The names of the keyed types, in registration order.
    fn keyed_type_names(&self) -> (r: Vec<String>)
        ensures
            strs_view(r@) == keyed_names(self.types@),
    {
        let mut out: Vec<String> = Vec::new();
        let n = self.types.len();
        let mut i: usize = 0;
        while i < n
            invariant
                n == self.types@.len(),
                i <= n,
                strs_view(out@) == keyed_names(self.types@.subrange(0, i as int)),
            decreases n - i,
        {
            let ghost pre = out@;
            let keyed = match &self.types[i].1 {
                Type::Object { keys: Some(ks), .. } => ks.len() > 0,
                Type::Interface { keys: Some(ks), .. } => ks.len() > 0,
                _ => false,
            };
            if keyed {
                let name = self.types[i].1.name().to_owned();
                out.push(name);
                proof {
                    assert(strs_view(out@) =~= strs_view(pre).push(
                        self.types@[i as int].1.spec_name(),
                    ));
                }
            }
            proof {
                assert(self.types@.subrange(0, i + 1 as int) =~= self.types@.subrange(
                    0,
                    i as int,
                ).push(self.types@[i as int]));
                lemma_keyed_names_snoc(
                    self.types@.subrange(0, i as int),
                    self.types@[i as int],
                );
                assert(strs_view(out@) =~= keyed_names(self.types@.subrange(0, i + 1 as int)));
            }
            i = i + 1;
        }
        proof {
            assert(self.types@.subrange(0, n as int) =~= self.types@);
        }
        out
    }

    /// Synthesizes the federation machinery, unless no type carries a key:
    /// the `_Any` scalar, the `_Service` object, the `_Entity` union over
    /// every keyed type, and the `_service`/`_entities` fields on the query
    /// root.
    pub fn create_federation_types(&mut self)
        requires
            spec_has_entities(old(self).types@) ==> assoc_contains(
                old(self).types@,
                old(self).query_type@,
            ) && old(self).query_type@ != "_Any"@ && old(self).query_type@ != "_Service"@ && old(
                self,
            ).query_type@ != "_Entity"@,
        ensures
            same_but_types(*final(self), *old(self)),
            !spec_has_entities(old(self).types@) ==> *final(self) == *old(self),
            spec_has_entities(old(self).types@) ==> {
                &&& assoc_get(final(self).types@, "_Any"@) == if assoc_contains(
                    old(self).types@,
                    "_Any"@,
                ) {
                    assoc_get(old(self).types@, "_Any"@)
                } else {
                    assoc_get(final(self).types@, "_Any"@)
                }
                &&& assoc_get(final(self).types@, "_Any"@) is Some
                &&& (!assoc_contains(old(self).types@, "_Any"@) ==> is_any_scalar(
                    assoc_get(final(self).types@, "_Any"@)->0,
                ))
                &&& assoc_get(final(self).types@, "_Service"@) is Some
                &&& is_service_type(assoc_get(final(self).types@, "_Service"@)->0)
                &&& assoc_get(final(self).types@, "_Entity"@) is Some
                &&& is_entity_union(
                    assoc_get(final(self).types@, "_Entity"@)->0,
                    keyed_names(old(self).types@),
                )
                &&& assoc_get(final(self).types@, old(self).query_type@) is Some
                &&& root_with_federation_fields(
                    assoc_get(old(self).types@, old(self).query_type@)->0,
                    assoc_get(final(self).types@, old(self).query_type@)->0,
                )
                &&& (forall|k: Seq<char>|
                    (k != "_Any"@ && k != "_Service"@ && k != "_Entity"@ && k != old(
                        self,
                    ).query_type@) ==> assoc_get(final(self).types@, k) == assoc_get(
                        old(self).types@,
                        k,
                    ))
            },
    {
        if !self.has_entities() {
            return ;
        }
        let possible = self.keyed_type_names();
        let ghost t0 = self.types@;
        let ghost q = self.query_type@;

        self.create_type(
            "_Any",
            Type::Scalar {
                name: "_Any".to_owned(),
                description: None,
                kind: ScalarKind::AnyScalar,
            },
        );
        let ghost t1 = self.types@;
        proof {
            if !assoc_contains(t0, "_Any"@) {
                assert(t1 =~= t0.push(t1.last()));
                crate::table::lemma_assoc_get_push(t0, "_Any"@, t1.last());
                assert(is_any_scalar(t1.last().1));
                assert forall|k: Seq<char>| k != "_Any"@ implies assoc_get(t1, k) == assoc_get(
                    t0,
                    k,
                ) by {
                    crate::table::lemma_assoc_get_push(t0, k, t1.last());
                }
            }
        }

        let mut service_fields: Vec<(String, Field)> = Vec::new();
        service_fields.push(
            (
                "sdl".to_owned(),
                Field {
                    name: "sdl".to_owned(),
                    description: None,
                    args: Vec::new(),
                    ty: "String".to_owned(),
                    deprecation: None,
                    cache_control: CacheControl { public: true, max_age: 0 },
                    external: false,
                    requires_fields: None,
                    provides_fields: None,
                },
            ),
        );
        self.create_type_end(
            "_Service",
            Type::Object {
                name: "_Service".to_owned(),
                description: None,
                fields: service_fields,
                cache_control: CacheControl { public: true, max_age: 0 },
                extends: false,
                keys: None,
            },
        );

        let ghost t2 = self.types@;
        self.create_type_end(
            "_Entity",
            Type::Union {
                name: "_Entity".to_owned(),
                description: None,
                possible_types: possible,
            },
        );
        let ghost t3 = self.types@;
        proof {
            reveal_strlit("_Any");
            reveal_strlit("_Service");
            reveal_strlit("_Entity");
            assert("_Any"@.len() == 4 && "_Service"@.len() == 8 && "_Entity"@.len() == 7);
            assert("_Any"@ != "_Service"@ && "_Any"@ != "_Entity"@ && "_Service"@
                != "_Entity"@);
            assert(assoc_get(t1, q) == assoc_get(t0, q));
            assert(assoc_get(t2, q) == assoc_get(t1, q));
            assert(assoc_get(t3, q) == assoc_get(t2, q));
            assert(assoc_get(t3, q) is Some);
            assert(assoc_get(t3, "_Any"@) == assoc_get(t1, "_Any"@));
            assert(is_service_type(assoc_get(t2, "_Service"@)->0));
            assert(assoc_get(t3, "_Service"@) == assoc_get(t2, "_Service"@));
            assert(is_entity_union(assoc_get(t3, "_Entity"@)->0, keyed_names(t0)));
        }

        let qi = match assoc_index(&self.types, self.query_type.as_str()) {
            Some(i) => i,
            None => {
                proof {
                    assert(false);
                }
                return ;
            },
        };
        let entry = self.types.remove(qi);
        let (qkey, qty) = entry;
        let ghost qbefore = qty;
        let new_root = match qty {
            Type::Object { name, description, mut fields, cache_control, extends, keys } => {
                let ghost fbefore = fields@;
                fields.push(
                    (
                        "_service".to_owned(),
                        Field {
                            name: "_service".to_owned(),
                            description: None,
                            args: Vec::new(),
                            ty: "_Service!".to_owned(),
                            deprecation: None,
                            cache_control: CacheControl { public: true, max_age: 0 },
                            external: false,
                            requires_fields: None,
                            provides_fields: None,
                        },
                    ),
                );
                let mut rep_args: Vec<(String, InputValue)> = Vec::new();
                rep_args.push(
                    (
                        "representations".to_owned(),
                        InputValue {
                            name: "representations",
                            description: None,
                            ty: "[_Any!]!".to_owned(),
                            default_value: None,
                            validator: None,
                        },
                    ),
                );
                fields.push(
                    (
                        "_entities".to_owned(),
                        Field {
                            name: "_entities".to_owned(),
                            description: None,
                            args: rep_args,
                            ty: "[_Entity]!".to_owned(),
                            deprecation: None,
                            cache_control: CacheControl { public: true, max_age: 0 },
                            external: false,
                            requires_fields: None,
                            provides_fields: None,
                        },
                    ),
                );
                proof {
                    assert(fields@.subrange(0, fbefore.len() as int) =~= fbefore);
                }
                Type::Object { name, description, fields, cache_control, extends, keys }
            },
            other => other,
        };
        proof {
            assert(root_with_federation_fields(qbefore, new_root));
        }
        self.types.insert(qi, (qkey, new_root));
        proof {
            assert(final(self).types@ =~= t3.update(qi as int, (t3[qi as int].0, new_root)));
            crate::table::lemma_assoc_get_update(
                t3,
                qi as int,
                (t3[qi as int].0, new_root),
                q,
            );
            assert(assoc_get(final(self).types@, q) == Some(new_root));
            assert forall|k: Seq<char>| k != q implies assoc_get(final(self).types@, k)
                == assoc_get(t3, k) by {
                crate::table::lemma_assoc_get_update(
                    t3,
                    qi as int,
                    (t3[qi as int].0, new_root),
                    k,
                );
            }
            assert(qbefore == assoc_get(t0, q)->0);
            assert(root_with_federation_fields(
                assoc_get(t0, q)->0,
                assoc_get(final(self).types@, q)->0,
            ));
            assert(assoc_get(final(self).types@, "_Any"@) == assoc_get(t1, "_Any"@));
            assert(is_service_type(assoc_get(final(self).types@, "_Service"@)->0));
            assert(is_entity_union(
                assoc_get(final(self).types@, "_Entity"@)->0,
                keyed_names(t0),
            ));
            assert forall|k: Seq<char>|
                (k != "_Any"@ && k != "_Service"@ && k != "_Entity"@ && k != q) implies assoc_get(
                final(self).types@,
                k,
            ) == assoc_get(t0, k) by {
                assert(assoc_get(final(self).types@, k) == assoc_get(t3, k));
                assert(assoc_get(t3, k) == assoc_get(t2, k));
                assert(assoc_get(t2, k) == assoc_get(t1, k));
                if assoc_contains(t0, "_Any"@) {
                    assert(t1 == t0);
                } else {
                    assert(assoc_get(t1, k) == assoc_get(t0, k));
                }
            }
        }
    }
}

} // verus!
