//! The schema registry: the catalog of declared types, fields, directives,
//! the implements relation and the root operation type names. Built once at
//! schema construction and read-only afterwards.

use vstd::prelude::*;
use crate::cache::CacheControl;
use crate::strutil::str_eq;
use crate::table::{assoc_contains, assoc_get, assoc_index, names_contain, names_find};
use crate::typeref::{concrete_of, legal_ref, parsed_concrete, ParsedType, TypeName};
use crate::value::{Value, ValueView};

verus! {

/// The views of a list of strings, in order.
pub open spec fn strs_view(v: Seq<String>) -> Seq<Seq<char>> {
    v.map_values(|s: String| s@)
}

/// The built-in scalar validity predicates: what shape of literal each
/// scalar kind accepts.
#[derive(Clone, Copy, PartialEq, Eq, Structural, Debug)]
pub enum ScalarKind {
    /// Accepts integer literals.
    IntScalar,
    /// Accepts integer and float literals.
    FloatScalar,
    /// Accepts string literals.
    StringScalar,
    /// Accepts boolean literals.
    BooleanScalar,
    /// Accepts integer and string literals (identifiers).
    IdScalar,
    /// Accepts any value.
    AnyScalar,
}

/// Whether a value satisfies a scalar kind's validity predicate.
pub open spec fn scalar_valid(kind: ScalarKind, v: ValueView) -> bool {
    match kind {
        ScalarKind::IntScalar => v is Int,
        ScalarKind::FloatScalar => v is Int || v is Float,
        ScalarKind::StringScalar => v is Text,
        ScalarKind::BooleanScalar => v is Boolean,
        ScalarKind::IdScalar => v is Int || v is Text,
        ScalarKind::AnyScalar => true,
    }
}

/// Checks a value against a scalar kind's validity predicate.
pub fn scalar_check(kind: ScalarKind, v: &Value) -> (r: bool)
    ensures
        r == scalar_valid(kind, v@),
{
    match kind {
        ScalarKind::IntScalar => matches!(v, Value::Int(_)),
        ScalarKind::FloatScalar => matches!(v, Value::Int(_) | Value::Float(_)),
        ScalarKind::StringScalar => matches!(v, Value::Text(_)),
        ScalarKind::BooleanScalar => matches!(v, Value::Boolean(_)),
        ScalarKind::IdScalar => matches!(v, Value::Int(_) | Value::Text(_)),
        ScalarKind::AnyScalar => true,
    }
}

/// The closed set of extra per-argument checks a schema may attach to an
/// input value.
#[derive(Clone, Copy, PartialEq, Eq, Structural, Debug)]
pub enum ValueCheck {
    /// An integer literal must lie between `min` and `max`.
    IntRange {
        /// The smallest accepted integer.
        min: i64,
        /// The largest accepted integer.
        max: i64,
    },
    /// A list literal must hold at most `max` items.
    ListMaxLength {
        /// The largest accepted length.
        max: u64,
    },
}

/// Whether a value passes an attached check. A non-integer passes the range
/// check and a non-list passes the length check: each check constrains only
/// the shape it speaks about.
pub open spec fn value_check_ok(c: ValueCheck, v: ValueView) -> bool {
    match c {
        ValueCheck::IntRange { min, max } => match v {
            ValueView::Int(n) => min <= n && n <= max,
            _ => true,
        },
        ValueCheck::ListMaxLength { max } => match v {
            ValueView::List(items) => items.len() <= max,
            _ => true,
        },
    }
}

impl ValueCheck {
    /// The fixed message a failing check reports.
    pub open spec fn spec_message(self) -> Seq<char> {
        match self {
            ValueCheck::IntRange { .. } => "the value is out of the declared range"@,
            ValueCheck::ListMaxLength { .. } => "the list is longer than the declared maximum"@,
        }
    }

    /// Runs the check; a failure yields its fixed message.
    pub fn check(&self, v: &Value) -> (r: Option<&'static str>)
        ensures
            r is None <==> value_check_ok(*self, v@),
            r is Some ==> r->0@ == self.spec_message(),
    {
        let ok = match *self {
            ValueCheck::IntRange { min, max } => match v {
                Value::Int(n) => min <= *n && *n <= max,
                _ => true,
            },
            ValueCheck::ListMaxLength { max } => match v {
                Value::List(items) => {
                    proof {
                        crate::value::lemma_list_view(items@);
                    }
                    items.len() as u64 <= max
                },
                _ => true,
            },
        };
        if ok {
            None
        } else {
            Some(self.message())
        }
    }

    /// The fixed message a failing check reports.
    pub fn message(&self) -> (r: &'static str)
        ensures
            r@ == self.spec_message(),
    {
        match *self {
            ValueCheck::IntRange { .. } => "the value is out of the declared range",
            ValueCheck::ListMaxLength { .. } => "the list is longer than the declared maximum",
        }
    }
}

/// One argument or input-object field descriptor.
#[derive(Clone, Debug)]
pub struct InputValue {
    /// The argument's name.
    pub name: &'static str,
    /// A human-readable description.
    pub description: Option<&'static str>,
    /// The declared type reference.
    pub ty: String,
    /// The default literal's text, if one is declared.
    pub default_value: Option<&'static str>,
    /// An attached extra check, if one is declared.
    pub validator: Option<ValueCheck>,
}

/// One object or interface field descriptor.
#[derive(Clone, Debug)]
pub struct Field {
    /// The field's name.
    pub name: String,
    /// A human-readable description.
    pub description: Option<&'static str>,
    /// The declared arguments, by name, in declaration order.
    pub args: Vec<(String, InputValue)>,
    /// The declared return type reference.
    pub ty: String,
    /// A deprecation reason, if the field is deprecated.
    pub deprecation: Option<&'static str>,
    /// The field's cache-control hint.
    pub cache_control: CacheControl,
    /// Federation: the field is owned by another service.
    pub external: bool,
    /// Federation: the input field set this resolver needs.
    pub requires_fields: Option<&'static str>,
    /// Federation: the field set this field guarantees to provide.
    pub provides_fields: Option<&'static str>,
}

/// One declared enumeration value.
#[derive(Clone, Debug)]
pub struct EnumValue {
    /// The value's name.
    pub name: &'static str,
    /// A human-readable description.
    pub description: Option<&'static str>,
    /// A deprecation reason, if the value is deprecated.
    pub deprecation: Option<&'static str>,
}

/// Where a directive may be applied.
#[derive(Clone, Copy, PartialEq, Eq, Structural, Debug)]
pub enum DirectiveLocation {
    /// On a query operation.
    Query,
    /// On a mutation operation.
    Mutation,
    /// On a subscription operation.
    Subscription,
    /// On a field.
    FieldUse,
    /// On a fragment definition.
    FragmentDefinition,
    /// On a fragment spread.
    FragmentSpread,
    /// On an inline fragment.
    InlineFragment,
}

/// One declared directive.
#[derive(Clone, Debug)]
pub struct Directive {
    /// The directive's name.
    pub name: &'static str,
    /// A human-readable description.
    pub description: Option<&'static str>,
    /// Where it may be applied.
    pub locations: Vec<DirectiveLocation>,
    /// Its declared arguments.
    pub args: Vec<(String, InputValue)>,
}

/// One schema type definition.
#[derive(Debug)]
pub enum Type {
    /// A scalar with its validity predicate.
    Scalar {
        /// The type's name.
        name: String,
        /// A human-readable description.
        description: Option<&'static str>,
        /// The validity predicate.
        kind: ScalarKind,
    },
    /// An object type.
    Object {
        /// The type's name.
        name: String,
        /// A human-readable description.
        description: Option<&'static str>,
        /// The declared fields, by name, in declaration order.
        fields: Vec<(String, Field)>,
        /// The type's cache-control hint.
        cache_control: CacheControl,
        /// Federation: the type extends one owned by another service.
        extends: bool,
        /// Federation: the declared key field sets.
        keys: Option<Vec<String>>,
    },
    /// An interface type.
    Interface {
        /// The type's name.
        name: String,
        /// A human-readable description.
        description: Option<&'static str>,
        /// The declared fields, by name, in declaration order.
        fields: Vec<(String, Field)>,
        /// The object type names that may stand behind it.
        possible_types: Vec<String>,
        /// Federation: the type extends one owned by another service.
        extends: bool,
        /// Federation: the declared key field sets.
        keys: Option<Vec<String>>,
    },
    /// A union type.
    Union {
        /// The type's name.
        name: String,
        /// A human-readable description.
        description: Option<&'static str>,
        /// The object type names that may stand behind it.
        possible_types: Vec<String>,
    },
    /// An enumeration type.
    Enum {
        /// The type's name.
        name: String,
        /// A human-readable description.
        description: Option<&'static str>,
        /// The declared values, by name.
        enum_values: Vec<(String, EnumValue)>,
    },
    /// An input-object type.
    InputObject {
        /// The type's name.
        name: String,
        /// A human-readable description.
        description: Option<&'static str>,
        /// The declared input fields, by name, in declaration order.
        input_fields: Vec<(String, InputValue)>,
    },
}

impl Type {
    /// The type's declared name.
    pub open spec fn spec_name(self) -> Seq<char> {
        match self {
            Type::Scalar { name, .. } => name@,
            Type::Object { name, .. } => name@,
            Type::Interface { name, .. } => name@,
            Type::Union { name, .. } => name@,
            Type::Enum { name, .. } => name@,
            Type::InputObject { name, .. } => name@,
        }
    }

    /// The field table of an object or interface.
    pub open spec fn spec_fields(self) -> Option<Seq<(String, Field)>> {
        match self {
            Type::Object { fields, .. } => Some(fields@),
            Type::Interface { fields, .. } => Some(fields@),
            _ => None,
        }
    }

    /// The possible-type names of an interface or union.
    pub open spec fn spec_possible_types(self) -> Option<Seq<String>> {
        match self {
            Type::Interface { possible_types, .. } => Some(possible_types@),
            Type::Union { possible_types, .. } => Some(possible_types@),
            _ => None,
        }
    }

    /// Whether the type is a composite: an object, interface or union.
    pub open spec fn spec_is_composite(self) -> bool {
        self is Object || self is Interface || self is Union
    }

    /// Whether the type is abstract: an interface or union.
    pub open spec fn spec_is_abstract(self) -> bool {
        self is Interface || self is Union
    }

    /// Whether the type is a leaf: an enumeration or scalar.
    pub open spec fn spec_is_leaf(self) -> bool {
        self is Enum || self is Scalar
    }

    /// Whether the type may appear in input position.
    pub open spec fn spec_is_input(self) -> bool {
        self is Enum || self is Scalar || self is InputObject
    }

    /// Whether an object of name `n` may stand behind this type.
    pub open spec fn spec_is_possible_type(self, n: Seq<char>) -> bool {
        match self {
            Type::Interface { possible_types, .. } => names_contain(possible_types@, n),
            Type::Union { possible_types, .. } => names_contain(possible_types@, n),
            Type::Object { name, .. } => name@ == n,
            _ => false,
        }
    }

    /// Whether two types can describe one runtime value: they are the same
    /// type, or one is abstract and the other lies in its possible set, or
    /// both are abstract and their possible sets intersect.
    pub open spec fn spec_overlap(self, other: Type) -> bool {
        if self.spec_name() == other.spec_name() {
            true
        } else {
            match (self.spec_is_abstract(), other.spec_is_abstract()) {
                (true, true) => exists|i: int|
                    0 <= i < self.spec_possible_types()->0.len() && other.spec_is_possible_type(
                        (#[trigger] self.spec_possible_types()->0[i])@,
                    ),
                (true, false) => self.spec_is_possible_type(other.spec_name()),
                (false, true) => other.spec_is_possible_type(self.spec_name()),
                (false, false) => false,
            }
        }
    }

    /// Looks a declared field up by name.
    pub fn field_by_name(&self, name: &str) -> (r: Option<&Field>)
        ensures
            match self.spec_fields() {
                Some(fs) => match r {
                    Some(f) => assoc_get(fs, name@) == Some(*f),
                    None => assoc_get(fs, name@) is None,
                },
                None => r is None,
            },
    {
        match self.fields() {
            Some(fields) => crate::table::assoc_find(fields, name),
            None => None,
        }
    }

    /// The field table of an object or interface.
    pub fn fields(&self) -> (r: Option<&Vec<(String, Field)>>)
        ensures
            match r {
                Some(fs) => self.spec_fields() == Some(fs@),
                None => self.spec_fields() is None,
            },
    {
        match self {
            Type::Object { fields, .. } => Some(fields),
            Type::Interface { fields, .. } => Some(fields),
            _ => None,
        }
    }

    /// The type's declared name.
    pub fn name(&self) -> (r: &str)
        ensures
            r@ == self.spec_name(),
    {
        match self {
            Type::Scalar { name, .. } => name.as_str(),
            Type::Object { name, .. } => name.as_str(),
            Type::Interface { name, .. } => name.as_str(),
            Type::Union { name, .. } => name.as_str(),
            Type::Enum { name, .. } => name.as_str(),
            Type::InputObject { name, .. } => name.as_str(),
        }
    }

    /// Whether the type is a composite: an object, interface or union.
    pub fn is_composite(&self) -> (r: bool)
        ensures
            r == self.spec_is_composite(),
    {
        matches!(self, Type::Object { .. } | Type::Interface { .. } | Type::Union { .. })
    }

    /// Whether the type is abstract: an interface or union.
    pub fn is_abstract(&self) -> (r: bool)
        ensures
            r == self.spec_is_abstract(),
    {
        matches!(self, Type::Interface { .. } | Type::Union { .. })
    }

    /// Whether the type is a leaf: an enumeration or scalar.
    pub fn is_leaf(&self) -> (r: bool)
        ensures
            r == self.spec_is_leaf(),
    {
        matches!(self, Type::Enum { .. } | Type::Scalar { .. })
    }

    /// Whether the type may appear in input position.
    pub fn is_input(&self) -> (r: bool)
        ensures
            r == self.spec_is_input(),
    {
        matches!(self, Type::Enum { .. } | Type::Scalar { .. } | Type::InputObject { .. })
    }

    /// Whether an object named `n` may stand behind this type.
    pub fn is_possible_type(&self, n: &str) -> (r: bool)
        ensures
            r == self.spec_is_possible_type(n@),
    {
        match self {
            Type::Interface { possible_types, .. } => names_find(possible_types, n),
            Type::Union { possible_types, .. } => names_find(possible_types, n),
            Type::Object { name, .. } => str_eq(name.as_str(), n),
            _ => false,
        }
    }

    /// The possible-type names of an interface or union.
    pub fn possible_types(&self) -> (r: Option<&Vec<String>>)
        ensures
            match r {
                Some(p) => self.spec_possible_types() == Some(p@),
                None => self.spec_possible_types() is None,
            },
    {
        match self {
            Type::Interface { possible_types, .. } => Some(possible_types),
            Type::Union { possible_types, .. } => Some(possible_types),
            _ => None,
        }
    }

    /// Whether two types can describe one runtime value.
    pub fn type_overlap(&self, ty: &Type) -> (r: bool)
        ensures
            r == self.spec_overlap(*ty),
    {
        if str_eq(self.name(), ty.name()) {
            return true;
        }
        match (self.is_abstract(), ty.is_abstract()) {
            (true, true) => {
                let possible = self.possible_types().unwrap();
                let n = possible.len();
                let mut i: usize = 0;
                while i < n
                    invariant
                        n == possible@.len(),
                        i <= n,
                        self.spec_possible_types() == Some(possible@),
                        forall|j: int|
                            0 <= j < i ==> !ty.spec_is_possible_type(
                                (#[trigger] possible@[j])@,
                            ),
                    decreases n - i,
                {
                    if ty.is_possible_type(possible[i].as_str()) {
                        proof {
                            assert(ty.spec_is_possible_type(
                                (self.spec_possible_types()->0[i as int])@,
                            ));
                        }
                        return true;
                    }
                    i = i + 1;
                }
                false
            },
            (true, false) => self.is_possible_type(ty.name()),
            (false, true) => ty.is_possible_type(self.name()),
            (false, false) => false,
        }
    }
}

/// The whole schema catalog: types, directives, the implements relation and
/// the root operation type names, with insertion order preserved.
pub struct Registry {
    /// The declared types, keyed by name, in registration order.
    pub types: Vec<(String, Type)>,
    /// The declared directives, keyed by name.
    pub directives: Vec<(String, Directive)>,
    /// The implements relation: type name to the interfaces it implements.
    pub implements: Vec<(String, Vec<String>)>,
    /// The query root's type name.
    pub query_type: String,
    /// The mutation root's type name, if one is declared.
    pub mutation_type: Option<String>,
    /// The subscription root's type name, if one is declared.
    pub subscription_type: Option<String>,
}

/// The stand-in a type's name maps to while its real definition is still
/// being built: an empty object under an empty name.
pub open spec fn is_placeholder(t: Type) -> bool {
    match t {
        Type::Object { name, description, fields, cache_control, extends, keys } => name@
            == Seq::<char>::empty() && description is None && fields@ == Seq::<(
            String,
            Field,
        )>::empty() && cache_control == (CacheControl { public: true, max_age: 0 }) && extends
            == false && keys is None,
        _ => false,
    }
}

/// Two registries that differ at most in their type table.
pub open spec fn same_but_types(a: Registry, b: Registry) -> bool {
    a.directives == b.directives && a.implements == b.implements && a.query_type == b.query_type
        && a.mutation_type == b.mutation_type && a.subscription_type == b.subscription_type
}

/// Two registries that differ at most in their implements relation.
pub open spec fn same_but_implements(a: Registry, b: Registry) -> bool {
    a.types == b.types && a.directives == b.directives && a.query_type == b.query_type
        && a.mutation_type == b.mutation_type && a.subscription_type == b.subscription_type
}

/// The `keys` table of an object or interface, as character sequences;
/// empty for a type that can carry none.
pub open spec fn keys_of(t: Type) -> Seq<Seq<char>> {
    match t {
        Type::Object { keys: Some(ks), .. } => strs_view(ks@),
        Type::Interface { keys: Some(ks), .. } => strs_view(ks@),
        _ => Seq::empty(),
    }
}

/// The second type equals the first with one key field set appended, all
/// other parts unchanged; only objects and interfaces can carry keys.
pub open spec fn same_but_keys(t1: Type, t2: Type, k: Seq<char>) -> bool {
    match (t1, t2) {
        (
            Type::Object { name: n1, description: d1, fields: f1, cache_control: c1, extends: x1, keys: _ },
            Type::Object { name: n2, description: d2, fields: f2, cache_control: c2, extends: x2, keys: k2 },
        ) => n2 == n1 && d2 == d1 && f2 == f1 && c2 == c1 && x2 == x1 && k2 is Some && keys_of(t2)
            == keys_of(t1).push(k),
        (
            Type::Interface { name: n1, description: d1, fields: f1, possible_types: p1, extends: x1, keys: _ },
            Type::Interface { name: n2, description: d2, fields: f2, possible_types: p2, extends: x2, keys: k2 },
        ) => n2 == n1 && d2 == d1 && f2 == f1 && p2 == p1 && x2 == x1 && k2 is Some && keys_of(t2)
            == keys_of(t1).push(k),
        _ => false,
    }
}

impl Registry {
    /// Registers a type under `name` once: a second registration of the
    /// same name is a no-op.
    pub fn create_type(&mut self, name: &str, ty: Type)
        ensures
            same_but_types(*final(self), *old(self)),
            assoc_contains(old(self).types@, name@) ==> final(self).types@ == old(self).types@,
            !assoc_contains(old(self).types@, name@) ==> final(self).types@.len() == old(self).types@.len() + 1 && final(self).types@.subrange(0, old(self).types@.len() as int)
                == old(self).types@ && final(self).types@.last().0@ == name@ && final(self).types@.last().1 == ty,
            assoc_get(final(self).types@, name@) is Some,
    {
        if !crate::table::assoc_has(&self.types, name) {
            let ghost before = self.types@;
            self.types.push((name.to_owned(), ty));
            proof {
                assert(final(self).types@.subrange(0, before.len() as int) =~= before);
                crate::table::lemma_assoc_get_push(
                    before,
                    name@,
                    final(self).types@.last(),
                );
                assert(final(self).types@ == before.push(final(self).types@.last()));
            }
        }
    }

    /// First half of the two-phase registration that handles mutually
    /// recursive types: if `name` is absent, a placeholder is put under it
    /// so that nested registrations find a non-missing entry. Yields whether
    /// the name was fresh; only then must `create_type_end` follow.
    pub fn create_type_begin(&mut self, name: &str) -> (fresh: bool)
        ensures
            same_but_types(*final(self), *old(self)),
            fresh == !assoc_contains(old(self).types@, name@),
            !fresh ==> final(self).types@ == old(self).types@,
            fresh ==> final(self).types@.len() == old(self).types@.len() + 1 && final(self).types@.subrange(0, old(self).types@.len() as int) == old(self).types@ && final(self).types@.last().0@ == name@ && is_placeholder(final(self).types@.last().1),
    {
        if crate::table::assoc_has(&self.types, name) {
            false
        } else {
            let ghost before = self.types@;
            self.types.push(
                (
                    name.to_owned(),
                    Type::Object {
                        name: String::new(),
                        description: None,
                        fields: Vec::new(),
                        cache_control: CacheControl { public: true, max_age: 0 },
                        extends: false,
                        keys: None,
                    },
                ),
            );
            proof {
                assert(final(self).types@.subrange(0, before.len() as int) =~= before);
            }
            true
        }
    }

    /// Second half of the two-phase registration: replaces what `name` maps
    /// to (the placeholder) by the real definition, or appends it if the
    /// name is absent.
    pub fn create_type_end(&mut self, name: &str, ty: Type)
        ensures
            same_but_types(*final(self), *old(self)),
            assoc_get(final(self).types@, name@) == Some(ty),
            forall|k: Seq<char>|
                k != name@ ==> assoc_get(final(self).types@, k) == assoc_get(
                    old(self).types@,
                    k,
                ),
            assoc_contains(old(self).types@, name@) ==> exists|i: int|
                0 <= i < old(self).types@.len() && (#[trigger] old(self).types@[i]).0@ == name@
                    && (forall|j: int| 0 <= j < i ==> (#[trigger] old(self).types@[j]).0@ != name@)
                    && final(self).types@ == old(self).types@.update(
                    i,
                    (old(self).types@[i].0, ty),
                ),
            !assoc_contains(old(self).types@, name@) ==> final(self).types@.len() == old(self).types@.len() + 1 && final(self).types@.subrange(0, old(self).types@.len() as int)
                == old(self).types@ && final(self).types@.last().0@ == name@ && final(self).types@.last().1 == ty,
    {
        let ghost before = self.types@;
        match assoc_index(&self.types, name) {
            Some(i) => {
                let mut entry = self.types.remove(i);
                entry.1 = ty;
                self.types.insert(i, entry);
                proof {
                    assert(final(self).types@ =~= before.update(
                        i as int,
                        (before[i as int].0, ty),
                    ));
                    crate::table::lemma_assoc_get_update(
                        before,
                        i as int,
                        (before[i as int].0, ty),
                        name@,
                    );
                    assert forall|k: Seq<char>| k != name@ implies assoc_get(
                        final(self).types@,
                        k,
                    ) == assoc_get(before, k) by {
                        crate::table::lemma_assoc_get_update(
                            before,
                            i as int,
                            (before[i as int].0, ty),
                            k,
                        );
                    }
                }
            },
            None => {
                self.types.push((name.to_owned(), ty));
                proof {
                    assert(final(self).types@.subrange(0, before.len() as int) =~= before);
                    assert(final(self).types@ == before.push(final(self).types@.last()));
                    crate::table::lemma_assoc_get_push(before, name@, final(self).types@.last());
                    assert forall|k: Seq<char>| k != name@ implies assoc_get(
                        final(self).types@,
                        k,
                    ) == assoc_get(before, k) by {
                        crate::table::lemma_assoc_get_push(
                            before,
                            k,
                            final(self).types@.last(),
                        );
                    }
                }
            },
        }
    }

    /// Adds or replaces a directive declaration, keyed by its name.
    pub fn add_directive(&mut self, directive: Directive)
        ensures
            final(self).types == old(self).types,
            final(self).implements == old(self).implements,
            final(self).query_type == old(self).query_type,
            final(self).mutation_type == old(self).mutation_type,
            final(self).subscription_type == old(self).subscription_type,
            assoc_get(final(self).directives@, directive.name@) == Some(directive),
            forall|k: Seq<char>|
                k != directive.name@ ==> assoc_get(final(self).directives@, k) == assoc_get(
                    old(self).directives@,
                    k,
                ),
    {
        let ghost before = self.directives@;
        let key: &'static str = directive.name;
        match assoc_index(&self.directives, key) {
            Some(i) => {
                let mut entry = self.directives.remove(i);
                entry.1 = directive;
                self.directives.insert(i, entry);
                proof {
                    assert(final(self).directives@ =~= before.update(
                        i as int,
                        (before[i as int].0, final(self).directives@[i as int].1),
                    ));
                    crate::table::lemma_assoc_get_update(
                        before,
                        i as int,
                        final(self).directives@[i as int],
                        key@,
                    );
                    assert forall|k: Seq<char>| k != key@ implies assoc_get(
                        final(self).directives@,
                        k,
                    ) == assoc_get(before, k) by {
                        crate::table::lemma_assoc_get_update(
                            before,
                            i as int,
                            final(self).directives@[i as int],
                            k,
                        );
                    }
                }
            },
            None => {
                self.directives.push((key.to_owned(), directive));
                proof {
                    assert(final(self).directives@.subrange(0, before.len() as int) =~= before);
                    assert(final(self).directives@ == before.push(final(self).directives@.last()));
                    crate::table::lemma_assoc_get_push(
                        before,
                        key@,
                        final(self).directives@.last(),
                    );
                    assert forall|k: Seq<char>| k != key@ implies assoc_get(
                        final(self).directives@,
                        k,
                    ) == assoc_get(before, k) by {
                        crate::table::lemma_assoc_get_push(
                            before,
                            k,
                            final(self).directives@.last(),
                        );
                    }
                }
            },
        }
    }

    /// Records that `ty` implements `interface`; the interface set of a
    /// type holds each name once.
    pub fn add_implements(&mut self, ty: &str, interface: &str)
        ensures
            same_but_implements(*final(self), *old(self)),
            ({
                let news = assoc_get(final(self).implements@, ty@);
                let olds = assoc_get(old(self).implements@, ty@);
                news is Some && strs_view(news->0@) == match olds {
                    Some(v) => if names_contain(v@, interface@) {
                        strs_view(v@)
                    } else {
                        strs_view(v@).push(interface@)
                    },
                    None => seq![interface@],
                }
            }),
            forall|k: Seq<char>|
                k != ty@ ==> assoc_get(final(self).implements@, k) == assoc_get(
                    old(self).implements@,
                    k,
                ),
    {
        let ghost before = self.implements@;
        match assoc_index(&self.implements, ty) {
            Some(i) => {
                let mut entry = self.implements.remove(i);
                if !names_find(&entry.1, interface) {
                    entry.1.push(interface.to_owned());
                    proof {
                        assert(strs_view(entry.1@) =~= strs_view(before[i as int].1@).push(
                            interface@,
                        ));
                    }
                }
                self.implements.insert(i, entry);
                proof {
                    let e = final(self).implements@[i as int];
                    assert(final(self).implements@ =~= before.update(i as int, e));
                    crate::table::lemma_assoc_get_update(before, i as int, e, ty@);
                    assert forall|k: Seq<char>| k != ty@ implies assoc_get(
                        final(self).implements@,
                        k,
                    ) == assoc_get(before, k) by {
                        crate::table::lemma_assoc_get_update(before, i as int, e, k);
                    }
                }
            },
            None => {
                let mut interfaces: Vec<String> = Vec::new();
                interfaces.push(interface.to_owned());
                proof {
                    assert(strs_view(interfaces@) =~= seq![interface@]);
                }
                self.implements.push((ty.to_owned(), interfaces));
                proof {
                    crate::table::lemma_assoc_get_push(
                        before,
                        ty@,
                        final(self).implements@.last(),
                    );
                    assert(final(self).implements@ == before.push(final(self).implements@.last()));
                    assert forall|k: Seq<char>| k != ty@ implies assoc_get(
                        final(self).implements@,
                        k,
                    ) == assoc_get(before, k) by {
                        crate::table::lemma_assoc_get_push(
                            before,
                            k,
                            final(self).implements@.last(),
                        );
                    }
                }
            },
        }
    }

    /// Appends a key field set to an object or interface named `ty`; any
    /// other target leaves the registry unchanged.
    pub fn add_keys(&mut self, ty: &str, keys: &str)
        ensures
            same_but_types(*final(self), *old(self)),
            ({
                let told = assoc_get(old(self).types@, ty@);
                if told is Some && (told->0 is Object || told->0 is Interface) {
                    exists|i: int|
                        0 <= i < old(self).types@.len() && (#[trigger] old(self).types@[i]).0@
                            == ty@ && (forall|j: int|
                            0 <= j < i ==> (#[trigger] old(self).types@[j]).0@ != ty@) && final(self).types@ == old(self).types@.update(
                            i,
                            (old(self).types@[i].0, final(self).types@[i].1),
                        ) && same_but_keys(old(self).types@[i].1, final(self).types@[i].1, keys@)
                } else {
                    final(self).types@ == old(self).types@
                }
            }),
    {
        let ghost before = self.types@;
        let i = match assoc_index(&self.types, ty) {
            Some(i) => i,
            None => {
                return ;
            },
        };
        let is_keyed = match &self.types[i].1 {
            Type::Object { .. } => true,
            Type::Interface { .. } => true,
            _ => false,
        };
        if !is_keyed {
            return ;
        }
        let mut entry = self.types.remove(i);
        let new_ty = match entry.1 {
            Type::Object { name, description, fields, cache_control, extends, keys: old_keys } => {
                let mut all_keys = match old_keys {
                    Some(ks) => ks,
                    None => Vec::new(),
                };
                all_keys.push(keys.to_owned());
                Type::Object {
                    name,
                    description,
                    fields,
                    cache_control,
                    extends,
                    keys: Some(all_keys),
                }
            },
            Type::Interface {
                name,
                description,
                fields,
                possible_types,
                extends,
                keys: old_keys,
            } => {
                let mut all_keys = match old_keys {
                    Some(ks) => ks,
                    None => Vec::new(),
                };
                all_keys.push(keys.to_owned());
                Type::Interface {
                    name,
                    description,
                    fields,
                    possible_types,
                    extends,
                    keys: Some(all_keys),
                }
            },
            other => other,
        };
        entry.1 = new_ty;
        self.types.insert(i, entry);
        proof {
            assert(keys_of(final(self).types@[i as int].1) =~= keys_of(before[i as int].1).push(
                keys@,
            ));
            assert(final(self).types@ =~= before.update(
                i as int,
                (before[i as int].0, final(self).types@[i as int].1),
            ));
        }
    }

    /// Whether a stored input-value descriptor is sound: its type reference
    /// is legal and resolves to a declared type.
    pub open spec fn iv_wf(types: Seq<(String, Type)>, iv: InputValue) -> bool {
        legal_ref(iv.ty@) && assoc_contains(types, concrete_of(iv.ty@))
    }

    /// Whether one type entry is sound: the field types of an input object
    /// are legal and resolve.
    pub open spec fn type_entry_wf(types: Seq<(String, Type)>, t: Type) -> bool {
        match t {
            Type::InputObject { input_fields, .. } => forall|j: int|
                0 <= j < input_fields@.len() ==> Self::iv_wf(
                    types,
                    (#[trigger] input_fields@[j]).1,
                ),
            _ => true,
        }
    }

    /// Type names are globally unique in the catalog.
    pub open spec fn names_unique(types: Seq<(String, Type)>) -> bool {
        forall|i: int, j: int|
            0 <= i < j < types.len() ==> (#[trigger] types[i]).0@ != (#[trigger] types[j]).0@
    }

    /// A well-formed registry: type names are globally unique, and every
    /// input-object field's type reference is legal and resolves to a
    /// declared type, so that validation never runs off the catalog.
    pub open spec fn wf(self) -> bool {
        &&& Self::names_unique(self.types@)
        &&& forall|i: int|
            0 <= i < self.types@.len() ==> Self::type_entry_wf(
                self.types@,
                (#[trigger] self.types@[i]).1,
            )
    }

    /// Checks well-formedness of the whole catalog.
    #[verifier::loop_isolation(false)]
    pub fn check_wf(&self) -> (b: bool)
        ensures
            b == self.wf(),
    {
        let n = self.types.len();
        let mut a: usize = 0;
        while a < n
            invariant
                n == self.types@.len(),
                a <= n,
                forall|i: int, j: int|
                    0 <= i < j < a ==> (#[trigger] self.types@[i]).0@ != (
                    #[trigger] self.types@[j]).0@,
            decreases n - a,
        {
            let mut b: usize = 0;
            while b < a
                invariant
                    b <= a,
                    a < n,
                    forall|j: int|
                        0 <= j < b ==> (#[trigger] self.types@[j]).0@ != self.types@[a as int].0@,
                decreases a - b,
            {
                if str_eq(self.types[b].0.as_str(), self.types[a].0.as_str()) {
                    proof {
                        assert(!Self::names_unique(self.types@));
                    }
                    return false;
                }
                b = b + 1;
            }
            proof {
                assert forall|i: int, j: int| 0 <= i < j < a + 1 implies (
                #[trigger] self.types@[i]).0@ != (#[trigger] self.types@[j]).0@ by {
                    if j == a as int {
                        assert(self.types@[i].0@ != self.types@[a as int].0@);
                    }
                }
            }
            a = a + 1;
        }
        let mut i: usize = 0;
        while i < n
            invariant
                n == self.types@.len(),
                i <= n,
                forall|k: int|
                    0 <= k < i ==> Self::type_entry_wf(
                        self.types@,
                        (#[trigger] self.types@[k]).1,
                    ),
            decreases n - i,
        {
            match &self.types[i].1 {
                Type::InputObject { input_fields, .. } => {
                    let m = input_fields.len();
                    let mut j: usize = 0;
                    while j < m
                        invariant
                            m == input_fields@.len(),
                            j <= m,
                            self.types@[i as int].1 is InputObject,
                            self.types@[i as int].1->InputObject_input_fields@ == input_fields@,
                            forall|l: int|
                                0 <= l < j ==> Self::iv_wf(
                                    self.types@,
                                    (#[trigger] input_fields@[l]).1,
                                ),
                        decreases m - j,
                    {
                        let iv = &input_fields[j].1;
                        if !crate::typeref::is_legal_ref(iv.ty.as_str()) {
                            proof {
                                assert(!Self::iv_wf(self.types@, input_fields@[j as int].1));
                                assert(!Self::type_entry_wf(
                                    self.types@,
                                    self.types@[i as int].1,
                                ));
                            }
                            return false;
                        }
                        let concrete = TypeName::concrete_typename(iv.ty.as_str());
                        if !crate::table::assoc_has(&self.types, concrete) {
                            proof {
                                assert(!Self::iv_wf(self.types@, input_fields@[j as int].1));
                                assert(!Self::type_entry_wf(
                                    self.types@,
                                    self.types@[i as int].1,
                                ));
                            }
                            return false;
                        }
                        j = j + 1;
                    }
                    proof {
                        assert(Self::type_entry_wf(self.types@, self.types@[i as int].1));
                    }
                },
                _ => {
                    proof {
                        assert(Self::type_entry_wf(self.types@, self.types@[i as int].1));
                    }
                },
            }
            i = i + 1;
        }
        true
    }

    /// Resolves a raw or wrapped type-reference string to its concrete
    /// declared type.
    pub fn concrete_type_by_name(&self, reference: &str) -> (r: Option<&Type>)
        requires
            legal_ref(reference@),
        ensures
            match r {
                Some(t) => assoc_get(self.types@, concrete_of(reference@)) == Some(*t),
                None => assoc_get(self.types@, concrete_of(reference@)) is None,
            },
    {
        let concrete = TypeName::concrete_typename(reference);
        crate::table::assoc_find(&self.types, concrete)
    }

    /// Resolves a parsed type reference to its concrete declared type.
    pub fn concrete_type_by_parsed_type(&self, query_type: &ParsedType) -> (r: Option<&Type>)
        ensures
            match r {
                Some(t) => assoc_get(self.types@, parsed_concrete(*query_type)) == Some(*t),
                None => assoc_get(self.types@, parsed_concrete(*query_type)) is None,
            },
        decreases *query_type,
    {
        match query_type {
            ParsedType::NonNull(inner) => self.concrete_type_by_parsed_type(inner),
            ParsedType::List(inner) => self.concrete_type_by_parsed_type(inner),
            ParsedType::Named(name) => crate::table::assoc_find(&self.types, name.as_str()),
        }
    }
}

} // verus!
