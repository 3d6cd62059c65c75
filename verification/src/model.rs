//! The introspection view of one type: a registry-backed handle that
//! classifies a type-reference layer as a named declaration, a list wrapper
//! or a non-null wrapper.

use vstd::prelude::*;
use crate::registry::{Registry, Type};
use crate::table::{assoc_contains, assoc_get, assoc_find};
use crate::typeref::{parse_ref, RefShape, TypeName};

verus! {

/// The kind of a type as introspection reports it.
#[derive(Clone, Copy, PartialEq, Eq, Structural, Debug)]
pub enum TypeKind {
    /// A scalar type.
    Scalar,
    /// An object type.
    Object,
    /// An interface type.
    Interface,
    /// A union type.
    Union,
    /// An enumeration type.
    Enum,
    /// An input-object type.
    InputObject,
    /// A list wrapper.
    List,
    /// A non-null wrapper.
    NonNull,
}

enum TypeDetail<'a> {
    Named(&'a Type),
    NonNull(String),
    List(String),
}

/// One introspected type: a declared type, or a wrapper layer over an inner
/// reference text.
pub struct __Type<'a> {
    registry: &'a Registry,
    detail: TypeDetail<'a>,
}

impl<'a> __Type<'a> {
    /// Whether this handle wraps the given declared type.
    pub closed spec fn is_named(self, t: Type) -> bool {
        self.detail matches TypeDetail::Named(n) && *n == t
    }

    /// Whether this handle is a non-null wrapper over the given inner text.
    pub closed spec fn is_non_null_over(self, inner: Seq<char>) -> bool {
        self.detail matches TypeDetail::NonNull(s) && s@ == inner
    }

    /// Whether this handle is a list wrapper over the given inner text.
    pub closed spec fn is_list_over(self, inner: Seq<char>) -> bool {
        self.detail matches TypeDetail::List(s) && s@ == inner
    }

    /// Wraps one declared type.
    pub fn new_simple(registry: &'a Registry, ty: &'a Type) -> (r: __Type<'a>)
        ensures
            r.is_named(*ty),
    {
        __Type { registry, detail: TypeDetail::Named(ty) }
    }

    /// Parses one layer of a reference string against the registry: a
    /// wrapper layer keeps its inner text, the named form resolves to its
    /// declared type.
    pub fn new(registry: &'a Registry, reference: &str) -> (r: __Type<'a>)
        requires
            parse_ref(reference@) is Named ==> assoc_contains(registry.types@, reference@),
        ensures
            match parse_ref(reference@) {
                RefShape::NonNull(t) => r.is_non_null_over(t),
                RefShape::List(t) => r.is_list_over(t),
                RefShape::Named(t) => r.is_named(assoc_get(registry.types@, reference@)->0),
            },
    {
        match TypeName::create(reference) {
            TypeName::NonNull(ty) => __Type { registry, detail: TypeDetail::NonNull(ty.to_owned()) },
            TypeName::List(ty) => __Type { registry, detail: TypeDetail::List(ty.to_owned()) },
            TypeName::Named(ty) => {
                let t = match assoc_find(&registry.types, ty) {
                    Some(t) => t,
                    None => {
                        proof {
                            assert(false);
                        }
                        unreached()
                    },
                };
                __Type { registry, detail: TypeDetail::Named(t) }
            },
        }
    }

    /// The kind of this type layer.
    pub fn kind(&self) -> (r: TypeKind)
        ensures
            forall|t: Type| self.is_named(t) ==> r == match t {
                Type::Scalar { .. } => TypeKind::Scalar,
                Type::Object { .. } => TypeKind::Object,
                Type::Interface { .. } => TypeKind::Interface,
                Type::Union { .. } => TypeKind::Union,
                Type::Enum { .. } => TypeKind::Enum,
                Type::InputObject { .. } => TypeKind::InputObject,
            },
            forall|s: Seq<char>| self.is_non_null_over(s) ==> r == TypeKind::NonNull,
            forall|s: Seq<char>| self.is_list_over(s) ==> r == TypeKind::List,
    {
        match &self.detail {
            TypeDetail::Named(ty) => match ty {
                Type::Scalar { .. } => TypeKind::Scalar,
                Type::Object { .. } => TypeKind::Object,
                Type::Interface { .. } => TypeKind::Interface,
                Type::Union { .. } => TypeKind::Union,
                Type::Enum { .. } => TypeKind::Enum,
                Type::InputObject { .. } => TypeKind::InputObject,
            },
            TypeDetail::NonNull(_) => TypeKind::NonNull,
            TypeDetail::List(_) => TypeKind::List,
        }
    }

    /// The declared name of a named layer; a wrapper layer has none.
    pub fn name(&self) -> (r: Option<String>)
        ensures
            forall|t: Type| self.is_named(t) ==> (r matches Some(n) && n@ == t.spec_name()),
            forall|s: Seq<char>| self.is_non_null_over(s) ==> r is None,
            forall|s: Seq<char>| self.is_list_over(s) ==> r is None,
    {
        match &self.detail {
            TypeDetail::Named(ty) => Some(ty.name().to_owned()),
            TypeDetail::NonNull(_) => None,
            TypeDetail::List(_) => None,
        }
    }

    /// The human-readable description of a named layer; a wrapper layer has
    /// none.
    pub fn description(&self) -> (r: Option<&'static str>)
        ensures
            forall|t: Type|
                self.is_named(t) ==> r == match t {
                    Type::Scalar { description, .. } => description,
                    Type::Object { description, .. } => description,
                    Type::Interface { description, .. } => description,
                    Type::Union { description, .. } => description,
                    Type::Enum { description, .. } => description,
                    Type::InputObject { description, .. } => description,
                },
            forall|s: Seq<char>| self.is_non_null_over(s) ==> r is None,
            forall|s: Seq<char>| self.is_list_over(s) ==> r is None,
    {
        match &self.detail {
            TypeDetail::Named(ty) => match ty {
                Type::Scalar { description, .. } => *description,
                Type::Object { description, .. } => *description,
                Type::Interface { description, .. } => *description,
                Type::Union { description, .. } => *description,
                Type::Enum { description, .. } => *description,
                Type::InputObject { description, .. } => *description,
            },
            TypeDetail::NonNull(_) => None,
            TypeDetail::List(_) => None,
        }
    }

    /// The inner layer of a wrapper; a named layer has none. The inner
    /// reference of a wrapper must itself resolve when it bottoms out at a
    /// name.
    pub fn of_type(&self) -> (r: Option<__Type<'a>>)
        requires
            forall|s: Seq<char>|
                (self.is_non_null_over(s) || self.is_list_over(s)) && parse_ref(s) is Named
                    ==> assoc_contains(self.spec_registry().types@, s),
        ensures
            forall|t: Type| self.is_named(t) ==> r is None,
            forall|s: Seq<char>|
                self.is_non_null_over(s) || self.is_list_over(s) ==> r is Some,
    {
        match &self.detail {
            TypeDetail::List(ty) => {
                proof {
                    assert(self.is_list_over(ty@));
                }
                Some(__Type::new(self.registry, ty.as_str()))
            },
            TypeDetail::NonNull(ty) => {
                proof {
                    assert(self.is_non_null_over(ty@));
                }
                Some(__Type::new(self.registry, ty.as_str()))
            },
            TypeDetail::Named(_) => None,
        }
    }

    /// The registry this handle reads.
    pub closed spec fn spec_registry(self) -> Registry {
        *self.registry
    }
}

} // verus!
