//! The built-in placeholder root types: an unconfigured subscription root.

use vstd::prelude::*;
use crate::error::{GqlError, QueryError};
use crate::cache::CacheControl;
use crate::registry::{Registry, Type};
use crate::resolve::{ObjectType, ResolveContext};
use crate::table::{assoc_contains, assoc_get};
use crate::value::Value;

verus! {

/// The parameter that builds a schema without subscriptions: every attempt
/// to use it reports that none are configured.
pub struct EmptySubscription;

/// The type the unconfigured subscription root registers: an empty object
/// named `EmptySubscription`.
pub open spec fn is_empty_subscription_type(t: Type) -> bool {
    match t {
        Type::Object { name, description, fields, cache_control, extends, keys } => name@
            == "EmptySubscription"@ && description is None && fields@.len() == 0 && cache_control
            == (CacheControl { public: true, max_age: 0 }) && !extends && keys is None,
        _ => false,
    }
}

impl EmptySubscription {
    /// Registers the type: the entry goes in under the mutation
    /// placeholder's key, carrying the subscription type definition; a
    /// second registration of the key is a no-op.
    pub fn create_type_info(registry: &mut Registry)
        ensures
            crate::registry::same_but_types(*final(registry), *old(registry)),
            assoc_contains(old(registry).types@, "EmptyMutation"@) ==> final(registry).types@
                == old(registry).types@,
            !assoc_contains(old(registry).types@, "EmptyMutation"@) ==> (assoc_get(
                final(registry).types@,
                "EmptyMutation"@,
            ) matches Some(t) && is_empty_subscription_type(t)),
    {
        let ghost t0 = registry.types@;
        registry.create_type(
            "EmptyMutation",
            Type::Object {
                name: "EmptySubscription".to_owned(),
                description: None,
                fields: Vec::new(),
                cache_control: CacheControl { public: true, max_age: 0 },
                extends: false,
                keys: None,
            },
        );
        proof {
            if !assoc_contains(t0, "EmptyMutation"@) {
                assert(registry.types@ =~= t0.push(registry.types@.last()));
                crate::table::lemma_assoc_get_push(
                    t0,
                    "EmptyMutation"@,
                    registry.types@.last(),
                );
                assert(is_empty_subscription_type(registry.types@.last().1));
            }
        }
    }
}

impl ObjectType for EmptySubscription {
    open spec fn type_name_spec(&self) -> Seq<char> {
        "EmptySubscription"@
    }

    open spec fn narrow_spec(&self, condition: Seq<char>) -> bool {
        false
    }

    fn introspection_type_name(&self) -> (r: String) {
        "EmptySubscription".to_owned()
    }

    fn narrow_matches(&self, condition: &str) -> (b: bool) {
        false
    }

    /// An unconfigured subscription cannot resolve anything.
    fn resolve_field(
        &self,
        field: &crate::ast::SelectionField,
        ctx: &ResolveContext<'_>,
    ) -> Result<Value, GqlError> {
        Err(GqlError { pos: field.pos, err: QueryError::NotConfiguredSubscriptions })
    }
}

} // verus!
