use graphql_core::ast::{
    Directive, FragmentDefinition, Selection, SelectionField, SelectionSet,
};
use graphql_core::cache::CacheControl;
use graphql_core::error::{GqlError, Pos, QueryError};
use graphql_core::registry::{Field, Registry, Type};
use graphql_core::resolve::{
    do_resolve, is_skip, join_completions, ContextSelectionSet, ObjectType, ResolveContext,
};
use graphql_core::value::Value;

fn pos(line: u64, column: u64) -> Pos {
    Pos { line, column }
}

fn field(name: &str) -> Selection {
    Selection::Field(SelectionField {
        alias: None,
        name: name.to_string(),
        arguments: Vec::new(),
        directives: Vec::new(),
        selection_set: SelectionSet { items: Vec::new(), pos: pos(0, 0) },
        pos: pos(1, 1),
    })
}

fn aliased_field(alias: &str, name: &str) -> Selection {
    Selection::Field(SelectionField {
        alias: Some(alias.to_string()),
        name: name.to_string(),
        arguments: Vec::new(),
        directives: Vec::new(),
        selection_set: SelectionSet { items: Vec::new(), pos: pos(0, 0) },
        pos: pos(1, 1),
    })
}

fn field_with_directive(name: &str, directive: &str, flag: Value) -> Selection {
    Selection::Field(SelectionField {
        alias: None,
        name: name.to_string(),
        arguments: Vec::new(),
        directives: vec![Directive {
            name: directive.to_string(),
            arguments: vec![("if".to_string(), flag)],
            pos: pos(1, 1),
        }],
        selection_set: SelectionSet { items: Vec::new(), pos: pos(0, 0) },
        pos: pos(1, 1),
    })
}

fn empty_registry() -> Registry {
    Registry {
        types: Vec::new(),
        directives: Vec::new(),
        implements: Vec::new(),
        query_type: "Query".to_string(),
        mutation_type: None,
        subscription_type: None,
    }
}

fn int_field(name: &str) -> (String, Field) {
    (
        name.to_string(),
        Field {
            name: name.to_string(),
            description: None,
            args: Vec::new(),
            ty: "Int".to_string(),
            deprecation: None,
            cache_control: CacheControl::default(),
            external: false,
            requires_fields: None,
            provides_fields: None,
        },
    )
}

fn object_type(name: &str, fields: Vec<(String, Field)>) -> (String, Type) {
    (
        name.to_string(),
        Type::Object {
            name: name.to_string(),
            description: None,
            fields,
            cache_control: CacheControl::default(),
            extends: false,
            keys: None,
        },
    )
}

/// A catalog declaring the fields the test roots expose.
fn test_registry() -> Registry {
    Registry {
        types: vec![
            object_type(
                "Query",
                vec![int_field("a"), int_field("b"), int_field("c"), int_field("obj")],
            ),
            object_type("MyObj", vec![int_field("value")]),
            object_type("EmptySubscription", vec![int_field("values")]),
        ],
        directives: Vec::new(),
        implements: Vec::new(),
        query_type: "Query".to_string(),
        mutation_type: None,
        subscription_type: None,
    }
}

/// A root exposing integer fields `a`, `b`, `c`.
struct QueryRoot;

impl ObjectType for QueryRoot {
    fn introspection_type_name(&self) -> String {
        "Query".to_string()
    }

    fn narrow_matches(&self, condition: &str) -> bool {
        condition == "Query"
    }

    fn resolve_field(
        &self,
        field: &SelectionField,
        _ctx: &ResolveContext<'_>,
    ) -> Result<Value, GqlError> {
        match field.name.as_str() {
            "a" => Ok(Value::Int(1)),
            "b" => Ok(Value::Int(2)),
            "c" => Ok(Value::Int(3)),
            other => Err(GqlError {
                pos: field.pos,
                err: QueryError::FieldNotFound {
                    field_name: other.to_string(),
                    object: "Query".to_string(),
                },
            }),
        }
    }
}

/// A root whose normal field resolution always fails.
struct AlwaysErr;

impl ObjectType for AlwaysErr {
    fn introspection_type_name(&self) -> String {
        "Grumpy".to_string()
    }

    fn narrow_matches(&self, _condition: &str) -> bool {
        false
    }

    fn resolve_field(
        &self,
        field: &SelectionField,
        _ctx: &ResolveContext<'_>,
    ) -> Result<Value, GqlError> {
        Err(GqlError {
            pos: field.pos,
            err: QueryError::FieldError { err: "always failing".to_string() },
        })
    }
}

fn run(
    registry: &Registry,
    fragments: &Vec<(String, FragmentDefinition)>,
    variables: &Vec<(String, Value)>,
    items: &Vec<Selection>,
    root: &impl ObjectType,
) -> Result<Value, GqlError> {
    let ctx = ContextSelectionSet { registry, fragments, variables, items, pos: pos(1, 0) };
    do_resolve(&ctx, root)
}

fn object(fields: Vec<(&str, Value)>) -> Value {
    Value::Object(fields.into_iter().map(|(k, v)| (k.to_string(), v)).collect())
}

#[test]
fn keys_in_declaration_order() {
    let reg = test_registry();
    let items = vec![field("a"), field("b"), field("c")];
    let out = run(&reg, &Vec::new(), &Vec::new(), &items, &QueryRoot).unwrap();
    assert_eq!(
        out,
        object(vec![("a", Value::Int(1)), ("b", Value::Int(2)), ("c", Value::Int(3))])
    );
}

#[test]
fn alias_becomes_result_key() {
    let reg = test_registry();
    let items = vec![aliased_field("x", "a"), field("b")];
    let out = run(&reg, &Vec::new(), &Vec::new(), &items, &QueryRoot).unwrap();
    assert_eq!(out, object(vec![("x", Value::Int(1)), ("b", Value::Int(2))]));
}

#[test]
fn empty_selection_fails() {
    let reg = empty_registry();
    let items = Vec::new();
    let err = run(&reg, &Vec::new(), &Vec::new(), &items, &QueryRoot).unwrap_err();
    assert_eq!(
        err,
        GqlError {
            pos: pos(1, 0),
            err: QueryError::EmptySelection { object: "Query".to_string() },
        }
    );
}

#[test]
fn typename_bypasses_field_resolution() {
    // The root's resolver always errors, yet `{ __typename }` succeeds.
    let reg = empty_registry();
    let items = vec![field("__typename")];
    let out = run(&reg, &Vec::new(), &Vec::new(), &items, &AlwaysErr).unwrap();
    assert_eq!(out, object(vec![("__typename", Value::Text("Grumpy".to_string()))]));
}

#[test]
fn resolver_error_aborts() {
    let reg = test_registry();
    let items = vec![field("a"), field("b")];
    // The root's resolver fails on everything; the engine surfaces it.
    let err = run(&reg, &Vec::new(), &Vec::new(), &items, &PickyRoot).unwrap_err();
    assert_eq!(err.err, QueryError::FieldError { err: "b refused".to_string() });
}

#[test]
fn undeclared_field_fails_statically() {
    // The field is looked up on the static parent type before the resolver
    // runs: "nope" is undeclared on Query, so the engine itself fails, even
    // though the resolver never gets asked.
    let reg = test_registry();
    let items = vec![field("a"), field("nope")];
    let err = run(&reg, &Vec::new(), &Vec::new(), &items, &QueryRoot).unwrap_err();
    assert_eq!(
        err,
        GqlError {
            pos: pos(1, 1),
            err: QueryError::FieldNotFound {
                field_name: "nope".to_string(),
                object: "Query".to_string(),
            },
        }
    );
}

/// A root that resolves `a` but refuses `b`.
struct PickyRoot;

impl ObjectType for PickyRoot {
    fn introspection_type_name(&self) -> String {
        "Query".to_string()
    }

    fn narrow_matches(&self, condition: &str) -> bool {
        condition == "Query"
    }

    fn resolve_field(
        &self,
        field: &SelectionField,
        _ctx: &ResolveContext<'_>,
    ) -> Result<Value, GqlError> {
        match field.name.as_str() {
            "a" => Ok(Value::Int(1)),
            other => Err(GqlError {
                pos: field.pos,
                err: QueryError::FieldError { err: format!("{} refused", other) },
            }),
        }
    }
}

#[test]
fn fragment_flattening_preserves_order() {
    // { ...F } with fragment F { a b } equals writing { a b } inline.
    let reg = test_registry();
    let fragments = vec![(
        "F".to_string(),
        FragmentDefinition {
            name: "F".to_string(),
            type_condition: "Query".to_string(),
            selection_set: SelectionSet { items: vec![field("a"), field("b")], pos: pos(2, 1) },
            pos: pos(2, 1),
        },
    )];
    let spread = vec![Selection::FragmentSpread(graphql_core::ast::FragmentSpread {
        fragment_name: "F".to_string(),
        directives: Vec::new(),
        pos: pos(1, 3),
    })];
    let inline = vec![field("a"), field("b")];
    let via_spread = run(&reg, &fragments, &Vec::new(), &spread, &QueryRoot).unwrap();
    let via_inline = run(&reg, &fragments, &Vec::new(), &inline, &QueryRoot).unwrap();
    assert_eq!(via_spread, via_inline);
    assert_eq!(
        via_spread,
        object(vec![("a", Value::Int(1)), ("b", Value::Int(2))])
    );
}

#[test]
fn unknown_fragment_fails() {
    let reg = empty_registry();
    let spread = vec![Selection::FragmentSpread(graphql_core::ast::FragmentSpread {
        fragment_name: "Missing".to_string(),
        directives: Vec::new(),
        pos: pos(1, 3),
    })];
    let err = run(&reg, &Vec::new(), &Vec::new(), &spread, &QueryRoot).unwrap_err();
    assert_eq!(
        err,
        GqlError {
            pos: pos(1, 3),
            err: QueryError::UnknownFragment { name: "Missing".to_string() },
        }
    );
}

#[test]
fn cyclic_fragment_fails() {
    let reg = empty_registry();
    let spread_f = Selection::FragmentSpread(graphql_core::ast::FragmentSpread {
        fragment_name: "F".to_string(),
        directives: Vec::new(),
        pos: pos(2, 5),
    });
    let fragments = vec![(
        "F".to_string(),
        FragmentDefinition {
            name: "F".to_string(),
            type_condition: "Query".to_string(),
            selection_set: SelectionSet { items: vec![spread_f], pos: pos(2, 1) },
            pos: pos(2, 1),
        },
    )];
    let spread = vec![Selection::FragmentSpread(graphql_core::ast::FragmentSpread {
        fragment_name: "F".to_string(),
        directives: Vec::new(),
        pos: pos(1, 3),
    })];
    let err = run(&reg, &fragments, &Vec::new(), &spread, &QueryRoot).unwrap_err();
    assert!(matches!(err.err, QueryError::FragmentCycle { .. }));
}

#[test]
fn inline_fragment_narrows() {
    let reg = test_registry();
    let matching = Selection::InlineFragment(graphql_core::ast::InlineFragment {
        type_condition: Some("Query".to_string()),
        directives: Vec::new(),
        selection_set: SelectionSet { items: vec![field("a")], pos: pos(1, 5) },
        pos: pos(1, 3),
    });
    let other = Selection::InlineFragment(graphql_core::ast::InlineFragment {
        type_condition: Some("Other".to_string()),
        directives: Vec::new(),
        selection_set: SelectionSet { items: vec![field("c")], pos: pos(1, 9) },
        pos: pos(1, 7),
    });
    let items = vec![matching, other, field("b")];
    let out = run(&reg, &Vec::new(), &Vec::new(), &items, &QueryRoot).unwrap();
    // The non-matching narrowing yields zero tasks, not an error.
    assert_eq!(out, object(vec![("a", Value::Int(1)), ("b", Value::Int(2))]));
}

#[test]
fn skip_directive_rules_fields_out() {
    let reg = test_registry();
    let items = vec![
        field_with_directive("a", "skip", Value::Boolean(true)),
        field_with_directive("b", "skip", Value::Boolean(false)),
        field_with_directive("c", "include", Value::Boolean(false)),
    ];
    let out = run(&reg, &Vec::new(), &Vec::new(), &items, &QueryRoot).unwrap();
    assert_eq!(out, object(vec![("b", Value::Int(2))]));
}

#[test]
fn skip_directive_reads_variables() {
    let variables = vec![
        ("yes".to_string(), Value::Boolean(true)),
        ("no".to_string(), Value::Boolean(false)),
    ];
    let d_skip = vec![Directive {
        name: "skip".to_string(),
        arguments: vec![("if".to_string(), Value::Variable("yes".to_string()))],
        pos: pos(1, 1),
    }];
    let d_keep = vec![Directive {
        name: "include".to_string(),
        arguments: vec![("if".to_string(), Value::Variable("no".to_string()))],
        pos: pos(1, 1),
    }];
    assert!(is_skip(&d_skip, &variables));
    assert!(is_skip(&d_keep, &variables));
    // A missing variable carries no flag: the application is ignored.
    let d_missing = vec![Directive {
        name: "skip".to_string(),
        arguments: vec![("if".to_string(), Value::Variable("gone".to_string()))],
        pos: pos(1, 1),
    }];
    assert!(!is_skip(&d_missing, &variables));
}

#[test]
fn join_preserves_declaration_order() {
    // Completion order 2, 0, 1; the output is arranged by task index.
    let completions: Vec<(usize, Result<Value, GqlError>)> = vec![
        (2, Ok(Value::Int(30))),
        (0, Ok(Value::Int(10))),
        (1, Ok(Value::Int(20))),
    ];
    let vals = join_completions(3, completions).unwrap();
    assert_eq!(vals, vec![Value::Int(10), Value::Int(20), Value::Int(30)]);

    // A different completion arrangement of the same outcomes joins to the
    // same output.
    let completions2: Vec<(usize, Result<Value, GqlError>)> = vec![
        (1, Ok(Value::Int(20))),
        (2, Ok(Value::Int(30))),
        (0, Ok(Value::Int(10))),
    ];
    let vals2 = join_completions(3, completions2).unwrap();
    assert_eq!(vals2, vec![Value::Int(10), Value::Int(20), Value::Int(30)]);
}

#[test]
fn join_fails_fast() {
    // fastErr completes first; slowOk's completion is never observed: the
    // entries after the first error do not change the outcome.
    let fast_err = GqlError {
        pos: pos(1, 12),
        err: QueryError::FieldError { err: "fastErr".to_string() },
    };
    let c1: Vec<(usize, Result<Value, GqlError>)> = vec![
        (1, Err(fast_err.clone())),
        (0, Ok(Value::Int(1))),
    ];
    let c2: Vec<(usize, Result<Value, GqlError>)> = vec![
        (1, Err(fast_err.clone())),
        (0, Ok(Value::Int(999))),
    ];
    assert_eq!(join_completions(2, c1).unwrap_err(), fast_err);
    assert_eq!(join_completions(2, c2).unwrap_err(), fast_err);
}

#[test]
fn empty_subscription_is_not_configured() {
    let reg = test_registry();
    let items = vec![field("values")];
    let err = run(
        &reg,
        &Vec::new(),
        &Vec::new(),
        &items,
        &graphql_core::types::EmptySubscription,
    )
    .unwrap_err();
    assert_eq!(err.err, QueryError::NotConfiguredSubscriptions);
}

#[test]
fn nested_object_field_resolves_its_own_selection() {
    // A root whose `obj` field is an object with a `value` field: the
    // resolver runs the engine recursively over the field's own selection.
    struct Outer;
    struct Inner;

    impl ObjectType for Inner {
        fn introspection_type_name(&self) -> String {
            "MyObj".to_string()
        }

        fn narrow_matches(&self, condition: &str) -> bool {
            condition == "MyObj"
        }

        fn resolve_field(
            &self,
            field: &SelectionField,
            _ctx: &ResolveContext<'_>,
        ) -> Result<Value, GqlError> {
            match field.name.as_str() {
                "value" => Ok(Value::Int(99)),
                other => Err(GqlError {
                    pos: field.pos,
                    err: QueryError::FieldNotFound {
                        field_name: other.to_string(),
                        object: "MyObj".to_string(),
                    },
                }),
            }
        }
    }

    impl ObjectType for Outer {
        fn introspection_type_name(&self) -> String {
            "Query".to_string()
        }

        fn narrow_matches(&self, condition: &str) -> bool {
            condition == "Query"
        }

        fn resolve_field(
            &self,
            field: &SelectionField,
            ctx: &ResolveContext<'_>,
        ) -> Result<Value, GqlError> {
            match field.name.as_str() {
                "obj" => {
                    let child = ContextSelectionSet {
                        registry: ctx.registry,
                        fragments: ctx.fragments,
                        variables: ctx.variables,
                        items: &field.selection_set.items,
                        pos: field.selection_set.pos,
                    };
                    do_resolve(&child, &Inner)
                },
                other => Err(GqlError {
                    pos: field.pos,
                    err: QueryError::FieldNotFound {
                        field_name: other.to_string(),
                        object: "Query".to_string(),
                    },
                }),
            }
        }
    }

    let reg = test_registry();
    let obj_field = Selection::Field(SelectionField {
        alias: None,
        name: "obj".to_string(),
        arguments: Vec::new(),
        directives: Vec::new(),
        selection_set: SelectionSet { items: vec![field("value")], pos: pos(1, 8) },
        pos: pos(1, 3),
    });
    let items = vec![obj_field];
    let out = run(&reg, &Vec::new(), &Vec::new(), &items, &Outer).unwrap();
    assert_eq!(out, object(vec![("obj", object(vec![("value", Value::Int(99))]))]));
}
