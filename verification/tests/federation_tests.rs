use graphql_core::ast::{OperationBody, OperationDefinition, SelectionSet};
use graphql_core::federation::{entities_value, entity_target};
use graphql_core::value::Value;
use graphql_core::cache::CacheControl;
use graphql_core::error::Pos;
use graphql_core::model::{TypeKind, __Type};
use graphql_core::registry::{Field, Registry, ScalarKind, Type};
use graphql_core::typeref::ParsedType;
use graphql_core::types::EmptySubscription;

fn simple_field(name: &str, ty: &str) -> (String, Field) {
    (
        name.to_string(),
        Field {
            name: name.to_string(),
            description: None,
            args: Vec::new(),
            ty: ty.to_string(),
            deprecation: None,
            cache_control: CacheControl::default(),
            external: false,
            requires_fields: None,
            provides_fields: None,
        },
    )
}

fn object(name: &str, fields: Vec<(String, Field)>, keys: Option<Vec<String>>) -> (String, Type) {
    (
        name.to_string(),
        Type::Object {
            name: name.to_string(),
            description: None,
            fields,
            cache_control: CacheControl::default(),
            extends: false,
            keys,
        },
    )
}

fn keyed_registry() -> Registry {
    Registry {
        types: vec![
            object("Query", vec![simple_field("product", "Product")], None),
            object(
                "Product",
                vec![simple_field("id", "String")],
                Some(vec!["id".to_string()]),
            ),
        ],
        directives: Vec::new(),
        implements: Vec::new(),
        query_type: "Query".to_string(),
        mutation_type: None,
        subscription_type: None,
    }
}

#[test]
fn sdl_contains_key_markers() {
    let reg = keyed_registry();
    let sdl = reg.create_federation_sdl();
    assert!(sdl.contains("type Product @key(fields: \"id\") {"));
    assert!(sdl.contains("\tid: String\n"));
    assert_eq!(
        sdl,
        "type Query {\n\tproduct: Product\n}\ntype Product @key(fields: \"id\") {\n\tid: String\n}\n"
    );
}

#[test]
fn sdl_field_markers() {
    let mut f = simple_field("sku", "String");
    f.1.external = true;
    f.1.requires_fields = Some("id");
    f.1.provides_fields = Some("name");
    let reg = Registry {
        types: vec![object("Thing", vec![f], None)],
        directives: Vec::new(),
        implements: Vec::new(),
        query_type: "Query".to_string(),
        mutation_type: None,
        subscription_type: None,
    };
    let sdl = reg.create_federation_sdl();
    assert_eq!(
        sdl,
        "type Thing {\n\tsku: String @external @requires(fields: \"id\") @provides(fields: \"name\")\n}\n"
    );
}

#[test]
fn sdl_interface_and_extend_forms() {
    let iface = (
        "Animal".to_string(),
        Type::Interface {
            name: "Animal".to_string(),
            description: None,
            fields: vec![simple_field("id", "ID"), simple_field("__hidden", "Int")],
            possible_types: vec!["Dog".to_string()],
            extends: false,
            keys: Some(vec!["id".to_string()]),
        },
    );
    let mut dog = object("Dog", vec![simple_field("id", "ID")], None);
    if let Type::Object { extends, .. } = &mut dog.1 {
        *extends = true;
    }
    let reg = Registry {
        types: vec![iface, dog],
        directives: Vec::new(),
        implements: Vec::new(),
        query_type: "Query".to_string(),
        mutation_type: None,
        subscription_type: None,
    };
    // The introspection-prefixed field stays out of the block.
    assert_eq!(
        reg.create_federation_sdl(),
        "interface Animal @key(fields: \"id\") {\n\tid: ID\n}\nextend type Dog {\n\tid: ID\n}\n"
    );
}

#[test]
fn federation_types_synthesized_for_keyed_schema() {
    let mut reg = keyed_registry();
    reg.create_federation_types();

    let entity = reg.concrete_type_by_name("_Entity").unwrap();
    match entity {
        Type::Union { name, possible_types, .. } => {
            assert_eq!(name, "_Entity");
            assert_eq!(possible_types, &vec!["Product".to_string()]);
        },
        _ => panic!("expected a union"),
    }

    let service = reg.concrete_type_by_name("_Service").unwrap();
    match service {
        Type::Object { name, fields, .. } => {
            assert_eq!(name, "_Service");
            assert_eq!(fields.len(), 1);
            assert_eq!(fields[0].0, "sdl");
            assert_eq!(fields[0].1.ty, "String");
        },
        _ => panic!("expected an object"),
    }

    let root = reg.concrete_type_by_name("Query").unwrap();
    let svc = root.field_by_name("_service").unwrap();
    assert_eq!(svc.ty, "_Service!");
    let ents = root.field_by_name("_entities").unwrap();
    assert_eq!(ents.ty, "[_Entity]!");
    assert_eq!(ents.args.len(), 1);
    assert_eq!(ents.args[0].1.ty, "[_Any!]!");
}

#[test]
fn federation_types_skipped_without_keys() {
    // A schema with zero keyed types gets no federation machinery at all.
    let mut reg = Registry {
        types: vec![object("Query", vec![simple_field("a", "Int")], None)],
        directives: Vec::new(),
        implements: Vec::new(),
        query_type: "Query".to_string(),
        mutation_type: None,
        subscription_type: None,
    };
    reg.create_federation_types();
    assert_eq!(reg.types.len(), 1);
    assert!(reg.concrete_type_by_name("_Service").is_none());
    assert!(reg.concrete_type_by_name("_Entity").is_none());
    let root = reg.concrete_type_by_name("Query").unwrap();
    assert!(root.field_by_name("_service").is_none());
    assert!(root.field_by_name("_entities").is_none());
}

#[test]
fn sdl_skips_reserved_names_and_bare_root() {
    let mut reg = keyed_registry();
    reg.create_federation_types();
    let sdl = reg.create_federation_sdl();
    // The synthetic types and injected fields stay out of the SDL.
    assert!(!sdl.contains("_Service"));
    assert!(!sdl.contains("_entities"));
    assert!(sdl.contains("type Product"));

    // A root carrying exactly the four reserved fields projects to nothing.
    let bare = Registry {
        types: vec![object(
            "Query",
            vec![
                simple_field("__schema", "__Schema"),
                simple_field("__type", "__Type"),
                simple_field("_service", "_Service!"),
                simple_field("_entities", "[_Entity]!"),
            ],
            None,
        )],
        directives: Vec::new(),
        implements: Vec::new(),
        query_type: "Query".to_string(),
        mutation_type: None,
        subscription_type: None,
    };
    assert_eq!(bare.create_federation_sdl(), "");
}

#[test]
fn registry_create_type_is_idempotent() {
    let mut reg = Registry {
        types: Vec::new(),
        directives: Vec::new(),
        implements: Vec::new(),
        query_type: "Query".to_string(),
        mutation_type: None,
        subscription_type: None,
    };
    reg.create_type(
        "Int",
        Type::Scalar { name: "Int".to_string(), description: None, kind: ScalarKind::IntScalar },
    );
    reg.create_type(
        "Int",
        Type::Scalar { name: "Int2".to_string(), description: None, kind: ScalarKind::AnyScalar },
    );
    assert_eq!(reg.types.len(), 1);
    assert_eq!(reg.concrete_type_by_name("Int").unwrap().name(), "Int");
}

#[test]
fn registry_two_phase_registration() {
    let mut reg = Registry {
        types: Vec::new(),
        directives: Vec::new(),
        implements: Vec::new(),
        query_type: "Query".to_string(),
        mutation_type: None,
        subscription_type: None,
    };
    // Begin inserts a placeholder so recursive lookups find the name.
    assert!(reg.create_type_begin("Node"));
    assert!(reg.concrete_type_by_name("Node").is_some());
    assert_eq!(reg.concrete_type_by_name("Node").unwrap().name(), "");
    // End replaces the placeholder by the real definition.
    reg.create_type_end(
        "Node",
        Type::Object {
            name: "Node".to_string(),
            description: None,
            fields: vec![simple_field("self_ref", "Node")],
            cache_control: CacheControl::default(),
            extends: false,
            keys: None,
        },
    );
    assert_eq!(reg.types.len(), 1);
    assert_eq!(reg.concrete_type_by_name("Node").unwrap().name(), "Node");
    // A second begin for the same name is a no-op.
    assert!(!reg.create_type_begin("Node"));
    assert_eq!(reg.concrete_type_by_name("Node").unwrap().name(), "Node");
}

#[test]
fn implements_and_keys_tables() {
    let mut reg = keyed_registry();
    reg.add_implements("Product", "Node");
    reg.add_implements("Product", "Node");
    reg.add_implements("Product", "Entity");
    assert_eq!(reg.implements.len(), 1);
    assert_eq!(reg.implements[0].1, vec!["Node".to_string(), "Entity".to_string()]);

    reg.add_keys("Product", "sku");
    match reg.concrete_type_by_name("Product").unwrap() {
        Type::Object { keys: Some(ks), .. } => {
            assert_eq!(ks, &vec!["id".to_string(), "sku".to_string()]);
        },
        _ => panic!("expected keyed object"),
    }
    // Keys on a non-object target are silently ignored.
    let before = reg.types.len();
    reg.add_keys("Missing", "x");
    assert_eq!(reg.types.len(), before);
}

#[test]
fn type_predicates_and_overlap() {
    let union_t = Type::Union {
        name: "Pet".to_string(),
        description: None,
        possible_types: vec!["Dog".to_string(), "Cat".to_string()],
    };
    let dog = Type::Object {
        name: "Dog".to_string(),
        description: None,
        fields: Vec::new(),
        cache_control: CacheControl::default(),
        extends: false,
        keys: None,
    };
    let fish = Type::Object {
        name: "Fish".to_string(),
        description: None,
        fields: Vec::new(),
        cache_control: CacheControl::default(),
        extends: false,
        keys: None,
    };
    assert!(union_t.is_composite() && union_t.is_abstract() && !union_t.is_leaf());
    assert!(dog.is_composite() && !dog.is_abstract());
    assert!(union_t.is_possible_type("Dog"));
    assert!(!union_t.is_possible_type("Fish"));
    assert!(union_t.type_overlap(&dog));
    assert!(dog.type_overlap(&union_t));
    assert!(!union_t.type_overlap(&fish));
    assert!(!dog.type_overlap(&fish));
    assert!(dog.type_overlap(&dog));
    let iface = Type::Interface {
        name: "Animal".to_string(),
        description: None,
        fields: Vec::new(),
        possible_types: vec!["Cat".to_string()],
        extends: false,
        keys: None,
    };
    // Two abstract types overlap when their possible sets intersect.
    assert!(union_t.type_overlap(&iface));
}

#[test]
fn introspection_type_layers() {
    let reg = keyed_registry();
    let direct = __Type::new(&reg, "Product");
    assert_eq!(direct.kind(), TypeKind::Object);
    assert_eq!(direct.name(), Some("Product".to_string()));

    let wrapped = __Type::new(&reg, "[Product]!");
    assert_eq!(wrapped.kind(), TypeKind::NonNull);
    assert_eq!(wrapped.name(), None);
    let inner = wrapped.of_type().unwrap();
    assert_eq!(inner.kind(), TypeKind::List);
    let innermost = inner.of_type().unwrap();
    assert_eq!(innermost.kind(), TypeKind::Object);
    assert_eq!(innermost.name(), Some("Product".to_string()));
    assert!(innermost.of_type().is_none());

    let simple = __Type::new_simple(&reg, reg.concrete_type_by_name("Product").unwrap());
    assert_eq!(simple.kind(), TypeKind::Object);
}

#[test]
fn empty_subscription_registers_itself() {
    let mut reg = keyed_registry();
    EmptySubscription::create_type_info(&mut reg);
    // The entry sits under the mutation placeholder's key.
    let t = reg.concrete_type_by_name("EmptyMutation").unwrap();
    assert_eq!(t.name(), "EmptySubscription");
}

#[test]
fn directives_table_replaces_by_name() {
    let mut reg = keyed_registry();
    reg.add_directive(graphql_core::registry::Directive {
        name: "skip",
        description: None,
        locations: vec![graphql_core::registry::DirectiveLocation::FieldUse],
        args: Vec::new(),
    });
    reg.add_directive(graphql_core::registry::Directive {
        name: "skip",
        description: Some("conditional exclusion"),
        locations: vec![graphql_core::registry::DirectiveLocation::FieldUse],
        args: Vec::new(),
    });
    assert_eq!(reg.directives.len(), 1);
    assert_eq!(reg.directives[0].1.description, Some("conditional exclusion"));
}

#[test]
fn parsed_type_resolution() {
    let reg = keyed_registry();
    let parsed = ParsedType::NonNull(Box::new(ParsedType::List(Box::new(ParsedType::Named(
        "Product".to_string(),
    )))));
    assert_eq!(
        reg.concrete_type_by_parsed_type(&parsed).unwrap().name(),
        "Product"
    );
    let missing = ParsedType::Named("Ghost".to_string());
    assert!(reg.concrete_type_by_parsed_type(&missing).is_none());
}

#[test]
fn four_ordinary_fields_stay_in_sdl() {
    // Only the bare reserved root is skipped; an ordinary object with four
    // fields keeps its block.
    let reg = Registry {
        types: vec![object(
            "Wide",
            vec![
                simple_field("a", "Int"),
                simple_field("b", "Int"),
                simple_field("c", "Int"),
                simple_field("d", "Int"),
            ],
            None,
        )],
        directives: Vec::new(),
        implements: Vec::new(),
        query_type: "Query".to_string(),
        mutation_type: None,
        subscription_type: None,
    };
    assert_eq!(
        reg.create_federation_sdl(),
        "type Wide {\n\ta: Int\n\tb: Int\n\tc: Int\n\td: Int\n}\n"
    );
}

#[test]
fn entity_dispatch() {
    let reg = keyed_registry();

    let rep = Value::Object(vec![
        ("__typename".to_string(), Value::Text("Product".to_string())),
        ("id".to_string(), Value::Text("p1".to_string())),
    ]);
    let target = entity_target(&reg, &rep).unwrap();
    assert_eq!(target.name(), "Product");

    // An unknown typename, an unkeyed type, and a representation without a
    // typename all fail per-item.
    let unknown = Value::Object(vec![(
        "__typename".to_string(),
        Value::Text("Ghost".to_string()),
    )]);
    assert!(entity_target(&reg, &unknown).is_err());
    let unkeyed = Value::Object(vec![(
        "__typename".to_string(),
        Value::Text("Query".to_string()),
    )]);
    assert!(entity_target(&reg, &unkeyed).is_err());
    assert!(entity_target(&reg, &Value::Int(1)).is_err());

    // Per-item failures surface as nulls inside the list, not as a
    // whole-request failure.
    let items = vec![
        Ok(Value::Int(1)),
        Err(graphql_core::error::GqlError {
            pos: Pos { line: 0, column: 0 },
            err: graphql_core::error::QueryError::FieldError { err: "x".to_string() },
        }),
        Ok(Value::Int(3)),
    ];
    assert_eq!(
        entities_value(items),
        Value::List(vec![Value::Int(1), Value::Null, Value::Int(3)])
    );
}

#[test]
fn operation_name_extraction() {
    let sel = SelectionSet { items: Vec::new(), pos: Pos { line: 1, column: 1 } };
    let anon = OperationDefinition::SelectionSet(sel);
    let (name, pos) = graphql_core::ast::operation_name(&anon);
    assert_eq!(name, None);
    assert_eq!(pos, Pos { line: 1, column: 1 });

    let named = OperationDefinition::Query(OperationBody {
        name: Some("Q".to_string()),
        selection_set: SelectionSet { items: Vec::new(), pos: Pos { line: 2, column: 1 } },
        pos: Pos { line: 2, column: 3 },
    });
    let (name, pos) = graphql_core::ast::operation_name(&named);
    assert_eq!(name, Some("Q"));
    assert_eq!(pos, Pos { line: 2, column: 3 });
}
