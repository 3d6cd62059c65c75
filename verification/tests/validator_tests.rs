use graphql_core::cache::CacheControl;
use graphql_core::registry::{InputValue, Registry, ScalarKind, Type, ValueCheck};
use graphql_core::validation::{
    is_valid_input_value, referenced_variables, valid_error, write_path, QueryPathNode,
    QueryPathSegment,
};
use graphql_core::value::Value;

fn int_scalar() -> (String, Type) {
    (
        "Int".to_string(),
        Type::Scalar { name: "Int".to_string(), description: None, kind: ScalarKind::IntScalar },
    )
}

fn input_value(name: &'static str, ty: &str, default_value: Option<&'static str>) -> InputValue {
    InputValue { name, description: None, ty: ty.to_string(), default_value, validator: None }
}

fn my_input(fields: Vec<(String, InputValue)>) -> (String, Type) {
    (
        "MyInput".to_string(),
        Type::InputObject {
            name: "MyInput".to_string(),
            description: None,
            input_fields: fields,
        },
    )
}

fn registry_with(types: Vec<(String, Type)>) -> Registry {
    Registry {
        types,
        directives: Vec::new(),
        implements: Vec::new(),
        query_type: "Query".to_string(),
        mutation_type: None,
        subscription_type: None,
    }
}

fn root_path() -> QueryPathNode<'static> {
    QueryPathNode { parent: None, segment: QueryPathSegment::Name("input") }
}

#[test]
fn default_covers_missing_field() {
    // MyInput { value: Int = 100 }: an empty object is fine, the default
    // covers the field.
    let reg = registry_with(vec![
        int_scalar(),
        my_input(vec![("value".to_string(), input_value("value", "Int", Some("100")))]),
    ]);
    assert!(reg.check_wf());
    let v = Value::Object(vec![]);
    assert_eq!(is_valid_input_value(&reg, "MyInput", &v, root_path()), None);
}

#[test]
fn present_field_validates() {
    let reg = registry_with(vec![
        int_scalar(),
        my_input(vec![("value".to_string(), input_value("value", "Int", Some("100")))]),
    ]);
    let v = Value::Object(vec![("value".to_string(), Value::Int(88))]);
    assert_eq!(is_valid_input_value(&reg, "MyInput", &v, root_path()), None);
}

#[test]
fn unknown_field_is_reported() {
    let reg = registry_with(vec![
        int_scalar(),
        my_input(vec![("value".to_string(), input_value("value", "Int", Some("100")))]),
    ]);
    let v = Value::Object(vec![("bogus".to_string(), Value::Int(1))]);
    let msg = is_valid_input_value(&reg, "MyInput", &v, root_path()).unwrap();
    assert!(msg.contains("unknown field \"bogus\""));
    assert!(msg.contains("MyInput"));
}

#[test]
fn non_null_rejects_null() {
    let reg = registry_with(vec![int_scalar()]);
    let msg = is_valid_input_value(&reg, "Int!", &Value::Null, root_path()).unwrap();
    assert_eq!(msg, "\"input\", expected type \"Int\"");
    assert_eq!(is_valid_input_value(&reg, "Int!", &Value::Int(3), root_path()), None);
}

#[test]
fn named_type_accepts_null() {
    let reg = registry_with(vec![int_scalar()]);
    assert_eq!(is_valid_input_value(&reg, "Int", &Value::Null, root_path()), None);
}

#[test]
fn variables_are_always_valid_here() {
    let reg = registry_with(vec![int_scalar()]);
    let v = Value::Variable("x".to_string());
    assert_eq!(is_valid_input_value(&reg, "Int!", &v, root_path()), None);
}

#[test]
fn list_validates_each_element_with_index_path() {
    let reg = registry_with(vec![int_scalar()]);
    let ok = Value::List(vec![Value::Int(1), Value::Int(2)]);
    assert_eq!(is_valid_input_value(&reg, "[Int]", &ok, root_path()), None);
    let bad = Value::List(vec![Value::Int(1), Value::Text("x".to_string())]);
    let msg = is_valid_input_value(&reg, "[Int]", &bad, root_path()).unwrap();
    assert_eq!(msg, "\"input.1\", expected type \"Int\"");
}

#[test]
fn single_value_coerces_to_list() {
    let reg = registry_with(vec![int_scalar()]);
    assert_eq!(is_valid_input_value(&reg, "[Int]", &Value::Int(5), root_path()), None);
    let msg = is_valid_input_value(&reg, "[Int]", &Value::Boolean(true), root_path()).unwrap();
    assert!(msg.contains("expected type \"Int\""));
}

#[test]
fn enum_membership() {
    let color = (
        "Color".to_string(),
        Type::Enum {
            name: "Color".to_string(),
            description: None,
            enum_values: vec![(
                "RED".to_string(),
                graphql_core::registry::EnumValue {
                    name: "RED",
                    description: None,
                    deprecation: None,
                },
            )],
        },
    );
    let reg = registry_with(vec![color]);
    assert_eq!(
        is_valid_input_value(&reg, "Color", &Value::EnumLit("RED".to_string()), root_path()),
        None
    );
    let msg = is_valid_input_value(
        &reg,
        "Color",
        &Value::EnumLit("BLUE".to_string()),
        root_path(),
    )
    .unwrap();
    assert!(msg.contains("enumeration type \"Color\" does not contain the value \"BLUE\""));
    let msg2 = is_valid_input_value(&reg, "Color", &Value::Int(1), root_path()).unwrap();
    assert!(msg2.contains("expected type \"Color\""));
}

#[test]
fn required_field_missing() {
    let reg = registry_with(vec![
        int_scalar(),
        my_input(vec![("value".to_string(), input_value("value", "Int!", None))]),
    ]);
    let msg = is_valid_input_value(&reg, "MyInput", &Value::Object(vec![]), root_path()).unwrap();
    assert!(msg.contains("field \"value\" of type \"MyInput\" is required but not provided"));
}

#[test]
fn attached_check_runs_first() {
    let mut iv = input_value("value", "Int", None);
    iv.validator = Some(ValueCheck::IntRange { min: 0, max: 10 });
    let reg = registry_with(vec![int_scalar(), my_input(vec![("value".to_string(), iv)])]);
    let ok = Value::Object(vec![("value".to_string(), Value::Int(5))]);
    assert_eq!(is_valid_input_value(&reg, "MyInput", &ok, root_path()), None);
    let bad = Value::Object(vec![("value".to_string(), Value::Int(88))]);
    let msg = is_valid_input_value(&reg, "MyInput", &bad, root_path()).unwrap();
    assert_eq!(msg, "\"input.value\", the value is out of the declared range");
}

#[test]
fn list_length_check() {
    let mut iv = input_value("tags", "[Int]", None);
    iv.validator = Some(ValueCheck::ListMaxLength { max: 2 });
    let reg = registry_with(vec![int_scalar(), my_input(vec![("tags".to_string(), iv)])]);
    let ok = Value::Object(vec![(
        "tags".to_string(),
        Value::List(vec![Value::Int(1), Value::Int(2)]),
    )]);
    assert_eq!(is_valid_input_value(&reg, "MyInput", &ok, root_path()), None);
    let bad = Value::Object(vec![(
        "tags".to_string(),
        Value::List(vec![Value::Int(1), Value::Int(2), Value::Int(3)]),
    )]);
    let msg = is_valid_input_value(&reg, "MyInput", &bad, root_path()).unwrap();
    assert!(msg.contains("longer than the declared maximum"));
}

#[test]
fn non_object_rejected_at_input_object() {
    // An input-object type requires an object value: any other non-null,
    // non-variable shape fails.
    let reg = registry_with(vec![
        int_scalar(),
        my_input(vec![("value".to_string(), input_value("value", "Int", Some("100")))]),
    ]);
    let msg = is_valid_input_value(&reg, "MyInput", &Value::Int(7), root_path()).unwrap();
    assert_eq!(msg, "\"input\", expected type \"MyInput\"");
    let msg2 =
        is_valid_input_value(&reg, "MyInput", &Value::Text("x".to_string()), root_path()).unwrap();
    assert!(msg2.contains("expected type \"MyInput\""));
    // Null and variables stay acceptable at this layer.
    assert_eq!(is_valid_input_value(&reg, "MyInput", &Value::Null, root_path()), None);
    assert_eq!(
        is_valid_input_value(
            &reg,
            "MyInput",
            &Value::Variable("v".to_string()),
            root_path()
        ),
        None
    );
}

#[test]
fn duplicate_type_names_fail_wf() {
    let reg = registry_with(vec![int_scalar(), int_scalar()]);
    assert!(!reg.check_wf());
}

#[test]
fn scalar_kinds() {
    let reg = registry_with(vec![
        int_scalar(),
        (
            "Boolean".to_string(),
            Type::Scalar {
                name: "Boolean".to_string(),
                description: None,
                kind: ScalarKind::BooleanScalar,
            },
        ),
    ]);
    assert!(is_valid_input_value(&reg, "Int", &Value::Text("x".to_string()), root_path()).is_some());
    assert_eq!(is_valid_input_value(&reg, "Boolean", &Value::Boolean(false), root_path()), None);
}

#[test]
fn path_trail_formats_with_dots_and_indexes() {
    let root = QueryPathNode { parent: None, segment: QueryPathSegment::Name("a") };
    let mid = QueryPathNode { parent: Some(&root), segment: QueryPathSegment::Name("b") };
    let leaf = QueryPathNode { parent: Some(&mid), segment: QueryPathSegment::Index(1) };
    let mut s = String::new();
    write_path(&leaf, &mut s);
    assert_eq!(s, "a.b.1");
    assert_eq!(valid_error(&leaf, "boom".to_string()), "\"a.b.1\", boom");
}

#[test]
fn referenced_variables_in_traversal_order() {
    let v = Value::Object(vec![
        ("x".to_string(), Value::Variable("one".to_string())),
        (
            "y".to_string(),
            Value::List(vec![
                Value::Variable("two".to_string()),
                Value::Int(3),
                Value::Variable("three".to_string()),
            ]),
        ),
    ]);
    assert_eq!(referenced_variables(&v), vec!["one", "two", "three"]);
    assert_eq!(referenced_variables(&Value::Int(1)), Vec::<&str>::new());
}

#[test]
fn check_wf_flags_bad_references() {
    let reg = registry_with(vec![my_input(vec![(
        "value".to_string(),
        input_value("value", "Missing", None),
    )])]);
    assert!(!reg.check_wf());
    let reg2 = registry_with(vec![my_input(vec![(
        "value".to_string(),
        input_value("value", "[", None),
    )])]);
    assert!(!reg2.check_wf());
    assert!(registry_with(vec![int_scalar()]).check_wf());
}
