use graphql_core::cache::CacheControl;
use graphql_core::strutil::u64_to_dec;
use graphql_core::typeref::TypeName;
use graphql_core::naming::check_reserved_name;
use graphql_core::value::Value;

#[test]
fn round_trip_simple_named() {
    let t = TypeName::create("String");
    assert!(matches!(t, TypeName::Named("String")));
    assert_eq!(t.format(), "String");
}

#[test]
fn round_trip_non_null_list() {
    // The round-trip law on a nested combinator string.
    let s = "[String!]!";
    let t = TypeName::create(s);
    assert!(matches!(t, TypeName::NonNull("[String!]")));
    assert_eq!(t.format(), s);

    let u = TypeName::create("[String!]");
    assert!(matches!(u, TypeName::List("String!")));
    assert_eq!(u.format(), "[String!]");
}

#[test]
fn parse_rejects_malformed() {
    assert_eq!(
        TypeName::parse("[Int").unwrap_err(),
        graphql_core::error::QueryError::MalformedTypeReference { reference: "[Int".to_string() }
    );
    assert!(TypeName::parse("").is_err());
    assert!(TypeName::parse("[").is_err());
    assert!(TypeName::parse("[Int]").is_ok());
    assert!(TypeName::parse("[[Int!]]!").is_ok());
}

#[test]
fn reserved_names_are_rejected() {
    assert_eq!(
        check_reserved_name("UserConnection", false),
        Err("The name ending with 'Connection' is reserved")
    );
    assert_eq!(
        check_reserved_name("PageInfo", false),
        Err("The name 'PageInfo' is reserved")
    );
    assert_eq!(check_reserved_name("User", false), Ok(()));
    assert_eq!(check_reserved_name("Connection", false).is_err(), true);
    // Internal registrations are exempt.
    assert_eq!(check_reserved_name("PageInfo", true), Ok(()));
    assert_eq!(check_reserved_name("UserConnection", true), Ok(()));
}

#[test]
fn concrete_typename_strips_wrappers() {
    assert_eq!(TypeName::concrete_typename("[[Int!]]!"), "Int");
    assert_eq!(TypeName::concrete_typename("Product"), "Product");
    assert_eq!(TypeName::concrete_typename("Product!"), "Product");
}

#[test]
fn subtype_reflexive_and_non_null() {
    // Reflexivity on sample legal forms.
    for s in ["Int", "Int!", "[Int]", "[Int!]!"] {
        let t = TypeName::create(s);
        assert!(t.is_subtype(&t));
    }
    // A non-null value satisfies a nullable expectation, not vice versa.
    let nullable = TypeName::create("Int");
    let non_null = TypeName::create("Int!");
    assert!(nullable.is_subtype(&non_null));
    assert!(!non_null.is_subtype(&nullable));
    // Lists are covariant element-wise.
    let list = TypeName::create("[Int]");
    let list_nn = TypeName::create("[Int!]");
    assert!(list.is_subtype(&list_nn));
    assert!(!list_nn.is_subtype(&list));
    // Distinct names are unrelated.
    let float = TypeName::create("Float");
    assert!(!nullable.is_subtype(&float));
}

#[test]
fn unwrap_and_is_non_null() {
    let t = TypeName::create("Int!");
    assert!(t.is_non_null());
    assert!(matches!(t.unwrap_non_null(), TypeName::Named("Int")));
    let u = TypeName::create("[Int]");
    assert!(!u.is_non_null());
    assert!(matches!(u.unwrap_non_null(), TypeName::List("Int")));
}

#[test]
fn cache_control_merge() {
    // The merge scenario from the cache-control law.
    let mut a = CacheControl { public: true, max_age: 30 };
    let b = CacheControl { public: false, max_age: 60 };
    a.merge(&b);
    assert_eq!(a, CacheControl { public: false, max_age: 30 });

    // Merging with the identity is a no-op.
    let mut c = CacheControl { public: false, max_age: 45 };
    c.merge(&CacheControl::default());
    assert_eq!(c, CacheControl { public: false, max_age: 45 });

    // Commutativity on a sample pair.
    let mut x = CacheControl { public: true, max_age: 10 };
    let mut y = CacheControl { public: false, max_age: 0 };
    let x0 = x;
    let y0 = y;
    x.merge(&y0);
    y.merge(&x0);
    assert_eq!(x, y);
}

#[test]
fn cache_control_header_value() {
    assert_eq!(CacheControl { public: true, max_age: 0 }.value(), None);
    assert_eq!(
        CacheControl { public: true, max_age: 60 }.value(),
        Some("max-age=60".to_string())
    );
    assert_eq!(
        CacheControl { public: false, max_age: 30 }.value(),
        Some("max-age=30, private".to_string())
    );
}

#[test]
fn decimal_rendering() {
    assert_eq!(u64_to_dec(0), "0");
    assert_eq!(u64_to_dec(7), "7");
    assert_eq!(u64_to_dec(12345), "12345");
    assert_eq!(u64_to_dec(u64::MAX), "18446744073709551615");
}

#[test]
fn value_clone_is_deep() {
    let v = Value::Object(vec![
        ("a".to_string(), Value::List(vec![Value::Int(1), Value::Null])),
        ("b".to_string(), Value::Text("x".to_string())),
    ]);
    let w = v.clone();
    assert_eq!(v, w);
}
