use forgeconf::schema::{
    field_kind, field_spec, is_option_type, is_scalar_type, FieldOptions, SchemaError,
};
use forgeconf::{FieldKind, Shape};

#[test]
fn scalar_types_are_the_primitives_strings_and_lists() {
    for name in [
        "String", "bool", "u8", "u16", "u32", "u64", "u128", "i8", "i16", "i32", "i64", "i128", "isize",
        "usize", "f32", "f64", "char", "Vec",
    ] {
        assert!(is_scalar_type(name), "{name}");
    }
    for name in ["Option", "string", "HttpSettings", "", "Vec<u8>", "str"] {
        assert!(!is_scalar_type(name), "{name}");
    }
    assert!(is_option_type("Option"));
    assert!(!is_option_type("option"));
    assert!(!is_option_type("Vec"));
}

#[test]
fn later_options_take_over_what_they_give() {
    let mut options = FieldOptions::new();
    options.rename = Some("first".into());
    options.env = Some("ENV".into());
    options.insensitive = true;
    options.validators = vec!["a".into()];

    let mut other = FieldOptions::new();
    other.rename = Some("second".into());
    other.cli = Some("cli".into());
    other.default = Some("8080".into());
    other.optional = true;
    other.validators = vec!["b".into(), "c".into()];

    options.merge(other);
    assert_eq!(options.rename.as_deref(), Some("second"));
    assert_eq!(options.env.as_deref(), Some("ENV"));
    assert_eq!(options.cli.as_deref(), Some("cli"));
    assert_eq!(options.default.as_deref(), Some("8080"));
    assert!(options.insensitive);
    assert!(options.optional);
    assert_eq!(options.validators, vec!["a", "b", "c"]);

    options.merge(FieldOptions::new());
    assert_eq!(options.rename.as_deref(), Some("second"));
    assert!(options.insensitive);
    assert!(options.optional);
    assert_eq!(options.validators, vec!["a", "b", "c"]);
}

#[test]
fn optional_fields_need_an_option_and_no_default() {
    let mut options = FieldOptions::new();
    assert_eq!(options.validate("u16"), Ok(()));
    options.default = Some("1".into());
    assert_eq!(options.validate("u16"), Ok(()));
    options.optional = true;
    assert_eq!(options.validate("u16"), Err(SchemaError::OptionalNeedsOption));
    assert_eq!(options.validate("Option"), Err(SchemaError::OptionalWithDefault));
    options.default = None;
    assert_eq!(options.validate("Option"), Ok(()));
    assert_eq!(SchemaError::OptionalNeedsOption.message(), "optional fields must use Option<T>");
    assert_eq!(
        SchemaError::OptionalWithDefault.message(),
        "an optional field cannot declare a default"
    );
}

#[test]
fn kind_goes_by_optional_then_default_then_type() {
    let mut options = FieldOptions::new();
    assert_eq!(field_kind(&options, "u16"), FieldKind::Scalar);
    assert_eq!(field_kind(&options, "Vec"), FieldKind::Scalar);
    assert_eq!(field_kind(&options, "Server"), FieldKind::Nested);
    assert_eq!(field_kind(&options, "Option"), FieldKind::Nested);
    options.default = Some("x".into());
    assert_eq!(field_kind(&options, "Server"), FieldKind::Default);
    options.optional = true;
    assert_eq!(field_kind(&options, "Server"), FieldKind::Optional);
}

#[test]
fn binding_follows_from_the_options() {
    let mut options = FieldOptions::new();
    let spec = field_spec("port", "u16", &options);
    assert_eq!(spec.key, "port");
    assert!(!spec.case_insensitive);
    assert_eq!(spec.env_override, None);
    assert_eq!(spec.cli_override, None);
    assert!(!spec.optional);
    assert_eq!(spec.shape, Shape::Scalar);

    options.rename = Some("PORT".into());
    options.insensitive = true;
    options.env = Some("APP_PORT".into());
    options.cli = Some("port".into());
    options.optional = true;
    let spec = field_spec("port", "Option", &options);
    assert_eq!(spec.key, "PORT");
    assert!(spec.case_insensitive);
    assert_eq!(spec.env_override.as_deref(), Some("APP_PORT"));
    assert_eq!(spec.cli_override.as_deref(), Some("port"));
    assert!(spec.optional);
    assert_eq!(spec.shape, Shape::Record);

    assert_eq!(field_spec("tags", "Vec", &FieldOptions::new()).shape, Shape::Array);
    assert_eq!(field_spec("http", "HttpSettings", &FieldOptions::new()).shape, Shape::Record);
}
