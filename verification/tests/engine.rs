use forgeconf::bind::field_kind;
use forgeconf::validators::{max_len, min_len, non_empty};
use forgeconf::{
    bind, bind_checked, bind_record, nest, resolve, Binding, ConfigError, ConfigNode, EnvVar, FieldKind,
    FieldSpec, FromNode, Overrides, Shape, Table,
};

fn scalar(text: &str) -> ConfigNode {
    ConfigNode::Scalar(text.to_string())
}

fn table(fields: &[(&str, ConfigNode)]) -> Table {
    let mut table = Table::new();
    for (key, value) in fields {
        table.insert(key.to_string(), value.clone());
    }
    table
}

fn shown(table: &Table) -> String {
    ConfigNode::Table(table.clone()).to_string()
}

struct Server {
    host: String,
    port: u16,
}

impl FromNode for Server {
    fn from_node(node: &ConfigNode, key: &str) -> Result<Self, ConfigError> {
        let load = |node: &ConfigNode| {
            let mut map = node.to_owned_table()?;
            let none = Overrides::none();
            Ok(Server {
                host: bind(&mut map, &FieldSpec::new("host"), None, &none)?,
                port: bind(&mut map, &FieldSpec::new("port"), None, &none)?,
            })
        };
        nest(key, load(node))
    }
}

fn server_spec() -> FieldSpec {
    FieldSpec { shape: Shape::Record, ..FieldSpec::new("server") }
}

#[test]
fn case_insensitive_field_matches_a_key_in_capitals() {
    let mut map = table(&[("NAME", scalar("svc"))]);
    let spec = FieldSpec { case_insensitive: true, ..FieldSpec::new("name") };
    let name: String = bind(&mut map, &spec, None, &Overrides::none()).unwrap();
    assert_eq!(name, "svc");
    assert!(map.is_empty());
}

#[test]
fn case_sensitive_field_does_not_match_another_case() {
    let mut map = table(&[("NAME", scalar("svc"))]);
    let err = bind::<String>(&mut map, &FieldSpec::new("name"), None, &Overrides::none()).unwrap_err();
    assert!(matches!(err, ConfigError::MissingValue(key) if key == "name"));
    assert_eq!(shown(&map), "{NAME: svc}");
}

#[test]
fn case_insensitive_lookup_takes_the_first_key_in_key_order() {
    let mut map = table(&[("name", scalar("lower")), ("Name", scalar("mixed")), ("NAME", scalar("upper"))]);
    let spec = FieldSpec { case_insensitive: true, ..FieldSpec::new("nAmE") };
    let name: String = bind(&mut map, &spec, None, &Overrides::none()).unwrap();
    assert_eq!(name, "upper");
    assert_eq!(shown(&map), "{Name: mixed, name: lower}");
}

#[test]
fn required_field_without_a_value_is_missing() {
    let mut map = Table::new();
    let err = bind::<u16>(&mut map, &FieldSpec::new("port"), None, &Overrides::none()).unwrap_err();
    assert!(matches!(err, ConfigError::MissingValue(key) if key == "port"));
}

#[test]
fn field_with_a_default_resolves_to_it() {
    let mut map = Table::new();
    let port: u16 = bind(&mut map, &FieldSpec::new("port"), Some(8080), &Overrides::none()).unwrap();
    assert_eq!(port, 8080);
}

#[test]
fn default_is_not_used_where_a_value_is_found() {
    let mut map = table(&[("port", scalar("9"))]);
    let port: u16 = bind(&mut map, &FieldSpec::new("port"), Some(8080), &Overrides::none()).unwrap();
    assert_eq!(port, 9);
    let mut map = table(&[("port", scalar("x"))]);
    assert!(bind::<u16>(&mut map, &FieldSpec::new("port"), Some(8080), &Overrides::none()).is_err());
}

#[test]
fn optional_field_without_a_value_has_none() {
    let mut map = Table::new();
    let spec = FieldSpec { optional: true, ..FieldSpec::new("notes") };
    let notes: Option<String> = bind(&mut map, &spec, None, &Overrides::none()).unwrap();
    assert_eq!(notes, None);
    let mut map = table(&[("notes", ConfigNode::Null)]);
    let notes: Option<String> = bind(&mut map, &spec, None, &Overrides::none()).unwrap();
    assert_eq!(notes, None);
    let mut map = table(&[("notes", scalar("hi"))]);
    let notes: Option<String> = bind(&mut map, &spec, None, &Overrides::none()).unwrap();
    assert_eq!(notes, Some("hi".to_string()));
}

#[test]
fn array_field_from_null_is_empty_and_absent_is_missing() {
    let spec = FieldSpec { shape: Shape::Array, ..FieldSpec::new("tags") };
    let mut map = table(&[("tags", ConfigNode::Null)]);
    let tags: Vec<String> = bind(&mut map, &spec, None, &Overrides::none()).unwrap();
    assert!(tags.is_empty());
    let mut map = Table::new();
    let err = bind::<Vec<String>>(&mut map, &spec, None, &Overrides::none()).unwrap_err();
    assert!(matches!(err, ConfigError::MissingValue(key) if key == "tags"));
}

#[test]
fn scalar_field_that_is_null_is_missing() {
    let mut map = table(&[("port", ConfigNode::Null)]);
    let err = bind::<u16>(&mut map, &FieldSpec::new("port"), None, &Overrides::none()).unwrap_err();
    assert!(matches!(err, ConfigError::MissingValue(key) if key == "port"));
}

#[test]
fn nested_record_falls_back_on_the_whole_table() {
    let mut map = table(&[("host", scalar("h")), ("port", scalar("1"))]);
    let server: Server = bind(&mut map, &server_spec(), None, &Overrides::none()).unwrap();
    assert_eq!(server.host, "h");
    assert_eq!(server.port, 1);
    assert_eq!(shown(&map), "{host: h, port: 1}");
}

#[test]
fn nested_record_reads_its_section_where_there_is_one() {
    let section = table(&[("host", scalar("inner")), ("port", scalar("2"))]);
    let mut map = table(&[("host", scalar("outer")), ("server", ConfigNode::Table(section))]);
    let server: Server = bind(&mut map, &server_spec(), None, &Overrides::none()).unwrap();
    assert_eq!(server.host, "inner");
    assert_eq!(server.port, 2);
    assert_eq!(shown(&map), "{host: outer}");
}

#[test]
fn nested_record_that_is_null_does_not_fall_back() {
    let mut map = table(&[("host", scalar("h")), ("port", scalar("1")), ("server", ConfigNode::Null)]);
    let err = bind::<Server>(&mut map, &server_spec(), None, &Overrides::none()).err().unwrap();
    assert_eq!(
        err.to_string(),
        "nested section 'server' failed: type mismatch for 'root': expected table, found null"
    );
}

#[test]
fn fallback_does_not_see_what_earlier_fields_took() {
    let mut map = table(&[("host", scalar("h")), ("port", scalar("1"))]);
    let none = Overrides::none();
    let port: u16 = bind(&mut map, &FieldSpec::new("port"), None, &none).unwrap();
    assert_eq!(port, 1);
    let err = bind::<Server>(&mut map, &server_spec(), None, &none).err().unwrap();
    assert_eq!(err.to_string(), "nested section 'server' failed: missing value for 'port'");
}

#[test]
fn failure_in_a_nested_record_names_the_section() {
    let section = table(&[("host", scalar("h")), ("port", scalar("x"))]);
    let mut map = table(&[("server", ConfigNode::Table(section))]);
    let err = bind::<Server>(&mut map, &server_spec(), None, &Overrides::none()).err().unwrap();
    assert!(matches!(
        err,
        ConfigError::Nested { section, source }
            if section == "server" && matches!(
                *source,
                ConfigError::TypeMismatch { ref field, ref expected, ref found }
                    if field == "port" && expected == "u16" && found == "x"
            )
    ));
}

#[test]
fn first_failing_check_is_the_one_reported() {
    type Check = Box<dyn Fn(&String, &str) -> Result<(), ConfigError>>;
    let checks: Vec<Check> = vec![Box::new(min_len(5)), Box::new(max_len(1)), Box::new(non_empty())];
    let mut map = table(&[("name", scalar("abc"))]);
    let err = bind_checked(&mut map, &FieldSpec::new("name"), None, &checks, &Overrides::none())
        .unwrap_err();
    assert_eq!(err.to_string(), "type mismatch for 'name': expected length >= 5, found length 3");

    let checks: Vec<Check> = vec![Box::new(non_empty()), Box::new(max_len(1)), Box::new(min_len(5))];
    let mut map = table(&[("name", scalar("abc"))]);
    let err = bind_checked(&mut map, &FieldSpec::new("name"), None, &checks, &Overrides::none())
        .unwrap_err();
    assert_eq!(err.to_string(), "type mismatch for 'name': expected length <= 1, found length 3");
}

#[test]
fn checks_are_not_run_on_a_value_that_is_not_read() {
    type Check = Box<dyn Fn(&u16, &str) -> Result<(), ConfigError>>;
    let checks: Vec<Check> = vec![Box::new(|_, _| panic!("not to be called"))];
    let mut map = table(&[("port", scalar("x"))]);
    let err = bind_checked(&mut map, &FieldSpec::new("port"), None, &checks, &Overrides::none())
        .unwrap_err();
    assert!(matches!(err, ConfigError::TypeMismatch { .. }));
}

fn overrides(args: &[&str], vars: &[(&str, &str)]) -> Overrides {
    Overrides {
        args: args.iter().map(|arg| arg.to_string()).collect(),
        vars: vars
            .iter()
            .map(|(name, value)| EnvVar { name: name.to_string(), value: value.to_string() })
            .collect(),
    }
}

fn overridable() -> FieldSpec {
    FieldSpec {
        cli_override: Some("db-url".to_string()),
        env_override: Some("APP_DB_URL".to_string()),
        ..FieldSpec::new("url")
    }
}

#[test]
fn argument_wins_over_variable_and_tree() {
    let mut map = table(&[("url", scalar("tree"))]);
    let given = overrides(&["--other=1", "--db-url=cli", "--db-url=later"], &[("APP_DB_URL", "env")]);
    let url: String = bind(&mut map, &overridable(), None, &given).unwrap();
    assert_eq!(url, "cli");
    assert_eq!(shown(&map), "{url: tree}");
}

#[test]
fn variable_wins_over_tree() {
    let mut map = table(&[("url", scalar("tree"))]);
    let given = overrides(&["--db-urls=no", "db-url=no", "--db-url"], &[("OTHER", "x"), ("APP_DB_URL", "env")]);
    let url: String = bind(&mut map, &overridable(), None, &given).unwrap();
    assert_eq!(url, "env");
    assert_eq!(shown(&map), "{url: tree}");
}

#[test]
fn tree_is_asked_when_no_override_is_given() {
    let mut map = table(&[("url", scalar("tree"))]);
    let given = overrides(&["--port=1"], &[("app_db_url", "wrong case")]);
    let url: String = bind(&mut map, &overridable(), None, &given).unwrap();
    assert_eq!(url, "tree");
    assert!(map.is_empty());
}

#[test]
fn argument_value_is_taken_as_it_is_written() {
    let given = overrides(&["--db-url= a=b "], &[]);
    assert_eq!(given.argument("db-url"), Some(" a=b ".to_string()));
    assert_eq!(given.argument("db"), None);
    assert_eq!(given.argument(""), None);
    let given = overrides(&["--=x", "--k="], &[("K", ""), ("K", "second")]);
    assert_eq!(given.argument(""), Some("x".to_string()));
    assert_eq!(given.argument("k"), Some(String::new()));
    assert_eq!(given.variable("K"), Some(String::new()));
    assert_eq!(given.variable("k"), None);
}

#[test]
fn resolve_takes_the_entry_out_of_the_table() {
    let mut map = table(&[("a", scalar("1")), ("b", ConfigNode::Null)]);
    let none = Overrides::none();
    assert_eq!(resolve(&mut map, &FieldSpec::new("a"), &none), Some(scalar("1")));
    assert_eq!(resolve(&mut map, &FieldSpec::new("a"), &none), None);
    assert_eq!(resolve(&mut map, &FieldSpec::new("b"), &none), Some(ConfigNode::Null));
    assert!(map.is_empty());
}

#[test]
fn kind_of_a_field_goes_by_optional_then_default_then_shape() {
    let scalar = FieldSpec::new("k");
    let array = FieldSpec { shape: Shape::Array, ..FieldSpec::new("k") };
    let record = FieldSpec { shape: Shape::Record, ..FieldSpec::new("k") };
    let optional = FieldSpec { optional: true, shape: Shape::Record, ..FieldSpec::new("k") };
    assert_eq!(field_kind(&scalar, false), FieldKind::Scalar);
    assert_eq!(field_kind(&array, false), FieldKind::Scalar);
    assert_eq!(field_kind(&record, false), FieldKind::Nested);
    assert_eq!(field_kind(&record, true), FieldKind::Default);
    assert_eq!(field_kind(&optional, true), FieldKind::Optional);
    assert_eq!(field_kind(&optional, false), FieldKind::Optional);
}

#[test]
fn nest_leaves_success_alone() {
    assert_eq!(nest("s", Ok::<u8, ConfigError>(1)).unwrap(), 1);
    let err = nest::<u8>("s", Err(ConfigError::missing("k"))).unwrap_err();
    assert_eq!(err.to_string(), "nested section 's' failed: missing value for 'k'");
}

fn load_server(node: &ConfigNode) -> Result<(String, u16), ConfigError> {
    let mut map = node.to_owned_table()?;
    let none = Overrides::none();
    Ok((
        bind(&mut map, &FieldSpec::new("host"), None, &none)?,
        bind(&mut map, &FieldSpec::new("port"), None, &none)?,
    ))
}

#[test]
fn record_is_bound_to_its_section_or_to_what_is_left() {
    let none = Overrides::none();
    let section = table(&[("host", scalar("inner")), ("port", scalar("2"))]);
    let mut map = table(&[("host", scalar("outer")), ("server", ConfigNode::Table(section))]);
    let server = bind_record(&mut map, &server_spec(), &none, &load_server).unwrap();
    assert_eq!(server, ("inner".to_string(), 2));
    assert_eq!(shown(&map), "{host: outer}");

    let mut map = table(&[("host", scalar("h")), ("port", scalar("1"))]);
    let server = bind_record(&mut map, &server_spec(), &none, &load_server).unwrap();
    assert_eq!(server, ("h".to_string(), 1));
    assert_eq!(shown(&map), "{host: h, port: 1}");
}

#[test]
fn failure_of_a_record_is_put_inside_its_section() {
    let none = Overrides::none();
    let mut map = table(&[("host", scalar("h"))]);
    let err = bind_record(&mut map, &server_spec(), &none, &load_server).unwrap_err();
    assert_eq!(err.to_string(), "nested section 'server' failed: missing value for 'port'");

    let mut map = table(&[("server", scalar("flat"))]);
    let err = bind_record(&mut map, &server_spec(), &none, &load_server).unwrap_err();
    assert_eq!(
        err.to_string(),
        "nested section 'server' failed: type mismatch for 'root': expected table, found scalar"
    );
}

#[test]
fn failures_nest_section_by_section() {
    fn load_outer(node: &ConfigNode) -> Result<(String, u16), ConfigError> {
        let mut map = node.to_owned_table()?;
        bind_record(&mut map, &server_spec(), &Overrides::none(), &load_server)
    }
    let inner = table(&[("host", scalar("h")), ("port", scalar("70000"))]);
    let outer = table(&[("server", ConfigNode::Table(inner))]);
    let mut map = table(&[("app", ConfigNode::Table(outer))]);
    let spec = FieldSpec { shape: Shape::Record, ..FieldSpec::new("app") };
    let err = bind_record(&mut map, &spec, &Overrides::none(), &load_outer).unwrap_err();
    assert_eq!(
        err.to_string(),
        "nested section 'app' failed: nested section 'server' failed: type mismatch for 'port': expected \
         u16, found 70000"
    );
}

#[test]
fn binding_holds_all_that_a_field_goes_by() {
    type Check = Box<dyn Fn(&u16, &str) -> Result<(), ConfigError>>;
    let in_range: Check = Box::new(|value, key| {
        if *value >= 1024 {
            Ok(())
        } else {
            Err(ConfigError::mismatch(key, "an unprivileged port", &value.to_string()))
        }
    });
    let binding = Binding { field: FieldSpec::new("port"), default: Some(8080), validators: vec![in_range] };
    assert!(binding.is_consistent());
    let mut map = Table::new();
    assert_eq!(binding.apply(&mut map, &Overrides::none()).unwrap(), 8080);

    let checks: Vec<Check> = vec![Box::new(|value, key| {
        if *value >= 1024 {
            Ok(())
        } else {
            Err(ConfigError::mismatch(key, "an unprivileged port", &value.to_string()))
        }
    })];
    let binding = Binding { field: FieldSpec::new("port"), default: None, validators: checks };
    let mut map = table(&[("port", scalar("80"))]);
    let err = binding.apply(&mut map, &Overrides::none()).unwrap_err();
    assert_eq!(err.to_string(), "type mismatch for 'port': expected an unprivileged port, found 80");

    type OptionCheck = Box<dyn Fn(&Option<u16>, &str) -> Result<(), ConfigError>>;
    let both: Binding<Option<u16>, OptionCheck> = Binding {
        field: FieldSpec { optional: true, ..FieldSpec::new("port") },
        default: Some(Some(1)),
        validators: Vec::new(),
    };
    assert!(!both.is_consistent());
    let mut map = Table::new();
    assert_eq!(both.apply(&mut map, &Overrides::none()).unwrap(), None);
}
