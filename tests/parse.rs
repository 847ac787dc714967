use otree::parse::{document_count, insert_field, parse_str, ContentType, DocumentCount, ParseError};
use otree::source::RawValue;
use otree::value::TreeValue;

fn same_shape(a: &TreeValue, b: &TreeValue) -> bool {
    match (a, b) {
        (TreeValue::Null, TreeValue::Null) => true,
        (TreeValue::String(x), TreeValue::String(y)) => x == y,
        (TreeValue::Number(x), TreeValue::Number(y)) => x == y,
        (TreeValue::Bool(x), TreeValue::Bool(y)) => x == y,
        (TreeValue::Array(x, _), TreeValue::Array(y, _)) => {
            x.len() == y.len() && x.iter().zip(y.iter()).all(|(p, q)| same_shape(p, q))
        }
        (TreeValue::Object(x, _), TreeValue::Object(y, _)) => {
            x.len() == y.len()
                && x.iter().zip(y.iter()).all(|(p, q)| p.0 == q.0 && same_shape(&p.1, &q.1))
        }
        _ => false,
    }
}

#[test]
fn test_parse_toml() {
    const TOML_DATA: &str = r#"
            title = "TOML Example"
            conn = 123
            cap = 3.14
            retry = true
            habits = ["reading", "programming"]

            owner = {name = "Tom Preston-Werner", dob = 1979-05-27T07:32:00Z}

            [database]
            server = "127.0.0.1:1234"
            user = "root"
            password = "test password"

            [[persons]]
            name = "Alice"
            age = 20

            [[persons]]
            name = "Bob"
            age = 30

        "#;

    const JSON_DATA: &str = r#"
            {
                "title": "TOML Example",
                "conn": 123,
                "cap": 3.14,
                "retry": true,
                "habits": ["reading", "programming"],
                "owner": {
                    "name": "Tom Preston-Werner",
                    "dob": "1979-05-27T07:32:00Z"
                },
                "database": {
                    "server": "127.0.0.1:1234",
                    "user": "root",
                    "password": "test password"
                },
                "persons": [
                    {
                        "name": "Alice",
                        "age": 20
                    },
                    {
                        "name": "Bob",
                        "age": 30
                    }
                ]
            }
        "#;

    let from_toml = parse_str(TOML_DATA, Some(ContentType::Toml)).unwrap();
    let from_json = parse_str(JSON_DATA, Some(ContentType::Json)).unwrap();

    assert!(same_shape(&from_toml, &from_json));
}

#[test]
fn test_parse_yaml() {
    const YAML_DATA: &str = r#"
            title: "YAML Example"
            conn: 123
            cap: 3.14
            retry: true
            habits: ["reading", "programming"]
            owner: {name: "Tom Preston-Werner", dob: "1979-05-27T07:32:00Z"}
            database:
                server: "127.0.0.1:1234"
                user: "root"
                password: "test password"
            persons:
                - name: Alice
                  age: 20
                - name: Bob
                  age: 30
        "#;

    const JSON_DATA: &str = r#"
            {
                "title": "YAML Example",
                "conn": 123,
                "cap": 3.14,
                "retry": true,
                "habits": ["reading", "programming"],
                "owner": {
                    "name": "Tom Preston-Werner",
                    "dob": "1979-05-27T07:32:00Z"
                },
                "database": {
                    "server": "127.0.0.1:1234",
                    "user": "root",
                    "password": "test password"
                },
                "persons": [
                    {
                        "name": "Alice",
                        "age": 20
                    },
                    {
                        "name": "Bob",
                        "age": 30
                    }
                ]
            }
        "#;

    let from_yaml = parse_str(YAML_DATA, Some(ContentType::Yaml)).unwrap();
    let from_json = parse_str(JSON_DATA, Some(ContentType::Json)).unwrap();

    assert!(same_shape(&from_yaml, &from_json));
}

#[test]
fn detail_text_round_trips_in_each_format() {
    let cases = [
        (r#"{"a": {"b": [1, 2.5, "x"], "c": null}}"#, ContentType::Json),
        ("a:\n  b: [1, 2.5, x]\n  c: true\n", ContentType::Yaml),
        ("[a]\nb = [1, 2]\nc = \"x\"\n", ContentType::Toml),
    ];
    for (text, format) in cases {
        let value = parse_str(text, Some(format)).unwrap();
        let TreeValue::Object(fields, _) = &value else { panic!("expected an object") };
        let sub = &fields[0].1;
        let detail = match sub {
            TreeValue::Object(_, d) => d.clone(),
            _ => panic!("expected an object field"),
        };
        let again = parse_str(&detail, Some(format)).unwrap();
        assert!(same_shape(sub, &again), "{detail}");
    }
}

#[test]
fn explicit_json_keeps_field_order() {
    let v = parse_str(r#"{"z": 1, "a": 2, "m": 3}"#, Some(ContentType::Json)).unwrap();
    let TreeValue::Object(fields, _) = v else { panic!("expected an object") };
    let names: Vec<&str> = fields.iter().map(|f| f.0.as_str()).collect();
    assert_eq!(names, vec!["z", "a", "m"]);
}

#[test]
fn yaml_documents_become_an_array() {
    let v = parse_str("1\n---\n2\n", None).unwrap();
    let TreeValue::Array(items, _) = v else { panic!("expected an array") };
    assert_eq!(items.len(), 2);
    assert!(matches!(&items[0], TreeValue::Number(n) if n == "1"));
    assert!(matches!(&items[1], TreeValue::Number(n) if n == "2"));
}

#[test]
fn yaml_single_document_is_itself() {
    let v = parse_str("- a\n- b\n", Some(ContentType::Yaml)).unwrap();
    let TreeValue::Array(items, _) = v else { panic!("expected an array") };
    assert_eq!(items.len(), 2);
}

#[test]
fn yaml_document_count_shapes() {
    assert!(matches!(document_count(0), DocumentCount::Empty));
    assert!(matches!(document_count(1), DocumentCount::Single));
    assert!(matches!(document_count(2), DocumentCount::Many));
    // serde_yaml reads an empty stream as one empty (null) document
    let r = parse_str("", Some(ContentType::Yaml));
    assert!(matches!(r, Ok(TreeValue::Null)));
}

#[test]
fn yaml_tag_becomes_null() {
    let v = parse_str("a: !custom 5\n", Some(ContentType::Yaml)).unwrap();
    let TreeValue::Object(fields, _) = v else { panic!("expected an object") };
    assert!(matches!(fields[0].1, TreeValue::Null));
}

#[test]
fn yaml_keys_become_field_names() {
    let v = parse_str("1: a\ntrue: b\n[x]: c\nname: d\n", Some(ContentType::Yaml)).unwrap();
    let TreeValue::Object(fields, _) = v else { panic!("expected an object") };
    let names: Vec<&str> = fields.iter().map(|f| f.0.as_str()).collect();
    assert_eq!(names, vec!["1", "true", "", "name"]);
}

#[test]
fn toml_float_keeps_its_fraction() {
    let v = parse_str("x = 3.0\ny = 3\n", Some(ContentType::Toml)).unwrap();
    let TreeValue::Object(fields, _) = v else { panic!("expected an object") };
    assert!(matches!(&fields[0].1, TreeValue::Number(n) if n == "3.0"));
    assert!(matches!(&fields[1].1, TreeValue::Number(n) if n == "3"));
}

#[test]
fn toml_datetime_is_its_literal_text() {
    let v = parse_str("d = 1979-05-27T07:32:00Z\n", Some(ContentType::Toml)).unwrap();
    let TreeValue::Object(fields, _) = v else { panic!("expected an object") };
    assert!(matches!(&fields[0].1, TreeValue::String(s) if s == "1979-05-27T07:32:00Z"));
}

#[test]
fn explicit_format_failure_names_the_format() {
    let r = parse_str("{", Some(ContentType::Json));
    assert!(matches!(r, Err(ParseError::Format(ContentType::Json, _))));
    let r = parse_str("= = =", Some(ContentType::Toml));
    assert!(matches!(r, Err(ParseError::Format(ContentType::Toml, _))));
}

#[test]
fn unknown_format_when_every_adapter_fails() {
    let r = parse_str("{{{", None);
    assert!(matches!(r, Err(ParseError::UnknownFormat)));
}

#[test]
fn detection_prefers_json_over_yaml() {
    let r = ContentType::Json.parse("[1, 2]");
    assert!(matches!(r, Ok(RawValue::Json(_))));
    let r = otree::parse::parse_raw("[1, 2]", None);
    assert!(matches!(r, Ok(RawValue::Json(_))));
}

#[test]
fn detection_prefers_yaml_over_toml() {
    let r = otree::parse::parse_raw("x = 3", None);
    assert!(matches!(r, Ok(RawValue::Yaml(_))));
    let r = otree::parse::parse_raw("x = 3", Some(ContentType::Toml));
    assert!(matches!(r, Ok(RawValue::Toml(_))));
}

#[test]
fn detection_falls_through_to_toml() {
    let r = otree::parse::parse_raw("\"a\" = 1\n", None);
    assert!(matches!(r, Ok(RawValue::Toml(_))));
}

#[test]
fn yaml_colliding_keys_keep_the_last_value() {
    let v = parse_str("? [1]\n: a\n? [2]\n: b\n", Some(ContentType::Yaml)).unwrap();
    let TreeValue::Object(fields, _) = v else { panic!("expected an object") };
    assert_eq!(fields.len(), 1);
    assert_eq!(fields[0].0, "");
    assert!(matches!(&fields[0].1, TreeValue::String(s) if s == "b"));
    let v = parse_str("1: x\n\"1\": y\nz: 0\n", Some(ContentType::Yaml)).unwrap();
    let TreeValue::Object(fields, _) = v else { panic!("expected an object") };
    let names: Vec<&str> = fields.iter().map(|f| f.0.as_str()).collect();
    assert_eq!(names, vec!["1", "z"]);
    assert!(matches!(&fields[0].1, TreeValue::String(s) if s == "y"));
}

#[test]
fn insert_field_overwrites_in_place() {
    let mut fields = Vec::new();
    insert_field(&mut fields, "a".to_string(), TreeValue::Null);
    insert_field(&mut fields, "b".to_string(), TreeValue::Bool(true));
    insert_field(&mut fields, "a".to_string(), TreeValue::Bool(false));
    assert_eq!(fields.len(), 2);
    assert_eq!(fields[0].0, "a");
    assert!(matches!(fields[0].1, TreeValue::Bool(false)));
}

#[test]
fn nesting_beyond_the_depth_is_cut_to_null() {
    let raw = otree::parse::parse_raw("[[1], 2]", Some(ContentType::Json)).unwrap();
    let v = otree::parse::normalize_at(&raw, 1);
    let TreeValue::Array(items, _) = v else { panic!("expected an array") };
    assert!(matches!(items[0], TreeValue::Null));
    assert!(matches!(&items[1], TreeValue::Number(n) if n == "2"));
    let deep = "[".repeat(100) + &"]".repeat(100);
    assert!(parse_str(&deep, Some(ContentType::Json)).is_ok());
}
