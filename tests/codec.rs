use universal::codec::{DecodeError, Person};

fn person(name: &str, age: u8) -> Person {
    Person::new(name.to_string(), age)
}

#[test]
fn test_serialize() {
    let json = person("Alice", 30).to_json();
    println!("{}", json);
    assert_eq!(json, r#"{"name":"Alice","age":30}"#);
}

#[test]
fn test_deserialize() {
    let json = r#"{"name":"Bob","age":25}"#;
    let p = Person::from_json(json).unwrap();
    assert_eq!(p, person("Bob", 25));
}

#[test]
fn test_serialize_toml() {
    let toml = person("Charlie", 28).to_key_value();
    println!("{}", toml);
    assert_eq!(
        toml,
        r#"name = "Charlie"
age = 28
"#
    );
}

#[test]
fn escapes_quotes_backslashes_and_control_characters() {
    let p = person("a\"b\\c\nd\te\u{1}\u{1f}é", 0);
    assert_eq!(p.to_json(), "{\"name\":\"a\\\"b\\\\c\\nd\\te\\u0001\\u001fé\",\"age\":0}");
    assert_eq!(p.to_key_value(), "name = \"a\\\"b\\\\c\\nd\\te\\u0001\\u001fé\"\nage = 0\n");
}

#[test]
fn round_trips_awkward_records() {
    for (name, age) in [("", 0u8), ("x", 255), ("\"\\\u{8}\u{c}\r", 9), ("日本", 100), ("}\",\"age\":1", 7)] {
        let p = person(name, age);
        assert_eq!(Person::from_json(&p.to_json()), Ok(person(name, age)));
    }
}

#[test]
fn refuses_text_that_no_record_encodes_to() {
    let bad = [
        "",
        "{}",
        r#"{"name":"Bob","age":25"#,
        r#"{"name":"Bob","age":25} "#,
        r#"{ "name":"Bob","age":25}"#,
        r#"{"age":25,"name":"Bob"}"#,
        r#"{"name":"Bob","age":025}"#,
        r#"{"name":"Bob","age":256}"#,
        r#"{"name":"Bob","age":1000}"#,
        r#"{"name":"Bob","age":}"#,
        r#"{"name":"Bob","age":-1}"#,
        r#"{"name":"B\ob","age":1}"#,
        r#"{"name":"B\u0041","age":1}"#,
        "{\"name\":\"B\nb\",\"age\":1}",
        r#"{"name":"Bob"}"#,
    ];
    for text in bad {
        assert_eq!(Person::from_json(text), Err(DecodeError::Malformed), "{}", text);
    }
}

#[test]
fn decodes_escapes_that_the_encoder_writes() {
    let p = Person::from_json(r#"{"name":"a\"b\\c\n\u0001","age":7}"#).unwrap();
    assert_eq!(p, person("a\"b\\c\n\u{1}", 7));
}
