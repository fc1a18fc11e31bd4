use json_writer::{to_json_string, write_members, write_object, Null, PreparedFloat};

fn prep(v: f64) -> PreparedFloat {
    let text = if v.is_finite() {
        let mut buffer = ryu::Buffer::new();
        buffer.format_finite(v).to_string()
    } else {
        String::new()
    };
    PreparedFloat { bits: v.to_bits(), text }
}

#[test]
fn test_object() {
    let mut map = std::collections::HashMap::<String, String>::new();
    map.insert("a".to_owned(), "a".to_owned());

    let pairs: Vec<(String, String)> = map.into_iter().collect();
    let mut object_str = String::new();
    write_members(&mut object_str, &pairs).unwrap();
    assert_eq!(object_str, "{\"a\":\"a\"}");
}

#[test]
fn test_misc_examples() {
    // Values
    assert_eq!(to_json_string("Hello World\n"), "\"Hello World\\n\"");
    assert_eq!(to_json_string(prep(3.141592653589793f64)), "3.141592653589793");
    assert_eq!(to_json_string(true), "true");
    assert_eq!(to_json_string(false), "false");
    assert_eq!(to_json_string(Null), "null");

    // Options of values
    assert_eq!(to_json_string(Option::<u8>::Some(42)), "42");
    assert_eq!(to_json_string(Option::<u8>::None), "null");

    // Slices and vectors
    let numbers: [u8; 4] = [1, 2, 3, 4];
    assert_eq!(to_json_string(&numbers[..]), "[1,2,3,4]");
    let numbers_vec: Vec<u8> = vec![1u8, 2u8, 3u8, 4u8];
    assert_eq!(to_json_string(&numbers_vec), "[1,2,3,4]");
    let strings: [&str; 4] = ["a", "b", "c", "d"];
    assert_eq!(to_json_string(&strings[..]), "[\"a\",\"b\",\"c\",\"d\"]");

    // Hash-maps, handed over as their pairs:
    let mut map = std::collections::HashMap::<String, String>::new();
    map.insert("Hello".to_owned(), "World".to_owned());
    let pairs: Vec<(String, String)> = map.into_iter().collect();
    let mut map_str = String::new();
    write_members(&mut map_str, &pairs).unwrap();
    assert_eq!(map_str, "{\"Hello\":\"World\"}");

    // Objects:
    let mut object_str = String::new();
    let mut object_writer = write_object(&mut object_str).unwrap();

    // Values
    object_writer.member("number", 42i32).unwrap();
    object_writer.member("slice", &numbers[..]).unwrap();

    // Nested arrays
    let mut nested_array = object_writer.array("array").unwrap();
    nested_array.value(42u32).unwrap();
    nested_array.value("?").unwrap();
    nested_array.end().unwrap();

    // Nested objects
    let nested_object = object_writer.object("object").unwrap();
    nested_object.end().unwrap();

    object_writer.end().unwrap();
    assert_eq!(
        &object_str,
        "{\"number\":42,\"slice\":[1,2,3,4],\"array\":[42,\"?\"],\"object\":{}}"
    );
}

#[test]
fn test_duplicate_keys_in_pairs() {
    // The pair-list encoder keeps repeated keys too, in order.
    let pairs = vec![
        ("number".to_owned(), "42".to_owned()),
        ("number".to_owned(), "43".to_owned()),
    ];
    let mut object_str = String::new();
    write_members(&mut object_str, &pairs).unwrap();
    assert_eq!(object_str, "{\"number\":\"42\",\"number\":\"43\"}");
}

#[test]
fn test_string_slice_encoding() {
    let items = vec!["a".to_owned(), "b\"c".to_owned(), String::new()];
    let mut buffer = String::new();
    json_writer::write_string_slice(&mut buffer, &items).unwrap();
    assert_eq!(buffer, "[\"a\",\"b\\\"c\",\"\"]");

    let mut empty = String::new();
    json_writer::write_string_slice(&mut empty, &[]).unwrap();
    assert_eq!(empty, "[]");
}

#[test]
fn test_pairs_with_number_values() {
    let pairs = vec![("number".to_owned(), 42i32), ("number".to_owned(), 43i32)];
    let mut buffer = String::new();
    json_writer::write_pairs(&mut buffer, &pairs).unwrap();
    assert_eq!(buffer, "{\"number\":42,\"number\":43}");
}
