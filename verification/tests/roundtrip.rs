use json_writer::{to_json_string, write_object, Null};
use serde_json::Value;

fn parse(s: &str) -> Value {
    serde_json::from_str(s).unwrap()
}

#[test]
fn test_string_round_trip() {
    // Whatever the encoder writes for a string, a real JSON parser reads
    // the original text back, across every escape class.
    let cases = [
        "plain",
        "Hello World\n",
        "quote \" backslash \\ slash /",
        "中文\0\x08\x09\"\\\n\r\t</script>",
        "\u{0001}\u{001F}\u{007F}",
        "",
        "ends with bracket ]}",
    ];
    for text in cases {
        let encoded = to_json_string(text);
        assert_eq!(parse(&encoded), Value::String(text.to_owned()));
    }
}

#[test]
fn test_number_round_trip() {
    for v in [0i32, 1, -1, 42, -12345, i32::MIN, i32::MAX] {
        let encoded = to_json_string(v);
        assert_eq!(parse(&encoded), Value::from(v));
    }
    for v in [0u32, 7, 255, u32::MAX] {
        let encoded = to_json_string(v);
        assert_eq!(parse(&encoded), Value::from(v));
    }
}

#[test]
fn test_document_round_trip() {
    let mut buffer = String::new();
    let mut object_writer = write_object(&mut buffer).unwrap();
    object_writer.member("number", 42i32).unwrap();
    object_writer.member("text", "a\"b[c]{d}").unwrap();
    object_writer.member("nothing", Null).unwrap();
    object_writer.member("flag", true).unwrap();
    let mut nested = object_writer.array("items").unwrap();
    nested.value(1u8).unwrap();
    nested.value("two").unwrap();
    nested.end().unwrap();
    object_writer.end().unwrap();

    let parsed = parse(&buffer);
    assert_eq!(parsed["number"], Value::from(42i32));
    assert_eq!(parsed["text"], Value::String("a\"b[c]{d}".to_owned()));
    assert_eq!(parsed["nothing"], Value::Null);
    assert_eq!(parsed["flag"], Value::Bool(true));
    assert_eq!(parsed["items"][0], Value::from(1u8));
    assert_eq!(parsed["items"][1], Value::String("two".to_owned()));
    assert_eq!(parsed.as_object().unwrap().len(), 5);
}
