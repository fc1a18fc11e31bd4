use json_writer::{
    to_json_string, write_array, write_object, write_value, BoundedSink, Null, PreparedFloat,
};

fn prep(v: f64) -> PreparedFloat {
    let text = if v.is_finite() {
        let mut buffer = ryu::Buffer::new();
        buffer.format_finite(v).to_string()
    } else {
        String::new()
    };
    PreparedFloat { bits: v.to_bits(), text }
}

fn prep32(v: f32) -> PreparedFloat {
    prep(v as f64)
}

#[test]
fn test_array() {
    let mut buffer = String::new();
    let mut array = write_array(&mut buffer).unwrap();
    array.value(0u8).unwrap();
    array.value(1i32).unwrap();
    array.value("2").unwrap();
    array.value("\"<script>1/2</script>\"").unwrap();
    let mut nested_arr = array.array().unwrap();
    nested_arr.value("nested").unwrap();
    nested_arr.end().unwrap();
    let mut nested_obj = array.object().unwrap();
    nested_obj.member("ä\töü", "ä\töü").unwrap();
    nested_obj.end().unwrap();
    let nested_obj2 = array.object().unwrap();
    nested_obj2.end().unwrap();
    array.end().unwrap();

    assert_eq!(
        buffer,
        "[0,1,\"2\",\"\\\"<script>1\\/2<\\/script>\\\"\",[\"nested\"],{\"ä\\töü\":\"ä\\töü\"},{}]"
    );
}

#[test]
fn test_array_range() {
    let bytes = b"ABC";
    assert_eq!(to_json_string(&bytes[..]), "[65,66,67]");

    let mut v = Vec::<u8>::new();
    v.extend_from_slice(bytes);
    assert_eq!(to_json_string(&v), "[65,66,67]");
}

#[test]
fn test_numbers() {
    // unsigned
    assert_eq!(to_json_string(1u8), "1");
    assert_eq!(to_json_string(1u16), "1");
    assert_eq!(to_json_string(1u32), "1");
    assert_eq!(to_json_string(u8::MAX), "255");
    assert_eq!(to_json_string(u16::MAX), "65535");
    assert_eq!(to_json_string(u32::MAX), "4294967295");

    // signed
    assert_eq!(to_json_string(-1i8), "-1");
    assert_eq!(to_json_string(-1i16), "-1");
    assert_eq!(to_json_string(-1i32), "-1");

    // float
    assert_eq!(to_json_string(prep32(0f32)), "0");
    assert_eq!(to_json_string(prep32(2f32)), "2");
    assert_eq!(to_json_string(prep32(-2f32)), "-2");

    assert_eq!(to_json_string(prep(0f64)), "0");
    assert_eq!(to_json_string(prep(2f64)), "2");
    assert_eq!(to_json_string(prep(-2f64)), "-2");
    assert_eq!(to_json_string(prep(3.141592653589793)), "3.141592653589793");
    assert_eq!(to_json_string(prep(0.1f64)), "0.1");
    assert_eq!(to_json_string(prep(-0.1f64)), "-0.1");
    assert_eq!(to_json_string(prep(1.5e30f64)), "1.5e30");
    assert_eq!(
        to_json_string(prep(-2.220446049250313e-16f64)),
        "-2.220446049250313e-16"
    );

    assert_eq!(to_json_string(prep(1.0 / 0.0)), "null");
    assert_eq!(to_json_string(prep(f64::INFINITY)), "null");
    assert_eq!(to_json_string(prep(f64::NEG_INFINITY)), "null");
    assert_eq!(to_json_string(prep(f64::NAN)), "null");
}

#[test]
fn test_strings() {
    assert_eq!(
        to_json_string("中文\0\x08\x09\"\\\n\r\t</script>"),
        "\"中文\\u0000\\b\\t\\\"\\\\\\n\\r\\t<\\/script>\""
    );
}

#[test]
fn test_basic_example() {
    let mut object_str = String::new();

    let mut object_writer = write_object(&mut object_str).unwrap();
    object_writer.member("number", 42i32).unwrap();
    object_writer.end().unwrap();

    assert_eq!(&object_str, "{\"number\":42}");
}

#[test]
fn test_duplicate_keys() {
    let mut object_str = String::new();

    let mut object_writer = write_object(&mut object_str).unwrap();
    object_writer.member("number", 42i32).unwrap();
    object_writer.member("number", 43i32).unwrap();
    object_writer.end().unwrap();

    // Duplicates are not checked, this is by design!
    assert_eq!(&object_str, "{\"number\":42,\"number\":43}");
}

#[test]
fn test_flush() {
    // this could also be a file writer.
    let mut writer = Vec::<u8>::new();

    let mut buffer = String::new();
    let mut array = write_array(&mut buffer).unwrap();
    for i in 1i32..=1000000i32 {
        array.value(i).unwrap();
        let buffer = array.writer_mut();
        if buffer.len() > 2000 {
            // Manual flush
            let written = std::io::Write::write(&mut writer, buffer.as_bytes()).unwrap();
            drop(buffer.drain(0..written));
        }
    }
    array.end().unwrap();
    std::io::Write::write_all(&mut writer, buffer.as_bytes()).unwrap();

    if buffer.len() > 4000 {
        panic!("Buffer too long");
    }
    assert_eq!(
        &writer[writer.len() - b",999999,1000000]".len()..],
        b",999999,1000000]"
    );
}

#[test]
fn test_control_characters() {
    // all ascii characters 0x00 <= c < 0x20 must be escaped
    for c in 0x00u8..0x20u8 {
        let c = char::from(c);
        let json = to_json_string(c.to_string().as_str());
        assert!(&json[0..2] == "\"\\");
    }
}

#[test]
fn test_null_and_booleans() {
    assert_eq!(to_json_string(true), "true");
    assert_eq!(to_json_string(false), "false");
    assert_eq!(to_json_string(Null), "null");
    assert_eq!(to_json_string(Option::<u8>::Some(42)), "42");
    assert_eq!(to_json_string(Option::<u8>::None), "null");
}

#[test]
fn test_empty_containers() {
    let mut buffer = String::new();
    let array = write_array(&mut buffer).unwrap();
    array.end().unwrap();
    assert_eq!(&buffer, "[]");

    let mut buffer = String::new();
    let object = write_object(&mut buffer).unwrap();
    object.end().unwrap();
    assert_eq!(&buffer, "{}");

    let empty: [u8; 0] = [];
    assert_eq!(to_json_string(&empty[..]), "[]");
}

#[test]
fn test_control_escape_shapes() {
    // Short escapes keep their letter; the rest use uppercase \u00XX forms.
    assert_eq!(to_json_string("\u{0008}"), "\"\\b\"");
    assert_eq!(to_json_string("\u{000C}"), "\"\\f\"");
    assert_eq!(to_json_string("\n"), "\"\\n\"");
    assert_eq!(to_json_string("\r"), "\"\\r\"");
    assert_eq!(to_json_string("\t"), "\"\\t\"");
    assert_eq!(to_json_string("\u{0001}"), "\"\\u0001\"");
    assert_eq!(to_json_string("\u{001F}"), "\"\\u001F\"");
    assert_eq!(to_json_string("\u{001B}"), "\"\\u001B\"");
}

#[test]
fn test_separators_count() {
    // N members yield exactly N-1 commas at that nesting level.
    let mut buffer = String::new();
    let mut array = write_array(&mut buffer).unwrap();
    for i in 0u32..5u32 {
        array.value(i).unwrap();
    }
    array.end().unwrap();
    assert_eq!(&buffer, "[0,1,2,3,4]");
    assert_eq!(buffer.matches(',').count(), 4);
}

#[test]
fn test_part_of_string() {
    let mut buffer = String::new();
    write_value(&mut buffer, "prefix").unwrap();
    json_writer::write_part_of_string(&mut buffer, "a\"b").unwrap();
    assert_eq!(&buffer, "\"prefix\"a\\\"b");
}

#[test]
fn test_write_key_manual_composition() {
    let mut buffer = String::new();
    let mut object_writer = write_object(&mut buffer).unwrap();
    object_writer.write_key("raw").unwrap();
    object_writer.writer_mut().push_str("1");
    object_writer.write_key("next").unwrap();
    object_writer.writer_mut().push_str("2");
    object_writer.end().unwrap();
    assert_eq!(&buffer, "{\"raw\":1,\"next\":2}");
}

#[test]
fn test_bounded_sink_failure() {
    // A sink with too little room rejects the write that would overflow it.
    let mut sink = BoundedSink::new(3);
    let r = write_value(&mut sink, "abcdef");
    assert!(r.is_err());

    // A sink with enough room takes the whole value.
    let mut sink = BoundedSink::new(10);
    write_value(&mut sink, "abc").unwrap();
    assert_eq!(sink.text, "\"abc\"");
}

#[test]
fn test_bounded_sink_failure_propagates() {
    // The failure surfaces from whichever nested operation hit it, and the
    // text never exceeds the bound.
    let mut sink = BoundedSink::new(8);
    let mut array = write_array(&mut sink).unwrap();
    array.value(1u8).unwrap();
    array.value(2u8).unwrap();
    array.value(3u8).unwrap();
    let failed = array.value("much too long to fit");
    assert!(failed.is_err());
    assert!(array.writer().text.chars().count() <= 8);
}

#[test]
fn test_float_normalization() {
    // Integral floats lose their ".0" suffix; other renderings stay.
    assert_eq!(to_json_string(prep(2.0)), "2");
    assert_eq!(to_json_string(prep(-1.0)), "-1");
    assert_eq!(to_json_string(prep(2.5)), "2.5");
}

#[test]
fn test_integer_formatting_matches_std() {
    // The decimal text the encoder emits is exactly what std would print.
    for v in [0u32, 7, 10, 99, 100, 12345, u32::MAX] {
        assert_eq!(to_json_string(v), v.to_string());
    }
    for v in [0i32, -1, -10, 42, -12345, i32::MIN, i32::MAX] {
        assert_eq!(to_json_string(v), v.to_string());
    }
    assert_eq!(to_json_string(i8::MIN), "-128");
    assert_eq!(to_json_string(i16::MIN), "-32768");
}

#[test]
fn test_array_write_comma_manual_composition() {
    let mut buffer = String::new();
    let mut array = write_array(&mut buffer).unwrap();
    array.write_comma().unwrap();
    array.writer_mut().push_str("1");
    array.write_comma().unwrap();
    array.writer_mut().push_str("2");
    array.end().unwrap();
    assert_eq!(&buffer, "[1,2]");
}

#[test]
fn test_bounded_sink_rejects_opening_bracket() {
    // With no room at all, even the opening bracket is rejected and the
    // sink stays empty.
    let mut sink = BoundedSink::new(0);
    assert!(write_array(&mut sink).is_err());
    assert_eq!(sink.text, "");
}

#[test]
fn test_dtoa() {
    // The encoded number text for small integral floats agrees with std's
    // own rendering of the value.
    for v in [0.0f64, 1.0, -1.0, 2.0] {
        assert_eq!(to_json_string(prep(v)), v.to_string());
    }
}
