use convr::csv_data::{csv_to_json, json_to_csv, value_to_csv_cell};
use convr::data::{convert_data, data_error_message, source_syntax, target_syntax, DataError, DataSyntax};
use convr::formats::Format;
use convr::json::{get_member, insert_member, to_json_text, Value};
use convr::xml_data::{json_to_xml, write_xml_value, xml_to_json};

fn s(t: &str) -> Value {
    Value::String(t.to_string())
}

fn obj(members: Vec<(&str, Value)>) -> Value {
    Value::Object(members.into_iter().map(|(k, v)| (k.to_string(), v)).collect())
}

#[test]
fn csv_reads_into_sorted_objects() {
    let v = csv_to_json("name,age\nAnn,30\nBob,4\n").unwrap();
    assert_eq!(to_json_text(&v), r#"[{"age":"30","name":"Ann"},{"age":"4","name":"Bob"}]"#);
}

#[test]
fn csv_repeated_header_keeps_last() {
    let v = csv_to_json("a,a\n1,2\n").unwrap();
    assert_eq!(to_json_text(&v), r#"[{"a":"2"}]"#);
}

#[test]
fn csv_edge_cases() {
    assert_eq!(to_json_text(&csv_to_json("").unwrap()), "[]");
    assert_eq!(to_json_text(&csv_to_json("h\n").unwrap()), "[]");
    assert_eq!(to_json_text(&csv_to_json("q\n\"a,b\"\n").unwrap()), r#"[{"q":"a,b"}]"#);
    let err = csv_to_json("a,b\n1\n").unwrap_err();
    assert!(matches!(err, DataError::Csv(_)));
}

#[test]
fn csv_writes_header_from_first_object() {
    let rows = Value::Array(vec![
        obj(vec![("a", s("1")), ("b", s("x,y"))]),
        obj(vec![("b", Value::Null)]),
        obj(vec![("a", Value::Number("2.5".to_string())), ("c", s("ignored"))]),
    ]);
    assert_eq!(json_to_csv(&rows).unwrap(), "a,b\n1,\"x,y\"\n,\n2.5,\n");
}

#[test]
fn csv_round_trip_through_json() {
    let text = "age,name\n30,Ann\n4,Bob\n";
    let v = csv_to_json(text).unwrap();
    assert_eq!(json_to_csv(&v).unwrap(), text);
}

#[test]
fn csv_output_errors() {
    assert!(matches!(json_to_csv(&s("x")), Err(DataError::CsvNeedsArray)));
    assert!(matches!(json_to_csv(&Value::Array(vec![s("x")])), Err(DataError::CsvNeedsObject)));
    let mixed = Value::Array(vec![obj(vec![("a", s("1"))]), s("x")]);
    assert!(matches!(json_to_csv(&mixed), Err(DataError::CsvNonObject)));
    assert_eq!(json_to_csv(&Value::Array(vec![])).unwrap(), "");
    assert_eq!(data_error_message(&DataError::CsvNeedsArray), "JSON must be an array for CSV output");
    assert_eq!(data_error_message(&DataError::CsvNeedsObject), "Each JSON element must be an object");
    assert_eq!(data_error_message(&DataError::CsvNonObject), "Non-object in array");
}

#[test]
fn csv_cells() {
    assert_eq!(value_to_csv_cell(&s("plain")), "plain");
    assert_eq!(value_to_csv_cell(&Value::Null), "");
    assert_eq!(value_to_csv_cell(&Value::Bool(true)), "true");
    assert_eq!(value_to_csv_cell(&Value::Number("-7".to_string())), "-7");
    let nested = Value::Array(vec![Value::Null, obj(vec![("k", s("v\"w"))])]);
    assert_eq!(value_to_csv_cell(&nested), r#"[null,{"k":"v\"w"}]"#);
}

#[test]
fn json_text_escapes() {
    assert_eq!(to_json_text(&s("a\"b\\\n\u{1}\u{8}\u{c}\t\r\u{7f}")), "\"a\\\"b\\\\\\n\\u0001\\b\\f\\t\\r\u{7f}\"");
    assert_eq!(to_json_text(&Value::Bool(false)), "false");
    assert_eq!(to_json_text(&obj(vec![])), "{}");
    assert_eq!(to_json_text(&Value::Array(vec![])), "[]");
}

#[test]
fn members_behave_as_an_ordered_map() {
    let mut members: Vec<(String, Value)> = Vec::new();
    insert_member(&mut members, "b".to_string(), s("1"));
    insert_member(&mut members, "a".to_string(), s("2"));
    insert_member(&mut members, "c".to_string(), s("3"));
    insert_member(&mut members, "b".to_string(), s("4"));
    let keys: Vec<&str> = members.iter().map(|m| m.0.as_str()).collect();
    assert_eq!(keys, vec!["a", "b", "c"]);
    assert_eq!(to_json_text(get_member(&members, "b").unwrap()), "\"4\"");
    assert!(get_member(&members, "z").is_none());
}

#[test]
fn xml_reads_nested_elements() {
    let v = xml_to_json("<a><b>hi</b><c>x &amp; y</c></a>").unwrap();
    assert_eq!(to_json_text(&v), r##"{"a":{"b":{"#text":"hi"},"c":{"#text":"x & y"}}}"##);
}

#[test]
fn xml_reading_edge_cases() {
    // Empty-element tags are not read as elements.
    assert_eq!(to_json_text(&xml_to_json("<a><e/></a>").unwrap()), r#"{"a":{}}"#);
    // Whitespace-only text is dropped; the last top-level element wins.
    assert_eq!(to_json_text(&xml_to_json("<a> </a><b>1</b>").unwrap()), r##"{"b":{"#text":"1"}}"##);
    // A repeated child name keeps the last child.
    assert_eq!(to_json_text(&xml_to_json("<r><i>1</i><i>2</i></r>").unwrap()), r##"{"r":{"i":{"#text":"2"}}}"##);
    assert!(matches!(xml_to_json(""), Err(DataError::XmlNoRoot)));
    assert_eq!(data_error_message(&DataError::XmlNoRoot), "Failed to parse XML");
    assert!(matches!(xml_to_json("<a></b>"), Err(DataError::Xml(_))));
    assert!(matches!(xml_to_json("<a>&bogus;</a>"), Err(DataError::Xml(_))));
}

#[test]
fn xml_writing() {
    let v = obj(vec![("a", Value::Array(vec![Value::Number("1".to_string()), s("x")])), ("b", Value::Null)]);
    assert_eq!(
        json_to_xml(&v),
        "<?xml version=\"1.0\" encoding=\"UTF-8\"?>\n<root><a>1</a><a>x</a><b>null</b></root>"
    );
    let mut out = String::from("pre:");
    write_xml_value(&mut out, "t", &Value::Bool(true));
    assert_eq!(out, "pre:<t>true</t>");
}

#[test]
fn data_syntaxes() {
    assert_eq!(source_syntax(&Format::Toml).unwrap(), DataSyntax::Toml);
    assert_eq!(target_syntax(&Format::Toml, &Format::Csv).unwrap(), DataSyntax::Csv);
    let err = source_syntax(&Format::Png).unwrap_err();
    assert_eq!(data_error_message(&err), "Unsupported data source format: Png");
    let err = target_syntax(&Format::Json, &Format::Png).unwrap_err();
    assert_eq!(data_error_message(&err), "Unsupported data target format: Json");
}

#[test]
fn string_tables_read_back_from_their_csv() {
    let table = Value::Array(vec![
        obj(vec![("a", s("1")), ("b", s("x,\"y\"\n"))]),
        obj(vec![("a", s("")), ("b", s(" sp\r "))]),
    ]);
    let text = json_to_csv(&table).unwrap();
    assert_eq!(text, "a,b\n1,\"x,\"\"y\"\"\n\"\n,\" sp\r \"\n");
    assert_eq!(to_json_text(&csv_to_json(&text).unwrap()), to_json_text(&table));
    let single = Value::Array(vec![obj(vec![("k", s(""))])]);
    let text = json_to_csv(&single).unwrap();
    assert_eq!(text, "k\n\"\"\n");
    assert_eq!(to_json_text(&csv_to_json(&text).unwrap()), to_json_text(&single));
    let empty = Value::Array(vec![]);
    assert_eq!(to_json_text(&csv_to_json(&json_to_csv(&empty).unwrap()).unwrap()), "[]");
}

#[test]
fn canonical_csv_survives_a_trip_through_json() {
    for text in ["a,b\n\"x,y\",\"\"\"q\"\"\"\n,z\n", "k\n\"\"\nv\n", "id\n7\n"] {
        let v = csv_to_json(text).unwrap();
        assert_eq!(json_to_csv(&v).unwrap(), text);
    }
}

#[test]
fn csv_reader_drops_a_leading_byte_order_mark() {
    let v = csv_to_json("\u{FEFF}k\nx\n").unwrap();
    assert_eq!(to_json_text(&v), r#"[{"k":"x"}]"#);
}

#[test]
fn uniform_csv_is_written_back_canonically() {
    let v = csv_to_json("a,b\r\n\"1\",2\r\n\"x\"\"y\",\r\n").unwrap();
    let text = json_to_csv(&v).unwrap();
    assert_eq!(text, "a,b\n1,2\n\"x\"\"y\",\n");
    assert_eq!(to_json_text(&csv_to_json(&text).unwrap()), to_json_text(&v));
}

#[test]
fn xml_strings_are_escaped() {
    let v = obj(vec![("a", s("<")), ("b", s("x & y > z"))]);
    assert_eq!(
        json_to_xml(&v),
        "<?xml version=\"1.0\" encoding=\"UTF-8\"?>\n<root><a>&lt;</a><b>x &amp; y &gt; z</b></root>"
    );
    let back = xml_to_json(&json_to_xml(&v)).unwrap();
    assert_eq!(to_json_text(&back), r##"{"root":{"a":{"#text":"<"},"b":{"#text":"x & y > z"}}}"##);
}

#[test]
fn compact_json_text_matches_serde_json() {
    let text = "q\"b\\s/\u{0}\u{1f}\u{7f}\u{2028}é\n\t";
    let mut map = serde_json::Map::new();
    map.insert("z".to_string(), serde_json::Value::String(text.to_string()));
    map.insert("a".to_string(), serde_json::Value::Array(vec![serde_json::Value::Null, serde_json::Value::Bool(true)]));
    let theirs = serde_json::Value::Object(map).to_string();
    let ours = to_json_text(&obj(vec![
        ("a", Value::Array(vec![Value::Null, Value::Bool(true)])),
        ("z", s(text)),
    ]));
    assert_eq!(ours, theirs);
}

#[test]
fn data_conversions_between_syntaxes() {
    let json = r#"{"b":[1,2.5,true,null],"a":"x"}"#;
    let yaml = convert_data(json, &Format::Json, &Format::Yaml).unwrap();
    assert_eq!(yaml, serde_yaml::to_string(&serde_json::from_str::<serde_json::Value>(json).unwrap()).unwrap());
    let back = convert_data(&yaml, &Format::Yaml, &Format::Json).unwrap();
    assert_eq!(
        back,
        serde_json::to_string_pretty(&serde_json::from_str::<serde_json::Value>(json).unwrap()).unwrap()
    );
    let toml = convert_data("title = \"t\"\n[owner]\nname = \"n\"\n", &Format::Toml, &Format::Json).unwrap();
    assert_eq!(toml, "{\n  \"owner\": {\n    \"name\": \"n\"\n  },\n  \"title\": \"t\"\n}");
    let toml_out = convert_data(r#"{"k":1}"#, &Format::Json, &Format::Toml).unwrap();
    assert_eq!(toml_out, "k = 1\n");
    let csv = convert_data("a,b\n1,2\n", &Format::Csv, &Format::Json).unwrap();
    assert_eq!(csv, "[\n  {\n    \"a\": \"1\",\n    \"b\": \"2\"\n  }\n]");
    let xml = convert_data(r#"{"a":"<"}"#, &Format::Json, &Format::Xml).unwrap();
    assert_eq!(xml, "<?xml version=\"1.0\" encoding=\"UTF-8\"?>\n<root><a>&lt;</a></root>");
}

#[test]
fn data_conversion_errors() {
    let e = convert_data("{", &Format::Json, &Format::Yaml).unwrap_err();
    assert!(matches!(e, DataError::Parse(DataSyntax::Json, _)));
    assert!(!data_error_message(&e).is_empty());
    let e = convert_data("[1]", &Format::Json, &Format::Toml).unwrap_err();
    assert!(matches!(e, DataError::Serialize(DataSyntax::Toml, _)));
    let e = convert_data("x", &Format::Png, &Format::Json).unwrap_err();
    assert!(matches!(e, DataError::UnsupportedSource(Format::Png)));
    let e = convert_data("{}", &Format::Json, &Format::Png).unwrap_err();
    assert!(matches!(e, DataError::UnsupportedTarget(Format::Json)));
    let e = convert_data("[1]", &Format::Json, &Format::Csv).unwrap_err();
    assert!(matches!(e, DataError::CsvNeedsObject));
}

#[test]
fn xml_character_references() {
    let v = xml_to_json("<a>&#65;&#x42;&apos;&quot;x;y</a>").unwrap();
    assert_eq!(to_json_text(&v), r##"{"a":{"#text":"AB'\"x;y"}}"##);
    assert!(matches!(xml_to_json("<a>&#0;</a>"), Err(DataError::Xml(_))));
    assert!(matches!(xml_to_json("<a>&#xD800;</a>"), Err(DataError::Xml(_))));
    assert!(matches!(xml_to_json("<a>&#X41;</a>"), Err(DataError::Xml(_))));
    assert!(matches!(xml_to_json("<a>a &amp b;</a>"), Err(DataError::Xml(_))));
    assert!(matches!(xml_to_json("<a>tail &</a>"), Err(DataError::Xml(_))));
}
