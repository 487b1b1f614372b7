use chatpack::Format;
use chatpack::FilterConfig;
use chatpack::Message;
use chatpack::OutputConfig;
use chatpack::Platform;
use chatpack::Timestamp;
use chatpack::json::JsonValue;
use chatpack::json_parse::parse_json_chars;
use chatpack::pipeline::run_pipeline;
use chatpack::render::render_json;
use chatpack::text::str_to_chars;

fn fixture() -> String {
    "{\"name\":\"group\",\"messages\":[{\"id\":1,\"type\":\"message\",\"date\":\"2024-01-15T10:30:00\",\"from\":\"Alice\",\"text\":\"Hello\"},{\"id\":2,\"type\":\"message\",\"date\":\"2024-02-10T11:00:00\",\"from\":\"Bob\",\"text\":\"Hi \\\"A\\\"\"}]}"
    .to_string()
}

fn run(format: Format, cfg: &OutputConfig) -> String {
    run_pipeline(
        Platform::Telegram,
        &fixture(),
        &FilterConfig::new(),
        cfg,
        format,
        true,
        false,
    )
    .unwrap()
}

#[test]
fn test_json_format_valid() {
    let out = run(Format::Json, &OutputConfig::new());
    assert!(out.starts_with("["));
    assert!(out.ends_with("]"));
    let parsed = parse_json_chars(&str_to_chars(&out));
    let doc = parsed.expect("array-document output should reparse as structured data");
    match doc {
        JsonValue::Arr(items) => {
            assert_eq!(items.len(), 2);
        },
        _ => panic!("array-document output should be a top-level list"),
    }
}

#[test]
fn test_jsonl_format_valid() {
    let out = run(Format::Jsonl, &OutputConfig::new());
    let mut count = 0;
    for line in out.lines() {
        assert!(line.starts_with("{"));
        assert!(line.ends_with("}"));
        let parsed = parse_json_chars(&str_to_chars(line));
        assert!(parsed.is_some(), "each line should reparse as structured data");
        count += 1;
    }
    assert_eq!(count, 2);
}

#[test]
fn test_all_metadata_options() {
    let cfg = OutputConfig::new().with_timestamps().with_ids().with_replies().with_edited();
    let out = run(Format::Json, &cfg);
    let parsed = parse_json_chars(&str_to_chars(&out)).unwrap();
    match parsed {
        JsonValue::Arr(items) => {
            assert!(items.len() > 0);
            match &items[0] {
                JsonValue::Obj(fields) => {
                    let keys: Vec<&str> = fields.iter().map(|kv| kv.0.as_str()).collect();
                    assert!(keys.contains(&"id"), "field map should carry the id when toggled on");
                    assert!(keys.contains(&"sender"));
                    assert!(keys.contains(&"content"));
                    assert!(keys.contains(&"timestamp"));
                    assert!(keys.contains(&"reply_to"));
                    assert!(keys.contains(&"edited_at"));
                },
                _ => panic!("each element should be a field map"),
            }
        },
        _ => panic!("output should be a top-level list"),
    }
}

#[test]
fn array_document_round_trip_extracts_fields() {
    // Re-parsing the produced array document and re-extracting the active
    // fields reproduces the original values exactly.
    let msgs = vec![Message {
        sender: "A\"li,ce".to_string(),
        content: "line one\nline two\ttabbed".to_string(),
        timestamp: Timestamp { year: 2024, month: 1, day: 15, hour: 10, minute: 30, second: 0 },
        id: Some(-42),
        reply_to: None,
        edited_at: None,
    }];
    let cfg = OutputConfig::new().with_ids().with_replies();
    let out = render_json(&msgs, &cfg);
    let parsed = parse_json_chars(&str_to_chars(&out)).unwrap();
    match parsed {
        JsonValue::Arr(items) => {
            assert_eq!(items.len(), 1);
            match &items[0] {
                JsonValue::Obj(fields) => {
                    assert_eq!(fields.len(), 4);
                    assert_eq!(fields[0].0, "sender");
                    match &fields[0].1 {
                        JsonValue::Str(s) => assert_eq!(s, "A\"li,ce"),
                        _ => panic!("sender should be a string"),
                    }
                    assert_eq!(fields[1].0, "content");
                    match &fields[1].1 {
                        JsonValue::Str(s) => assert_eq!(s, "line one\nline two\ttabbed"),
                        _ => panic!("content should be a string"),
                    }
                    assert_eq!(fields[2].0, "id");
                    match &fields[2].1 {
                        JsonValue::Int(n) => assert_eq!(*n, -42),
                        _ => panic!("id should be a number"),
                    }
                    assert_eq!(fields[3].0, "reply_to");
                    assert!(matches!(fields[3].1, JsonValue::Null));
                },
                _ => panic!("element should be a field map"),
            }
        },
        _ => panic!("output should be a top-level list"),
    }
}

#[test]
fn line_document_round_trip_extracts_fields() {
    let msgs = vec![Message {
        sender: "Alice".to_string(),
        content: "control\u{1} char".to_string(),
        timestamp: Timestamp { year: 2024, month: 1, day: 15, hour: 10, minute: 30, second: 0 },
        id: None,
        reply_to: None,
        edited_at: None,
    }];
    let out = chatpack::render::render_jsonl(&msgs, &OutputConfig::new());
    assert!(out.contains("\\u0001"));
    let line = out.lines().next().unwrap();
    let parsed = parse_json_chars(&str_to_chars(line)).unwrap();
    match parsed {
        JsonValue::Obj(fields) => {
            match &fields[1].1 {
                JsonValue::Str(s) => assert_eq!(s, "control\u{1} char"),
                _ => panic!("content should be a string"),
            }
        },
        _ => panic!("line should be a field map"),
    }
}

#[test]
fn parser_rejects_trailing_garbage() {
    assert!(parse_json_chars(&str_to_chars("{} extra")).is_none());
    assert!(parse_json_chars(&str_to_chars("")).is_none());
    assert!(parse_json_chars(&str_to_chars("[1,2,]")).is_none());
}

#[test]
fn parser_accepts_nested_values() {
    let parsed = parse_json_chars(&str_to_chars(
        " { \"a\" : [ 1 , -2 , true , null , \"x\\n\" ] , \"b\" : { } } ",
    ));
    let doc = parsed.unwrap();
    match doc {
        JsonValue::Obj(fields) => {
            assert_eq!(fields.len(), 2);
            match &fields[0].1 {
                JsonValue::Arr(items) => {
                    assert_eq!(items.len(), 5);
                    assert!(matches!(items[0], JsonValue::Int(1)));
                    assert!(matches!(items[1], JsonValue::Int(-2)));
                    assert!(matches!(items[2], JsonValue::Bool(true)));
                    assert!(matches!(items[3], JsonValue::Null));
                },
                _ => panic!("first field should be a list"),
            }
        },
        _ => panic!("document should be a field map"),
    }
}

#[test]
fn parser_rejects_oversized_numbers() {
    assert!(parse_json_chars(&str_to_chars("9223372036854775807")).is_some());
    assert!(parse_json_chars(&str_to_chars("9223372036854775808")).is_none());
    assert!(parse_json_chars(&str_to_chars("-9223372036854775807")).is_some());
    assert!(parse_json_chars(&str_to_chars("01")).is_none());
}
