use chatpack::Format;
use chatpack::Message;
use chatpack::OutputConfig;
use chatpack::Platform;
use chatpack::Timestamp;
use chatpack::FilterConfig;
use chatpack::ParseError;
use chatpack::filter::apply_filters;
use chatpack::merge::merge_consecutive;
use chatpack::pipeline::parse_export;
use chatpack::pipeline::run_pipeline;
use chatpack::render::render_csv;
use chatpack::render::render_json;
use chatpack::render::render_jsonl;

fn ts(year: u32, month: u32, day: u32, hour: u32, minute: u32, second: u32) -> Timestamp {
    Timestamp { year, month, day, hour, minute, second }
}

fn msg(sender: &str, content: &str, t: Timestamp) -> Message {
    Message {
        sender: sender.to_string(),
        content: content.to_string(),
        timestamp: t,
        id: None,
        reply_to: None,
        edited_at: None,
    }
}

fn telegram_fixture() -> String {
    "{\"name\":\"group\",\"messages\":[{\"id\":1,\"type\":\"message\",\"date\":\"2024-01-15T10:30:00\",\"from\":\"Alice\",\"text\":\"Hello\"},{\"id\":2,\"type\":\"message\",\"date\":\"2024-02-10T11:00:00\",\"from\":\"Bob\",\"text\":\"Hi Alice\"},{\"id\":3,\"type\":\"service\",\"date\":\"2024-02-11T09:00:00\",\"from\":\"system\",\"text\":\"\"},{\"id\":4,\"type\":\"message\",\"date\":\"2024-03-05T12:00:00\",\"from\":\"Alice\",\"text\":[{\"type\":\"bold\",\"text\":\"Big\"},\" news\"],\"reply_to_message_id\":2,\"edited\":\"2024-03-05T12:30:00\"}]}"
    .to_string()
}

#[test]
fn telegram_parse_basic() {
    let msgs = parse_export(Platform::Telegram, &telegram_fixture()).unwrap();
    assert_eq!(msgs.len(), 3);
    assert_eq!(msgs[0].sender, "Alice");
    assert_eq!(msgs[0].content, "Hello");
    assert_eq!(msgs[0].id, Some(1));
    assert_eq!(msgs[0].timestamp, ts(2024, 1, 15, 10, 30, 0));
    assert_eq!(msgs[1].sender, "Bob");
    assert_eq!(msgs[2].sender, "Alice");
    assert_eq!(msgs[2].content, "Big news");
    assert_eq!(msgs[2].reply_to, Some(2));
    assert_eq!(msgs[2].edited_at, Some(ts(2024, 3, 5, 12, 30, 0)));
}

#[test]
fn telegram_csv_output() {
    let msgs = parse_export(Platform::Telegram, &telegram_fixture()).unwrap();
    let out = render_csv(&msgs, &OutputConfig::new());
    assert!(out.starts_with("sender,content\n"));
    assert!(out.contains("Alice"));
    assert!(out.contains("Bob"));
    assert!(out.contains("Hello"));
}

#[test]
fn whatsapp_parse_multiline() {
    let text = "[2024-01-15 10:30:00] Alice: Hi\n[2024-01-15 10:30:05] Alice: there\nwith a second line\n[2024-01-15 10:31:00] Bob: bye <edited>\n";
    let msgs = parse_export(Platform::WhatsApp, text).unwrap();
    assert_eq!(msgs.len(), 3);
    assert_eq!(msgs[0].sender, "Alice");
    assert_eq!(msgs[0].content, "Hi");
    assert_eq!(msgs[1].content, "there\nwith a second line");
    assert_eq!(msgs[2].sender, "Bob");
    assert_eq!(msgs[2].content, "bye");
    assert_eq!(msgs[2].edited_at, Some(ts(2024, 1, 15, 10, 31, 0)));
    assert_eq!(msgs[0].id, None);
}

#[test]
fn whatsapp_orphan_line_is_record_error() {
    let text = "no header here\n[2024-01-15 10:30:00] Alice: Hi\n";
    let err = parse_export(Platform::WhatsApp, text).unwrap_err();
    assert_eq!(err, ParseError::Record(0));
}

#[test]
fn instagram_parse_missing_content() {
    let text = "{\"participants\":[],\"messages\":[{\"sender_name\":\"Alice\",\"timestamp\":\"2024-01-15 10:30:00\",\"content\":\"Hey\"},{\"sender_name\":\"Bob\",\"timestamp\":\"2024-01-16 09:00:00\"}]}";
    let msgs = parse_export(Platform::Instagram, text).unwrap();
    assert_eq!(msgs.len(), 2);
    assert_eq!(msgs[0].content, "Hey");
    assert_eq!(msgs[1].sender, "Bob");
    assert_eq!(msgs[1].content, "");
    assert_eq!(msgs[1].id, None);
}

#[test]
fn discord_sniffs_json() {
    let text = "{\"messages\":[{\"id\":10,\"timestamp\":\"2024-01-15T10:30:00\",\"content\":\"yo\",\"author\":{\"name\":\"Alice\"}}]}";
    let msgs = parse_export(Platform::Discord, text).unwrap();
    assert_eq!(msgs.len(), 1);
    assert_eq!(msgs[0].sender, "Alice");
    assert_eq!(msgs[0].content, "yo");
    assert_eq!(msgs[0].id, Some(10));
}

#[test]
fn discord_sniffs_delimited_text() {
    let text = "Author,Date,Content\nAlice,2024-01-15 10:30:00,hello\nBob,2024-01-16 09:00:00,\"hi, there\"\n";
    let msgs = parse_export(Platform::Discord, text).unwrap();
    assert_eq!(msgs.len(), 2);
    assert_eq!(msgs[0].sender, "Alice");
    assert_eq!(msgs[0].content, "hello");
    assert_eq!(msgs[1].content, "hi, there");
}

#[test]
fn discord_sniffs_line_text() {
    let text = "[2024-01-15 10:30:00] Alice: from a plain log\n";
    let msgs = parse_export(Platform::Discord, text).unwrap();
    assert_eq!(msgs.len(), 1);
    assert_eq!(msgs[0].sender, "Alice");
    assert_eq!(msgs[0].content, "from a plain log");
}

#[test]
fn test_corrupt_json_file() {
    let err = parse_export(Platform::Telegram, "{ invalid json").unwrap_err();
    assert_eq!(err, ParseError::Document);
    let msg = err.describe();
    assert!(msg.contains("malformed"));
}

#[test]
fn record_error_carries_index() {
    // The second event lacks a sender.
    let text = "{\"messages\":[{\"type\":\"message\",\"date\":\"2024-01-15T10:30:00\",\"from\":\"Alice\",\"text\":\"hi\"},{\"type\":\"message\",\"date\":\"2024-01-15T10:31:00\",\"text\":\"no sender\"}]}";
    let err = parse_export(Platform::Telegram, text).unwrap_err();
    assert_eq!(err, ParseError::Record(1));
    assert_eq!(err.describe(), "malformed record at index 1");
}

#[test]
fn test_filter_by_sender() {
    let msgs = vec![
        msg("Alice", "one", ts(2024, 1, 1, 0, 0, 0)),
        msg("Bob", "two", ts(2024, 1, 2, 0, 0, 0)),
        msg("Alice", "three", ts(2024, 1, 3, 0, 0, 0)),
    ];
    let f = FilterConfig::new().with_sender("Alice");
    let kept = apply_filters(msgs, &f);
    assert_eq!(kept.len(), 2);
    assert_eq!(kept[0].content, "one");
    assert_eq!(kept[1].content, "three");
}

#[test]
fn test_filter_by_date_after() {
    let msgs = vec![
        msg("Alice", "jan", ts(2024, 1, 5, 0, 0, 0)),
        msg("Alice", "feb", ts(2024, 2, 10, 0, 0, 0)),
    ];
    let f = FilterConfig::new().with_date_from("2024-02-01").unwrap();
    let kept = apply_filters(msgs, &f);
    assert_eq!(kept.len(), 1);
    assert_eq!(kept[0].content, "feb");
}

#[test]
fn test_filter_by_date_before() {
    let msgs = vec![
        msg("Alice", "jan", ts(2024, 1, 5, 0, 0, 0)),
        msg("Alice", "mar", ts(2024, 3, 10, 0, 0, 0)),
    ];
    let f = FilterConfig::new().with_date_to("2024-02-01").unwrap();
    let kept = apply_filters(msgs, &f);
    assert_eq!(kept.len(), 1);
    assert_eq!(kept[0].content, "jan");
}

#[test]
fn test_filter_date_range() {
    let msgs = vec![
        msg("Alice", "early", ts(2024, 1, 5, 0, 0, 0)),
        msg("Alice", "mid", ts(2024, 2, 10, 0, 0, 0)),
        msg("Alice", "late", ts(2024, 3, 10, 0, 0, 0)),
    ];
    let f = FilterConfig::new()
        .with_date_from("2024-01-20")
        .unwrap()
        .with_date_to("2024-03-01")
        .unwrap();
    let kept = apply_filters(msgs, &f);
    assert_eq!(kept.len(), 1);
    assert_eq!(kept[0].content, "mid");
}

#[test]
fn test_combined_filters() {
    let msgs = vec![
        msg("Alice", "old", ts(2024, 1, 5, 0, 0, 0)),
        msg("Bob", "other", ts(2024, 2, 10, 0, 0, 0)),
        msg("Alice", "new", ts(2024, 2, 15, 0, 0, 0)),
    ];
    let f = FilterConfig::new()
        .with_date_from("2024-02-01")
        .unwrap()
        .with_sender("Alice");
    let kept = apply_filters(msgs, &f);
    assert_eq!(kept.len(), 1);
    assert_eq!(kept[0].content, "new");
}

#[test]
fn filter_bounds_are_inclusive() {
    let msgs = vec![msg("Alice", "edge", ts(2024, 2, 1, 12, 0, 0))];
    let f = FilterConfig::new()
        .with_date_from("2024-02-01")
        .unwrap()
        .with_date_to("2024-02-01")
        .unwrap();
    let kept = apply_filters(msgs, &f);
    assert_eq!(kept.len(), 1);
}

#[test]
fn test_invalid_date_format() {
    let r = FilterConfig::new().with_date_from("not-a-date");
    assert!(r.is_err());
    let text = r.unwrap_err().describe();
    assert!(text.contains("date"));
    assert!(text.contains("YYYY-MM-DD"));
}

#[test]
fn test_merge_consecutive_messages() {
    let msgs = vec![
        msg("Alice", "Hi", ts(2024, 1, 1, 10, 0, 0)),
        msg("Alice", "there", ts(2024, 1, 1, 10, 0, 5)),
        msg("Bob", "hello", ts(2024, 1, 1, 10, 1, 0)),
        msg("Alice", "back", ts(2024, 1, 1, 10, 2, 0)),
    ];
    let merged = merge_consecutive(msgs);
    assert_eq!(merged.len(), 3);
    assert_eq!(merged[0].sender, "Alice");
    assert_eq!(merged[0].content, "Hi\nthere");
    assert_eq!(merged[1].sender, "Bob");
    assert_eq!(merged[2].sender, "Alice");
    assert_eq!(merged[2].content, "back");
}

#[test]
fn merge_keeps_first_ids_and_latest_edit() {
    let mut first = msg("Alice", "a", ts(2024, 1, 1, 10, 0, 0));
    first.id = Some(1);
    first.reply_to = Some(9);
    let mut second = msg("Alice", "b", ts(2024, 1, 1, 10, 0, 5));
    second.id = Some(2);
    second.edited_at = Some(ts(2024, 1, 1, 11, 0, 0));
    let merged = merge_consecutive(vec![first, second]);
    assert_eq!(merged.len(), 1);
    assert_eq!(merged[0].id, Some(1));
    assert_eq!(merged[0].reply_to, Some(9));
    assert_eq!(merged[0].timestamp, ts(2024, 1, 1, 10, 0, 0));
    assert_eq!(merged[0].edited_at, Some(ts(2024, 1, 1, 11, 0, 0)));
}

#[test]
fn merge_scenario_renders_single_row() {
    // Two consecutive records from one sender, merged and rendered as
    // delimited text: a header row, then exactly one data row whose
    // content holds the embedded line break.
    let msgs = vec![
        msg("Alice", "Hi", ts(2024, 1, 1, 10, 0, 0)),
        msg("Alice", "there", ts(2024, 1, 1, 10, 0, 5)),
    ];
    let merged = merge_consecutive(msgs);
    let out = render_csv(&merged, &OutputConfig::new());
    assert_eq!(out, "sender,content\nAlice,\"Hi\nthere\"\n");
}

#[test]
fn absent_id_renders_as_null() {
    // A record without an id, serialized with ids toggled on in the
    // array-document form, renders the id as an explicit null.
    let msgs = vec![msg("Alice", "hi", ts(2024, 1, 1, 10, 0, 0))];
    let cfg = OutputConfig::new().with_ids();
    let out = render_json(&msgs, &cfg);
    assert_eq!(out, "[{\"sender\":\"Alice\",\"content\":\"hi\",\"id\":null}]");
}

#[test]
fn csv_quoting_rules() {
    let msgs = vec![
        msg("Alice", "plain", ts(2024, 1, 1, 10, 0, 0)),
        msg("Bo,b", "say \"hi\"", ts(2024, 1, 1, 10, 1, 0)),
    ];
    let out = render_csv(&msgs, &OutputConfig::new());
    assert_eq!(
        out,
        "sender,content\nAlice,plain\n\"Bo,b\",\"say \"\"hi\"\"\"\n"
    );
}

#[test]
fn csv_timestamp_column() {
    let msgs = vec![msg("Alice", "hi", ts(2024, 1, 15, 10, 30, 0))];
    let cfg = OutputConfig::new().with_timestamps();
    let out = render_csv(&msgs, &cfg);
    assert_eq!(out, "sender,content,timestamp\nAlice,hi,2024-01-15 10:30:00\n");
}

#[test]
fn test_with_ids() {
    let msgs = parse_export(Platform::Telegram, &telegram_fixture()).unwrap();
    let cfg = OutputConfig::new().with_ids();
    let out = render_json(&msgs, &cfg);
    assert!(out.contains("\"id\":1"));
    assert!(out.contains("\"id\":2"));
}

#[test]
fn jsonl_one_object_per_line() {
    let msgs = vec![
        msg("Alice", "one", ts(2024, 1, 1, 10, 0, 0)),
        msg("Bob", "two", ts(2024, 1, 1, 10, 1, 0)),
    ];
    let out = render_jsonl(&msgs, &OutputConfig::new());
    assert_eq!(
        out,
        "{\"sender\":\"Alice\",\"content\":\"one\"}\n{\"sender\":\"Bob\",\"content\":\"two\"}\n"
    );
}

#[test]
fn json_escapes_special_characters() {
    let msgs = vec![msg("A\"B", "tab\there\nand \\slash", ts(2024, 1, 1, 0, 0, 0))];
    let out = render_json(&msgs, &OutputConfig::new());
    assert_eq!(
        out,
        "[{\"sender\":\"A\\\"B\",\"content\":\"tab\\there\\nand \\\\slash\"}]"
    );
}

#[test]
fn test_both_modes_produce_same_output() {
    let fixture = telegram_fixture();
    let f = FilterConfig::new().with_date_from("2024-01-01").unwrap();
    let cfg = OutputConfig::new().with_timestamps().with_ids();
    let lazy = run_pipeline(Platform::Telegram, &fixture, &f, &cfg, Format::Csv, true, true)
        .unwrap();
    let eager = run_pipeline(Platform::Telegram, &fixture, &f, &cfg, Format::Csv, true, false)
        .unwrap();
    assert_eq!(lazy, eager);
}

#[test]
fn both_modes_agree_on_every_format() {
    let fixture = telegram_fixture();
    let f = FilterConfig::new();
    let cfg = OutputConfig::new().with_edited().with_replies();
    for format in [Format::Csv, Format::Json, Format::Jsonl] {
        let lazy =
            run_pipeline(Platform::Telegram, &fixture, &f, &cfg, format, false, true).unwrap();
        let eager =
            run_pipeline(Platform::Telegram, &fixture, &f, &cfg, format, false, false).unwrap();
        assert_eq!(lazy, eager);
    }
}

#[test]
fn streaming_mode_reports_first_error() {
    let text = "{\"messages\":[{\"type\":\"message\",\"date\":\"bad date\",\"from\":\"Alice\",\"text\":\"hi\"}]}";
    let f = FilterConfig::new();
    let cfg = OutputConfig::new();
    let lazy = run_pipeline(Platform::Telegram, text, &f, &cfg, Format::Csv, true, true);
    let eager = run_pipeline(Platform::Telegram, text, &f, &cfg, Format::Csv, true, false);
    assert_eq!(lazy.unwrap_err(), ParseError::Record(0));
    assert_eq!(eager.unwrap_err(), ParseError::Record(0));
}

#[test]
fn no_merge_keeps_rows_separate() {
    let fixture = "[2024-01-15 10:30:00] Alice: Hi\n[2024-01-15 10:30:05] Alice: there\n";
    let f = FilterConfig::new();
    let cfg = OutputConfig::new();
    let merged =
        run_pipeline(Platform::WhatsApp, fixture, &f, &cfg, Format::Csv, true, false).unwrap();
    let unmerged =
        run_pipeline(Platform::WhatsApp, fixture, &f, &cfg, Format::Csv, false, false).unwrap();
    assert_ne!(merged, unmerged);
    assert_eq!(merged, "sender,content\nAlice,\"Hi\nthere\"\n");
    assert_eq!(unmerged, "sender,content\nAlice,Hi\nAlice,there\n");
}

#[test]
fn test_with_timestamps() {
    let fixture = telegram_fixture();
    let f = FilterConfig::new();
    let with = run_pipeline(
        Platform::Telegram,
        &fixture,
        &f,
        &OutputConfig::new().with_timestamps(),
        Format::Csv,
        true,
        false,
    )
    .unwrap();
    let without = run_pipeline(
        Platform::Telegram,
        &fixture,
        &f,
        &OutputConfig::new(),
        Format::Csv,
        true,
        false,
    )
    .unwrap();
    assert_ne!(with, without);
    assert!(with.contains("2024-01-15 10:30:00"));
}

#[test]
fn merge_is_idempotent_on_its_output() {
    let msgs = vec![
        msg("Alice", "a", ts(2024, 1, 1, 10, 0, 0)),
        msg("Alice", "b", ts(2024, 1, 1, 10, 0, 5)),
        msg("Bob", "c", ts(2024, 1, 1, 10, 1, 0)),
        msg("Bob", "d", ts(2024, 1, 1, 10, 2, 0)),
    ];
    let once = merge_consecutive(msgs);
    let again: Vec<chatpack::Message> = merge_consecutive(
        once.iter().map(|m| m.duplicate()).collect(),
    );
    assert_eq!(once.len(), again.len());
    for (a, b) in once.iter().zip(again.iter()) {
        assert_eq!(a.sender, b.sender);
        assert_eq!(a.content, b.content);
        assert_eq!(a.timestamp, b.timestamp);
    }
}

#[test]
fn merge_preserves_joined_content_and_senders() {
    let msgs = vec![
        msg("Alice", "a", ts(2024, 1, 1, 10, 0, 0)),
        msg("Alice", "b", ts(2024, 1, 1, 10, 0, 5)),
        msg("Bob", "c", ts(2024, 1, 1, 10, 1, 0)),
    ];
    let joined_before: Vec<String> = msgs.iter().map(|m| m.content.clone()).collect();
    let merged = merge_consecutive(msgs);
    let joined_after: Vec<String> = merged.iter().map(|m| m.content.clone()).collect();
    assert_eq!(joined_before.join("\n"), joined_after.join("\n"));
    assert_eq!(merged.iter().filter(|m| m.sender == "Alice").count(), 1);
    assert_eq!(merged.iter().filter(|m| m.sender == "Bob").count(), 1);
}

#[test]
fn platform_and_format_names() {
    assert_eq!(Platform::Telegram.name(), "Telegram");
    assert_eq!(Platform::WhatsApp.name(), "WhatsApp");
    assert_eq!(Platform::Instagram.name(), "Instagram");
    assert_eq!(Platform::Discord.name(), "Discord");
    assert_eq!(Format::Csv.name(), "CSV");
    assert_eq!(Format::Json.name(), "JSON");
    assert_eq!(Format::Jsonl.name(), "JSONL");
}
