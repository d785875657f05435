use codex_chat::chunk::FunctionDelta;
use codex_chat::chunk::ToolCallDelta;
use codex_chat::name_map::NameMap;
use codex_chat::sse::ends_stream;
use codex_chat::sse::SseLines;
use codex_chat::text::char_is_white_space;
use codex_chat::text::find_char;
use codex_chat::text::same_text;
use codex_chat::text::strip_prefix;
use codex_chat::text::trim;
use codex_chat::text::trim_end;
use codex_chat::text::trim_end_returns;
use codex_chat::text::trim_start;
use codex_chat::tool_calls::ToolCallBuilder;
use codex_chat::tool_calls::ToolCallTable;
use codex_chat::tool_map::RegisteredTool;
use codex_chat::tool_map::ToolKind;
use codex_chat::tool_map::ToolReverseMap;

#[test]
fn white_space_is_that_of_the_standard_library() {
    for c in '\u{0}'..=char::MAX {
        assert_eq!(char_is_white_space(c), c.is_whitespace(), "{c:?}");
    }
}

#[test]
fn text_functions_agree_with_the_standard_library() {
    let texts = [
        "", " ", "a", " a ", "\u{a0}\u{3000}x y\u{2003}\t\r\n", "\r\r", "x\r\r", "\ra\r", "data:",
        "data: x", "data", "Data: x", "\u{1f600}data:\u{e9}\n", "a\nb\nc", "\n",
    ];
    for t in texts {
        assert_eq!(trim(t), t.trim());
        assert_eq!(trim_start(t), t.trim_start());
        assert_eq!(trim_end(t), t.trim_end());
        assert_eq!(trim_end_returns(t), t.trim_end_matches('\r'));
        assert_eq!(find_char(t, '\n'), t.chars().position(|c| c == '\n'));
        for p in ["", "data:", " ", "a", "\u{1f600}"] {
            assert_eq!(strip_prefix(t, p), t.strip_prefix(p));
            assert_eq!(same_text(t, p), t == p);
        }
    }
}

#[test]
fn the_end_marker_is_found_between_white_space() {
    assert!(ends_stream("[DONE]"));
    assert!(ends_stream(" \n[DONE]\t"));
    assert!(!ends_stream("[DONE"));
    assert!(!ends_stream("[done]"));
    assert!(!ends_stream(""));
}

#[test]
fn data_lines_are_joined_and_dispatched_by_a_blank_line() {
    let mut lines = SseLines::new();
    let (payloads, done) = lines.feed("event: x\ndata:  a b \r\ndata:c\nid: 1\n: note\n\r\ndata: d");
    assert_eq!(payloads, vec!["a b \nc".to_owned()]);
    assert!(!done);
    assert_eq!(lines.line, "data: d");
    assert_eq!(lines.data, "");
    let (payloads, done) = lines.feed("ata\n");
    assert!(payloads.is_empty());
    assert!(!done);
    assert_eq!(lines.data, "data");
    let (payloads, done) = lines.feed("\n\n\n");
    assert_eq!(payloads, vec!["data".to_owned()]);
    assert!(!done);
}

#[test]
fn empty_data_lines_gather_nothing_at_first() {
    let mut lines = SseLines::new();
    let (payloads, _) = lines.feed("data:\ndata: \n\ndata:\ndata: x\ndata:\ndata: y\n\n");
    assert_eq!(payloads, vec!["x\n\ny".to_owned()]);
}

#[test]
fn the_end_marker_stops_the_pass() {
    let mut lines = SseLines::new();
    let (payloads, done) = lines.feed("data: a\n\ndata: [DONE]\n\ndata: b\n\nrest");
    assert_eq!(payloads, vec!["a".to_owned()]);
    assert!(done);
    assert_eq!(lines.line, "data: b\n\nrest");
    assert_eq!(lines.data, "");
}

#[test]
fn written_payloads_are_read_back() {
    let payloads = ["{}", "x y ", "[DONE] not", "\u{e9}"];
    let mut body = String::new();
    for p in payloads {
        body.push_str("data: ");
        body.push_str(p);
        body.push_str("\n\n");
    }
    for cut in 0..body.chars().count() {
        let head: String = body.chars().take(cut).collect();
        let tail: String = body.chars().skip(cut).collect();
        let mut lines = SseLines::new();
        let mut read = lines.feed(&head).0;
        read.extend(lines.feed(&tail).0);
        assert_eq!(read, payloads);
        assert_eq!(lines.line, "");
        assert_eq!(lines.data, "");
    }
}

fn fragment(index: Option<usize>, id: Option<&str>, name: Option<&str>, arguments: Option<&str>) -> ToolCallDelta {
    ToolCallDelta {
        index,
        id: id.map(str::to_owned),
        function: Some(FunctionDelta {
            name: name.map(str::to_owned),
            arguments: arguments.map(str::to_owned),
        }),
    }
}

#[test]
fn fragments_add_up_per_index() {
    let mut table = ToolCallTable::new();
    assert!(table.is_empty());
    table.add(&fragment(Some(5), Some(""), Some("f"), None));
    table.add(&fragment(None, Some("zero"), None, Some("0")));
    table.add(&fragment(Some(5), Some("five"), Some("oo"), Some("a")));
    table.add(&fragment(Some(usize::MAX), None, None, None));
    table.add(&fragment(Some(5), Some("late"), None, Some("b")));
    table.add(&ToolCallDelta { index: Some(0), id: None, function: None });
    assert!(!table.is_empty());
    assert_eq!(table.len(), 3);
    let expected = |id: &str, name: &str, arguments: &str| ToolCallBuilder {
        id: id.to_owned(),
        name: name.to_owned(),
        arguments: arguments.to_owned(),
    };
    assert_eq!(*table.nth(0), expected("zero", "", "0"));
    assert_eq!(*table.nth(1), expected("five", "foo", "ab"));
    assert_eq!(*table.nth(2), expected("", "", ""));
}

#[test]
fn a_later_entry_replaces_an_earlier_one() {
    let mut map: NameMap<u32> = NameMap::new();
    assert_eq!(map.get("a"), None);
    map.insert("a".to_owned(), 1);
    map.insert("b".to_owned(), 2);
    map.insert("a".to_owned(), 3);
    assert_eq!(map.get("a"), Some(&3));
    assert_eq!(map.get("b"), Some(&2));
    assert_eq!(map.get("A"), None);
}

#[test]
fn tools_are_found_by_wire_name() {
    let tool = |name: &str| RegisteredTool {
        kind: ToolKind::Custom,
        decoded_namespace: None,
        decoded_name: name.to_owned(),
    };
    let mut map = ToolReverseMap::new();
    map.insert("w".to_owned(), tool("x"));
    assert_eq!(map.get("w"), Some(&tool("x")));
    assert_eq!(map.get("x"), None);
}
