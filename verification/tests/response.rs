use codex_chat::chunk::ChatChoice;
use codex_chat::chunk::ChatChunk;
use codex_chat::chunk::ChatDelta;
use codex_chat::chunk::FunctionDelta;
use codex_chat::chunk::ToolCallDelta;
use codex_chat::events::ApiError;
use codex_chat::events::ContentItem;
use codex_chat::events::ResponseEvent;
use codex_chat::events::ResponseItem;
use codex_chat::response::extract_custom_input;
use codex_chat::response::input_or_arguments;
use codex_chat::response::tool_call_item;
use codex_chat::response::ChatState;
use codex_chat::stream::parse_chat_sse_stream;
use codex_chat::stream::Action;
use codex_chat::stream::Reply;
use codex_chat::tool_calls::ToolCallBuilder;
use codex_chat::tool_map::RegisteredTool;
use codex_chat::tool_map::ToolKind;
use codex_chat::tool_map::ToolReverseMap;
use serde_json::Value;

/// An optional field: missing and null are `None`, a value of another type is no chunk.
fn optional<T>(
    object: &Value,
    key: &str,
    read: impl Fn(&Value) -> Option<T>,
) -> Result<Option<T>, ()> {
    match object.get(key) {
        None => Ok(None),
        Some(value) => {
            if value.is_null() {
                Ok(None)
            } else {
                match read(value) {
                    Some(x) => Ok(Some(x)),
                    None => Err(()),
                }
            }
        }
    }
}

fn text(value: &Value) -> Option<String> {
    value.as_str().map(str::to_owned)
}

fn items<T>(value: &Value, read: impl Fn(&Value) -> Option<T>) -> Option<Vec<T>> {
    let mut out = Vec::new();
    for item in value.as_array()? {
        out.push(read(item)?);
    }
    Some(out)
}

fn function_delta(value: &Value) -> Option<FunctionDelta> {
    value.as_object()?;
    Some(FunctionDelta {
        name: optional(value, "name", text).ok()?,
        arguments: optional(value, "arguments", text).ok()?,
    })
}

fn tool_call_delta(value: &Value) -> Option<ToolCallDelta> {
    value.as_object()?;
    Some(ToolCallDelta {
        index: optional(value, "index", |v| v.as_u64().map(|n| n as usize)).ok()?,
        id: optional(value, "id", text).ok()?,
        function: optional(value, "function", function_delta).ok()?,
    })
}

fn delta(value: &Value) -> Option<ChatDelta> {
    value.as_object()?;
    Some(ChatDelta {
        content: optional(value, "content", text).ok()?,
        tool_calls: optional(value, "tool_calls", |v| items(v, tool_call_delta)).ok()?,
    })
}

fn choice(value: &Value) -> Option<ChatChoice> {
    value.as_object()?;
    Some(ChatChoice {
        delta: optional(value, "delta", delta).ok()?,
        finish_reason: optional(value, "finish_reason", text).ok()?,
    })
}

fn parse(payload: &str) -> Option<ChatChunk> {
    let value: Value = serde_json::from_str(payload).ok()?;
    value.as_object()?;
    Some(ChatChunk {
        id: optional(&value, "id", text).ok()?,
        choices: optional(&value, "choices", |v| items(v, choice)).ok()?,
    })
}

/// Runs a stream over pieces of bytes; `failure` breaks them off with an error, and the channel
/// takes no more than `room` items.
fn run(
    pieces: Vec<Vec<u8>>,
    failure: Option<&str>,
    room: usize,
    tools: ToolReverseMap,
) -> (Vec<Result<ResponseEvent, ApiError>>, Vec<String>) {
    let mut out: Vec<Result<ResponseEvent, ApiError>> = Vec::new();
    let mut asked: Vec<String> = Vec::new();
    let mut rest = pieces.into_iter();
    let (mut stream, mut action) = parse_chat_sse_stream(tools);
    loop {
        let reply = match action {
            Action::Send(events) => {
                let mut reply = Reply::Sent;
                for event in events {
                    if out.len() == room {
                        reply = Reply::Closed;
                        break;
                    }
                    out.push(Ok(event));
                }
                reply
            }
            Action::Read => match rest.next() {
                Some(bytes) => Reply::Bytes(bytes),
                None => match failure {
                    Some(why) => Reply::ReadError(why.to_owned()),
                    None => Reply::End,
                },
            },
            Action::Parse(payload) => {
                let parsed = parse(&payload);
                asked.push(payload);
                Reply::Parsed(parsed)
            }
            Action::Finish(events) => {
                for event in events {
                    if out.len() == room {
                        break;
                    }
                    out.push(Ok(event));
                }
                return (out, asked);
            }
            Action::Fail(error) => {
                if out.len() < room {
                    out.push(Err(error));
                }
                return (out, asked);
            }
            Action::Stop => return (out, asked),
        };
        assert!(stream.accepts(&reply));
        action = stream.drive_stream(reply);
    }
}

fn events_of(body: &str, tools: ToolReverseMap) -> Vec<Result<ResponseEvent, ApiError>> {
    run(vec![body.as_bytes().to_vec()], None, usize::MAX, tools).0
}

fn build_sse(lines: &[&str]) -> String {
    let mut body = String::new();
    for line in lines {
        body.push_str(line);
        body.push('\n');
    }
    body
}

fn chunk_json(id: &str, content: Option<&str>, finish: Option<&str>) -> String {
    let content_val = match content {
        Some(c) => format!("\"{}\"", c.replace('"', "\\\"")),
        None => "null".into(),
    };
    let finish_val = match finish {
        Some(f) => format!("\"{f}\""),
        None => "null".into(),
    };
    format!(
        r#"{{"id":"{id}","choices":[{{"index":0,"delta":{{"role":"assistant","content":{content_val}}},"finish_reason":{finish_val}}}]}}"#
    )
}

fn function_tool(namespace: Option<&str>, decoded: Option<&str>, name: &str) -> RegisteredTool {
    RegisteredTool {
        kind: ToolKind::Function { namespace: namespace.map(str::to_owned) },
        decoded_namespace: decoded.map(str::to_owned),
        decoded_name: name.to_owned(),
    }
}

fn custom_tool(name: &str) -> RegisteredTool {
    RegisteredTool {
        kind: ToolKind::Custom,
        decoded_namespace: None,
        decoded_name: name.to_owned(),
    }
}

fn looks_random(id: &str) -> bool {
    id.len() == 36
        && id.chars().enumerate().all(|(i, c)| match i {
            8 | 13 | 18 | 23 => c == '-',
            14 => c == '4',
            19 => matches!(c, '8' | '9' | 'a' | 'b'),
            _ => c.is_ascii_digit() || ('a'..='f').contains(&c),
        })
}

#[test]
fn plain_text_stream() {
    let c1 = chunk_json("stream-1", Some("Hello"), None);
    let c2 = chunk_json("stream-1", Some(" world"), None);
    let c3 = chunk_json("stream-1", None, Some("stop"));

    let body = build_sse(&[
        &format!("data: {c1}"),
        "",
        &format!("data: {c2}"),
        "",
        &format!("data: {c3}"),
        "",
        "data: [DONE]",
        "",
    ]);
    let events = events_of(&body, ToolReverseMap::new());

    // Expected: Created, OutputItemAdded, OutputTextDelta x2, OutputItemDone, Completed
    let mut it = events.iter();

    assert!(matches!(it.next(), Some(Ok(ResponseEvent::Created))));
    assert!(matches!(
        it.next(),
        Some(Ok(ResponseEvent::OutputItemAdded(ResponseItem::Message { .. })))
    ));
    assert!(matches!(
        it.next(),
        Some(Ok(ResponseEvent::OutputTextDelta(s))) if s == "Hello"
    ));
    assert!(matches!(
        it.next(),
        Some(Ok(ResponseEvent::OutputTextDelta(s))) if s == " world"
    ));
    assert!(matches!(
        it.next(),
        Some(Ok(ResponseEvent::OutputItemDone(ResponseItem::Message { .. })))
    ));
    let completed = it.next().unwrap();
    assert!(matches!(completed, Ok(ResponseEvent::Completed { end_turn: Some(true), .. })));
    assert!(it.next().is_none());
}

#[test]
fn function_tool_call_finish_reason_tool_calls() {
    let mut tool_map = ToolReverseMap::new();
    tool_map.insert("my_func".to_owned(), function_tool(None, None, "my_func"));

    let chunk1 = r#"{"id":"s1","choices":[{"index":0,"delta":{"tool_calls":[{"index":0,"id":"tc_1","type":"function","function":{"name":"my_func","arguments":""}}]},"finish_reason":null}]}"#;
    let chunk2 = r#"{"id":"s1","choices":[{"index":0,"delta":{"tool_calls":[{"index":0,"function":{"arguments":"{\"x\":1}"}}]},"finish_reason":null}]}"#;
    let chunk3 = r#"{"id":"s1","choices":[{"index":0,"delta":{},"finish_reason":"tool_calls"}]}"#;

    let body = build_sse(&[
        &format!("data: {chunk1}"),
        "",
        &format!("data: {chunk2}"),
        "",
        &format!("data: {chunk3}"),
        "",
        "data: [DONE]",
        "",
    ]);
    let events = events_of(&body, tool_map);

    let mut it = events.iter();
    assert!(matches!(it.next(), Some(Ok(ResponseEvent::Created))));
    assert!(matches!(
        it.next(),
        Some(Ok(ResponseEvent::OutputItemAdded(ResponseItem::FunctionCall {
            name,
            ..
        }))) if name == "my_func"
    ));
    assert!(matches!(
        it.next(),
        Some(Ok(ResponseEvent::OutputItemDone(ResponseItem::FunctionCall { .. })))
    ));
    // Completed with end_turn=false because there were tool calls.
    assert!(matches!(
        it.next(),
        Some(Ok(ResponseEvent::Completed { end_turn: Some(false), .. }))
    ));
}

#[test]
fn function_tool_call_finish_reason_stop_ollama() {
    // Ollama sends "stop" even when tool calls are buffered.
    let mut tool_map = ToolReverseMap::new();
    tool_map.insert("ollamatool".to_owned(), function_tool(None, None, "ollamatool"));

    let chunk1 = r#"{"id":"o1","choices":[{"index":0,"delta":{"tool_calls":[{"index":0,"id":"tc_o1","type":"function","function":{"name":"ollamatool","arguments":""}}]},"finish_reason":null}]}"#;
    let chunk2 = r#"{"id":"o1","choices":[{"index":0,"delta":{"tool_calls":[{"index":0,"function":{"arguments":"{}"}}]},"finish_reason":null}]}"#;
    // Ollama sends "stop" instead of "tool_calls".
    let chunk3 = r#"{"id":"o1","choices":[{"index":0,"delta":{},"finish_reason":"stop"}]}"#;

    let body = build_sse(&[
        &format!("data: {chunk1}"),
        "",
        &format!("data: {chunk2}"),
        "",
        &format!("data: {chunk3}"),
        "",
        "data: [DONE]",
        "",
    ]);
    let events = events_of(&body, tool_map);

    // Should still flush tool call builders even though finish_reason = "stop".
    let has_added = events.iter().any(|e| {
        matches!(
            e,
            Ok(ResponseEvent::OutputItemAdded(ResponseItem::FunctionCall { .. }))
        )
    });
    assert!(has_added, "expected OutputItemAdded for tool call");
}

#[test]
fn custom_tool_call() {
    let mut tool_map = ToolReverseMap::new();
    tool_map.insert("my_custom".to_owned(), custom_tool("my_custom"));

    let chunk1 = r#"{"id":"c1","choices":[{"index":0,"delta":{"tool_calls":[{"index":0,"id":"tc_c1","type":"function","function":{"name":"my_custom","arguments":""}}]},"finish_reason":null}]}"#;
    let chunk2 = r#"{"id":"c1","choices":[{"index":0,"delta":{"tool_calls":[{"index":0,"function":{"arguments":"{\"input\":\"hello world\"}"}}]},"finish_reason":null}]}"#;
    let chunk3 = r#"{"id":"c1","choices":[{"index":0,"delta":{},"finish_reason":"tool_calls"}]}"#;

    let body = build_sse(&[
        &format!("data: {chunk1}"),
        "",
        &format!("data: {chunk2}"),
        "",
        &format!("data: {chunk3}"),
        "",
        "data: [DONE]",
        "",
    ]);
    let events = events_of(&body, tool_map);

    let added = events.iter().find(|e| {
        matches!(
            e,
            Ok(ResponseEvent::OutputItemAdded(ResponseItem::CustomToolCall { .. }))
        )
    });
    assert!(added.is_some(), "expected OutputItemAdded for custom tool call");

    if let Some(Ok(ResponseEvent::OutputItemAdded(ResponseItem::CustomToolCall {
        input,
        name,
        ..
    }))) = added
    {
        assert_eq!(name, "my_custom");
        assert_eq!(input, "hello world");
    }
}

#[test]
fn a_text_response_in_full() {
    let c1 = chunk_json("stream-1", Some("Hello"), None);
    let c2 = chunk_json("stream-2", None, Some("stop"));
    let body = build_sse(&[&format!("data: {c1}"), "", &format!("data: {c2}"), ""]);
    let events = events_of(&body, ToolReverseMap::new());
    let id = match &events[1] {
        Ok(ResponseEvent::OutputItemAdded(ResponseItem::Message { id: Some(id), .. })) => id.clone(),
        other => panic!("unexpected {other:?}"),
    };
    assert!(looks_random(&id), "{id}");
    let message = || ResponseItem::Message {
        id: Some(id.clone()),
        role: "assistant".to_owned(),
        content: vec![],
        phase: None,
    };
    assert_eq!(
        events,
        vec![
            Ok(ResponseEvent::Created),
            Ok(ResponseEvent::OutputItemAdded(message())),
            Ok(ResponseEvent::OutputTextDelta("Hello".to_owned())),
            Ok(ResponseEvent::OutputItemDone(message())),
            Ok(ResponseEvent::Completed {
                response_id: "stream-1".to_owned(),
                token_usage: None,
                end_turn: Some(true),
            }),
        ]
    );
}

#[test]
fn an_empty_stream_gets_a_fresh_response_id() {
    let events = events_of("", ToolReverseMap::new());
    assert_eq!(events.len(), 2);
    assert_eq!(events[0], Ok(ResponseEvent::Created));
    match &events[1] {
        Ok(ResponseEvent::Completed { response_id, token_usage: None, end_turn: Some(true) }) => {
            assert!(looks_random(response_id), "{response_id}")
        }
        other => panic!("unexpected {other:?}"),
    }
}

#[test]
fn tool_calls_go_out_by_rising_index() {
    let chunk = r#"{"id":"s","choices":[{"delta":{"tool_calls":[{"index":7,"id":"b","function":{"name":"two"}},{"index":2,"id":"a","function":{"name":"one","arguments":"[1"}},{"index":7,"function":{"arguments":"x"}},{"index":2,"id":"ignored","function":{"arguments":"]"}},{"id":"z","function":{"name":"zero"}}]}}]}"#;
    let events = events_of(&build_sse(&[&format!("data: {chunk}"), ""]), ToolReverseMap::new());
    let mut calls = Vec::new();
    for event in &events {
        if let Ok(ResponseEvent::OutputItemDone(ResponseItem::FunctionCall {
            id: Some(id),
            name,
            namespace,
            arguments,
            call_id,
        })) = event
        {
            assert!(looks_random(id));
            assert!(namespace.is_none());
            calls.push((name.as_str(), arguments.as_str(), call_id.as_str()));
        }
    }
    assert_eq!(calls, vec![("zero", "", "z"), ("one", "[1]", "a"), ("two", "x", "b")]);
    // Each call is added and at once done, with one item.
    assert_eq!(events.len(), 8);
    for k in 0..3 {
        match (&events[1 + 2 * k], &events[2 + 2 * k]) {
            (
                Ok(ResponseEvent::OutputItemAdded(added)),
                Ok(ResponseEvent::OutputItemDone(done)),
            ) => assert_eq!(added, done),
            other => panic!("unexpected {other:?}"),
        }
    }
    assert_eq!(
        events[7],
        Ok(ResponseEvent::Completed {
            response_id: "s".to_owned(),
            token_usage: None,
            end_turn: Some(false),
        })
    );
}

#[test]
fn cuts_within_lines_do_not_matter() {
    let c1 = chunk_json("s", Some("one"), None);
    let c2 = chunk_json("s", Some("two"), None);
    let body = build_sse(&[&format!("data: {c1}\r"), "\r", ": note", &format!("data:{c2}"), ""]);
    let whole = run(vec![body.as_bytes().to_vec()], None, usize::MAX, ToolReverseMap::new());
    let single: Vec<Vec<u8>> = body.bytes().map(|b| vec![b]).collect();
    let cut = run(single, None, usize::MAX, ToolReverseMap::new());
    assert_eq!(whole.1, vec![c1, c2]);
    assert_eq!(whole.1, cut.1);
    let deltas = |events: &Vec<Result<ResponseEvent, ApiError>>| -> Vec<String> {
        let mut out = Vec::new();
        for event in events {
            if let Ok(ResponseEvent::OutputTextDelta(text)) = event {
                out.push(text.clone());
            }
        }
        out
    };
    assert_eq!(deltas(&whole.0), vec!["one".to_owned(), "two".to_owned()]);
    assert_eq!(deltas(&whole.0), deltas(&cut.0));
}

#[test]
fn a_finished_stream_is_not_read_further() {
    let c1 = chunk_json("s", Some("one"), Some("stop"));
    let c2 = chunk_json("s", Some("two"), None);
    let first = build_sse(&[&format!("data: {c1}"), ""]);
    let second = build_sse(&[&format!("data: {c2}"), ""]);
    let pieces = vec![first.into_bytes(), second.into_bytes()];
    let (events, asked) = run(pieces, None, usize::MAX, ToolReverseMap::new());
    assert_eq!(asked, vec![c1]);
    assert_eq!(events.len(), 5);
}

#[test]
fn lines_after_the_end_marker_wait_for_more_bytes() {
    let c1 = chunk_json("s", Some("late"), None);
    let first = build_sse(&["data: [DONE]", "", &format!("data: {c1}"), ""]);
    let alone = run(vec![first.clone().into_bytes()], None, usize::MAX, ToolReverseMap::new());
    assert!(alone.1.is_empty());
    let again = vec![first.into_bytes(), b"\n".to_vec()];
    let more = run(again, None, usize::MAX, ToolReverseMap::new());
    assert_eq!(more.1, vec![c1]);
}

#[test]
fn data_without_a_blank_line_is_parsed_at_the_end() {
    let c1 = chunk_json("s", Some("tail"), None);
    let body = format!("data: {c1}\n");
    let (events, asked) =
        run(vec![body.into_bytes()], None, usize::MAX, ToolReverseMap::new());
    assert_eq!(asked, vec![c1]);
    assert_eq!(events[2], Ok(ResponseEvent::OutputTextDelta("tail".to_owned())));
    assert_eq!(events.len(), 5);
    // An incomplete line is dropped, and so is a gathered end marker.
    let dropped = run(vec![b"data: x".to_vec()], None, usize::MAX, ToolReverseMap::new());
    assert!(dropped.1.is_empty());
    let done = run(vec![b"data: [DONE]\n".to_vec()], None, usize::MAX, ToolReverseMap::new());
    assert!(done.1.is_empty());
    assert_eq!(done.0.len(), 2);
}

#[test]
fn payloads_that_are_no_chunk_are_skipped() {
    let c1 = chunk_json("s", Some("text"), None);
    let body = build_sse(&["data: not json", "", "data: {\"id\":7}", "", &format!("data: {c1}"), ""]);
    let (events, asked) =
        run(vec![body.into_bytes()], None, usize::MAX, ToolReverseMap::new());
    assert_eq!(asked.len(), 3);
    assert_eq!(events.len(), 5);
    assert_eq!(events[2], Ok(ResponseEvent::OutputTextDelta("text".to_owned())));
}

#[test]
fn a_read_error_ends_the_stream() {
    let c1 = chunk_json("s", Some("text"), None);
    let body = build_sse(&[&format!("data: {c1}"), ""]);
    let (events, _) =
        run(vec![body.into_bytes()], Some("reset"), usize::MAX, ToolReverseMap::new());
    assert_eq!(events.len(), 4);
    assert_eq!(events[3], Err(ApiError::Stream("byte stream error: reset".to_owned())));
}

#[test]
fn bytes_that_are_not_utf8_end_the_stream() {
    let bytes = vec![b'd', 0xff, b'a'];
    let why = std::str::from_utf8(&bytes).unwrap_err().to_string();
    let (events, _) = run(vec![bytes], None, usize::MAX, ToolReverseMap::new());
    assert_eq!(
        events,
        vec![
            Ok(ResponseEvent::Created),
            Err(ApiError::Stream(format!("UTF-8 error: {why}"))),
        ]
    );
    // A character that is cut in two is an error of the first piece.
    let cut = vec!["data: é".as_bytes()[..7].to_vec(), vec![0xa9]];
    let (events, _) = run(cut, None, usize::MAX, ToolReverseMap::new());
    assert_eq!(events.len(), 2);
    assert!(events[1].is_err());
}

#[test]
fn characters_beyond_ascii_arrive_unchanged() {
    let c1 = chunk_json("s", Some("h\u{e9} \u{1f600} \u{3000}"), None);
    let body = build_sse(&[&format!("data: {c1}"), ""]);
    let (events, asked) =
        run(vec![body.into_bytes()], None, usize::MAX, ToolReverseMap::new());
    assert_eq!(asked, vec![c1]);
    assert_eq!(
        events[2],
        Ok(ResponseEvent::OutputTextDelta("h\u{e9} \u{1f600} \u{3000}".to_owned()))
    );
}

#[test]
fn a_closed_channel_stops_the_stream() {
    let c1 = chunk_json("s", Some("text"), None);
    let body = build_sse(&[&format!("data: {c1}"), ""]).into_bytes();
    for room in 0..5 {
        let (events, _) = run(vec![body.clone()], None, room, ToolReverseMap::new());
        assert_eq!(events.len(), room);
    }
}

#[test]
fn a_reply_that_was_not_asked_for_is_not_accepted() {
    let (mut stream, first) = parse_chat_sse_stream(ToolReverseMap::new());
    assert_eq!(first, Action::Send(vec![ResponseEvent::Created]));
    assert!(!stream.accepts(&Reply::End));
    assert!(!stream.accepts(&Reply::Parsed(None)));
    assert!(stream.accepts(&Reply::Closed));
    assert_eq!(stream.drive_stream(Reply::Sent), Action::Read);
    assert!(!stream.accepts(&Reply::Sent));
    assert!(stream.accepts(&Reply::ReadError(String::new())));
    assert!(stream.accepts(&Reply::Bytes(vec![])));
    assert_eq!(stream.drive_stream(Reply::Bytes(vec![])), Action::Read);
    assert!(matches!(stream.drive_stream(Reply::End), Action::Finish(_)));
    assert!(!stream.accepts(&Reply::Sent));
    assert!(!stream.accepts(&Reply::Closed));
    assert!(!stream.accepts(&Reply::End));
}

fn text_chunk(id: Option<&str>, texts: &[&str]) -> Option<ChatChunk> {
    let mut choices = Vec::new();
    for t in texts {
        choices.push(ChatChoice {
            delta: Some(ChatDelta { content: Some((*t).to_owned()), tool_calls: None }),
            finish_reason: None,
        });
    }
    Some(ChatChunk { id: id.map(str::to_owned), choices: Some(choices) })
}

#[test]
fn the_message_item_is_added_once() {
    let mut state = ChatState::new();
    let first = state.process_chunk_with(text_chunk(None, &["", "a", "b"]), "the-id");
    let message = || ResponseItem::Message {
        id: Some("the-id".to_owned()),
        role: "assistant".to_owned(),
        content: Vec::<ContentItem>::new(),
        phase: None,
    };
    assert_eq!(
        first,
        vec![
            ResponseEvent::OutputItemAdded(message()),
            ResponseEvent::OutputTextDelta("a".to_owned()),
            ResponseEvent::OutputTextDelta("b".to_owned()),
        ]
    );
    let second = state.process_chunk_with(text_chunk(Some("late"), &["c"]), "unused");
    assert_eq!(second, vec![ResponseEvent::OutputTextDelta("c".to_owned())]);
    assert_eq!(state.process_chunk(None), vec![]);
    assert!(!state.is_finished());
    assert_eq!(state.call_count(), 0);
    assert_eq!(
        state.finish_with(&ToolReverseMap::new(), &vec![], "unused"),
        vec![
            ResponseEvent::OutputItemDone(message()),
            ResponseEvent::Completed {
                response_id: "late".to_owned(),
                token_usage: None,
                end_turn: Some(true),
            },
        ]
    );
}

#[test]
fn the_first_stream_id_and_the_last_reason_count() {
    let mut state = ChatState::new();
    let reason = |r: &str| {
        Some(ChatChunk {
            id: Some(format!("id-{r}")),
            choices: Some(vec![ChatChoice {
                delta: None,
                finish_reason: Some(r.to_owned()),
            }]),
        })
    };
    assert_eq!(state.process_chunk(reason("")), vec![]);
    assert!(!state.is_finished());
    assert_eq!(state.process_chunk(reason("length")), vec![]);
    assert!(state.is_finished());
    assert_eq!(
        state.finish(&ToolReverseMap::new()),
        vec![ResponseEvent::Completed {
            response_id: "id-".to_owned(),
            token_usage: None,
            end_turn: Some(true),
        }]
    );
}

#[test]
fn the_reason_does_not_hide_tool_calls() {
    for reason in [None, Some("stop"), Some("tool_calls"), Some("length")] {
        let mut state = ChatState::new();
        state.process_chunk(Some(ChatChunk {
            id: Some("r".to_owned()),
            choices: Some(vec![ChatChoice {
                delta: Some(ChatDelta {
                    content: None,
                    tool_calls: Some(vec![ToolCallDelta {
                        index: Some(4),
                        id: Some("call".to_owned()),
                        function: Some(FunctionDelta {
                            name: Some("f".to_owned()),
                            arguments: Some("{}".to_owned()),
                        }),
                    }]),
                }),
                finish_reason: reason.map(str::to_owned),
            }]),
        }));
        let item = || ResponseItem::FunctionCall {
            id: Some("item".to_owned()),
            name: "f".to_owned(),
            namespace: None,
            arguments: "{}".to_owned(),
            call_id: "call".to_owned(),
        };
        assert_eq!(
            state.finish_with(&ToolReverseMap::new(), &vec!["item".to_owned()], "x"),
            vec![
                ResponseEvent::OutputItemAdded(item()),
                ResponseEvent::OutputItemDone(item()),
                ResponseEvent::Completed {
                    response_id: "r".to_owned(),
                    token_usage: None,
                    end_turn: Some(false),
                },
            ]
        );
    }
}

fn call(name: &str, arguments: &str) -> ToolCallBuilder {
    ToolCallBuilder {
        id: "call".to_owned(),
        name: name.to_owned(),
        arguments: arguments.to_owned(),
    }
}

fn namespace_of(tool: &RegisteredTool) -> Option<String> {
    match tool_call_item(Some(tool), &call("ns.f", "{}"), "item", String::new()) {
        ResponseItem::FunctionCall { id, name, namespace, arguments, call_id } => {
            assert_eq!(id.as_deref(), Some("item"));
            assert_eq!(name, "f");
            assert_eq!(arguments, "{}");
            assert_eq!(call_id, "call");
            namespace
        }
        other => panic!("unexpected {other:?}"),
    }
}

#[test]
fn the_registered_namespace_comes_before_the_decoded_one() {
    let of = |registered, decoded| namespace_of(&function_tool(registered, decoded, "f"));
    assert_eq!(of(Some("own"), Some("ns")), Some("own".to_owned()));
    assert_eq!(of(None, Some("ns")), Some("ns".to_owned()));
    assert_eq!(of(Some(""), Some("ns")), None);
    assert_eq!(of(None, Some("")), None);
    assert_eq!(of(None, None), None);
}

#[test]
fn custom_and_unknown_tools_keep_the_wire_name() {
    assert_eq!(
        tool_call_item(Some(&custom_tool("decoded")), &call("wire", "{}"), "i", "in".to_owned()),
        ResponseItem::CustomToolCall {
            id: Some("i".to_owned()),
            status: None,
            call_id: "call".to_owned(),
            name: "wire".to_owned(),
            input: "in".to_owned(),
        }
    );
    assert_eq!(
        tool_call_item(None, &call("wire", "{}"), "i", "in".to_owned()),
        ResponseItem::FunctionCall {
            id: Some("i".to_owned()),
            name: "wire".to_owned(),
            namespace: None,
            arguments: "{}".to_owned(),
            call_id: "call".to_owned(),
        }
    );
}

#[test]
fn custom_input_is_the_input_field() {
    assert_eq!(extract_custom_input(r#"{"input":"plain"}"#), "plain");
    assert_eq!(extract_custom_input(r#"{ "input": "a\"b\n", "other": 1 }"#), "a\"b\n");
    assert_eq!(extract_custom_input(r#"{"input":""}"#), "");
    assert_eq!(extract_custom_input(r#"{"input":"é"}"#), "\u{e9}");
}

#[test]
fn every_text_comes_back_as_custom_input() {
    let mut texts = vec![
        String::new(),
        "\"quoted\" and \\ slashed /".to_owned(),
        "{\"input\":\"inner\"}".to_owned(),
        "null".to_owned(),
        "h\u{e9} \u{1f600}\u{7f}\u{2028}\u{10ffff}".to_owned(),
    ];
    let mut ascii = String::new();
    for n in 0u8..128 {
        texts.push(char::from(n).to_string());
        ascii.push(char::from(n));
    }
    texts.push(ascii);
    for text in texts {
        let mut object = serde_json::Map::new();
        object.insert("input".to_owned(), Value::String(text.clone()));
        assert_eq!(extract_custom_input(&Value::Object(object).to_string()), text);
        let written = Value::String(text.clone()).to_string();
        assert_eq!(extract_custom_input(&format!("{{\"input\": \t\r\n{written}}}")), text);
    }
    assert_eq!(extract_custom_input("{\"input\":\"\\u001f\\b\\f\"}"), "\u{1f}\u{8}\u{c}");
}

#[test]
fn custom_input_falls_back_to_the_arguments() {
    for arguments in ["", "no json", "{\"input\":1}", "{\"other\":\"x\"}", "[\"input\"]", "\"input\"", "{\"input\":\"x\"} x"] {
        assert_eq!(extract_custom_input(arguments), arguments);
    }
    assert_eq!(input_or_arguments(None, "raw"), "raw");
    assert_eq!(input_or_arguments(Some(None), "raw"), "raw");
    assert_eq!(input_or_arguments(Some(Some("in".to_owned())), "raw"), "in");
}

#[test]
fn a_stream_with_its_end_marker_may_be_cut_anywhere() {
    let c1 = chunk_json("s", Some("one"), None);
    let c2 = chunk_json("s", None, Some("stop"));
    let body = format!("data: {c1}\n\ndata: {c2}\n\ndata: [DONE]\n\n");
    for cut in 0..=body.len() {
        let pieces = vec![body.as_bytes()[..cut].to_vec(), body.as_bytes()[cut..].to_vec()];
        let (events, asked) = run(pieces, None, usize::MAX, ToolReverseMap::new());
        assert_eq!(asked, vec![c1.clone(), c2.clone()]);
        assert_eq!(events.len(), 5);
        assert_eq!(
            events[4],
            Ok(ResponseEvent::Completed {
                response_id: "s".to_owned(),
                token_usage: None,
                end_turn: Some(true),
            })
        );
    }
}

#[test]
fn what_follows_the_end_without_data_may_be_cut_anywhere() {
    let c1 = chunk_json("s", Some("one"), None);
    let c2 = chunk_json("s", None, Some("stop"));
    for tail in ["data: [DONE]\n\n: bye\n", ": bye\n\nid: 3\n", "data: [DONE]\n\ndata: [DONE]\n"] {
        let body = format!("data: {c1}\r\n\r\ndata: {c2}\n\n{tail}");
        for cut in 0..=body.len() {
            let pieces = vec![body.as_bytes()[..cut].to_vec(), body.as_bytes()[cut..].to_vec()];
            let (events, asked) = run(pieces, None, usize::MAX, ToolReverseMap::new());
            assert_eq!(asked, vec![c1.clone(), c2.clone()]);
            assert_eq!(events.len(), 5);
        }
    }
}
