use deepseek_api::{
    parse_i64, split_path, BuildError, Fault, Json, PatchError, SseParser, StreamChunk,
    StreamingMessageBuilder, StreamingUpdate,
};

fn s(t: &str) -> Json {
    Json::Str(t.to_string())
}

fn obj(members: Vec<(&str, Json)>) -> Json {
    Json::Object(members.into_iter().map(|(k, v)| (k.to_string(), v)).collect())
}

fn update(p: Option<&str>, v: Option<Json>, o: Option<&str>) -> StreamingUpdate {
    StreamingUpdate { p: p.map(|x| x.to_string()), v, o: o.map(|x| x.to_string()) }
}

fn render(j: &Json) -> String {
    match j {
        Json::Null => "null".to_string(),
        Json::Bool(b) => b.to_string(),
        Json::Number(t) => t.clone(),
        Json::Str(t) => format!("{t:?}"),
        Json::Array(a) => format!("[{}]", a.iter().map(render).collect::<Vec<_>>().join(",")),
        Json::Object(m) => format!(
            "{{{}}}",
            m.iter().map(|(k, v)| format!("{k:?}:{}", render(v))).collect::<Vec<_>>().join(",")
        ),
    }
}

#[test]
fn set_creates_missing_objects_on_the_way() {
    let mut b = StreamingMessageBuilder::new();
    b.apply_update(&update(Some("a/b/c"), Some(s("x")), None)).unwrap();
    assert_eq!(render(b.tree()), "{\"a\":{\"b\":{\"c\":\"x\"}}}");
    b.apply_update(&update(Some("a/d"), Some(Json::Number("3".to_string())), Some("SET"))).unwrap();
    assert_eq!(render(b.tree()), "{\"a\":{\"b\":{\"c\":\"x\"},\"d\":3}}");
}

#[test]
fn set_replaces_a_non_object_on_the_way() {
    let mut b = StreamingMessageBuilder::from_value(obj(vec![("a", s("flat"))]));
    b.apply_update(&update(Some("a/b"), Some(Json::Bool(true)), None)).unwrap();
    assert_eq!(render(b.tree()), "{\"a\":{\"b\":true}}");
}

#[test]
fn set_overwrites_in_place() {
    let mut b = StreamingMessageBuilder::from_value(obj(vec![("a", s("1")), ("b", s("2"))]));
    b.apply_update(&update(Some("a"), Some(Json::Null), None)).unwrap();
    assert_eq!(render(b.tree()), "{\"a\":null,\"b\":\"2\"}");
}

#[test]
fn object_without_path_replaces_tree() {
    let mut b = StreamingMessageBuilder::from_value(obj(vec![("old", s("x"))]));
    b.apply_update(&update(None, Some(obj(vec![("response", obj(vec![("content", s("hi"))]))])), None))
        .unwrap();
    assert_eq!(render(b.tree()), "{\"response\":{\"content\":\"hi\"}}");
    b.apply_update(&update(Some(""), Some(obj(vec![("n", Json::Null)])), Some("APPEND"))).unwrap();
    assert_eq!(render(b.tree()), "{\"n\":null}");
    let mut b = StreamingMessageBuilder::new();
    b.apply_update(&update(None, Some(obj(vec![("response", obj(vec![("content", s("done"))]))])), None))
        .unwrap();
    assert_eq!(b.build().unwrap().content, "done");
}

#[test]
fn append_accumulates_deltas() {
    let mut b = StreamingMessageBuilder::new();
    let deltas = ["Hel", "lo", "", ", ", "world"];
    for d in deltas {
        b.apply_update(&update(Some("response/content"), Some(s(d)), Some("APPEND"))).unwrap();
    }
    assert_eq!(render(b.tree()), "{\"response\":{\"content\":\"Hello, world\"}}");
    let m = b.build().unwrap();
    assert_eq!(m.content, "Hello, world");
}

#[test]
fn append_on_non_string_is_a_type_mismatch() {
    let mut b = StreamingMessageBuilder::from_value(obj(vec![("n", Json::Number("1".to_string()))]));
    let r = b.apply_update(&update(Some("n"), Some(s("x")), Some("APPEND")));
    assert_eq!(r, Err(PatchError::TypeMismatch));
    let r = b.apply_update(&update(Some("t"), Some(Json::Number("2".to_string())), Some("APPEND")));
    assert_eq!(r, Err(PatchError::TypeMismatch));
    assert_eq!(render(b.tree()), "{\"n\":1}");
}

#[test]
fn patch_errors() {
    let mut b = StreamingMessageBuilder::new();
    assert_eq!(b.apply_update(&update(None, Some(s("x")), None)), Err(PatchError::MissingPath));
    assert_eq!(b.apply_update(&update(Some(""), Some(s("x")), None)), Err(PatchError::MissingPath));
    assert_eq!(b.apply_update(&update(Some(""), None, None)), Err(PatchError::MissingValue));
    assert_eq!(b.apply_update(&update(Some("a"), None, None)), Err(PatchError::MissingValue));
    assert_eq!(
        b.apply_update(&update(Some("a"), Some(s("x")), Some("REMOVE"))),
        Err(PatchError::UnsupportedOperation)
    );
    assert_eq!(render(b.tree()), "{}");
}

#[test]
fn replace_then_build_reads_response() {
    let mut p = SseParser::new();
    let frame = obj(vec![(
        "v",
        obj(vec![(
            "response",
            obj(vec![
                ("message_id", Json::Number("9".to_string())),
                ("role", s("ASSISTANT")),
                ("content", s("done")),
                ("status", s("FINISHED")),
            ]),
        )]),
    )]);
    assert!(matches!(p.process_frame(frame), Ok(None)));
    let m = p.finish().unwrap();
    assert_eq!(m.message_id, Some(9));
    assert_eq!(m.role.as_deref(), Some("ASSISTANT"));
    assert_eq!(m.content, "done");
    assert_eq!(m.status.as_deref(), Some("FINISHED"));
    assert_eq!(m.thinking_content, None);
}

#[test]
fn object_with_empty_path_replaces_tree() {
    let mut p = SseParser::new();
    assert!(matches!(p.process_frame(obj(vec![("p", s("a")), ("v", s("x"))])), Ok(None)));
    assert!(matches!(p.process_frame(obj(vec![("v", obj(vec![("other", s("y"))]))])), Ok(None)));
    assert_eq!(render(p.builder().tree()), "{\"other\":\"y\"}");
    assert!(matches!(p.process_frame(obj(vec![("p", s("")), ("v", obj(vec![]))])), Ok(None)));
    assert_eq!(render(p.builder().tree()), "{}");
    // the active path survives the replace
    assert!(matches!(p.process_frame(obj(vec![("v", s("z"))])), Ok(None)));
    assert_eq!(render(p.builder().tree()), "{\"a\":\"z\"}");
}

#[test]
fn snapshot_frame_without_response_leaves_tree() {
    let mut p = SseParser::new();
    assert!(matches!(p.process_frame(obj(vec![("other", s("x"))])), Ok(None)));
    assert_eq!(render(p.builder().tree()), "{}");
}

#[test]
fn continuation_frame_acts_as_explicit_append() {
    let start = || {
        let mut p = SseParser::new();
        let first = obj(vec![("p", s("response/content")), ("v", s("A"))]);
        assert!(matches!(p.process_frame(first), Ok(Some(StreamChunk::Content(_)))));
        p
    };
    let mut a = start();
    let ra = a.process_frame(obj(vec![("v", s("B"))]));
    let mut b = start();
    let rb = b.process_frame(obj(vec![("p", s("response/content")), ("o", s("APPEND")), ("v", s("B"))]));
    assert!(matches!(ra, Ok(Some(StreamChunk::Content(ref t))) if t == "B"));
    assert!(matches!(rb, Ok(Some(StreamChunk::Content(ref t))) if t == "B"));
    assert_eq!(render(a.builder().tree()), render(b.builder().tree()));
    assert_eq!(render(a.builder().tree()), "{\"response\":{\"content\":\"AB\"}}");
}

#[test]
fn continuation_without_active_path_is_ignored() {
    let mut p = SseParser::new();
    assert!(matches!(p.process_frame(obj(vec![("v", s("x"))])), Ok(None)));
    assert_eq!(render(p.builder().tree()), "{}");
}

#[test]
fn frame_with_bad_path_type_is_malformed() {
    let mut p = SseParser::new();
    let r = p.process_frame(obj(vec![("p", Json::Number("1".to_string())), ("v", s("x"))]));
    assert!(matches!(r, Err(Fault::MalformedFrame)));
    let r = p.process_frame(s("just text"));
    assert!(matches!(r, Err(Fault::MalformedFrame)));
}

#[test]
fn error_frame_is_server_reported() {
    let mut p = SseParser::new();
    let r = p.process_data_line(b"{\"type\":\"error\",\"content\":\"busy\"}");
    assert!(matches!(r, Err(Fault::ServerReported(ref t)) if t == "busy"));
}

#[test]
fn data_line_is_parsed_as_json() {
    let mut p = SseParser::new();
    let r = p.process_data_line(b"{\"p\":\"response/thinking_content\",\"v\":\"hmm \\u00e9\"}");
    assert!(matches!(r, Ok(Some(StreamChunk::Thinking(ref t))) if t == "hmm \u{e9}"));
    let r = p.process_data_line(b"[1,");
    assert!(matches!(r, Err(Fault::MalformedFrame)));
}

#[test]
fn build_without_response_reads_whole_tree() {
    let b = StreamingMessageBuilder::from_value(obj(vec![("content", s("top"))]));
    assert_eq!(b.build().unwrap().content, "top");
    let b = StreamingMessageBuilder::from_value(s("nope"));
    assert_eq!(b.build().unwrap_err(), BuildError::IncompleteData);
    let b = StreamingMessageBuilder::from_value(obj(vec![("content", Json::Null)]));
    assert_eq!(b.build().unwrap_err(), BuildError::IncompleteData);
    let b = StreamingMessageBuilder::from_value(obj(vec![("message_id", Json::Number("1.5".to_string()))]));
    assert_eq!(b.build().unwrap_err(), BuildError::IncompleteData);
    let b = StreamingMessageBuilder::from_value(obj(vec![("message_id", Json::Null), ("role", Json::Null)]));
    let m = b.build().unwrap();
    assert_eq!(m.message_id, None);
    assert_eq!(m.content, "");
}

#[test]
fn integers_in_decimal() {
    assert_eq!(parse_i64(&"0".to_string()), Some(0));
    assert_eq!(parse_i64(&"-42".to_string()), Some(-42));
    assert_eq!(parse_i64(&"9223372036854775807".to_string()), Some(i64::MAX));
    assert_eq!(parse_i64(&"-9223372036854775808".to_string()), Some(i64::MIN));
    assert_eq!(parse_i64(&"9223372036854775808".to_string()), None);
    assert_eq!(parse_i64(&"123456789012345678901234".to_string()), None);
    assert_eq!(parse_i64(&"1.0".to_string()), None);
    assert_eq!(parse_i64(&"1e3".to_string()), None);
    assert_eq!(parse_i64(&"".to_string()), None);
    assert_eq!(parse_i64(&"-".to_string()), None);
}

#[test]
fn paths_split_on_slashes() {
    assert_eq!(split_path(&"response/content".to_string()), vec!["response", "content"]);
    assert_eq!(split_path(&"a//b/".to_string()), vec!["a", "", "b", ""]);
    assert_eq!(split_path(&"".to_string()), vec![""]);
    assert_eq!(split_path(&"é/ü".to_string()), vec!["é", "ü"]);
}
