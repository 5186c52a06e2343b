use deepseek_api::{Fault, FrameDecoder, Message, Orchestrator, Phase, Request, StreamChunk};

fn feed_all(blocks: &[&[u8]]) -> Vec<Result<StreamChunk, Fault>> {
    let mut d = FrameDecoder::new();
    let mut out = Vec::new();
    for b in blocks {
        out.extend(d.feed(b));
    }
    out
}

fn describe(items: &[Result<StreamChunk, Fault>]) -> Vec<String> {
    items
        .iter()
        .map(|x| match x {
            Ok(StreamChunk::Content(t)) => format!("content:{t}"),
            Ok(StreamChunk::Thinking(t)) => format!("thinking:{t}"),
            Ok(StreamChunk::Message(m)) => format!(
                "message:{}:{:?}:{:?}:{:?}",
                m.content, m.thinking_content, m.status, m.message_id
            ),
            Err(f) => format!("fault:{f:?}"),
        })
        .collect()
}

const SCENARIO_A: &[u8] = b"data: {\"v\":{\"response\":{\"content\":\"\"}}}\n\
data: {\"p\":\"response/content\",\"v\":\"Hi\"}\n\
data: {\"p\":\"\",\"v\":\" there\",\"o\":\"APPEND\"}\n\
event: finish\n";

#[test]
fn scenario_a_content_deltas_then_final_message() {
    let items = feed_all(&[SCENARIO_A]);
    assert_eq!(
        describe(&items),
        vec![
            "content:Hi".to_string(),
            "content: there".to_string(),
            "message:Hi there:None:None:None".to_string(),
        ]
    );
}

#[test]
fn byte_at_a_time_matches_whole_buffer() {
    let whole = describe(&feed_all(&[SCENARIO_A]));
    let bytes: Vec<&[u8]> = SCENARIO_A.chunks(1).collect();
    let single = describe(&feed_all(&bytes));
    assert_eq!(whole, single);
    let odd: Vec<&[u8]> = SCENARIO_A.chunks(7).collect();
    assert_eq!(whole, describe(&feed_all(&odd)));
}

#[test]
fn nothing_after_finish() {
    let mut body = SCENARIO_A.to_vec();
    body.extend_from_slice(b"data: {\"p\":\"response/content\",\"v\":\"late\"}\nevent: finish\n");
    let mut d = FrameDecoder::new();
    let items = d.feed(&body);
    assert_eq!(items.len(), 3);
    assert!(d.is_done());
    let more = d.feed(b"data: {\"p\":\"response/content\",\"v\":\"later\"}\n");
    assert!(more.is_empty());
}

#[test]
fn partial_line_waits_for_newline() {
    let mut d = FrameDecoder::new();
    let first = d.feed(b"data: {\"v\":{\"response\":{\"content\":\"\"}}}\ndata: {\"p\":\"response/con");
    assert!(first.is_empty());
    let second = d.feed(b"tent\",\"v\":\"ab\"}\n");
    assert_eq!(describe(&second), vec!["content:ab".to_string()]);
}

#[test]
fn scenario_c_error_frame_aborts_without_final_message() {
    let body = b"data: {\"v\":{\"response\":{\"content\":\"\"}}}\n\
data: {\"p\":\"response/content\",\"v\":\"Hi\"}\n\
event: toast\n\
data: {\"type\":\"error\",\"content\":\"rate limited\"}\n\
event: finish\n";
    let items = feed_all(&[body]);
    assert_eq!(items.len(), 2);
    assert!(matches!(&items[0], Ok(StreamChunk::Content(t)) if t == "Hi"));
    assert!(matches!(&items[1], Err(Fault::ServerReported(t)) if t == "rate limited"));
    assert!(!items.iter().any(|x| matches!(x, Ok(StreamChunk::Message(_)))));
}

#[test]
fn thinking_deltas_and_continuation_frames() {
    let body = b"data: {\"v\":{\"response\":{\"content\":\"\",\"thinking_content\":\"\"}}}\n\
data: {\"p\":\"response/thinking_content\",\"o\":\"APPEND\",\"v\":\"Let\"}\n\
data: {\"v\":\" me\"}\n\
data: {\"p\":\"response/content\",\"o\":\"APPEND\",\"v\":\"Yes\"}\n\
event: finish\n";
    let items = feed_all(&[body]);
    assert_eq!(
        describe(&items),
        vec![
            "thinking:Let".to_string(),
            "thinking: me".to_string(),
            "content:Yes".to_string(),
            "message:Yes:Some(\"Let me\"):None:None".to_string(),
        ]
    );
}

#[test]
fn blank_and_unknown_lines_are_ignored() {
    let body = b"\n: keep-alive\nevent: toast\nid: 4\ndata: {\"v\":{\"response\":{\"content\":\"x\"}}}\nevent: finish\n";
    let items = feed_all(&[body]);
    assert_eq!(describe(&items), vec!["message:x:None:None:None".to_string()]);
}

#[test]
fn malformed_data_line_is_a_fault() {
    let items = feed_all(&[b"data: {not json\n"]);
    assert_eq!(items.len(), 1);
    assert!(matches!(items[0], Err(Fault::MalformedFrame)));
}

#[test]
fn unusable_tree_at_finish_is_incomplete_result() {
    let items = feed_all(&[b"data: {\"v\":{\"response\":{\"content\":5}}}\nevent: finish\n"]);
    assert_eq!(items.len(), 1);
    assert!(matches!(items[0], Err(Fault::IncompleteResult)));
}

fn final_of(items: &[Result<StreamChunk, Fault>]) -> Option<&Message> {
    items.iter().find_map(|x| match x {
        Ok(StreamChunk::Message(m)) => Some(m),
        _ => None,
    })
}

#[test]
fn final_message_fields_are_read() {
    let body = b"data: {\"v\":{\"response\":{\"message_id\":7,\"parent_id\":-3,\"role\":\"ASSISTANT\",\"inserted_at\":1700000000.5,\"content\":\"ok\",\"status\":\"FINISHED\",\"accumulated_token_usage\":12,\"extra\":[1,2]}}}\nevent: finish\n";
    let items = feed_all(&[body]);
    let m = final_of(&items).expect("final message");
    assert_eq!(m.message_id, Some(7));
    assert_eq!(m.parent_id, Some(-3));
    assert_eq!(m.role.as_deref(), Some("ASSISTANT"));
    assert_eq!(m.inserted_at.as_deref(), Some("1700000000.5"));
    assert_eq!(m.content, "ok");
    assert_eq!(m.status.as_deref(), Some("FINISHED"));
    assert_eq!(m.accumulated_token_usage, Some(12));
    assert!(!m.is_incomplete());
}

#[test]
fn scenario_b_one_continuation_then_final() {
    let mut o = Orchestrator::new();
    assert_eq!(o.next_request(), Some(Request::Completion));
    o.request_sent();
    assert_eq!(o.phase(), Phase::Streaming);
    let first = o.receive(
        b"data: {\"v\":{\"response\":{\"message_id\":41,\"content\":\"\"}}}\n\
data: {\"p\":\"response/content\",\"v\":\"Part one\"}\n\
data: {\"p\":\"response/status\",\"v\":\"INCOMPLETE\"}\n\
event: finish\n",
    );
    assert_eq!(describe(&first), vec!["content:Part one".to_string()]);
    assert_eq!(o.next_request(), Some(Request::Continuation(41)));
    o.request_sent();
    let second = o.receive(
        b"data: {\"v\":{\"response\":{\"message_id\":41,\"content\":\"Part one\"}}}\n\
data: {\"p\":\"response/content\",\"o\":\"APPEND\",\"v\":\" and two\"}\n\
data: {\"p\":\"response/status\",\"v\":\"FINISHED\"}\n\
event: finish\n",
    );
    assert_eq!(
        describe(&second),
        vec![
            "content: and two".to_string(),
            "message:Part one and two:None:Some(\"FINISHED\"):Some(41)".to_string(),
        ]
    );
    assert_eq!(o.phase(), Phase::Complete);
    assert_eq!(o.next_request(), None);
}

#[test]
fn incomplete_without_identifier_fails() {
    let mut o = Orchestrator::new();
    o.request_sent();
    let out = o.receive(b"data: {\"v\":{\"response\":{\"status\":\"INCOMPLETE\"}}}\nevent: finish\n");
    assert_eq!(out.len(), 1);
    assert!(matches!(out[0], Err(Fault::IncompleteResult)));
    assert_eq!(o.phase(), Phase::Failed);
}

#[test]
fn closed_body_without_finish_fails() {
    let mut o = Orchestrator::new();
    o.request_sent();
    let out = o.receive(b"data: {\"v\":{\"response\":{\"content\":\"\"}}}\n");
    assert!(out.is_empty());
    assert!(matches!(o.stream_closed(), Some(Fault::IncompleteResult)));
    assert_eq!(o.phase(), Phase::Failed);
    assert!(o.stream_closed().is_none());
}

#[test]
fn failed_request_ends_the_completion() {
    let mut o = Orchestrator::new();
    let f = o.request_failed(Fault::Transport("503".to_string()));
    assert!(matches!(f, Fault::Transport(t) if t == "503"));
    assert_eq!(o.phase(), Phase::Failed);
    assert_eq!(o.next_request(), None);
}

#[test]
fn request_target_paths() {
    assert_eq!(Request::Completion.target_path(), "/api/v0/chat/completion");
    assert_eq!(Request::Continuation(5).target_path(), "/api/v0/chat/continue");
}
