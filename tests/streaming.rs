use mechanise::anthropic_types::{
    ContentBlock, ContentBlockDeltaDetails, Delta, EventKind, MessageResponse, StreamEvent, Usage,
};
use mechanise::assembler::{MessageAssembler, Phase};
use mechanise::decoder::{decode_frame, Decoded};
use mechanise::error::{StreamError, ViolationReason};
use mechanise::framer::{Frame, LineFramer};
use mechanise::session::{Accepted, StreamSession};

fn message_start() -> StreamEvent {
    StreamEvent::MessageStart {
        message: MessageResponse {
            id: "msg_1".to_string(),
            _type: "message".to_string(),
            role: "assistant".to_string(),
            content: vec![],
            model: "opus-3".to_string(),
            stop_reason: None,
            stop_sequence: None,
            usage: Usage { input_tokens: Some(10), output_tokens: Some(1) },
        },
    }
}

fn block_start(index: usize, text: &str) -> StreamEvent {
    StreamEvent::ContentBlockStart {
        index,
        content_block: ContentBlock { _type: "text".to_string(), text: text.to_string() },
    }
}

fn delta(index: usize, text: &str) -> StreamEvent {
    StreamEvent::ContentBlockDelta {
        index,
        delta: ContentBlockDeltaDetails { _type: "text_delta".to_string(), text: text.to_string() },
    }
}

fn block_text(assembler: &MessageAssembler, index: usize) -> Option<String> {
    assembler.finished_message().and_then(|m| m.block_text(index).cloned())
}

/// The event a fixture frame stands for, as a JSON parser would produce it.
fn event_for(frame: &Frame) -> Option<StreamEvent> {
    match frame.event_type.as_str() {
        "message_start" => Some(message_start()),
        "content_block_start" => Some(block_start(0, "")),
        "content_block_delta" => {
            if frame.payload.contains("\"Hi\"") {
                Some(delta(0, "Hi"))
            } else {
                Some(delta(0, " there"))
            }
        }
        "content_block_stop" => Some(StreamEvent::ContentBlockStop { index: 0 }),
        "message_stop" => Some(StreamEvent::MessageStop),
        "ping" => Some(StreamEvent::Ping),
        _ => None,
    }
}

const FIXTURE: &str = "event: message_start\n\
data: {\"type\":\"message_start\",\"message\":{\"id\":\"msg_1\",\"type\":\"message\",\"role\":\"assistant\",\"content\":[],\"model\":\"opus-3\",\"stop_reason\":null,\"stop_sequence\":null,\"usage\":{\"input_tokens\":10,\"output_tokens\":1}}}\n\
\n\
event: content_block_start\n\
data: {\"type\":\"content_block_start\",\"index\":0,\"content_block\":{\"type\":\"text\",\"text\":\"\"}}\n\
\n\
event: ping\n\
data: {\"type\": \"ping\"}\n\
\n\
event: content_block_delta\n\
data: {\"type\":\"content_block_delta\",\"index\":0,\"delta\":{\"type\":\"text_delta\",\"text\":\"Hi\"}}\n\
\n\
event: content_block_delta\n\
data: {\"type\":\"content_block_delta\",\"index\":0,\"delta\":{\"type\":\"text_delta\",\"text\":\" there\"}}\n\
\n\
event: content_block_stop\n\
data: {\"type\":\"content_block_stop\",\"index\":0}\n\
\n\
event: message_stop\n\
data: {\"type\":\"message_stop\"}\n\
\n";

fn run_fixture(chunks: &[&[u8]]) -> (Vec<String>, StreamSession) {
    let mut session = StreamSession::new();
    let mut fragments = Vec::new();
    for chunk in chunks {
        let frames = session.feed(chunk).expect("fixture is UTF-8");
        for frame in frames {
            let parsed = event_for(&frame);
            if let Accepted::Text(text) = session.accept(frame, parsed).expect("fixture is well ordered") {
                fragments.push(text);
            }
        }
    }
    (fragments, session)
}

#[test]
fn fixture_yields_hi_there() {
    let (fragments, session) = run_fixture(&[FIXTURE.as_bytes()]);
    assert_eq!(fragments, vec!["Hi".to_string(), " there".to_string()]);
    assert!(session.is_done());
    let message = session.finished_message().expect("stream finished");
    assert_eq!(message.block_text(0).map(|s| s.as_str()), Some("Hi there"));
    assert!(message.content_blocks[0].closed);
}

#[test]
fn fixture_in_small_chunks_yields_the_same() {
    let bytes = FIXTURE.as_bytes();
    let chunks: Vec<&[u8]> = bytes.chunks(7).collect();
    let (fragments, session) = run_fixture(&chunks);
    assert_eq!(fragments, vec!["Hi".to_string(), " there".to_string()]);
    assert!(session.is_done());
}

#[test]
fn frame_split_across_chunks_decodes_identically() {
    let payload = "{\"type\":\"content_block_delta\",\"index\":0,\"delta\":{\"type\":\"text_delta\",\"text\":\"x\"}}";
    let first = "event: content_block_delta\ndat".to_string();
    let second = format!("a: {}\n\n", payload);
    let whole = format!("{}{}", first, second);

    let mut split = LineFramer::new();
    let mut split_frames = split.feed(first.as_bytes()).unwrap();
    assert!(split_frames.is_empty());
    split_frames.extend(split.feed(second.as_bytes()).unwrap());

    let mut one = LineFramer::new();
    let one_frames = one.feed(whole.as_bytes()).unwrap();

    assert_eq!(split_frames.len(), 1);
    assert_eq!(one_frames.len(), 1);
    assert_eq!(split_frames[0].event_type, one_frames[0].event_type);
    assert_eq!(split_frames[0].payload, one_frames[0].payload);
    assert_eq!(one_frames[0].event_type, "content_block_delta");
    assert_eq!(one_frames[0].payload, payload);
}

#[test]
fn character_split_across_chunks_is_kept() {
    let text = "event: content_block_delta\ndata: {\"text\":\"caf\u{e9}\"}\n\n";
    let bytes = text.as_bytes();
    let cut = text.find('\u{e9}').unwrap() + 1;
    let mut framer = LineFramer::new();
    let mut frames = framer.feed(&bytes[..cut]).unwrap();
    frames.extend(framer.feed(&bytes[cut..]).unwrap());
    assert_eq!(frames.len(), 1);
    assert_eq!(frames[0].payload, "{\"text\":\"caf\u{e9}\"}");
}

#[test]
fn control_characters_are_stripped() {
    let mut framer = LineFramer::new();
    let frames = framer.feed(b"event: ping\r\ndata: {\"a\":\t1}\r\n\r\n").unwrap();
    assert_eq!(frames.len(), 1);
    assert_eq!(frames[0].event_type, "ping");
    assert_eq!(frames[0].payload, "{\"a\":1}");
}

#[test]
fn blank_line_flushes_frame_without_data() {
    let mut framer = LineFramer::new();
    let frames = framer.feed(b"event: ping\n\nevent: message_stop\nevent: x\ndata: 1\n").unwrap();
    assert_eq!(frames.len(), 3);
    assert_eq!(frames[0].event_type, "ping");
    assert_eq!(frames[0].payload, "");
    assert_eq!(frames[1].event_type, "message_stop");
    assert_eq!(frames[1].payload, "");
    assert_eq!(frames[2].event_type, "x");
    assert_eq!(frames[2].payload, "1");
}

#[test]
fn data_without_event_and_other_lines_are_ignored() {
    let mut framer = LineFramer::new();
    let frames = framer.feed(b"data: orphan\n: comment\nid: 4\n\n").unwrap();
    assert!(frames.is_empty());
}

#[test]
fn unterminated_line_waits_for_more() {
    let mut framer = LineFramer::new();
    assert!(framer.feed(b"event: ping\ndata: {}").unwrap().is_empty());
    let frames = framer.feed(b"\n").unwrap();
    assert_eq!(frames.len(), 1);
    assert_eq!(frames[0].payload, "{}");
}

#[test]
fn invalid_utf8_fails_the_stream() {
    let mut framer = LineFramer::new();
    let r = framer.feed(b"event: ping\ndata: \xff\xfe\n\n");
    assert!(matches!(r, Err(StreamError::InvalidUtf8)));
    assert!(framer.has_failed());
    let again = framer.feed(b"event: ping\n\n");
    assert!(matches!(again, Err(StreamError::InvalidUtf8)));
}

#[test]
fn invalid_utf8_in_an_unfinished_line_is_not_yet_an_error() {
    let mut framer = LineFramer::new();
    assert!(framer.feed(b"data: \xc3").unwrap().is_empty());
    assert!(!framer.has_failed());
}

#[test]
fn known_tags_have_kinds() {
    assert_eq!(EventKind::from_tag("message_start"), Some(EventKind::MessageStart));
    assert_eq!(EventKind::from_tag("content_block_start"), Some(EventKind::ContentBlockStart));
    assert_eq!(EventKind::from_tag("ping"), Some(EventKind::Ping));
    assert_eq!(EventKind::from_tag("content_block_delta"), Some(EventKind::ContentBlockDelta));
    assert_eq!(EventKind::from_tag("content_block_stop"), Some(EventKind::ContentBlockStop));
    assert_eq!(EventKind::from_tag("message_delta"), Some(EventKind::MessageDelta));
    assert_eq!(EventKind::from_tag("message_stop"), Some(EventKind::MessageStop));
    assert_eq!(EventKind::from_tag("error"), None);
    assert_eq!(EventKind::from_tag("ping "), None);
    assert_eq!(EventKind::from_tag(""), None);
}

fn frame(event_type: &str, payload: &str) -> Frame {
    Frame { event_type: event_type.to_string(), payload: payload.to_string() }
}

#[test]
fn unknown_tag_is_skipped() {
    let r = decode_frame(frame("thinking_delta", "{}"), None);
    assert!(matches!(r, Ok(Decoded::Unknown(ref t)) if t == "thinking_delta"));

    let mut session = StreamSession::new();
    assert!(matches!(
        session.accept(frame("thinking_delta", "{}"), None),
        Ok(Accepted::Skipped(ref t)) if t == "thinking_delta"
    ));
    assert!(matches!(session.accept(frame("message_start", "{..}"), Some(message_start())), Ok(Accepted::NoText)));
    assert!(matches!(
        session.accept(frame("content_block_delta", "{..}"), Some(delta(0, "x"))),
        Err(StreamError::Protocol(_))
    ));
}

#[test]
fn parsed_event_of_another_kind_is_a_decode_error() {
    let r = decode_frame(frame("content_block_delta", "{\"x\":1}"), Some(StreamEvent::Ping));
    match r {
        Err(StreamError::Decode { event_type, payload }) => {
            assert_eq!(event_type, "content_block_delta");
            assert_eq!(payload, "{\"x\":1}");
        }
        other => panic!("unexpected {:?}", other),
    }
    let r = decode_frame(frame("message_delta", "garbage"), None);
    assert!(matches!(r, Err(StreamError::Decode { .. })));
}

#[test]
fn bare_events_need_no_payload() {
    assert!(matches!(decode_frame(frame("ping", ""), None), Ok(Decoded::Event(StreamEvent::Ping))));
    assert!(matches!(
        decode_frame(frame("message_stop", ""), None),
        Ok(Decoded::Event(StreamEvent::MessageStop))
    ));
    assert!(matches!(decode_frame(frame("content_block_stop", ""), None), Err(StreamError::Decode { .. })));
}

fn violation(r: Result<Option<String>, StreamError>) -> (EventKind, Phase, ViolationReason) {
    match r {
        Err(StreamError::Protocol(v)) => (v.event, v.phase, v.reason),
        other => panic!("expected a protocol violation, got {:?}", other),
    }
}

#[test]
fn delta_before_any_start_is_a_violation() {
    let mut assembler = MessageAssembler::new();
    let v = violation(assembler.apply(delta(0, "x")));
    assert_eq!(v, (EventKind::ContentBlockDelta, Phase::Idle, ViolationReason::IllegalTransition));
    assert_eq!(assembler.phase(), Phase::Failed);
}

#[test]
fn delta_or_stop_to_unstarted_index_is_a_violation() {
    let mut assembler = MessageAssembler::new();
    assembler.apply(message_start()).unwrap();
    assembler.apply(block_start(0, "")).unwrap();
    let v = violation(assembler.apply(delta(1, "x")));
    assert_eq!(v, (EventKind::ContentBlockDelta, Phase::Streaming, ViolationReason::UnknownIndex));

    let mut assembler = MessageAssembler::new();
    assembler.apply(message_start()).unwrap();
    let v = violation(assembler.apply(StreamEvent::ContentBlockStop { index: 3 }));
    assert_eq!(v, (EventKind::ContentBlockStop, Phase::Streaming, ViolationReason::UnknownIndex));
    let v = violation(assembler.apply(delta(0, "x")));
    assert_eq!(v, (EventKind::ContentBlockDelta, Phase::Failed, ViolationReason::IllegalTransition));
}

#[test]
fn duplicate_block_start_is_a_violation() {
    let mut assembler = MessageAssembler::new();
    assembler.apply(message_start()).unwrap();
    assembler.apply(block_start(0, "")).unwrap();
    let v = violation(assembler.apply(block_start(0, "")));
    assert_eq!(v, (EventKind::ContentBlockStart, Phase::Streaming, ViolationReason::DuplicateIndex));
}

#[test]
fn second_message_start_is_a_violation() {
    let mut assembler = MessageAssembler::new();
    assembler.apply(message_start()).unwrap();
    let v = violation(assembler.apply(message_start()));
    assert_eq!(v, (EventKind::MessageStart, Phase::Streaming, ViolationReason::IllegalTransition));
}

#[test]
fn events_after_message_stop_are_violations() {
    let mut assembler = MessageAssembler::new();
    assembler.apply(message_start()).unwrap();
    assembler.apply(StreamEvent::MessageStop).unwrap();
    assert_eq!(assembler.phase(), Phase::Done);
    let v = violation(assembler.apply(block_start(0, "")));
    assert_eq!(v, (EventKind::ContentBlockStart, Phase::Done, ViolationReason::IllegalTransition));
}

#[test]
fn deltas_concatenate_in_arrival_order() {
    let mut assembler = MessageAssembler::new();
    assembler.apply(message_start()).unwrap();
    assembler.apply(block_start(0, "")).unwrap();
    let mut out = Vec::new();
    for piece in ["The", " quick", "", " fox"] {
        out.push(assembler.apply(delta(0, piece)).unwrap().unwrap());
    }
    assembler.apply(StreamEvent::MessageStop).unwrap();
    assert_eq!(out.concat(), "The quick fox");
    assert_eq!(block_text(&assembler, 0).as_deref(), Some("The quick fox"));
}

#[test]
fn seed_text_comes_first_and_is_delivered() {
    let mut assembler = MessageAssembler::new();
    assembler.apply(message_start()).unwrap();
    assert_eq!(assembler.apply(block_start(0, "Seed")).unwrap().as_deref(), Some("Seed"));
    assert_eq!(assembler.apply(block_start(1, "")).unwrap(), None);
    assembler.apply(delta(0, "ed")).unwrap();
    assembler.apply(StreamEvent::MessageStop).unwrap();
    assert_eq!(block_text(&assembler, 0).as_deref(), Some("Seeded"));
    assert_eq!(block_text(&assembler, 1).as_deref(), Some(""));
}

#[test]
fn interleaved_deltas_rebuild_each_block() {
    let mut assembler = MessageAssembler::new();
    assembler.apply(message_start()).unwrap();
    assembler.apply(block_start(0, "")).unwrap();
    assembler.apply(block_start(1, "")).unwrap();
    assembler.apply(delta(0, "a")).unwrap();
    assembler.apply(delta(1, "x")).unwrap();
    assembler.apply(delta(0, "b")).unwrap();
    assembler.apply(delta(1, "y")).unwrap();
    assembler.apply(delta(0, "c")).unwrap();
    assembler.apply(StreamEvent::MessageStop).unwrap();
    assert_eq!(block_text(&assembler, 0).as_deref(), Some("abc"));
    assert_eq!(block_text(&assembler, 1).as_deref(), Some("xy"));
    assert_eq!(block_text(&assembler, 2), None);
}

#[test]
fn snapshot_blocks_are_indexed_by_position() {
    let mut assembler = MessageAssembler::new();
    let start = StreamEvent::MessageStart {
        message: MessageResponse {
            id: "m".to_string(),
            _type: "message".to_string(),
            role: "assistant".to_string(),
            content: vec![ContentBlock { _type: "text".to_string(), text: "Hello".to_string() }],
            model: "m".to_string(),
            stop_reason: None,
            stop_sequence: None,
            usage: Usage { input_tokens: None, output_tokens: None },
        },
    };
    assembler.apply(start).unwrap();
    assembler.apply(delta(0, ", world")).unwrap();
    let v = violation(assembler.apply(block_start(0, "")));
    assert_eq!(v.2, ViolationReason::DuplicateIndex);
}

#[test]
fn pings_change_nothing() {
    let mut assembler = MessageAssembler::new();
    assert_eq!(assembler.apply(StreamEvent::Ping).unwrap(), None);
    assert_eq!(assembler.phase(), Phase::Idle);
    assembler.apply(message_start()).unwrap();
    assembler.apply(block_start(0, "")).unwrap();
    assembler.apply(delta(0, "a")).unwrap();
    assert_eq!(assembler.apply(StreamEvent::Ping).unwrap(), None);
    assert_eq!(assembler.phase(), Phase::Streaming);
    assembler.apply(delta(0, "b")).unwrap();
    assembler.apply(StreamEvent::MessageStop).unwrap();
    assert_eq!(assembler.apply(StreamEvent::Ping).unwrap(), None);
    assert_eq!(assembler.phase(), Phase::Done);
    assert_eq!(block_text(&assembler, 0).as_deref(), Some("ab"));
}

#[test]
fn message_delta_overwrites_present_fields_only() {
    let mut assembler = MessageAssembler::new();
    assembler.apply(message_start()).unwrap();
    assembler.apply(StreamEvent::MessageDelta {
        delta: Delta {
            stop_reason: Some("end_turn".to_string()),
            stop_sequence: None,
            usage: Usage { input_tokens: None, output_tokens: Some(15) },
        },
    })
    .unwrap();
    assembler.apply(StreamEvent::MessageStop).unwrap();
    let m = assembler.finished_message().unwrap();
    assert_eq!(m.stop_reason.as_deref(), Some("end_turn"));
    assert_eq!(m.stop_sequence, None);
    assert_eq!(m.usage, Usage { input_tokens: Some(10), output_tokens: Some(15) });
    assert_eq!(m.id, "msg_1");
    assert_eq!(m.role, "assistant");
}

#[test]
fn non_success_status_is_an_api_error_with_the_body() {
    let body = "{\"type\":\"error\",\"error\":{\"type\":\"overloaded_error\",\"message\":\"Overloaded\"}}";
    match StreamError::from_status(529, body.to_string()) {
        Some(StreamError::Api(b)) => assert_eq!(b, body),
        other => panic!("unexpected {:?}", other),
    }
    assert!(matches!(StreamError::from_status(404, String::new()), Some(StreamError::Api(ref b)) if b.is_empty()));
    assert!(StreamError::from_status(200, "ignored".to_string()).is_none());
}

#[test]
fn invalid_utf8_in_last_unterminated_line_fails_at_end_of_body() {
    let mut session = StreamSession::new();
    assert!(session.feed(b"event: ping\ndata: \xff").unwrap().is_empty());
    assert!(matches!(session.close_body(), Err(StreamError::InvalidUtf8)));
}

#[test]
fn last_line_without_newline_still_completes_its_frame() {
    let mut framer = LineFramer::new();
    assert!(framer.feed(b"event: message_stop\ndata: {}").unwrap().is_empty());
    let frames = framer.finish().unwrap();
    assert_eq!(frames.len(), 1);
    assert_eq!(frames[0].event_type, "message_stop");
    assert_eq!(frames[0].payload, "{}");

    let mut framer = LineFramer::new();
    let frames = framer.feed(b"event: ping").unwrap();
    assert!(frames.is_empty());
    let frames = framer.finish().unwrap();
    assert_eq!(frames.len(), 1);
    assert_eq!(frames[0].event_type, "ping");
    assert_eq!(frames[0].payload, "");
}

#[test]
fn body_ending_before_message_stop_is_truncated() {
    let mut session = StreamSession::new();
    session.accept(frame("message_start", "{..}"), Some(message_start())).unwrap();
    assert!(session.close_body().unwrap().is_empty());
    assert!(matches!(session.finish(), Err(StreamError::Truncated)));

    let (_, done) = run_fixture(&[FIXTURE.as_bytes()]);
    assert!(done.finish().is_ok());
}

#[test]
fn decode_error_is_fatal_to_the_session() {
    let mut session = StreamSession::new();
    session.accept(frame("message_start", "{..}"), Some(message_start())).unwrap();
    assert!(matches!(
        session.accept(frame("content_block_start", "oops"), None),
        Err(StreamError::Decode { .. })
    ));
    let r = session.accept(frame("content_block_start", "{..}"), Some(block_start(0, "")));
    match r {
        Err(StreamError::Protocol(v)) => assert_eq!(v.phase, Phase::Failed),
        other => panic!("unexpected {:?}", other),
    }
}

#[test]
fn delta_after_block_stop_is_delivered_and_flagged() {
    let mut session = StreamSession::new();
    session.accept(frame("message_start", "{..}"), Some(message_start())).unwrap();
    session.accept(frame("content_block_start", "{..}"), Some(block_start(0, ""))).unwrap();
    assert!(matches!(
        session.accept(frame("content_block_delta", "{..}"), Some(delta(0, "a"))),
        Ok(Accepted::Text(ref t)) if t == "a"
    ));
    session
        .accept(frame("content_block_stop", "{..}"), Some(StreamEvent::ContentBlockStop { index: 0 }))
        .unwrap();
    assert!(matches!(
        session.accept(frame("content_block_delta", "{..}"), Some(delta(0, "b"))),
        Ok(Accepted::LateText(ref t)) if t == "b"
    ));
    session.accept(frame("message_stop", ""), None).unwrap();
    let m = session.finished_message().unwrap();
    assert_eq!(m.block_text(0).map(|s| s.as_str()), Some("ab"));
}
