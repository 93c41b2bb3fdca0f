use actus::error::WebError;
use actus::reply::build_reply;
use actus::reply::bytes;
use actus::reply::empty;
use actus::reply::json;
use actus::reply::sse;
use actus::reply::stream as stream_reply;
use actus::reply::try_json;
use actus::reply::try_json_with;
use actus::reply::Reply;
use actus::reply::ReplyData;
use actus::reply::ReplySpec;
use actus::sse::single_line;
use actus::sse::SseEvent;
use actus::status::StatusCode;
use actus::strmap::StrMap;
use futures_util::stream;
use futures_util::FutureExt;
use futures_util::StreamExt;
use serde_json::Value;
use std::time::Duration;

type Data = ReplyData<(), i32>;
type Outcome = Reply<(), i32>;

fn status(n: u16) -> StatusCode {
    StatusCode::from_u16(n).unwrap()
}

fn object(entries: &[(&str, Value)]) -> Value {
    let mut m = serde_json::Map::new();
    for (k, v) in entries {
        m.insert(k.to_string(), v.clone());
    }
    Value::Object(m)
}

fn texts(entries: &[(&str, &str)]) -> StrMap<String> {
    let mut m: StrMap<String> = StrMap::new();
    for (k, v) in entries {
        m.insert(k.to_string(), v.to_string());
    }
    m
}

#[test]
fn test_macro_returns_result() {
    let success_reply: Outcome = try_json(Ok(object(&[("status", Value::from("ok"))])));
    assert!(success_reply.is_ok());

    let empty_reply: Outcome = Ok(empty());
    assert!(empty_reply.is_ok());
}

#[test]
fn test_constructors() {
    let data: Data = json(object(&[("ok", Value::from(true))]));
    assert!(matches!(data, ReplyData::Json(_)));
    let data: Data = bytes("application/octet-stream", vec![0, 1]);
    assert!(matches!(data, ReplyData::Bytes { .. }));
    let data: Data = empty();
    assert!(matches!(data, ReplyData::Empty));
}

#[test]
fn test_stream_constructor() {
    let test_stream = stream::iter(vec![Ok::<&str, std::io::Error>("test")]);
    let reply_data: ReplyData<_, ()> = stream_reply(test_stream);
    if let ReplyData::Stream(mut s) = reply_data {
        assert_eq!(s.next().now_or_never().unwrap().unwrap().unwrap(), "test");
    } else {
        panic!("Expected a stream reply");
    }
}

#[test]
fn test_reply_macro_variants() {
    let data_res: Outcome = try_json(Ok(object(&[("a", Value::from(1))])));
    assert!(matches!(data_res.unwrap(), ReplyData::Json(_)));

    let data_res: Outcome = try_json(Ok(object(&[("val", Value::from(10))])));
    assert!(matches!(data_res.unwrap(), ReplyData::Json(_)));

    let data_res: Outcome = Ok(empty());
    assert!(matches!(data_res.unwrap(), ReplyData::Empty));

    let id = || object(&[("id", Value::from(1))]);
    let data_res: Outcome = try_json_with(Ok(id()), status(201), Vec::new());
    match data_res.unwrap() {
        ReplyData::Rich(spec) => {
            assert_eq!(spec.status, Some(status(201)));
        }
        _ => panic!("Expected Rich reply"),
    }

    let headers = vec![("X-Test".to_string(), "value".to_string())];
    let data_res: Outcome = try_json_with(Ok(id()), status(201), headers);
    match data_res.unwrap() {
        ReplyData::Rich(spec) => {
            assert_eq!(spec.headers.get("X-Test"), Some(&"value".to_string()));
        }
        _ => panic!("Expected Rich reply"),
    }
}

#[test]
fn values_that_cannot_be_serialised_are_internal_errors() {
    let failed: Outcome = try_json(Err("key must be a string".to_string()));
    match failed {
        Err(WebError::Internal(text)) => {
            assert_eq!(text, "serialize response: key must be a string")
        }
        other => panic!("expected an internal error, got {other:?}"),
    }
    let failed: Outcome = try_json_with(Err("no".to_string()), status(201), Vec::new());
    assert!(matches!(failed, Err(WebError::Internal(_))));
}

#[test]
fn add_header_lifts_non_rich_into_rich_preserving_payload() {
    let mut r: Data = ReplyData::Json(object(&[("x", Value::from(1))]));
    r.add_header("X-Trace-Id", "abc");
    match &r {
        ReplyData::Rich(spec) => {
            assert!(matches!(spec.payload, ReplyData::Json(_)));
            assert_eq!(spec.headers.get("X-Trace-Id"), Some(&"abc".to_string()));
            assert_eq!(spec.status, None);
        }
        _ => panic!("expected Rich, got {r:?}"),
    }

    let mut r: Data = ReplyData::Empty;
    r.add_header("X-K", "v");
    assert!(matches!(&r, ReplyData::Rich(s) if matches!(s.payload, ReplyData::Empty)));

    let mut r: Data = ReplyData::Rich(Box::new(ReplySpec {
        payload: ReplyData::Json(object(&[("y", Value::from(2))])),
        status: Some(status(201)),
        headers: texts(&[("Existing", "1")]),
    }));
    r.add_header("New", "2");
    match &r {
        ReplyData::Rich(spec) => {
            assert_eq!(spec.status, Some(status(201)));
            assert_eq!(spec.headers.get("Existing"), Some(&"1".to_string()));
            assert_eq!(spec.headers.get("New"), Some(&"2".to_string()));
        }
        _ => unreachable!(),
    }
}

#[test]
fn set_status_lifts_or_mutates() {
    let mut r: Data = ReplyData::Json(object(&[("x", Value::from(1))]));
    r.set_status(status(202));
    match &r {
        ReplyData::Rich(spec) => {
            assert_eq!(spec.status, Some(status(202)));
            assert!(matches!(spec.payload, ReplyData::Json(_)));
        }
        _ => panic!("expected Rich"),
    }

    let mut r: Data = ReplyData::Rich(Box::new(ReplySpec {
        payload: ReplyData::Empty,
        status: None,
        headers: StrMap::new(),
    }));
    r.set_status(status(404));
    if let ReplyData::Rich(spec) = &r {
        assert_eq!(spec.status, Some(status(404)));
    }
}

#[test]
fn add_header_and_set_status_are_a_noop_on_upgrade() {
    let mut r: Data = ReplyData::Upgrade(42i32);
    r.add_header("X-K", "v");
    r.set_status(status(201));
    assert!(matches!(r, ReplyData::Upgrade(42)));
}

#[test]
fn headers_and_status_can_be_set_in_either_order() {
    let mut a: Data = ReplyData::Empty;
    a.add_header("X-K", "v");
    a.set_status(status(201));
    let mut b: Data = ReplyData::Empty;
    b.set_status(status(201));
    b.add_header("X-K", "v");
    assert!(a == b);
}

#[test]
fn streams_and_upgrades_equal_nothing() {
    let a: Data = ReplyData::Stream(());
    let b: Data = ReplyData::Stream(());
    assert!(a != b);
    let a: Data = ReplyData::Upgrade(1);
    let b: Data = ReplyData::Upgrade(1);
    assert!(a != b);
    let a: Data = json(Value::from(1));
    let b: Data = json(Value::from(1));
    assert!(a == b);
    let c: Data = json(Value::from(2));
    assert!(a != c);
}

#[test]
fn specs_are_equal_by_payload_status_and_headers() {
    let spec = |code: u16, value: &str| -> ReplySpec<(), i32> {
        build_reply()
            .status(status(code))
            .header("x-a", value)
            .body(json(Value::from(1)))
    };
    assert!(spec(201, "v") == spec(201, "v"));
    assert!(spec(201, "v") != spec(200, "v"));
    assert!(spec(201, "v") != spec(201, "w"));
    assert!(spec(201, "v") != spec(201, "v").body(empty()));
}

#[test]
fn status_codes_have_three_digits() {
    assert!(StatusCode::from_u16(99).is_none());
    assert!(StatusCode::from_u16(1000).is_none());
    assert_eq!(StatusCode::from_u16(100).unwrap().as_u16(), 100);
    assert_eq!(StatusCode::from_u16(999).unwrap().as_u16(), 999);
    assert_eq!(StatusCode::ok().as_u16(), 200);
    assert_eq!(StatusCode::no_content().as_u16(), 204);
    assert_eq!(StatusCode::switching_protocols().as_u16(), 101);
}

fn s(b: &[u8]) -> &str {
    std::str::from_utf8(b).expect("SSE encoding is always valid UTF-8")
}

#[test]
fn sse_data_only_event_emits_one_data_line_and_blank_separator() {
    let bytes = SseEvent::data("hello").to_bytes();
    assert_eq!(s(&bytes), "data: hello\n\n");
}

#[test]
fn sse_multi_line_data_emits_one_data_line_per_source_line() {
    let bytes = SseEvent::data("a\nb\nc").to_bytes();
    assert_eq!(s(&bytes), "data: a\ndata: b\ndata: c\n\n");
}

#[test]
fn sse_event_id_retry_data_all_in_one_frame() {
    let bytes = SseEvent::data("payload")
        .event("update")
        .id("17")
        .retry(Duration::from_millis(2500))
        .to_bytes();
    assert_eq!(
        s(&bytes),
        "event: update\nid: 17\nretry: 2500\ndata: payload\n\n",
    );
}

#[test]
fn sse_event_and_id_strip_embedded_newlines() {
    let bytes = SseEvent::data("ok").event("a\nb").id("x\ry").to_bytes();
    assert_eq!(s(&bytes), "event: a b\nid: x y\ndata: ok\n\n");
}

#[test]
fn sse_comment_only_event_is_a_heartbeat() {
    let single = SseEvent::comment("keep-alive").to_bytes();
    assert_eq!(s(&single), ": keep-alive\n\n");
    let multi = SseEvent::comment("line1\n\nline3").to_bytes();
    assert_eq!(s(&multi), ": line1\n:\n: line3\n\n");
}

#[test]
fn sse_empty_data_string_still_emits_a_data_field() {
    let bytes = SseEvent::data("").to_bytes();
    assert_eq!(s(&bytes), "data: \n\n");
}

#[test]
fn sse_retry_is_held_to_sixty_four_bits() {
    let bytes = SseEvent::default()
        .retry(Duration::from_secs(u64::MAX))
        .to_bytes();
    assert_eq!(s(&bytes), "retry: 18446744073709551615\n\n");
}

#[test]
fn sse_data_reads_back_from_its_frame() {
    let data = "first\n\n: not a comment\ndata: nested\nlast\n";
    let frame = SseEvent::data(data)
        .event("x\ny")
        .id("1")
        .to_bytes();
    let values: Vec<&str> = s(&frame)
        .split('\n')
        .filter_map(|line| line.strip_prefix("data: "))
        .collect();
    assert_eq!(values.join("\n"), data);
}

#[test]
fn single_line_keeps_everything_but_line_breaks() {
    assert_eq!(single_line("a\r\nb c"), "a  b c");
    assert_eq!(single_line(""), "");
}

#[test]
fn sse_stream_wraps_in_rich_with_correct_headers_and_streams_each_event() {
    let events = stream::iter(vec![
        SseEvent::data("first").id("1"),
        SseEvent::data("second").event("update"),
    ]);
    let reply: ReplyData<_, ()> = sse(events.map(|ev| ev.to_bytes()));
    let ReplyData::Rich(spec) = reply else {
        panic!("sse() produces a Rich reply for the headers");
    };
    assert_eq!(
        spec.headers.get("content-type"),
        Some(&"text/event-stream".to_string())
    );
    assert_eq!(
        spec.headers.get("cache-control"),
        Some(&"no-cache".to_string())
    );

    let ReplyData::Stream(byte_stream) = spec.payload else {
        panic!("sse() payload is a Stream of bytes");
    };
    let chunks: Vec<Vec<u8>> = byte_stream.collect::<Vec<Vec<u8>>>().now_or_never().unwrap();
    let joined: String = chunks
        .iter()
        .map(|b| std::str::from_utf8(b).unwrap())
        .collect();
    assert_eq!(
        joined,
        "id: 1\ndata: first\n\nevent: update\ndata: second\n\n",
    );
}

#[test]
fn test_builder_pattern() {
    let data: Data = build_reply()
        .status(status(202))
        .header("X-Custom", "value123")
        .body(bytes("application/zip", vec![1, 2, 3]))
        .done();

    match data {
        ReplyData::Rich(spec) => {
            assert_eq!(spec.status, Some(status(202)));
            assert_eq!(spec.headers.get("X-Custom"), Some(&"value123".to_string()));
            assert_eq!(
                spec.payload,
                ReplyData::Bytes {
                    content_type: "application/zip".to_string(),
                    data: vec![1, 2, 3],
                }
            );
        }
        _ => panic!("Expected Rich reply"),
    }
}
