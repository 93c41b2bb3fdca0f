use actus::compression::encode;
use actus::compression::is_compressible;
use actus::compression::list_has;
use actus::compression::media_type_of;
use actus::compression::negotiate;
use actus::compression::tag_vary_if_encoded;
use actus::compression::CompressionLayer;
use actus::compression::Encoding;
use actus::quality::parse_quality;
use actus::quality::ONE;
use actus::reply::ReplyData;
use actus::reply::ReplySpec;
use actus::strmap::StrMap;
use http::HeaderMap;
use http::HeaderValue;
use serde_json::Value;
use std::io::Read;

type Data = ReplyData<(), ()>;

#[test]
fn negotiate_picks_the_higher_q_when_client_states_a_preference() {
    assert_eq!(
        negotiate(Some("br;q=0.8, gzip;q=1.0"), true),
        Encoding::Gzip,
        "gzip has higher q; prefer_brotli is only a tie-breaker",
    );
    assert_eq!(
        negotiate(Some("br;q=1.0, gzip;q=0.5"), false),
        Encoding::Brotli,
        "br has higher q; prefer_brotli=false doesn't override it",
    );
}

#[test]
fn negotiate_uses_prefer_brotli_only_on_a_tie() {
    assert_eq!(
        negotiate(Some("br;q=0.7, gzip;q=0.7"), true),
        Encoding::Brotli,
    );
    assert_eq!(
        negotiate(Some("br;q=0.7, gzip;q=0.7"), false),
        Encoding::Gzip,
    );
    assert_eq!(negotiate(Some("gzip, deflate, br"), true), Encoding::Brotli);
    assert_eq!(negotiate(Some("gzip, deflate, br"), false), Encoding::Gzip);
}

#[test]
fn negotiate_treats_q_zero_as_explicit_disallow() {
    assert_eq!(negotiate(Some("br;q=0, gzip"), true), Encoding::Gzip);
    assert_eq!(
        negotiate(Some("br;q=0, gzip;q=0"), true),
        Encoding::Identity
    );
}

#[test]
fn negotiate_wildcard_applies_to_unnamed_encodings() {
    assert_eq!(negotiate(Some("*"), true), Encoding::Brotli);
    assert_eq!(negotiate(Some("*;q=0.5"), true), Encoding::Brotli);
    assert_eq!(negotiate(Some("*;q=0"), true), Encoding::Identity);
    assert_eq!(negotiate(Some("gzip, *;q=0"), true), Encoding::Gzip);
    assert_eq!(negotiate(Some("gzip, *;q=0.5"), true), Encoding::Gzip);
}

#[test]
fn negotiate_handles_only_one_offered() {
    assert_eq!(negotiate(Some("gzip"), true), Encoding::Gzip);
    assert_eq!(negotiate(Some("br"), false), Encoding::Brotli);
}

#[test]
fn negotiate_identity_only_means_no_encoding() {
    assert_eq!(negotiate(Some("identity"), true), Encoding::Identity);
}

#[test]
fn negotiate_missing_header_means_no_compression() {
    assert_eq!(negotiate(None, true), Encoding::Identity);
}

#[test]
fn negotiate_ignores_unknown_encodings() {
    assert_eq!(
        negotiate(Some("deflate, compress, x-gzip"), true),
        Encoding::Identity,
    );
}

#[test]
fn negotiate_tolerates_whitespace_and_casing() {
    assert_eq!(
        negotiate(Some(" BR ; Q=0.9 , GZip ; q=0.5 "), true),
        Encoding::Brotli,
        "case-insensitive name + Q=; tolerated whitespace",
    );
}

#[test]
fn negotiate_rejects_out_of_range_q_silently() {
    assert_eq!(negotiate(Some("br;q=2.0"), true), Encoding::Brotli);
    assert_eq!(negotiate(Some("br;q=-1"), true), Encoding::Brotli);
}

#[test]
fn is_compressible_allowlist() {
    assert!(is_compressible("application/json"));
    assert!(is_compressible("application/vnd.api+json; charset=utf-8"));
    assert!(is_compressible("text/html"));
    assert!(is_compressible("image/svg+xml"));
    assert!(!is_compressible("image/png"));
    assert!(!is_compressible("application/zip"));
    assert!(!is_compressible("application/octet-stream"));
}

fn object(entries: &[(&str, Value)]) -> Value {
    let mut m = serde_json::Map::new();
    for (k, v) in entries {
        m.insert(k.to_string(), v.clone());
    }
    Value::Object(m)
}

fn rows(name: Option<&str>) -> Value {
    let list: Vec<Value> = (0..2000)
        .map(|i| match name {
            Some(n) => object(&[("id", Value::from(i)), ("name", Value::from(n))]),
            None => object(&[("id", Value::from(i))]),
        })
        .collect();
    object(&[("rows", Value::Array(list))])
}

#[test]
fn small_json_is_buffered_but_not_encoded() {
    let data: Data = ReplyData::Json(object(&[("ok", Value::from(true))]));
    let out = CompressionLayer::new().compress_reply(data, Some("br"));
    match out {
        ReplyData::Bytes { content_type, .. } => assert_eq!(content_type, "application/json"),
        other => panic!("expected buffered Bytes, got {other:?}"),
    }
}

#[test]
fn large_json_is_brotli_encoded_and_smaller() {
    let big = rows(Some("User Name"));
    let original_len = serde_json::to_vec(&big).unwrap().len();
    assert!(original_len > 10_000);
    let data: Data = ReplyData::Json(big);
    let out = CompressionLayer::new().compress_reply(data, Some("br, gzip"));
    match out {
        ReplyData::Rich(spec) => {
            assert_eq!(
                spec.headers.get("content-encoding").map(String::as_str),
                Some("br")
            );
            match &spec.payload {
                ReplyData::Bytes { data, .. } => assert!(data.len() < original_len / 2),
                other => panic!("expected Bytes payload, got {other:?}"),
            }
        }
        other => panic!("expected Rich(compressed), got {other:?}"),
    }
}

#[test]
fn no_accept_encoding_leaves_json_alone() {
    let data: Data = ReplyData::Json(object(&[("a", Value::from(1))]));
    let out = CompressionLayer::new().compress_reply(data, None);
    assert!(matches!(out, ReplyData::Json(_)));
}

fn texts(entries: &[(&str, &str)]) -> StrMap<String> {
    let mut m: StrMap<String> = StrMap::new();
    for (k, v) in entries {
        m.insert(k.to_string(), v.to_string());
    }
    m
}

#[test]
fn does_not_double_encode_an_already_encoded_reply() {
    let big = rows(None);
    let pre: Data = ReplyData::Rich(Box::new(ReplySpec {
        payload: ReplyData::Bytes {
            content_type: "application/json".into(),
            data: serde_json::to_vec(&big).unwrap(),
        },
        status: None,
        headers: texts(&[("content-encoding", "gzip")]),
    }));
    let out = CompressionLayer::new().compress_reply(pre, Some("br"));
    match out {
        ReplyData::Rich(spec) => {
            assert_eq!(
                spec.headers.get("content-encoding").map(String::as_str),
                Some("gzip")
            );
        }
        other => panic!("expected Rich, got {other:?}"),
    }
}

#[test]
fn tag_vary_appends_only_when_content_encoding_present() {
    let mut with_ce = HeaderMap::new();
    with_ce.insert("content-encoding", HeaderValue::from_static("br"));
    tag_vary_if_encoded(&mut with_ce);
    assert_eq!(with_ce.get("vary").unwrap(), "Accept-Encoding");

    let mut without = HeaderMap::new();
    tag_vary_if_encoded(&mut without);
    assert!(without.get("vary").is_none());
}

#[test]
fn tag_vary_keeps_what_is_there() {
    let mut headers = HeaderMap::new();
    headers.insert("content-encoding", HeaderValue::from_static("gzip"));
    headers.insert("vary", HeaderValue::from_static("Origin"));
    tag_vary_if_encoded(&mut headers);
    let vary: Vec<&str> = headers
        .get_all("vary")
        .iter()
        .map(|v| v.to_str().unwrap())
        .collect();
    assert_eq!(vary, ["Origin", "Accept-Encoding"]);
}

fn big_compressible_rich(headers: StrMap<String>) -> Data {
    ReplyData::Rich(Box::new(ReplySpec {
        payload: ReplyData::Json(rows(None)),
        status: None,
        headers,
    }))
}

fn has_content_encoding(spec: &ReplySpec<(), ()>) -> bool {
    spec.headers
        .keys()
        .iter()
        .any(|k| k.eq_ignore_ascii_case("content-encoding"))
}

#[test]
fn no_transform_directive_skips_compression_entirely() {
    let pre = big_compressible_rich(texts(&[("Cache-Control", "no-transform")]));
    let out = CompressionLayer::new().compress_reply(pre, Some("br, gzip"));
    match out {
        ReplyData::Rich(spec) => {
            assert!(
                !has_content_encoding(&spec),
                "no-transform forbids compression; no Content-Encoding should be set",
            );
            assert!(
                matches!(spec.payload, ReplyData::Json(_)),
                "payload should be untouched (still Json, not lifted to Bytes)",
            );
        }
        other => panic!("expected Rich passing through unchanged, got {other:?}"),
    }
}

#[test]
fn no_transform_is_case_insensitive_and_robust_to_other_directives() {
    for header_name in ["cache-control", "Cache-Control", "CACHE-CONTROL"] {
        for value in [
            "no-transform",
            "no-cache, no-transform",
            "private, no-transform, max-age=0",
            "  no-transform  ",
            "no-cache, NO-TRANSFORM",
        ] {
            let pre = big_compressible_rich(texts(&[(header_name, value)]));
            let out = CompressionLayer::new().compress_reply(pre, Some("br"));
            match out {
                ReplyData::Rich(spec) => assert!(
                    !has_content_encoding(&spec),
                    "no-transform should suppress compression for header `{header_name}: {value}`",
                ),
                other => panic!("expected Rich, got {other:?}"),
            }
        }
    }
}

#[test]
fn other_cache_control_directives_do_not_disable_compression() {
    for value in ["no-cache", "no-store", "private", "max-age=0"] {
        let pre = big_compressible_rich(texts(&[("Cache-Control", value)]));
        let out = CompressionLayer::new().compress_reply(pre, Some("br"));
        match out {
            ReplyData::Rich(spec) => assert_eq!(
                spec.headers.get("content-encoding").map(String::as_str),
                Some("br"),
                "compression should still run for header `Cache-Control: {value}`",
            ),
            other => panic!("expected Rich, got {other:?}"),
        }
    }
}

#[test]
fn no_transform_only_applies_to_rich_replies() {
    let data: Data = ReplyData::Json(rows(None));
    let out = CompressionLayer::new().compress_reply(data, Some("br"));
    match out {
        ReplyData::Rich(spec) => {
            assert_eq!(
                spec.headers.get("content-encoding").map(String::as_str),
                Some("br"),
            );
        }
        other => panic!("expected Rich (compressed), got {other:?}"),
    }
}

#[test]
fn quality_setting_changes_brotli_output() {
    let bytes = serde_json::to_vec(&rows(None)).unwrap();
    let fast = encode(Encoding::Brotli, &bytes, 0).unwrap();
    let best = encode(Encoding::Brotli, &bytes, 11).unwrap();
    assert_ne!(
        fast, best,
        "quality 0 and quality 11 should produce different brotli outputs",
    );
    assert!(best.len() <= fast.len());
}

#[test]
fn quality_clamps_to_eleven() {
    let layer = CompressionLayer::new().brotli_quality(99);
    let payload = object(&[("x", Value::from("y".repeat(2000)))]);
    let data: Data = ReplyData::Json(payload);
    let out = layer.compress_reply(data, Some("br"));
    assert!(matches!(out, ReplyData::Rich(_)));
}

fn encoded_body(out: Data) -> (String, Vec<u8>) {
    match out {
        ReplyData::Rich(spec) => {
            let name = spec.headers.get("content-encoding").unwrap().clone();
            match spec.payload {
                ReplyData::Bytes { data, .. } => (name, data),
                other => panic!("expected Bytes payload, got {other:?}"),
            }
        }
        other => panic!("expected Rich, got {other:?}"),
    }
}

#[test]
fn encoded_bodies_decode_to_what_was_sent() {
    let text = "the same line again\n".repeat(500).into_bytes();
    let plain = || -> Data {
        ReplyData::Bytes {
            content_type: "text/plain".to_string(),
            data: text.clone(),
        }
    };

    let (name, data) =
        encoded_body(CompressionLayer::new().compress_reply(plain(), Some("gzip")));
    assert_eq!(name, "gzip");
    assert!(data.len() < text.len());
    let mut decoded: Vec<u8> = Vec::new();
    flate2::read::GzDecoder::new(&data[..])
        .read_to_end(&mut decoded)
        .unwrap();
    assert_eq!(decoded, text);

    let (name, data) = encoded_body(CompressionLayer::new().compress_reply(plain(), Some("br")));
    assert_eq!(name, "br");
    assert!(data.len() < text.len());
    let mut decoded: Vec<u8> = Vec::new();
    brotli::Decompressor::new(&data[..], 4096)
        .read_to_end(&mut decoded)
        .unwrap();
    assert_eq!(decoded, text);
}

#[test]
fn bodies_that_would_not_shrink_or_are_too_small_stay() {
    let noise: Vec<u8> = {
        let mut x: u32 = 12345;
        (0..4096)
            .map(|_| {
                x = x.wrapping_mul(1664525).wrapping_add(1013904223);
                (x >> 24) as u8
            })
            .collect()
    };
    let data: Data = ReplyData::Bytes {
        content_type: "text/plain".to_string(),
        data: noise.clone(),
    };
    match CompressionLayer::new().compress_reply(data, Some("gzip")) {
        ReplyData::Bytes { data, .. } => assert_eq!(data, noise),
        other => panic!("expected Bytes, got {other:?}"),
    }

    let small: Data = ReplyData::Bytes {
        content_type: "text/plain".to_string(),
        data: vec![b'a'; 100],
    };
    assert!(matches!(
        CompressionLayer::new().compress_reply(small, Some("gzip")),
        ReplyData::Bytes { .. }
    ));
    let small: Data = ReplyData::Bytes {
        content_type: "text/plain".to_string(),
        data: vec![b'a'; 100],
    };
    let out = CompressionLayer::new()
        .min_size(100)
        .compress_reply(small, Some("gzip"));
    assert!(matches!(out, ReplyData::Rich(_)));
}

#[test]
fn types_that_are_compressed_already_stay() {
    let data: Data = ReplyData::Bytes {
        content_type: "image/png".to_string(),
        data: vec![0; 5000],
    };
    assert!(matches!(
        CompressionLayer::new().compress_reply(data, Some("br")),
        ReplyData::Bytes { .. }
    ));
    let data: Data = ReplyData::Stream(());
    assert!(matches!(
        CompressionLayer::new().compress_reply(data, Some("br")),
        ReplyData::Stream(())
    ));
}

#[test]
fn prefer_gzip_breaks_ties() {
    let data: Data = ReplyData::Json(rows(None));
    let (name, _) = encoded_body(
        CompressionLayer::new()
            .prefer_gzip()
            .compress_reply(data, Some("br, gzip")),
    );
    assert_eq!(name, "gzip");
}

#[test]
fn identity_encodes_nothing() {
    assert_eq!(encode(Encoding::Identity, b"abc", 4), None);
}

#[test]
fn without_an_encoding_a_payload_stays_as_it_is() {
    let c = CompressionLayer::new().min_size(0);
    let payload: Data = ReplyData::Json(rows(None));
    let (same, name) = c.compress_payload(payload, Encoding::Identity);
    assert!(name.is_none());
    assert!(same == ReplyData::Json(rows(None)));
}

#[test]
fn a_body_that_shrinks_is_gzipped_under_its_name() {
    let c = CompressionLayer::new().min_size(1);
    let body = vec![b'a'; 4096];
    let payload: Data = ReplyData::Bytes {
        content_type: "text/plain".to_string(),
        data: body.clone(),
    };
    let (packed, name) = c.compress_payload(payload, Encoding::Gzip);
    assert_eq!(name, Some("gzip"));
    let expected = encode(Encoding::Gzip, &body, 4).unwrap();
    assert!(expected.len() < body.len());
    match packed {
        ReplyData::Bytes { content_type, data } => {
            assert_eq!(content_type, "text/plain");
            assert_eq!(data, expected);
        }
        other => panic!("{other:?}"),
    }
}

fn weight(text: &str) -> Option<u128> {
    let chars: Vec<char> = text.chars().collect();
    parse_quality(&chars)
}

#[test]
fn weights_are_read_as_exact_decimals() {
    assert_eq!(weight("1"), Some(ONE));
    assert_eq!(weight("1.000"), Some(ONE));
    assert_eq!(weight("0.5"), Some(ONE / 2));
    assert_eq!(weight(".25"), Some(ONE / 4));
    assert_eq!(weight("0"), Some(0));
    assert_eq!(weight("5e-1"), Some(ONE / 2));
    assert_eq!(weight("1e-40"), Some(1));
    assert_eq!(weight("0e-40"), Some(0));
    assert_eq!(weight("-1e-40"), None);
    assert_eq!(negotiate(Some("br;q=1e-40"), true), Encoding::Brotli);
    assert_eq!(weight("1.01"), None);
    assert_eq!(weight("-0.5"), None);
    assert_eq!(weight("half"), None);
    assert_eq!(weight(""), None);
}

#[test]
fn lists_and_types_are_read_without_case_and_space() {
    assert!(list_has("no-cache, No-Transform", "no-transform"));
    assert!(!list_has("no-cache, no-transformer", "no-transform"));
    assert_eq!(media_type_of("Text/HTML; charset=utf-8"), "text/html");
}
