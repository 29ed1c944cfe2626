use batten::json::Json;
use batten::mcp::{
    follow_ups, handshake, request_headers, session_of, settled, answer_text, envelope, Refusal, embedded_of, embedded_text, escapes, frame, payload, reduce, row_for, validate, wiring, Kept, McpConfig,
    Payload, Reduce, ResultRow, Source, SourceReading, Unresolved, Wiring,
};
use batten::mint::scalar;

#[test]
fn an_event_stream_yields_the_last_data_field_and_a_plain_body_is_untouched() {
    assert_eq!(frame("event: message\ndata: {\"a\":1}\n\nevent: message\ndata: {\"b\":2}\n"), "{\"b\":2}");
    assert_eq!(frame("{\"a\":1}"), "{\"a\":1}");
}

#[test]
fn no_pointer_carries_a_resolved_path() {
    for answer in [
        Unresolved::Undeclared,
        Unresolved::NotFound { tried: vec!["a".to_owned()] },
        Unresolved::Unreadable { source: "a".to_owned() },
    ] {
        let pointer = answer.pointer();
        assert!(!pointer.contains('/'), "{pointer:?} must carry no path");
    }
}

#[test]
fn a_root_that_is_not_a_name_and_a_path_that_escapes_are_both_refused_at_load() {
    let mut config = McpConfig::default();
    config.sources.push(Source { id: "s".to_owned(), root: Some("  ".to_owned()), path: "x.json".to_owned(), node: String::new() });
    assert!(validate(&config).is_err(), "an empty root name is refused");
    config.sources[0].root = Some("HOME".to_owned());
    for path in ["/etc/passwd", "/", "../outside.json", "a/../../b.json"] {
        config.sources[0].path = path.to_owned();
        assert!(validate(&config).is_err(), "{path} must not be declarable");
    }
    config.sources[0].path = "under/here.json".to_owned();
    assert!(validate(&config).is_ok());
}

#[test]
fn a_reduction_over_no_fields_is_refused_at_load() {
    let mut config = McpConfig::default();
    config.results.push(ResultRow {
        method: "m".to_owned(),
        reduce: Reduce::Project,
        fields: Vec::new(),
        node: String::new(),
        embedded: false,
    });
    assert!(validate(&config).is_err());
}

// ---------------------------------------------------------------------------

#[test]
fn refusals_quote_the_id_they_name() {
    let mut config = McpConfig::default();
    for id in ["a", "a"] {
        config.sources.push(Source { id: id.to_owned(), root: None, path: "w.json".to_owned(), node: String::new() });
    }
    assert_eq!(
        validate(&config).unwrap_err().text(),
        "mcp: source id \"a\" is declared twice; one id names one file, or which file the engine reads depends on row order"
    );
    let mut blank = McpConfig::default();
    blank.results.push(ResultRow {
        method: "m".to_owned(),
        reduce: Reduce::Acknowledge,
        fields: vec!["id".to_owned(), " ".to_owned()],
        node: String::new(),
        embedded: false,
    });
    assert_eq!(
        validate(&blank).unwrap_err().text(),
        "mcp: method \"m\" declares an empty field name (\" \"); a field that names nothing can never be found and reads as a projection that dropped it"
    );
}

#[test]
fn a_method_selects_its_first_row() {
    let mut config = McpConfig::default();
    config.results.push(ResultRow { method: "get".to_owned(), reduce: Reduce::Project, fields: vec!["id".to_owned()], node: String::new(), embedded: false });
    assert_eq!(row_for(&config, "get").map(|r| r.fields.len()), Some(1));
    assert!(row_for(&config, "put").is_none());
}

#[test]
fn only_a_rooted_or_upward_path_escapes() {
    assert!(escapes("/x"));
    assert!(escapes("a/../b"));
    assert!(!escapes("a/b..c/d"));
    assert!(!escapes("./a"));
}

#[test]
fn pointers_name_ids_and_causes() {
    assert_eq!(
        Unresolved::NotFound { tried: vec!["a".to_owned(), "b".to_owned()] }.pointer(),
        "no declared source resolves this server (tried: a, b)"
    );
    assert!(frame("data: x\ndata:  y  \n").eq("y"));
}

fn json(v: &serde_json::Value) -> Json {
    match v {
        serde_json::Value::Null => Json::Null,
        serde_json::Value::Bool(b) => Json::Bool(*b),
        serde_json::Value::Number(n) => Json::Number(n.to_string()),
        serde_json::Value::String(s) => Json::Text(s.clone()),
        serde_json::Value::Array(xs) => Json::Array(xs.iter().map(json).collect()),
        serde_json::Value::Object(ms) => Json::Object(ms.iter().map(|(k, v)| (k.clone(), json(v))).collect()),
    }
}

fn parse(text: &str) -> Json {
    json(&serde_json::from_str::<serde_json::Value>(text).expect("a document"))
}

/// What a caller does: parse the one block's text, where there is one, and
/// hand both over.
fn unframe(result: Json) -> Payload {
    let parsed = embedded_text(&result)
        .and_then(|text| serde_json::from_str::<serde_json::Value>(&text).ok())
        .map(|value| json(&value));
    payload(result, parsed)
}

#[test]
fn the_protocols_own_framing_comes_off_without_a_row_asking() {
    let framed = parse(r#"{"content": [{"type": "text", "text": "{\"id\":\"K-1\",\"body\":\"prose\"}"}]}"#);
    let taken = unframe(framed);
    assert!(taken.unwrapped, "a single text block is recognised framing");
    assert_eq!(scalar(&taken.value, "id").as_deref(), Some("K-1"));

    let both = parse(
        r#"{"structuredContent": {"id": "K-2"}, "content": [{"type": "text", "text": "{\"id\":\"K-1\"}"}]}"#,
    );
    assert_eq!(scalar(&unframe(both).value, "id").as_deref(), Some("K-2"));
}

#[test]
fn what_is_filed_is_what_the_store_s_reader_resolves() {
    let text = r#"{"content": [{"type": "text", "text": "{\"id\":\"K-1\",\"description\":\"a body\"}"}]}"#;
    assert_eq!(
        scalar(&unframe(parse(text)).value, "id"),
        Some("K-1".to_owned()),
        "what `mcp call` files must be resolvable by the key the store's reader looks for"
    );
    assert_eq!(
        scalar(&parse(text), "id"),
        None,
        "and the envelope must NOT be — otherwise this case would pass over either shape"
    );
}

#[test]
fn an_unrecognised_framing_keeps_its_bytes_rather_than_having_a_shape_imposed() {
    for odd in [
        r#"{"content": [{"type": "text", "text": "{\"id\":\"a\"}"}, {"type": "text", "text": "{\"id\":\"b\"}"}]}"#,
        r#"{"content": [{"type": "text", "text": "plain prose"}]}"#,
        r#"{"rows": [1, 2, 3]}"#,
    ] {
        let taken = unframe(parse(odd));
        assert!(!taken.unwrapped, "unrecognised framing must say so");
        assert_eq!(taken.value, parse(odd), "and must hand the bytes back untouched");
    }
}

#[test]
fn a_value_that_is_not_an_object_is_handed_back_whole() {
    let taken = payload(Json::Array(vec![Json::Null]), Some(Json::Bool(true)));
    assert!(!taken.unwrapped);
    assert_eq!(taken.value, Json::Array(vec![Json::Null]));
}

fn doc(text: &str) -> serde_json::Value {
    serde_json::from_str(text).expect("a document")
}

fn text(t: &str) -> serde_json::Value {
    serde_json::Value::String(t.to_owned())
}

fn value(j: &Json) -> serde_json::Value {
    match j {
        Json::Null => serde_json::Value::Null,
        Json::Bool(b) => serde_json::Value::Bool(*b),
        Json::Number(n) => serde_json::Value::Number(n.parse().expect("a number")),
        Json::Text(t) => serde_json::Value::String(t.clone()),
        Json::Array(xs) => serde_json::Value::Array(xs.iter().map(value).collect()),
        Json::Object(ms) => serde_json::Value::Object(ms.iter().map(|(k, v)| (k.clone(), value(v))).collect()),
    }
}

/// The longest scalar, in bytes, that `acknowledge` keeps in these cases.
const BOUND: usize = 64;

/// What a caller does: parse the text an embedded row asks for, reduce, and
/// write the kept fields as a JSON object.
fn reduced(row: &ResultRow, result: &serde_json::Value) -> Option<serde_json::Map<String, serde_json::Value>> {
    let doc = json(result);
    let parsed = embedded_of(row, &doc)
        .and_then(|text| serde_json::from_str::<serde_json::Value>(&text).ok())
        .map(|v| json(&v));
    let kept = reduce(row, &doc, parsed.as_ref(), BOUND)?;
    Some(
        kept.into_iter()
            .map(|(name, k)| {
                let v = match k {
                    Kept::Whole(j) => value(j),
                    Kept::Scalar(t) => serde_json::Value::String(t),
                };
                (name, v)
            })
            .collect(),
    )
}

fn row(reduce: Reduce, fields: &[&str]) -> ResultRow {
    ResultRow {
        method: "m".to_owned(),
        reduce,
        fields: fields.iter().map(|f| (*f).to_owned()).collect(),
        node: String::new(),
        embedded: false,
    }
}

#[test]
fn a_projection_keeps_the_declared_fields_and_nothing_else() {
    let result = doc(r#"{"id": "K-1", "body": "a long prose body", "n": 3}"#);
    let kept = reduced(&row(Reduce::Project, &["id", "n"]), &result).unwrap();
    assert_eq!(kept.get("id"), Some(&text("K-1")));
    assert_eq!(kept.get("n"), Some(&doc("3")));
    assert!(!kept.contains_key("body"), "a field no row declared must never leave the store");
}

#[test]
fn an_undeclared_field_is_absent_rather_than_null() {
    let kept = reduced(&row(Reduce::Project, &["missing"]), &doc(r#"{"id": "K"}"#)).unwrap();
    assert!(kept.is_empty(), "an absent field contributes no key at all");
}

#[test]
fn acknowledge_refuses_a_body_rather_than_truncating_it() {
    let long = "x".repeat(BOUND + 1);
    let result = doc(&format!(r#"{{"id": "K-1", "status": "In Progress", "labels": ["a", "b"], "description": "{long}"}}"#));
    let kept = reduced(&row(Reduce::Acknowledge, &["id", "status", "labels", "description"]), &result).unwrap();
    assert_eq!(kept.get("id"), Some(&text("K-1")));
    assert!(!kept.contains_key("description"), "an over-long value is refused, never truncated");
    assert!(!kept.contains_key("labels"), "a container is a shape whose size the caller did not bound");
    assert_eq!(
        kept.get("status"),
        Some(&text("In Progress")),
        "a short status name is what the caller asked for, not prose to refuse"
    );
    let wide = reduced(&row(Reduce::Project, &["id", "labels", "description"]), &result).unwrap();
    assert!(wide.contains_key("description") && wide.contains_key("labels"));
}

#[test]
fn a_node_the_row_cannot_reach_is_could_not_look_rather_than_an_empty_reduction() {
    let mut unreachable = row(Reduce::Project, &["id"]);
    unreachable.node = "nowhere.at.all".to_owned();
    assert_eq!(reduced(&unreachable, &doc(r#"{"id": "K"}"#)), None);

    let mut mistaken = row(Reduce::Project, &["id"]);
    mistaken.embedded = true;
    assert_eq!(reduced(&mistaken, &doc(r#"{"id": "K"}"#)), None);
}

#[test]
fn an_embedded_payload_is_parsed_only_where_a_row_asked() {
    let odd = doc(r#"{"envelope": {"blob": "{\"id\":\"K-1\",\"body\":\"prose\"}"}}"#);
    let mut declared = row(Reduce::Project, &["id"]);
    declared.node = "envelope.blob".to_owned();
    declared.embedded = true;
    let kept = reduced(&declared, &odd).unwrap();
    assert_eq!(kept.get("id"), Some(&text("K-1")));
    assert!(!kept.contains_key("body"));
}

#[test]
fn acknowledge_keeps_a_scalar_at_the_bound_and_a_number_as_text() {
    let result = doc(&format!(r#"{{"exact": "{}", "n": 7, "empty": "", "flag": true, "gone": null}}"#, "y".repeat(BOUND)));
    let kept = reduced(&row(Reduce::Acknowledge, &["exact", "n", "empty", "flag", "gone", "n"]), &result).unwrap();
    assert_eq!(kept.len(), 3);
    assert_eq!(kept.get("exact"), Some(&text(&"y".repeat(BOUND))));
    assert_eq!(kept.get("n"), Some(&text("7")));
    assert_eq!(kept.get("flag"), Some(&text("true")));
}

#[test]
fn a_field_declared_twice_is_kept_once_in_declared_order() {
    let doc = parse(r#"{"b": 1, "a": {"c": 2}}"#);
    let r = row(Reduce::Project, &["a.c", "b", "a.c"]);
    let kept = reduce(&r, &doc, None, BOUND).unwrap();
    let names: Vec<&str> = kept.iter().map(|(n, _)| n.as_str()).collect();
    assert_eq!(names, vec!["a.c", "b"]);
    assert_eq!(kept[0].1, Kept::Whole(&Json::Number("2".to_owned())));
}

fn source(id: &str, node: &str) -> Source {
    Source { id: id.to_owned(), root: Some("ROOT".to_owned()), path: "wiring.json".to_owned(), node: node.to_owned() }
}

#[test]
fn an_undeclared_source_set_and_an_unmatched_server_answer_differently() {
    let empty = McpConfig::default();
    assert_eq!(wiring(&empty, &[], "anything"), Err(Unresolved::Undeclared));

    let mut declared = McpConfig::default();
    declared.sources.push(Source {
        id: "nowhere".to_owned(),
        root: Some("BATTEN_MCP_ROOT_THAT_IS_NOT_SET".to_owned()),
        path: "wiring.json".to_owned(),
        node: String::new(),
    });
    assert_eq!(
        wiring(&declared, &[SourceReading::Unset], "anything"),
        Err(Unresolved::NotFound { tried: vec!["nowhere".to_owned()] })
    );
}

#[test]
fn the_first_source_that_carries_the_server_wins() {
    let mut config = McpConfig::default();
    config.sources.push(source("first", "mcpServers"));
    config.sources.push(source("second", "servers"));
    config.sources.push(source("third", ""));
    let readings = [
        SourceReading::Document(parse(r#"{"mcpServers": {"other": {"url": "https://other"}}}"#)),
        SourceReading::Document(parse(
            r#"{"servers": {"tracker": {"url": "", "endpoint": "https://no", "headers": {"Authorization": "SECRET-REDACTED", "X-Count": 2, "X-List": [1]}}}}"#,
        )),
        SourceReading::Document(parse(
            r#"{"tracker": {"httpUrl": "https://tracker", "headers": {"Authorization": "SECRET-REDACTED", "X-Count": 2, "X-List": [1]}}}"#,
        )),
    ];
    assert_eq!(
        wiring(&config, &readings, "tracker"),
        Ok(Wiring {
            source: "third".to_owned(),
            endpoint: "https://tracker".to_owned(),
            headers: vec![
                ("Authorization".to_owned(), "SECRET-REDACTED".to_owned()),
                ("X-Count".to_owned(), "2".to_owned()),
            ],
        })
    );
}

#[test]
fn a_file_that_will_not_parse_stops_the_search() {
    let mut config = McpConfig::default();
    config.sources.push(source("a", ""));
    config.sources.push(source("b", ""));
    config.sources.push(source("c", ""));
    let readings = [
        SourceReading::Absent,
        SourceReading::Unparsed,
        SourceReading::Document(parse(r#"{"tracker": {"url": "https://tracker"}}"#)),
    ];
    assert_eq!(wiring(&config, &readings, "tracker"), Err(Unresolved::Unreadable { source: "b".to_owned() }));
    let skipped = [SourceReading::Absent, SourceReading::Unset, SourceReading::Document(parse(r#"{"x": 1}"#))];
    assert_eq!(
        wiring(&config, &skipped, "tracker"),
        Err(Unresolved::NotFound { tried: vec!["a".to_owned(), "b".to_owned(), "c".to_owned()] })
    );
}

#[test]
fn an_answer_is_read_only_from_a_success_in_utf8() {
    assert_eq!(answer_text(404, b"{}", "initialize"), Err("mcp: initialize answered with status 404".to_owned()));
    assert_eq!(answer_text(199, b"{}", "m"), Err("mcp: m answered with status 199".to_owned()));
    assert_eq!(answer_text(300, b"{}", "m"), Err("mcp: m answered with status 300".to_owned()));
    assert_eq!(
        answer_text(200, &[0xff, 0xfe], "tools/call"),
        Err("mcp: tools/call answered with bytes that are not UTF-8".to_owned())
    );
    assert_eq!(answer_text(202, b"", "m"), Ok(String::new()));
    assert_eq!(
        answer_text(200, "event: message\ndata: {\"result\":1}\n".as_bytes(), "m"),
        Ok("{\"result\":1}".to_owned())
    );
    assert_eq!(answer_text(299, "{\"é\":1}".as_bytes(), "m"), Ok("{\"é\":1}".to_owned()));
}

#[test]
fn an_envelope_yields_its_result_or_the_error_code_alone() {
    let answered = parse(r#"{"jsonrpc": "2.0", "id": 2, "result": {"content": []}}"#);
    assert_eq!(envelope(&answered), Ok(&parse(r#"{"content": []}"#)));

    let refused = parse(r#"{"jsonrpc": "2.0", "error": {"code": -32601, "message": "secret body"}, "result": 1}"#);
    let refusal = envelope(&refused).unwrap_err();
    assert_eq!(refusal, Refusal::Refused(&Json::Number("-32601".to_owned())));
    let message = refusal.message("tools/call", "-32601");
    assert_eq!(message, "mcp: tools/call was refused by the server, JSON-RPC error code -32601");
    assert!(!message.contains("secret"));

    let codeless = parse(r#"{"error": {"message": "no code"}, "result": 7}"#);
    assert_eq!(envelope(&codeless), Ok(&Json::Number("7".to_owned())));

    let empty = parse(r#"{"jsonrpc": "2.0", "id": 1}"#);
    let none = envelope(&empty).unwrap_err();
    assert_eq!(none, Refusal::NoResult);
    assert_eq!(none.message("initialize", ""), "mcp: initialize answered with an envelope carrying no result");
}

#[test]
fn a_dispatch_opens_with_the_pinned_handshake_then_notifies_and_calls() {
    assert_eq!(
        value(&handshake("0.1.0")),
        doc(r#"{"jsonrpc": "2.0", "id": 1, "method": "initialize", "params": {"protocolVersion": "2025-06-18", "capabilities": {}, "clientInfo": {"name": "batten", "version": "0.1.0"}}}"#)
    );
    let (ready, call) = follow_ups("save_issue", parse(r#"{"id": "K-1"}"#));
    assert_eq!(value(&ready), doc(r#"{"jsonrpc": "2.0", "method": "notifications/initialized"}"#));
    assert_eq!(
        value(&call),
        doc(r#"{"jsonrpc": "2.0", "id": 2, "method": "tools/call", "params": {"name": "save_issue", "arguments": {"id": "K-1"}}}"#)
    );
}

#[test]
fn every_request_carries_the_wiring_headers_and_the_session_once_minted() {
    let wired = Wiring {
        source: "a".to_owned(),
        endpoint: "https://tracker".to_owned(),
        headers: vec![("Authorization".to_owned(), "SECRET-REDACTED".to_owned())],
    };
    let pairs = |v: &[(&str, &str)]| v.iter().map(|(k, x)| ((*k).to_owned(), (*x).to_owned())).collect::<Vec<_>>();
    assert_eq!(
        request_headers(&wired, None),
        pairs(&[
            ("Authorization", "SECRET-REDACTED"),
            ("content-type", "application/json"),
            ("accept", "application/json, text/event-stream"),
        ])
    );
    assert_eq!(
        request_headers(&wired, Some("s-1")).last(),
        Some(&("mcp-session-id".to_owned(), "s-1".to_owned()))
    );
    assert_eq!(session_of(Some("s-1")), Some("s-1".to_owned()));
    assert_eq!(session_of(Some("")), None);
    assert_eq!(session_of(None), None);
}

#[test]
fn a_rejected_notification_stops_the_call_from_counting() {
    assert_eq!(settled(&[202, 200]), Ok(()));
    assert_eq!(
        settled(&[400, 200]),
        Err("mcp: the server refused the initialized notification with status 400".to_owned())
    );
    assert_eq!(settled(&[202]), Err("mcp: the session exchange returned 1 answers rather than two".to_owned()));
}
