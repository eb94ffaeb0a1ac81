use kin_lsp::client::{
    frame, frame_message, notification_message, read_message, request_message, FrameHeader, HeaderStep,
    JsonRpcClient, Outbound,
};
use kin_lsp::json::{no_fields, of_value, parse, render, with, Json};
use kin_lsp::LspError;

fn json(text: &str) -> Json {
    parse(&text.as_bytes().to_vec()).unwrap()
}

fn written(client: &mut JsonRpcClient) -> Vec<String> {
    let mut frames = Vec::new();
    while let Some(write) = client.next_write() {
        frames.extend(write.frames());
    }
    frames
}

#[test]
fn json_rpc_request_format() {
    let request = request_message(1, "initialize", Json::Object(no_fields()));
    let body = render(&request);
    assert!(body.contains("\"jsonrpc\":\"2.0\""));
    assert!(body.contains("\"method\":\"initialize\""));
    assert_eq!(
        body,
        "{\"id\":1,\"jsonrpc\":\"2.0\",\"method\":\"initialize\",\"params\":{}}"
    );
    assert_eq!(
        render(&notification_message("exit", Json::Null)),
        "{\"jsonrpc\":\"2.0\",\"method\":\"exit\",\"params\":null}"
    );
}

#[test]
fn json_is_parsed_and_rendered() {
    let value = json("{\"b\": [1, -2, 1.5, true, null], \"a\": \"\\u00e9\\n\", \"b2\": {}}");
    assert_eq!(value.get("a"), Some(&Json::Text("é\n".to_string())));
    assert_eq!(
        render(&value),
        "{\"a\":\"é\\n\",\"b\":[1,-2,1.5,true,null],\"b2\":{}}"
    );
    assert_eq!(value.clone(), value);
    assert!(parse(&b"{".to_vec()).unwrap_err().contains("EOF"));
    // Of two members with the same key the later one counts.
    let twice = Json::Object(with(
        with(no_fields(), "k", Json::Int(1)),
        "k",
        Json::Int(2),
    ));
    assert_eq!(twice.get("k"), Some(&Json::Int(2)));
    assert_eq!(render(&twice), "{\"k\":2}");
    assert_eq!(twice.take("k"), Some(Json::Int(2)));
    assert_eq!(Json::Int(1).take("k"), None);
    // A number beyond the signed range passes through.
    assert_eq!(
        render(&json("18446744073709551615")),
        "18446744073709551615"
    );
}

#[test]
fn a_frame_reads_back() {
    let body = "{\"x\":\"é\"}";
    let whole = frame(body);
    assert_eq!(whole, "Content-Length: 10\r\n\r\n{\"x\":\"é\"}");
    let mut header = FrameHeader::new();
    assert_eq!(
        header.line("Content-Length: 10\r\n"),
        Ok(HeaderStep::More)
    );
    assert_eq!(header.line("\r\n"), Ok(HeaderStep::Body(10)));
    let message = read_message(&body.as_bytes().to_vec()).unwrap();
    assert_eq!(message.get("x"), Some(&Json::Text("é".to_string())));
}

#[test]
fn headers_that_do_not_say_how_long_are_refused() {
    let mut header = FrameHeader::new();
    assert_eq!(
        header.line("Content-Type: application/json\r\n"),
        Ok(HeaderStep::More)
    );
    assert_eq!(
        header.line("\r\n"),
        Err(LspError::Protocol(
            "missing Content-Length header".to_string()
        ))
    );
    let mut header = FrameHeader::new();
    assert_eq!(header.line(""), Err(LspError::ServerDied));
    // A length that is no number takes back one that was.
    let mut header = FrameHeader::new();
    assert_eq!(header.line("Content-Length: 5\r\n"), Ok(HeaderStep::More));
    assert_eq!(header.line("Content-Length: x\r\n"), Ok(HeaderStep::More));
    assert!(header.line("\n").is_err());
    assert!(matches!(
        read_message(&b"nonsense".to_vec()),
        Err(LspError::Json(_))
    ));
}

#[test]
fn responses_go_to_their_request_once() {
    let mut client = JsonRpcClient::new();
    let (first, _) = client.request("a", Json::Null).unwrap();
    let (second, _) = client.request("b", Json::Null).unwrap();
    assert_eq!((first, second), (1, 2));
    // A notification and a response that nobody waits for are dropped.
    assert_eq!(client.receive(json("{\"method\":\"log\"}")), None);
    assert_eq!(client.receive(json("{\"id\":9,\"result\":1}")), None);
    assert_eq!(client.receive(json("{\"id\":\"1\",\"result\":1}")), None);
    assert_eq!(
        client.receive(json("{\"id\":2,\"result\":[3]}")),
        Some((2, Ok(Json::Array(vec![Json::Int(3)]))))
    );
    assert_eq!(client.receive(json("{\"id\":2,\"result\":[3]}")), None);
    assert_eq!(
        client.receive(json("{\"id\":1,\"error\":{\"code\":-32603}}")),
        Some((1, Err(LspError::JsonRpc("{\"code\":-32603}".to_string()))))
    );
    let (third, _) = client.request("c", Json::Null).unwrap();
    assert_eq!(
        client.receive(json("{\"id\":3}")),
        Some((third, Ok(Json::Null)))
    );
    let (fourth, _) = client.request("d", Json::Null).unwrap();
    client.abandon(fourth);
    assert_eq!(client.receive(json("{\"id\":4,\"result\":1}")), None);
}

#[test]
fn a_dead_reader_wakes_every_waiter() {
    let mut client = JsonRpcClient::new();
    client.request("a", Json::Null).unwrap();
    client.request("b", Json::Null).unwrap();
    client.lose_waiting();
    assert_eq!(
        client.take_lost(),
        vec![
            (1, Err(LspError::ServerDied)),
            (2, Err(LspError::ServerDied))
        ]
    );
    assert!(client.take_lost().is_empty());
    assert!(!client.waits_for(1));
    assert!(!client.has_failed());
}

#[test]
fn every_waiter_gets_the_first_response_with_its_id_or_that_the_server_died() {
    let mut client = JsonRpcClient::new();
    for method in ["a", "b", "c"] {
        client.request(method, Json::Null).unwrap();
    }
    let mut answers = Vec::new();
    for message in [
        "{\"method\":\"window/logMessage\",\"params\":{}}",
        "{\"id\":\"2\",\"result\":0}",
        "{\"id\":9,\"result\":0}",
        "{\"id\":3,\"result\":30}",
        "{\"id\":1,\"result\":10}",
        "{\"id\":3,\"result\":31}",
    ] {
        answers.extend(client.receive(json(message)));
    }
    client.lose_waiting();
    answers.extend(client.take_lost());
    assert_eq!(
        answers,
        vec![
            (3, Ok(Json::Int(30))),
            (1, Ok(Json::Int(10))),
            (2, Err(LspError::ServerDied))
        ]
    );
}

#[test]
fn writes_are_first_in_first_out() {
    let mut client = JsonRpcClient::new();
    let opened = client.notify("open", Json::Null).unwrap();
    let closed = client
        .close_documents(vec!["file:///a".to_string(), "file:///b".to_string()])
        .unwrap();
    client.request("next", Json::Null).unwrap();
    assert_ne!(opened, closed);
    let frames = written(&mut client);
    assert_eq!(frames.len(), 4);
    assert!(frames[0].contains("\"method\":\"open\""));
    assert!(frames[1].ends_with("{\"jsonrpc\":\"2.0\",\"method\":\"textDocument/didClose\",\"params\":{\"textDocument\":{\"uri\":\"file:///a\"}}}"));
    assert!(frames[2].contains("file:///b"));
    assert!(frames[3].contains("\"method\":\"next\""));
}

#[test]
fn cancelled_close_ack_keeps_every_close_queued_once() {
    let mut client = JsonRpcClient::new();
    for path in ["first.py", "second.py"] {
        client
            .notify("textDocument/didOpen", Json::Text(path.to_string()))
            .unwrap();
    }
    client
        .close_documents(vec![
            "file:///w/first.py".to_string(),
            "file:///w/second.py".to_string(),
        ])
        .unwrap();
    let messages = written(&mut client);
    assert_eq!(
        messages
            .iter()
            .filter(|m| m.contains("textDocument/didOpen"))
            .count(),
        2
    );
    for path in ["first.py", "second.py"] {
        assert_eq!(
            messages
                .iter()
                .filter(|m| m.contains("textDocument/didClose")
                    && m.contains(&format!("file:///w/{path}")))
                .count(),
            1
        );
    }
}

#[test]
fn blocked_cleanup_queue_fails_closed_without_successful_barriers() {
    let mut client = JsonRpcClient::new();
    let (pending, _) = client.request("test/pending", Json::Null).unwrap();
    assert!(client.next_write().is_some());
    // One write is in flight and does not come back.
    client.notify("test/block", Json::Null).unwrap();
    let blocked = client.next_write();
    assert!(matches!(blocked, Some(Outbound::Message { .. })));
    for _ in 0..64 {
        client
            .close_documents(vec!["file:///queued.py".to_string()])
            .unwrap();
    }
    assert!(client
        .close_documents(vec!["file:///overflow.py".to_string()])
        .is_err());
    assert!(client.has_failed());
    assert_eq!(
        client.take_lost(),
        vec![(pending, Err(LspError::ServerDied))]
    );
    assert!(
        client.next_write().is_none(),
        "invalidated writer cannot acknowledge cleanup success"
    );
    assert_eq!(
        client.request("test/seen", Json::Null),
        Err(LspError::ServerDied)
    );
    assert!(client.take_lost().is_empty());
}

#[test]
fn failed_drop_cleanup_invalidates_later_barriers() {
    let mut client = JsonRpcClient::new();
    client
        .close_documents(vec!["file:///w/types.py".to_string()])
        .unwrap();
    assert!(client.next_write().is_some());
    // The cleanup write itself detects the broken pipe.
    client.fail();
    assert!(
        client.close_documents(Vec::new()).is_err(),
        "failed unobserved cleanup must poison a later barrier"
    );
    assert!(client.request("test/seen", Json::Null).is_err());
    assert!(client.notify("exit", Json::Null).is_err());
}

/// A value of as many arrays inside each other.
fn nested(depth: usize) -> Json {
    let mut value = Json::Int(1);
    for _ in 0..depth {
        value = Json::Array(vec![value]);
    }
    value
}

#[test]
fn a_message_reads_back_up_to_the_nesting_limit() {
    let text = render(&nested(127));
    assert_eq!(parse(&text.into_bytes()), Ok(nested(127)));
    let text = render(&nested(128));
    assert!(parse(&text.into_bytes())
        .unwrap_err()
        .contains("recursion limit"));
}

#[test]
fn a_value_is_taken_in_however_deep_it_nests() {
    let mut value = serde_json::Value::from(1);
    for _ in 0..200 {
        value = serde_json::Value::Array(vec![value]);
    }
    assert_eq!(of_value(value), nested(200));
    let mut members = serde_json::Map::new();
    members.insert("b".to_string(), serde_json::Value::Bool(true));
    members.insert("a".to_string(), serde_json::Value::Null);
    let taken = of_value(serde_json::Value::Object(members));
    assert_eq!(taken.get("a"), Some(&Json::Null));
    assert_eq!(taken.get("b"), Some(&Json::Bool(true)));
}

#[test]
fn a_framed_message_reads_back_with_more_behind_it() {
    let message = json("{\"x\":\"\u{e9}\u{1f600}\\n\",\"y\":[1,-2,{}]}");
    let stream = frame_message(&message) + "more";
    let mut header = FrameHeader::new();
    let mut rest = stream.as_str();
    let length = loop {
        let (line, _) = rest.split_once('\n').unwrap();
        let (line, after) = rest.split_at(line.len() + 1);
        rest = after;
        if let HeaderStep::Body(length) = header.line(line).unwrap() {
            break length;
        }
    };
    let (body, left) = rest.as_bytes().split_at(length);
    assert_eq!(read_message(&body.to_vec()), Ok(message));
    assert_eq!(left, b"more");
}
