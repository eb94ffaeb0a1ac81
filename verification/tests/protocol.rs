use kin_lsp::json::{parse, render, Json};
use kin_lsp::protocol::{
    about_call_item, kin_capabilities, read_call_items, read_location_list, read_locations,
    read_outgoing_calls, read_type_items, references_params, InitializeResult, Location, Position,
    Range,
};

fn json(text: &str) -> Json {
    parse(&text.as_bytes().to_vec()).unwrap()
}

const RANGE: &str = "{\"start\":{\"line\":1,\"character\":2},\"end\":{\"line\":3,\"character\":4}}";

fn span() -> Range {
    Range {
        start: Position {
            line: 1,
            character: 2,
        },
        end: Position {
            line: 3,
            character: 4,
        },
    }
}

#[test]
fn positions_and_ranges_are_written_by_name() {
    assert_eq!(
        render(&span().to_json()),
        "{\"end\":{\"character\":4,\"line\":3},\"start\":{\"character\":2,\"line\":1}}"
    );
}

#[test]
fn locations_come_in_three_shapes() {
    let expected = Some(vec![Location {
        uri: "file:///a".to_string(),
        range: span(),
    }]);
    let one = format!("{{\"uri\":\"file:///a\",\"range\":{RANGE}}}");
    let link = format!(
        "{{\"targetUri\":\"file:///a\",\"targetRange\":null,\"targetSelectionRange\":{RANGE}}}"
    );
    assert_eq!(read_locations(&json(&one)), expected);
    assert_eq!(read_locations(&json(&format!("[{one}]"))), expected);
    assert_eq!(read_locations(&json(&format!("[{link}]"))), expected);
    assert_eq!(read_locations(&json("null")), Some(vec![]));
    assert_eq!(read_locations(&json("[]")), Some(vec![]));
    assert_eq!(read_locations(&json("{}")), None);
    assert_eq!(read_locations(&json(&format!("[{one},{link}]"))), None);
    assert_eq!(read_location_list(&json(&format!("[{one}]"))), expected);
    assert_eq!(read_location_list(&json(&one)), None);
}

#[test]
fn positions_hold_small_natural_numbers() {
    let at = |line: &str| {
        read_locations(&json(&format!(
            "{{\"uri\":\"u\",\"range\":{{\"start\":{{\"line\":{line},\"character\":0}},\"end\":{{\"line\":0,\"character\":0}}}}}}"
        )))
    };
    assert!(at("4294967295").is_some());
    assert!(at("4294967296").is_none());
    assert!(at("-1").is_none());
    assert!(at("1.0").is_none());
    assert!(at("\"1\"").is_none());
}

#[test]
fn call_hierarchy_items_are_read_and_sent_back() {
    let item = format!(
        "{{\"name\":\"f\",\"kind\":12,\"uri\":\"file:///a\",\"range\":{RANGE},\"selectionRange\":{RANGE},\"data\":{{\"x\":1}}}}"
    );
    let items = read_call_items(&json(&format!("[{item}]"))).unwrap();
    assert_eq!(items.len(), 1);
    assert_eq!(items[0].name, "f");
    assert_eq!(items[0].selection_range, span());
    let sent = about_call_item(&items[0]);
    assert_eq!(
        read_call_items(&Json::Array(vec![sent.take("item").unwrap()])),
        Some(items)
    );
    assert!(read_type_items(&json(&format!("[{item}]"))).is_some());
    assert_eq!(read_call_items(&json("{\"unexpected\":true}")), None);
    let calls = json(&format!(
        "[{{\"to\":{item},\"fromRanges\":[{RANGE},{RANGE}]}}]"
    ));
    let calls = read_outgoing_calls(&calls).unwrap();
    assert_eq!(calls[0].to.name, "f");
    assert_eq!(calls[0].from_ranges, vec![span(), span()]);
    assert_eq!(
        read_outgoing_calls(&json(&format!("[{{\"to\":{item}}}]"))),
        None
    );
}

#[test]
fn references_leave_out_the_declaration() {
    let params = references_params(
        "file:///a",
        Position {
            line: 7,
            character: 9,
        },
    );
    assert_eq!(
        render(&params),
        "{\"context\":{\"includeDeclaration\":false},\"position\":{\"character\":9,\"line\":7},\"textDocument\":{\"uri\":\"file:///a\"}}"
    );
}

#[test]
fn an_initialize_answer_tells_what_is_served() {
    let answer = InitializeResult::from_answer(&json(
        "{\"capabilities\":{\"definitionProvider\":true,\"callHierarchyProvider\":{\"x\":1}},\"serverInfo\":{}}",
    ));
    assert_eq!(
        answer.capabilities.definition_provider,
        Some(Json::Bool(true))
    );
    assert!(answer.capabilities.call_hierarchy_provider.is_some());
    assert_eq!(answer.capabilities.references_provider, None);
}

#[test]
fn the_client_says_what_it_can_do() {
    let text = render(&kin_capabilities().to_json());
    assert!(text.contains("callHierarchy"), "{text}");
    assert!(text.contains("\"definition\""), "{text}");
    assert!(text.contains("\"references\""), "{text}");
    assert!(text.contains("\"linkSupport\":false"), "{text}");
}
