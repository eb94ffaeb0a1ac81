use kin_lsp::enrichment::{
    lsp_language_id, member_expression_at, receiver_names_a_module, same_location,
};
use kin_lsp::file_enrichment::identifier_positions_in_line;
use kin_lsp::protocol::{
    join_path, path_to_uri, relative_path, uri_to_path, Location, Position, Range,
};

fn location(uri: &str, line: u32) -> Location {
    Location {
        uri: uri.to_string(),
        range: Range {
            start: Position { line, character: 0 },
            end: Position { line, character: 0 },
        },
    }
}

/// The express case: asked at the receiver, the member is what matters.
#[test]
fn a_receiver_reports_the_member_it_opens() {
    let (receiver, col, member) =
        member_expression_at("var apiv1 = express.Router();", 12).expect("a member expression");
    assert_eq!(receiver, "express");
    assert_eq!(member, "Router");
    assert_eq!(col, 20);
}

/// Asked at the member half, there is no further member to bind, so the
/// position falls through to the ordinary type query rather than recursing.
#[test]
fn the_member_half_is_not_itself_a_receiver() {
    assert!(member_expression_at("var apiv1 = express.Router();", 20).is_none());
}

/// A bare call has no receiver at all.
#[test]
fn a_bare_identifier_opens_nothing() {
    assert!(member_expression_at("finalhandler(req, res);", 0).is_none());
}

/// A dot that opens no identifier is not a member expression, so a numeric
/// literal or a trailing dot cannot be read as one.
#[test]
fn a_dot_without_a_member_opens_nothing() {
    assert!(member_expression_at("value.", 0).is_none());
    assert!(member_expression_at("wait 1.5 seconds", 5).is_none());
}

/// The module-versus-value rule, as measured. `express` answers with
/// another file; `res` and `apiv1` answer with their own declarations in
/// the file being enriched.
#[test]
fn a_definition_in_another_file_names_a_module() {
    assert!(receiver_names_a_module(
        &[location("file:///w/index.js", 10)],
        "examples/multi-router/controllers/api_v1.js"
    ));
}

#[test]
fn a_definition_in_this_file_names_a_value() {
    let here = "examples/multi-router/controllers/api_v1.js";
    assert!(!receiver_names_a_module(
        &[location(&format!("file:///w/{here}"), 6)],
        here
    ));
    assert!(
        !receiver_names_a_module(&[], here),
        "a receiver the server said nothing about is not promoted to a module"
    );
}

/// The document this pass opens is named by its own extension. A path it
/// cannot classify is declined rather than opened under a guess.
#[test]
fn a_document_is_opened_under_the_language_its_extension_names() {
    assert_eq!(lsp_language_id("lib/express.js"), Some("javascript"));
    assert_eq!(lsp_language_id("src/app.mjs"), Some("javascript"));
    assert_eq!(lsp_language_id("src/app.tsx"), Some("typescriptreact"));
    assert_eq!(lsp_language_id("requests/sessions.py"), Some("python"));
    assert_eq!(lsp_language_id("src/enrichment.rs"), Some("rust"));
    assert_eq!(
        lsp_language_id("LICENSE"),
        None,
        "a path with no extension names no language"
    );
    assert_eq!(
        lsp_language_id("docs/readme.md"),
        None,
        "an extension this map does not carry is declined, never guessed"
    );
}

#[test]
fn every_known_extension_names_its_language() {
    let known = [
        ("a.cjs", "javascript"),
        ("a.jsx", "javascriptreact"),
        ("a.ts", "typescript"),
        ("a.mts", "typescript"),
        ("a.cts", "typescript"),
        ("a.pyi", "python"),
        ("a.go", "go"),
        ("a.java", "java"),
        ("a.c", "c"),
        ("a.h", "c"),
        ("a.cc", "cpp"),
        ("a.cpp", "cpp"),
        ("a.cxx", "cpp"),
        ("a.hpp", "cpp"),
        ("a.hh", "cpp"),
        ("a.rb", "ruby"),
        ("a.php", "php"),
        ("a.swift", "swift"),
        ("a.kt", "kotlin"),
        ("a.kts", "kotlin"),
        ("a.cs", "csharp"),
    ];
    for (path, language) in known {
        assert_eq!(lsp_language_id(path), Some(language));
    }
    assert_eq!(lsp_language_id("dir.js/file"), None);
    assert_eq!(lsp_language_id("a.b.py"), Some("python"));
}

/// The join compares a place, not a name, which is what keeps this apart
/// from a bare-name fallback.
#[test]
fn the_join_compares_the_place_two_answers_name() {
    let member = location("file:///w/node_modules/router/index.js", 51);
    let router_export = location("file:///w/node_modules/router/index.js", 51);
    let route_export = location("file:///w/node_modules/router/lib/route.js", 40);
    assert!(same_location(&router_export, &member));
    assert!(
        !same_location(&route_export, &member),
        "a same-shaped export of something else must not join"
    );
}

#[test]
fn identifier_positions_include_real_tokens_not_line_zero() {
    let positions = identifier_positions_in_line("    let foo_bar = Baz::new();");
    assert!(positions.contains(&4));
    assert!(positions.contains(&8));
    assert!(positions.contains(&18));
    assert!(!positions.contains(&0));
}

#[test]
fn comments_and_strings_hold_no_identifiers() {
    assert!(identifier_positions_in_line("  // a comment").is_empty());
    assert!(identifier_positions_in_line("/* a comment */").is_empty());
    assert!(identifier_positions_in_line("\t* a comment").is_empty());
    assert!(identifier_positions_in_line("").is_empty());
    assert_eq!(identifier_positions_in_line("a(\"b c\", d)"), vec![0, 9]);
    assert_eq!(identifier_positions_in_line("\"a\\\"b\" c"), vec![7]);
    assert_eq!(identifier_positions_in_line("9abc _d"), vec![5]);
    assert_eq!(identifier_positions_in_line("naïve é"), vec![0, 6]);
    assert_eq!(identifier_positions_in_line("x / y"), vec![0, 4]);
}

#[test]
fn paths_and_uris_read_back() {
    assert_eq!(path_to_uri("/w/a.py"), "file:///w/a.py");
    assert_eq!(uri_to_path("file:///w/a.py").as_deref(), Some("/w/a.py"));
    assert_eq!(uri_to_path("http://w/a.py"), None);
    assert_eq!(join_path("/w", "a.py"), "/w/a.py");
    assert_eq!(join_path("/w/", "a.py"), "/w/a.py");
    assert_eq!(join_path("/w", "/b/a.py"), "/b/a.py");
    assert_eq!(join_path("", "a.py"), "a.py");
    assert_eq!(relative_path("/w", "/w/src/a.py"), "src/a.py");
    assert_eq!(relative_path("/w/", "/w/src/a.py"), "src/a.py");
    assert_eq!(relative_path("/w", "/w"), "");
    assert_eq!(relative_path("/w", "/wider/a.py"), "/wider/a.py");
    assert_eq!(relative_path("", "/wider/a.py"), "/wider/a.py");
    assert_eq!(relative_path("", &join_path("", "a.py")), "a.py");
}

/// Paths are compared by their components.
#[test]
fn redundant_separators_make_no_difference() {
    assert_eq!(relative_path("/repo", "/repo//src/a.py"), "src/a.py");
    assert_eq!(relative_path("/repo/", "/repo"), "");
    assert_eq!(relative_path("/repo//", "/repo/./a.py/"), "a.py");
    assert_eq!(relative_path("//repo", "/repo/src//a.py"), "src//a.py");
    assert_eq!(relative_path("/", "/repo/a.py"), "repo/a.py");
    assert_eq!(relative_path("/repo", "repo/a.py"), "repo/a.py");
    assert_eq!(relative_path(".", "./a.py"), "a.py");
    assert_eq!(relative_path(".", "a.py"), "a.py");
    assert_eq!(relative_path("/repo/..", "/repo/a.py"), "/repo/a.py");
    assert_eq!(relative_path("", ""), "");
    assert_eq!(relative_path("/repo/a.py/b", "/repo/a.py"), "/repo/a.py");
}

/// The member half of an expression is a position of its own.
#[test]
fn members_are_positions_too() {
    let line = "let \u{e9}t\u{e9} = m\u{f6}dule.Router(x);";
    let positions = identifier_positions_in_line(line);
    assert_eq!(positions, vec![0, 4, 10, 17, 24]);
    let (receiver, col, member) = member_expression_at(line, 10).unwrap();
    assert_eq!((receiver.as_str(), member.as_str()), ("m\u{f6}dule", "Router"));
    assert_eq!(col, 17);
    assert!(positions.contains(&col));
}
