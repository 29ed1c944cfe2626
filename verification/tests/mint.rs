use batten::json::Json;
use batten::mint::{
    blob_hash, parse, piece_for, references, render, satisfied, scalar, select, slug, validate, Declared,
    MintKey, MintMode, Piece,
};

fn declared(name: &str, tool: &str, key: MintKey, key_from: Option<&str>, body: &str) -> Declared {
    Declared {
        name: name.to_owned(),
        tool: tool.to_owned(),
        key,
        key_from: key_from.map(str::to_owned),
        requires: Vec::new(),
        mode: MintMode::Replace,
        body: body.to_owned(),
    }
}

#[test]
fn an_unknown_placeholder_is_a_load_error_rather_than_a_literal() {
    assert!(piece_for("shout:id").is_err());
    assert!(parse("{unclosed").is_err());
}

#[test]
fn an_absent_optional_records_the_could_not_look_token_never_a_hash_of_nothing() {
    assert_eq!(slug(""), "");
    assert_ne!(blob_hash(""), "-");
}

#[test]
fn the_blob_hash_is_gits_own() {
    assert_eq!(blob_hash(""), "e69de29bb2d1d6434b8b29ae775ad8c2e48c5391");
}

// ---------------------------------------------------------------------------

#[test]
fn a_template_splits_into_literals_and_placeholders() {
    assert_eq!(
        parse("read {id} at {now} {digest:body}\n").unwrap(),
        vec![
            Piece::Literal("read ".to_owned()),
            Piece::Path("id".to_owned()),
            Piece::Literal(" at ".to_owned()),
            Piece::Now,
            Piece::Literal(" ".to_owned()),
            Piece::Digest("body".to_owned()),
            Piece::Literal("\n".to_owned()),
        ]
    );
    assert_eq!(parse("").unwrap(), Vec::new());
    assert_eq!(parse("{slug:a}{join:b}{git:HEAD}").unwrap().len(), 3);
}

#[test]
fn each_malformed_placeholder_is_named() {
    assert_eq!(piece_for("").unwrap_err(), "`{}` names no path");
    assert_eq!(piece_for("digest:").unwrap_err(), "`{digest:}` names an empty argument");
    assert_eq!(
        piece_for("shout:id").unwrap_err(),
        "`{shout:id}` names `shout`, which is not one of `digest`, `slug`, `join` or `git`"
    );
    assert_eq!(parse("a {b").unwrap_err(), "`a {b` has an unclosed `{`");
}

#[test]
fn a_slug_folds_runs_and_lowercases() {
    assert_eq!(slug("In Progress"), "in-progress");
    assert_eq!(slug("  --Done!! "), "done");
    assert_eq!(slug("A1_b2"), "a1-b2");
}

#[test]
fn a_mint_table_is_refused_row_by_row() {
    assert!(validate(&[declared("r", "t", MintKey::Branch, None, "{id}")]).is_ok());
    assert!(validate(&[declared(" ", "t", MintKey::Branch, None, "x")]).is_err());
    assert_eq!(
        validate(&[declared("r", "t", MintKey::Named, None, "x")]).unwrap_err().text(),
        "`[[mint]]` `r` is keyed `named` and declares no `key_from`, so nothing says which projection supplies the subject and no receipt could be filed"
    );
    assert_eq!(
        validate(&[declared("r", "t", MintKey::Branch, None, "{x")]).unwrap_err().text(),
        "`[[mint]]` `r` has an unreadable `body`: `{x` has an unclosed `{`"
    );
    assert!(validate(&[declared("r", "t", MintKey::Named, Some(" "), "x")]).is_err());
    assert!(validate(&[declared("r", "t", MintKey::Branch, None, "x"), declared("r", "u", MintKey::Branch, None, "y")]).is_err());
}

fn object(members: Vec<(&str, Json)>) -> Json {
    Json::Object(members.into_iter().map(|(k, v)| (k.to_owned(), v)).collect())
}

fn text(t: &str) -> Json {
    Json::Text(t.to_owned())
}

#[test]
fn a_path_that_does_not_resolve_and_one_resolving_to_nothing_are_different_answers() {
    let empty = object(vec![("issues", Json::Array(Vec::new()))]);
    let absent = object(vec![]);
    assert_eq!(select(&empty, "issues[].id").map(|v| v.len()), Some(0));
    assert!(select(&absent, "issues[].id").is_none());
}

#[test]
fn an_iterating_path_selects_every_element_in_order() {
    let result = object(vec![(
        "issues",
        Json::Array(vec![object(vec![("id", text("A-1"))]), object(vec![("id", text("A-2"))])]),
    )]);
    let found = select(&result, "issues[].id").expect("resolves");
    assert_eq!(found, vec![&text("A-1"), &text("A-2")]);
    let top = Json::Array(vec![object(vec![("id", text("B"))])]);
    assert_eq!(select(&top, "[].id").expect("resolves"), vec![&text("B")]);
}

#[test]
fn a_null_at_the_end_of_a_path_is_no_answer() {
    let result = object(vec![("updatedAt", Json::Null)]);
    assert!(select(&result, "updatedAt").is_none());
    assert_eq!(scalar(&result, "updatedAt"), None);
}

#[test]
fn a_scalar_is_one_bare_value_and_never_a_fragment() {
    let result = object(vec![
        ("id", text("A-1")),
        ("open", Json::Bool(true)),
        ("count", Json::Number("3".to_owned())),
        ("labels", Json::Array(vec![text("x")])),
        ("nested", object(vec![("a", text("b"))])),
    ]);
    assert_eq!(scalar(&result, "id").as_deref(), Some("A-1"));
    assert_eq!(scalar(&result, "open").as_deref(), Some("true"));
    assert_eq!(scalar(&result, "count").as_deref(), Some("3"));
    assert_eq!(scalar(&result, "labels"), None);
    assert_eq!(scalar(&result, "nested"), None);
    assert_eq!(scalar(&result, "nested.a").as_deref(), Some("b"));
    assert_eq!(scalar(&result, "missing"), None);
}

#[test]
fn a_required_path_that_does_not_resolve_mints_nothing() {
    let mut mint = declared("issue-read", "get_issue", MintKey::Named, Some("id"), "{id} {updatedAt}");
    mint.requires = vec!["id".to_owned(), "updatedAt".to_owned()];
    let partial = object(vec![("id", text("A-1"))]);
    assert!(!satisfied(&mint, &partial));
    assert_eq!(render(&mint, &partial, 7, &[]), None);
    let whole = object(vec![("id", text("A-1")), ("updatedAt", text("2026-01-01"))]);
    assert!(satisfied(&mint, &whole));
    assert_eq!(render(&mint, &whole, 7, &[]).as_deref(), Some("A-1 2026-01-01\n"));
}

#[test]
fn every_placeholder_renders_and_an_absent_optional_is_could_not_look() {
    let mint = declared(
        "issue-read",
        "get_issue",
        MintKey::Branch,
        None,
        "{now} {id} {missing} {slug:title} {slug:missing} {join:labels[]} {digest:body} {digest:missing} {git:HEAD} {git:nowhere}",
    );
    let result = object(vec![
        ("id", text("A-1")),
        ("title", text("Fix the  Thing!")),
        ("labels", Json::Array(vec![text("a"), Json::Number("2".to_owned()), text("b")])),
        ("body", text("")),
    ]);
    let refs = [("HEAD".to_owned(), Some("abc123".to_owned())), ("nowhere".to_owned(), None)];
    assert_eq!(references(&mint.body), vec!["HEAD".to_owned(), "nowhere".to_owned()]);
    let rendered = render(&mint, &result, 1_700_000_000, &refs).expect("renders");
    assert_eq!(
        rendered,
        "1700000000 A-1 - fix-the-thing - a b e69de29bb2d1d6434b8b29ae775ad8c2e48c5391 - abc123 -\n"
    );
}

#[test]
fn a_record_already_ending_in_a_line_feed_gets_no_second_one() {
    let mint = declared("m", "t", MintKey::Branch, None, "{id}\n");
    let result = object(vec![("id", text("x"))]);
    assert_eq!(render(&mint, &result, 0, &[]).as_deref(), Some("x\n"));
}

#[test]
fn an_unparseable_template_renders_nothing() {
    let mint = declared("m", "t", MintKey::Branch, None, "{unclosed");
    assert_eq!(render(&mint, &object(vec![]), 0, &[]), None);
    assert!(references("{unclosed").is_empty());
}
