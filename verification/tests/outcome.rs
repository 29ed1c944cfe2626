use batten::json::Json;
use batten::outcome::{
    advice_key, class_of, classify, family_token, structured_code, validate, Class, Family, Signature,
};

fn signatures() -> Vec<Signature> {
    vec![
        Signature::new("command-not-found".to_owned(), 127, "unix".to_owned()),
        Signature::new("permission-denied".to_owned(), 126, "unix".to_owned()),
    ]
}

#[test]
fn the_rate_limit_key_covers_session_tool_and_class() {
    let one = advice_key("sess-a", "Bash", Class::CommandNotFound);
    assert!(!one.contains("sess-a"), "the session is hashed");
    assert_ne!(one, advice_key("sess-b", "Bash", Class::CommandNotFound));
    assert_ne!(one, advice_key("sess-a", "Shell", Class::CommandNotFound));
    assert_ne!(one, advice_key("sess-a", "Bash", Class::PermissionDenied));
    assert_eq!(one, advice_key("sess-a", "Bash", Class::CommandNotFound));
}

#[test]
fn a_row_naming_an_unresolvable_class_is_refused_at_load() {
    let bogus = vec![Signature::new("invented".to_owned(), 1, "unix".to_owned())];
    assert!(validate(&bogus).is_err());
    assert!(validate(&signatures()).is_ok());
}

#[test]
fn an_unsurveyed_family_and_a_duplicate_code_are_each_refused() {
    let elsewhere = vec![Signature::new("command-not-found".to_owned(), 127, "plan9".to_owned())];
    assert!(validate(&elsewhere).is_err());
    let mut twice = signatures();
    twice.push(Signature::new("permission-denied".to_owned(), 127, "unix".to_owned()));
    assert!(validate(&twice).is_err());
}

#[test]
fn every_class_is_distinct_and_only_unknown_is_silent() {
    let classes = [Class::CommandNotFound, Class::PermissionDenied, Class::UnsupportedOption, Class::Unknown];
    let tokens: std::collections::BTreeSet<&str> = classes.iter().map(|class| class.as_str()).collect();
    assert_eq!(tokens.len(), classes.len());
    for class in classes {
        assert_eq!(class.advisable(), class != Class::Unknown);
    }
}

// ---------------------------------------------------------------------------

#[test]
fn no_code_reaches_no_class_whatever_the_command_said() {
    let outcome = classify(None, "example-program --version", &signatures(), Family::Unix);
    assert_eq!(outcome.code, None);
    assert_eq!(outcome.class, Class::Unknown);
    assert_eq!(outcome.token.as_deref(), Some("example-program"));
}

#[test]
fn a_host_that_supplies_a_code_is_recognised() {
    let outcome = classify(Some(127), "example-program --version", &signatures(), Family::Unix);
    assert_eq!(outcome.class, Class::CommandNotFound);
    assert_eq!(outcome.code, Some(127));
    assert!(outcome.class.advisable());
    assert_eq!(classify(Some(126), "p", &signatures(), Family::Unix).class, Class::PermissionDenied);
}

#[test]
fn an_undeclared_code_or_family_reaches_no_class() {
    assert_eq!(classify(Some(2), "p", &signatures(), Family::Unix).class, Class::Unknown);
    assert_eq!(classify(Some(127), "p", &[], Family::Unix).class, Class::Unknown);
    assert_eq!(classify(Some(127), "p", &signatures(), Family::Unsupported).class, Class::Unknown);
    assert_eq!(classify(Some(127), "   ", &signatures(), Family::Unix).token, None);
}

#[test]
fn refusals_name_the_row_and_the_key() {
    let err = validate(&[Signature::new("invented".to_owned(), 1, "unix".to_owned())]).unwrap_err();
    assert_eq!(err.text(), "[[outcome]] row 1: `class` is `invented`, which is not a class this build resolves");
    let mut twice = signatures();
    twice.push(Signature::new("unsupported-option".to_owned(), -3, "unsupported".to_owned()));
    twice.push(Signature::new("permission-denied".to_owned(), -3, "unsupported".to_owned()));
    assert_eq!(
        validate(&twice).unwrap_err().text(),
        "[[outcome]] row 4: a second row claims code -3 on `unsupported`, so which arm answers would depend on table order"
    );
}

#[test]
fn the_key_is_the_session_digest_tool_and_class() {
    let key = advice_key("", "Bash", Class::Unknown);
    assert_eq!(key, "e3b0c44298fc1c149afbf4c8996fb92427ae41e4649b934ca495991b7852b855.Bash.unknown");
    assert_eq!(class_of("permission-denied"), Some(Class::PermissionDenied));
    assert_eq!(class_of("unknown"), None);
    assert_eq!(family_token(Family::Unix), "unix");
}

fn result(members: Vec<(&str, Json)>) -> Json {
    Json::Object(members.into_iter().map(|(k, v)| (k.to_owned(), v)).collect())
}

fn text(t: &str) -> Json {
    Json::Text(t.to_owned())
}

fn number(n: &str) -> Json {
    Json::Number(n.to_owned())
}

#[test]
fn the_measured_payload_carries_no_code_and_reaches_no_class() {
    let measured = result(vec![
        ("stdout", text("")),
        ("stderr", text("sh: 1: example-program: not found")),
        ("interrupted", Json::Bool(false)),
        ("isImage", Json::Bool(false)),
        ("noOutputExpected", Json::Bool(false)),
    ]);
    let outcome = classify(structured_code(&measured), "example-program --version", &signatures(), Family::Unix);
    assert_eq!(outcome.code, None);
    assert_eq!(outcome.class, Class::Unknown);
    assert!(!outcome.class.advisable());
}

#[test]
fn arbitrary_output_containing_the_phrase_is_not_a_class() {
    let echo = result(vec![
        ("stdout", text("sh: 1: example-program: not found\n")),
        ("stderr", text("")),
        ("exitCode", number("0")),
    ]);
    let outcome = classify(
        structured_code(&echo),
        "echo 'sh: 1: example-program: not found'",
        &signatures(),
        Family::Unix,
    );
    assert_eq!(outcome.class, Class::Unknown, "a successful command that PRINTS the phrase is not a failure");
}

#[test]
fn an_undeclared_code_reaches_no_class() {
    let other = result(vec![("exitCode", number("2"))]);
    assert_eq!(classify(structured_code(&other), "example-program", &signatures(), Family::Unix).class, Class::Unknown);
    let with_code = result(vec![("exitCode", number("127"))]);
    assert_eq!(classify(structured_code(&with_code), "example-program", &[], Family::Unix).class, Class::Unknown);
}

#[test]
fn a_sentence_is_never_read_as_a_code() {
    let observed = result(vec![("returnCodeInterpretation", text("Files differ"))]);
    assert_eq!(structured_code(&observed), None);
    assert_eq!(classify(structured_code(&observed), "diff a b", &signatures(), Family::Unix).class, Class::Unknown);
    let spelled = result(vec![("exitCode", text("127"))]);
    assert_eq!(structured_code(&spelled), None);
    let fractional = result(vec![("exitCode", number("1.5"))]);
    assert_eq!(structured_code(&fractional), None);
}

#[test]
fn the_three_spellings_are_read_in_order() {
    assert_eq!(structured_code(&result(vec![("exit_code", number("126"))])), Some(126));
    assert_eq!(structured_code(&result(vec![("returnCode", number("-1"))])), Some(-1));
    assert_eq!(
        structured_code(&result(vec![("returnCode", number("1")), ("exitCode", number("127"))])),
        Some(127)
    );
}

#[test]
fn an_outcome_carries_no_payload() {
    let secretish = result(vec![
        ("stdout", text("token=SUPERSECRET")),
        ("stderr", text("sh: 1: example-program: not found")),
        ("exitCode", number("127")),
    ]);
    let outcome = classify(structured_code(&secretish), "example-program --flag", &signatures(), Family::Unix);
    let rendered = format!("{outcome:?}");
    assert!(!rendered.contains("SUPERSECRET"));
    assert!(!rendered.contains("not found"));
    assert_eq!(outcome.token.as_deref(), Some("example-program"));
}
