use batten::outputs::{hits, reasons, validate, Hit, OutputPattern, Stream, Watched};

fn pattern(id: &str, literal: &str, stream: Watched) -> OutputPattern {
    OutputPattern {
        id: id.to_owned(),
        pattern: literal.to_owned(),
        stream,
        reason: "do the thing".to_owned(),
    }
}

#[test]
fn every_watched_value_round_trips_through_its_token() {
    for watched in &Watched::ALL {
        assert!(!watched.as_str().is_empty());
    }
    assert_eq!(Watched::default(), Watched::Both);
}

#[test]
fn both_is_the_widest_reading_and_covers_each_stream() {
    for stream in &Stream::ALL {
        assert!(Watched::Both.covers(*stream));
    }
    assert!(Watched::Stdout.covers(Stream::Stdout));
    assert!(!Watched::Stdout.covers(Stream::Stderr));
    assert!(Watched::Stderr.covers(Stream::Stderr));
    assert!(!Watched::Stderr.covers(Stream::Stdout));
}

#[test]
fn a_match_points_at_its_line_and_never_carries_the_bytes() {
    let patterns = [pattern("no-warn", "warning[duplicate]", Watched::Both)];
    let found = hits(
        &patterns,
        Stream::Stdout,
        b"fine\nwarning[duplicate] serde\nalso fine\n",
    );
    assert_eq!(found.len(), 1);
    assert_eq!(found[0].line, 2);
    assert_eq!(found[0].line_text(), "stdout:2 no-warn");
    assert!(
        !found[0].line_text().contains("serde"),
        "the pointer must never carry the matched line"
    );
}

#[test]
fn a_pattern_scoped_to_one_stream_ignores_the_other() {
    let patterns = [pattern("only-err", "boom", Watched::Stderr)];
    assert!(hits(&patterns, Stream::Stdout, b"boom\n").is_empty());
    assert_eq!(hits(&patterns, Stream::Stderr, b"boom\n").len(), 1);
}

#[test]
fn invalid_utf8_is_scanned_lossily_rather_than_skipped() {
    let patterns = [pattern("catch", "warning", Watched::Both)];
    let bytes = b"\xff\xfe progress\nwarning: real\n";
    assert_eq!(hits(&patterns, Stream::Stdout, bytes).len(), 1);
}

#[test]
fn every_hit_is_reported_not_only_the_first() {
    let patterns = [pattern("warn", "warning", Watched::Both)];
    let found = hits(&patterns, Stream::Stdout, b"warning a\nok\nwarning b\n");
    assert_eq!(found.len(), 2);
    assert_eq!(found[0].line, 1);
    assert_eq!(found[1].line, 3);
}

#[test]
fn a_reason_is_stated_once_per_pattern_not_once_per_hit() {
    let patterns = [pattern("warn", "warning", Watched::Both)];
    let found = hits(&patterns, Stream::Stdout, b"warning a\nwarning b\n");
    assert_eq!(found.len(), 2);
    assert_eq!(reasons(&patterns, &found).len(), 1);
}

#[test]
fn a_reason_is_required_because_a_promoted_code_is_all_the_caller_gets() {
    let mut bad = pattern("p", "x", Watched::Both);
    bad.reason = "  ".to_owned();
    let err = validate(&[bad]).expect_err("an empty reason is refused");
    assert!(err.text().contains("reason is required"));
}

#[test]
fn an_empty_pattern_is_refused_because_it_would_match_every_run() {
    let mut bad = pattern("p", "", Watched::Both);
    bad.pattern = String::new();
    assert!(validate(&[bad]).is_err());
}

#[test]
fn a_duplicate_id_is_refused() {
    let rows = [
        pattern("same", "a", Watched::Both),
        pattern("same", "b", Watched::Both),
    ];
    assert!(validate(&rows).is_err());
}

#[test]
fn a_well_formed_table_is_accepted() {
    assert!(validate(&[pattern("p", "x", Watched::Both)]).is_ok());
    assert!(validate(&[]).is_ok());
}

#[test]
fn a_blank_id_is_refused_with_its_own_message() {
    let bad = pattern("   ", "x", Watched::Both);
    let err = validate(&[bad]).expect_err("a blank id is refused");
    assert_eq!(
        err.text(),
        "exec_pattern: id must not be empty \u{2014} it is what a match is reported as"
    );
}

#[test]
fn a_duplicate_id_names_the_id_it_repeats() {
    let rows = [pattern("dup", "a", Watched::Both), pattern("dup", "b", Watched::Stdout)];
    let err = validate(&rows).expect_err("a repeated id is refused");
    assert_eq!(err.text(), "exec_pattern dup: declared twice");
}

#[test]
fn a_hit_renders_stream_line_and_id() {
    let hit = Hit { stream: "stderr", line: 17, id: "boom".to_owned() };
    assert_eq!(hit.line_text(), "stderr:17 boom");
}

#[test]
fn reasons_follow_declaration_order_and_skip_patterns_without_hits() {
    let mut second = pattern("b", "beta", Watched::Both);
    second.reason = "fix beta".to_owned();
    let patterns = [pattern("a", "alpha", Watched::Both), second, pattern("c", "gamma", Watched::Both)];
    let found = hits(&patterns, Stream::Stdout, b"beta\nalpha\n");
    assert_eq!(found.len(), 2);
    assert_eq!(found[0].id, "b");
    assert_eq!(found[1].id, "a");
    let r = reasons(&patterns, &found);
    assert_eq!(r, vec!["a: do the thing".to_owned(), "b: fix beta".to_owned()]);
}

#[test]
fn tokens_are_the_stable_spellings() {
    assert_eq!(Stream::Stdout.as_str(), "stdout");
    assert_eq!(Stream::Stderr.as_str(), "stderr");
    assert_eq!(Watched::Stdout.as_str(), "stdout");
    assert_eq!(Watched::Stderr.as_str(), "stderr");
    assert_eq!(Watched::Both.as_str(), "both");
}
