use batten::output::{
    error, expand_clusters, message, resolve_with, verdict, Mode, Presentation, Verbosity,
    LOG_LEVEL_ENV, NO_COLOR_ENV, NO_INPUT_ENV,
};

fn env(values: &[(&str, &str)]) -> Vec<(String, String)> {
    values.iter().map(|(k, v)| ((*k).to_owned(), (*v).to_owned())).collect()
}

fn mode(values: &[(&str, &str)], stderr_tty: bool) -> Mode {
    resolve_with(&Presentation::default(), false, stderr_tty, &env(values)).unwrap()
}

fn consumes() -> Vec<String> {
    vec!["--strictness".to_owned(), "--config-from".to_owned()]
}

fn ladder(argv: &[&str]) -> Option<Verbosity> {
    let argv: Vec<String> = argv.iter().map(|s| (*s).to_owned()).collect();
    Presentation::from_argv(&argv, &consumes()).verbosity
}

#[test]
fn the_ladder_is_a_total_order_over_all() {
    let mut sorted = Verbosity::ALL.to_vec();
    sorted.sort_unstable();
    sorted.dedup();
    assert_eq!(sorted, Verbosity::ALL.to_vec());
}

#[test]
fn every_rung_round_trips_through_its_token() {
    for rung in &Verbosity::ALL {
        assert_eq!(Verbosity::from_token(rung.as_str()), Some(*rung));
    }
    assert_eq!(Verbosity::from_token("chatty"), None);
}

#[test]
fn repetition_steps_one_rung_further_from_normal() {
    assert_eq!(Verbosity::Verbose.further(0), Verbosity::Verbose);
    assert_eq!(Verbosity::Verbose.further(1), Verbosity::Debug);
    assert_eq!(Verbosity::Verbose.further(2), Verbosity::Trace);
    assert_eq!(Verbosity::Verbose.further(9), Verbosity::Trace);
    assert_eq!(Verbosity::Quiet.further(1), Verbosity::Silent);
    assert_eq!(Verbosity::Quiet.further(9), Verbosity::Silent);
    assert_eq!(Verbosity::DEFAULT.further(3), Verbosity::DEFAULT);
}

#[test]
fn machine_mode_is_forced_by_every_signal() {
    assert!(mode(&[], false).machine, "no terminal");
    assert!(mode(&[("CI", "1")], true).machine, "CI");
    assert!(mode(&[("TERM", "dumb")], true).machine, "TERM=dumb");
    assert!(mode(&[("NO_COLOR", "1")], true).machine, "NO_COLOR");
    let mut flags = Presentation::default();
    flags.no_input = true;
    assert!(resolve_with(&flags, true, true, &env(&[])).unwrap().machine, "--no-input");
}

#[test]
fn an_empty_signal_is_unset_not_a_trigger() {
    assert!(!mode(&[("CI", "")], true).machine);
    assert!(mode(&[("NO_COLOR", "")], true).color);
}

#[test]
fn a_piped_stream_resolves_to_no_colour() {
    assert!(!mode(&[], false).color);
    assert!(mode(&[], true).color, "an attended stderr may colour");
}

#[test]
fn forced_colour_overrides_an_absent_terminal() {
    assert!(mode(&[("CLICOLOR_FORCE", "1")], false).color);
    assert!(!mode(&[("CLICOLOR", "0")], true).color);
}

#[test]
fn an_unparseable_log_level_env_value_is_a_usage_error() {
    let err = resolve_with(&Presentation::default(), false, false, &env(&[(LOG_LEVEL_ENV, "chatty")]))
        .expect_err("a bogus rung is refused");
    assert_eq!(
        err.text(),
        "BATTEN_LOG_LEVEL: \"chatty\" names no verbosity; expected one of silent, quiet, normal, verbose, debug, trace"
    );
}

#[test]
fn a_flag_beats_the_environment_but_a_typo_is_still_refused() {
    let mut flags = Presentation::default();
    flags.verbosity = Some(Verbosity::Quiet);
    assert_eq!(
        resolve_with(&flags, false, false, &env(&[(LOG_LEVEL_ENV, "trace")])).unwrap().verbosity,
        Verbosity::Quiet
    );
    assert!(resolve_with(&flags, false, false, &env(&[(LOG_LEVEL_ENV, "chatty")])).is_err());
}

#[test]
fn every_presentation_env_reaches_the_resolved_mode() {
    let base = mode(&[], true);
    assert_ne!(mode(&[(LOG_LEVEL_ENV, "trace")], true).verbosity, base.verbosity);
    assert_ne!(mode(&[(NO_COLOR_ENV, "1")], true).color, base.color);
    assert_ne!(mode(&[(NO_INPUT_ENV, "1")], true).machine, base.machine);
}

#[test]
fn no_ladder_flag_selects_no_rung() {
    assert_eq!(ladder(&["check"]), None);
}

#[test]
fn the_last_ladder_flag_wins_across_the_subcommand_boundary() {
    assert_eq!(ladder(&["--verbose", "check", "--quiet"]), Some(Verbosity::Quiet));
    assert_eq!(ladder(&["--quiet", "check", "--verbose"]), Some(Verbosity::Verbose));
    assert_ne!(ladder(&["-q", "check", "-v"]), ladder(&["-v", "check", "-q"]));
}

#[test]
fn repeating_a_flag_reaches_the_next_tier() {
    assert_eq!(ladder(&["-v", "-v", "check"]), Some(Verbosity::Debug));
    assert_eq!(ladder(&["-q", "-q", "check"]), Some(Verbosity::Silent));
    assert_eq!(ladder(&["-v", "-q", "-v", "check"]), Some(Verbosity::Verbose));
    assert_eq!(ladder(&["-vv", "check"]), Some(Verbosity::Debug));
}

#[test]
fn the_named_rung_is_read_in_both_spellings() {
    assert_eq!(ladder(&["--log-level", "debug"]), Some(Verbosity::Debug));
    assert_eq!(ladder(&["--log-level=debug"]), Some(Verbosity::Debug));
}

#[test]
fn a_value_is_never_mistaken_for_a_ladder_flag() {
    assert_eq!(ladder(&["--strictness", "strict", "check"]), None);
    assert_eq!(ladder(&["--config-from", "-v", "check"]), None);
}

#[test]
fn the_scan_stops_at_the_argv_separator() {
    assert_eq!(ladder(&["exec", "--", "cargo", "test", "-v"]), None);
    assert_eq!(ladder(&["exec", "--", "sh", "-c", "--silent"]), None);
    assert_eq!(ladder(&["-q", "exec", "--", "cargo", "test", "-v"]), Some(Verbosity::Quiet));
}

#[test]
fn the_presentation_booleans_are_read_anywhere_on_the_line() {
    let argv = vec!["check".to_owned(), "--no-color".to_owned(), "--no-input".to_owned()];
    let flags = Presentation::from_argv(&argv, &consumes());
    assert!(flags.no_color && flags.no_input);
}

#[test]
fn silent_suppresses_messages_but_never_a_verdict() {
    let quiet = Mode::new(Verbosity::Silent, false, true, false);
    assert_eq!(message(quiet, Verbosity::Normal, "checking"), None);
    assert!(verdict("Refused by a-rule: because").starts_with("Refused by"));
}

#[test]
fn a_usage_error_is_loud_even_under_silent() {
    let quiet = Mode::new(Verbosity::Silent, false, true, false);
    assert!(!error(quiet, "no config found").is_empty());
}

#[test]
fn a_message_appears_once_its_rung_is_admitted() {
    let loud = Mode::new(Verbosity::Verbose, false, true, false);
    assert_eq!(message(loud, Verbosity::Verbose, "resolving"), Some("batten: resolving\n".to_owned()));
}

#[test]
fn colour_is_the_only_thing_a_mode_changes_about_an_error() {
    let plain = Mode::default();
    let coloured = Mode::new(plain.verbosity, true, plain.machine, plain.confirmed);
    let a = error(plain, "boom");
    let b = error(coloured, "boom");
    assert_ne!(a, b);
    assert_eq!(a, "batten: boom\n");
    assert_eq!(b, "\x1b[31mbatten:\x1b[0m boom\n");
}

#[test]
fn a_refused_log_level_escapes_what_it_quotes() {
    let err = resolve_with(&Presentation::default(), false, false, &env(&[(LOG_LEVEL_ENV, "a\"b\\c\n\u{1}")]))
        .expect_err("refused");
    assert!(err.text().starts_with("BATTEN_LOG_LEVEL: \"a\\\"b\\\\c\\n\\u{1}\" names no verbosity"));
}

#[test]
fn clusters_split_into_their_flags_and_nothing_else_does() {
    let argv: Vec<String> = ["-vq", "-x", "--vv", "-v", "check"].iter().map(|s| (*s).to_owned()).collect();
    assert_eq!(expand_clusters(&argv), vec!["-v", "-q", "-x", "--vv", "-v", "check"]);
}

#[test]
fn admits_is_the_ladder_order() {
    assert!(Verbosity::Trace.admits(Verbosity::Silent));
    assert!(Verbosity::Normal.admits(Verbosity::Normal));
    assert!(!Verbosity::Quiet.admits(Verbosity::Normal));
    let d = Mode::default();
    assert_eq!((d.verbosity, d.color, d.machine, d.confirmed), (Verbosity::Normal, false, true, false));
}

#[test]
fn nothing_after_the_separator_changes_the_presentation() {
    assert_eq!(ladder(&["-q", "--", "-v", "--no-color"]), ladder(&["-q"]));
    let argv = vec!["check".to_owned(), "--".to_owned(), "--no-color".to_owned(), "-y".to_owned()];
    let flags = Presentation::from_argv(&argv, &consumes());
    assert!(!flags.no_color && !flags.yes);
}
