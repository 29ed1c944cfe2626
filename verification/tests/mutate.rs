use std::path::{Path, PathBuf};

use batten::exit::ExitCode;
use batten::mutate::{
    join,
    census, diff_shape, enforced_set, engine_undeclared, exemption_is_filed, has_extension,
    is_gate, judge_row, libtest_lines, manifest_text, resolve, rows_in, screen, sed_args,
    selection, source_candidates, sources_for, stale_paths, strip_marker, subjects, suite_args,
    suite_env, sweep, tap_lines, total_cases, CensusVerdict, Finding, Gate, JudgeStep, Looked,
    Next, Row, Seen, Staged, Suite, Sweep, Verdict,
};

fn s(x: &str) -> String {
    x.to_owned()
}

#[test]
fn the_sweeps_cargo_cache_is_never_the_repositorys_own() {
    let root = Path::new("/repo");
    let env = suite_env("/repo");
    let target = env
        .iter()
        .find(|(key, _)| key == "CARGO_TARGET_DIR")
        .map(|(_, value)| PathBuf::from(value));
    let Some(target) = target else {
        panic!("the sweep declares a cargo target directory");
    };
    assert_ne!(target, root.join("target"));
    assert!(target.starts_with(root.join("target")));
}

#[test]
fn a_row_is_exactly_three_fields() {
    let lines = vec![
        String::from("#MUTANT slug|s/a/b/|the case"),
        String::from("#MUTANT bad|s/a|b/|extra|the case"),
    ];
    let rows = rows_in(&lines, "policy/x.rego");
    assert!(rows[0].is_ok());
    assert_eq!(rows[1].as_ref().err().map(|(_, n)| *n), Some(5));
}

#[test]
fn an_exempt_row_is_not_a_mutation_row() {
    let lines = vec![
        String::from("#MUTANT-EXEMPT CLOUD-1|why"),
        String::from("#MUTANT-SUITE crates/batten/tests/x.rs"),
    ];
    assert!(rows_in(&lines, "policy/x.rego").is_empty());
}

#[test]
fn a_declared_rust_suite_carries_its_path_and_names_no_target() {
    let suite = Suite::declared("crates/batten/tests/it/shell_retirement.rs");
    assert_eq!(
        suite,
        Some(Suite::Cargo {
            path: String::from("crates/batten/tests/it/shell_retirement.rs"),
        })
    );
}

#[test]
fn a_bats_suite_still_resolves() {
    assert_eq!(
        Suite::declared("tests/land.bats"),
        Some(Suite::Bats(String::from("tests/land.bats")))
    );
}

#[test]
fn a_suite_this_runner_cannot_run_is_refused_rather_than_guessed() {
    assert_eq!(Suite::declared("policy/shell-retirement.rego"), None);
    assert_eq!(Suite::declared("mise-tasks/land.sh"), None);
}

#[test]
fn the_extension_decides_and_the_directory_does_not() {
    assert_eq!(
        Suite::declared("somewhere/else/toy.rs"),
        Some(Suite::Cargo {
            path: String::from("somewhere/else/toy.rs"),
        })
    );
    assert_eq!(
        Suite::declared("deep/nested/group/toy.rs"),
        Some(Suite::Cargo {
            path: String::from("deep/nested/group/toy.rs"),
        })
    );
}

#[test]
fn could_not_look_is_not_the_verdict_class() {
    assert!(Verdict::NoSuite { suite: String::new() }.could_not_look());
    assert!(Verdict::NamesNoCase { want: String::new() }.could_not_look());
    assert!(!Verdict::Survived { want: String::new() }.could_not_look());
    assert!(!Verdict::NoMutantDeclared.could_not_look());
    assert!(!Verdict::Caught.is_finding());
}

#[test]
fn an_unfiled_exemption_is_refused_three_ways() {
    assert!(exemption_is_filed("CLOUD-931|a stated reason"));
    assert!(!exemption_is_filed("later|a stated reason"));
    assert!(!exemption_is_filed("CLOUD-931|   "));
    assert!(!exemption_is_filed("CLOUD-931"));
}

#[test]
fn a_gate_describes_itself_as_one() {
    let gate = vec![String::from("#MISE description=\"Gate: something\"")];
    let hook = vec![String::from("#MISE description=\"PreToolUse hook body\"")];
    let other = vec![String::from("#MISE description=\"Measure: something\"")];
    assert!(is_gate(&gate));
    assert!(is_gate(&hook));
    assert!(!is_gate(&other));
}

#[test]
fn a_survivor_line_echoes_its_owner_and_decides_nothing() {
    let finding = Finding {
        gate: String::from("validator-verdict-clean"),
        slug: Some(String::from("verdict-unread")),
        verdict: Verdict::Survived { want: String::from("a_record_carrying_a_finding") },
        owner: Some(String::from("CLOUD-1265|nothing writes a record")),
    };
    let line = finding.text();
    assert!(line.contains("SURVIVED"), "{line}");
    assert!(line.contains("CLOUD-1265"), "{line}");
    assert!(finding.verdict.is_finding());
}

// ---------------------------------------------------------------------------

#[test]
fn a_marker_needs_an_opener_and_no_indent() {
    assert_eq!(strip_marker("// MUTANT x", "MUTANT "), None);
    assert_eq!(strip_marker("//MUTANT x|y|z", "MUTANT "), Some(s("x|y|z")));
    assert_eq!(strip_marker("#MUTANT x|y|z", "MUTANT "), Some(s("x|y|z")));
    assert_eq!(strip_marker("  #MUTANT x", "MUTANT "), None);
    assert_eq!(strip_marker("MUTANT x", "MUTANT "), None);
    assert_eq!(strip_marker("#MUTANT-EXEMPT x", "MUTANT "), None);
}

#[test]
fn extensions_follow_the_last_segment() {
    assert!(has_extension("a/b.rs", "rs"));
    assert!(has_extension("a/b.rs/", "rs"));
    assert!(!has_extension("a/.rs", "rs"));
    assert!(!has_extension("a/b.rs/..", "rs"));
    assert!(has_extension("x.tar.bats", "bats"));
    assert!(!has_extension("bats", "bats"));
}

#[test]
fn an_empty_enforced_set_is_a_usage_error() {
    let err = enforced_set(" , ,").expect_err("an empty set is refused");
    assert!(err.text().starts_with("MUTANT_GATES is unset"));
    assert_eq!(enforced_set(" land , doctor,").unwrap(), vec![s("land"), s("doctor")]);
}

#[test]
fn counts_read_the_runner_output() {
    assert_eq!(tap_lines("1..2\nok 1 a\nnot ok 2 b\n# note\n"), 2);
    assert_eq!(libtest_lines("running 2 tests\ntest a ... ok\ntest b ... FAILED\ntest result: ok\n"), 2);
    let bats = Suite::Bats(s("t.bats"));
    let cargo = Suite::Cargo { path: s("t.rs") };
    let lines = vec![s("@test \"x\" {"), s("bats_test_function y"), s("  #[test]"), s("fn z() {}")];
    assert_eq!(total_cases(&bats, Some(&lines)), 2);
    assert_eq!(total_cases(&cargo, Some(&lines)), 1);
    assert_eq!(total_cases(&cargo, None), 0);
    assert_eq!(selection(&cargo, true, "test a ... ok\nerror: could not compile"), (1, false));
    assert_eq!(selection(&bats, false, "ok 1 a\n"), (1, false));
}

#[test]
fn arguments_name_the_case_and_never_a_target() {
    assert_eq!(suite_args(&Suite::Cargo { path: s("t.rs") }, "case"), vec![s("test"), s("--"), s("case")]);
    assert_eq!(
        suite_args(&Suite::Bats(s("tests/x.bats")), "case"),
        vec![s("--filter"), s("case"), s("tests/x.bats")]
    );
    let row = Row { slug: s("a"), script: s("s/x/y/"), want: s("c"), source: s("p.rego") };
    assert_eq!(sed_args(&row), vec![s("-i.bak"), s("s/x/y/"), s("p.rego")]);
}

#[test]
fn a_mutation_of_only_its_own_row_touches_no_code() {
    assert_eq!(diff_shape("a\nb\n", "a\nb\n"), (false, 0));
    assert_eq!(diff_shape("a\n#MUTANT x|s/a/b/|c\n", "a\n#MUTANT x|s/b/b/|c\n"), (true, 0));
    assert_eq!(diff_shape("allow\nx\n", "deny\nx\n"), (true, 2));
}

#[test]
fn the_manifest_lists_what_was_staged_and_names_what_went_stale() {
    let listed = vec![s("a"), s("b")];
    assert_eq!(manifest_text(&listed), "a\nb");
    assert_eq!(stale_paths("a\n\nc\nb\n", &listed), vec![s("c")]);
}

#[test]
fn a_name_resolves_to_its_first_candidate_or_its_sorted_preset() {
    assert_eq!(
        source_candidates("engine-foo-bar"),
        vec![s("mise-tasks/engine-foo-bar.sh"), s("policy/engine-foo-bar.rego"), s("crates/batten/src/foo_bar.rs")]
    );
    assert_eq!(sources_for("land", &[false, true], &[]), vec![s("policy/land.rego")]);
    let files = vec![s("b.rego"), s("README.md"), s("a.rego")];
    assert_eq!(
        sources_for("base", &[false, false], &files),
        vec![s("crates/batten/src/policy/presets/base/a.rego"), s("crates/batten/src/policy/presets/base/b.rego")]
    );
    assert!(sources_for("none", &[false, false], &[]).is_empty());
}

fn gate_lines() -> Vec<String> {
    vec![
        s("#MUTANT-SUITE crates/batten/tests/land.rs"),
        s("#MUTANT-OWNER CLOUD-7|known dead"),
        s("#MUTANT one|s/a/b/|case_one"),
        s("#MUTANT two|s/a|b|c|d"),
    ]
}

#[test]
fn a_gate_carries_its_rows_suite_and_owner_with_malformed_rows_last() {
    let gate = resolve("land", &[s("policy/land.rego")], &[Some(gate_lines())]).unwrap();
    assert_eq!(gate.suite, Suite::Cargo { path: s("crates/batten/tests/land.rs") });
    assert_eq!(gate.owner, Some(s("CLOUD-7|known dead")));
    assert_eq!(gate.rows.len(), 2);
    assert_eq!(gate.rows[0].slug, "one");
    assert_eq!(gate.rows[1].slug, "two");
    assert_eq!(gate.rows[1].want, "\u{0}malformed:5");
    assert!(resolve("x", &[], &[]).is_none());
    let plain = resolve("doctor", &[s("mise-tasks/doctor.sh")], &[None]).unwrap();
    assert_eq!(plain.suite, Suite::Bats(s("tests/doctor.bats")));
    assert!(plain.rows.is_empty());
}

#[test]
fn a_row_is_judged_one_observation_at_a_time() {
    let row = Row { slug: s("one"), script: s("s/a/b/"), want: s("case"), source: s("p.rego") };
    let mut seen = Seen { clean: None, total: None, applied: None, shape: None, mutated: None };
    assert_eq!(judge_row(&row, &seen), JudgeStep::Run(Next::RunClean));
    seen.clean = Some((0, false));
    assert_eq!(judge_row(&row, &seen), JudgeStep::Done(Verdict::NamesNoCase { want: s("case") }));
    seen.clean = Some((1, false));
    assert_eq!(judge_row(&row, &seen), JudgeStep::Done(Verdict::CaseAlreadyRed { want: s("case") }));
    seen.clean = Some((3, true));
    assert_eq!(judge_row(&row, &seen), JudgeStep::Run(Next::CountCases));
    seen.total = Some(3);
    assert_eq!(judge_row(&row, &seen), JudgeStep::Done(Verdict::FilterNamesEveryCase { want: s("case") }));
    seen.total = Some(9);
    assert_eq!(judge_row(&row, &seen), JudgeStep::Run(Next::Apply));
    seen.applied = Some(false);
    assert_eq!(judge_row(&row, &seen), JudgeStep::Done(Verdict::UnappliableMutation));
    seen.applied = Some(true);
    assert_eq!(judge_row(&row, &seen), JudgeStep::Run(Next::DiffShape));
    seen.shape = Some((false, 0));
    assert_eq!(judge_row(&row, &seen), JudgeStep::Done(Verdict::InertMutation));
    seen.shape = Some((true, 0));
    assert_eq!(judge_row(&row, &seen), JudgeStep::Done(Verdict::SelfMutatingRow));
    seen.shape = Some((true, 2));
    assert_eq!(judge_row(&row, &seen), JudgeStep::Run(Next::RunMutated));
    seen.mutated = Some((1, true));
    assert_eq!(judge_row(&row, &seen), JudgeStep::Done(Verdict::Survived { want: s("case") }));
    seen.mutated = Some((1, false));
    assert_eq!(judge_row(&row, &seen), JudgeStep::Done(Verdict::Caught));
    let bad = Row { slug: s("two"), script: String::new(), want: s("\u{0}malformed:5"), source: s("p") };
    assert_eq!(judge_row(&bad, &seen), JudgeStep::Done(Verdict::MalformedRow { fields: 5 }));
}

#[test]
fn a_sweep_answers_could_not_look_before_a_survivor() {
    let gate = resolve("land", &[s("policy/land.rego")], &[Some(gate_lines())]).unwrap();
    assert!(screen("land", Some(&gate), true).is_none());
    let missing = screen("gone", None, true).unwrap();
    assert_eq!(missing.verdict, Verdict::NoSuchGate);
    let no_suite = screen("land", Some(&gate), false).unwrap();
    assert_eq!(no_suite.text(), "land no-suite (crates/batten/tests/land.rs) [owner CLOUD-7|known dead]");
    let names = vec![s("land"), s("gone")];
    let looked = vec![
        Looked::Judged {
            owner: None,
            verdicts: vec![(s("one"), Verdict::Caught), (s("two"), Verdict::Survived { want: s("c") })],
        },
        Looked::Screened(missing),
    ];
    let swept: Sweep = sweep(&names, &looked);
    assert_eq!(swept.declared, 2);
    assert_eq!(swept.gates, 2);
    assert_eq!(swept.findings.len(), 2);
    assert_eq!(swept.findings[0].text(), "land/two SURVIVED (c)");
    assert_eq!(swept.unlooked(), 1);
    assert_eq!(swept.code(), ExitCode::Internal);
    let clean = sweep(&names[..1], &looked[..1]);
    assert_eq!(clean.code(), ExitCode::Violation);
    let none = sweep(&[], &[]);
    assert_eq!(none.code(), ExitCode::Success);
}

#[test]
fn a_census_reads_both_directions() {
    let subj = vec![(s("a"), s("policy/a.rego")), (s("b"), s("policy/b.rego")), (s("c"), s("policy/c.rego"))];
    let names = vec![s("b"), s("zz")];
    let exempt = vec![None, Some(s("CLOUD-1|why")), Some(s("later|why"))];
    let c = census(&subj, &names, &exempt, &[true, false], 4);
    let words: Vec<(String, &str)> = c.findings.iter().map(|(p, v)| (p.clone(), v.text())).collect();
    assert_eq!(
        words,
        vec![
            (s("policy/a.rego"), "uncovered"),
            (s("policy/b.rego"), "declared-and-exempt"),
            (s("policy/c.rego"), "exempt-unfiled"),
            (s("zz"), "names-no-subject"),
        ]
    );
    assert_eq!(c.subjects, 3);
    assert_eq!(c.engine_undeclared, 4);
    assert_eq!(CensusVerdict::Uncovered.text(), "uncovered");
}

#[test]
fn subjects_are_name_ordered_and_later_directories_win() {
    let tasks = vec![
        (s("zeta.sh"), Some(vec![s("#MISE description=\"Gate: z\"")])),
        (s("tool.sh"), Some(vec![s("#MISE description=\"Measure\"")])),
        (s("notes.txt"), None),
    ];
    let policies = vec![s("alpha.rego"), s("zeta.rego")];
    let engine = vec![
        (s("doctor_x.rs"), Some(vec![s("//MUTANT a|s/x/y/|c")])),
        (s("plain.rs"), Some(vec![s("fn main() {}")])),
    ];
    let presets = vec![(s("base"), true), (s("file"), false)];
    let m = subjects(&tasks, &policies, &engine, &presets);
    assert_eq!(
        m,
        vec![
            (s("alpha"), s("policy/alpha.rego")),
            (s("base"), s("crates/batten/src/policy/presets/base")),
            (s("engine-doctor-x"), s("crates/batten/src/doctor_x.rs")),
            (s("zeta"), s("policy/zeta.rego")),
        ]
    );
    let files = vec![s("doctor_x.rs"), s("plain.rs"), s("mod.txt")];
    assert_eq!(engine_undeclared(&files, &m), 1);
}

#[test]
fn the_staged_tree_restores_the_last_subject_once() {
    let mut staged = Staged::new(s("/tmp/stage"));
    assert_eq!(staged.dir(), "/tmp/stage");
    assert_eq!(staged.restore(), None);
    staged.stage_subject("policy/a.rego");
    assert_eq!(staged.restore(), Some(s("policy/a.rego")));
    assert_eq!(staged.restore(), None);
}

#[test]
fn verdict_words_are_stable() {
    assert_eq!(Verdict::MalformedRow { fields: 5 }.text(), "malformed-row (5 fields, want 3)");
    assert_eq!(Verdict::NoSuchGate.text(), "no-such-gate");
    let f = Finding { gate: s("g"), slug: None, verdict: Verdict::NoMutantDeclared, owner: None };
    assert_eq!(f.text(), "g no-mutant-declared");
    let _unused: Option<Gate> = None;
}

#[test]
fn a_path_is_joined_as_path_join_does() {
    assert_eq!(join("/repo", "target/x"), "/repo/target/x");
    assert_eq!(join("/repo/", "target"), "/repo/target");
    assert_eq!(join("", "target"), "target");
    assert_eq!(join("/repo", "/etc/passwd"), "/etc/passwd");
    for (root, rel) in [("/repo", "a/b"), ("/repo/", "a"), ("", "a"), ("/repo", "/abs")] {
        assert_eq!(join(root, rel), Path::new(root).join(rel).to_str().unwrap());
    }
}
