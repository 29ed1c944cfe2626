use batten::exit::ExitCode::{Internal, Success, Usage, Violation};
use batten::json::Json;
use batten::land::{
    Asking, abandoned, stale_of,
    Abandoned, Answered, Arm, Bound, Charge, Ledger, Progress, Pushed, ReadyStep, Readied,
    Replay, Spending, Step, Verified, absorbed, answers, body_gates, progress, ready,
    spending_in, tracking_ref, worthless,
};

#[test]
fn a_refusal_a_rebase_would_clear_laps_and_one_it_would_not_stops() {
    assert_eq!(progress(Step::Replay, Violation), Progress::Stop);
    assert_eq!(progress(Step::Verify, Violation), Progress::Stop);
    assert_eq!(progress(Step::Push, Violation), Progress::Lap);
    assert_eq!(progress(Step::Wait, Violation), Progress::Lap);
    assert_eq!(progress(Step::FastForward, Violation), Progress::Lap);
}

#[test]
fn a_refused_fast_forward_laps_because_it_is_a_fact_about_the_base() {
    assert_eq!(progress(Step::FastForward, Violation), Progress::Lap);
    assert_ne!(progress(Step::FastForward, Violation), Progress::Stop);
}

#[test]
fn could_not_look_laps_only_where_it_means_nobody_has_answered_yet() {
    assert_eq!(progress(Step::Wait, Internal), Progress::Lap);
    assert_eq!(progress(Step::FastForward, Internal), Progress::Lap);
    assert_eq!(progress(Step::Replay, Internal), Progress::Stop);
    assert_eq!(progress(Step::Verify, Internal), Progress::Stop);
    assert_eq!(progress(Step::Push, Internal), Progress::Stop);
}

#[test]
fn a_misconfiguration_stops_every_step_and_success_stops_none() {
    for step in [
        Step::Replay,
        Step::Verify,
        Step::Push,
        Step::Wait,
        Step::FastForward,
    ] {
        assert_eq!(
            progress(step, Usage),
            Progress::Stop,
            "{step:?} must not lap over a clone it cannot be configured to answer"
        );
        assert_ne!(
            progress(step, Success),
            Progress::Stop,
            "{step:?} answering cleanly is never a stop"
        );
    }
    assert_eq!(progress(Step::FastForward, Success), Progress::Landed);
}

#[test]
fn every_verify_outcome_writes_four_columns_led_by_the_kind() {
    for outcome in [
        Verified::Clean(String::from("abc1234")),
        Verified::Refused(String::from("abc1234")),
    ] {
        let line = outcome.line();
        let columns: Vec<&str> = line.split(' ').collect();
        assert_eq!(columns.len(), 4, "four columns exactly, got {line:?}");
        assert_eq!(columns[0], "verify", "the kind column leads: {line:?}");
    }
}

#[test]
fn every_push_outcome_writes_four_columns_led_by_the_kind() {
    for outcome in [Pushed::Landed(String::from("abc1234")), Pushed::Raced] {
        let line = outcome.line();
        let columns: Vec<&str> = line.split(' ').collect();
        assert_eq!(columns.len(), 4, "four columns exactly, got {line:?}");
        assert_eq!(columns[0], "push", "the kind column leads: {line:?}");
    }
}

#[test]
fn every_outcome_writes_four_columns_led_by_the_kind() {
    for outcome in [
        Replay::Conflicted {
            commit: String::from("abc1234"),
            paths: vec![String::from("shared.txt")],
        },
        Replay::Current,
        Replay::Replayed {
            head: String::from("def5678"),
            commits: 1,
        },
    ] {
        let line = outcome.line();
        let columns: Vec<&str> = line.split(' ').collect();
        assert_eq!(columns.len(), 4, "four columns exactly, got {line:?}");
        assert_eq!(columns[0], "rebase", "the kind column leads: {line:?}");
    }
}

#[test]
fn a_conflict_records_a_pointer_and_never_a_hunk() {
    let line = Replay::Conflicted {
        commit: String::from("abc1234"),
        paths: vec![String::from("shared.txt"), String::from("other.txt")],
    }
    .line();
    assert_eq!(line, "rebase conflicted abc1234 shared.txt");
}

#[test]
fn a_conflict_with_no_path_keeps_the_column_count() {
    let line = Replay::Conflicted {
        commit: String::from("abc1234"),
        paths: Vec::new(),
    }
    .line();
    assert_eq!(line, "rebase conflicted abc1234 -");
}

#[test]
fn the_clean_outcomes_are_told_apart() {
    assert_eq!(Replay::Current.line(), "rebase current - -");
    assert_eq!(
        Replay::Replayed {
            head: String::from("def5678"),
            commits: 3,
        }
        .line(),
        "rebase replayed def5678 -"
    );
}

#[test]
fn a_remote_reference_resolves_to_its_tracking_ref() {
    assert_eq!(tracking_ref("refs/heads/main"), "refs/remotes/origin/main");
    assert_eq!(tracking_ref("main"), "refs/remotes/origin/main");
}

#[test]
fn every_wait_answer_writes_four_columns_led_by_the_kind() {
    for answer in [
        Answered {
            arm: Arm::Green,
            verdict: Some(String::from("success")),
            sha: String::from("abc1234"),
        },
        Answered {
            arm: Arm::Stale,
            verdict: None,
            sha: String::from("abc1234"),
        },
    ] {
        let line = answer.line();
        let columns: Vec<&str> = line.split(' ').collect();
        assert_eq!(columns.len(), 4, "four columns exactly, got {line:?}");
        assert_eq!(columns[0], "wait", "the kind column leads: {line:?}");
    }
}

#[test]
fn a_voided_loser_records_could_not_look_rather_than_vanishing() {
    assert_eq!(
        Answered {
            arm: Arm::Stale,
            verdict: None,
            sha: String::from("abc1234"),
        }
        .line(),
        "wait stale - abc1234"
    );
    assert_eq!(
        Answered {
            arm: Arm::Green,
            verdict: Some(String::from("success")),
            sha: String::from("abc1234"),
        }
        .line(),
        "wait green success abc1234"
    );
}

#[test]
fn the_two_arms_carry_different_tokens() {
    assert_ne!(Arm::Green.token(), Arm::Stale.token());
}

#[test]
fn both_arms_always_appear_and_the_stale_one_says_moved() {
    let pair = answers("abc", None, Some("def"));
    assert_eq!(pair.len(), 2);
    assert_eq!(pair[0].line(), "wait green - abc");
    assert_eq!(pair[1].line(), "wait stale moved abc");
}

#[test]
fn a_declared_gate_list_decodes_to_one_argv_per_entry() {
    assert_eq!(
        body_gates("mise run deferral-check|mise run closing-key-check"),
        vec![
            vec![
                String::from("mise"),
                String::from("run"),
                String::from("deferral-check")
            ],
            vec![
                String::from("mise"),
                String::from("run"),
                String::from("closing-key-check")
            ],
        ],
        "a comma would give one argv per WORD"
    );
}

#[test]
fn a_stray_separator_does_not_become_a_gate_that_cannot_run() {
    assert!(body_gates("").is_empty());
    assert!(body_gates("  |  ").is_empty());
    assert_eq!(body_gates("one|").len(), 1);
}

#[test]
fn an_unseen_body_passes_and_an_unrunnable_gate_refuses() {
    let gate = vec![vec![String::from(
        "batten-no-such-program-for-the-ready-phase",
    )]];
    assert_eq!(
        ready(&gate, "   \n ", &[]),
        ReadyStep::Done(Readied::Clear),
        "a body the fetch never produced says nothing, so there is nothing to judge"
    );
    assert_eq!(ready(&gate, "Closes CLOUD-1", &[]), ReadyStep::Run(0));
    assert_eq!(
        ready(&gate, "Closes CLOUD-1", &[None]),
        ReadyStep::Done(Readied::Unrunnable {
            gate: String::from("batten-no-such-program-for-the-ready-phase"),
        }),
        "a declared gate that cannot run has not passed"
    );
}

#[test]
fn a_consumer_declaring_no_body_gates_is_clear_rather_than_unrunnable() {
    assert_eq!(
        ready(&[], "Closes CLOUD-1", &[]),
        ReadyStep::Done(Readied::Clear)
    );
}

#[test]
fn a_gate_that_refused_is_named_with_its_trimmed_output() {
    let gates = vec![
        vec![String::from("first")],
        vec![String::from("second"), String::from("arg")],
    ];
    assert_eq!(
        ready(&gates, "body", &[Some((0, String::new()))]),
        ReadyStep::Run(1)
    );
    assert_eq!(
        ready(
            &gates,
            "body",
            &[Some((0, String::new())), Some((2, String::from("  no ticket \n")))]
        ),
        ReadyStep::Done(Readied::Refused {
            gate: String::from("second"),
            detail: String::from("no ticket"),
        })
    );
    assert_eq!(
        ready(
            &gates,
            "body",
            &[Some((0, String::new())), Some((0, String::new()))]
        ),
        ReadyStep::Done(Readied::Clear)
    );
}

#[test]
fn a_body_gate_refusal_stops_the_lap_rather_than_lapping_it() {
    assert_eq!(progress(Step::Ready, Violation), Progress::Stop);
    assert_eq!(progress(Step::Ready, Internal), Progress::Stop);
    assert_eq!(progress(Step::Ready, Success), Progress::Proceed);
    assert_eq!(progress(Step::Push, Violation), Progress::Lap);
}

#[test]
fn a_lap_that_bought_nothing_is_not_reported_as_a_spend() {
    let mut ledger = Ledger::default();
    ledger.attempt();
    ledger.attempt();
    assert_eq!(ledger.laps, 2, "two attempts were made");
    assert_eq!(
        ledger.spent(),
        0,
        "and neither bought a matrix, so nothing was spent"
    );
    ledger.attempt();
    ledger.bought_a_matrix();
    assert_eq!(ledger.spent(), 1, "the one site that buys one, counted");
}

#[test]
fn a_pass_that_never_won_the_lease_refunds_its_lap() {
    let mut ledger = Ledger::default();
    ledger.attempt();
    assert_eq!(ledger.waited(3), Charge::Lap);
    assert_eq!(ledger.laps, 0, "the attempt was refunded");
    assert_eq!(ledger.lease_waits, 1, "and charged to its own bound");
}

#[test]
fn each_bound_is_charged_and_named_separately() {
    let mut ledger = Ledger::default();
    assert_eq!(ledger.waited(0), Charge::Stop(Bound::LeaseWaits));
    let mut ledger = Ledger::default();
    assert_eq!(ledger.unknown(0), Charge::Stop(Bound::Unknowns));
    let mut ledger = Ledger::default();
    assert_eq!(ledger.transient(0), Charge::Stop(Bound::Transients));
    let mut ledger = Ledger::default();
    assert_eq!(ledger.waited(1), Charge::Lap);
    assert_eq!(ledger.unknown(1), Charge::Lap);
    assert_eq!(ledger.transient(1), Charge::Lap);
}

#[test]
fn a_refund_with_no_attempt_to_refund_does_not_underflow() {
    let mut ledger = Ledger::default();
    assert_eq!(ledger.unknown(5), Charge::Lap);
    assert_eq!(ledger.laps, 0);
}

#[test]
fn a_failure_before_any_verdict_is_absorbed_and_one_after_is_not() {
    let absorbed_runs = absorbed(&[
        String::from("nonverdict 111 provision\n"),
        String::from("nonverdict 222 checkout\n"),
    ]);
    assert_eq!(
        absorbed_runs,
        Some(vec![
            String::from("nonverdict 111 provision"),
            String::from("nonverdict 222 checkout"),
        ]),
        "neither run reached a verdict, so neither judged the branch"
    );
    assert_eq!(
        absorbed(&[
            String::from("nonverdict 111 provision\n"),
            String::from("verdict 222 test-failed\n"),
        ]),
        None,
        "ONE verdict means the branch was judged; absorbing the pair would \
         re-run a real refusal"
    );
}

#[test]
fn an_empty_scan_is_could_not_look_rather_than_an_absorbed_transient() {
    assert_eq!(absorbed(&[]), None);
    assert_eq!(absorbed(&[String::new()]), None);
    assert_eq!(absorbed(&[String::from("   \n\n")]), None);
}

fn run(id: &str, path: &str) -> Spending {
    Spending {
        id: String::from(id),
        path: String::from(path),
    }
}

#[test]
fn the_run_carrying_the_fan_in_is_spared_and_the_rest_are_not() {
    let (doomed, spared) = worthless(
        &[
            run("1", ".github/workflows/rust.yml"),
            run("2", ".github/workflows/ci.yml"),
            run("3", ".github/workflows/test.yml"),
        ],
        ".github/workflows/ci.yml",
    );
    assert_eq!(spared, 1, "exactly the fan-in's run");
    assert_eq!(
        doomed.iter().map(|r| r.id.as_str()).collect::<Vec<_>>(),
        vec!["1", "3"],
        "and every sibling is still doomed: {doomed:?}"
    );
}

#[test]
fn a_fan_in_no_run_carries_spares_nothing_and_still_cancels() {
    let (doomed, spared) = worthless(
        &[
            run("1", ".github/workflows/rust.yml"),
            run("2", ".github/workflows/test.yml"),
        ],
        ".github/workflows/absent.yml",
    );
    assert_eq!(spared, 0);
    assert_eq!(doomed.len(), 2, "nothing is spared by accident");
}

#[test]
fn an_empty_fan_in_name_matches_no_run() {
    let (doomed, spared) = worthless(&[run("1", ".github/workflows/ci.yml")], "");
    assert_eq!(spared, 0);
    assert_eq!(doomed.len(), 1, "so the CALLER must refuse rather than let this decide");
}

#[test]
fn nothing_in_flight_cancels_nothing() {
    let (doomed, spared) = worthless(&[], ".github/workflows/ci.yml");
    assert!(doomed.is_empty());
    assert_eq!(spared, 0);
}

#[test]
fn an_abandon_pass_starts_from_nothing() {
    let report = Abandoned::default();
    assert_eq!((report.cancelled, report.spared, report.refused), (0, 0, 0));
}

fn convert(v: &serde_json::Value) -> Json {
    match v {
        serde_json::Value::Null => Json::Null,
        serde_json::Value::Bool(b) => Json::Bool(*b),
        serde_json::Value::Number(n) => Json::Number(n.to_string()),
        serde_json::Value::String(s) => Json::Text(s.clone()),
        serde_json::Value::Array(xs) => Json::Array(xs.iter().map(convert).collect()),
        serde_json::Value::Object(ms) => Json::Object(ms.iter().map(|(k, v)| (k.clone(), convert(v))).collect()),
    }
}

fn document(text: &str) -> Json {
    convert(&serde_json::from_str::<serde_json::Value>(text).expect("a document"))
}

#[test]
fn only_runs_still_in_flight_are_spending() {
    let answer = document(
        r#"{"workflow_runs": [
            {"id": 12, "status": "in_progress", "path": ".github/workflows/ci.yml"},
            {"id": 13, "status": "completed", "path": ".github/workflows/ci.yml"},
            {"id": "abc", "path": ".github/workflows/fan-in.yml"},
            {"id": -1, "status": "queued", "path": "neg.yml"},
            {"id": 2.5, "status": "queued", "path": "float.yml"},
            {"id": 14, "status": "queued"},
            {"id": 15, "status": 7, "path": "odd.yml"}
        ]}"#,
    );
    assert_eq!(
        spending_in(&answer),
        Some(vec![
            Spending { id: "12".to_owned(), path: ".github/workflows/ci.yml".to_owned() },
            Spending { id: "abc".to_owned(), path: ".github/workflows/fan-in.yml".to_owned() },
            Spending { id: "15".to_owned(), path: "odd.yml".to_owned() },
        ])
    );
    assert_eq!(spending_in(&document(r#"{"total_count": 0}"#)), None);
    assert_eq!(spending_in(&document(r#"{"workflow_runs": {}}"#)), None);
    assert_eq!(spending_in(&document(r#"{"workflow_runs": []}"#)), Some(vec![]));
}

#[test]
fn an_abandon_pass_tallies_what_the_forge_accepted_and_refused() {
    let report = abandoned(1, &[true, false, true]);
    assert_eq!(report, Abandoned { cancelled: 2, spared: 1, refused: 1 });
    assert_eq!(abandoned(0, &[]), Abandoned::default());
}

#[test]
fn an_arm_asks_at_most_its_budget_and_never_once_decided() {
    let mut arm = Asking::new(2);
    assert!(arm.ask(false));
    assert!(arm.ask(false));
    assert!(!arm.ask(false), "the budget is a count");
    let mut other = Asking::new(5);
    assert!(!other.ask(true), "a decided wait asks nothing more");
    assert_eq!(other.asked, 0);
}

#[test]
fn an_unresolved_base_is_not_stale() {
    let poll = batten::main_watch::Poll::default();
    assert_eq!(stale_of(None, &poll), None);
    assert_eq!(stale_of(Some("1111111111111111111111111111111111111111"), &poll), None);
}
