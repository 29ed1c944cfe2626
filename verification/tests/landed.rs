use batten::landed::{decide, is_key, Evidence, Finding, Reason, Report, Row};

fn row(id: &str, status: &str) -> Row {
    Row { id: id.to_owned(), status: status.to_owned() }
}

fn keys(ids: &[&str]) -> Vec<String> {
    ids.iter().map(|id| (*id).to_owned()).collect()
}

#[test]
fn an_in_progress_row_whose_work_is_on_main_is_behind_git() {
    let mut e = Evidence::default();
    e.claimed = keys(&["CLOUD-1"]);
    let report = decide(&[row("CLOUD-1", "In Progress")], &e);
    assert_eq!(report.findings.len(), 1);
    assert_eq!(report.findings[0].reason, Reason::BehindGit);
    assert_eq!(report.findings[0].reason.wants(), "In Review");
}

#[test]
fn a_key_is_not_drained_by_a_longer_key_that_starts_with_it() {
    let mut e = Evidence::default();
    e.claimed = keys(&["CLOUD-179"]);
    let report = decide(&[row("CLOUD-17", "In Progress")], &e);
    assert!(report.is_clean());
}

#[test]
fn a_declined_key_in_a_started_column_is_refused() {
    let mut e = Evidence::default();
    e.declined = keys(&["CLOUD-1"]);
    let report = decide(&[row("CLOUD-1", "In Review")], &e);
    assert_eq!(report.findings.len(), 1);
    assert_eq!(report.findings[0].reason, Reason::DeclinedButAdvanced);
    assert_eq!(report.findings[0].reason.wants(), "Todo");
}

#[test]
fn a_declined_key_that_reached_done_is_refused() {
    let mut e = Evidence::default();
    e.declined = keys(&["CLOUD-1"]);
    let report = decide(&[row("CLOUD-1", "Done")], &e);
    assert_eq!(report.findings.len(), 1);
    assert_eq!(report.findings[0].reason, Reason::DeclinedButAdvanced);
}

#[test]
fn a_declined_key_still_in_the_queue_passes() {
    let mut e = Evidence::default();
    e.declined = keys(&["CLOUD-1"]);
    let report = decide(&[row("CLOUD-1", "Todo")], &e);
    assert!(report.is_clean());
}

#[test]
fn an_asserted_landing_is_reported_as_asserted_and_names_its_ref() {
    let mut e = Evidence::default();
    e.asserted = vec![("CLOUD-1".to_owned(), "abc1234".to_owned())];
    let report = decide(&[row("CLOUD-1", "In Progress")], &e);
    assert_eq!(report.findings[0].asserted_by.as_deref(), Some("abc1234"));
}

#[test]
fn a_derived_landing_is_not_reported_as_asserted() {
    let mut e = Evidence::default();
    e.claimed = keys(&["CLOUD-1"]);
    e.asserted = vec![("CLOUD-1".to_owned(), "abc1234".to_owned())];
    let report = decide(&[row("CLOUD-1", "In Progress")], &e);
    assert_eq!(report.findings[0].asserted_by, None);
}

// ---------------------------------------------------------------------------

#[test]
fn findings_come_out_ordered_by_key() {
    let mut e = Evidence::default();
    e.merged = keys(&["B-2", "A-1"]);
    e.declined = keys(&["C-3"]);
    let report: Report = decide(
        &[row("C-3", "Done"), row("B-2", "In Progress"), row("A-1", "In Progress"), row("D-4", "Todo")],
        &e,
    );
    let ids: Vec<&str> = report.findings.iter().map(|f: &Finding| f.id.as_str()).collect();
    assert_eq!(ids, vec!["A-1", "B-2", "C-3"]);
    assert_eq!(report.findings[2].holds, "Done");
}

#[test]
fn the_later_assertion_of_a_key_stands() {
    let mut e = Evidence::default();
    e.asserted = vec![("K-1".to_owned(), "old".to_owned()), ("K-1".to_owned(), "new".to_owned())];
    assert_eq!(e.asserted_for("K-1"), Some("new".to_owned()));
    assert!(e.landed("K-1"));
    assert!(e.asserted_only("K-1"));
    assert!(!e.landed("K-2"));
}

#[test]
fn a_key_is_a_token_without_white_space() {
    assert!(is_key("CLOUD-1"));
    assert!(!is_key(""));
    assert!(!is_key("id status"));
    assert!(!is_key("a\u{a0}b"));
}

#[test]
fn reason_tokens_and_columns_are_stable() {
    assert_eq!(Reason::BehindGit.token(), "behind-git");
    assert_eq!(Reason::DeclinedButAdvanced.token(), "declined-but-advanced");
    assert!(row("x", "In Review").is_started());
    assert!(!row("x", "Backlog").is_started());
    assert!(row("x", "In Progress").is_in_progress());
}

fn payload(id: &str, status: Option<&str>) -> batten::json::Json {
    let mut members = vec![("id".to_owned(), batten::json::Json::Text(id.to_owned()))];
    if let Some(status) = status {
        members.push(("status".to_owned(), batten::json::Json::Text(status.to_owned())));
    }
    batten::json::Json::Object(members)
}

#[test]
fn a_payload_missing_status_is_could_not_look_rather_than_a_clean_board() {
    let value = batten::json::Json::Array(vec![payload("CLOUD-1", None)]);
    assert!(batten::landed::rows_from(&value).is_err());
}

#[test]
fn a_single_payload_and_a_wrapped_array_read_alike() {
    let bare = payload("CLOUD-1", Some("Todo"));
    let wrapped = batten::json::Json::Array(vec![batten::json::Json::Array(vec![payload("CLOUD-1", Some("Todo"))])]);
    assert!(
        batten::landed::rows_from(&bare).is_ok(),
        "the equality below is only meaningful if the payload parsed at all"
    );
    assert_eq!(batten::landed::rows_from(&bare).ok(), batten::landed::rows_from(&wrapped).ok());
}

#[test]
fn a_bare_array_yields_one_row_per_payload_in_order() {
    let value = batten::json::Json::Array(vec![payload("A-1", Some("Todo")), payload("A-2", Some("Done"))]);
    let rows = batten::landed::rows_from(&value).expect("rows");
    assert_eq!(rows.len(), 2);
    assert_eq!((rows[0].id.as_str(), rows[0].status.as_str()), ("A-1", "Todo"));
    assert_eq!((rows[1].id.as_str(), rows[1].status.as_str()), ("A-2", "Done"));
    let numeric = batten::json::Json::Object(vec![
        ("id".to_owned(), batten::json::Json::Number("1".to_owned())),
        ("status".to_owned(), batten::json::Json::Text("Todo".to_owned())),
    ]);
    let refused = batten::landed::rows_from(&numeric).expect_err("a numeric id is not a key");
    assert_eq!(refused.text(), "landed: not a set of get_issue payloads (need id and status per issue)");
}
