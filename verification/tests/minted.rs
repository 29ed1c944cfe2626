use batten::minted::{field_of, store_path, subject_of, MintedQuery};

fn row() -> MintedQuery {
    MintedQuery {
        id: String::from("issue-status"),
        mint: String::from("issue-read"),
        field: 4,
        recency: 2,
        max_age_days: 7,
    }
}

#[test]
fn a_mint_name_that_is_a_prefix_of_another_claims_nothing_of_its() {
    assert_eq!(subject_of("issue-read.CLOUD-1", "issue-read"), Some(String::from("CLOUD-1")));
    assert_eq!(subject_of("issue-read.CLOUD-1", "issue"), None);
}

#[test]
fn only_the_first_separator_ends_the_mint_name() {
    assert_eq!(subject_of("issue-read.a.b", "issue-read"), Some(String::from("a.b")));
}

#[test]
fn a_reading_older_than_the_bound_does_not_answer() {
    let now = 1_000_000_000;
    let fresh = format!("CLOUD-1 2026-01-01 {} d in-progress ready", now - 86_400);
    let stale = format!("CLOUD-1 2026-01-01 {} d in-progress ready", now - 8 * 86_400);
    assert_eq!(field_of(&fresh, &row(), now), Some(String::from("in-progress")));
    assert_eq!(field_of(&stale, &row(), now), None);
}

#[test]
fn a_receipt_missing_the_declared_field_is_absent() {
    let now = 1_000_000_000;
    let short = format!("CLOUD-1 2026-01-01 {now}");
    assert_eq!(field_of(&short, &row(), now), None);
}

#[test]
fn an_unparseable_recency_column_does_not_answer() {
    let now = 1_000_000_000;
    assert_eq!(field_of("CLOUD-1 2026-01-01 - d in-progress ready", &row(), now), None);
}

// ---------------------------------------------------------------------------

#[test]
fn the_store_sits_under_the_git_directory() {
    assert_eq!(store_path("/repo/.git"), "/repo/.git/batten-receipts");
    assert_eq!(store_path("/repo/.git/"), "/repo/.git/batten-receipts");
}

#[test]
fn an_empty_subject_and_a_future_reading_are_handled_apart() {
    assert_eq!(subject_of("issue-read.", "issue-read"), None);
    let now = 1_000;
    let future = format!("a b {} d open", now + 50);
    assert_eq!(field_of(&future, &row(), now), Some(String::from("open")));
    assert_eq!(field_of("", &row(), now), None);
    let edge = format!("a b {} d open", now + 7 * 86_400 - 7 * 86_400);
    assert_eq!(field_of(&edge, &row(), now + 7 * 86_400), Some(String::from("open")));
}
