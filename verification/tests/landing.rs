use batten::json::Json;
use batten::lease::{carried, first_listed, landing_step, Landing};

fn status(s: &str) -> Json {
    Json::Object(vec![("status".to_owned(), Json::Text(s.to_owned()))])
}

#[test]
fn a_compare_status_the_forge_never_sent_is_no_answer() {
    assert_eq!(carried(&status("identical")), Some(true));
    assert_eq!(carried(&status("ahead")), Some(true));
    assert_eq!(carried(&status("behind")), Some(false));
    assert_eq!(carried(&status("diverged")), Some(false));
    assert_eq!(carried(&status("sideways")), None);
    assert_eq!(carried(&Json::Object(Vec::new())), None);
    assert_eq!(carried(&Json::Array(Vec::new())), None);
}

#[test]
fn a_listing_names_its_first_commit() {
    let row = |sha: &str| Json::Object(vec![("sha".to_owned(), Json::Text(sha.to_owned()))]);
    assert_eq!(first_listed(&Json::Array(vec![row("a"), row("b")])).as_deref(), Some("a"));
    assert_eq!(first_listed(&Json::Array(Vec::new())), None);
    assert_eq!(first_listed(&row("a")), None);
}

#[test]
fn a_blank_path_asks_nothing_and_the_first_answer_is_taken() {
    assert_eq!(landing_step(None, "", Some("a")), Landing::Keep, "a blank path would ask about the whole repository");
    assert_eq!(landing_step(None, "src", None), Landing::Keep);
    assert_eq!(landing_step(None, "src", Some("a")), Landing::Take);
    assert_eq!(landing_step(Some("a"), "docs", Some("a")), Landing::Keep);
    assert_eq!(landing_step(Some("a"), "docs", Some("b")), Landing::Ask);
}
