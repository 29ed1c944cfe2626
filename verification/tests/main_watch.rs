use batten::json::Json;
use batten::main_watch::{head_from_body, Answer, Config, Poll};

const BASE: &str = "1111111111111111111111111111111111111111";
const MOVED: &str = "2222222222222222222222222222222222222222";

fn document(sha: Json) -> Json {
    Json::Object(vec![("object".to_owned(), Json::Object(vec![("sha".to_owned(), sha)]))])
}

/// A `200` carrying a ref document, with its validator.
fn ref_body(sha: &str) -> Answer {
    Answer {
        etag: Some("W/\"a\"".to_owned()),
        reading: true,
        head: head_from_body(&document(Json::Text(sha.to_owned()))),
    }
}

#[test]
fn a_trunk_at_the_base_is_not_movement_and_one_past_it_is() {
    let mut poll = Poll::default();
    poll.absorb(Some(&ref_body(BASE)));
    assert_eq!(poll.moved(BASE), None, "the base is where it was");
    let mut poll = Poll::default();
    poll.absorb(Some(&ref_body(MOVED)));
    assert_eq!(poll.moved(BASE), Some(MOVED), "a different sha is the branch losing its descent");
}

#[test]
fn the_second_ask_carries_the_etag_the_first_was_given() {
    let mut poll = Poll::default();
    assert_eq!(poll.etag(), None, "nothing to validate against before the first answer");
    poll.absorb(Some(&ref_body(BASE)));
    assert_eq!(poll.etag(), Some("W/\"a\""));
    poll.absorb(Some(&Answer { etag: None, reading: true, head: Some(BASE.to_owned()) }));
    assert_eq!(poll.etag(), Some("W/\"a\""), "a validator survives an answer carrying none");
}

#[test]
fn a_not_modified_response_leaves_the_previous_reading_standing() {
    let mut poll = Poll::default();
    poll.absorb(Some(&ref_body(BASE)));
    poll.absorb(Some(&Answer { etag: Some("W/\"a\"".to_owned()), reading: false, head: None }));
    assert_eq!(poll.head(), Some(BASE), "the body was not re-read");
    assert_eq!(poll.moved(BASE), None);
    assert_eq!(poll.polls(), 2, "the loop turned twice");
}

#[test]
fn an_unreadable_answer_is_never_read_as_movement() {
    let empty_object = Json::Object(vec![("object".to_owned(), Json::Object(Vec::new()))]);
    let unreadable: [Option<Answer>; 5] = [
        None,
        Some(Answer { etag: None, reading: false, head: None }),
        Some(Answer { etag: None, reading: true, head: None }),
        Some(Answer { etag: None, reading: true, head: head_from_body(&empty_object) }),
        Some(Answer { etag: None, reading: true, head: head_from_body(&document(Json::Text(String::new()))) }),
    ];
    for raw in &unreadable {
        let mut poll = Poll::default();
        poll.absorb(raw.as_ref());
        assert_eq!(poll.moved(BASE), None, "a could-not-look would cost a whole CI run if read as movement: {raw:?}");
    }
}

#[test]
fn an_empty_base_is_never_reported_as_movement() {
    let mut poll = Poll::default();
    poll.absorb(Some(&ref_body(MOVED)));
    assert_eq!(poll.moved(""), None, "there is nothing to have moved FROM, so nothing has moved");
    assert_eq!(poll.moved(BASE), Some(MOVED), "and a real base still reports movement, so the guard is not a mute");
}

#[test]
fn a_ref_document_names_its_object_sha_and_nothing_else_does() {
    assert_eq!(head_from_body(&document(Json::Text(BASE.to_owned()))).as_deref(), Some(BASE));
    assert_eq!(head_from_body(&document(Json::Number("1".to_owned()))), None);
    assert_eq!(head_from_body(&Json::Text(BASE.to_owned())), None);
}

#[test]
fn the_endpoint_is_the_trunk_ref() {
    let config = Config { repo: "o/r".to_owned(), branch: "main".to_owned(), base: BASE.to_owned(), interval: 1 };
    assert_eq!(config.endpoint(), "repos/o/r/git/ref/heads/main");
}
