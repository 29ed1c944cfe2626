use batten::lease::exchange::{
    ExchangeError, LeaseLook, deletion, lease_look, observation, object_answer, object_request, observed_from, pack_answer, qualified, swap_request, want_of,
};
use batten::lease::{
    Advertisement, Body, LeaseError, Observed, Terms, ZERO, lease_object, objects_in, pack_of, parse_body, pkt_split,
    pktline,
};

fn advertisement(refs: &[(&str, &str)]) -> Advertisement {
    Advertisement {
        refs: refs.iter().map(|(n, i)| ((*n).to_owned(), (*i).to_owned())).collect(),
        capabilities: Vec::new(),
    }
}

fn answer_carrying(objects: &[batten::lease::Object]) -> Vec<u8> {
    let mut body = pktline("NAK\n").expect("frame");
    body.extend_from_slice(&pack_of(objects).expect("pack"));
    body
}

#[test]
fn a_short_name_is_a_branch_and_a_full_name_stays_as_it_is() {
    assert_eq!(qualified("main"), "refs/heads/main");
    assert_eq!(qualified("feature/x"), "refs/heads/feature/x");
    assert_eq!(qualified("refs/tags/v1"), "refs/tags/v1");
}

#[test]
fn a_fetch_wants_what_the_remote_advertises_under_the_full_name() {
    let sha = "1111111111111111111111111111111111111111";
    let adv = advertisement(&[("refs/heads/main", sha)]);
    assert_eq!(want_of(&adv, "main"), Ok(sha.to_owned()));
    assert_eq!(want_of(&adv, "refs/heads/main"), Ok(sha.to_owned()));
    assert_eq!(
        want_of(&adv, "other"),
        Err(ExchangeError::NotAdvertised("refs/heads/other".to_owned()))
    );
    let zeroed = advertisement(&[("refs/heads/main", ZERO)]);
    assert!(want_of(&zeroed, "main").is_err());
}

#[test]
fn an_answer_other_than_200_is_could_not_look() {
    assert_eq!(
        pack_answer(500, b""),
        Err(ExchangeError::Wire(LeaseError::Status(500)))
    );
}

#[test]
fn an_answer_carries_the_pack_after_its_negotiation() {
    let object = lease_object("holder: a\n", 1_700_000_000).expect("mint");
    let body = answer_carrying(std::slice::from_ref(&object));
    assert_eq!(pack_answer(200, &body), Ok(vec![object.clone()]));
    let (_, tail) = pkt_split(&body).expect("split");
    assert_eq!(objects_in(&body[tail..]).expect("unpack"), vec![object]);
}

#[test]
fn an_answer_that_is_not_a_pack_is_could_not_look() {
    let body = pktline("NAK\n").expect("frame");
    assert!(matches!(pack_answer(200, &body), Err(ExchangeError::Pack(_))));
}

#[test]
fn the_object_asked_for_is_the_one_returned_and_no_other_will_do() {
    let asked = lease_object("holder: a\n", 1_700_000_000).expect("mint");
    let other = lease_object("holder: b\n", 1_700_000_000).expect("mint");
    let body = answer_carrying(&[other.clone(), asked.clone()]);
    assert_eq!(object_answer(&asked.id, 200, &body), Ok(asked.clone()));
    let only_other = answer_carrying(std::slice::from_ref(&other));
    assert_eq!(object_answer(&asked.id, 200, &only_other), Err(ExchangeError::NotCarried));
}

#[test]
fn an_object_request_is_a_want_a_flush_and_done() {
    let id = "2222222222222222222222222222222222222222";
    let mut expected = pktline(&format!("want {id} no-progress\n")).expect("frame");
    expected.extend_from_slice(b"0000");
    expected.extend_from_slice(&pktline("done\n").expect("frame"));
    assert_eq!(object_request(id), Ok(expected));
}

#[test]
fn a_ref_that_carries_no_lease_body_is_garbage_rather_than_free() {
    let body = Body {
        holder: "host-1".to_owned(),
        expires: 1_700_000_060,
        nonce: "deadbeefdeadbeef".to_owned(),
        ..Body::default()
    };
    let lease = lease_object(&body.render(), 1_700_000_000).expect("mint");
    assert_eq!(
        observed_from("abc", &lease.body),
        Observed::Held { sha: "abc".to_owned(), body }
    );
    let foreign = lease_object("some other commit\n", 1_700_000_000).expect("mint");
    assert_eq!(
        observed_from("def", &foreign.body),
        Observed::Garbage { sha: "def".to_owned(), why: "the ref carries no lease body".to_owned() }
    );
}

#[test]
fn a_swap_from_an_absent_lease_expects_the_zero_id_and_carries_the_new_object() {
    let terms = Terms::default();
    let body = Body {
        holder: "host-1".to_owned(),
        expires: 1_700_000_060,
        nonce: "deadbeefdeadbeef".to_owned(),
        ..Body::default()
    };
    let request = swap_request(&terms, &Observed::Absent, &body, 1_700_000_000).expect("request");
    let object = lease_object(&body.render(), 1_700_000_000).expect("mint");
    let command = format!("{ZERO} {} refs/heads/batten-land-lock\0report-status\n", object.id);
    let (lines, tail) = pkt_split(&request).expect("split");
    assert_eq!(lines, vec![command]);
    let objects = objects_in(&request[tail..]).expect("unpack");
    assert_eq!(objects, vec![object]);
    assert_eq!(parse_body(&objects[0].body), Some(body.clone()));

    let held = Observed::Held { sha: "abc".to_owned(), body: body.clone() };
    let renewed = swap_request(&terms, &held, &body, 1_700_000_000).expect("request");
    let (lines, _) = pkt_split(&renewed).expect("split");
    assert!(lines[0].starts_with("abc "));
}

#[test]
fn an_unadvertised_lease_is_absent_and_a_failed_fetch_is_never_absent() {
    let sha = "aaaaaaaaaaaaaaaaaaaaaaaaaaaaaaaaaaaaaaaa";
    let adv = advertisement(&[("refs/heads/main", "bbbbbbbbbbbbbbbbbbbbbbbbbbbbbbbbbbbbbbbb"), ("refs/heads/batten-land-lock", sha)]);
    assert_eq!(lease_look(&adv, "refs/heads/batten-land-lock"), LeaseLook::Fetch(sha.to_owned()));
    assert_eq!(lease_look(&adv, "refs/heads/other"), LeaseLook::Absent);
    assert_eq!(
        observation(sha, Err(ExchangeError::NotCarried)),
        Err(ExchangeError::NotCarried)
    );
    assert_eq!(
        observation(sha, Ok(b"not a lease".to_vec())),
        Ok(Observed::Garbage { sha: sha.to_owned(), why: "the ref carries no lease body".to_owned() })
    );
}

#[test]
fn deleting_a_ref_already_gone_asks_nothing() {
    let adv = advertisement(&[("refs/heads/scratch", "cccccccccccccccccccccccccccccccccccccccc")]);
    assert!(deletion(&adv, "refs/heads/gone").is_none());
    let zeroed = advertisement(&[("refs/heads/scratch", ZERO)]);
    assert!(deletion(&zeroed, "refs/heads/scratch").is_none());
    let update = deletion(&adv, "refs/heads/scratch").expect("a live ref is deleted by a swap");
    assert_eq!(update.old, "cccccccccccccccccccccccccccccccccccccccc");
    assert_eq!(update.new, ZERO);
    assert_eq!(update.name, "refs/heads/scratch");
}
