use batten::lease::local::{holder_in, minted_holder, sighting};
use batten::lease::nonce;

#[test]
fn a_first_sighting_is_zero_and_the_second_measures_from_it() {
    let (held, record) = sighting("", "abc", 100);
    assert_eq!(held, 0);
    let record = record.expect("a first sighting is recorded");
    assert_eq!(record, "abc 100\n");
    let (held, again) = sighting(&record, "abc", 130);
    assert_eq!(held, 30);
    assert_eq!(again, None, "the same value keeps its first sighting");
    let (held, changed) = sighting(&record, "def", 200);
    assert_eq!(held, 0, "a changed value restarts the clock");
    assert_eq!(changed.as_deref(), Some("def 200\n"));
}

#[test]
fn a_record_that_does_not_read_is_a_first_sighting() {
    assert_eq!(sighting("abc", "abc", 100), (0, Some("abc 100\n".to_owned())));
    assert_eq!(sighting("abc soon", "abc", 100), (0, Some("abc 100\n".to_owned())));
    assert_eq!(sighting("abc -5", "abc", i64::MAX).0, i64::MAX, "saturating rather than wrapping");
}

#[test]
fn a_holder_id_is_minted_once_and_reused() {
    assert_eq!(holder_in(""), None);
    assert_eq!(holder_in("  \n"), None);
    let (first, line) = minted_holder("host", 42, &nonce());
    assert!(first.starts_with("host-42-"));
    assert_eq!(holder_in(&line).as_deref(), Some(first.as_str()));
    assert!(!first.is_empty());
}
