use batten::patch::{Blob, Change, Kind, identity, is_text};

fn blob(oid: &str, text: Option<&[u8]>) -> Blob {
    Blob { oid: oid.to_string(), mode: 0o100_644, text: text.map(|t| t.to_vec()) }
}

#[test]
fn renames_are_not_a_shape_this_identity_can_take() {
    let blob = Blob { oid: "0".repeat(64), mode: 0o100_644, text: Some(b"a\n".to_vec()) };
    for kind in [
        Kind::Added { blob: blob.clone() },
        Kind::Removed { blob: blob.clone() },
        Kind::Modified { before: blob.clone(), after: blob.clone() },
    ] {
        match &kind {
            Kind::Added { .. } | Kind::Removed { .. } | Kind::Modified { .. } => {}
        }
        assert!(
            identity(&mut [Change { path: b"p".to_vec(), kind }]).is_some(),
            "every shape a change can take must have an identity"
        );
    }
}

#[test]
fn an_empty_change_set_has_no_identity() {
    assert_eq!(identity(&mut []), None);
}

#[test]
fn an_identity_is_sixty_four_lower_case_hex_characters() {
    let id = identity(&mut [Change { path: b"a".to_vec(), kind: Kind::Added { blob: blob("1", None) } }])
        .expect("identity");
    assert_eq!(id.len(), 64);
    assert!(id.chars().all(|c| c.is_ascii_digit() || ('a'..='f').contains(&c)));
}

#[test]
fn the_order_changes_arrive_in_does_not_change_the_identity() {
    let a = Change { path: b"a".to_vec(), kind: Kind::Added { blob: blob("1", None) } };
    let b = Change { path: b"b".to_vec(), kind: Kind::Removed { blob: blob("2", None) } };
    let mut forward = [a.clone(), b.clone()];
    let mut backward = [b.clone(), a.clone()];
    assert_eq!(identity(&mut forward), identity(&mut backward));
    assert_eq!(backward, [a, b]);
}

#[test]
fn changes_are_left_in_the_order_they_were_hashed_in() {
    let longer = Change { path: b"ab".to_vec(), kind: Kind::Added { blob: blob("1", None) } };
    let shorter = Change { path: b"a".to_vec(), kind: Kind::Modified { before: blob("1", None), after: blob("2", None) } };
    let added = Change { path: b"a".to_vec(), kind: Kind::Added { blob: blob("3", None) } };
    let mut changes = [longer.clone(), shorter.clone(), added.clone()];
    identity(&mut changes).expect("identity");
    let mut expected = vec![longer, shorter, added];
    expected.sort();
    assert_eq!(changes.to_vec(), expected);
}

#[test]
fn a_change_and_its_exact_revert_differ() {
    let forward = Change {
        path: b"f".to_vec(),
        kind: Kind::Modified { before: blob("1", Some(b"a\n")), after: blob("2", Some(b"b\n")) },
    };
    let revert = Change {
        path: b"f".to_vec(),
        kind: Kind::Modified { before: blob("1", Some(b"b\n")), after: blob("2", Some(b"a\n")) },
    };
    assert_ne!(identity(&mut [forward]), identity(&mut [revert]));
}

#[test]
fn a_whitespace_only_change_has_its_own_identity() {
    let plain = Change {
        path: b"f".to_vec(),
        kind: Kind::Modified { before: blob("1", Some(b"a\n")), after: blob("2", Some(b"a b\n")) },
    };
    let spaced = Change {
        path: b"f".to_vec(),
        kind: Kind::Modified { before: blob("1", Some(b"a\n")), after: blob("2", Some(b"a  b\n")) },
    };
    assert_ne!(identity(&mut [plain]), identity(&mut [spaced]));
}

#[test]
fn a_binary_side_is_identified_by_its_blob_id() {
    let one = Change {
        path: b"f".to_vec(),
        kind: Kind::Modified { before: blob("1", None), after: blob("2", None) },
    };
    let other = Change {
        path: b"f".to_vec(),
        kind: Kind::Modified { before: blob("1", None), after: blob("3", None) },
    };
    assert_ne!(identity(&mut [one.clone()]), identity(&mut [other]));
    assert_eq!(identity(&mut [one.clone()]), identity(&mut [one]));
}

#[test]
fn a_chmod_is_a_change() {
    let mut executable = blob("1", None);
    executable.mode = 0o100_755;
    let before = Change { path: b"f".to_vec(), kind: Kind::Added { blob: blob("1", None) } };
    let after = Change { path: b"f".to_vec(), kind: Kind::Added { blob: executable } };
    assert_ne!(identity(&mut [before]), identity(&mut [after]));
}

#[test]
fn a_nul_byte_makes_a_blob_binary() {
    assert!(is_text(b"plain text\n"));
    assert!(is_text(b""));
    assert!(!is_text(b"a\0b"));
}
