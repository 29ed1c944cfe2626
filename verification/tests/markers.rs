use batten::markers::{counts, hits_in, scannable, sort_hits, validate, Hit, Marker, Read};

fn marker(id: &str, token: &str) -> Marker {
    Marker { id: id.to_owned(), token: token.to_owned(), glob: None }
}

fn get(c: &[(String, u64)], id: &str) -> Option<u64> {
    c.iter().find(|(k, _)| k == id).map(|(_, v)| *v)
}

#[test]
fn counts_report_every_configured_marker_including_zero() {
    let markers = [marker("seen", "A"), marker("unseen", "B")];
    let hits = vec![Hit::new("a.rs".to_owned(), 1, "seen".to_owned())];
    let c = counts(&markers, &hits);
    assert_eq!(get(&c, "seen"), Some(1));
    assert_eq!(get(&c, "unseen"), Some(0));
}

#[test]
fn repeated_occurrences_are_one_identity_with_a_count() {
    let markers = [marker("m", "A")];
    let hits = vec![Hit::new("a.rs".to_owned(), 1, "m".to_owned()), Hit::new("a.rs".to_owned(), 7, "m".to_owned())];
    assert_eq!(get(&counts(&markers, &hits), "m"), Some(2));
}

// ---------------------------------------------------------------------------

#[test]
fn a_marker_that_cannot_be_counted_is_a_usage_error() {
    assert_eq!(marker("", "x").validate().unwrap_err().text(), "marker: `id` must not be empty");
    assert!(marker("m", "").validate().is_err());
    let empty_glob = Marker { id: "m".to_owned(), token: "x".to_owned(), glob: Some(String::new()) };
    assert_eq!(
        empty_glob.validate().unwrap_err().text(),
        "marker m: `glob` must not be empty; omit the key to scan the whole tree"
    );
    assert!(marker("m", "x").validate().is_ok());
}

#[test]
fn a_duplicate_id_is_refused_across_the_table() {
    assert_eq!(
        validate(&[marker("m", "A"), marker("m", "B")]).unwrap_err().text(),
        "marker m: declared twice; an id is the name one count is reported under"
    );
    assert!(validate(&[marker("a", "A"), marker("b", "B")]).is_ok());
}

#[test]
fn the_two_read_failures_are_classified_apart() {
    assert_eq!(scannable(Read::NotUtf8, "binary.bin"), Ok(None));
    assert_eq!(
        scannable(Read::Failed, "locked.rs"),
        Err("cannot read locked.rs for suppression markers".to_owned())
    );
    assert_eq!(scannable(Read::Text("A\n".to_owned()), "code.rs"), Ok(Some("A\n".to_owned())));
}

#[test]
fn counts_are_ordered_by_id_and_include_unconfigured_hits() {
    let markers = [marker("zz", "Z"), marker("aa", "A")];
    let hits = vec![Hit::new("x".to_owned(), 2, "mm".to_owned()), Hit::new("y".to_owned(), 3, "aa".to_owned())];
    assert_eq!(counts(&markers, &hits), vec![("aa".to_owned(), 1), ("mm".to_owned(), 1), ("zz".to_owned(), 0)]);
}

#[test]
fn bytes_that_are_not_utf8_are_skipped_not_refused() {
    let mut hits = Vec::new();
    for (path, read) in [("binary.bin", Read::NotUtf8), ("code.rs", Read::Text("A\n".to_owned()))] {
        if let Some(text) = scannable(read, path).expect("a binary file is not an error") {
            hits.extend(hits_in(path, &text, &[marker("m", "A")]));
        }
    }
    assert_eq!(hits.len(), 1, "the marker in the readable file is still found");
    assert_eq!(hits[0].path, "code.rs");
}

#[test]
fn every_marker_a_line_contains_is_a_hit_at_its_line() {
    let markers = [marker("todo", "TODO"), marker("allow", "allow("), marker("never", "zzz")];
    let hits = hits_in("src/a.rs", "first\r\nTODO allow(x)\n\nTODO TODO\nlast", &markers);
    assert_eq!(
        hits,
        vec![
            Hit::new("src/a.rs".to_owned(), 2, "todo".to_owned()),
            Hit::new("src/a.rs".to_owned(), 2, "allow".to_owned()),
            Hit::new("src/a.rs".to_owned(), 4, "todo".to_owned()),
        ]
    );
    assert!(hits_in("b.rs", "", &markers).is_empty());
}

#[test]
fn hits_come_back_in_pointer_order_whatever_the_walk() {
    let walked = vec![
        Hit::new("b.rs".to_owned(), 1, "m".to_owned()),
        Hit::new("a.rs".to_owned(), 10, "m".to_owned()),
        Hit::new("a.rs".to_owned(), 2, "z".to_owned()),
        Hit::new("a.rs".to_owned(), 2, "a".to_owned()),
        Hit::new("a".to_owned(), 99, "m".to_owned()),
        Hit::new("a.rs".to_owned(), 10, "m".to_owned()),
    ];
    let mut expected = walked.clone();
    expected.sort();
    assert_eq!(sort_hits(walked), expected);
    assert_eq!(expected[0].path, "a");
    assert_eq!((expected[1].line, expected[1].marker.as_str()), (2, "a"));
}


#[test]
fn the_source_bakes_in_no_marker_token() {
    // The tokens are configuration: with no marker declared, no spelling a
    // real-world suppression uses is counted, and with one declared, only its
    // own token is.
    let mut text = String::new();
    for baked in [
        ["no", "qa"].concat(),
        ["no", "lint"].concat(),
        ["batten", ":allow"].concat(),
        ["batten", "-ignore"].concat(),
    ] {
        text.push_str(&format!("x = 1  # {baked}\n"));
    }
    assert!(hits_in("a.py", &text, &[]).is_empty(), "markers count nothing nobody declared");
    assert!(counts(&[], &[]).is_empty());
    let declared = [marker("mine", "# declared-here")];
    assert!(
        hits_in("a.py", &text, &declared).is_empty(),
        "marker tokens come from batten.toml, not from the library"
    );
}
