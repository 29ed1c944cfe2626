use batten::lease::rules::reads_forge;
use batten::lease::{
    nonce_from,
    Asked, Authority, Bail, Body, Carries, Guarded, Health, Object, ObjectKind, Observed, Outcome,
    Progress, Service, Terms, TermsMissing, Turn, Update, ZERO, adjudicate, authorises,
    authorises_this_clone, bail, claim, decide, guard, health, holder_alive, lands_by_fast_forward, lease_object,
    nonce, objects_in, pack_of, parse_advertisement, parse_body, parse_report, pkt_split, pktline,
    pktlines, positive_secs, progress_in, query_value, receive_pack_body, renewal, reservation,
    terms_from, tombstone, turn, upload_pack_request,
};

fn framed(lines: &[&str]) -> Vec<u8> {
    let mut body = Vec::new();
    for line in lines {
        if line.is_empty() {
            body.extend_from_slice(b"0000");
        } else {
            body.extend_from_slice(&pktline(line).expect("frame"));
        }
    }
    body
}

#[test]
fn the_exemption_is_a_prefix_on_the_branch_and_not_a_substring() {
    let lanes = vec![String::from("lane/"), String::from("cut-")];
    assert!(lands_by_fast_forward("lane/bump-x", &lanes));
    assert!(lands_by_fast_forward("cut-v1.2.3", &lanes));
    assert!(lands_by_fast_forward("refs/heads/lane/bump-x", &lanes));
    assert!(
        !lands_by_fast_forward("fix/not-lane/bump-x", &lanes),
        "a mention mid-ref is not the lander's branch"
    );
    assert!(!lands_by_fast_forward("main", &lanes));
}

#[test]
fn nothing_declared_exempts_nothing_and_a_blank_row_exempts_nothing_either() {
    assert!(!lands_by_fast_forward("lane/bump-x", &[]));
    assert!(!lands_by_fast_forward("lane/bump-x", &[String::new(), String::new()]));
}

#[test]
fn only_one_leading_refs_heads_is_removed() {
    let lanes = vec![String::from("lane/")];
    assert!(!lands_by_fast_forward("refs/heads/refs/heads/lane/x", &lanes));
}

#[test]
fn a_flush_is_a_delimiter_and_never_a_payload() {
    let body = framed(&["one\n", "", "two\n"]);
    assert_eq!(pktlines(&body).expect("parse"), vec!["one\n", "two\n"]);
}

#[test]
fn a_truncated_line_is_could_not_look_rather_than_a_short_read() {
    let body = b"0010ab";
    assert!(pktlines(body).is_err());
}

#[test]
fn a_truncated_line_names_how_short_it_is() {
    assert_eq!(
        pktlines(b"0010ab"),
        Err(batten::lease::LeaseError::ShortLine(10))
    );
}

#[test]
fn a_line_framed_is_four_hex_digits_of_its_whole_length_then_the_payload() {
    assert_eq!(pktline("done\n").expect("frame"), b"0009done\n".to_vec());
    assert!(pktline("").is_err());
}

#[test]
fn a_non_git_body_does_not_parse_as_an_empty_ref_set() {
    let err = parse_advertisement(b"<html>nope</html>", Service::ReceivePack);
    assert!(err.is_err());
}

#[test]
fn the_advertisement_yields_refs_and_capabilities() {
    let body = framed(&[
        "# service=git-receive-pack\n",
        "",
        "1111111111111111111111111111111111111111 refs/heads/main\0report-status atomic\n",
        "2222222222222222222222222222222222222222 refs/heads/batten-land-lock\n",
        "",
    ]);
    let advertisement = parse_advertisement(&body, Service::ReceivePack).expect("parse");
    assert_eq!(
        advertisement
            .id_of("refs/heads/batten-land-lock")
            .map(String::as_str),
        Some("2222222222222222222222222222222222222222")
    );
    assert!(advertisement.capabilities.iter().any(|c| c == "report-status"));
}

#[test]
fn an_absent_ref_reads_as_zero_for_the_swap_and_stays_absent_in_the_map() {
    let body = framed(&["# service=git-receive-pack\n", "", ""]);
    let advertisement = parse_advertisement(&body, Service::ReceivePack).expect("parse");
    assert_eq!(advertisement.head_of("refs/heads/batten-land-lock"), ZERO);
    assert!(advertisement.id_of("refs/heads/batten-land-lock").is_none());
}

#[test]
fn an_advertisement_for_the_other_service_is_refused() {
    let body = framed(&["# service=git-upload-pack\n", ""]);
    assert_eq!(
        parse_advertisement(&body, Service::ReceivePack),
        Err(batten::lease::LeaseError::NotAnnounced)
    );
    assert_eq!(
        parse_advertisement(b"", Service::ReceivePack),
        Err(batten::lease::LeaseError::EmptyAdvertisement)
    );
}

#[test]
fn a_non_200_discovery_is_could_not_look() {
    let body = framed(&["# service=git-receive-pack\n", ""]);
    assert_eq!(
        batten::lease::advertise(403, &body, Service::ReceivePack),
        Err(batten::lease::LeaseError::Status(403))
    );
    assert!(batten::lease::advertise(200, &body, Service::ReceivePack).is_ok());
}

#[test]
fn the_urls_drop_trailing_slashes() {
    assert_eq!(
        batten::lease::discovery_url("https://h/r.git//", Service::UploadPack),
        "https://h/r.git/info/refs?service=git-upload-pack"
    );
    assert_eq!(
        batten::lease::service_url("https://h/r.git/", Service::ReceivePack),
        "https://h/r.git/git-receive-pack"
    );
}

#[test]
fn the_command_carries_both_sides_and_asks_for_a_report() {
    let update = Update {
        old: String::from("1111111111111111111111111111111111111111"),
        new: String::from("2222222222222222222222222222222222222222"),
        name: String::from("refs/heads/batten-land-lock"),
    };
    assert_eq!(
        update.command(),
        "1111111111111111111111111111111111111111 2222222222222222222222222222222222222222 refs/heads/batten-land-lock\0report-status\n"
    );
}

#[test]
fn a_good_report_is_applied() {
    let body = framed(&["unpack ok\n", "ok refs/heads/batten-land-lock\n", ""]);
    assert_eq!(parse_report(&body).expect("parse"), Outcome::Applied);
}

#[test]
fn a_lost_race_is_rejected_rather_than_an_error() {
    let body = framed(&[
        "unpack ok\n",
        "ng refs/heads/batten-land-lock fetch first\n",
        "",
    ]);
    assert_eq!(
        parse_report(&body).expect("parse"),
        Outcome::Rejected {
            reason: String::from("refs/heads/batten-land-lock fetch first"),
        }
    );
}

#[test]
fn a_report_with_no_unpack_status_is_could_not_look() {
    let body = framed(&["ok refs/heads/batten-land-lock\n", ""]);
    assert!(parse_report(&body).is_err());
}

#[test]
fn a_bad_unpack_is_a_rejection_naming_it() {
    let body = framed(&["unpack index-pack failed\n", ""]);
    assert_eq!(
        parse_report(&body).expect("parse"),
        Outcome::Rejected {
            reason: String::from("unpack index-pack failed"),
        }
    );
    assert_eq!(
        batten::lease::swap(500, &body),
        Err(batten::lease::LeaseError::Status(500))
    );
}

fn body(holder: &str, expires: i64, progress: &str) -> Observed {
    Observed::Held {
        sha: String::from("1111111111111111111111111111111111111111"),
        body: Body {
            holder: holder.to_owned(),
            expires,
            progress: progress.to_owned(),
            ..Body::default()
        },
    }
}

fn with_successor(holder: &str, expires: i64, next: &str) -> Observed {
    Observed::Held {
        sha: String::from("1111111111111111111111111111111111111111"),
        body: Body {
            holder: holder.to_owned(),
            expires,
            next: next.to_owned(),
            ..Body::default()
        },
    }
}

#[test]
fn every_health_state_names_the_admitted_successor() {
    let terms = Terms::default();
    let now = 1000;

    let held = health(&with_successor("mine", now + 60, "theirs"), &terms, now);
    assert!(
        format!("{held:?}").contains("theirs admitted behind it"),
        "a held lease names who is behind it: {held:?}"
    );

    let released = health(&with_successor("mine", 0, "theirs"), &terms, now);
    assert!(
        format!("{released:?}").contains("theirs admitted behind it"),
        "a RELEASED lease still names who was admitted: {released:?}"
    );

    let lapsed = health(&with_successor("mine", now - 5, "theirs"), &terms, now);
    assert!(
        format!("{lapsed:?}").contains("theirs admitted behind it"),
        "a LAPSED lease names the successor it left behind: {lapsed:?}"
    );

    let wedged = health(
        &with_successor("mine", now + terms.ttl + 60, "theirs"),
        &terms,
        now,
    );
    assert!(
        format!("{wedged:?}").contains("theirs admitted behind it"),
        "a WEDGED lease names the successor too, and still fails: {wedged:?}"
    );
    assert!(
        matches!(wedged, Health::Wedged(_)),
        "and naming it does not soften the outcome, got {wedged:?}"
    );
}

#[test]
fn a_lease_with_no_successor_renders_byte_identically() {
    let terms = Terms::default();
    let now = 1000;
    for (expires, what) in [
        (now + 60, "held"),
        (0, "released"),
        (now - 5, "lapsed"),
        (now + terms.ttl + 60, "wedged"),
    ] {
        let rendered = format!(
            "{:?}",
            health(&with_successor("mine", expires, ""), &terms, now)
        );
        assert!(
            !rendered.contains("admitted behind it"),
            "{what} with no successor must read exactly as it did before: {rendered}"
        );
    }
}

#[test]
fn a_lease_at_exactly_one_ttl_is_the_longest_legitimate_hold() {
    let terms = Terms::default();
    let now = 1000;
    assert!(matches!(
        health(&with_successor("mine", now + terms.ttl, ""), &terms, now),
        Health::Held(_)
    ));
    assert!(matches!(
        health(&with_successor("mine", now + terms.ttl + 1, ""), &terms, now),
        Health::Wedged(_)
    ));
}

fn at(expires: i64, holder: &str) -> Observed {
    Observed::Held {
        sha: String::from("1111111111111111111111111111111111111111"),
        body: Body {
            holder: holder.to_owned(),
            expires,
            ..Body::default()
        },
    }
}

#[test]
fn the_three_free_states_are_all_healthy_and_all_distinguishable() {
    let terms = Terms::default();
    assert!(matches!(
        health(&Observed::Absent, &terms, 1000),
        Health::Free(_)
    ));
    let Health::Free(released) = health(&at(0, "a"), &terms, 1000) else {
        panic!("a tombstone is free");
    };
    assert!(released.contains("released"), "got: {released}");
    let Health::Free(lapsed) = health(&at(900, "a"), &terms, 1000) else {
        panic!("a lapsed lease is free");
    };
    assert!(lapsed.contains("lapsed by a 100s ago"), "got: {lapsed}");
}

#[test]
fn a_horizon_beyond_one_term_is_wedged() {
    let terms = Terms::default();
    assert!(matches!(
        health(&at(1000 + terms.ttl, "a"), &terms, 1000),
        Health::Held(_)
    ));
    assert!(matches!(
        health(&at(1000 + terms.ttl + 1, "a"), &terms, 1000),
        Health::Wedged(_)
    ));
}

#[test]
fn a_held_lease_reads_its_seconds_left() {
    assert_eq!(
        health(&at(1060, "a"), &Terms::default(), 1000),
        Health::Held(String::from("held by a, 60s left"))
    );
}

#[test]
fn an_expiry_whose_arithmetic_will_not_close_is_wedged_rather_than_a_panic() {
    assert!(matches!(
        health(&at(i64::MIN, "a"), &Terms::default(), 1000),
        Health::Wedged(_)
    ));
}

#[test]
fn a_ref_that_is_not_a_lease_is_garbage_rather_than_a_hold() {
    let garbage = Observed::Garbage {
        sha: String::from("2222222222222222222222222222222222222222"),
        why: String::from("the ref carries no lease body"),
    };
    let decision = health(&garbage, &Terms::default(), 1000);
    assert!(matches!(decision, Health::Garbage(_)));
    assert!(!decision.healthy());
}

#[test]
fn a_lease_nobody_can_release_is_garbage_whatever_its_expiry_says() {
    assert!(matches!(
        health(&at(1_000_000, ""), &Terms::default(), 1000),
        Health::Garbage(_)
    ));
}

#[test]
fn garbage_is_waited_out_rather_than_taken() {
    let garbage = Observed::Garbage {
        sha: String::from("2222222222222222222222222222222222222222"),
        why: String::from("the ref carries no lease body"),
    };
    assert_eq!(
        turn(&Terms::default(), &garbage, "me", 10_000, 10_000, 60, 1000),
        Turn::Wait
    );
}

#[test]
fn garbage_still_lets_the_fleet_run() {
    let garbage = Observed::Garbage {
        sha: String::from("2222222222222222222222222222222222222222"),
        why: String::from("the ref carries no lease body"),
    };
    assert!(matches!(
        authorises(Some(&garbage), "feature/x", 1000),
        Authority::Run(_)
    ));
}

#[test]
fn a_land_that_never_registered_is_not_a_stall() {
    assert_eq!(bail(None, &Terms::default(), 60, 3, 1_000_000), Bail::Hold);
}

#[test]
fn a_land_that_stopped_advancing_is_stopped() {
    let terms = Terms::default();
    let progress = Progress {
        advance: 1000,
        tick_at: 1000,
    };
    assert_eq!(
        bail(Some(progress), &terms, 60, 3, 1000 + 60 * terms.beat),
        Bail::Stop(String::from("has not advanced in 60 beats"))
    );
    assert_eq!(
        bail(Some(progress), &terms, 60, 3, 1000 + 60 * terms.beat - 1),
        Bail::Hold
    );
}

#[test]
fn the_hang_bound_applies_only_while_a_loop_is_ticking() {
    let terms = Terms::default();
    let quiet = Progress {
        advance: 1000,
        tick_at: 0,
    };
    let now = 1000 + 10 * terms.beat;
    assert_eq!(bail(Some(quiet), &terms, 60, 3, now), Bail::Hold);
    let ticking = Progress {
        advance: 1000,
        tick_at: 1001,
    };
    assert_eq!(
        bail(Some(ticking), &terms, 60, 3, 1001 + 3 * terms.beat),
        Bail::Stop(String::from("stopped turning 3 beats ago"))
    );
}

#[test]
fn a_live_lease_authorises_its_holder_and_nobody_else() {
    let now = 1000;
    let live = body("mine", now + 60, "");
    assert!(authorises_this_clone(&live, "mine", now), "the holder may spend");
    assert!(
        !authorises_this_clone(&live, "theirs", now),
        "AND A RIVAL MAY NOT — the arm the whole verdict exists for"
    );
}

#[test]
fn a_lease_that_holds_nothing_authorises_every_clone() {
    let now = 1000;
    assert!(authorises_this_clone(&Observed::Absent, "anyone", now));
    assert!(
        authorises_this_clone(&body("theirs", 0, ""), "anyone", now),
        "a tombstone is a DECLARATION, and `0` is its sentinel rather than an instant"
    );
    assert!(
        authorises_this_clone(&body("theirs", now, ""), "anyone", now),
        "zero seconds left is none left — the `>=` the expiry comparison uses"
    );
}

#[test]
fn a_lease_nobody_can_parse_authorises_nobody() {
    assert!(
        !authorises_this_clone(
            &Observed::Garbage {
                sha: String::from("1111111111111111111111111111111111111111"),
                why: String::from("the ref carries no lease body"),
            },
            "anyone",
            1000
        ),
        "an unparseable lease must not read as free"
    );
}

#[test]
fn a_progress_token_is_the_pair_and_nothing_interpreted() {
    assert_eq!(
        Progress {
            advance: 100,
            tick_at: 200
        }
        .token(),
        "100.200"
    );
}

#[test]
fn a_registry_entry_with_no_usable_stamp_is_no_evidence() {
    assert_eq!(
        progress_in("task: land\npid: 4242\nphase_since: 0\nsig_at: 0\ntick_at: 0\n"),
        None
    );
}

#[test]
fn the_advance_is_the_later_of_the_two_ways_to_move() {
    assert_eq!(
        progress_in("phase_since: 100\nsig_at: 700\ntick_at: 900\n"),
        Some(Progress {
            advance: 700,
            tick_at: 900
        })
    );
}

#[test]
fn an_absent_lease_is_taken_without_corroboration() {
    assert!(matches!(
        turn(&Terms::default(), &Observed::Absent, "me", 0, 0, 60, 100),
        Turn::Take(_)
    ));
}

#[test]
fn a_released_lease_is_taken_without_corroboration() {
    assert!(matches!(
        turn(&Terms::default(), &body("them", 0, ""), "me", 0, 0, 60, 100),
        Turn::Take(_)
    ));
}

#[test]
fn an_expired_lease_is_not_taken_until_its_sha_has_sat_a_beat() {
    let terms = Terms::default();
    assert_eq!(
        turn(&terms, &body("them", 100, ""), "me", terms.beat - 1, 0, 60, 200),
        Turn::Wait
    );
    assert!(matches!(
        turn(&terms, &body("them", 100, ""), "me", terms.beat, 0, 60, 200),
        Turn::Take(_)
    ));
}

#[test]
fn a_taken_lapsed_lease_says_how_long_ago_it_lapsed() {
    let terms = Terms::default();
    assert_eq!(
        turn(&terms, &body("them", 100, ""), "me", terms.beat, 0, 60, 200),
        Turn::Take(String::from("took the lease 100s after them stopped holding it"))
    );
}

#[test]
fn a_beating_but_stalled_lease_is_stealable() {
    let terms = Terms::default();
    assert!(matches!(
        turn(
            &terms,
            &body("them", 100_000, "1.2"),
            "me",
            0,
            60 * terms.beat,
            60,
            200
        ),
        Turn::Take(_)
    ));
}

#[test]
fn a_lease_carrying_no_progress_token_is_never_stall_stealable() {
    let terms = Terms::default();
    assert_eq!(
        turn(
            &terms,
            &body("them", 100_000, ""),
            "me",
            0,
            1_000_000,
            60,
            200
        ),
        Turn::Wait
    );
}

#[test]
fn a_live_lease_of_this_clones_own_is_not_re_taken() {
    assert_eq!(
        turn(&Terms::default(), &body("me", 100_000, ""), "me", 0, 0, 60, 200),
        Turn::Mine
    );
}

#[test]
fn this_clones_own_expired_lease_is_taken_rather_than_assumed() {
    let terms = Terms::default();
    assert!(matches!(
        turn(&terms, &body("me", 100, ""), "me", terms.beat, 0, 60, 200),
        Turn::Take(_)
    ));
}

#[test]
fn a_claim_does_not_carry_the_previous_holders_successor() {
    let terms = Terms::default();
    let claimed = claim(&terms, "host-2-bb", "feature/b", "3333", 1_700_000_000);
    assert!(claimed.next.is_empty());
    assert_eq!(claimed.expires, 1_700_000_000 + terms.ttl);
}

#[test]
fn a_renewal_carries_the_successor_a_waiter_wrote() {
    let terms = Terms::default();
    let body = Body {
        holder: String::from("host-1-aa"),
        expires: 1_700_000_060,
        branch: String::from("feature/a"),
        next: String::from("feature/b"),
        progress: String::from("100.200"),
        ..Body::default()
    };
    let renewed = renewal(&terms, &body, None, 1_700_000_030);
    assert_eq!(renewed.next, "feature/b");
    assert_eq!(renewed.progress, "100.200");
    assert_eq!(renewed.holder, "host-1-aa");
    assert_eq!(renewed.expires, 1_700_000_030 + terms.ttl);
}

#[test]
fn a_renewal_takes_a_progress_token_it_is_given() {
    let renewed = renewal(
        &Terms::default(),
        &Body {
            progress: String::from("1.2"),
            ..Body::default()
        },
        Some("3.4"),
        0,
    );
    assert_eq!(renewed.progress, "3.4");
}

#[test]
fn a_reservation_moves_one_field_and_leaves_the_holder_holding() {
    let body = Body {
        holder: String::from("host-1-aa"),
        expires: 1_700_000_060,
        branch: String::from("feature/a"),
        head: String::from("2222"),
        progress: String::from("100.200"),
        nonce: String::from("aaaaaaaaaaaaaaaa"),
        next: String::new(),
    };
    let reserved = reservation(&body, "feature/b");
    assert_eq!(reserved.next, "feature/b");
    assert_eq!(reserved.holder, body.holder);
    assert_eq!(reserved.expires, body.expires);
    assert_eq!(reserved.branch, body.branch);
    assert_eq!(reserved.head, body.head);
    assert_eq!(reserved.progress, body.progress);
    assert_ne!(reserved.nonce, body.nonce);
}

#[test]
fn a_tombstone_is_a_declaration_rather_than_an_instant() {
    let body = Body {
        holder: String::from("host-1-aa"),
        expires: 1_700_000_060,
        branch: String::from("feature/a"),
        nonce: String::from("aaaaaaaaaaaaaaaa"),
        ..Body::default()
    };
    let dead = tombstone(&body);
    assert_eq!(dead.expires, 0);
    assert!(dead.released());
    assert_eq!(dead.branch, "feature/a");
    assert_ne!(dead.nonce, body.nonce);
}

#[test]
fn two_nonces_from_one_process_differ() {
    assert_ne!(nonce(), nonce());
}

#[test]
fn a_nonce_is_sixteen_hex_characters() {
    let n = nonce();
    assert_eq!(n.len(), 16);
    assert!(n.chars().all(|c| c.is_ascii_hexdigit() && !c.is_ascii_uppercase()));
}

fn held(branch: &str, next: &str, expires: i64) -> Observed {
    Observed::Held {
        sha: String::from("1111111111111111111111111111111111111111"),
        body: Body {
            holder: String::from("host-1-aa"),
            expires,
            branch: branch.to_owned(),
            next: next.to_owned(),
            ..Body::default()
        },
    }
}

#[test]
fn a_lease_that_cannot_be_read_lets_the_fleet_run() {
    assert!(matches!(authorises(None, "feature/x", 100), Authority::Run(_)));
}

#[test]
fn a_lease_naming_no_branch_lets_the_fleet_run() {
    assert!(matches!(
        authorises(Some(&held("", "", 900)), "feature/x", 100),
        Authority::Run(_)
    ));
}

#[test]
fn a_lease_held_by_another_branch_stops_this_one() {
    let Authority::Stop(why) = authorises(Some(&held("feature/a", "", 900)), "feature/b", 100) else {
        panic!("a held lease must stop a branch it does not name");
    };
    assert_eq!(why, "the lease authorises feature/a, not feature/b");
}

#[test]
fn the_admitted_successor_runs_beside_the_holder() {
    assert!(matches!(
        authorises(Some(&held("feature/a", "feature/b", 900)), "feature/b", 100),
        Authority::Run(_)
    ));
}

#[test]
fn a_released_lease_authorises_everyone_without_consulting_the_clock() {
    let lease = held("feature/a", "", 0);
    assert!(matches!(
        authorises(Some(&lease), "feature/b", 0),
        Authority::Run(_)
    ));
}

#[test]
fn an_expired_lease_stops_nobody() {
    assert!(matches!(
        authorises(Some(&held("feature/a", "", 100)), "feature/b", 100),
        Authority::Run(_)
    ));
}

#[test]
fn a_body_round_trips_through_its_own_rendering() {
    let body = Body {
        holder: String::from("host-1-aa"),
        expires: 1_700_000_060,
        branch: String::from("feature/x"),
        head: String::from("2222222222222222222222222222222222222222"),
        next: String::from("feature/y"),
        progress: String::from("1700000000.1700000030"),
        nonce: String::from("deadbeefdeadbeef"),
    };
    let object = lease_object(&body.render(), 1_700_000_000).expect("mint");
    assert_eq!(parse_body(&object.body), Some(body));
}

#[test]
fn a_commit_that_is_not_a_lease_does_not_parse_as_an_unheld_one() {
    let object = lease_object("some other commit\n", 1_700_000_000).expect("mint");
    assert_eq!(parse_body(&object.body), None);
}

#[test]
fn a_lease_with_no_expiry_does_not_parse() {
    let object = lease_object("land-lock\nholder: a\nnonce: bb\n", 1_700_000_000).expect("mint");
    assert_eq!(parse_body(&object.body), None);
}

#[test]
fn an_empty_advisory_field_is_a_reading_rather_than_an_absence() {
    let body = Body {
        holder: String::from("host-1-aa"),
        expires: 1_700_000_060,
        nonce: String::from("deadbeefdeadbeef"),
        ..Body::default()
    };
    let object = lease_object(&body.render(), 1_700_000_000).expect("mint");
    let read = parse_body(&object.body).expect("parse");
    assert_eq!(read, body);
    assert!(read.branch.is_empty());
}

#[test]
fn a_body_renders_one_field_per_line_with_the_nonce_last() {
    let body = Body {
        holder: String::from("h"),
        expires: -5,
        nonce: String::from("n"),
        ..Body::default()
    };
    assert_eq!(
        body.render(),
        "land-lock\nholder: h\nexpires: -5\nbranch: \nhead: \nnext: \nprogress: \nnonce: n\n"
    );
}

#[test]
fn a_lease_object_round_trips_through_a_pack() {
    let object = lease_object("holder: a\nexpires: 1\nnonce: aa\n", 1_700_000_000).expect("mint");
    let pack = pack_of(std::slice::from_ref(&object)).expect("pack");
    assert_eq!(objects_in(&pack).expect("unpack"), vec![object]);
}

#[test]
fn two_mints_differing_only_in_their_nonce_are_different_objects() {
    let one = lease_object("holder: a\nexpires: 1\nnonce: aa\n", 1_700_000_000).expect("mint");
    let two = lease_object("holder: a\nexpires: 1\nnonce: bb\n", 1_700_000_000).expect("mint");
    assert_ne!(one.id, two.id);
}

#[test]
fn a_lease_object_is_parentless_over_the_empty_tree() {
    let object = lease_object("holder: a\n", 1_700_000_000).expect("mint");
    let text = String::from_utf8_lossy(&object.body);
    assert!(!text.contains("parent "), "got: {text}");
    assert!(
        text.starts_with("tree 4b825dc642cb6eb9a060e54bf8d69288fbee4904\n"),
        "got: {text}"
    );
}

#[test]
fn a_lease_object_is_the_commit_git_would_write() {
    let object = lease_object("m\n", 1_700_000_000).expect("mint");
    assert_eq!(
        String::from_utf8_lossy(&object.body),
        "tree 4b825dc642cb6eb9a060e54bf8d69288fbee4904\nauthor batten <batten@localhost> 1700000000 +0000\ncommitter batten <batten@localhost> 1700000000 +0000\n\nm\n"
    );
    assert_eq!(object.kind, ObjectKind::Commit);
    assert_eq!(object.id.len(), 40);
}

#[test]
fn a_pack_carrying_the_commits_closure_still_yields_the_commit() {
    let commit = lease_object("land-lock\nholder: a\nexpires: 1\n", 1_700_000_000).expect("mint");
    let tree = Object {
        id: String::from("4b825dc642cb6eb9a060e54bf8d69288fbee4904"),
        kind: ObjectKind::Tree,
        body: Vec::new(),
    };
    let pack = pack_of(&[commit.clone(), tree.clone()]).expect("pack");
    let read = objects_in(&pack).expect("unpack");
    assert_eq!(read, vec![commit.clone(), tree]);
    assert!(read.iter().any(|object| object.id == commit.id));
}

#[test]
fn a_body_that_is_not_a_pack_is_could_not_look() {
    assert!(objects_in(b"not a pack at all").is_err());
}

#[test]
fn a_truncated_pack_member_is_could_not_look_rather_than_a_short_body() {
    let object = lease_object("holder: a\n", 1_700_000_000).expect("mint");
    let pack = pack_of(&[object]).expect("pack");
    assert!(objects_in(&pack[..pack.len() - 24]).is_err());
}

#[test]
fn a_pack_section_is_found_after_the_framed_one() {
    let mut body = framed(&["NAK\n"]);
    let object = lease_object("holder: a\n", 1_700_000_000).expect("mint");
    body.extend_from_slice(&pack_of(std::slice::from_ref(&object)).expect("pack"));
    let (lines, tail) = pkt_split(&body).expect("split");
    assert_eq!(lines, vec!["NAK\n"]);
    assert_eq!(objects_in(&body[tail..]).expect("unpack"), vec![object]);
}

#[test]
fn a_pack_of_another_version_is_refused_by_number() {
    let mut pack = b"PACK".to_vec();
    pack.extend_from_slice(&3u32.to_be_bytes());
    pack.extend_from_slice(&0u32.to_be_bytes());
    assert_eq!(
        objects_in(&pack),
        Err(batten::lease::PackError::Version(3))
    );
}

#[test]
fn an_empty_pack_carries_no_objects() {
    let pack = pack_of(&[]).expect("pack");
    assert_eq!(pack.len(), 12 + 20);
    assert_eq!(objects_in(&pack).expect("unpack"), Vec::new());
}

#[test]
fn the_request_body_is_commands_then_a_flush_then_the_pack() {
    let update = Update {
        old: String::from(ZERO),
        new: String::from("3333333333333333333333333333333333333333"),
        name: String::from("refs/heads/batten-land-lock"),
    };
    let body = receive_pack_body(&update, b"PACKFAKE").expect("compose");
    let text = String::from_utf8_lossy(&body);
    assert!(text.contains("refs/heads/batten-land-lock"));
    assert!(text.ends_with("0000PACKFAKE"), "got: {text}");
}

#[test]
fn the_upload_request_wants_then_flushes_then_offers_then_is_done() {
    let body = upload_pack_request("abc", &[String::from("def")]).expect("compose");
    assert_eq!(
        String::from_utf8_lossy(&body),
        "0023want abc no-progress ofs-delta\n0000000dhave def\n0009done\n"
    );
}

#[test]
fn a_query_value_escapes_everything_but_the_unreserved_set() {
    assert_eq!(query_value("a b&c/d~e"), "a%20b%26c%2Fd~e");
}

#[test]
fn terms_keep_the_term_and_fit_the_beat_inside_it() {
    let remotes = vec![(String::from("origin"), String::from("https://h/r.git"))];
    let resolved = terms_from(&remotes, "origin", Some("31"), None, None).expect("terms");
    assert_eq!(resolved.ttl, 31);
    assert_eq!(resolved.beat, 7);
    assert_eq!(resolved.remote, "https://h/r.git");
    assert_eq!(resolved.reference, "refs/heads/batten-land-lock");
    let tiny = terms_from(&remotes, "origin", Some("2"), Some("5"), Some("lock")).expect("terms");
    assert_eq!(tiny.beat, 1);
    assert_eq!(tiny.reference, "refs/heads/lock");
    assert_eq!(
        terms_from(&remotes, "upstream", None, None, None),
        Err(TermsMissing::NoRemote)
    );
    assert_eq!(positive_secs(" 0 "), None);
    assert_eq!(positive_secs(" 45 "), Some(45));
}

#[test]
fn a_missing_remote_is_said_by_name() {
    assert_eq!(
        TermsMissing::NoRemote.say("origin"),
        "no remote named origin is configured"
    );
    assert_eq!(
        TermsMissing::Unreadable(String::from("boom")).say("origin"),
        "boom"
    );
}

#[test]
fn a_recorder_column_answers_in_the_engines_table() {
    let live = with_successor("mine", 2000, "feature/b");
    assert_eq!(
        adjudicate(Asked::Successor, Some(&live), None, 1000),
        Some((0, String::from("feature/b\n")))
    );
    assert_eq!(
        adjudicate(Asked::Status, Some(&live), Some("mine"), 1000),
        Some((0, String::new()))
    );
    assert_eq!(
        adjudicate(Asked::Status, Some(&live), Some("theirs"), 1000),
        Some((2, String::new()))
    );
    assert_eq!(
        adjudicate(Asked::Status, None, Some("mine"), 1000),
        Some((3, String::new()))
    );
    let garbage = Observed::Garbage {
        sha: String::from("1"),
        why: String::from("no body"),
    };
    assert_eq!(
        adjudicate(Asked::Status, Some(&garbage), Some("mine"), 1000),
        Some((3, String::new()))
    );
}

#[test]
fn every_reading_it_could_not_take_runs_and_only_a_proven_stop_stops() {
    let unknown = Carries::Unknown {
        because: String::from("no landing paths declared"),
    };
    for (carries, authority) in [
        (&unknown, None),
        (&unknown, Some(Authority::Run(String::from("nobody holds it")))),
        (&Carries::Current, None),
    ] {
        let decision = guard(carries, authority.as_ref());
        assert!(
            matches!(decision, Guarded::Run { .. }),
            "a could-not-look must spend the matrix, got {decision:?}"
        );
    }
    assert!(matches!(
        guard(
            &Carries::Stale {
                wanted: String::from("trunksha")
            },
            None
        ),
        Guarded::Stop { .. }
    ));
    assert!(matches!(
        guard(
            &Carries::Current,
            Some(&Authority::Stop(String::from("somebody else holds it")))
        ),
        Guarded::Stop { .. }
    ));
}

#[test]
fn a_stale_head_stops_without_the_lease_being_consulted() {
    let decision = guard(
        &Carries::Stale {
            wanted: String::from("abc123"),
        },
        Some(&Authority::Run(String::from("nobody holds it"))),
    );
    match decision {
        Guarded::Stop { why } => {
            assert!(why.contains("abc123"), "the refusal names the commit: {why}");
            assert!(
                why.contains("Rebase"),
                "and the remedy, because a cancelled run has no failed step to read: {why}"
            );
        }
        Guarded::Run { why } => panic!("a stale head must not spend a matrix: {why}"),
    }
}

#[test]
fn an_unjudged_head_still_stops_on_a_lease_somebody_else_holds() {
    let unknown = Carries::Unknown {
        because: String::from("the forge did not answer"),
    };
    let decision = guard(
        &unknown,
        Some(&Authority::Stop(String::from("somebody else holds it"))),
    );
    match decision {
        Guarded::Stop { why } => {
            assert!(
                why.contains("somebody else holds it"),
                "the lease's own reason reaches the reader: {why}"
            );
            assert!(
                why.contains("not judging this head's age"),
                "and so does the reading that could not be taken: {why}"
            );
        }
        Guarded::Run { why } => {
            panic!("an unjudged head must still answer to the lease: {why}")
        }
    }
}

fn paths() -> Vec<String> {
    vec![String::from("mise-tasks/land.sh")]
}

#[test]
fn a_head_carrying_trunks_landing_commit_is_current_and_one_behind_is_stale() {
    assert_eq!(
        decide(&paths(), "headsha", Some("trunksha"), Some(true)),
        Carries::Current
    );
    assert_eq!(
        decide(&paths(), "headsha", Some("trunksha"), Some(false)),
        Carries::Stale {
            wanted: String::from("trunksha")
        },
        "the refusal names the commit the head is missing, and nothing else"
    );
}

#[test]
fn every_reading_that_could_not_be_taken_is_unknown_rather_than_a_verdict() {
    for (paths, head, wanted, ancestral) in [
        (Vec::new(), "headsha", Some("trunksha"), Some(false)),
        (paths(), "", Some("trunksha"), Some(false)),
        (paths(), "   ", Some("trunksha"), Some(false)),
        (paths(), "headsha", None, Some(false)),
        (paths(), "headsha", Some("trunksha"), None),
    ] {
        let decision = decide(&paths, head, wanted, ancestral);
        assert!(
            matches!(decision, Carries::Unknown { .. }),
            "an unreadable input must not become a decision, got {decision:?}"
        );
    }
}

#[test]
fn an_unknown_names_which_reading_was_missing() {
    let no_paths = decide(&[], "headsha", None, None);
    let no_head = decide(&paths(), "", None, None);
    assert_ne!(
        format!("{no_paths:?}"),
        format!("{no_head:?}"),
        "two different could-not-looks must not report the same reason"
    );
}

#[test]
fn a_pid_that_cannot_be_read_is_gone_rather_than_alive() {
    assert!(!holder_alive(None, "batten land"));
}

#[test]
fn a_live_holder_carries_its_marker_on_its_command_line() {
    assert!(holder_alive(Some(b"/usr/bin/batten\0land\0--fast\0"), "batten land"));
    assert!(!holder_alive(Some(b"/usr/bin/batten\0check\0"), "batten land"));
    assert!(holder_alive(Some(b"sh\0-c\0\xffbatten land"), "batten land"));
}

#[test]
fn a_drawn_nonce_is_its_bytes_in_hex_and_the_fallback_its_sixteen_digits() {
    assert_eq!(nonce_from(Some(vec![0x00, 0x01, 0x7f, 0x80, 0xab, 0xcd, 0xef, 0xff]), 7), "00017f80abcdefff");
    assert_eq!(nonce_from(None, 0x1234), "0000000000001234");
    assert_eq!(nonce_from(None, u64::MAX), "ffffffffffffffff");
    assert_eq!(batten::lease::nonce().len(), 16);
}

#[test]
fn the_staleness_read_skips_the_forge_without_paths_or_a_head() {
    assert!(!reads_forge(&[], "abc"));
    assert!(!reads_forge(&["a".to_owned()], "  "));
    assert!(reads_forge(&["a".to_owned()], " abc "));
}
