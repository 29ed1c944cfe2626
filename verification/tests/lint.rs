use batten::lint::{admissions, declared, groom, line_of, Admission, Groom, Smell, Where};

fn smell(id: &'static str, key: &str) -> Smell {
    Smell { at: Where::Key(key.to_owned()), id }
}

fn pairs(of: &[&str]) -> Vec<String> {
    let mut v: Vec<String> = of.iter().map(|s| (*s).to_owned()).collect();
    v.sort();
    v.dedup();
    v
}

#[test]
fn a_groom_that_looked_and_named_nothing_refuses_the_trailer() {
    let found = [smell("waiver-added", "waiver[x]")];
    let admitted = admissions(&found, &pairs(&["waiver-added waiver[x]"]), &Groom::Read(Vec::new()));
    assert_eq!(admitted[0].1, Admission::Refused);
}

#[test]
fn no_receipt_at_all_lets_the_trailer_admit_because_that_is_ci() {
    let found = [smell("waiver-added", "waiver[x]")];
    let admitted = admissions(&found, &pairs(&["waiver-added waiver[x]"]), &Groom::Unreadable);
    assert_eq!(admitted[0].1, Admission::TrailerAlone);
}

#[test]
fn a_groom_naming_the_pair_admits_it() {
    let found = [smell("waiver-added", "waiver[x]")];
    let admitted = admissions(
        &found,
        &pairs(&["waiver-added waiver[x]"]),
        &Groom::Read(pairs(&["waiver-added waiver[x]"])),
    );
    assert_eq!(admitted[0].1, Admission::Groomed);
}

#[test]
fn a_groom_naming_a_different_pair_refuses_this_one() {
    let found = [smell("waiver-added", "waiver[x]")];
    let admitted = admissions(
        &found,
        &pairs(&["waiver-added waiver[x]"]),
        &Groom::Read(pairs(&["waiver-added waiver[y]"])),
    );
    assert_eq!(admitted[0].1, Admission::Refused);
}

#[test]
fn a_groom_alone_admits_nothing_without_a_trailer() {
    let found = [smell("waiver-added", "waiver[x]")];
    let admitted = admissions(&found, &[], &Groom::Read(pairs(&["waiver-added waiver[x]"])));
    assert_eq!(admitted[0].1, Admission::Refused);
}

#[test]
fn one_unadmitted_smell_leaves_the_others_admitted() {
    let found = [smell("waiver-added", "waiver[x]"), smell("rule-predicate-changed", "rule[r].tools")];
    let admitted = admissions(
        &found,
        &pairs(&["waiver-added waiver[x]"]),
        &Groom::Read(pairs(&["waiver-added waiver[x]"])),
    );
    assert_eq!(admitted[0].1, Admission::Groomed);
    assert_eq!(admitted[1].1, Admission::Refused);
}

#[test]
fn the_receipts_issue_key_is_provenance_and_not_part_of_the_pair() {
    let body = "CLOUD-1\nready-lint pass\nweakens CLOUD-1 waiver-added waiver[x]\n";
    assert_eq!(groom(Some(body)), Groom::Read(pairs(&["waiver-added waiver[x]"])));
    assert_eq!(groom(None), Groom::Unreadable);
}

// ---------------------------------------------------------------------------

#[test]
fn a_smell_points_at_a_line_or_a_key() {
    assert_eq!(Smell { at: Where::Line(3), id: "empty-protected-set" }.line_text(), "batten.toml:3 empty-protected-set");
    assert_eq!(smell("protected-removed", "protected[a]").line_text(), "batten.toml:protected[a] protected-removed");
}

#[test]
fn a_receipt_that_names_nothing_is_an_empty_read_not_unreadable() {
    assert_eq!(groom(Some("CLOUD-1\n")), Groom::Read(Vec::new()));
    assert_eq!(
        groom(Some("weakens CLOUD-2 b y\nweakens CLOUD-1 a x\nweakens CLOUD-3 b y\nweakens lone\n")),
        Groom::Read(vec!["a x".to_owned(), "b y".to_owned()])
    );
}

#[test]
fn only_a_non_empty_weakens_trailer_declares() {
    let trailers = vec![
        "Weakens: waiver-added waiver[x]".to_owned(),
        "Weakens:   ".to_owned(),
        "Weakens waiver-added waiver[y]".to_owned(),
        "Signed-off-by: someone".to_owned(),
        "Weakens:  rule-disabled 7 ".to_owned(),
    ];
    assert_eq!(declared(&trailers), vec!["rule-disabled 7".to_owned(), "waiver-added waiver[x]".to_owned()]);
}

#[test]
fn admission_tokens_are_stable() {
    assert_eq!(Admission::Refused.as_str(), "refused");
    assert_eq!(Admission::TrailerAlone.as_str(), "trailer-alone");
    assert_eq!(Admission::Groomed.as_str(), "groomed");
}

#[test]
fn a_byte_offset_maps_to_its_line() {
    let text = "a\nbb\n\u{e9}c\n";
    assert_eq!(line_of(text, 0), 1);
    assert_eq!(line_of(text, 2), 2);
    assert_eq!(line_of(text, 5), 3);
    assert_eq!(line_of(text, 6), 1);
    assert_eq!(line_of(text, 100), 1);
}

use batten::lint::{
    smells, BundleSweep, Located, RuleSpan, SetSpan, SetSweep, WaivedRule, WaiverSpan, Weakened,
    EMPTY_PROTECTED_SET, EMPTY_SCOPE_SET, EMPTY_UNLANDED_SET, POLICY_MODULE_UNSWEPT, POLICY_SET_UNRESOLVABLE,
    RULE_DISABLED, WAIVER_EXPIRED, WAIVER_NAMES_NO_RULE, WAIVER_UNREACHABLE_KIND,
};

fn at(text: &str, needle: &str) -> usize {
    text.find(needle).expect("the key is in the text")
}

fn set(text: &str, key: &str, empty: bool) -> Option<SetSpan> {
    Some(SetSpan { start: at(text, key), empty })
}

fn located(text: &str) -> Located {
    Located {
        protected: text.find("protected = ").map(|start| SetSpan { start, empty: text.contains("protected = []") }),
        unlanded: text.find("unlanded = ").map(|start| SetSpan { start, empty: text.contains("unlanded = []") }),
        scope: text.find("scope = [").map(|start| SetSpan { start, empty: text.contains("scope = []") }),
        rules: Vec::new(),
    }
}

fn rule(text: &str, id: &str, allow: bool) -> RuleSpan {
    RuleSpan { start: at(text, &format!("id = \"{id}\"")), id: id.to_owned(), allow }
}

fn ids_of(found: &[batten::lint::Smell]) -> Vec<&'static str> {
    found.iter().map(|smell| smell.id).collect()
}

fn with_waivers(waivers: &str) -> String {
    format!(
        "version = 1\n\n[[rule]]\nid = \"r\"\nkind = \"forbid\"\nglob = \"**/*.rs\"\n\
         pattern = \"x\"\nseverity = \"deny\"\n{waivers}"
    )
}

fn waiver_row(rule: &str, expires: &str) -> String {
    format!("\n[[waiver]]\nrule = \"{rule}\"\nreason = \"tracked\"\nexpires = \"{expires}\"\n")
}

fn waiver(text: &str, rule: &str, what: WaivedRule, expired: bool) -> WaiverSpan {
    WaiverSpan { start: at(text, &format!("rule = \"{rule}\"")), rule: what, expired }
}

#[test]
fn a_clean_config_has_no_smells() {
    let text = "version = 1\nprotected = [\"a\"]\n\n[[rule]]\nid = \"r\"\nkind = \"forbid\"\nglob = \"**/*.rs\"\npattern = \"x\"\nseverity = \"deny\"\n";
    let mut spans = located(text);
    spans.rules.push(rule(text, "r", false));
    assert!(smells(text, &spans, &[], &[], &[]).is_empty());
}

#[test]
fn a_declared_but_empty_protected_set_is_a_smell() {
    let text = "version = 1\nprotected = []\n";
    assert_eq!(ids_of(&smells(text, &located(text), &[], &[], &[])), vec![EMPTY_PROTECTED_SET]);
}

#[test]
fn an_absent_protected_set_is_not_a_smell() {
    let text = "version = 1\n";
    assert!(smells(text, &located(text), &[], &[], &[]).is_empty());
}

#[test]
fn an_empty_scope_or_unlanded_set_is_a_smell_too() {
    let scope = "version = 1\nscope = []\n";
    assert_eq!(ids_of(&smells(scope, &located(scope), &[], &[], &[])), vec![EMPTY_SCOPE_SET]);
    let unlanded = "version = 1\nunlanded = []\n";
    assert_eq!(ids_of(&smells(unlanded, &located(unlanded), &[], &[], &[])), vec![EMPTY_UNLANDED_SET]);
}

#[test]
fn a_rule_switched_off_is_a_smell() {
    let text = "version = 1\n\n[[rule]]\nid = \"r\"\nkind = \"forbid\"\nglob = \"**/*.rs\"\npattern = \"x\"\nseverity = \"allow\"\n";
    let mut spans = located(text);
    spans.rules.push(rule(text, "r", true));
    assert_eq!(ids_of(&smells(text, &spans, &[], &[], &[])), vec![RULE_DISABLED]);
}

#[test]
fn a_smell_carries_the_line_its_key_sits_on() {
    let text = "version = 1\n\nprotected = []\n";
    let found = smells(text, &located(text), &[], &[], &[]);
    assert_eq!(found.len(), 1);
    assert_eq!(found[0].at, Where::Line(3), "the line the key is written on");
    assert_eq!(found[0].line_text(), "batten.toml:3 empty-protected-set");
}

#[test]
fn each_weakening_keeps_the_key_trust_located_it_by() {
    let text = "version = 1\n";
    let weakened = [Weakened { key: "protected[a]".to_owned(), kind: "protected-removed" }];
    let found = smells(text, &located(text), &[], &[], &weakened);
    assert_eq!(found.len(), 1);
    assert_eq!(found[0].at, Where::Key("protected[a]".to_owned()));
    assert_eq!(found[0].line_text(), "batten.toml:protected[a] protected-removed");
}

#[test]
fn two_weakenings_of_one_kind_both_survive_dedup() {
    let text = "version = 1\n";
    let weakened = [
        Weakened { key: "rule[two].severity".to_owned(), kind: "severity-lowered" },
        Weakened { key: "rule[one].severity".to_owned(), kind: "severity-lowered" },
    ];
    let found = smells(text, &located(text), &[], &[], &weakened);
    assert_eq!(
        found.iter().map(|smell| smell.line_text()).collect::<Vec<_>>(),
        vec![
            "batten.toml:rule[one].severity severity-lowered",
            "batten.toml:rule[two].severity severity-lowered",
        ]
    );
}

#[test]
fn without_a_base_ref_the_comparison_smells_are_absent_not_clean() {
    let text = "version = 1\n";
    assert!(smells(text, &located(text), &[], &[], &[]).is_empty());
}

#[test]
fn the_report_is_sorted_and_so_byte_stable() {
    let text = "version = 1\nunlanded = []\nscope = []\nprotected = []\n";
    let weakened = [
        Weakened { key: "b".to_owned(), kind: "x-removed" },
        Weakened { key: "a".to_owned(), kind: "x-removed" },
        Weakened { key: "a".to_owned(), kind: "x-removed" },
    ];
    let found = smells(text, &located(text), &[], &[], &weakened);
    let mut sorted = found.clone();
    sorted.sort();
    sorted.dedup();
    assert_eq!(found, sorted);
    assert_eq!(found.len(), 5);
}

#[test]
fn a_waiver_naming_no_declared_rule_is_a_smell() {
    let text = with_waivers(&waiver_row("typo", "2099-01-01"));
    let spans = located(&text);
    let found = smells(&text, &spans, &[], &[waiver(&text, "typo", WaivedRule::Undeclared, false)], &[]);
    assert_eq!(ids_of(&found), vec![WAIVER_NAMES_NO_RULE]);
    let clean = with_waivers(&waiver_row("r", "2099-01-01"));
    let live = [waiver(&clean, "r", WaivedRule::Reachable, false)];
    assert!(smells(&clean, &located(&clean), &[], &live, &[]).is_empty());
}

#[test]
fn a_lapsed_waiver_is_a_smell_and_the_date_is_the_input() {
    let text = with_waivers(&waiver_row("r", "2026-08-09"));
    let lapsed = [waiver(&text, "r", WaivedRule::Reachable, true)];
    assert_eq!(ids_of(&smells(&text, &located(&text), &[], &lapsed, &[])), vec![WAIVER_EXPIRED]);
    let earlier = [waiver(&text, "r", WaivedRule::Reachable, false)];
    assert!(smells(&text, &located(&text), &[], &earlier, &[]).is_empty());
}

#[test]
fn the_waiver_pointer_names_the_line_the_rule_key_sits_on() {
    let text = with_waivers(&waiver_row("typo", "2099-01-01"));
    let found = smells(&text, &located(&text), &[], &[waiver(&text, "typo", WaivedRule::Undeclared, false)], &[]);
    assert_eq!(found.len(), 1);
    assert_eq!(found[0].line_text(), "batten.toml:11 waiver-names-no-rule");
    assert!(!found[0].line_text().contains("tracked"), "the pointer must never carry the justification text");
}

#[test]
fn two_dead_waivers_of_one_kind_both_survive_dedup() {
    let text = with_waivers(&format!("{}{}", waiver_row("typo-one", "2099-01-01"), waiver_row("typo-two", "2099-01-01")));
    let waivers = [
        waiver(&text, "typo-one", WaivedRule::Undeclared, false),
        waiver(&text, "typo-two", WaivedRule::Undeclared, false),
    ];
    assert_eq!(
        ids_of(&smells(&text, &located(&text), &[], &waivers, &[])),
        vec![WAIVER_NAMES_NO_RULE, WAIVER_NAMES_NO_RULE],
        "both must be reported, at their own lines"
    );
}

#[test]
fn one_waiver_can_carry_both_smells() {
    let text = with_waivers(&waiver_row("typo", "2020-01-01"));
    let mut found = ids_of(&smells(&text, &located(&text), &[], &[waiver(&text, "typo", WaivedRule::Undeclared, true)], &[]));
    found.sort_unstable();
    assert_eq!(found, vec![WAIVER_EXPIRED, WAIVER_NAMES_NO_RULE]);
}

#[test]
fn a_waiver_over_a_kind_that_can_decide_nothing_is_a_smell() {
    let text = with_waivers(&waiver_row("r", "2099-01-01"));
    let waivers = [waiver(&text, "r", WaivedRule::Unreachable("waiver[intentional] judge".to_owned()), false)];
    assert_eq!(ids_of(&smells(&text, &located(&text), &[], &waivers, &[])), vec![WAIVER_UNREACHABLE_KIND]);
}

#[test]
fn the_unreachable_pointer_names_the_waiver_and_the_kind() {
    let text = with_waivers(&waiver_row("r", "2099-01-01"));
    let waivers = [waiver(&text, "r", WaivedRule::Unreachable("waiver[intentional] judge".to_owned()), false)];
    let found = smells(&text, &located(&text), &[], &waivers, &[]);
    assert_eq!(found.len(), 1);
    assert_eq!(found[0].line_text(), "batten.toml:waiver[intentional] judge waiver-unreachable-kind");
    assert!(!found[0].line_text().contains("tracked"), "the pointer must never carry the justification text");
}

#[test]
fn a_narrowed_and_a_whole_rule_waiver_of_one_kind_both_survive_dedup() {
    let text = with_waivers(&waiver_row("r", "2099-01-01"));
    let waivers = [
        waiver(&text, "r", WaivedRule::Unreachable("waiver[intentional][vendor/**] judge".to_owned()), false),
        waiver(&text, "r", WaivedRule::Unreachable("waiver[intentional] judge".to_owned()), false),
    ];
    let found = smells(&text, &located(&text), &[], &waivers, &[]);
    assert_eq!(
        found.iter().map(|smell| smell.line_text()).collect::<Vec<_>>(),
        vec![
            "batten.toml:waiver[intentional] judge waiver-unreachable-kind",
            "batten.toml:waiver[intentional][vendor/**] judge waiver-unreachable-kind",
        ]
    );
}

#[test]
fn an_unreachable_waiver_that_also_lapsed_carries_both_smells() {
    let text = with_waivers(&waiver_row("r", "2020-01-01"));
    let waivers = [waiver(&text, "r", WaivedRule::Unreachable("waiver[intentional] judge".to_owned()), true)];
    let mut found = ids_of(&smells(&text, &located(&text), &[], &waivers, &[]));
    found.sort_unstable();
    assert_eq!(found, vec![WAIVER_EXPIRED, WAIVER_UNREACHABLE_KIND]);
}

#[test]
fn a_policy_set_is_located_at_its_enabling_row_and_could_not_look_is_silent() {
    let text = "version = 1\n\n[[rule]]\nid = \"policy\"\nkind = \"rego\"\n";
    let mut spans = located(text);
    spans.rules.push(rule(text, "policy", false));
    let unresolvable = [BundleSweep { rule: "policy".to_owned(), sweep: SetSweep::Unresolvable }];
    let found = smells(text, &spans, &unresolvable, &[], &[]);
    assert_eq!(ids_of(&found), vec![POLICY_SET_UNRESOLVABLE]);
    assert_eq!(found[0].at, Where::Line(4));
    let unswept = [BundleSweep { rule: "policy".to_owned(), sweep: SetSweep::Swept(2) }];
    assert_eq!(ids_of(&smells(text, &spans, &unswept, &[], &[])), vec![POLICY_MODULE_UNSWEPT]);
    let silent = [
        BundleSweep { rule: "policy".to_owned(), sweep: SetSweep::NotLooked },
        BundleSweep { rule: "absent".to_owned(), sweep: SetSweep::Unresolvable },
    ];
    assert!(smells(text, &spans, &silent, &[], &[]).is_empty());
    let _ = set(text, "rule", false);
}
