//! Config lint: the pointers a smell is reported by, and the adjudication
//! of a deliberate weakening.
//!
//! A smell is a location in `batten.toml` and a stable id, never the bytes
//! that produced it. A weakening the branch means to make is admitted only
//! on two sources that agree: a `Weakens: <smell> <key>` commit trailer, and
//! the groomed body that named the same pair before the work started. A
//! receipt that does not exist is could-not-look and lets the trailer alone
//! decide; a receipt that exists and names nothing refuses.

use vstd::prelude::*;
use vstd::string::StringExecFns;
use vstd::string::StringSliceAdditionalSpecFns;
use crate::text::{
    chars_key, chars_of, key_le, key_le_exec, lemma_key_total, lemma_key_trans, push_chars_key,
    lex_le, lex_le_exec, lines, lines_exec, nat_string, same, same_str, split_once,
    split_once_exec, string_of, string_views, strip_prefix, strip_prefix_exec, trim, trim_chars,
    views,
};

verus! {

/// The file every pointer names.
pub const CONFIG_FILE: &'static str = "batten.toml";

/// Where in `batten.toml` a smell sits: a line of the working file, or the
/// key path for a weakening the working file may no longer carry.
#[derive(Debug, Clone, PartialEq, Eq, PartialOrd, Ord)]
#[non_exhaustive]
pub enum Where {
    /// The 1-based line the smell sits on, in the working `batten.toml`.
    Line(usize),
    /// The key path, exactly as `batten.toml` addresses it.
    Key(String),
}

/// A location as plain values.
pub enum WhereView {
    Line(nat),
    Key(Seq<char>),
}

/// The view of a location.
pub open spec fn where_view(w: Where) -> WhereView {
    match w {
        Where::Line(n) => WhereView::Line(n as nat),
        Where::Key(k) => WhereView::Key(k@),
    }
}

/// The text a location renders as: the line number, or the key path.
pub open spec fn where_text(w: WhereView) -> Seq<char> {
    match w {
        WhereView::Line(n) => crate::text::decimal(n),
        WhereView::Key(k) => k,
    }
}

impl Where {
    /// The text this location renders as.
    pub fn text(&self) -> (r: String)
        ensures
            r@ == where_text(where_view(*self)),
    {
        match self {
            Where::Line(n) => nat_string(*n as u64),
            Where::Key(k) => k.clone(),
        }
    }
}

/// One policy smell, located in `batten.toml`.
#[derive(Debug, Clone, PartialEq, Eq, PartialOrd, Ord)]
pub struct Smell {
    /// Where the smell sits — a line in the working file, or the key path.
    pub at: Where,
    /// The stable, lowercase smell identifier.
    pub id: &'static str,
}

/// A smell as plain values.
pub open spec fn smell_view(s: Smell) -> (WhereView, Seq<char>) {
    (where_view(s.at), s.id@)
}

/// The pointer line a smell renders as: `batten.toml:<line-or-key> <id>`.
pub open spec fn smell_line(s: (WhereView, Seq<char>)) -> Seq<char> {
    "batten.toml:"@ + where_text(s.0) + " "@ + s.1
}

/// The pair a clause must name to admit a smell: `<id> <location>`.
pub open spec fn smell_pair(s: (WhereView, Seq<char>)) -> Seq<char> {
    s.1 + " "@ + where_text(s.0)
}

impl Smell {
    /// The pointer line this smell renders as, without a trailing newline.
    pub fn line_text(&self) -> (r: String)
        ensures
            r@ == smell_line(smell_view(*self)),
    {
        let mut out = String::from_str("batten.toml:");
        let at = self.at.text();
        out.append(at.as_str());
        out.append(" ");
        out.append(self.id);
        out
    }
}

/// A copy of a smell.
pub fn copy_smell(s: &Smell) -> (c: Smell)
    ensures
        smell_view(c) == smell_view(*s),
{
    let at = match &s.at {
        Where::Line(n) => Where::Line(*n),
        Where::Key(k) => Where::Key(k.clone()),
    };
    Smell { at, id: s.id }
}

/// The 1-based line a byte offset sits on: one more than the newlines
/// before it, or `1` where the offset is past the end or inside a
/// character.
pub open spec fn line_of_spec(bytes: Seq<u8>, offset: int) -> nat {
    if offset > bytes.len() || (offset < bytes.len() && bytes[offset] & 0xc0 == 0x80) {
        1
    } else {
        newlines(bytes, offset) + 1
    }
}

/// How many newline bytes the first `k` bytes hold.
pub open spec fn newlines(bytes: Seq<u8>, k: int) -> nat
    decreases k,
{
    if k <= 0 {
        0
    } else {
        newlines(bytes, k - 1) + if bytes[k - 1] == 10 {
            1nat
        } else {
            0nat
        }
    }
}

/// Convert a byte offset into a 1-based line number.
pub fn line_of(text: &str, offset: usize) -> (r: usize)
    requires
        text.spec_bytes().len() < usize::MAX,
    ensures
        r == line_of_spec(text.spec_bytes(), offset as int),
{
    let b = text.as_bytes();
    if offset > b.len() {
        return 1;
    }
    if offset < b.len() && (b[offset] & 0xc0) == 0x80 {
        return 1;
    }
    let mut n: usize = 0;
    let mut i: usize = 0;
    while i < offset
        invariant
            i <= offset <= b@.len(),
            b@.len() < usize::MAX,
            b@ == text.spec_bytes(),
            n == newlines(b@, i as int),
            n <= i,
        decreases offset - i,
    {
        if b[i] == 10 {
            n += 1;
        }
        i += 1;
    }
    n + 1
}

// ---------------------------------------------------------------------------
// The smells of a config.
// ---------------------------------------------------------------------------

/// A set declared in the config but covering nothing.
pub const EMPTY_PROTECTED_SET: &'static str = "empty-protected-set";
/// As above, for `unlanded`.
pub const EMPTY_UNLANDED_SET: &'static str = "empty-unlanded-set";
/// As above, for `scope`.
pub const EMPTY_SCOPE_SET: &'static str = "empty-scope-set";
/// A rule that is present but switched off.
pub const RULE_DISABLED: &'static str = "rule-disabled";
/// A waiver whose `rule` no `[[rule]]` declares: it suppresses nothing.
pub const WAIVER_NAMES_NO_RULE: &'static str = "waiver-names-no-rule";
/// A waiver whose expiry has passed.
pub const WAIVER_EXPIRED: &'static str = "waiver-expired";
/// A policy bundle whose composed rule set will not resolve: two complete
/// rules conflicting, or a cycle.
pub const POLICY_SET_UNRESOLVABLE: &'static str = "policy-set-unresolvable";
/// A module inside an enabled bundle that the whole-set sweep never entered.
pub const POLICY_MODULE_UNSWEPT: &'static str = "policy-module-unswept";
/// A waiver over a rule whose kind mints no finding for it to suppress.
pub const WAIVER_UNREACHABLE_KIND: &'static str = "waiver-unreachable-kind";

/// A declared set in the working file: the byte offset it starts at and
/// whether it is empty. An absent set is not a smell; an empty one is.
#[derive(Debug, Clone, Copy, PartialEq, Eq)]
pub struct SetSpan {
    /// Where the set's value starts in the file.
    pub start: usize,
    /// Whether it lists nothing.
    pub empty: bool,
}

/// A `[[rule]]` row of the working file: the byte offset of its `id`, the
/// id, and whether it is configured at `allow`. A row with no severity (a
/// judge row) is not at `allow`.
#[derive(Debug, Clone, PartialEq, Eq)]
pub struct RuleSpan {
    /// Where the row's `id` starts in the file.
    pub start: usize,
    /// The row's id.
    pub id: String,
    /// Whether the row is configured off.
    pub allow: bool,
}

/// Where the keys a smell points at sit in the working file.
#[derive(Debug, Clone, PartialEq, Eq)]
pub struct Located {
    /// The `protected` set, where declared.
    pub protected: Option<SetSpan>,
    /// The `unlanded` set, where declared.
    pub unlanded: Option<SetSpan>,
    /// The `scope` set, where declared.
    pub scope: Option<SetSpan>,
    /// The `[[rule]]` rows, in order.
    pub rules: Vec<RuleSpan>,
}

/// What the whole-set sweep of one composed policy set found.
#[derive(Debug, Clone, Copy, PartialEq, Eq)]
pub enum SetSweep {
    /// The set refuses itself: a conflict or a cycle.
    Unresolvable,
    /// The sweep ran; this many modules it never entered.
    Swept(usize),
    /// The sweep could not look. Not clean, and not a smell either.
    NotLooked,
}

/// One composed policy set: the id of the rule that enables it, and its
/// sweep.
#[derive(Debug, Clone, PartialEq, Eq)]
pub struct BundleSweep {
    /// The enabling rule's id.
    pub rule: String,
    /// What the sweep found.
    pub sweep: SetSweep,
}

/// What the config makes of the rule a waiver names.
#[derive(Debug, Clone, PartialEq, Eq)]
pub enum WaivedRule {
    /// No `[[rule]]` declares it.
    Undeclared,
    /// It is declared, and its kind mints no finding a waiver could
    /// suppress: the waiver's key and the kind's token, as the pointer names
    /// them.
    Unreachable(String),
    /// It is declared and a waiver over it can suppress.
    Reachable,
}

/// One `[[waiver]]` row: the byte offset of its `rule`, what that rule is,
/// and whether its expiry has passed as of the date the caller supplies.
#[derive(Debug, Clone, PartialEq, Eq)]
pub struct WaiverSpan {
    /// Where the row's `rule` starts in the file.
    pub start: usize,
    /// What the config makes of the rule.
    pub rule: WaivedRule,
    /// Whether the expiry is before today.
    pub expired: bool,
}

/// A weakening of the trusted base: the key path it applies to and its
/// kind's token.
#[derive(Debug, Clone, PartialEq, Eq)]
pub struct Weakened {
    /// The key path, as the base addresses it.
    pub key: String,
    /// The weakening's kind, which is the smell's id.
    pub kind: &'static str,
}

/// A smell at a byte offset's line.
pub open spec fn smell_at(text: Seq<u8>, start: usize, id: Seq<char>) -> (WhereView, Seq<char>) {
    (WhereView::Line(line_of_spec(text, start as int)), id)
}

/// The smell a declared set earns: one where it is empty.
pub open spec fn set_smells(text: Seq<u8>, set: Option<SetSpan>, id: Seq<char>) -> Seq<(WhereView, Seq<char>)> {
    match set {
        Some(s) => if s.empty {
            seq![smell_at(text, s.start, id)]
        } else {
            seq![]
        },
        None => seq![],
    }
}

/// The smells the rule rows earn, in order: one per row at `allow`.
pub open spec fn rule_smells(text: Seq<u8>, rules: Seq<RuleSpan>) -> Seq<(WhereView, Seq<char>)>
    decreases rules.len(),
{
    if rules.len() == 0 {
        seq![]
    } else {
        rule_smells(text, rules.drop_last()) + if rules.last().allow {
            seq![smell_at(text, rules.last().start, RULE_DISABLED@)]
        } else {
            seq![]
        }
    }
}

/// The first rule row declaring `id`.
pub open spec fn rule_row(rules: Seq<RuleSpan>, id: Seq<char>, i: int) -> Option<RuleSpan>
    decreases rules.len() - i,
{
    if i < 0 || i >= rules.len() {
        None
    } else if rules[i].id@ == id {
        Some(rules[i])
    } else {
        rule_row(rules, id, i + 1)
    }
}

/// The smells one composed policy set earns, at its enabling row's line: one
/// for a set that will not resolve, one per module the sweep never entered,
/// and none for a set whose enabling row is absent or whose sweep could not
/// look.
pub open spec fn bundle_smells(text: Seq<u8>, rules: Seq<RuleSpan>, b: BundleSweep) -> Seq<
    (WhereView, Seq<char>),
> {
    match rule_row(rules, b.rule@, 0) {
        None => seq![],
        Some(row) => match b.sweep {
            SetSweep::Unresolvable => seq![smell_at(text, row.start, POLICY_SET_UNRESOLVABLE@)],
            SetSweep::Swept(n) => Seq::new(
                n as nat,
                |i: int| smell_at(text, row.start, POLICY_MODULE_UNSWEPT@),
            ),
            SetSweep::NotLooked => seq![],
        },
    }
}

/// The smells every composed policy set earns, in order.
pub open spec fn bundles_smells(text: Seq<u8>, rules: Seq<RuleSpan>, bs: Seq<BundleSweep>) -> Seq<
    (WhereView, Seq<char>),
>
    decreases bs.len(),
{
    if bs.len() == 0 {
        seq![]
    } else {
        bundles_smells(text, rules, bs.drop_last()) + bundle_smells(text, rules, bs.last())
    }
}

/// The smells one waiver earns: naming no declared rule, or a rule whose
/// kind it cannot reach (located by its key), and then a passed expiry.
pub open spec fn waiver_smells(text: Seq<u8>, w: WaiverSpan) -> Seq<(WhereView, Seq<char>)> {
    (match w.rule {
        WaivedRule::Undeclared => seq![smell_at(text, w.start, WAIVER_NAMES_NO_RULE@)],
        WaivedRule::Unreachable(key) => seq![(WhereView::Key(key@), WAIVER_UNREACHABLE_KIND@)],
        WaivedRule::Reachable => seq![],
    }) + if w.expired {
        seq![smell_at(text, w.start, WAIVER_EXPIRED@)]
    } else {
        seq![]
    }
}

/// The smells every waiver earns, in order.
pub open spec fn waivers_smells(text: Seq<u8>, ws: Seq<WaiverSpan>) -> Seq<(WhereView, Seq<char>)>
    decreases ws.len(),
{
    if ws.len() == 0 {
        seq![]
    } else {
        waivers_smells(text, ws.drop_last()) + waiver_smells(text, ws.last())
    }
}

/// The smell a weakening of the base earns, located by its key path.
pub open spec fn weakened_view(w: Weakened) -> (WhereView, Seq<char>) {
    (WhereView::Key(w.key@), w.kind@)
}

/// Every smell a config earns, before sorting: the empty sets, the disabled
/// rules, the composed policy sets, the dead waivers, and the weakenings of
/// the base.
pub open spec fn raw_smells(
    text: Seq<u8>,
    located: Located,
    bundles: Seq<BundleSweep>,
    waivers: Seq<WaiverSpan>,
    weakenings: Seq<Weakened>,
) -> Seq<(WhereView, Seq<char>)> {
    set_smells(text, located.protected, EMPTY_PROTECTED_SET@) + set_smells(
        text,
        located.unlanded,
        EMPTY_UNLANDED_SET@,
    ) + set_smells(text, located.scope, EMPTY_SCOPE_SET@) + rule_smells(text, located.rules@)
        + bundles_smells(text, located.rules@, bundles) + waivers_smells(text, waivers)
        + weakenings.map_values(|w: Weakened| weakened_view(w))
}

/// A location's sort key: a line before a key path, lines by number, key
/// paths character by character.
pub open spec fn where_key(w: WhereView) -> Seq<u64> {
    match w {
        WhereView::Line(n) => seq![0u64, n as u64],
        WhereView::Key(k) => seq![1u64] + chars_key(k),
    }
}

/// A smell's sort key: its location, then its id. The report is sorted by
/// it, so it is byte-stable for identical input.
pub open spec fn smell_key(s: (WhereView, Seq<char>)) -> Seq<u64> {
    where_key(s.0) + chars_key(s.1)
}

/// Whether smells are in report order.
pub open spec fn smells_sorted(s: Seq<(WhereView, Seq<char>)>) -> bool {
    forall|i: int, j: int|
        0 <= i < j < s.len() ==> key_le(smell_key(#[trigger] s[i]), smell_key(#[trigger] s[j]))
}

/// The smell views of a run of smells.
pub open spec fn smell_views(v: Seq<Smell>) -> Seq<(WhereView, Seq<char>)> {
    v.map_values(|s: Smell| smell_view(s))
}

fn smell_key_of(s: &Smell) -> (r: Vec<u64>)
    ensures
        r@ == smell_key(smell_view(*s)),
{
    let mut out: Vec<u64> = Vec::new();
    match &s.at {
        Where::Line(n) => {
            out.push(0);
            out.push(*n as u64);
        },
        Where::Key(k) => {
            out.push(1);
            let kc = chars_of(k.as_str());
            push_chars_key(&mut out, kc.as_slice());
        },
    }
    let ic = chars_of(s.id);
    push_chars_key(&mut out, ic.as_slice());
    proof {
        assert(out@ =~= smell_key(smell_view(*s)));
    }
    out
}

fn same_smell(a: &Smell, b: &Smell) -> (r: bool)
    ensures
        r == (smell_view(*a) == smell_view(*b)),
{
    let at = match (&a.at, &b.at) {
        (Where::Line(x), Where::Line(y)) => *x == *y,
        (Where::Key(x), Where::Key(y)) => crate::text::same_string(x.as_str(), y.as_str()),
        _ => false,
    };
    at && crate::text::same_string(a.id, b.id)
}

proof fn lemma_insert_sorted_smells(s: Seq<(WhereView, Seq<char>)>, p: int, x: (WhereView, Seq<char>))
    requires
        smells_sorted(s),
        0 <= p <= s.len(),
        forall|k: int| 0 <= k < p ==> key_le(smell_key(#[trigger] s[k]), smell_key(x)),
        p < s.len() ==> !key_le(smell_key(s[p]), smell_key(x)),
    ensures
        smells_sorted(s.insert(p, x)),
{
    let n = s.insert(p, x);
    if p < s.len() {
        lemma_key_total(smell_key(s[p]), smell_key(x));
    }
    assert forall|i: int, j: int| 0 <= i < j < n.len() implies key_le(
        smell_key(#[trigger] n[i]),
        smell_key(#[trigger] n[j]),
    ) by {
        if i < p && j <= p {
            assert(n[i] == s[i]);
        } else if i < p && j > p {
            assert(n[i] == s[i] && n[j] == s[j - 1]);
        } else if i == p && j > p {
            assert(n[j] == s[j - 1]);
            if j - 1 > p {
                assert(key_le(smell_key(s[p]), smell_key(s[j - 1])));
                lemma_key_trans(smell_key(x), smell_key(s[p]), smell_key(s[j - 1]));
            }
        } else {
            assert(n[i] == s[i - 1] && n[j] == s[j - 1]);
        }
    }
}

proof fn lemma_push_contains(s: Seq<(WhereView, Seq<char>)>, v: (WhereView, Seq<char>), y: (WhereView, Seq<char>))
    ensures
        s.push(v).contains(y) <==> (s.contains(y) || v == y),
{
    let t = s.push(v);
    if t.contains(y) {
        let k = choose|k: int| 0 <= k < t.len() && t[k] == y;
        if k < s.len() {
            assert(s[k] == y);
        }
    }
    if s.contains(y) {
        let k = choose|k: int| 0 <= k < s.len() && s[k] == y;
        assert(t[k] == y);
    }
    if v == y {
        assert(t[s.len() as int] == y);
    }
}

proof fn lemma_key_refl(a: Seq<u64>)
    ensures
        key_le(a, a),
{
    lemma_key_total(a, a);
}

/// Sort smells into report order and drop repeats that end up adjacent.
pub fn sorted_smells(found: Vec<Smell>) -> (r: Vec<Smell>)
    ensures
        smells_sorted(smell_views(r@)),
        forall|i: int| 0 <= i < r@.len() - 1 ==> smell_view(#[trigger] r@[i]) != smell_view(r@[i + 1]),
        forall|x: (WhereView, Seq<char>)| smell_views(r@).contains(x) <==> smell_views(found@).contains(x),
{
    let ghost fv = smell_views(found@);
    let mut out: Vec<Smell> = Vec::new();
    let mut i: usize = 0;
    proof {
        assert(smell_views(out@) =~= seq![]);
        assert(fv.subrange(0, 0) =~= seq![]);
    }
    while i < found.len()
        invariant
            i <= found.len(),
            fv == smell_views(found@),
            smells_sorted(smell_views(out@)),
            smell_views(out@).to_multiset() == fv.subrange(0, i as int).to_multiset(),
        decreases found.len() - i,
    {
        let x = copy_smell(&found[i]);
        let xk = smell_key_of(&x);
        let ghost ov = smell_views(out@);
        let mut p: usize = 0;
        while p < out.len()
            invariant
                p <= out.len(),
                ov == smell_views(out@),
                xk@ == smell_key(smell_view(x)),
                forall|k: int| 0 <= k < p ==> key_le(smell_key(#[trigger] ov[k]), xk@),
            ensures
                p <= out.len(),
                forall|k: int| 0 <= k < p ==> key_le(smell_key(#[trigger] ov[k]), xk@),
                p < out.len() ==> !key_le(smell_key(ov[p as int]), xk@),
            decreases out.len() - p,
        {
            let ok = smell_key_of(&out[p]);
            if !key_le_exec(ok.as_slice(), xk.as_slice()) {
                break;
            }
            p += 1;
        }
        proof {
            lemma_insert_sorted_smells(ov, p as int, smell_view(x));
            assert(smell_views(out@.insert(p as int, x)) =~= ov.insert(p as int, smell_view(x)));
            vstd::seq_lib::to_multiset_insert(ov, p as int, smell_view(x));
            assert(fv.subrange(0, i + 1) == fv.subrange(0, i as int).push(fv[i as int]));
            vstd::seq_lib::to_multiset_build(fv.subrange(0, i as int), fv[i as int]);
            assert(fv[i as int] == smell_view(x));
        }
        out.insert(p, x);
        i += 1;
    }
    let ghost sv = smell_views(out@);
    proof {
        assert(fv.subrange(0, fv.len() as int) == fv);
        assert forall|x: (WhereView, Seq<char>)| sv.contains(x) <==> fv.contains(x) by {
            vstd::seq_lib::to_multiset_contains(sv, x);
            vstd::seq_lib::to_multiset_contains(fv, x);
        }
    }
    let mut kept: Vec<Smell> = Vec::new();
    let mut j: usize = 0;
    proof {
        assert(smell_views(kept@) =~= seq![]);
        assert(sv.subrange(0, 0) =~= seq![]);
    }
    while j < out.len()
        invariant
            j <= out.len(),
            sv == smell_views(out@),
            smells_sorted(sv),
            j == 0 ==> kept@.len() == 0,
            j > 0 ==> kept@.len() > 0 && smell_view(kept@[kept@.len() - 1]) == sv[j - 1],
            smells_sorted(smell_views(kept@)),
            j > 0 ==> forall|a: int|
                0 <= a < kept@.len() ==> key_le(
                    smell_key(smell_view(#[trigger] kept@[a])),
                    smell_key(sv[j - 1]),
                ),
            forall|a: int| 0 <= a < kept@.len() - 1 ==> smell_view(#[trigger] kept@[a]) != smell_view(kept@[a + 1]),
            forall|x: (WhereView, Seq<char>)| smell_views(kept@).contains(x) <==> sv.subrange(0, j as int).contains(x),
        decreases out.len() - j,
    {
        let keep = j == 0 || !same_smell(&out[j - 1], &out[j]);
        let ghost kv = smell_views(kept@);
        proof {
            assert(sv.subrange(0, j + 1) == sv.subrange(0, j as int).push(sv[j as int]));
            if j > 0 {
                assert(key_le(smell_key(sv[j - 1]), smell_key(sv[j as int])));
            }
            lemma_key_refl(smell_key(sv[j as int]));
        }
        if keep {
            let x = copy_smell(&out[j]);
            proof {
                assert forall|a: int| 0 <= a < kept@.len() implies key_le(
                    smell_key(smell_view(#[trigger] kept@[a])),
                    smell_key(sv[j as int]),
                ) by {
                    lemma_key_trans(
                        smell_key(smell_view(kept@[a])),
                        smell_key(sv[j - 1]),
                        smell_key(sv[j as int]),
                    );
                }
                assert forall|y: (WhereView, Seq<char>)| kv.push(sv[j as int]).contains(y) <==> sv.subrange(0, j + 1).contains(y) by {
                    lemma_push_contains(kv, sv[j as int], y);
                    lemma_push_contains(sv.subrange(0, j as int), sv[j as int], y);
                }
            }
            kept.push(x);
            proof {
                assert(smell_views(kept@) =~= kv.push(sv[j as int]));
            }
        } else {
            proof {
                assert forall|y: (WhereView, Seq<char>)| kv.contains(y) <==> sv.subrange(0, j + 1).contains(y) by {
                    lemma_push_contains(sv.subrange(0, j as int), sv[j as int], y);
                    assert(kv[kv.len() - 1] == sv[j as int]);
                }
                assert forall|a: int| 0 <= a < kept@.len() implies key_le(
                    smell_key(smell_view(#[trigger] kept@[a])),
                    smell_key(sv[j as int]),
                ) by {}
            }
        }
        j += 1;
    }
    proof {
        assert(sv.subrange(0, sv.len() as int) == sv);
    }
    kept
}

fn push_smell_at(out: &mut Vec<Smell>, text: &str, start: usize, id: &'static str)
    requires
        text.spec_bytes().len() < usize::MAX,
    ensures
        smell_views(final(out)@) == smell_views(old(out)@).push(smell_at(text.spec_bytes(), start, id@)),
{
    let line = line_of(text, start);
    let smell = Smell { at: Where::Line(line), id };
    proof {
        assert(smell_views(out@.push(smell)) =~= smell_views(out@).push(smell_view(smell)));
    }
    out.push(smell);
}

fn push_set_smells(out: &mut Vec<Smell>, text: &str, set: Option<SetSpan>, id: &'static str)
    requires
        text.spec_bytes().len() < usize::MAX,
    ensures
        smell_views(final(out)@) == smell_views(old(out)@) + set_smells(text.spec_bytes(), set, id@),
{
    match set {
        Some(sp) => {
            if sp.empty {
                push_smell_at(out, text, sp.start, id);
                proof {
                    assert(smell_views(out@) =~= smell_views(old(out)@) + set_smells(text.spec_bytes(), set, id@));
                }
            } else {
                proof {
                    assert(smell_views(out@) =~= smell_views(old(out)@) + Seq::<(WhereView, Seq<char>)>::empty());
                }
            }
        },
        None => {
            proof {
                assert(smell_views(out@) =~= smell_views(old(out)@) + Seq::<(WhereView, Seq<char>)>::empty());
            }
        },
    }
}

fn find_rule_row(rules: &[RuleSpan], id: &str) -> (r: Option<usize>)
    ensures
        match r {
            Some(k) => k < rules@.len() && rule_row(rules@, id@, 0) == Some(rules@[k as int]),
            None => rule_row(rules@, id@, 0) is None,
        },
{
    let mut i: usize = 0;
    while i < rules.len()
        invariant
            i <= rules.len(),
            rule_row(rules@, id@, 0) == rule_row(rules@, id@, i as int),
        decreases rules.len() - i,
    {
        if crate::text::same_string(rules[i].id.as_str(), id) {
            return Some(i);
        }
        i += 1;
    }
    None
}

/// Every smell a config earns, in report order and each once: a declared
/// set that is empty, a rule at `allow`, a composed policy set that will not
/// resolve or leaves modules unswept, a waiver naming no rule or a rule it
/// cannot reach, a waiver past its expiry, and each weakening of the trusted
/// base. Each is located by the line its key sits on, or, for a weakening or
/// an unreachable waiver, by its key path.
///
/// The readings are the caller's: where the keys sit, what the policy sweep
/// found, what the config makes of each waived rule, whether a waiver has
/// lapsed as of the caller's date, and the weakenings against the base.
pub fn smells(
    text: &str,
    located: &Located,
    bundles: &[BundleSweep],
    waivers: &[WaiverSpan],
    weakenings: &[Weakened],
) -> (r: Vec<Smell>)
    requires
        text.spec_bytes().len() < usize::MAX,
    ensures
        smells_sorted(smell_views(r@)),
        forall|i: int| 0 <= i < r@.len() - 1 ==> smell_view(#[trigger] r@[i]) != smell_view(r@[i + 1]),
        forall|x: (WhereView, Seq<char>)|
            smell_views(r@).contains(x) <==> raw_smells(
                text.spec_bytes(),
                *located,
                bundles@,
                waivers@,
                weakenings@,
            ).contains(x),
{
    let ghost tb = text.spec_bytes();
    let mut found: Vec<Smell> = Vec::new();
    proof {
        assert(smell_views(found@) =~= seq![]);
    }
    push_set_smells(&mut found, text, located.protected, EMPTY_PROTECTED_SET);
    push_set_smells(&mut found, text, located.unlanded, EMPTY_UNLANDED_SET);
    push_set_smells(&mut found, text, located.scope, EMPTY_SCOPE_SET);
    let ghost after_sets = smell_views(found@);
    let rules = located.rules.as_slice();
    let mut i: usize = 0;
    proof {
        assert(rules@.subrange(0, 0) =~= seq![]);
        assert(after_sets + rule_smells(tb, rules@.subrange(0, 0)) =~= after_sets);
    }
    while i < rules.len()
        invariant
            i <= rules.len(),
            tb == text.spec_bytes(),
            tb.len() < usize::MAX,
            smell_views(found@) == after_sets + rule_smells(tb, rules@.subrange(0, i as int)),
        decreases rules.len() - i,
    {
        let ghost before = smell_views(found@);
        if rules[i].allow {
            push_smell_at(&mut found, text, rules[i].start, RULE_DISABLED);
        }
        proof {
            let next = rules@.subrange(0, i + 1);
            assert(next.drop_last() == rules@.subrange(0, i as int));
            assert(next.last() == rules@[i as int]);
            assert(smell_views(found@) =~= after_sets + rule_smells(tb, next));
        }
        i += 1;
    }
    proof {
        assert(rules@.subrange(0, rules@.len() as int) == rules@);
    }
    let ghost after_rules = smell_views(found@);
    let mut b: usize = 0;
    proof {
        assert(bundles@.subrange(0, 0) =~= seq![]);
        assert(after_rules + bundles_smells(tb, rules@, bundles@.subrange(0, 0)) =~= after_rules);
    }
    while b < bundles.len()
        invariant
            b <= bundles.len(),
            tb == text.spec_bytes(),
            tb.len() < usize::MAX,
            rules@ == located.rules@,
            smell_views(found@) == after_rules + bundles_smells(tb, rules@, bundles@.subrange(0, b as int)),
        decreases bundles.len() - b,
    {
        let ghost before = smell_views(found@);
        let bundle = &bundles[b];
        match find_rule_row(rules, bundle.rule.as_str()) {
            None => {
                proof {
                    assert(bundle_smells(tb, rules@, *bundle) =~= seq![]);
                    assert(smell_views(found@) =~= before + bundle_smells(tb, rules@, *bundle));
                }
            },
            Some(k) => {
                let start = rules[k].start;
                match bundle.sweep {
                    SetSweep::Unresolvable => {
                        push_smell_at(&mut found, text, start, POLICY_SET_UNRESOLVABLE);
                        proof {
                            assert(smell_views(found@) =~= before + bundle_smells(tb, rules@, *bundle));
                        }
                    },
                    SetSweep::Swept(n) => {
                        let mut m: usize = 0;
                        while m < n
                            invariant
                                m <= n,
                                tb == text.spec_bytes(),
                                tb.len() < usize::MAX,
                                smell_views(found@) == before + Seq::new(
                                    m as nat,
                                    |q: int| smell_at(tb, start, POLICY_MODULE_UNSWEPT@),
                                ),
                            decreases n - m,
                        {
                            push_smell_at(&mut found, text, start, POLICY_MODULE_UNSWEPT);
                            proof {
                                assert(smell_views(found@) =~= before + Seq::new(
                                    (m + 1) as nat,
                                    |q: int| smell_at(tb, start, POLICY_MODULE_UNSWEPT@),
                                ));
                            }
                            m += 1;
                        }
                        proof {
                            assert(smell_views(found@) =~= before + bundle_smells(tb, rules@, *bundle));
                        }
                    },
                    SetSweep::NotLooked => {
                        proof {
                            assert(smell_views(found@) =~= before + bundle_smells(tb, rules@, *bundle));
                        }
                    },
                }
            },
        }
        proof {
            let next = bundles@.subrange(0, b + 1);
            assert(next.drop_last() == bundles@.subrange(0, b as int));
            assert(next.last() == *bundle);
            assert(smell_views(found@) =~= after_rules + bundles_smells(tb, rules@, next));
        }
        b += 1;
    }
    proof {
        assert(bundles@.subrange(0, bundles@.len() as int) == bundles@);
    }
    let ghost after_bundles = smell_views(found@);
    let mut w: usize = 0;
    proof {
        assert(waivers@.subrange(0, 0) =~= seq![]);
        assert(after_bundles + waivers_smells(tb, waivers@.subrange(0, 0)) =~= after_bundles);
    }
    while w < waivers.len()
        invariant
            w <= waivers.len(),
            tb == text.spec_bytes(),
            tb.len() < usize::MAX,
            smell_views(found@) == after_bundles + waivers_smells(tb, waivers@.subrange(0, w as int)),
        decreases waivers.len() - w,
    {
        let ghost before = smell_views(found@);
        let waiver = &waivers[w];
        match &waiver.rule {
            WaivedRule::Undeclared => {
                push_smell_at(&mut found, text, waiver.start, WAIVER_NAMES_NO_RULE);
            },
            WaivedRule::Unreachable(key) => {
                let smell = Smell { at: Where::Key(key.clone()), id: WAIVER_UNREACHABLE_KIND };
                proof {
                    assert(smell_views(found@.push(smell)) =~= smell_views(found@).push(smell_view(smell)));
                }
                found.push(smell);
            },
            WaivedRule::Reachable => {},
        }
        let ghost mid = smell_views(found@);
        if waiver.expired {
            push_smell_at(&mut found, text, waiver.start, WAIVER_EXPIRED);
        }
        proof {
            assert(smell_views(found@) =~= before + waiver_smells(tb, *waiver));
            let next = waivers@.subrange(0, w + 1);
            assert(next.drop_last() == waivers@.subrange(0, w as int));
            assert(next.last() == *waiver);
            assert(smell_views(found@) =~= after_bundles + waivers_smells(tb, next));
        }
        w += 1;
    }
    proof {
        assert(waivers@.subrange(0, waivers@.len() as int) == waivers@);
    }
    let ghost after_waivers = smell_views(found@);
    let mut k: usize = 0;
    while k < weakenings.len()
        invariant
            k <= weakenings.len(),
            smell_views(found@) == after_waivers + weakenings@.subrange(0, k as int).map_values(
                |x: Weakened| weakened_view(x),
            ),
        decreases weakenings.len() - k,
    {
        let smell = Smell { at: Where::Key(weakenings[k].key.clone()), id: weakenings[k].kind };
        proof {
            assert(smell_views(found@.push(smell)) =~= smell_views(found@).push(smell_view(smell)));
            assert(weakenings@.subrange(0, k + 1).map_values(|x: Weakened| weakened_view(x))
                =~= weakenings@.subrange(0, k as int).map_values(|x: Weakened| weakened_view(x)).push(
                weakened_view(weakenings@[k as int]),
            ));
        }
        found.push(smell);
        k += 1;
    }
    proof {
        assert(weakenings@.subrange(0, weakenings@.len() as int) == weakenings@);
        assert(smell_views(found@) =~= raw_smells(tb, *located, bundles@, waivers@, weakenings@));
    }
    sorted_smells(found)
}

// ---------------------------------------------------------------------------
// Admitting a weakening.
// ---------------------------------------------------------------------------

/// What the groom recorded, or that there was no groom to read.
#[derive(Debug, Clone, PartialEq, Eq)]
pub enum Groom {
    /// No receipt could be read. Could-not-look, so the trailer alone
    /// decides.
    Unreadable,
    /// A receipt was read: the pairs it admits, in order and each once. It
    /// may be empty, and an empty one refuses.
    Read(Vec<String>),
}

/// A groom as plain values: `None` where there was none to read.
pub open spec fn groom_view(g: Groom) -> Option<Seq<Seq<char>>> {
    match g {
        Groom::Unreadable => None,
        Groom::Read(v) => Some(string_views(v@)),
    }
}

/// Why one smell was admitted, or that it was not.
#[derive(Debug, Clone, Copy, PartialEq, Eq)]
pub enum Admission {
    /// No trailer names it, or a groom that looked did not.
    Refused,
    /// A trailer names it and there is no groom to check it against.
    TrailerAlone,
    /// A trailer names it and the groom named it too.
    Groomed,
}

/// The token an admission is written as.
pub open spec fn admission_token(a: Admission) -> Seq<char> {
    match a {
        Admission::Refused => "refused"@,
        Admission::TrailerAlone => "trailer-alone"@,
        Admission::Groomed => "groomed"@,
    }
}

impl Admission {
    /// The stable lowercase token.
    pub fn as_str(self) -> (r: &'static str)
        ensures
            r@ == admission_token(self),
    {
        match self {
            Admission::Refused => "refused",
            Admission::TrailerAlone => "trailer-alone",
            Admission::Groomed => "groomed",
        }
    }
}

/// A set of strings, held in order with each once, with `x` put in.
pub open spec fn set_put(s: Seq<Seq<char>>, x: Seq<char>) -> Seq<Seq<char>>
    decreases s.len(),
{
    if s.len() == 0 {
        seq![x]
    } else if s[0] == x {
        s
    } else if lex_le(x, s[0]) {
        seq![x] + s
    } else {
        seq![s[0]] + set_put(s.drop_first(), x)
    }
}

proof fn lemma_set_put_skip(s: Seq<Seq<char>>, p: int, x: Seq<char>)
    requires
        0 <= p < s.len(),
        lex_le(s[p], x),
        s[p] != x,
    ensures
        set_put(s.subrange(p, s.len() as int), x) == seq![s[p]] + set_put(
            s.subrange(p + 1, s.len() as int),
            x,
        ),
{
    let t = s.subrange(p, s.len() as int);
    assert(t[0] == s[p]);
    assert(t.drop_first() == s.subrange(p + 1, s.len() as int));
    if lex_le(x, s[p]) {
        crate::text::lemma_lex_antisym(x, s[p]);
    }
}

/// Put `x` into a set held in order.
pub fn set_insert(v: &mut Vec<String>, x: String)
    ensures
        string_views(final(v)@) == set_put(string_views(old(v)@), x@),
{
    let ghost s = string_views(v@);
    let xc = chars_of(x.as_str());
    let mut p: usize = 0;
    proof {
        assert(s.subrange(0, 0) + s.subrange(0, s.len() as int) == s);
    }
    while p < v.len()
        invariant
            p <= v.len(),
            s == string_views(v@),
            xc@ == x@,
            set_put(s, x@) == s.subrange(0, p as int) + set_put(
                s.subrange(p as int, s.len() as int),
                x@,
            ),
        ensures
            p <= v.len(),
            s == string_views(v@),
            set_put(s, x@) == s.subrange(0, p as int) + set_put(
                s.subrange(p as int, s.len() as int),
                x@,
            ),
            p < v.len() ==> (s[p as int] == x@ || !lex_le(s[p as int], x@)),
        decreases v.len() - p,
    {
        let vc = chars_of(v[p].as_str());
        if same(vc.as_slice(), xc.as_slice()) || !lex_le_exec(vc.as_slice(), xc.as_slice()) {
            break;
        }
        proof {
            lemma_set_put_skip(s, p as int, x@);
            assert(s.subrange(0, p + 1) == s.subrange(0, p as int).push(s[p as int]));
        }
        p += 1;
    }
    let ghost t = s.subrange(p as int, s.len() as int);
    if p < v.len() {
        proof {
            assert(t[0] == s[p as int]);
            assert(t.drop_first() == s.subrange(p + 1, s.len() as int));
        }
        let vc = chars_of(v[p].as_str());
        if same(vc.as_slice(), xc.as_slice()) {
            proof {
                assert(s.subrange(0, p as int) + t == s);
            }
            return;
        }
        proof {
            crate::text::lemma_lex_total(s[p as int], x@);
        }
    }
    v.insert(p, x);
    proof {
        assert(string_views(v@) == s.subrange(0, p as int) + (seq![x@] + t));
    }
}

/// A set built by putting in each of `xs`, in order.
pub open spec fn set_of(xs: Seq<Seq<char>>) -> Seq<Seq<char>>
    decreases xs.len(),
{
    if xs.len() == 0 {
        seq![]
    } else {
        set_put(set_of(xs.drop_last()), xs.last())
    }
}

/// The pair a receipt line admits: `weakens <issue key> <pair>`. The issue
/// key is provenance, not part of the pair.
pub open spec fn receipt_pair(line: Seq<char>) -> Option<Seq<char>> {
    match strip_prefix(line, "weakens "@) {
        Some(rest) => match split_once(rest, " "@) {
            Some((_key, pair)) => Some(pair),
            None => None,
        },
        None => None,
    }
}

/// The pairs of the lines that admit one, in line order.
pub open spec fn receipt_pairs(ls: Seq<Seq<char>>) -> Seq<Seq<char>>
    decreases ls.len(),
{
    if ls.len() == 0 {
        seq![]
    } else {
        match receipt_pair(ls.last()) {
            Some(p) => receipt_pairs(ls.drop_last()).push(p),
            None => receipt_pairs(ls.drop_last()),
        }
    }
}

/// What the groom admitted, from the branch's claim receipt: `None` where
/// there is no receipt to read (no branch, or none was minted), which is
/// could-not-look. A receipt that exists admits exactly the pairs its
/// `weakens` lines name — possibly none.
pub fn groom(receipt: Option<&str>) -> (r: Groom)
    ensures
        match receipt {
            None => r == Groom::Unreadable,
            Some(body) => groom_view(r) == Some(set_of(receipt_pairs(lines(body@)))),
        },
{
    let Some(body) = receipt else {
        return Groom::Unreadable;
    };
    let c = chars_of(body);
    let ls = lines_exec(c.as_slice());
    let ghost lv = views(ls@);
    let mut found: Vec<String> = Vec::new();
    let mut i: usize = 0;
    while i < ls.len()
        invariant
            i <= ls.len(),
            lv == views(ls@),
            string_views(found@) == set_of(receipt_pairs(lv.subrange(0, i as int))),
        decreases ls.len() - i,
    {
        proof {
            assert(lv.subrange(0, i + 1).drop_last() == lv.subrange(0, i as int));
            assert(lv.subrange(0, i + 1).last() == ls@[i as int]@);
        }
        match strip_prefix_exec(ls[i].as_slice(), "weakens ") {
            Some(rest) => match split_once_exec(rest.as_slice(), " ") {
                Some((_key, pair)) => {
                    let p = string_of(pair.as_slice());
                    proof {
                        assert(receipt_pairs(lv.subrange(0, i + 1)) == receipt_pairs(
                            lv.subrange(0, i as int),
                        ).push(p@));
                        assert(receipt_pairs(lv.subrange(0, i + 1)).drop_last() == receipt_pairs(
                            lv.subrange(0, i as int),
                        ));
                    }
                    set_insert(&mut found, p);
                },
                None => {},
            },
            None => {},
        }
        i += 1;
    }
    proof {
        assert(lv.subrange(0, ls.len() as int) == lv);
    }
    Groom::Read(found)
}

/// The pair a commit trailer declares: `Weakens: <pair>`, trimmed, where it
/// is not empty.
pub open spec fn trailer_pair(t: Seq<char>) -> Option<Seq<char>> {
    match strip_prefix(t, "Weakens"@) {
        Some(rest) => match strip_prefix(rest, ": "@) {
            Some(v) => if trim(v).len() > 0 {
                Some(trim(v))
            } else {
                None
            },
            None => None,
        },
        None => None,
    }
}

/// The pairs of the trailers that declare one, in order.
pub open spec fn trailer_pairs(ts: Seq<Seq<char>>) -> Seq<Seq<char>>
    decreases ts.len(),
{
    if ts.len() == 0 {
        seq![]
    } else {
        match trailer_pair(ts.last()) {
            Some(p) => trailer_pairs(ts.drop_last()).push(p),
            None => trailer_pairs(ts.drop_last()),
        }
    }
}

/// The `Weakens:` pairs this branch's commits declare, from the trailers of
/// the commits over `base..HEAD` as git parsed them. An empty trailer
/// declares nothing.
pub fn declared(trailers: &[String]) -> (r: Vec<String>)
    ensures
        string_views(r@) == set_of(trailer_pairs(string_views(trailers@))),
{
    let ghost tv = string_views(trailers@);
    let mut found: Vec<String> = Vec::new();
    let mut i: usize = 0;
    while i < trailers.len()
        invariant
            i <= trailers.len(),
            tv == string_views(trailers@),
            string_views(found@) == set_of(trailer_pairs(tv.subrange(0, i as int))),
        decreases trailers.len() - i,
    {
        proof {
            assert(tv.subrange(0, i + 1).drop_last() == tv.subrange(0, i as int));
            assert(tv.subrange(0, i + 1).last() == trailers@[i as int]@);
        }
        let t = chars_of(trailers[i].as_str());
        match strip_prefix_exec(t.as_slice(), "Weakens") {
            Some(rest) => match strip_prefix_exec(rest.as_slice(), ": ") {
                Some(v) => {
                    let pair = trim_chars(v.as_slice());
                    if pair.len() > 0 {
                        let p = string_of(pair.as_slice());
                        proof {
                            assert(trailer_pairs(tv.subrange(0, i + 1)).drop_last()
                                == trailer_pairs(tv.subrange(0, i as int)));
                        }
                        set_insert(&mut found, p);
                    }
                },
                None => {},
            },
            None => {},
        }
        i += 1;
    }
    proof {
        assert(tv.subrange(0, trailers.len() as int) == tv);
    }
    found
}

/// How one smell is adjudicated: refused unless a trailer names its pair;
/// then admitted on the trailer alone where no groom could be read, groomed
/// where the groom names it too, and refused where a groom looked and did
/// not.
pub open spec fn admission_of(
    pair: Seq<char>,
    trailers: Seq<Seq<char>>,
    groomed: Option<Seq<Seq<char>>>,
) -> Admission {
    if trailers.contains(pair) {
        match groomed {
            None => Admission::TrailerAlone,
            Some(admitted) => if admitted.contains(pair) {
                Admission::Groomed
            } else {
                Admission::Refused
            },
        }
    } else {
        Admission::Refused
    }
}

fn holds(v: &[String], x: &[char]) -> (r: bool)
    ensures
        r == string_views(v@).contains(x@),
{
    let mut i: usize = 0;
    while i < v.len()
        invariant
            i <= v.len(),
            forall|j: int| 0 <= j < i ==> #[trigger] string_views(v@)[j] != x@,
        decreases v.len() - i,
    {
        if same_str(x, v[i].as_str()) {
            proof {
                assert(string_views(v@)[i as int] == x@);
            }
            return true;
        }
        i += 1;
    }
    false
}

/// Adjudicate each smell against the two sources. The pair a clause must
/// name is what a reader already sees in the pointer: `<smell-id> <key>`.
pub fn admissions(smells: &[Smell], trailers: &[String], groomed: &Groom) -> (r: Vec<(Smell, Admission)>)
    ensures
        r@.len() == smells@.len(),
        forall|i: int|
            0 <= i < smells@.len() ==> smell_view(r@[i].0) == smell_view(#[trigger] smells@[i])
                && r@[i].1 == admission_of(
                smell_pair(smell_view(smells@[i])),
                string_views(trailers@),
                groom_view(*groomed),
            ),
{
    let mut out: Vec<(Smell, Admission)> = Vec::new();
    let mut i: usize = 0;
    while i < smells.len()
        invariant
            i <= smells.len(),
            out@.len() == i,
            forall|k: int|
                0 <= k < i ==> smell_view(out@[k].0) == smell_view(#[trigger] smells@[k])
                    && out@[k].1 == admission_of(
                    smell_pair(smell_view(smells@[k])),
                    string_views(trailers@),
                    groom_view(*groomed),
                ),
        decreases smells.len() - i,
    {
        let s = &smells[i];
        let at = s.at.text();
        let mut pair = String::from_str(s.id);
        pair.append(" ");
        pair.append(at.as_str());
        let pc = chars_of(pair.as_str());
        let admission = if holds(trailers, pc.as_slice()) {
            match groomed {
                Groom::Unreadable => Admission::TrailerAlone,
                Groom::Read(admitted) => if holds(admitted.as_slice(), pc.as_slice()) {
                    Admission::Groomed
                } else {
                    Admission::Refused
                },
            }
        } else {
            Admission::Refused
        };
        proof {
            assert(pc@ == smell_pair(smell_view(smells@[i as int])));
            assert(admission == admission_of(
                smell_pair(smell_view(smells@[i as int])),
                string_views(trailers@),
                groom_view(*groomed),
            ));
        }
        let c = copy_smell(s);
        let ghost before = out@;
        out.push((c, admission));
        proof {
            assert(forall|k: int| 0 <= k < i ==> out@[k] == before[k]);
            assert(out@[i as int] == (c, admission));
        }
        i += 1;
    }
    out
}

} // verus!
