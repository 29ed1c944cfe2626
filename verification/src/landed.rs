//! Whether a board column is honest about what git and the forge already
//! did.
//!
//! Two dishonest columns, in opposite directions: a row In Progress whose
//! work is on `main` (behind git), and a row a pull request body explicitly
//! declined with `DO-NOT-CLOSE` sitting in a started column anyway (declined
//! but advanced). A finding is a key, the column it holds and a reason
//! class — never a line of any body.

use vstd::prelude::*;
use vstd::string::StringExecFns;
use crate::error::UsageError;
use crate::json::{Json, items, member_of, referents, text};
use crate::text::{
    chars_of, is_whitespace, is_ws, lex_le, lex_le_exec, same_string, string_views,
};

verus! {

/// Which way a column is wrong, and therefore which remedy applies.
#[derive(Debug, Clone, Copy, PartialEq, Eq, PartialOrd, Ord)]
pub enum Reason {
    /// The row is In Progress and its work is on `main`.
    BehindGit,
    /// The PR body carried `DO-NOT-CLOSE` for this key and the row is in a
    /// started column anyway.
    DeclinedButAdvanced,
}

/// The token a reason is written as.
pub open spec fn reason_token(r: Reason) -> Seq<char> {
    match r {
        Reason::BehindGit => "behind-git"@,
        Reason::DeclinedButAdvanced => "declined-but-advanced"@,
    }
}

/// Where a row wrong for this reason should sit instead: landed work is In
/// Review; a declined row goes back to the queue it was pulled from.
pub open spec fn reason_wants(r: Reason) -> Seq<char> {
    match r {
        Reason::BehindGit => "In Review"@,
        Reason::DeclinedButAdvanced => "Todo"@,
    }
}

impl Reason {
    /// The token a reader sees.
    pub fn token(self) -> (r: &'static str)
        ensures
            r@ == reason_token(self),
    {
        match self {
            Reason::BehindGit => "behind-git",
            Reason::DeclinedButAdvanced => "declined-but-advanced",
        }
    }

    /// Where the row should sit instead.
    pub fn wants(self) -> (r: &'static str)
        ensures
            r@ == reason_wants(self),
    {
        match self {
            Reason::BehindGit => "In Review",
            Reason::DeclinedButAdvanced => "Todo",
        }
    }
}

/// One dishonest column. There is no field a body could occupy.
#[derive(Debug, Clone, PartialEq, Eq, PartialOrd, Ord)]
pub struct Finding {
    /// The issue key.
    pub id: String,
    /// The column the board currently holds.
    pub holds: String,
    /// Why it is wrong.
    pub reason: Reason,
    /// Where an asserted landing came from, when the caller's word alone is
    /// what drained the row.
    pub asserted_by: Option<String>,
}

/// A finding as plain values.
pub open spec fn finding_view(f: Finding) -> (Seq<char>, Seq<char>, Reason, Option<Seq<char>>) {
    (
        f.id@,
        f.holds@,
        f.reason,
        match f.asserted_by {
            Some(s) => Some(s@),
            None => None,
        },
    )
}

/// A board row, reduced to the two fields the sweep decides over.
#[derive(Debug, Clone, PartialEq, Eq)]
pub struct Row {
    /// The issue key.
    pub id: String,
    /// The column it holds.
    pub status: String,
}

/// The columns that mean somebody has it, it landed, or it shipped. The
/// ready queue (`Backlog`, `Todo`) is not among them.
pub open spec fn started(status: Seq<char>) -> bool {
    status == "In Progress"@ || status == "In Review"@ || status == "Done"@
}

impl Row {
    /// Whether the row is In Progress.
    pub fn is_in_progress(&self) -> (r: bool)
        ensures
            r == (self.status@ == "In Progress"@),
    {
        same_string(self.status.as_str(), "In Progress")
    }

    /// Whether the row is in a started column.
    pub fn is_started(&self) -> (r: bool)
        ensures
            r == started(self.status@),
    {
        same_string(self.status.as_str(), "In Progress") || same_string(
            self.status.as_str(),
            "In Review",
        ) || same_string(self.status.as_str(), "Done")
    }
}

/// Everything the sweep knows besides the board itself. Membership is
/// whole-value equality, never a substring.
#[derive(Debug, Clone, PartialEq, Eq)]
pub struct Evidence {
    /// Keys `main`'s history closes — claiming, never merely mentioning.
    pub claimed: Vec<String>,
    /// Keys a merged pull request closed.
    pub merged: Vec<String>,
    /// Keys the caller asserts landed, each with the ref the assertion
    /// names; where a key is asserted twice, the later ref stands.
    pub asserted: Vec<(String, String)>,
    /// Keys a PR body explicitly declined with `DO-NOT-CLOSE`.
    pub declined: Vec<String>,
}

impl Default for Evidence {
    /// No evidence of anything.
    fn default() -> (r: Evidence)
        ensures
            r.claimed@.len() == 0 && r.merged@.len() == 0 && r.asserted@.len() == 0
                && r.declined@.len() == 0,
    {
        Evidence { claimed: Vec::new(), merged: Vec::new(), asserted: Vec::new(), declined: Vec::new() }
    }
}

/// The ref asserted for a key: the last assertion that names it.
pub open spec fn asserted_ref(asserted: Seq<(Seq<char>, Seq<char>)>, id: Seq<char>) -> Option<Seq<char>>
    decreases asserted.len(),
{
    if asserted.len() == 0 {
        None
    } else if asserted.last().0 == id {
        Some(asserted.last().1)
    } else {
        asserted_ref(asserted.drop_last(), id)
    }
}

/// Evidence as plain values: claimed, merged, asserted, declined.
pub open spec fn evidence_view(e: Evidence) -> (
    Seq<Seq<char>>,
    Seq<Seq<char>>,
    Seq<(Seq<char>, Seq<char>)>,
    Seq<Seq<char>>,
) {
    (
        string_views(e.claimed@),
        string_views(e.merged@),
        e.asserted@.map_values(|p: (String, String)| (p.0@, p.1@)),
        string_views(e.declined@),
    )
}

/// Whether anything says this key's work is on `main`.
pub open spec fn landed_spec(
    e: (Seq<Seq<char>>, Seq<Seq<char>>, Seq<(Seq<char>, Seq<char>)>, Seq<Seq<char>>),
    id: Seq<char>,
) -> bool {
    e.0.contains(id) || e.1.contains(id) || asserted_ref(e.2, id) is Some
}

/// Whether the caller's word is the only thing draining this key.
pub open spec fn asserted_only_spec(
    e: (Seq<Seq<char>>, Seq<Seq<char>>, Seq<(Seq<char>, Seq<char>)>, Seq<Seq<char>>),
    id: Seq<char>,
) -> bool {
    asserted_ref(e.2, id) is Some && !e.0.contains(id) && !e.1.contains(id)
}

fn member(v: &[String], x: &str) -> (r: bool)
    ensures
        r == string_views(v@).contains(x@),
{
    let mut i: usize = 0;
    while i < v.len()
        invariant
            i <= v.len(),
            forall|j: int| 0 <= j < i ==> #[trigger] string_views(v@)[j] != x@,
        decreases v.len() - i,
    {
        if same_string(v[i].as_str(), x) {
            proof {
                assert(string_views(v@)[i as int] == x@);
            }
            return true;
        }
        i += 1;
    }
    false
}

impl Evidence {
    /// The ref the caller asserted for this key, where it asserted one.
    pub fn asserted_for(&self, id: &str) -> (r: Option<String>)
        ensures
            match r {
                Some(s) => asserted_ref(evidence_view(*self).2, id@) == Some(s@),
                None => asserted_ref(evidence_view(*self).2, id@) is None,
            },
    {
        let ghost av = evidence_view(*self).2;
        let mut i: usize = self.asserted.len();
        proof {
            assert(av.subrange(0, av.len() as int) == av);
        }
        while i > 0
            invariant
                i <= self.asserted.len(),
                av == evidence_view(*self).2,
                asserted_ref(av, id@) == asserted_ref(av.subrange(0, i as int), id@),
            decreases i,
        {
            let ghost pre = av.subrange(0, i as int);
            proof {
                assert(pre.last() == (self.asserted@[i - 1].0@, self.asserted@[i - 1].1@));
                assert(pre.drop_last() == av.subrange(0, i - 1));
            }
            if same_string(self.asserted[i - 1].0.as_str(), id) {
                return Some(self.asserted[i - 1].1.clone());
            }
            i -= 1;
        }
        None
    }

    /// Whether anything says this key's work is on `main`.
    pub fn landed(&self, id: &str) -> (r: bool)
        ensures
            r == landed_spec(evidence_view(*self), id@),
    {
        member(self.claimed.as_slice(), id) || member(self.merged.as_slice(), id)
            || self.asserted_for(id).is_some()
    }

    /// Whether the caller's word is the only thing draining this key.
    pub fn asserted_only(&self, id: &str) -> (r: bool)
        ensures
            r == asserted_only_spec(evidence_view(*self), id@),
    {
        self.asserted_for(id).is_some() && !member(self.claimed.as_slice(), id) && !member(
            self.merged.as_slice(),
            id,
        )
    }
}

/// What the sweep decided.
#[derive(Debug, Clone, PartialEq, Eq)]
pub struct Report {
    /// The dishonest columns, ordered by key so the output is byte-stable.
    pub findings: Vec<Finding>,
}

impl Report {
    /// Whether anything is wrong.
    pub fn is_clean(&self) -> (r: bool)
        ensures
            r == (self.findings@.len() == 0),
    {
        self.findings.len() == 0
    }
}

/// The finding one row earns, if any: behind git when it is In Progress and
/// anything says its work landed (naming the asserted ref when the caller's
/// word alone drained it); otherwise declined-but-advanced when the body
/// declined it and it sits in a started column.
pub open spec fn row_finding(
    id: Seq<char>,
    status: Seq<char>,
    e: (Seq<Seq<char>>, Seq<Seq<char>>, Seq<(Seq<char>, Seq<char>)>, Seq<Seq<char>>),
) -> Option<(Seq<char>, Seq<char>, Reason, Option<Seq<char>>)> {
    if status == "In Progress"@ && landed_spec(e, id) {
        Some(
            (
                id,
                status,
                Reason::BehindGit,
                if asserted_only_spec(e, id) {
                    asserted_ref(e.2, id)
                } else {
                    None
                },
            ),
        )
    } else if started(status) && e.3.contains(id) {
        Some((id, status, Reason::DeclinedButAdvanced, None))
    } else {
        None
    }
}

/// The findings of the first `k` rows, in row order.
pub open spec fn row_findings(
    rows: Seq<(Seq<char>, Seq<char>)>,
    e: (Seq<Seq<char>>, Seq<Seq<char>>, Seq<(Seq<char>, Seq<char>)>, Seq<Seq<char>>),
    k: int,
) -> Seq<(Seq<char>, Seq<char>, Reason, Option<Seq<char>>)>
    decreases k,
{
    if k <= 0 {
        seq![]
    } else {
        match row_finding(rows[k - 1].0, rows[k - 1].1, e) {
            Some(f) => row_findings(rows, e, k - 1).push(f),
            None => row_findings(rows, e, k - 1),
        }
    }
}

// ---------------------------------------------------------------------------
// The order findings are reported in.
// ---------------------------------------------------------------------------

/// The order of optional strings: absent first.
pub open spec fn opt_le(a: Option<Seq<char>>, b: Option<Seq<char>>) -> bool {
    match (a, b) {
        (None, _) => true,
        (Some(_), None) => false,
        (Some(x), Some(y)) => lex_le(x, y),
    }
}

/// The order findings are reported in: by key, then column, then reason,
/// then asserted ref — field by field, as their derived `Ord` compares them.
pub open spec fn finding_le(
    a: (Seq<char>, Seq<char>, Reason, Option<Seq<char>>),
    b: (Seq<char>, Seq<char>, Reason, Option<Seq<char>>),
) -> bool {
    if a.0 != b.0 {
        lex_le(a.0, b.0)
    } else if a.1 != b.1 {
        lex_le(a.1, b.1)
    } else if a.2 != b.2 {
        a.2 == Reason::BehindGit
    } else {
        opt_le(a.3, b.3)
    }
}

proof fn lemma_finding_le_total(
    a: (Seq<char>, Seq<char>, Reason, Option<Seq<char>>),
    b: (Seq<char>, Seq<char>, Reason, Option<Seq<char>>),
)
    ensures
        finding_le(a, b) || finding_le(b, a),
{
    crate::text::lemma_lex_total(a.0, b.0);
    crate::text::lemma_lex_total(a.1, b.1);
    match (a.3, b.3) {
        (Some(x), Some(y)) => crate::text::lemma_lex_total(x, y),
        _ => {},
    }
}

proof fn lemma_finding_le_trans(
    a: (Seq<char>, Seq<char>, Reason, Option<Seq<char>>),
    b: (Seq<char>, Seq<char>, Reason, Option<Seq<char>>),
    c: (Seq<char>, Seq<char>, Reason, Option<Seq<char>>),
)
    requires
        finding_le(a, b),
        finding_le(b, c),
    ensures
        finding_le(a, c),
{
    if a.0 != b.0 && b.0 != c.0 {
        crate::text::lemma_lex_trans(a.0, b.0, c.0);
        if a.0 == c.0 {
            crate::text::lemma_lex_antisym(a.0, b.0);
        }
    } else if a.0 == b.0 && b.0 == c.0 {
        if a.1 != b.1 && b.1 != c.1 {
            crate::text::lemma_lex_trans(a.1, b.1, c.1);
            if a.1 == c.1 {
                crate::text::lemma_lex_antisym(a.1, b.1);
            }
        } else if a.1 == b.1 && b.1 == c.1 {
            if a.2 == b.2 && b.2 == c.2 {
                match (a.3, b.3, c.3) {
                    (Some(x), Some(y), Some(z)) => crate::text::lemma_lex_trans(x, y, z),
                    _ => {},
                }
            }
        }
    }
}

/// Whether a run of findings is in report order.
pub open spec fn findings_sorted(s: Seq<(Seq<char>, Seq<char>, Reason, Option<Seq<char>>)>) -> bool {
    forall|i: int, j: int| 0 <= i < j < s.len() ==> finding_le(#[trigger] s[i], #[trigger] s[j])
}

proof fn lemma_insert_findings_sorted(
    s: Seq<(Seq<char>, Seq<char>, Reason, Option<Seq<char>>)>,
    p: int,
    x: (Seq<char>, Seq<char>, Reason, Option<Seq<char>>),
)
    requires
        findings_sorted(s),
        0 <= p <= s.len(),
        forall|k: int| 0 <= k < p ==> finding_le(#[trigger] s[k], x),
        p < s.len() ==> !finding_le(s[p], x),
    ensures
        findings_sorted(s.insert(p, x)),
{
    let n = s.insert(p, x);
    if p < s.len() {
        lemma_finding_le_total(s[p], x);
    }
    assert forall|i: int, j: int| 0 <= i < j < n.len() implies finding_le(#[trigger] n[i], #[trigger] n[j]) by {
        if i < p && j <= p {
            assert(n[i] == s[i]);
        } else if i < p && j > p {
            assert(n[i] == s[i] && n[j] == s[j - 1]);
        } else if i == p && j > p {
            assert(n[j] == s[j - 1]);
            if j - 1 > p {
                assert(finding_le(s[p], s[j - 1]));
                lemma_finding_le_trans(x, s[p], s[j - 1]);
            }
        } else {
            assert(n[i] == s[i - 1] && n[j] == s[j - 1]);
        }
    }
}

fn opt_le_exec(a: &Option<String>, b: &Option<String>) -> (r: bool)
    ensures
        r == opt_le(
            match a {
                Some(s) => Some(s@),
                None => None,
            },
            match b {
                Some(s) => Some(s@),
                None => None,
            },
        ),
{
    match (a, b) {
        (None, _) => true,
        (Some(_), None) => false,
        (Some(x), Some(y)) => {
            let xc = chars_of(x.as_str());
            let yc = chars_of(y.as_str());
            lex_le_exec(xc.as_slice(), yc.as_slice())
        },
    }
}

fn finding_le_exec(a: &Finding, b: &Finding) -> (r: bool)
    ensures
        r == finding_le(finding_view(*a), finding_view(*b)),
{
    if !same_string(a.id.as_str(), b.id.as_str()) {
        let x = chars_of(a.id.as_str());
        let y = chars_of(b.id.as_str());
        return lex_le_exec(x.as_slice(), y.as_slice());
    }
    if !same_string(a.holds.as_str(), b.holds.as_str()) {
        let x = chars_of(a.holds.as_str());
        let y = chars_of(b.holds.as_str());
        return lex_le_exec(x.as_slice(), y.as_slice());
    }
    match (a.reason, b.reason) {
        (Reason::BehindGit, Reason::DeclinedButAdvanced) => true,
        (Reason::DeclinedButAdvanced, Reason::BehindGit) => false,
        _ => opt_le_exec(&a.asserted_by, &b.asserted_by),
    }
}

/// The views of a run of findings.
pub open spec fn finding_views(v: Seq<Finding>) -> Seq<(Seq<char>, Seq<char>, Reason, Option<Seq<char>>)> {
    v.map_values(|f: Finding| finding_view(f))
}

/// Decide both directions over a board and the evidence about it. Pure:
/// no clock, no filesystem, no process. The findings are those of
/// `row_findings`, in report order.
pub fn decide(rows: &[Row], evidence: &Evidence) -> (r: Report)
    ensures
        findings_sorted(finding_views(r.findings@)),
        finding_views(r.findings@).to_multiset() == row_findings(
            rows@.map_values(|x: Row| (x.id@, x.status@)),
            evidence_view(*evidence),
            rows@.len() as int,
        ).to_multiset(),
{
    let ghost rv = rows@.map_values(|x: Row| (x.id@, x.status@));
    let ghost ev = evidence_view(*evidence);
    let mut findings: Vec<Finding> = Vec::new();
    let mut k: usize = 0;
    proof {
        assert(finding_views(findings@) =~= seq![]);
    }
    while k < rows.len()
        invariant
            k <= rows.len(),
            rv == rows@.map_values(|x: Row| (x.id@, x.status@)),
            ev == evidence_view(*evidence),
            findings_sorted(finding_views(findings@)),
            finding_views(findings@).to_multiset() == row_findings(rv, ev, k as int).to_multiset(),
        decreases rows.len() - k,
    {
        let row = &rows[k];
        proof {
            assert(rv[k as int] == (row.id@, row.status@));
        }
        let found: Option<Finding> = if row.is_in_progress() && evidence.landed(row.id.as_str()) {
            let asserted_by = if evidence.asserted_only(row.id.as_str()) {
                evidence.asserted_for(row.id.as_str())
            } else {
                None
            };
            Some(
                Finding {
                    id: row.id.clone(),
                    holds: row.status.clone(),
                    reason: Reason::BehindGit,
                    asserted_by,
                },
            )
        } else if row.is_started() && member(evidence.declined.as_slice(), row.id.as_str()) {
            Some(
                Finding {
                    id: row.id.clone(),
                    holds: row.status.clone(),
                    reason: Reason::DeclinedButAdvanced,
                    asserted_by: None,
                },
            )
        } else {
            None
        };
        match found {
            Some(f) => {
                let ghost fv = finding_views(findings@);
                let mut p: usize = 0;
                while p < findings.len()
                    invariant
                        p <= findings.len(),
                        fv == finding_views(findings@),
                        forall|q: int| 0 <= q < p ==> finding_le(#[trigger] fv[q], finding_view(f)),
                    ensures
                        p <= findings.len(),
                        forall|q: int| 0 <= q < p ==> finding_le(#[trigger] fv[q], finding_view(f)),
                        p < findings.len() ==> !finding_le(fv[p as int], finding_view(f)),
                    decreases findings.len() - p,
                {
                    if !finding_le_exec(&findings[p], &f) {
                        break;
                    }
                    p += 1;
                }
                proof {
                    lemma_insert_findings_sorted(fv, p as int, finding_view(f));
                    assert(finding_views(findings@.insert(p as int, f)) == fv.insert(
                        p as int,
                        finding_view(f),
                    ));
                    vstd::seq_lib::to_multiset_insert(fv, p as int, finding_view(f));
                    vstd::seq_lib::to_multiset_build(row_findings(rv, ev, k as int), finding_view(f));
                    assert(row_finding(rv[k as int].0, rv[k as int].1, ev) == Some(finding_view(f)));
                }
                findings.insert(p, f);
            },
            None => {
                proof {
                    assert(row_finding(rv[k as int].0, rv[k as int].1, ev) is None);
                }
            },
        }
        k += 1;
    }
    Report { findings }
}

/// Whether a token is a key this sweep can decide over: not empty, and no
/// white space in it.
pub open spec fn is_key_spec(t: Seq<char>) -> bool {
    t.len() > 0 && forall|i: int| 0 <= i < t.len() ==> !is_ws(#[trigger] t[i])
}

/// Whether a token is a tracker key this sweep can decide over; a stray
/// header or a blank field is skipped rather than read as a key.
pub fn is_key(token: &str) -> (r: bool)
    ensures
        r == is_key_spec(token@),
{
    let t = chars_of(token);
    if t.len() == 0 {
        return false;
    }
    let mut i: usize = 0;
    while i < t.len()
        invariant
            i <= t.len(),
            t@ == token@,
            forall|j: int| 0 <= j < i ==> !is_ws(#[trigger] t@[j]),
        decreases t.len() - i,
    {
        if is_whitespace(t[i]) {
            return false;
        }
        i += 1;
    }
    true
}

// ---------------------------------------------------------------------------
// Reading the board out of its payloads
// ---------------------------------------------------------------------------

/// The payloads a value carries: one payload, a bare array of them, or an
/// array wrapping one such array.
pub open spec fn payloads_in(v: Json) -> Seq<Json> {
    match v {
        Json::Array(xs) => if xs@.len() == 1 && items(xs@[0]) is Some {
            items(xs@[0])->0
        } else {
            xs@
        },
        _ => seq![v],
    }
}

/// The row a payload carries: its `id` and `status`, both strings.
pub open spec fn row_in(item: Json) -> Option<(Seq<char>, Seq<char>)> {
    match (crate::json::member(item, "id"@), crate::json::member(item, "status"@)) {
        (Some(i), Some(st)) => match (text(i), text(st)) {
            (Some(a), Some(b)) => Some((a, b)),
            _ => None,
        },
        _ => None,
    }
}

/// The message a value that is not a set of payloads is refused with.
pub open spec fn not_payloads_message() -> Seq<char> {
    "landed: not a set of get_issue payloads (need id and status per issue)"@
}

/// A row as plain values.
pub open spec fn row_pair(r: Row) -> (Seq<char>, Seq<char>) {
    (r.id@, r.status@)
}

fn text_member(item: &Json, key: &str) -> (r: Option<String>)
    ensures
        match r {
            Some(t) => crate::json::member(*item, key@) matches Some(m) && text(m) == Some(t@),
            None => !(crate::json::member(*item, key@) matches Some(m) && text(m) is Some),
        },
{
    match member_of(item, key) {
        Some(Json::Text(t)) => Some(t.clone()),
        _ => None,
    }
}

/// Parse the board out of a `get_issue` payload set: one row per payload,
/// in order.
///
/// A value that is not a set of payloads carrying a string `id` and a string
/// `status` each is refused: "could not read the input", never a clean board.
pub fn rows_from(value: &Json) -> (r: Result<Vec<Row>, UsageError>)
    ensures
        r is Ok <==> (forall|k: int|
            0 <= k < payloads_in(*value).len() ==> #[trigger] row_in(payloads_in(*value)[k]) is Some),
        r matches Ok(rows) ==> rows@.len() == payloads_in(*value).len() && forall|k: int|
            0 <= k < rows@.len() ==> Some(row_pair(#[trigger] rows@[k])) == row_in(
                payloads_in(*value)[k],
            ),
        r matches Err(e) ==> e.message@ == not_payloads_message(),
{
    let mut found: Vec<&Json> = Vec::new();
    match value {
        Json::Array(xs) => {
            let mut wrapped = false;
            if xs.len() == 1 {
                match &xs[0] {
                    Json::Array(inner) => {
                        wrapped = true;
                        let mut i: usize = 0;
                        while i < inner.len()
                            invariant
                                i <= inner.len(),
                                referents(found@) == inner@.subrange(0, i as int),
                            decreases inner.len() - i,
                        {
                            proof {
                                assert(referents(found@.push(&inner[i as int])) =~= referents(found@).push(inner@[i as int]));
                                assert(inner@.subrange(0, i + 1) =~= inner@.subrange(0, i as int).push(inner@[i as int]));
                            }
                            found.push(&inner[i]);
                            i += 1;
                        }
                        proof {
                            assert(inner@.subrange(0, inner.len() as int) == inner@);
                        }
                    },
                    _ => {},
                }
            }
            if !wrapped {
                let mut i: usize = 0;
                proof {
                    assert(referents(found@) =~= xs@.subrange(0, 0));
                }
                while i < xs.len()
                    invariant
                        i <= xs.len(),
                        referents(found@) == xs@.subrange(0, i as int),
                    decreases xs.len() - i,
                {
                    proof {
                        assert(referents(found@.push(&xs[i as int])) =~= referents(found@).push(xs@[i as int]));
                        assert(xs@.subrange(0, i + 1) =~= xs@.subrange(0, i as int).push(xs@[i as int]));
                    }
                    found.push(&xs[i]);
                    i += 1;
                }
                proof {
                    assert(xs@.subrange(0, xs.len() as int) == xs@);
                }
            }
        },
        _ => {
            found.push(value);
            proof {
                assert(referents(found@) =~= seq![*value]);
            }
        },
    }
    let ghost items_v = payloads_in(*value);
    assert(referents(found@) == items_v);
    let mut rows: Vec<Row> = Vec::new();
    let mut k: usize = 0;
    while k < found.len()
        invariant
            k <= found.len(),
            referents(found@) == items_v,
            items_v == payloads_in(*value),
            rows@.len() == k,
            forall|j: int| 0 <= j < k ==> #[trigger] row_in(items_v[j]) is Some,
            forall|j: int| 0 <= j < k ==> Some(row_pair(#[trigger] rows@[j])) == row_in(items_v[j]),
        decreases found.len() - k,
    {
        let item: &Json = found[k];
        proof {
            assert(items_v[k as int] == *item);
        }
        let id = text_member(item, "id");
        let status = text_member(item, "status");
        match (id, status) {
            (Some(i), Some(st)) => {
                rows.push(Row { id: i, status: st });
            },
            _ => {
                proof {
                    assert(row_in(items_v[k as int]) is None);
                }
                return Err(
                    UsageError::new(
                        String::from_str(
                            "landed: not a set of get_issue payloads (need id and status per issue)",
                        ),
                    ),
                );
            },
        }
        k += 1;
    }
    Ok(rows)
}

} // verus!
