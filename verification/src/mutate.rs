//! Mutation coverage over the declared gate set.
//!
//! A gate is covered when a stated one-line corruption of it makes a named
//! case in its declared suite go red; a pass under mutation is the defect.
//! This module holds everything the sweep decides: how declarations are read
//! out of a source, how a gate name resolves to sources and a suite, what one
//! row's observations add up to, what a sweep and a census answer, and the
//! exit code each of them carries. Staging a tree and spawning suites is the
//! caller's; every answer they bring back is judged here.

use vstd::prelude::*;
use vstd::string::StringExecFns;
use crate::error::UsageError;
use crate::exit::ExitCode;
use crate::text::{
    all_digits, chars_of, contains, contains_exec, decimal, lines, lines_exec, nat_string,
    parse_usize, parse_usize_exec, same, same_str, same_string, split, split_exec, split_once,
    split_once_exec, starts_with, starts_with_str, string_of, string_views, strip_prefix,
    strip_prefix_exec, strip_suffix, strip_suffix_exec, trim, trim_chars, views,
};

verus! {

// ---------------------------------------------------------------------------
// Markers and the fixed paths.
// ---------------------------------------------------------------------------

/// A mutation row's marker. The trailing space keeps the four markers apart.
pub const ROW: &'static str = "MUTANT ";

/// A declared suite's marker.
pub const SUITE: &'static str = "MUTANT-SUITE ";

/// A known-dead predicate's owning row.
pub const OWNER: &'static str = "MUTANT-OWNER ";

/// An exemption's marker.
pub const EXEMPT: &'static str = "MUTANT-EXEMPT ";

/// Where the engine's Rust sources live, relative to the repository root.
pub const ENGINE: &'static str = "crates/batten/src";

/// The namespace an engine subject's name carries.
pub const ENGINE_PREFIX: &'static str = "engine-";

/// Where a preset's modules live, relative to the repository root.
pub const PRESETS: &'static str = "crates/batten/src/policy/presets";

/// The vendored bats runner, relative to the repository root.
pub const BATS: &'static str = "tests/bats/bin/bats";

/// The staged tree's own cargo target directory, under `target/`.
pub const SUITE_TARGET: &'static str = "target/mutate-cargo";

/// The manifest of what a previous run staged, inside the staged tree.
pub const MANIFEST: &'static str = ".mutate-staged";

// ---------------------------------------------------------------------------
// Paths.
// ---------------------------------------------------------------------------

/// The last segment of `segs` that names something: an empty segment or a
/// `.` names nothing.
pub open spec fn last_named(segs: Seq<Seq<char>>) -> Option<Seq<char>>
    decreases segs.len(),
{
    if segs.len() == 0 {
        None
    } else if segs.last().len() > 0 && segs.last() != "."@ {
        Some(segs.last())
    } else {
        last_named(segs.drop_last())
    }
}

/// A path's file name, as `Path::file_name` reads it: the last segment that
/// names something, unless that is `..`.
pub open spec fn file_name(path: Seq<char>) -> Option<Seq<char>> {
    match last_named(split(path, '/')) {
        Some(s) => if s == ".."@ {
            None
        } else {
            Some(s)
        },
        None => None,
    }
}

/// The index of the last `.` before `j`, or `-1`.
pub open spec fn last_dot(s: Seq<char>, j: int) -> int
    decreases j,
{
    if j <= 0 {
        -1
    } else if s[j - 1] == '.' {
        j - 1
    } else {
        last_dot(s, j - 1)
    }
}

/// A file name's extension, as `Path::extension` reads it: what follows the
/// last `.`, when that dot is not the name's first character.
pub open spec fn extension_of(name: Seq<char>) -> Option<Seq<char>> {
    let k = last_dot(name, name.len() as int);
    if k > 0 {
        Some(name.subrange(k + 1, name.len() as int))
    } else {
        None
    }
}

/// Whether a repo-relative path carries this extension.
pub open spec fn has_extension_spec(path: Seq<char>, ext: Seq<char>) -> bool {
    match file_name(path) {
        Some(n) => extension_of(n) == Some(ext),
        None => false,
    }
}

proof fn lemma_last_dot_range(s: Seq<char>, j: int)
    requires
        j <= s.len(),
    ensures
        -1 <= last_dot(s, j) < j || (j <= 0 && last_dot(s, j) == -1),
        last_dot(s, j) >= 0 ==> s[last_dot(s, j)] == '.',
    decreases j,
{
    if j > 0 && s[j - 1] != '.' {
        lemma_last_dot_range(s, j - 1);
    }
}

fn file_name_exec(path: &[char]) -> (r: Option<Vec<char>>)
    ensures
        match r {
            Some(n) => file_name(path@) == Some(n@),
            None => file_name(path@) is None,
        },
{
    let segs = split_exec(path, '/');
    let ghost sv = views(segs@);
    proof {
        assert(sv.subrange(0, segs.len() as int) == sv);
    }
    let mut i: usize = segs.len();
    while i > 0
        invariant
            i <= segs.len(),
            sv == views(segs@),
            sv == split(path@, '/'),
            last_named(sv) == last_named(sv.subrange(0, i as int)),
        decreases i,
    {
        let seg = &segs[i - 1];
        proof {
            assert(sv.subrange(0, i as int).last() == seg@);
            assert(sv.subrange(0, i as int).drop_last() == sv.subrange(0, i - 1));
        }
        if seg.len() > 0 && !same_str(seg.as_slice(), ".") {
            if same_str(seg.as_slice(), "..") {
                return None;
            }
            return Some(crate::text::slice_of(seg.as_slice(), 0, seg.len()));
        }
        i -= 1;
    }
    None
}

fn extension_exec(name: &[char]) -> (r: Option<Vec<char>>)
    ensures
        match r {
            Some(e) => extension_of(name@) == Some(e@),
            None => extension_of(name@) is None,
        },
{
    let mut j: usize = name.len();
    while j > 0
        invariant
            j <= name.len(),
            last_dot(name@, name@.len() as int) == last_dot(name@, j as int),
        decreases j,
    {
        if name[j - 1] == '.' {
            if j - 1 > 0 {
                return Some(crate::text::slice_of(name, j, name.len()));
            }
            return None;
        }
        j -= 1;
    }
    None
}

/// Whether a repo-relative path carries this extension.
pub fn has_extension(path: &str, extension: &str) -> (r: bool)
    ensures
        r == has_extension_spec(path@, extension@),
{
    let p = chars_of(path);
    match file_name_exec(p.as_slice()) {
        Some(n) => match extension_exec(n.as_slice()) {
            Some(e) => same_str(e.as_slice(), extension),
            None => false,
        },
        None => false,
    }
}

// ---------------------------------------------------------------------------
// Rows, suites, gates.
// ---------------------------------------------------------------------------

/// One declared mutation: `#MUTANT <slug>|<script>|<case>`.
#[derive(Debug, Clone, PartialEq, Eq)]
pub struct Row {
    /// The mutation's id, reported with a gate.
    pub slug: String,
    /// The `sed` script applied to the source.
    pub script: String,
    /// The substring naming the case this mutation must redden.
    pub want: String,
    /// The source file this row was read from, repo-relative.
    pub source: String,
}

/// A copy of a row, field by field.
pub fn copy_row(r: &Row) -> (c: Row)
    ensures
        row_view(c) == row_view(*r),
{
    Row {
        slug: r.slug.clone(),
        script: r.script.clone(),
        want: r.want.clone(),
        source: r.source.clone(),
    }
}

/// A row as plain values: slug, script, want, source.
pub open spec fn row_view(r: Row) -> (Seq<char>, Seq<char>, Seq<char>, Seq<char>) {
    (r.slug@, r.script@, r.want@, r.source@)
}

/// How a gate's suite is run.
#[derive(Debug, Clone, PartialEq, Eq)]
pub enum Suite {
    /// `tests/<name>.bats`, run through the vendored runner.
    Bats(String),
    /// A Rust suite, run as `cargo test -- <case>`; the path is read, never
    /// turned into a target name.
    Cargo { path: String },
}

/// A suite as plain values: whether it is a bats suite, and its path.
pub open spec fn suite_view(s: Suite) -> (bool, Seq<char>) {
    match s {
        Suite::Bats(p) => (true, p@),
        Suite::Cargo { path } => (false, path@),
    }
}

/// The suite a declared path names: bats by extension, cargo by extension,
/// and nothing for a path no runner here can run.
pub open spec fn declared_suite(path: Seq<char>) -> Option<(bool, Seq<char>)> {
    if has_extension_spec(path, "bats"@) {
        Some((true, path))
    } else if has_extension_spec(path, "rs"@) {
        Some((false, path))
    } else {
        None
    }
}

impl Suite {
    /// The suite a declared path names, or `None` for a path this runner has
    /// no runner for — which is reported rather than guessed at.
    pub fn declared(path: &str) -> (r: Option<Suite>)
        ensures
            match r {
                Some(s) => declared_suite(path@) == Some(suite_view(s)),
                None => declared_suite(path@) is None,
            },
    {
        if has_extension(path, "bats") {
            return Some(Suite::Bats(String::from_str(path)));
        }
        if !has_extension(path, "rs") {
            return None;
        }
        Some(Suite::Cargo { path: String::from_str(path) })
    }

    /// The repo-relative path of the file the suite lives in.
    pub fn path(&self) -> (r: &str)
        ensures
            r@ == suite_view(*self).1,
    {
        match self {
            Suite::Bats(path) => path.as_str(),
            Suite::Cargo { path } => path.as_str(),
        }
    }
}

/// One gate the sweep judges.
#[derive(Debug, Clone)]
pub struct Gate {
    /// The name the enforced set carries.
    pub name: String,
    /// The sources this gate's rows are read from, repo-relative.
    pub sources: Vec<String>,
    /// The declared suite, or the default.
    pub suite: Suite,
    /// The declared mutations, in file then declaration order.
    pub rows: Vec<Row>,
    /// The owning row a known-dead predicate declares, echoed on a survivor
    /// and deciding nothing.
    pub owner: Option<String>,
}

// ---------------------------------------------------------------------------
// Verdicts and findings.
// ---------------------------------------------------------------------------

/// What one row, or one gate, resolved to. Every variant but `Caught` is a
/// finding.
#[derive(Debug, Clone, PartialEq, Eq)]
pub enum Verdict {
    /// The mutation reddened the case it names. The only clean answer.
    Caught,
    /// The mutation ran and the case stayed green.
    Survived { want: String },
    /// The name resolves to no shell task, module or preset.
    NoSuchGate,
    /// A gate's declared suite does not exist.
    NoSuite { suite: String },
    /// A gate is in the enforced set and declares no mutation.
    NoMutantDeclared,
    /// The row does not carry exactly three fields.
    MalformedRow { fields: usize },
    /// The filter matched no case, on either the clean or the mutated run.
    NamesNoCase { want: String },
    /// The case was already red before the mutation.
    CaseAlreadyRed { want: String },
    /// The filter selected the whole suite.
    FilterNamesEveryCase { want: String },
    /// The script would not apply.
    UnappliableMutation,
    /// The script changed nothing, so it proves nothing.
    InertMutation,
    /// The diff touched only declaration lines.
    SelfMutatingRow,
}

/// A verdict as plain values.
pub enum VerdictView {
    Caught,
    Survived(Seq<char>),
    NoSuchGate,
    NoSuite(Seq<char>),
    NoMutantDeclared,
    MalformedRow(nat),
    NamesNoCase(Seq<char>),
    CaseAlreadyRed(Seq<char>),
    FilterNamesEveryCase(Seq<char>),
    UnappliableMutation,
    InertMutation,
    SelfMutatingRow,
}

/// The view of a verdict.
pub open spec fn verdict_view(v: Verdict) -> VerdictView {
    match v {
        Verdict::Caught => VerdictView::Caught,
        Verdict::Survived { want } => VerdictView::Survived(want@),
        Verdict::NoSuchGate => VerdictView::NoSuchGate,
        Verdict::NoSuite { suite } => VerdictView::NoSuite(suite@),
        Verdict::NoMutantDeclared => VerdictView::NoMutantDeclared,
        Verdict::MalformedRow { fields } => VerdictView::MalformedRow(fields as nat),
        Verdict::NamesNoCase { want } => VerdictView::NamesNoCase(want@),
        Verdict::CaseAlreadyRed { want } => VerdictView::CaseAlreadyRed(want@),
        Verdict::FilterNamesEveryCase { want } => VerdictView::FilterNamesEveryCase(want@),
        Verdict::UnappliableMutation => VerdictView::UnappliableMutation,
        Verdict::InertMutation => VerdictView::InertMutation,
        Verdict::SelfMutatingRow => VerdictView::SelfMutatingRow,
    }
}

/// Whether a verdict says the runner could not look, rather than saying
/// something about a gate's coverage: a gate whose suite cannot be
/// resolved or run answers `3`, never "every mutation caught".
pub open spec fn unlooked_verdict(v: VerdictView) -> bool {
    match v {
        VerdictView::NoSuchGate => true,
        VerdictView::NoSuite(_) => true,
        VerdictView::NamesNoCase(_) => true,
        VerdictView::CaseAlreadyRed(_) => true,
        VerdictView::UnappliableMutation => true,
        _ => false,
    }
}

/// The word a verdict is reported as.
pub open spec fn verdict_text(v: VerdictView) -> Seq<char> {
    match v {
        VerdictView::Caught => "caught"@,
        VerdictView::Survived(w) => "SURVIVED ("@ + w + ")"@,
        VerdictView::NoSuchGate => "no-such-gate"@,
        VerdictView::NoSuite(s) => "no-suite ("@ + s + ")"@,
        VerdictView::NoMutantDeclared => "no-mutant-declared"@,
        VerdictView::MalformedRow(n) => "malformed-row ("@ + decimal(n) + " fields, want 3)"@,
        VerdictView::NamesNoCase(w) => "names-no-case ("@ + w + ")"@,
        VerdictView::CaseAlreadyRed(w) => "case-already-red ("@ + w + ")"@,
        VerdictView::FilterNamesEveryCase(w) => "filter-names-every-case ("@ + w + ")"@,
        VerdictView::UnappliableMutation => "unappliable-mutation"@,
        VerdictView::InertMutation => "inert-mutation"@,
        VerdictView::SelfMutatingRow => "self-mutating-row"@,
    }
}

fn wrapped(head: &str, inner: &str) -> (r: String)
    ensures
        r@ == head@ + inner@ + ")"@,
{
    let mut out = String::from_str(head);
    out.append(inner);
    out.append(")");
    out
}

impl Verdict {
    /// Whether this verdict is a finding at all.
    pub fn is_finding(&self) -> (r: bool)
        ensures
            r == !(verdict_view(*self) is Caught),
    {
        match self {
            Verdict::Caught => false,
            _ => true,
        }
    }

    /// Whether this verdict says the runner could not look.
    pub fn could_not_look(&self) -> (r: bool)
        ensures
            r == unlooked_verdict(verdict_view(*self)),
    {
        match self {
            Verdict::NoSuchGate => true,
            Verdict::NoSuite { .. } => true,
            Verdict::NamesNoCase { .. } => true,
            Verdict::CaseAlreadyRed { .. } => true,
            Verdict::UnappliableMutation => true,
            _ => false,
        }
    }

    /// The word this verdict is reported as.
    pub fn text(&self) -> (r: String)
        ensures
            r@ == verdict_text(verdict_view(*self)),
    {
        match self {
            Verdict::Caught => String::from_str("caught"),
            Verdict::Survived { want } => wrapped("SURVIVED (", want.as_str()),
            Verdict::NoSuchGate => String::from_str("no-such-gate"),
            Verdict::NoSuite { suite } => wrapped("no-suite (", suite.as_str()),
            Verdict::NoMutantDeclared => String::from_str("no-mutant-declared"),
            Verdict::MalformedRow { fields } => {
                let mut out = String::from_str("malformed-row (");
                let n = nat_string(*fields as u64);
                out.append(n.as_str());
                out.append(" fields, want 3)");
                out
            },
            Verdict::NamesNoCase { want } => wrapped("names-no-case (", want.as_str()),
            Verdict::CaseAlreadyRed { want } => wrapped("case-already-red (", want.as_str()),
            Verdict::FilterNamesEveryCase { want } => wrapped(
                "filter-names-every-case (",
                want.as_str(),
            ),
            Verdict::UnappliableMutation => String::from_str("unappliable-mutation"),
            Verdict::InertMutation => String::from_str("inert-mutation"),
            Verdict::SelfMutatingRow => String::from_str("self-mutating-row"),
        }
    }
}

/// One reported line: a pointer and a verdict, never a payload.
#[derive(Debug, Clone, PartialEq, Eq)]
pub struct Finding {
    /// A gate's name.
    pub gate: String,
    /// The mutation's id, absent for a gate-level verdict.
    pub slug: Option<String>,
    /// What the runner decided.
    pub verdict: Verdict,
    /// The owning row a known-dead predicate declares. Echoed, never acted on.
    pub owner: Option<String>,
}

/// An optional string as plain values.
pub open spec fn opt_view(o: Option<String>) -> Option<Seq<char>> {
    match o {
        Some(s) => Some(s@),
        None => None,
    }
}

/// A finding as plain values: gate, slug, verdict, owner.
pub open spec fn finding_view(f: Finding) -> (Seq<char>, Option<Seq<char>>, VerdictView, Option<Seq<char>>) {
    (f.gate@, opt_view(f.slug), verdict_view(f.verdict), opt_view(f.owner))
}

/// The line a finding is reported as: `<gate>[/<slug>] <verdict>`, then
/// ` [owner <row>]` where an owner is declared.
pub open spec fn finding_text(
    f: (Seq<char>, Option<Seq<char>>, VerdictView, Option<Seq<char>>),
) -> Seq<char> {
    let head = match f.1 {
        Some(slug) => f.0 + "/"@ + slug + " "@ + verdict_text(f.2),
        None => f.0 + " "@ + verdict_text(f.2),
    };
    match f.3 {
        Some(owner) => head + " [owner "@ + owner + "]"@,
        None => head,
    }
}

impl Finding {
    /// The line this finding is reported as.
    pub fn text(&self) -> (r: String)
        ensures
            r@ == finding_text(finding_view(*self)),
    {
        let mut out = self.gate.clone();
        match &self.slug {
            Some(slug) => {
                out.append("/");
                out.append(slug.as_str());
            },
            None => {},
        }
        out.append(" ");
        let v = self.verdict.text();
        out.append(v.as_str());
        match &self.owner {
            Some(owner) => {
                out.append(" [owner ");
                out.append(owner.as_str());
                out.append("]");
            },
            None => {},
        }
        out
    }
}

/// What a whole sweep answered.
#[derive(Debug, Clone)]
pub struct Sweep {
    /// Every finding, in gate then row order.
    pub findings: Vec<Finding>,
    /// How many mutations were declared across the enforced set.
    pub declared: usize,
    /// How many gates the set named.
    pub gates: usize,
}

/// The views of a run of findings.
pub open spec fn finding_views(v: Seq<Finding>) -> Seq<(Seq<char>, Option<Seq<char>>, VerdictView, Option<Seq<char>>)> {
    v.map_values(|f: Finding| finding_view(f))
}

/// How many of the first `n` findings could not look.
pub open spec fn unlooked_count(
    fs: Seq<(Seq<char>, Option<Seq<char>>, VerdictView, Option<Seq<char>>)>,
) -> nat
    decreases fs.len(),
{
    if fs.len() == 0 {
        0
    } else {
        unlooked_count(fs.drop_last()) + if unlooked_verdict(fs.last().2) {
            1nat
        } else {
            0nat
        }
    }
}

/// The exit code a sweep answers with: could-not-look wins, then a clean
/// sweep is `0`, and any other finding is the verdict.
pub open spec fn sweep_code(
    fs: Seq<(Seq<char>, Option<Seq<char>>, VerdictView, Option<Seq<char>>)>,
) -> ExitCode {
    if unlooked_count(fs) > 0 {
        ExitCode::Internal
    } else if fs.len() == 0 {
        ExitCode::Success
    } else {
        ExitCode::Violation
    }
}

impl Sweep {
    /// How many findings are could-not-look rather than a verdict about
    /// coverage; the summary never adds the two together.
    pub fn unlooked(&self) -> (r: usize)
        ensures
            r == unlooked_count(finding_views(self.findings@)),
    {
        let ghost fv = finding_views(self.findings@);
        let mut n: usize = 0;
        let mut i: usize = 0;
        while i < self.findings.len()
            invariant
                i <= self.findings.len(),
                fv == finding_views(self.findings@),
                n == unlooked_count(fv.subrange(0, i as int)),
                n <= i,
            decreases self.findings.len() - i,
        {
            proof {
                assert(fv.subrange(0, i + 1).drop_last() == fv.subrange(0, i as int));
                assert(fv.subrange(0, i + 1).last() == finding_view(self.findings@[i as int]));
            }
            if self.findings[i].verdict.could_not_look() {
                n += 1;
            }
            i += 1;
        }
        proof {
            assert(fv.subrange(0, self.findings.len() as int) == fv);
        }
        n
    }

    /// The exit code this sweep answers with.
    pub fn code(&self) -> (r: ExitCode)
        ensures
            r == sweep_code(finding_views(self.findings@)),
    {
        if self.unlooked() > 0 {
            return ExitCode::Internal;
        }
        if self.findings.len() == 0 {
            ExitCode::Success
        } else {
            ExitCode::Violation
        }
    }
}

// ---------------------------------------------------------------------------
// Reading the declarations.
// ---------------------------------------------------------------------------

/// The row body after `opener` and then `marker`, where the line starts with
/// both.
pub open spec fn marker_via(line: Seq<char>, opener: Seq<char>, marker: Seq<char>) -> Option<Seq<char>> {
    match strip_prefix(line, opener) {
        Some(rest) => strip_prefix(rest, marker),
        None => None,
    }
}

/// A marker stripped from a line, whatever comment opener introduced it:
/// `//` first, then `#`. No leading white space is allowed, and a bare marker
/// is not a declaration.
pub open spec fn strip_marker_spec(line: Seq<char>, marker: Seq<char>) -> Option<Seq<char>> {
    if marker_via(line, "//"@, marker) is Some {
        marker_via(line, "//"@, marker)
    } else {
        marker_via(line, "#"@, marker)
    }
}

fn marker_via_exec(line: &[char], opener: &str, marker: &str) -> (r: Option<Vec<char>>)
    ensures
        match r {
            Some(b) => marker_via(line@, opener@, marker@) == Some(b@),
            None => marker_via(line@, opener@, marker@) is None,
        },
{
    match strip_prefix_exec(line, opener) {
        Some(rest) => strip_prefix_exec(rest.as_slice(), marker),
        None => None,
    }
}

/// Strip a marker from a line, whatever comment opener introduced it.
pub fn strip_marker(line: &str, marker: &str) -> (r: Option<String>)
    ensures
        opt_view(r) == strip_marker_spec(line@, marker@),
{
    let l = chars_of(line);
    match marker_via_exec(l.as_slice(), "//", marker) {
        Some(b) => Some(string_of(b.as_slice())),
        None => match marker_via_exec(l.as_slice(), "#", marker) {
            Some(b) => Some(string_of(b.as_slice())),
            None => None,
        },
    }
}

/// The value after a marker on the first line, from `i` on, that carries it.
pub open spec fn declared_from(lines: Seq<Seq<char>>, marker: Seq<char>, i: int) -> Option<Seq<char>>
    decreases lines.len() - i,
{
    if i < 0 || i >= lines.len() {
        None
    } else if strip_marker_spec(lines[i], marker) is Some {
        strip_marker_spec(lines[i], marker)
    } else {
        declared_from(lines, marker, i + 1)
    }
}

/// The value after a marker on the first line that carries it.
pub fn declared(lines: &[String], marker: &str) -> (r: Option<String>)
    ensures
        opt_view(r) == declared_from(string_views(lines@), marker@, 0),
{
    let ghost lv = string_views(lines@);
    let mut i: usize = 0;
    while i < lines.len()
        invariant
            i <= lines.len(),
            lv == string_views(lines@),
            declared_from(lv, marker@, 0) == declared_from(lv, marker@, i as int),
        decreases lines.len() - i,
    {
        let got = strip_marker(lines[i].as_str(), marker);
        if got.is_some() {
            return got;
        }
        i += 1;
    }
    None
}

/// A row as read: its four fields, or the head and field count of a row that
/// does not carry exactly three.
pub open spec fn row_of(body: Seq<char>, source: Seq<char>) -> Result<
    (Seq<char>, Seq<char>, Seq<char>, Seq<char>),
    (Seq<char>, nat),
> {
    let f = split(body, '|');
    if f.len() == 3 {
        Ok((f[0], f[1], f[2], source))
    } else {
        Err((f[0], f.len()))
    }
}

/// The `#MUTANT` rows of a source, in line order.
pub open spec fn rows_of(lines: Seq<Seq<char>>, source: Seq<char>) -> Seq<
    Result<(Seq<char>, Seq<char>, Seq<char>, Seq<char>), (Seq<char>, nat)>,
>
    decreases lines.len(),
{
    if lines.len() == 0 {
        seq![]
    } else {
        let rest = rows_of(lines.drop_last(), source);
        match strip_marker_spec(lines.last(), ROW@) {
            Some(b) => rest.push(row_of(b, source)),
            None => rest,
        }
    }
}

/// A read row as plain values.
pub open spec fn row_result_view(r: Result<Row, (String, usize)>) -> Result<
    (Seq<char>, Seq<char>, Seq<char>, Seq<char>),
    (Seq<char>, nat),
> {
    match r {
        Ok(row) => Ok(row_view(row)),
        Err((head, n)) => Err((head@, n as nat)),
    }
}

/// The views of a run of read rows.
pub open spec fn row_result_views(v: Seq<Result<Row, (String, usize)>>) -> Seq<
    Result<(Seq<char>, Seq<char>, Seq<char>, Seq<char>), (Seq<char>, nat)>,
> {
    v.map_values(|r: Result<Row, (String, usize)>| row_result_view(r))
}

/// Read one row body, counting its fields before splitting them apart.
fn read_row(body: &[char], source: &str) -> (r: Result<Row, (String, usize)>)
    ensures
        row_result_view(r) == row_of(body@, source@),
{
    let fields = split_exec(body, '|');
    proof {
        crate::text::lemma_split_nonempty(body@, '|');
        assert(views(fields@)[0] == fields@[0]@);
    }
    if fields.len() == 3 {
        proof {
            assert(views(fields@)[1] == fields@[1]@);
            assert(views(fields@)[2] == fields@[2]@);
        }
        Ok(
            Row {
                slug: string_of(fields[0].as_slice()),
                script: string_of(fields[1].as_slice()),
                want: string_of(fields[2].as_slice()),
                source: String::from_str(source),
            },
        )
    } else {
        Err((string_of(fields[0].as_slice()), fields.len()))
    }
}

/// The `#MUTANT` rows in one source, refusing a row that is not three fields.
pub fn rows_in(lines: &[String], source: &str) -> (r: Vec<Result<Row, (String, usize)>>)
    ensures
        row_result_views(r@) == rows_of(string_views(lines@), source@),
{
    let ghost lv = string_views(lines@);
    let mut out: Vec<Result<Row, (String, usize)>> = Vec::new();
    let mut i: usize = 0;
    while i < lines.len()
        invariant
            i <= lines.len(),
            lv == string_views(lines@),
            row_result_views(out@) == rows_of(lv.subrange(0, i as int), source@),
        decreases lines.len() - i,
    {
        proof {
            assert(lv.subrange(0, i + 1).drop_last() == lv.subrange(0, i as int));
            assert(lv.subrange(0, i + 1).last() == lines@[i as int]@);
        }
        let l = chars_of(lines[i].as_str());
        let got = match marker_via_exec(l.as_slice(), "//", ROW) {
            Some(b) => Some(b),
            None => marker_via_exec(l.as_slice(), "#", ROW),
        };
        match got {
            Some(b) => {
                let row = read_row(b.as_slice(), source);
                proof {
                    assert(row_result_views(out@.push(row)) == row_result_views(out@).push(
                        row_result_view(row),
                    ));
                }
                out.push(row);
            },
            None => {},
        }
        i += 1;
    }
    proof {
        assert(lv.subrange(0, lines.len() as int) == lv);
    }
    out
}

/// The description a `mise` task line declares, where it declares one.
pub open spec fn description_of(line: Seq<char>) -> Option<Seq<char>> {
    match strip_prefix(line, "#MISE description=\""@) {
        Some(rest) => strip_suffix(rest, "\""@),
        None => None,
    }
}

/// The first description among the lines from `i` on.
pub open spec fn description_from(lines: Seq<Seq<char>>, i: int) -> Option<Seq<char>>
    decreases lines.len() - i,
{
    if i < 0 || i >= lines.len() {
        None
    } else if description_of(lines[i]) is Some {
        description_of(lines[i])
    } else {
        description_from(lines, i + 1)
    }
}

/// Whether a program describes itself as a gate: its first description
/// starts with `Gate` or speaks of a hook body.
pub open spec fn is_gate_spec(lines: Seq<Seq<char>>) -> bool {
    match description_from(lines, 0) {
        Some(d) => starts_with(d, "Gate"@) || contains(d, "hook body"@),
        None => false,
    }
}

/// Whether a `mise-tasks/` program describes itself as a gate, by its own
/// `#MISE description` and never a second list.
pub fn is_gate(lines: &[String]) -> (r: bool)
    ensures
        r == is_gate_spec(string_views(lines@)),
{
    let ghost lv = string_views(lines@);
    let mut i: usize = 0;
    while i < lines.len()
        invariant
            i <= lines.len(),
            lv == string_views(lines@),
            description_from(lv, 0) == description_from(lv, i as int),
        decreases lines.len() - i,
    {
        let l = chars_of(lines[i].as_str());
        let found = match strip_prefix_exec(l.as_slice(), "#MISE description=\"") {
            Some(rest) => strip_suffix_exec(rest.as_slice(), "\""),
            None => None,
        };
        match found {
            Some(d) => {
                return starts_with_str(d.as_slice(), "Gate") || contains_exec(
                    d.as_slice(),
                    "hook body",
                );
            },
            None => {},
        }
        i += 1;
    }
    false
}

/// Whether every character is an ASCII digit.
fn all_ascii_digits(s: &[char]) -> (r: bool)
    ensures
        r == all_digits(s@),
{
    let mut i: usize = 0;
    while i < s.len()
        invariant
            i <= s.len(),
            all_digits(s@.subrange(0, i as int)),
        decreases s.len() - i,
    {
        if !('0' <= s[i] && s[i] <= '9') {
            return false;
        }
        i += 1;
    }
    proof {
        assert(s@.subrange(0, s.len() as int) == s@);
    }
    true
}

/// Whether an exemption is filed: a tracker key (`CLOUD-` and digits), a
/// `|`, and a reason that is not blank.
pub open spec fn exemption_filed(row: Seq<char>) -> bool {
    match split_once(row, "|"@) {
        Some((key, why)) => trim(why).len() > 0 && match strip_prefix(key, "CLOUD-"@) {
            Some(number) => number.len() > 0 && all_digits(number),
            None => false,
        },
        None => false,
    }
}

/// Whether an exemption is filed: an issue key and a reason, separated.
pub fn exemption_is_filed(row: &str) -> (r: bool)
    ensures
        r == exemption_filed(row@),
{
    let r = chars_of(row);
    let Some((key, why)) = split_once_exec(r.as_slice(), "|") else {
        return false;
    };
    if trim_chars(why.as_slice()).len() == 0 {
        return false;
    }
    let Some(number) = strip_prefix_exec(key.as_slice(), "CLOUD-") else {
        return false;
    };
    number.len() > 0 && all_ascii_digits(number.as_slice())
}

/// The names an enforced set declares: split at `,`, trimmed, empties
/// dropped.
pub open spec fn set_names(pieces: Seq<Seq<char>>) -> Seq<Seq<char>>
    decreases pieces.len(),
{
    if pieces.len() == 0 {
        seq![]
    } else {
        let rest = set_names(pieces.drop_last());
        let t = trim(pieces.last());
        if t.len() > 0 {
            rest.push(t)
        } else {
            rest
        }
    }
}

/// The refusal an empty enforced set earns.
pub open spec fn unset_message() -> Seq<char> {
    "MUTANT_GATES is unset \u{2014} run this through `mise run mutant`, which is where the enforced set is declared. An empty set makes this a sweep that silently covers nothing, which is the defect it exists to refuse."@
}

/// A gate names the enforced set declares, from the raw `MUTANT_GATES`
/// value. An unset or empty set is a usage error rather than an empty sweep.
pub fn enforced_set(raw: &str) -> (r: Result<Vec<String>, UsageError>)
    ensures
        set_names(split(raw@, ',')).len() == 0 ==> r is Err && r->Err_0.message@ == unset_message(),
        set_names(split(raw@, ',')).len() > 0 ==> r is Ok && string_views(r->Ok_0@) == set_names(
            split(raw@, ','),
        ),
{
    let chars = chars_of(raw);
    let pieces = split_exec(chars.as_slice(), ',');
    let ghost pv = views(pieces@);
    let mut names: Vec<String> = Vec::new();
    let mut i: usize = 0;
    while i < pieces.len()
        invariant
            i <= pieces.len(),
            pv == views(pieces@),
            string_views(names@) == set_names(pv.subrange(0, i as int)),
        decreases pieces.len() - i,
    {
        proof {
            assert(pv.subrange(0, i + 1).drop_last() == pv.subrange(0, i as int));
            assert(pv.subrange(0, i + 1).last() == pieces@[i as int]@);
        }
        let t = trim_chars(pieces[i].as_slice());
        if t.len() > 0 {
            let name = string_of(t.as_slice());
            proof {
                assert(string_views(names@.push(name)) == string_views(names@).push(name@));
            }
            names.push(name);
        }
        i += 1;
    }
    proof {
        assert(pv.subrange(0, pieces.len() as int) == pv);
    }
    if names.len() == 0 {
        return Err(
            UsageError::new(
                String::from_str(
                    "MUTANT_GATES is unset \u{2014} run this through `mise run mutant`, which is where the enforced set is declared. An empty set makes this a sweep that silently covers nothing, which is the defect it exists to refuse.",
                ),
            ),
        );
    }
    Ok(names)
}

// ---------------------------------------------------------------------------
// Reading what a suite run said.
// ---------------------------------------------------------------------------

/// How many lines satisfy `keep`.
pub open spec fn count_lines(ls: Seq<Seq<char>>, keep: spec_fn(Seq<char>) -> bool) -> nat
    decreases ls.len(),
{
    if ls.len() == 0 {
        0
    } else {
        count_lines(ls.drop_last(), keep) + if keep(ls.last()) {
            1nat
        } else {
            0nat
        }
    }
}

proof fn lemma_count_lines_bound(ls: Seq<Seq<char>>, keep: spec_fn(Seq<char>) -> bool)
    ensures
        count_lines(ls, keep) <= ls.len(),
    decreases ls.len(),
{
    if ls.len() > 0 {
        lemma_count_lines_bound(ls.drop_last(), keep);
    }
}

/// A TAP result line.
pub open spec fn is_tap_line(l: Seq<char>) -> bool {
    starts_with(l, "ok "@) || starts_with(l, "not ok "@)
}

/// A libtest case line: `test <name> ... <result>`.
pub open spec fn is_libtest_line(l: Seq<char>) -> bool {
    starts_with(l, "test "@) && contains(l, " ... "@)
}

/// A bats case declaration, as written or as bats rewrote it.
pub open spec fn is_bats_case(l: Seq<char>) -> bool {
    starts_with(l, "@test "@) || starts_with(l, "bats_test_function "@)
}

/// A Rust case declaration.
pub open spec fn is_rust_case(l: Seq<char>) -> bool {
    starts_with(crate::text::trim_start(l), "#[test]"@)
}

/// Which kind of line one count keeps.
pub enum LineKind {
    Tap,
    Libtest,
    BatsCase,
    RustCase,
}

/// The predicate a kind of line stands for.
pub open spec fn kind_keeps(k: LineKind) -> spec_fn(Seq<char>) -> bool {
    match k {
        LineKind::Tap => |l: Seq<char>| is_tap_line(l),
        LineKind::Libtest => |l: Seq<char>| is_libtest_line(l),
        LineKind::BatsCase => |l: Seq<char>| is_bats_case(l),
        LineKind::RustCase => |l: Seq<char>| is_rust_case(l),
    }
}

fn keeps(k: &LineKind, l: &[char]) -> (r: bool)
    ensures
        r == (kind_keeps(*k))(l@),
{
    match k {
        LineKind::Tap => starts_with_str(l, "ok ") || starts_with_str(l, "not ok "),
        LineKind::Libtest => starts_with_str(l, "test ") && contains_exec(l, " ... "),
        LineKind::BatsCase => starts_with_str(l, "@test ") || starts_with_str(
            l,
            "bats_test_function ",
        ),
        LineKind::RustCase => {
            let t = crate::text::trim_start_chars(l);
            starts_with_str(t.as_slice(), "#[test]")
        },
    }
}

fn count_kind(ls: &[Vec<char>], k: LineKind) -> (r: usize)
    ensures
        r == count_lines(views(ls@), kind_keeps(k)),
{
    let ghost lv = views(ls@);
    let mut n: usize = 0;
    let mut i: usize = 0;
    while i < ls.len()
        invariant
            i <= ls.len(),
            lv == views(ls@),
            n == count_lines(lv.subrange(0, i as int), kind_keeps(k)),
            n <= i,
        decreases ls.len() - i,
    {
        proof {
            assert(lv.subrange(0, i + 1).drop_last() == lv.subrange(0, i as int));
            assert(lv.subrange(0, i + 1).last() == ls@[i as int]@);
        }
        if keeps(&k, ls[i].as_slice()) {
            n += 1;
        }
        i += 1;
    }
    proof {
        assert(lv.subrange(0, ls.len() as int) == lv);
    }
    n
}

/// TAP result lines in a bats run.
pub fn tap_lines(output: &str) -> (r: usize)
    ensures
        r == count_lines(lines(output@), |l: Seq<char>| is_tap_line(l)),
{
    let c = chars_of(output);
    let ls = lines_exec(c.as_slice());
    let r = count_kind(ls.as_slice(), LineKind::Tap);
    proof {
        assert(kind_keeps(LineKind::Tap) == (|l: Seq<char>| is_tap_line(l)));
    }
    r
}

/// Case result lines in a libtest run, counted rather than read off the
/// summary, so a run that died first selected nothing.
pub fn libtest_lines(output: &str) -> (r: usize)
    ensures
        r == count_lines(lines(output@), |l: Seq<char>| is_libtest_line(l)),
{
    let c = chars_of(output);
    let ls = lines_exec(c.as_slice());
    let r = count_kind(ls.as_slice(), LineKind::Libtest);
    proof {
        assert(kind_keeps(LineKind::Libtest) == (|l: Seq<char>| is_libtest_line(l)));
    }
    r
}

/// How many cases a suite's lines declare: both bats spellings for a bats
/// suite, `#[test]` for a Rust one.
pub open spec fn cases_in(bats: bool, ls: Seq<Seq<char>>) -> nat {
    if bats {
        count_lines(ls, |l: Seq<char>| is_bats_case(l))
    } else {
        count_lines(ls, |l: Seq<char>| is_rust_case(l))
    }
}

/// How many cases a suite declares in total, from its lines; a suite that
/// will not read declares none.
pub fn total_cases(suite: &Suite, lines: Option<&[String]>) -> (r: usize)
    ensures
        match lines {
            Some(ls) => r == cases_in(suite_view(*suite).0, string_views(ls@)),
            None => r == 0,
        },
{
    let Some(ls) = lines else {
        return 0;
    };
    let mut cs: Vec<Vec<char>> = Vec::new();
    let mut i: usize = 0;
    while i < ls.len()
        invariant
            i <= ls.len(),
            views(cs@) == string_views(ls@).subrange(0, i as int),
        decreases ls.len() - i,
    {
        let c = chars_of(ls[i].as_str());
        proof {
            assert(views(cs@.push(c)) == views(cs@).push(c@));
        }
        cs.push(c);
        i += 1;
    }
    proof {
        assert(string_views(ls@).subrange(0, ls.len() as int) == string_views(ls@));
    }
    match suite {
        Suite::Bats(_) => {
            let r = count_kind(cs.as_slice(), LineKind::BatsCase);
            proof {
                assert(kind_keeps(LineKind::BatsCase) == (|l: Seq<char>| is_bats_case(l)));
            }
            r
        },
        Suite::Cargo { .. } => {
            let r = count_kind(cs.as_slice(), LineKind::RustCase);
            proof {
                assert(kind_keeps(LineKind::RustCase) == (|l: Seq<char>| is_rust_case(l)));
            }
            r
        },
    }
}

/// What a filtered run selected and whether it passed: a bats run counts
/// TAP lines; a cargo run counts libtest lines and fails on a compile error
/// whatever its status said.
pub open spec fn selection_of(bats: bool, ok: bool, output: Seq<char>) -> (nat, bool) {
    if bats {
        (count_lines(lines(output), |l: Seq<char>| is_tap_line(l)), ok)
    } else {
        (
            count_lines(lines(output), |l: Seq<char>| is_libtest_line(l)),
            ok && !contains(output, "error: could not compile"@),
        )
    }
}

/// How many cases a run selected, and whether it passed.
pub fn selection(suite: &Suite, ok: bool, output: &str) -> (r: (usize, bool))
    ensures
        (r.0 as nat, r.1) == selection_of(suite_view(*suite).0, ok, output@),
{
    match suite {
        Suite::Bats(_) => (tap_lines(output), ok),
        Suite::Cargo { .. } => {
            let c = chars_of(output);
            (libtest_lines(output), ok && !contains_exec(c.as_slice(), "error: could not compile"))
        },
    }
}

/// The arguments a filtered suite run takes: the bats runner's
/// `--filter <want> <path>`, or `test -- <want>` for cargo, which names no
/// target.
pub open spec fn suite_args_of(s: (bool, Seq<char>), want: Seq<char>) -> Seq<Seq<char>> {
    if s.0 {
        seq!["--filter"@, want, s.1]
    } else {
        seq!["test"@, "--"@, want]
    }
}

/// The arguments a filtered suite run takes.
pub fn suite_args(suite: &Suite, want: &str) -> (r: Vec<String>)
    ensures
        string_views(r@) == suite_args_of(suite_view(*suite), want@),
{
    let mut out: Vec<String> = Vec::new();
    match suite {
        Suite::Bats(path) => {
            out.push(String::from_str("--filter"));
            out.push(String::from_str(want));
            out.push(path.clone());
        },
        Suite::Cargo { .. } => {
            out.push(String::from_str("test"));
            out.push(String::from_str("--"));
            out.push(String::from_str(want));
        },
    }
    proof {
        assert(string_views(out@) == suite_args_of(suite_view(*suite), want@));
    }
    out
}

/// The arguments that apply a row's script: `-i.bak <script> <source>`, the
/// one in-place spelling both seds accept.
pub fn sed_args(row: &Row) -> (r: Vec<String>)
    ensures
        string_views(r@) == seq!["-i.bak"@, row.script@, row.source@],
{
    let mut out: Vec<String> = Vec::new();
    out.push(String::from_str("-i.bak"));
    out.push(row.script.clone());
    out.push(row.source.clone());
    proof {
        assert(string_views(out@) == seq!["-i.bak"@, row.script@, row.source@]);
    }
    out
}

/// A path joined onto a root, as `Path::join` does on a `/`-separated
/// system: an absolute path replaces the root; otherwise a separator is put
/// between them unless the root is empty or already ends in one.
pub open spec fn path_join(root: Seq<char>, rel: Seq<char>) -> Seq<char> {
    if starts_with(rel, "/"@) {
        rel
    } else if root.len() == 0 {
        rel
    } else if root.last() == '/' {
        root + rel
    } else {
        root + "/"@ + rel
    }
}

/// Join a path onto a root, as `Path::join` does on a `/`-separated
/// system.
pub fn join(root: &str, rel: &str) -> (r: String)
    ensures
        r@ == path_join(root@, rel@),
{
    let rc = chars_of(rel);
    if starts_with_str(rc.as_slice(), "/") {
        return String::from_str(rel);
    }
    let c = chars_of(root);
    if c.len() == 0 {
        return String::from_str(rel);
    }
    let mut out = String::from_str(root);
    if c[c.len() - 1] != '/' {
        out.append("/");
    }
    out.append(rel);
    out
}

/// The environment every suite run carries: the sweep's own cargo target
/// directory, never the repository's, and the scratch lane.
pub fn suite_env(root: &str) -> (r: Vec<(String, String)>)
    ensures
        r@.len() == 2,
        r@[0].0@ == "CARGO_TARGET_DIR"@,
        r@[0].1@ == path_join(root@, "target/mutate-cargo"@),
        r@[1].0@ == "BATTEN_TEST_SCRATCH_LANE"@,
        r@[1].1@ == "mutate"@,
{
    proof {
        reveal_strlit("target/mutate-cargo");
        reveal_strlit("/");
        assert(!starts_with("target/mutate-cargo"@, "/"@)) by {
            if starts_with("target/mutate-cargo"@, "/"@) {
                assert("target/mutate-cargo"@.subrange(0, 1)[0] == "/"@[0]);
            }
        }
    }
    let target = join(root, "target/mutate-cargo");
    let mut out: Vec<(String, String)> = Vec::new();
    out.push((String::from_str("CARGO_TARGET_DIR"), target));
    out.push((String::from_str("BATTEN_TEST_SCRATCH_LANE"), String::from_str("mutate")));
    out
}

// ---------------------------------------------------------------------------
// The diff a mutation made.
// ---------------------------------------------------------------------------

/// A line that is a declaration rather than code.
pub open spec fn is_declaration(l: Seq<char>) -> bool {
    starts_with(crate::text::trim_start(l), "#MUTANT"@)
}

/// How many code lines of `xs` do not appear in `ys`.
pub open spec fn missing_code(xs: Seq<Seq<char>>, ys: Seq<Seq<char>>) -> nat
    decreases xs.len(),
{
    if xs.len() == 0 {
        0
    } else {
        missing_code(xs.drop_last(), ys) + if !ys.contains(xs.last()) && !is_declaration(
            xs.last(),
        ) {
            1nat
        } else {
            0nat
        }
    }
}

proof fn lemma_missing_code_bound(xs: Seq<Seq<char>>, ys: Seq<Seq<char>>)
    ensures
        missing_code(xs, ys) <= xs.len(),
    decreases xs.len(),
{
    if xs.len() > 0 {
        lemma_missing_code_bound(xs.drop_last(), ys);
    }
}

/// Whether a mutation changed the file, and how many code lines (lines on
/// either side missing from the other, declaration lines aside) it touched.
pub open spec fn diff_shape_of(before: Seq<char>, after: Seq<char>) -> (bool, nat) {
    if before == after {
        (false, 0)
    } else {
        (
            true,
            missing_code(lines(before), lines(after)) + missing_code(lines(after), lines(before)),
        )
    }
}

fn has_line(ls: &[Vec<char>], l: &[char]) -> (r: bool)
    ensures
        r == views(ls@).contains(l@),
{
    let mut i: usize = 0;
    while i < ls.len()
        invariant
            i <= ls.len(),
            forall|j: int| 0 <= j < i ==> #[trigger] views(ls@)[j] != l@,
        decreases ls.len() - i,
    {
        if same(ls[i].as_slice(), l) {
            proof {
                assert(views(ls@)[i as int] == l@);
            }
            return true;
        }
        i += 1;
    }
    false
}

fn missing_code_exec(xs: &[Vec<char>], ys: &[Vec<char>]) -> (r: usize)
    ensures
        r == missing_code(views(xs@), views(ys@)),
{
    let ghost xv = views(xs@);
    let mut n: usize = 0;
    let mut i: usize = 0;
    while i < xs.len()
        invariant
            i <= xs.len(),
            xv == views(xs@),
            n == missing_code(xv.subrange(0, i as int), views(ys@)),
            n <= i,
        decreases xs.len() - i,
    {
        proof {
            assert(xv.subrange(0, i + 1).drop_last() == xv.subrange(0, i as int));
            assert(xv.subrange(0, i + 1).last() == xs@[i as int]@);
        }
        let t = crate::text::trim_start_chars(xs[i].as_slice());
        if !has_line(ys, xs[i].as_slice()) && !starts_with_str(t.as_slice(), "#MUTANT") {
            n += 1;
        }
        i += 1;
    }
    proof {
        assert(xv.subrange(0, xs.len() as int) == xv);
    }
    n
}

/// Whether the mutation changed anything, and whether it changed anything
/// but a declaration line: a pattern spelled literally matches its own row.
pub fn diff_shape(before: &str, after: &str) -> (r: (bool, usize))
    requires
        before@.len() + after@.len() <= usize::MAX,
    ensures
        (r.0, r.1 as nat) == diff_shape_of(before@, after@),
{
    if same_string(before, after) {
        return (false, 0);
    }
    let b = chars_of(before);
    let a = chars_of(after);
    let base = lines_exec(b.as_slice());
    let head = lines_exec(a.as_slice());
    proof {
        crate::text::lemma_lines_count(b@);
        crate::text::lemma_lines_count(a@);
    }
    let gone = missing_code_exec(base.as_slice(), head.as_slice());
    let added = missing_code_exec(head.as_slice(), base.as_slice());
    proof {
        lemma_missing_code_bound(views(base@), views(head@));
        lemma_missing_code_bound(views(head@), views(base@));
    }
    (true, gone + added)
}

// ---------------------------------------------------------------------------
// The staged tree's manifest.
// ---------------------------------------------------------------------------

/// The paths a previous run staged that the listed set no longer names.
pub open spec fn stale_of(previous: Seq<Seq<char>>, listed: Seq<Seq<char>>) -> Seq<Seq<char>>
    decreases previous.len(),
{
    if previous.len() == 0 {
        seq![]
    } else {
        let rest = stale_of(previous.drop_last(), listed);
        let p = previous.last();
        if p.len() > 0 && !listed.contains(p) {
            rest.push(p)
        } else {
            rest
        }
    }
}

/// The paths a previous run's manifest names that this run does not stage,
/// which the caller clears where they are still files.
pub fn stale_paths(previous: &str, listed: &[String]) -> (r: Vec<String>)
    ensures
        string_views(r@) == stale_of(lines(previous@), string_views(listed@)),
{
    let c = chars_of(previous);
    let ls = lines_exec(c.as_slice());
    let mut tv: Vec<Vec<char>> = Vec::new();
    let mut k: usize = 0;
    while k < listed.len()
        invariant
            k <= listed.len(),
            views(tv@) == string_views(listed@).subrange(0, k as int),
        decreases listed.len() - k,
    {
        let t = chars_of(listed[k].as_str());
        proof {
            assert(views(tv@.push(t)) == views(tv@).push(t@));
        }
        tv.push(t);
        k += 1;
    }
    proof {
        assert(string_views(listed@).subrange(0, listed.len() as int) == string_views(listed@));
    }
    let ghost lv = views(ls@);
    let mut out: Vec<String> = Vec::new();
    let mut i: usize = 0;
    while i < ls.len()
        invariant
            i <= ls.len(),
            lv == views(ls@),
            lv == lines(previous@),
            views(tv@) == string_views(listed@),
            string_views(out@) == stale_of(lv.subrange(0, i as int), string_views(listed@)),
        decreases ls.len() - i,
    {
        proof {
            assert(lv.subrange(0, i + 1).drop_last() == lv.subrange(0, i as int));
            assert(lv.subrange(0, i + 1).last() == ls@[i as int]@);
        }
        if ls[i].len() > 0 && !has_line(tv.as_slice(), ls[i].as_slice()) {
            let p = string_of(ls[i].as_slice());
            proof {
                assert(string_views(out@.push(p)) == string_views(out@).push(p@));
            }
            out.push(p);
        }
        i += 1;
    }
    proof {
        assert(lv.subrange(0, ls.len() as int) == lv);
    }
    out
}

/// Pieces joined with a separator.
pub open spec fn joined(pieces: Seq<Seq<char>>, sep: Seq<char>) -> Seq<char>
    decreases pieces.len(),
{
    if pieces.len() == 0 {
        seq![]
    } else if pieces.len() == 1 {
        pieces[0]
    } else {
        joined(pieces.drop_last(), sep) + sep + pieces.last()
    }
}

/// What this run records as staged: the listed paths, one per line.
pub fn manifest_text(listed: &[String]) -> (r: String)
    ensures
        r@ == joined(string_views(listed@), "\n"@),
{
    let ghost tv = string_views(listed@);
    let mut out = String::new();
    let mut i: usize = 0;
    while i < listed.len()
        invariant
            i <= listed.len(),
            tv == string_views(listed@),
            out@ == joined(tv.subrange(0, i as int), "\n"@),
        decreases listed.len() - i,
    {
        proof {
            assert(tv.subrange(0, i + 1).drop_last() == tv.subrange(0, i as int));
            assert(tv.subrange(0, i + 1).last() == listed@[i as int]@);
        }
        if i > 0 {
            out.append("\n");
        }
        out.append(listed[i].as_str());
        i += 1;
    }
    proof {
        assert(tv.subrange(0, listed.len() as int) == tv);
    }
    out
}

// ---------------------------------------------------------------------------
// Resolving a gate.
// ---------------------------------------------------------------------------

/// A kebab name transliterated to a Rust module's snake spelling.
pub open spec fn snake(s: Seq<char>) -> Seq<char> {
    s.map_values(|c: char| if c == '-' { '_' } else { c })
}

/// The files a gate name may resolve to, in the order they are tried: a
/// shell task, a policy module, then — for an `engine-` name — the engine
/// module it transliterates to.
pub open spec fn candidates_of(name: Seq<char>) -> Seq<Seq<char>> {
    let base = seq!["mise-tasks/"@ + name + ".sh"@, "policy/"@ + name + ".rego"@];
    match strip_prefix(name, "engine-"@) {
        Some(m) => base.push("crates/batten/src/"@ + snake(m) + ".rs"@),
        None => base,
    }
}

/// The files a gate name may resolve to, in the order they are tried.
pub fn source_candidates(name: &str) -> (r: Vec<String>)
    ensures
        string_views(r@) == candidates_of(name@),
{
    let mut task = String::from_str("mise-tasks/");
    task.append(name);
    task.append(".sh");
    let mut module = String::from_str("policy/");
    module.append(name);
    module.append(".rego");
    let mut out: Vec<String> = Vec::new();
    out.push(task);
    out.push(module);
    let n = chars_of(name);
    match strip_prefix_exec(n.as_slice(), "engine-") {
        Some(m) => {
            let mut snaked: Vec<char> = Vec::new();
            let mut i: usize = 0;
            while i < m.len()
                invariant
                    i <= m.len(),
                    snaked@ == snake(m@).subrange(0, i as int),
                decreases m.len() - i,
            {
                let c = m[i];
                snaked.push(if c == '-' { '_' } else { c });
                i += 1;
            }
            proof {
                assert(snake(m@).subrange(0, m.len() as int) == snake(m@));
            }
            let mut engine = String::from_str("crates/batten/src/");
            let sn = string_of(snaked.as_slice());
            engine.append(sn.as_str());
            engine.append(".rs");
            out.push(engine);
        },
        None => {},
    }
    proof {
        assert(string_views(out@) == candidates_of(name@));
    }
    out
}

/// The first candidate, from `k` on, that is a file.
pub open spec fn first_found(cands: Seq<Seq<char>>, found: Seq<bool>, k: int) -> Option<Seq<char>>
    decreases cands.len() - k,
{
    if k < 0 || k >= cands.len() {
        None
    } else if found[k] {
        Some(cands[k])
    } else {
        first_found(cands, found, k + 1)
    }
}

/// The `.rego` files of a preset directory, as repo-relative paths.
pub open spec fn preset_paths(name: Seq<char>, files: Seq<Seq<char>>) -> Seq<Seq<char>>
    decreases files.len(),
{
    if files.len() == 0 {
        seq![]
    } else {
        let rest = preset_paths(name, files.drop_last());
        if has_extension_spec(files.last(), "rego"@) {
            rest.push("crates/batten/src/policy/presets/"@ + name + "/"@ + files.last())
        } else {
            rest
        }
    }
}

/// The sources a gate name resolves to: the first candidate that is a file,
/// else the `.rego` files of the preset directory of that name, sorted so
/// the sweep is byte-stable. `found` says which candidates are files, and
/// `preset_files` lists the preset directory (empty where it will not read).
pub fn sources_for(name: &str, found: &[bool], preset_files: &[String]) -> (r: Vec<String>)
    requires
        found@.len() == candidates_of(name@).len(),
    ensures
        match first_found(candidates_of(name@), found@, 0) {
            Some(c) => string_views(r@) == seq![c],
            None => crate::text::sorted(string_views(r@)) && string_views(r@).to_multiset()
                == preset_paths(name@, string_views(preset_files@)).to_multiset(),
        },
{
    let cands = source_candidates(name);
    let ghost cv = string_views(cands@);
    let mut k: usize = 0;
    while k < cands.len()
        invariant
            k <= cands.len(),
            cv == string_views(cands@),
            cv == candidates_of(name@),
            found@.len() == cv.len(),
            first_found(cv, found@, 0) == first_found(cv, found@, k as int),
        decreases cands.len() - k,
    {
        if found[k] {
            let c = cands[k].clone();
            let mut out: Vec<String> = Vec::new();
            out.push(c);
            proof {
                assert(string_views(out@) == seq![cv[k as int]]);
            }
            return out;
        }
        k += 1;
    }
    let ghost fv = string_views(preset_files@);
    let mut paths: Vec<String> = Vec::new();
    let mut i: usize = 0;
    while i < preset_files.len()
        invariant
            i <= preset_files.len(),
            fv == string_views(preset_files@),
            string_views(paths@) == preset_paths(name@, fv.subrange(0, i as int)),
        decreases preset_files.len() - i,
    {
        proof {
            assert(fv.subrange(0, i + 1).drop_last() == fv.subrange(0, i as int));
            assert(fv.subrange(0, i + 1).last() == preset_files@[i as int]@);
        }
        if has_extension(preset_files[i].as_str(), "rego") {
            let mut p = String::from_str("crates/batten/src/policy/presets/");
            p.append(name);
            p.append("/");
            p.append(preset_files[i].as_str());
            proof {
                assert(string_views(paths@.push(p)) == string_views(paths@).push(p@));
            }
            paths.push(p);
        }
        i += 1;
    }
    proof {
        assert(fv.subrange(0, preset_files.len() as int) == fv);
    }
    crate::text::sort_strings(paths)
}

/// A source's lines as plain values, or `None` where it would not read.
pub open spec fn text_view(t: Option<Vec<String>>) -> Option<Seq<Seq<char>>> {
    match t {
        Some(ls) => Some(string_views(ls@)),
        None => None,
    }
}

/// The views of each source's lines.
pub open spec fn text_views(v: Seq<Option<Vec<String>>>) -> Seq<Option<Seq<Seq<char>>>> {
    v.map_values(|t: Option<Vec<String>>| text_view(t))
}

/// The value of a marker in the first of the first `k` sources that
/// declares it.
pub open spec fn marker_upto(texts: Seq<Option<Seq<Seq<char>>>>, marker: Seq<char>, k: int) -> Option<
    Seq<char>,
>
    decreases k,
{
    if k <= 0 {
        None
    } else {
        let prev = marker_upto(texts, marker, k - 1);
        if prev is Some {
            prev
        } else {
            match texts[k - 1] {
                Some(ls) => declared_from(ls, marker, 0),
                None => None,
            }
        }
    }
}

/// Every row read from the first `k` sources, in source then line order.
pub open spec fn read_upto(
    texts: Seq<Option<Seq<Seq<char>>>>,
    sources: Seq<Seq<char>>,
    k: int,
) -> Seq<Result<(Seq<char>, Seq<char>, Seq<char>, Seq<char>), (Seq<char>, nat)>>
    decreases k,
{
    if k <= 0 {
        seq![]
    } else {
        read_upto(texts, sources, k - 1) + match texts[k - 1] {
            Some(ls) => rows_of(ls, sources[k - 1]),
            None => seq![],
        }
    }
}

/// The well-formed rows among those read, in order.
pub open spec fn good_rows(
    rs: Seq<Result<(Seq<char>, Seq<char>, Seq<char>, Seq<char>), (Seq<char>, nat)>>,
) -> Seq<(Seq<char>, Seq<char>, Seq<char>, Seq<char>)>
    decreases rs.len(),
{
    if rs.len() == 0 {
        seq![]
    } else {
        match rs.last() {
            Ok(r) => good_rows(rs.drop_last()).push(r),
            Err(_) => good_rows(rs.drop_last()),
        }
    }
}

/// The malformed rows among those read, each carried as a row whose script
/// cannot apply and whose want records its field count, so it is reported
/// in place rather than lost.
pub open spec fn bad_rows(
    rs: Seq<Result<(Seq<char>, Seq<char>, Seq<char>, Seq<char>), (Seq<char>, nat)>>,
    first: Seq<char>,
) -> Seq<(Seq<char>, Seq<char>, Seq<char>, Seq<char>)>
    decreases rs.len(),
{
    if rs.len() == 0 {
        seq![]
    } else {
        match rs.last() {
            Ok(_) => bad_rows(rs.drop_last(), first),
            Err((head, n)) => bad_rows(rs.drop_last(), first).push(
                (head, seq![], seq!['\0'] + "malformed:"@ + decimal(n), first),
            ),
        }
    }
}

/// A gate as plain values: name, sources, suite, rows, owner.
pub open spec fn gate_view(g: Gate) -> (
    Seq<char>,
    Seq<Seq<char>>,
    (bool, Seq<char>),
    Seq<(Seq<char>, Seq<char>, Seq<char>, Seq<char>)>,
    Option<Seq<char>>,
) {
    (
        g.name@,
        string_views(g.sources@),
        suite_view(g.suite),
        g.rows@.map_values(|r: Row| row_view(r)),
        opt_view(g.owner),
    )
}

/// What a gate name resolves to over its sources and what they hold: every
/// row in source order with the malformed ones after, the first declared
/// suite (else `tests/<name>.bats`, run by bats whatever its extension),
/// and the first declared owner.
pub open spec fn resolved(
    name: Seq<char>,
    sources: Seq<Seq<char>>,
    texts: Seq<Option<Seq<Seq<char>>>>,
) -> (
    Seq<char>,
    Seq<Seq<char>>,
    (bool, Seq<char>),
    Seq<(Seq<char>, Seq<char>, Seq<char>, Seq<char>)>,
    Option<Seq<char>>,
) {
    let all = read_upto(texts, sources, sources.len() as int);
    let path = match marker_upto(texts, SUITE@, sources.len() as int) {
        Some(p) => p,
        None => "tests/"@ + name + ".bats"@,
    };
    let suite = match declared_suite(path) {
        Some(v) => v,
        None => (true, path),
    };
    (
        name,
        sources,
        suite,
        good_rows(all) + bad_rows(all, sources[0]),
        marker_upto(texts, OWNER@, sources.len() as int),
    )
}

/// The rows of a gate as plain values.
pub open spec fn row_views(v: Seq<Row>) -> Seq<(Seq<char>, Seq<char>, Seq<char>, Seq<char>)> {
    v.map_values(|r: Row| row_view(r))
}

/// Resolve one gate name against its sources and what each holds (`None`
/// where a source would not read). `None` where the name resolves to no
/// source at all: the caller reports `no-such-gate` rather than skipping.
pub fn resolve(name: &str, sources: &[String], texts: &[Option<Vec<String>>]) -> (r: Option<Gate>)
    requires
        sources.len() == texts.len(),
    ensures
        sources.len() == 0 ==> r is None,
        sources.len() > 0 ==> r is Some && gate_view(r->0) == resolved(
            name@,
            string_views(sources@),
            text_views(texts@),
        ),
{
    if sources.len() == 0 {
        return None;
    }
    let ghost sv = string_views(sources@);
    let ghost tv = text_views(texts@);
    let mut rows: Vec<Row> = Vec::new();
    let mut bad: Vec<Row> = Vec::new();
    let mut suite: Option<String> = None;
    let mut owner: Option<String> = None;
    let mut k: usize = 0;
    while k < sources.len()
        invariant
            k <= sources.len(),
            sources.len() == texts.len(),
            sources.len() > 0,
            sv == string_views(sources@),
            tv == text_views(texts@),
            opt_view(suite) == marker_upto(tv, SUITE@, k as int),
            opt_view(owner) == marker_upto(tv, OWNER@, k as int),
            row_views(rows@) == good_rows(read_upto(tv, sv, k as int)),
            row_views(bad@) == bad_rows(read_upto(tv, sv, k as int), sv[0]),
        decreases sources.len() - k,
    {
        proof {
            assert(tv[k as int] == text_view(texts@[k as int]));
        }
        match &texts[k] {
            Some(lines) => {
                if suite.is_none() {
                    suite = declared(lines.as_slice(), SUITE);
                }
                if owner.is_none() {
                    owner = declared(lines.as_slice(), OWNER);
                }
                let read = rows_in(lines.as_slice(), sources[k].as_str());
                let ghost before = read_upto(tv, sv, k as int);
                let ghost rv = row_result_views(read@);
                let mut j: usize = 0;
                while j < read.len()
                    invariant
                        j <= read.len(),
                        sources.len() > 0,
                        sv == string_views(sources@),
                        rv == row_result_views(read@),
                        row_views(rows@) == good_rows(before + rv.subrange(0, j as int)),
                        row_views(bad@) == bad_rows(before + rv.subrange(0, j as int), sv[0]),
                    decreases read.len() - j,
                {
                    let ghost s0 = before + rv.subrange(0, j as int);
                    let ghost s1 = s0.push(rv[j as int]);
                    proof {
                        assert(before + rv.subrange(0, j + 1) == s1);
                        assert(rv[j as int] == row_result_view(read@[j as int]));
                        assert(s1.drop_last() == s0);
                        assert(s1.last() == rv[j as int]);
                    }
                    match &read[j] {
                        Ok(row) => {
                            let r = copy_row(row);
                            proof {
                                assert(row_views(rows@.push(r)) == row_views(rows@).push(
                                    row_view(r),
                                ));
                                assert(good_rows(s1) == good_rows(s0).push(row_view(*row)));
                                assert(bad_rows(s1, sv[0]) == bad_rows(s0, sv[0]));
                            }
                            rows.push(r);
                        },
                        Err((head, fields)) => {
                            let mut want = String::new();
                            crate::text::push_char(&mut want, '\0');
                            want.append("malformed:");
                            let n = nat_string(*fields as u64);
                            want.append(n.as_str());
                            let r = Row {
                                slug: head.clone(),
                                script: String::new(),
                                want,
                                source: sources[0].clone(),
                            };
                            proof {
                                assert(row_views(bad@.push(r)) == row_views(bad@).push(
                                    row_view(r),
                                ));
                                assert(row_view(r) == (head@, Seq::<char>::empty(), seq!['\0'] + "malformed:"@
                                    + decimal(*fields as nat), sv[0]));
                                assert(good_rows(s1) == good_rows(s0));
                                assert(bad_rows(s1, sv[0]) == bad_rows(s0, sv[0]).push(row_view(r)));
                            }
                            bad.push(r);
                        },
                    }
                    j += 1;
                }
                proof {
                    assert(rv.subrange(0, read.len() as int) == rv);
                    assert(read_upto(tv, sv, k + 1) == before + rv);
                }
            },
            None => {
                proof {
                    assert(read_upto(tv, sv, k + 1) == read_upto(tv, sv, k as int));
                }
            },
        }
        k += 1;
    }
    let mut all = rows;
    let ghost good = row_views(all@);
    let mut m: usize = 0;
    while m < bad.len()
        invariant
            m <= bad.len(),
            row_views(all@) == good + row_views(bad@).subrange(0, m as int),
        decreases bad.len() - m,
    {
        let r = copy_row(&bad[m]);
        proof {
            assert(row_views(all@.push(r)) == row_views(all@).push(row_view(r)));
            assert(row_views(bad@).subrange(0, m + 1) == row_views(bad@).subrange(0, m as int).push(
                row_view(r),
            ));
        }
        all.push(r);
        m += 1;
    }
    proof {
        assert(row_views(bad@).subrange(0, bad.len() as int) == row_views(bad@));
    }
    let path = match suite {
        Some(p) => p,
        None => {
            let mut p = String::from_str("tests/");
            p.append(name);
            p.append(".bats");
            p
        },
    };
    let declared_s = match Suite::declared(path.as_str()) {
        Some(s) => s,
        None => Suite::Bats(path.clone()),
    };
    let mut srcs: Vec<String> = Vec::new();
    let mut q: usize = 0;
    while q < sources.len()
        invariant
            q <= sources.len(),
            string_views(srcs@) == string_views(sources@).subrange(0, q as int),
        decreases sources.len() - q,
    {
        let c = sources[q].clone();
        proof {
            assert(string_views(srcs@.push(c)) == string_views(srcs@).push(c@));
        }
        srcs.push(c);
        q += 1;
    }
    proof {
        assert(string_views(sources@).subrange(0, sources.len() as int) == string_views(sources@));
    }
    Some(Gate { name: String::from_str(name), sources: srcs, suite: declared_s, rows: all, owner })
}

// ---------------------------------------------------------------------------
// Judging a row.
// ---------------------------------------------------------------------------

/// What the caller has observed of one row so far, in the order it is
/// asked to observe it.
#[derive(Debug, Clone, Copy, PartialEq, Eq)]
pub struct Seen {
    /// The clean filtered run: cases selected, and whether it passed.
    pub clean: Option<(usize, bool)>,
    /// How many cases the suite declares in total.
    pub total: Option<usize>,
    /// Whether the row's script applied.
    pub applied: Option<bool>,
    /// Whether the mutation changed the file, and how many code lines.
    pub shape: Option<(bool, usize)>,
    /// The mutated filtered run: cases selected, and whether it passed.
    pub mutated: Option<(usize, bool)>,
}

/// The next thing the caller must observe of a row.
#[derive(Debug, Clone, Copy, PartialEq, Eq)]
pub enum Next {
    /// Restore the previous row's subject, stage this one, and run the
    /// suite filtered to the row's case on the clean tree.
    RunClean,
    /// Count the cases the suite declares.
    CountCases,
    /// Apply the row's script.
    Apply,
    /// Compare the mutated source with the tracked one.
    DiffShape,
    /// Run the suite filtered to the row's case on the mutated tree.
    RunMutated,
}

/// Where judging a row stands: something more to observe, or the verdict.
#[derive(Debug, Clone, PartialEq, Eq)]
pub enum JudgeStep {
    /// Observe this, then ask again.
    Run(Next),
    /// The row's verdict.
    Done(Verdict),
}

/// A judging step as plain values.
pub enum StepView {
    Run(Next),
    Done(VerdictView),
}

/// The view of a judging step.
pub open spec fn step_view(s: JudgeStep) -> StepView {
    match s {
        JudgeStep::Run(n) => StepView::Run(n),
        JudgeStep::Done(v) => StepView::Done(verdict_view(v)),
    }
}

/// The field count a malformed row's want records, or 0.
pub open spec fn malformed_count(want: Seq<char>) -> nat {
    match strip_prefix(want.drop_first(), "malformed:"@) {
        Some(n) => match parse_usize(n) {
            Some(v) => v,
            None => 0,
        },
        None => 0,
    }
}

/// The one table a row is judged by. A malformed row is its verdict. The
/// case must be green before it is mutated, and a filter that names no
/// case is read before the status; a filter naming every case of a suite
/// of more than one is as vacuous as one naming none. A script that does
/// not apply, changes nothing, or changes only declaration lines proves
/// nothing. Only then does the mutated run speak: no case is could-not-
/// look, green is a survivor, red is caught.
pub open spec fn judge_of(want: Seq<char>, seen: Seen) -> StepView {
    if want.len() > 0 && want[0] == '\0' {
        StepView::Done(VerdictView::MalformedRow(malformed_count(want)))
    } else {
        match seen.clean {
            None => StepView::Run(Next::RunClean),
            Some((selected, ok)) => if selected == 0 {
                StepView::Done(VerdictView::NamesNoCase(want))
            } else if !ok {
                StepView::Done(VerdictView::CaseAlreadyRed(want))
            } else {
                match seen.total {
                    None => StepView::Run(Next::CountCases),
                    Some(total) => if total > 1 && selected >= total {
                        StepView::Done(VerdictView::FilterNamesEveryCase(want))
                    } else {
                        match seen.applied {
                            None => StepView::Run(Next::Apply),
                            Some(applied) => if !applied {
                                StepView::Done(VerdictView::UnappliableMutation)
                            } else {
                                match seen.shape {
                                    None => StepView::Run(Next::DiffShape),
                                    Some((changed, code_lines)) => if !changed {
                                        StepView::Done(VerdictView::InertMutation)
                                    } else if code_lines == 0 {
                                        StepView::Done(VerdictView::SelfMutatingRow)
                                    } else {
                                        match seen.mutated {
                                            None => StepView::Run(Next::RunMutated),
                                            Some((sel, green)) => if sel == 0 {
                                                StepView::Done(VerdictView::NamesNoCase(want))
                                            } else if green {
                                                StepView::Done(VerdictView::Survived(want))
                                            } else {
                                                StepView::Done(VerdictView::Caught)
                                            },
                                        }
                                    },
                                }
                            },
                        }
                    },
                }
            },
        }
    }
}

/// A mutation is reported caught only when every run spoke: the clean run
/// selected a case and passed, the mutation applied and changed code lines,
/// and the mutated run selected a case and failed. A survivor likewise needs
/// a mutated run that selected a case. A mutated run that selected no case
/// is never caught or survived coverage: once the earlier gates passed, it
/// is the could-not-look finding that the row names no case.
pub proof fn lemma_no_case_run_is_no_coverage(want: Seq<char>, seen: Seen)
    ensures
        judge_of(want, seen) == StepView::Done(VerdictView::Caught) ==> {
            &&& seen.clean matches Some((s, ok)) && s > 0 && ok
            &&& seen.applied == Some(true)
            &&& seen.shape matches Some((changed, n)) && changed && n > 0
            &&& seen.mutated matches Some((m, green)) && m > 0 && !green
        },
        judge_of(want, seen) matches StepView::Done(VerdictView::Survived(w)) ==> {
            &&& w == want
            &&& seen.clean matches Some((s, ok)) && s > 0 && ok
            &&& seen.mutated matches Some((m, green)) && m > 0 && green
        },
        seen.mutated matches Some((m, _)) && m == 0 ==> !(judge_of(want, seen) matches StepView::Done(
            VerdictView::Caught,
        )) && !(judge_of(want, seen) matches StepView::Done(VerdictView::Survived(_))),
        ({
            &&& !(want.len() > 0 && want[0] == '\0')
            &&& seen.clean matches Some((s, ok)) && s > 0 && ok
            &&& seen.total matches Some(t) && !(t > 1 && (seen.clean->0).0 >= t)
            &&& seen.applied == Some(true)
            &&& seen.shape matches Some((changed, n)) && changed && n > 0
            &&& seen.mutated matches Some((m, _)) && m == 0
        }) ==> judge_of(want, seen) == StepView::Done(VerdictView::NamesNoCase(want)),
{
}

/// The next step in judging `row`, given what has been observed of it.
pub fn judge_row(row: &Row, seen: &Seen) -> (r: JudgeStep)
    ensures
        step_view(r) == judge_of(row.want@, *seen),
{
    let w = chars_of(row.want.as_str());
    if w.len() > 0 && w[0] == '\0' {
        let rest = crate::text::slice_of(w.as_slice(), 1, w.len());
        proof {
            assert(rest@ == row.want@.drop_first());
        }
        let count: usize = match strip_prefix_exec(rest.as_slice(), "malformed:") {
            Some(n) => match parse_usize_exec(n.as_slice()) {
                Some(v) => v,
                None => 0,
            },
            None => 0,
        };
        return JudgeStep::Done(Verdict::MalformedRow { fields: count });
    }
    let Some((selected, ok)) = seen.clean else {
        return JudgeStep::Run(Next::RunClean);
    };
    if selected == 0 {
        return JudgeStep::Done(Verdict::NamesNoCase { want: row.want.clone() });
    }
    if !ok {
        return JudgeStep::Done(Verdict::CaseAlreadyRed { want: row.want.clone() });
    }
    let Some(total) = seen.total else {
        return JudgeStep::Run(Next::CountCases);
    };
    if total > 1 && selected >= total {
        return JudgeStep::Done(Verdict::FilterNamesEveryCase { want: row.want.clone() });
    }
    let Some(applied) = seen.applied else {
        return JudgeStep::Run(Next::Apply);
    };
    if !applied {
        return JudgeStep::Done(Verdict::UnappliableMutation);
    }
    let Some((changed, code_lines)) = seen.shape else {
        return JudgeStep::Run(Next::DiffShape);
    };
    if !changed {
        return JudgeStep::Done(Verdict::InertMutation);
    }
    if code_lines == 0 {
        return JudgeStep::Done(Verdict::SelfMutatingRow);
    }
    let Some((sel, green)) = seen.mutated else {
        return JudgeStep::Run(Next::RunMutated);
    };
    if sel == 0 {
        return JudgeStep::Done(Verdict::NamesNoCase { want: row.want.clone() });
    }
    if green {
        return JudgeStep::Done(Verdict::Survived { want: row.want.clone() });
    }
    JudgeStep::Done(Verdict::Caught)
}

// ---------------------------------------------------------------------------
// The sweep.
// ---------------------------------------------------------------------------

/// A copy of a verdict.
pub fn copy_verdict(v: &Verdict) -> (c: Verdict)
    ensures
        verdict_view(c) == verdict_view(*v),
{
    match v {
        Verdict::Caught => Verdict::Caught,
        Verdict::Survived { want } => Verdict::Survived { want: want.clone() },
        Verdict::NoSuchGate => Verdict::NoSuchGate,
        Verdict::NoSuite { suite } => Verdict::NoSuite { suite: suite.clone() },
        Verdict::NoMutantDeclared => Verdict::NoMutantDeclared,
        Verdict::MalformedRow { fields } => Verdict::MalformedRow { fields: *fields },
        Verdict::NamesNoCase { want } => Verdict::NamesNoCase { want: want.clone() },
        Verdict::CaseAlreadyRed { want } => Verdict::CaseAlreadyRed { want: want.clone() },
        Verdict::FilterNamesEveryCase { want } => Verdict::FilterNamesEveryCase {
            want: want.clone(),
        },
        Verdict::UnappliableMutation => Verdict::UnappliableMutation,
        Verdict::InertMutation => Verdict::InertMutation,
        Verdict::SelfMutatingRow => Verdict::SelfMutatingRow,
    }
}

fn copy_opt(o: &Option<String>) -> (c: Option<String>)
    ensures
        opt_view(c) == opt_view(*o),
{
    match o {
        Some(s) => Some(s.clone()),
        None => None,
    }
}

/// A copy of a finding.
pub fn copy_finding(f: &Finding) -> (c: Finding)
    ensures
        finding_view(c) == finding_view(*f),
{
    Finding {
        gate: f.gate.clone(),
        slug: copy_opt(&f.slug),
        verdict: copy_verdict(&f.verdict),
        owner: copy_opt(&f.owner),
    }
}

/// A gate-level finding a resolved name earns before any row is judged:
/// no gate, no suite, or — the anti-vacuity term — no declared mutation.
pub open spec fn screen_of(
    name: Seq<char>,
    gate: Option<
        (
            Seq<char>,
            Seq<Seq<char>>,
            (bool, Seq<char>),
            Seq<(Seq<char>, Seq<char>, Seq<char>, Seq<char>)>,
            Option<Seq<char>>,
        ),
    >,
    suite_exists: bool,
) -> Option<(Seq<char>, Option<Seq<char>>, VerdictView, Option<Seq<char>>)> {
    match gate {
        None => Some((name, None, VerdictView::NoSuchGate, None)),
        Some(g) => if !suite_exists {
            Some((name, None, VerdictView::NoSuite(g.2.1), g.4))
        } else if g.3.len() == 0 {
            Some((name, None, VerdictView::NoMutantDeclared, g.4))
        } else {
            None
        },
    }
}

/// A resolved gate as plain values, where there is one.
pub open spec fn gate_opt_view(g: Option<&Gate>) -> Option<
    (
        Seq<char>,
        Seq<Seq<char>>,
        (bool, Seq<char>),
        Seq<(Seq<char>, Seq<char>, Seq<char>, Seq<char>)>,
        Option<Seq<char>>,
    ),
> {
    match g {
        Some(g) => Some(gate_view(*g)),
        None => None,
    }
}

/// A gate-level finding for `name`, or `None` where its rows are to be
/// judged. `suite_exists` says whether a gate's suite is a file.
pub fn screen(name: &str, gate: Option<&Gate>, suite_exists: bool) -> (r: Option<Finding>)
    ensures
        match r {
            Some(f) => screen_of(name@, gate_opt_view(gate), suite_exists) == Some(finding_view(f)),
            None => screen_of(name@, gate_opt_view(gate), suite_exists) is None,
        },
{
    let Some(g) = gate else {
        return Some(
            Finding {
                gate: String::from_str(name),
                slug: None,
                verdict: Verdict::NoSuchGate,
                owner: None,
            },
        );
    };
    if !suite_exists {
        return Some(
            Finding {
                gate: String::from_str(name),
                slug: None,
                verdict: Verdict::NoSuite { suite: String::from_str(g.suite.path()) },
                owner: copy_opt(&g.owner),
            },
        );
    }
    if g.rows.len() == 0 {
        return Some(
            Finding {
                gate: String::from_str(name),
                slug: None,
                verdict: Verdict::NoMutantDeclared,
                owner: copy_opt(&g.owner),
            },
        );
    }
    None
}

/// What the caller found for one name of the enforced set.
#[derive(Debug, Clone)]
pub enum Looked {
    /// A gate-level finding `screen` gave.
    Screened(Finding),
    /// A gate's rows were judged: its owner, and each row's slug and
    /// verdict in order.
    Judged { owner: Option<String>, verdicts: Vec<(String, Verdict)> },
}

/// What was looked at for one name, as plain values.
pub enum LookedView {
    Screened((Seq<char>, Option<Seq<char>>, VerdictView, Option<Seq<char>>)),
    Judged(Option<Seq<char>>, Seq<(Seq<char>, VerdictView)>),
}

/// The view of what was looked at for one name.
pub open spec fn looked_view(l: Looked) -> LookedView {
    match l {
        Looked::Screened(f) => LookedView::Screened(finding_view(f)),
        Looked::Judged { owner, verdicts } => LookedView::Judged(
            opt_view(owner),
            verdicts@.map_values(|p: (String, Verdict)| (p.0@, verdict_view(p.1))),
        ),
    }
}

/// The findings among one gate's judged rows: each one that is not
/// caught, pointing at a gate and the row.
pub open spec fn judged_findings(
    name: Seq<char>,
    owner: Option<Seq<char>>,
    vs: Seq<(Seq<char>, VerdictView)>,
) -> Seq<(Seq<char>, Option<Seq<char>>, VerdictView, Option<Seq<char>>)>
    decreases vs.len(),
{
    if vs.len() == 0 {
        seq![]
    } else {
        let rest = judged_findings(name, owner, vs.drop_last());
        if vs.last().1 is Caught {
            rest
        } else {
            rest.push((name, Some(vs.last().0), vs.last().1, owner))
        }
    }
}

/// The findings of the first `k` names, in gate then row order.
pub open spec fn sweep_findings(names: Seq<Seq<char>>, looked: Seq<LookedView>, k: int) -> Seq<
    (Seq<char>, Option<Seq<char>>, VerdictView, Option<Seq<char>>),
>
    decreases k,
{
    if k <= 0 {
        seq![]
    } else {
        sweep_findings(names, looked, k - 1) + match looked[k - 1] {
            LookedView::Screened(f) => seq![f],
            LookedView::Judged(owner, vs) => judged_findings(names[k - 1], owner, vs),
        }
    }
}

/// How many mutations the first `k` names declared.
pub open spec fn declared_count(looked: Seq<LookedView>, k: int) -> nat
    decreases k,
{
    if k <= 0 {
        0
    } else {
        declared_count(looked, k - 1) + match looked[k - 1] {
            LookedView::Screened(_) => 0nat,
            LookedView::Judged(_, vs) => vs.len(),
        }
    }
}

/// The views of what was looked at.
pub open spec fn looked_views(v: Seq<Looked>) -> Seq<LookedView> {
    v.map_values(|l: Looked| looked_view(l))
}

/// Sweep the enforced set: what was found for each name, in set order,
/// adds up to the findings, the declared count and the number of gates.
pub fn sweep(names: &[String], looked: &[Looked]) -> (r: Sweep)
    requires
        names.len() == looked.len(),
        declared_count(looked_views(looked@), looked.len() as int) <= usize::MAX,
    ensures
        finding_views(r.findings@) == sweep_findings(
            string_views(names@),
            looked_views(looked@),
            names.len() as int,
        ),
        r.declared == declared_count(looked_views(looked@), looked.len() as int),
        r.gates == names.len(),
{
    let ghost nv = string_views(names@);
    let ghost lv = looked_views(looked@);
    let mut findings: Vec<Finding> = Vec::new();
    let mut declared: usize = 0;
    let mut k: usize = 0;
    while k < looked.len()
        invariant
            k <= looked.len(),
            names.len() == looked.len(),
            nv == string_views(names@),
            lv == looked_views(looked@),
            declared_count(lv, looked.len() as int) <= usize::MAX,
            finding_views(findings@) == sweep_findings(nv, lv, k as int),
            declared == declared_count(lv, k as int),
        decreases looked.len() - k,
    {
        proof {
            assert(lv[k as int] == looked_view(looked@[k as int]));
            lemma_declared_count_mono(lv, k + 1, looked.len() as int);
        }
        match &looked[k] {
            Looked::Screened(f) => {
                let c = copy_finding(f);
                proof {
                    assert(finding_views(findings@.push(c)) == finding_views(findings@).push(
                        finding_view(c),
                    ));
                }
                findings.push(c);
            },
            Looked::Judged { owner, verdicts } => {
                let ghost before = finding_views(findings@);
                let ghost vv = verdicts@.map_values(
                    |p: (String, Verdict)| (p.0@, verdict_view(p.1)),
                );
                let mut j: usize = 0;
                while j < verdicts.len()
                    invariant
                        j <= verdicts.len(),
                        k < names.len(),
                        nv == string_views(names@),
                        vv == verdicts@.map_values(
                            |p: (String, Verdict)| (p.0@, verdict_view(p.1)),
                        ),
                        finding_views(findings@) == before + judged_findings(
                            nv[k as int],
                            opt_view(*owner),
                            vv.subrange(0, j as int),
                        ),
                    decreases verdicts.len() - j,
                {
                    proof {
                        assert(vv.subrange(0, j + 1).drop_last() == vv.subrange(0, j as int));
                        assert(vv.subrange(0, j + 1).last() == vv[j as int]);
                    }
                    let (slug, verdict) = &verdicts[j];
                    if verdict.is_finding() {
                        let f = Finding {
                            gate: names[k].clone(),
                            slug: Some(slug.clone()),
                            verdict: copy_verdict(verdict),
                            owner: copy_opt(owner),
                        };
                        proof {
                            assert(finding_views(findings@.push(f)) == finding_views(
                                findings@,
                            ).push(finding_view(f)));
                        }
                        findings.push(f);
                    }
                    j += 1;
                }
                proof {
                    assert(vv.subrange(0, verdicts.len() as int) == vv);
                }
                declared = declared + verdicts.len();
            },
        }
        k += 1;
    }
    Sweep { findings, declared, gates: names.len() }
}

proof fn lemma_declared_count_mono(lv: Seq<LookedView>, i: int, j: int)
    requires
        0 <= i <= j,
    ensures
        declared_count(lv, i) <= declared_count(lv, j),
    decreases j - i,
{
    if i < j {
        lemma_declared_count_mono(lv, i, j - 1);
    }
}

// ---------------------------------------------------------------------------
// The census.
// ---------------------------------------------------------------------------

/// What the census decided about one subject.
#[derive(Debug, Clone, Copy, PartialEq, Eq)]
pub enum CensusVerdict {
    /// A gate in the tree that is neither declared nor exempt.
    Uncovered,
    /// An exemption with no issue key or no reason.
    ExemptUnfiled,
    /// Declared and exempt at once, so the exemption's reason is a dead
    /// letter.
    DeclaredAndExempt,
    /// A name in the enforced set resolving to no gate at all.
    NamesNoSubject,
}

/// The word a census verdict is reported as.
pub open spec fn census_word(v: CensusVerdict) -> Seq<char> {
    match v {
        CensusVerdict::Uncovered => "uncovered"@,
        CensusVerdict::ExemptUnfiled => "exempt-unfiled"@,
        CensusVerdict::DeclaredAndExempt => "declared-and-exempt"@,
        CensusVerdict::NamesNoSubject => "names-no-subject"@,
    }
}

impl CensusVerdict {
    /// The word this verdict is reported as.
    pub fn text(&self) -> (r: &'static str)
        ensures
            r@ == census_word(*self),
    {
        match self {
            CensusVerdict::Uncovered => "uncovered",
            CensusVerdict::ExemptUnfiled => "exempt-unfiled",
            CensusVerdict::DeclaredAndExempt => "declared-and-exempt",
            CensusVerdict::NamesNoSubject => "names-no-subject",
        }
    }
}

/// What a census run answered.
#[derive(Debug, Clone)]
#[non_exhaustive]
pub struct Census {
    /// Pointer and verdict, in subject order.
    pub findings: Vec<(String, CensusVerdict)>,
    /// How many subjects were censused.
    pub subjects: usize,
    /// How many engine modules carry no declaration at all: a count, never a
    /// finding.
    pub engine_undeclared: usize,
}

/// What one subject earns: an unfiled exemption always, an exemption beside
/// a declaration, or no declaration and no exemption. A filed exemption
/// outside the set, and a declared gate with none, are closed.
pub open spec fn subject_finding(
    path: Seq<char>,
    in_set: bool,
    exempt: Option<Seq<char>>,
) -> Seq<(Seq<char>, CensusVerdict)> {
    match exempt {
        Some(row) => if !exemption_filed(row) {
            seq![(path, CensusVerdict::ExemptUnfiled)]
        } else if in_set {
            seq![(path, CensusVerdict::DeclaredAndExempt)]
        } else {
            seq![]
        },
        None => if !in_set {
            seq![(path, CensusVerdict::Uncovered)]
        } else {
            seq![]
        },
    }
}

/// The census findings over the first `k` subjects.
pub open spec fn subject_findings(
    subjects: Seq<(Seq<char>, Seq<char>)>,
    names: Seq<Seq<char>>,
    exempt: Seq<Option<Seq<char>>>,
    k: int,
) -> Seq<(Seq<char>, CensusVerdict)>
    decreases k,
{
    if k <= 0 {
        seq![]
    } else {
        subject_findings(subjects, names, exempt, k - 1) + subject_finding(
            subjects[k - 1].1,
            names.contains(subjects[k - 1].0),
            exempt[k - 1],
        )
    }
}

/// The names of the set that resolve to no subject, among the first `k`.
pub open spec fn stranded(names: Seq<Seq<char>>, resolves: Seq<bool>, k: int) -> Seq<
    (Seq<char>, CensusVerdict),
>
    decreases k,
{
    if k <= 0 {
        seq![]
    } else if resolves[k - 1] {
        stranded(names, resolves, k - 1)
    } else {
        stranded(names, resolves, k - 1).push((names[k - 1], CensusVerdict::NamesNoSubject))
    }
}

/// Pairs of strings as plain values.
pub open spec fn pair_views(v: Seq<(String, String)>) -> Seq<(Seq<char>, Seq<char>)> {
    v.map_values(|p: (String, String)| (p.0@, p.1@))
}

/// Optional strings as plain values.
pub open spec fn opt_views(v: Seq<Option<String>>) -> Seq<Option<Seq<char>>> {
    v.map_values(|o: Option<String>| opt_view(o))
}

fn has_name(names: &[String], name: &str) -> (r: bool)
    ensures
        r == string_views(names@).contains(name@),
{
    let mut i: usize = 0;
    while i < names.len()
        invariant
            i <= names.len(),
            forall|j: int| 0 <= j < i ==> #[trigger] string_views(names@)[j] != name@,
        decreases names.len() - i,
    {
        if same_string(names[i].as_str(), name) {
            proof {
                assert(string_views(names@)[i as int] == name@);
            }
            return true;
        }
        i += 1;
    }
    false
}

/// Census the subjects against the enforced set, in both directions.
/// `subjects` are name and path in name order, `exempt` is each subject's
/// exemption row where one is declared, and `resolves` says of each name of
/// the set whether it resolves to any source. The reason an exemption
/// gives is read but never echoed.
pub fn census(
    subjects: &[(String, String)],
    names: &[String],
    exempt: &[Option<String>],
    resolves: &[bool],
    engine_undeclared: usize,
) -> (r: Census)
    requires
        subjects.len() == exempt.len(),
        names.len() == resolves.len(),
    ensures
        r.findings@.map_values(|p: (String, CensusVerdict)| (p.0@, p.1)) == subject_findings(
            pair_views(subjects@),
            string_views(names@),
            opt_views(exempt@),
            subjects.len() as int,
        ) + stranded(string_views(names@), resolves@, names.len() as int),
        r.subjects == subjects.len(),
        r.engine_undeclared == engine_undeclared,
{
    let ghost sv = pair_views(subjects@);
    let ghost nv = string_views(names@);
    let ghost ev = opt_views(exempt@);
    let mut findings: Vec<(String, CensusVerdict)> = Vec::new();
    let mut k: usize = 0;
    while k < subjects.len()
        invariant
            k <= subjects.len(),
            subjects.len() == exempt.len(),
            sv == pair_views(subjects@),
            nv == string_views(names@),
            ev == opt_views(exempt@),
            findings@.map_values(|p: (String, CensusVerdict)| (p.0@, p.1)) == subject_findings(
                sv,
                nv,
                ev,
                k as int,
            ),
        decreases subjects.len() - k,
    {
        let ghost before = findings@.map_values(|p: (String, CensusVerdict)| (p.0@, p.1));
        proof {
            assert(sv[k as int] == (subjects@[k as int].0@, subjects@[k as int].1@));
            assert(ev[k as int] == opt_view(exempt@[k as int]));
        }
        let (name, path) = &subjects[k];
        let in_set = has_name(names, name.as_str());
        let verdict: Option<CensusVerdict> = match &exempt[k] {
            Some(row) => if !exemption_is_filed(row.as_str()) {
                Some(CensusVerdict::ExemptUnfiled)
            } else if in_set {
                Some(CensusVerdict::DeclaredAndExempt)
            } else {
                None
            },
            None => if !in_set {
                Some(CensusVerdict::Uncovered)
            } else {
                None
            },
        };
        match verdict {
            Some(v) => {
                let pair = (path.clone(), v);
                proof {
                    assert(findings@.push(pair).map_values(
                        |p: (String, CensusVerdict)| (p.0@, p.1),
                    ) == before.push((path@, v)));
                }
                findings.push(pair);
            },
            None => {},
        }
        proof {
            assert(subject_findings(sv, nv, ev, k + 1) == subject_findings(sv, nv, ev, k as int)
                + subject_finding(sv[k as int].1, nv.contains(sv[k as int].0), ev[k as int]));
        }
        k += 1;
    }
    let ghost head = findings@.map_values(|p: (String, CensusVerdict)| (p.0@, p.1));
    let mut j: usize = 0;
    while j < names.len()
        invariant
            j <= names.len(),
            names.len() == resolves.len(),
            nv == string_views(names@),
            findings@.map_values(|p: (String, CensusVerdict)| (p.0@, p.1)) == head + stranded(
                nv,
                resolves@,
                j as int,
            ),
        decreases names.len() - j,
    {
        if !resolves[j] {
            let pair = (names[j].clone(), CensusVerdict::NamesNoSubject);
            proof {
                assert(findings@.push(pair).map_values(|p: (String, CensusVerdict)| (p.0@, p.1))
                    == findings@.map_values(|p: (String, CensusVerdict)| (p.0@, p.1)).push(
                    (nv[j as int], CensusVerdict::NamesNoSubject),
                ));
            }
            findings.push(pair);
        }
        j += 1;
    }
    Census { findings, subjects: subjects.len(), engine_undeclared }
}

// ---------------------------------------------------------------------------
// The subjects a tree carries.
// ---------------------------------------------------------------------------

/// A name-ordered map, as pairs, with `(k, v)` put in: it replaces the pair
/// of the same name, or goes in before the first name that sorts after it.
pub open spec fn upsert(s: Seq<(Seq<char>, Seq<char>)>, k: Seq<char>, v: Seq<char>) -> Seq<
    (Seq<char>, Seq<char>),
>
    decreases s.len(),
{
    if s.len() == 0 {
        seq![(k, v)]
    } else if s[0].0 == k {
        seq![(k, v)] + s.drop_first()
    } else if crate::text::lex_le(k, s[0].0) {
        seq![(k, v)] + s
    } else {
        seq![s[0]] + upsert(s.drop_first(), k, v)
    }
}

proof fn lemma_upsert_skip(s: Seq<(Seq<char>, Seq<char>)>, p: int, k: Seq<char>, v: Seq<char>)
    requires
        0 <= p < s.len(),
        crate::text::lex_le(s[p].0, k),
        s[p].0 != k,
    ensures
        upsert(s.subrange(p, s.len() as int), k, v) == seq![s[p]] + upsert(
            s.subrange(p + 1, s.len() as int),
            k,
            v,
        ),
{
    let t = s.subrange(p, s.len() as int);
    assert(t[0] == s[p]);
    assert(t.drop_first() == s.subrange(p + 1, s.len() as int));
    if crate::text::lex_le(k, s[p].0) {
        crate::text::lemma_lex_antisym(k, s[p].0);
    }
}

/// Put `(k, v)` into a name-ordered map held as pairs.
pub fn upsert_pair(m: &mut Vec<(String, String)>, k: String, v: String)
    ensures
        pair_views(final(m)@) == upsert(pair_views(old(m)@), k@, v@),
{
    let ghost s = pair_views(m@);
    let kc = chars_of(k.as_str());
    let mut p: usize = 0;
    proof {
        assert(s.subrange(0, 0) + s.subrange(0, s.len() as int) == s);
    }
    while p < m.len()
        invariant
            p <= m.len(),
            s == pair_views(m@),
            kc@ == k@,
            upsert(s, k@, v@) == s.subrange(0, p as int) + upsert(
                s.subrange(p as int, s.len() as int),
                k@,
                v@,
            ),
        ensures
            p <= m.len(),
            s == pair_views(m@),
            upsert(s, k@, v@) == s.subrange(0, p as int) + upsert(
                s.subrange(p as int, s.len() as int),
                k@,
                v@,
            ),
            p < m.len() ==> (s[p as int].0 == k@ || !crate::text::lex_le(s[p as int].0, k@)),
        decreases m.len() - p,
    {
        let mc = chars_of(m[p].0.as_str());
        proof {
            assert(s[p as int] == (m@[p as int].0@, m@[p as int].1@));
        }
        if same(mc.as_slice(), kc.as_slice()) || !crate::text::lex_le_exec(
            mc.as_slice(),
            kc.as_slice(),
        ) {
            break;
        }
        proof {
            lemma_upsert_skip(s, p as int, k@, v@);
            assert(s.subrange(0, p + 1) == s.subrange(0, p as int).push(s[p as int]));
        }
        p += 1;
    }
    let ghost t = s.subrange(p as int, s.len() as int);
    if p < m.len() {
        proof {
            assert(t[0] == s[p as int]);
            assert(t.drop_first() == s.subrange(p + 1, s.len() as int));
        }
        let mc = chars_of(m[p].0.as_str());
        if same(mc.as_slice(), kc.as_slice()) {
            m.set(p, (k, v));
            proof {
                assert(pair_views(m@) == s.subrange(0, p as int) + (seq![(k@, v@)] + t.drop_first()));
            }
            return;
        }
        proof {
            crate::text::lemma_lex_total(s[p as int].0, k@);
        }
    }
    m.insert(p, (k, v));
    proof {
        assert(pair_views(m@) == s.subrange(0, p as int) + (seq![(k@, v@)] + t));
    }
}

/// The name a `mise-tasks/` file stands for, where it is a shell task.
pub open spec fn task_name(file: Seq<char>) -> Option<Seq<char>> {
    strip_suffix(file, ".sh"@)
}

/// The subject name an engine module carries: `engine-` and its stem in
/// kebab spelling.
pub open spec fn engine_name(stem: Seq<char>) -> Seq<char> {
    "engine-"@ + stem.map_values(|c: char| if c == '_' { '-' } else { c })
}

/// Whether an engine module's lines declare anything: a row, or any of the
/// suite, owner and exemption markers.
pub open spec fn declares(lines: Seq<Seq<char>>, path: Seq<char>) -> bool {
    rows_of(lines, path).len() > 0 || declared_from(lines, SUITE@, 0) is Some || declared_from(
        lines,
        OWNER@,
        0,
    ) is Some || declared_from(lines, EXEMPT@, 0) is Some
}

/// One subject to put into the map, where the entry makes one.
pub open spec fn task_subject(file: Seq<char>, lines: Option<Seq<Seq<char>>>) -> Option<
    (Seq<char>, Seq<char>),
> {
    match task_name(file) {
        Some(name) => match lines {
            Some(ls) => if is_gate_spec(ls) {
                Some((name, "mise-tasks/"@ + file))
            } else {
                None
            },
            None => None,
        },
        None => None,
    }
}

/// A policy module's subject.
pub open spec fn policy_subject(file: Seq<char>) -> Option<(Seq<char>, Seq<char>)> {
    match strip_suffix(file, ".rego"@) {
        Some(name) => Some((name, "policy/"@ + file)),
        None => None,
    }
}

/// An engine module's subject, admitted only once it declares something.
pub open spec fn engine_subject(file: Seq<char>, lines: Option<Seq<Seq<char>>>) -> Option<
    (Seq<char>, Seq<char>),
> {
    match strip_suffix(file, ".rs"@) {
        Some(stem) => {
            let path = "crates/batten/src/"@ + file;
            match lines {
                Some(ls) => if declares(ls, path) {
                    Some((engine_name(stem), path))
                } else {
                    None
                },
                None => None,
            }
        },
        None => None,
    }
}

/// A preset directory's subject, where it is a directory whose name
/// resolves to sources.
pub open spec fn preset_subject(name: Seq<char>, resolves: bool) -> Option<(Seq<char>, Seq<char>)> {
    if resolves {
        Some((name, "crates/batten/src/policy/presets/"@ + name))
    } else {
        None
    }
}

/// The map after putting in every subject of a run of entries, in order.
pub open spec fn put_all(m: Seq<(Seq<char>, Seq<char>)>, es: Seq<Option<(Seq<char>, Seq<char>)>>) -> Seq<
    (Seq<char>, Seq<char>),
>
    decreases es.len(),
{
    if es.len() == 0 {
        m
    } else {
        let before = put_all(m, es.drop_last());
        match es.last() {
            Some((k, v)) => upsert(before, k, v),
            None => before,
        }
    }
}

/// Every gate the tree carries, by name: shell tasks that describe
/// themselves as gates, every policy module, engine modules that declare
/// something, and presets that resolve — later ones replacing earlier ones
/// of the same name. The caller lists each directory and reads each file.
pub open spec fn subjects_of(
    tasks: Seq<(Seq<char>, Option<Seq<Seq<char>>>)>,
    policies: Seq<Seq<char>>,
    engine: Seq<(Seq<char>, Option<Seq<Seq<char>>>)>,
    presets: Seq<(Seq<char>, bool)>,
) -> Seq<(Seq<char>, Seq<char>)> {
    let a = put_all(seq![], tasks.map_values(|t: (Seq<char>, Option<Seq<Seq<char>>>)| task_subject(t.0, t.1)));
    let b = put_all(a, policies.map_values(|f: Seq<char>| policy_subject(f)));
    let c = put_all(b, engine.map_values(|t: (Seq<char>, Option<Seq<Seq<char>>>)| engine_subject(t.0, t.1)));
    put_all(c, presets.map_values(|p: (Seq<char>, bool)| preset_subject(p.0, p.1)))
}

/// A file listing with what each file holds, as plain values.
pub open spec fn listing_views(v: Seq<(String, Option<Vec<String>>)>) -> Seq<
    (Seq<char>, Option<Seq<Seq<char>>>),
> {
    v.map_values(|t: (String, Option<Vec<String>>)| (t.0@, text_view(t.1)))
}

fn put_entry(m: &mut Vec<(String, String)>, e: Option<(String, String)>)
    ensures
        pair_views(final(m)@) == match e {
            Some((k, v)) => upsert(pair_views(old(m)@), k@, v@),
            None => pair_views(old(m)@),
        },
{
    match e {
        Some((k, v)) => upsert_pair(m, k, v),
        None => {},
    }
}

fn task_entry(file: &str, lines: &Option<Vec<String>>) -> (r: Option<(String, String)>)
    ensures
        match r {
            Some((k, v)) => task_subject(file@, text_view(*lines)) == Some((k@, v@)),
            None => task_subject(file@, text_view(*lines)) is None,
        },
{
    let f = chars_of(file);
    let Some(name) = strip_suffix_exec(f.as_slice(), ".sh") else {
        return None;
    };
    let Some(ls) = lines else {
        return None;
    };
    if !is_gate(ls.as_slice()) {
        return None;
    }
    let mut path = String::from_str("mise-tasks/");
    path.append(file);
    Some((string_of(name.as_slice()), path))
}

fn policy_entry(file: &str) -> (r: Option<(String, String)>)
    ensures
        match r {
            Some((k, v)) => policy_subject(file@) == Some((k@, v@)),
            None => policy_subject(file@) is None,
        },
{
    let f = chars_of(file);
    let Some(name) = strip_suffix_exec(f.as_slice(), ".rego") else {
        return None;
    };
    let mut path = String::from_str("policy/");
    path.append(file);
    Some((string_of(name.as_slice()), path))
}

fn engine_entry(file: &str, lines: &Option<Vec<String>>) -> (r: Option<(String, String)>)
    ensures
        match r {
            Some((k, v)) => engine_subject(file@, text_view(*lines)) == Some((k@, v@)),
            None => engine_subject(file@, text_view(*lines)) is None,
        },
{
    let f = chars_of(file);
    let Some(stem) = strip_suffix_exec(f.as_slice(), ".rs") else {
        return None;
    };
    let Some(ls) = lines else {
        return None;
    };
    let mut path = String::from_str("crates/batten/src/");
    path.append(file);
    let any = rows_in(ls.as_slice(), path.as_str()).len() > 0 || declared(ls.as_slice(), SUITE).is_some()
        || declared(ls.as_slice(), OWNER).is_some() || declared(ls.as_slice(), EXEMPT).is_some();
    if !any {
        return None;
    }
    let mut kebab: Vec<char> = Vec::new();
    let mut i: usize = 0;
    while i < stem.len()
        invariant
            i <= stem.len(),
            kebab@ == stem@.map_values(|c: char| if c == '_' { '-' } else { c }).subrange(
                0,
                i as int,
            ),
        decreases stem.len() - i,
    {
        let c = stem[i];
        kebab.push(if c == '_' { '-' } else { c });
        i += 1;
    }
    proof {
        assert(stem@.map_values(|c: char| if c == '_' { '-' } else { c }).subrange(
            0,
            stem.len() as int,
        ) == stem@.map_values(|c: char| if c == '_' { '-' } else { c }));
    }
    let mut name = String::from_str("engine-");
    let k = string_of(kebab.as_slice());
    name.append(k.as_str());
    Some((name, path))
}

/// Every gate the tree carries, by name, in name order: `tasks` and
/// `engine` list those directories with each file's lines (`None` where it
/// will not read), `policies` lists the policy directory, and `presets`
/// lists the preset directory's entries with whether each is a directory
/// whose name resolves to sources.
pub fn subjects(
    tasks: &[(String, Option<Vec<String>>)],
    policies: &[String],
    engine: &[(String, Option<Vec<String>>)],
    presets: &[(String, bool)],
) -> (r: Vec<(String, String)>)
    ensures
        pair_views(r@) == subjects_of(
            listing_views(tasks@),
            string_views(policies@),
            listing_views(engine@),
            presets@.map_values(|p: (String, bool)| (p.0@, p.1)),
        ),
{
    let mut m: Vec<(String, String)> = Vec::new();
    let ghost tes = listing_views(tasks@).map_values(
        |t: (Seq<char>, Option<Seq<Seq<char>>>)| task_subject(t.0, t.1),
    );
    let mut i: usize = 0;
    proof {
        assert(pair_views(m@) == Seq::<(Seq<char>, Seq<char>)>::empty());
        assert(tes.subrange(0, 0) == Seq::<Option<(Seq<char>, Seq<char>)>>::empty());
    }
    while i < tasks.len()
        invariant
            i <= tasks.len(),
            tes == listing_views(tasks@).map_values(
                |t: (Seq<char>, Option<Seq<Seq<char>>>)| task_subject(t.0, t.1),
            ),
            pair_views(m@) == put_all(seq![], tes.subrange(0, i as int)),
        decreases tasks.len() - i,
    {
        proof {
            assert(tes.subrange(0, i + 1).drop_last() == tes.subrange(0, i as int));
            assert(tes.subrange(0, i + 1).last() == tes[i as int]);
        }
        let e = task_entry(tasks[i].0.as_str(), &tasks[i].1);
        put_entry(&mut m, e);
        i += 1;
    }
    proof {
        assert(tes.subrange(0, tasks.len() as int) == tes);
    }
    let ghost a = pair_views(m@);
    let ghost pes = string_views(policies@).map_values(|f: Seq<char>| policy_subject(f));
    let mut j: usize = 0;
    while j < policies.len()
        invariant
            j <= policies.len(),
            pes == string_views(policies@).map_values(|f: Seq<char>| policy_subject(f)),
            pair_views(m@) == put_all(a, pes.subrange(0, j as int)),
        decreases policies.len() - j,
    {
        proof {
            assert(pes.subrange(0, j + 1).drop_last() == pes.subrange(0, j as int));
            assert(pes.subrange(0, j + 1).last() == pes[j as int]);
        }
        let e = policy_entry(policies[j].as_str());
        put_entry(&mut m, e);
        j += 1;
    }
    proof {
        assert(pes.subrange(0, policies.len() as int) == pes);
    }
    let ghost b = pair_views(m@);
    let ghost ees = listing_views(engine@).map_values(
        |t: (Seq<char>, Option<Seq<Seq<char>>>)| engine_subject(t.0, t.1),
    );
    let mut q: usize = 0;
    while q < engine.len()
        invariant
            q <= engine.len(),
            ees == listing_views(engine@).map_values(
                |t: (Seq<char>, Option<Seq<Seq<char>>>)| engine_subject(t.0, t.1),
            ),
            pair_views(m@) == put_all(b, ees.subrange(0, q as int)),
        decreases engine.len() - q,
    {
        proof {
            assert(ees.subrange(0, q + 1).drop_last() == ees.subrange(0, q as int));
            assert(ees.subrange(0, q + 1).last() == ees[q as int]);
        }
        let e = engine_entry(engine[q].0.as_str(), &engine[q].1);
        put_entry(&mut m, e);
        q += 1;
    }
    proof {
        assert(ees.subrange(0, engine.len() as int) == ees);
    }
    let ghost c = pair_views(m@);
    let ghost ves = presets@.map_values(|p: (String, bool)| (p.0@, p.1)).map_values(
        |p: (Seq<char>, bool)| preset_subject(p.0, p.1),
    );
    let mut w: usize = 0;
    while w < presets.len()
        invariant
            w <= presets.len(),
            ves == presets@.map_values(|p: (String, bool)| (p.0@, p.1)).map_values(
                |p: (Seq<char>, bool)| preset_subject(p.0, p.1),
            ),
            pair_views(m@) == put_all(c, ves.subrange(0, w as int)),
        decreases presets.len() - w,
    {
        proof {
            assert(ves.subrange(0, w + 1).drop_last() == ves.subrange(0, w as int));
            assert(ves.subrange(0, w + 1).last() == ves[w as int]);
        }
        let e = if presets[w].1 {
            let mut path = String::from_str("crates/batten/src/policy/presets/");
            path.append(presets[w].0.as_str());
            Some((presets[w].0.clone(), path))
        } else {
            None
        };
        put_entry(&mut m, e);
        w += 1;
    }
    proof {
        assert(ves.subrange(0, presets.len() as int) == ves);
    }
    m
}

/// How many engine files, among the first `k`, are Rust modules whose
/// subject name the census did not admit.
pub open spec fn undeclared_count(files: Seq<Seq<char>>, censused: Seq<(Seq<char>, Seq<char>)>, k: int) -> nat
    decreases k,
{
    if k <= 0 {
        0
    } else {
        undeclared_count(files, censused, k - 1) + match strip_suffix(files[k - 1], ".rs"@) {
            Some(stem) => if exists|i: int| 0 <= i < censused.len() && #[trigger] censused[i].0
                == engine_name(stem) {
                0nat
            } else {
                1nat
            },
            None => 0nat,
        }
    }
}

/// How many engine modules carry no declaration at all: a count, and never
/// a finding. `files` lists the engine directory; `censused` is the subject
/// map the census ran over.
pub fn engine_undeclared(files: &[String], censused: &[(String, String)]) -> (r: usize)
    ensures
        r == undeclared_count(string_views(files@), pair_views(censused@), files.len() as int),
{
    let ghost fv = string_views(files@);
    let ghost cv = pair_views(censused@);
    let mut n: usize = 0;
    let mut i: usize = 0;
    while i < files.len()
        invariant
            i <= files.len(),
            fv == string_views(files@),
            cv == pair_views(censused@),
            n == undeclared_count(fv, cv, i as int),
            n <= i,
        decreases files.len() - i,
    {
        let f = chars_of(files[i].as_str());
        match strip_suffix_exec(f.as_slice(), ".rs") {
            Some(stem) => {
                let mut name: Vec<char> = chars_of("engine-");
                let mut j: usize = 0;
                proof {
                    assert("engine-"@ + stem@.map_values(|c: char| if c == '_' { '-' } else { c }).subrange(
                        0,
                        0,
                    ) == "engine-"@);
                }
                while j < stem.len()
                    invariant
                        j <= stem.len(),
                        name@ == "engine-"@ + stem@.map_values(
                            |c: char| if c == '_' { '-' } else { c },
                        ).subrange(0, j as int),
                    decreases stem.len() - j,
                {
                    let c = stem[j];
                    name.push(if c == '_' { '-' } else { c });
                    j += 1;
                }
                proof {
                    assert(stem@.map_values(|c: char| if c == '_' { '-' } else { c }).subrange(
                        0,
                        stem.len() as int,
                    ) == stem@.map_values(|c: char| if c == '_' { '-' } else { c }));
                    assert(name@ == engine_name(stem@));
                }
                let mut found = false;
                let mut q: usize = 0;
                while q < censused.len()
                    invariant
                        q <= censused.len(),
                        cv == pair_views(censused@),
                        found == exists|t: int| 0 <= t < q && #[trigger] cv[t].0 == name@,
                    decreases censused.len() - q,
                {
                    proof {
                        assert(cv[q as int] == (censused@[q as int].0@, censused@[q as int].1@));
                    }
                    let hit = same_str(name.as_slice(), censused[q].0.as_str());
                    proof {
                        if hit {
                            assert(cv[q as int].0 == name@);
                        }
                        if !hit && !found {
                            assert forall|t: int| 0 <= t < q + 1 implies #[trigger] cv[t].0 != name@ by {
                                if t < q {
                                    assert(!(0 <= t < q && cv[t].0 == name@));
                                }
                            }
                        }
                    }
                    if hit {
                        found = true;
                    }
                    q += 1;
                }
                if !found {
                    n += 1;
                }
            },
            None => {},
        }
        i += 1;
    }
    n
}

// ---------------------------------------------------------------------------
// The staged tree's state.
// ---------------------------------------------------------------------------

/// A throwaway copy of the tracked tree, made a repository, that every
/// mutation is applied to. The caller copies files; this remembers which
/// path the last row corrupted, so it is restored before the next.
#[derive(Debug)]
pub struct Staged {
    dir: String,
    dirty: Option<String>,
}

impl Staged {
    /// The staged tree's root, as text.
    pub closed spec fn root_view(self) -> Seq<char> {
        self.dir@
    }

    /// The path the last row corrupted, where one is recorded.
    pub closed spec fn corrupted(self) -> Option<Seq<char>> {
        opt_view(self.dirty)
    }

    /// The staged tree's state, rooted at `dir`, with nothing corrupted.
    pub fn new(dir: String) -> (r: Staged)
        ensures
            r.root_view() == dir@,
            r.corrupted() is None,
    {
        Staged { dir, dirty: None }
    }

    /// The staged tree's root.
    pub fn dir(&self) -> (r: &str)
        ensures
            r@ == self.root_view(),
    {
        self.dir.as_str()
    }

    /// The path the previous row corrupted, which the caller copies back
    /// from the tracked tree; afterwards nothing is recorded as corrupted.
    pub fn restore(&mut self) -> (r: Option<String>)
        ensures
            opt_view(r) == old(self).corrupted(),
            final(self).corrupted() is None,
            final(self).root_view() == old(self).root_view(),
    {
        let out = match &self.dirty {
            Some(p) => Some(p.clone()),
            None => None,
        };
        self.dirty = None;
        out
    }

    /// Record `path` as this row's subject, once the caller has put its
    /// tracked bytes back in the staged tree.
    pub fn stage_subject(&mut self, path: &str)
        ensures
            final(self).corrupted() == Some(path@),
            final(self).root_view() == old(self).root_view(),
    {
        self.dirty = Some(String::from_str(path));
    }
}

/// What one spawned program answered.
#[derive(Debug)]
pub struct Ran {
    /// Whether it exited zero.
    pub ok: bool,
    /// Its combined output, scanned for case lines and never reported.
    pub output: String,
}

} // verus!
