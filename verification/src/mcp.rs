//! Dispatching a tool's MCP call from inside batten: where the wiring lives,
//! and what comes back instead of a payload.
//!
//! This module holds the `[mcp]` table's load-time refusals, the pointer a
//! report carries when no wiring resolved (ids and a cause, never a path),
//! the reduction row a method selects, and the unframing of an event-stream
//! answer.

use vstd::prelude::*;
use vstd::string::StringExecFns;
use crate::error::UsageError;
use crate::json::{Json, at, at_of, bare, bare_of, items, member, member_from, member_of, text};
use crate::output::{push_escaped, quoted};
use crate::text::{
    chars_of, lines, lines_exec, same_string, split, split_exec, starts_with, strip_prefix,
    strip_prefix_exec, string_of, string_views, trim, trim_chars, views,
};

verus! {

/// One `[[mcp.source]]` row: a file that carries a server's transport,
/// endpoint and headers.
#[derive(Debug, Clone, PartialEq, Eq)]
pub struct Source {
    /// The key this source is named by in a report; never the resolved path.
    pub id: String,
    /// The name of the environment variable holding the directory `path`
    /// resolves beneath, or absent for a repository-relative path.
    pub root: Option<String>,
    /// The path beneath that root: relative and downward.
    pub path: String,
    /// Where the server map sits inside the parsed document.
    pub node: String,
}

/// How a result row turns a response into something a report may carry.
#[derive(Debug, Clone, Copy, PartialEq, Eq)]
pub enum Reduce {
    /// The declared fields, passed through as the payload carries them.
    Project,
    /// The declared fields, each held to a bounded scalar.
    Acknowledge,
}

/// One `[[mcp.result]]` row: what to hand back instead of a method's
/// response.
#[derive(Debug, Clone, PartialEq, Eq)]
pub struct ResultRow {
    /// The method this row reduces, matched exactly.
    pub method: String,
    /// What to make of the response.
    pub reduce: Reduce,
    /// The fields kept, in the order they are written.
    pub fields: Vec<String>,
    /// Where the payload sits inside the JSON-RPC result.
    pub node: String,
    /// Whether the node's scalar text is itself a document to parse.
    pub embedded: bool,
}

/// The `[mcp]` table: where the wiring lives, and what to return instead
/// of a payload.
#[derive(Debug, Clone, PartialEq, Eq)]
pub struct McpConfig {
    /// Where a harness keeps its MCP wiring, in precedence order.
    pub sources: Vec<Source>,
    /// What to return instead of a method's full response.
    pub results: Vec<ResultRow>,
}

impl Default for McpConfig {
    /// No source and no result row.
    fn default() -> (r: McpConfig)
        ensures
            r.sources@.len() == 0 && r.results@.len() == 0,
    {
        McpConfig { sources: Vec::new(), results: Vec::new() }
    }
}

/// Whether a declared path would leave the root it is resolved beneath:
/// rooted, or any `..` component.
pub open spec fn escapes_spec(path: Seq<char>) -> bool {
    starts_with(path, "/"@) || split(path, '/').contains(".."@)
}

/// Whether a declared path would leave the root it is resolved beneath.
pub fn escapes(path: &str) -> (r: bool)
    ensures
        r == escapes_spec(path@),
{
    let p = chars_of(path);
    if p.len() > 0 && p[0] == '/' {
        proof {
            reveal_strlit("/");
            assert(p@.subrange(0, 1) == "/"@);
        }
        return true;
    }
    proof {
        reveal_strlit("/");
        if starts_with(path@, "/"@) {
            assert(path@.subrange(0, 1)[0] == "/"@[0]);
        }
    }
    let parts = split_exec(p.as_slice(), '/');
    let mut i: usize = 0;
    while i < parts.len()
        invariant
            i <= parts.len(),
            views(parts@) == split(path@, '/'),
            forall|j: int| 0 <= j < i ==> #[trigger] views(parts@)[j] != ".."@,
        decreases parts.len() - i,
    {
        if crate::text::same_str(parts[i].as_slice(), "..") {
            proof {
                assert(views(parts@)[i as int] == ".."@);
            }
            return true;
        }
        i += 1;
    }
    false
}

/// A source row as plain values.
pub open spec fn source_view(s: Source) -> (Seq<char>, Option<Seq<char>>, Seq<char>, Seq<char>) {
    (
        s.id@,
        match s.root {
            Some(r) => Some(r@),
            None => None,
        },
        s.path@,
        s.node@,
    )
}

/// A result row as plain values: method and fields.
pub open spec fn result_view(r: ResultRow) -> (Seq<char>, Seq<Seq<char>>) {
    (r.method@, string_views(r.fields@))
}

/// The first blank name among fields, from `i` on.
pub open spec fn first_blank(fields: Seq<Seq<char>>, i: int) -> Option<Seq<char>>
    decreases fields.len() - i,
{
    if i < 0 || i >= fields.len() {
        None
    } else if trim(fields[i]).len() == 0 {
        Some(fields[i])
    } else {
        first_blank(fields, i + 1)
    }
}

/// The first refusal the source rows earn, from the `k`th on.
pub open spec fn source_fault(rows: Seq<(Seq<char>, Option<Seq<char>>, Seq<char>, Seq<char>)>, k: int) -> Option<
    Seq<char>,
>
    decreases rows.len() - k,
{
    if k < 0 || k >= rows.len() {
        None
    } else {
        let (id, root, path, _) = rows[k];
        if trim(id).len() == 0 {
            Some(
                "mcp: a `[[mcp.source]]` row needs a non-empty `id`; it is the only name a report may carry, because the resolved path is a machine's home directory"@,
            )
        } else if root is Some && trim(root->0).len() == 0 {
            Some(
                "mcp: source "@ + quoted(id)
                    + " declares an empty `root`; it is the NAME of an environment variable, and an empty one would resolve the path against the process's working directory. Omit the key for a repository-relative path"@,
            )
        } else if escapes_spec(path) {
            Some(
                "mcp: source "@ + quoted(id)
                    + " needs a `path` that is relative and stays beneath its root; an absolute path or a `..` component would read outside the root the row declared"@,
            )
        } else if exists|j: int| 0 <= j < k && #[trigger] rows[j].0 == id {
            Some(
                "mcp: source id "@ + quoted(id)
                    + " is declared twice; one id names one file, or which file the engine reads depends on row order"@,
            )
        } else {
            source_fault(rows, k + 1)
        }
    }
}

/// The first refusal the result rows earn, from the `k`th on.
pub open spec fn result_fault(rows: Seq<(Seq<char>, Seq<Seq<char>>)>, k: int) -> Option<Seq<char>>
    decreases rows.len() - k,
{
    if k < 0 || k >= rows.len() {
        None
    } else {
        let (method, fields) = rows[k];
        if trim(method).len() == 0 {
            Some(
                "mcp: a `[[mcp.result]]` row needs a non-empty `method`; it is what selects the reduction, and an empty one would select nothing while reading as coverage"@,
            )
        } else if exists|j: int| 0 <= j < k && #[trigger] rows[j].0 == method {
            Some(
                "mcp: method "@ + quoted(method)
                    + " carries two `[[mcp.result]]` rows; which reduction applies would depend on row order"@,
            )
        } else if fields.len() == 0 {
            Some(
                "mcp: method "@ + quoted(method)
                    + " declares no `fields`, so its reduction would be empty \u{2014} which is a dropped payload wearing the costume of a projection. Name the fields the caller needs"@,
            )
        } else if first_blank(fields, 0) is Some {
            Some(
                "mcp: method "@ + quoted(method) + " declares an empty field name ("@ + quoted(
                    first_blank(fields, 0)->0,
                )
                    + "); a field that names nothing can never be found and reads as a projection that dropped it"@,
            )
        } else {
            result_fault(rows, k + 1)
        }
    }
}

/// The refusal an `[mcp]` table earns: its sources first, then its
/// result rows.
pub open spec fn config_fault(c: McpConfig) -> Option<Seq<char>> {
    let s = source_fault(c.sources@.map_values(|x: Source| source_view(x)), 0);
    if s is Some {
        s
    } else {
        result_fault(c.results@.map_values(|x: ResultRow| result_view(x)), 0)
    }
}

fn quoted_message(head: &str, token: &str, tail: &str) -> (r: String)
    ensures
        r@ == head@ + quoted(token@) + tail@,
{
    let mut m = String::from_str(head);
    m.append("\"");
    let t = chars_of(token);
    push_escaped(&mut m, t.as_slice());
    m.append("\"");
    m.append(tail);
    m
}

fn blank_field(fields: &[String]) -> (r: Option<usize>)
    ensures
        match r {
            Some(i) => i < fields@.len() && first_blank(string_views(fields@), 0) == Some(
                fields@[i as int]@,
            ),
            None => first_blank(string_views(fields@), 0) is None,
        },
{
    let ghost fv = string_views(fields@);
    let mut i: usize = 0;
    while i < fields.len()
        invariant
            i <= fields.len(),
            fv == string_views(fields@),
            first_blank(fv, 0) == first_blank(fv, i as int),
        decreases fields.len() - i,
    {
        let c = chars_of(fields[i].as_str());
        if trim_chars(c.as_slice()).len() == 0 {
            return Some(i);
        }
        i += 1;
    }
    None
}

/// Refuse a malformed `[mcp]` table at load: an empty or duplicated id, an
/// empty root name, a path that would escape its root, an empty or
/// duplicated method, or a field list that cannot mean a reduction.
pub fn validate(config: &McpConfig) -> (r: Result<(), UsageError>)
    ensures
        match config_fault(*config) {
            Some(m) => r is Err && r->Err_0.message@ == m,
            None => r is Ok,
        },
{
    let ghost srows = config.sources@.map_values(|x: Source| source_view(x));
    let mut k: usize = 0;
    while k < config.sources.len()
        invariant
            k <= config.sources.len(),
            srows == config.sources@.map_values(|x: Source| source_view(x)),
            source_fault(srows, 0) == source_fault(srows, k as int),
        decreases config.sources.len() - k,
    {
        let s = &config.sources[k];
        proof {
            assert(srows[k as int] == source_view(config.sources@[k as int]));
        }
        let idc = chars_of(s.id.as_str());
        if trim_chars(idc.as_slice()).len() == 0 {
            return Err(
                UsageError::new(
                    String::from_str(
                        "mcp: a `[[mcp.source]]` row needs a non-empty `id`; it is the only name a report may carry, because the resolved path is a machine's home directory",
                    ),
                ),
            );
        }
        match &s.root {
            Some(root) => {
                let rc = chars_of(root.as_str());
                if trim_chars(rc.as_slice()).len() == 0 {
                    return Err(
                        UsageError::new(
                            quoted_message(
                                "mcp: source ",
                                s.id.as_str(),
                                " declares an empty `root`; it is the NAME of an environment variable, and an empty one would resolve the path against the process's working directory. Omit the key for a repository-relative path",
                            ),
                        ),
                    );
                }
            },
            None => {},
        }
        if escapes(s.path.as_str()) {
            return Err(
                UsageError::new(
                    quoted_message(
                        "mcp: source ",
                        s.id.as_str(),
                        " needs a `path` that is relative and stays beneath its root; an absolute path or a `..` component would read outside the root the row declared",
                    ),
                ),
            );
        }
        let mut j: usize = 0;
        while j < k
            invariant
                j <= k < config.sources.len(),
                srows == config.sources@.map_values(|x: Source| source_view(x)),
                s.id@ == srows[k as int].0,
                source_fault(srows, 0) == source_fault(srows, k as int),
                trim(srows[k as int].0).len() != 0,
                !(srows[k as int].1 is Some && trim(srows[k as int].1->0).len() == 0),
                !escapes_spec(srows[k as int].2),
                forall|i: int| 0 <= i < j ==> #[trigger] srows[i].0 != srows[k as int].0,
            decreases k - j,
        {
            proof {
                assert(srows[j as int] == source_view(config.sources@[j as int]));
            }
            if same_string(config.sources[j].id.as_str(), s.id.as_str()) {
                proof {
                    assert(srows[j as int].0 == srows[k as int].0);
                }
                return Err(
                    UsageError::new(
                        quoted_message(
                            "mcp: source id ",
                            s.id.as_str(),
                            " is declared twice; one id names one file, or which file the engine reads depends on row order",
                        ),
                    ),
                );
            }
            j += 1;
        }
        k += 1;
    }
    let ghost rrows = config.results@.map_values(|x: ResultRow| result_view(x));
    let mut k: usize = 0;
    while k < config.results.len()
        invariant
            k <= config.results.len(),
            source_fault(srows, 0) is None,
            srows == config.sources@.map_values(|x: Source| source_view(x)),
            rrows == config.results@.map_values(|x: ResultRow| result_view(x)),
            result_fault(rrows, 0) == result_fault(rrows, k as int),
        decreases config.results.len() - k,
    {
        let row = &config.results[k];
        proof {
            assert(rrows[k as int] == result_view(config.results@[k as int]));
        }
        let mc = chars_of(row.method.as_str());
        if trim_chars(mc.as_slice()).len() == 0 {
            return Err(
                UsageError::new(
                    String::from_str(
                        "mcp: a `[[mcp.result]]` row needs a non-empty `method`; it is what selects the reduction, and an empty one would select nothing while reading as coverage",
                    ),
                ),
            );
        }
        let mut j: usize = 0;
        while j < k
            invariant
                j <= k < config.results.len(),
                source_fault(srows, 0) is None,
                srows == config.sources@.map_values(|x: Source| source_view(x)),
                rrows == config.results@.map_values(|x: ResultRow| result_view(x)),
                row.method@ == rrows[k as int].0,
                result_fault(rrows, 0) == result_fault(rrows, k as int),
                trim(rrows[k as int].0).len() != 0,
                forall|i: int| 0 <= i < j ==> #[trigger] rrows[i].0 != rrows[k as int].0,
            decreases k - j,
        {
            proof {
                assert(rrows[j as int] == result_view(config.results@[j as int]));
            }
            if same_string(config.results[j].method.as_str(), row.method.as_str()) {
                proof {
                    assert(rrows[j as int].0 == rrows[k as int].0);
                }
                return Err(
                    UsageError::new(
                        quoted_message(
                            "mcp: method ",
                            row.method.as_str(),
                            " carries two `[[mcp.result]]` rows; which reduction applies would depend on row order",
                        ),
                    ),
                );
            }
            j += 1;
        }
        if row.fields.len() == 0 {
            return Err(
                UsageError::new(
                    quoted_message(
                        "mcp: method ",
                        row.method.as_str(),
                        " declares no `fields`, so its reduction would be empty \u{2014} which is a dropped payload wearing the costume of a projection. Name the fields the caller needs",
                    ),
                ),
            );
        }
        match blank_field(row.fields.as_slice()) {
            Some(b) => {
                let mut m = quoted_message("mcp: method ", row.method.as_str(), " declares an empty field name (");
                m.append("\"");
                let bc = chars_of(row.fields[b].as_str());
                push_escaped(&mut m, bc.as_slice());
                m.append("\"");
                m.append(
                    "); a field that names nothing can never be found and reads as a projection that dropped it",
                );
                return Err(UsageError::new(m));
            },
            None => {},
        }
        k += 1;
    }
    Ok(())
}

/// A server's transport, endpoint and headers, as a declared source
/// resolved them.
#[derive(Debug, Clone, PartialEq, Eq)]
pub struct Wiring {
    /// The source row that answered, by id — never the path it resolved.
    pub source: String,
    /// Where to POST.
    pub endpoint: String,
    /// The headers to send, as the wiring file carries them.
    pub headers: Vec<(String, String)>,
}

/// Why no wiring came back: three different facts about the world.
#[derive(Debug, Clone, PartialEq, Eq)]
pub enum Unresolved {
    /// No `[[mcp.source]]` row is declared at all.
    Undeclared,
    /// Every declared row was looked for and none answered; the ids tried.
    NotFound {
        /// The source ids consulted, in declaration order.
        tried: Vec<String>,
    },
    /// A source's file exists and will not parse: could-not-look.
    Unreadable {
        /// Which source row, by id.
        source: String,
    },
}

/// Names joined with `, `.
pub open spec fn comma_joined(v: Seq<Seq<char>>) -> Seq<char>
    decreases v.len(),
{
    if v.len() == 0 {
        seq![]
    } else if v.len() == 1 {
        v[0]
    } else {
        comma_joined(v.drop_last()) + ", "@ + v.last()
    }
}

/// The pointer a report carries for an answer: ids and a cause, never a
/// path and never a byte of a file.
pub open spec fn pointer_text(u: Unresolved) -> Seq<char> {
    match u {
        Unresolved::Undeclared => "no `[[mcp.source]]` row is declared, so there is nowhere to look for a server's endpoint"@,
        Unresolved::NotFound { tried } => "no declared source resolves this server (tried: "@
            + comma_joined(string_views(tried@)) + ")"@,
        Unresolved::Unreadable { source } => "source "@ + source@
            + " is present and will not parse \u{2014} could-not-look, which is not the same answer as a server nobody configured"@,
    }
}

impl Unresolved {
    /// The pointer a report carries for this answer.
    pub fn pointer(&self) -> (r: String)
        ensures
            r@ == pointer_text(*self),
    {
        match self {
            Unresolved::Undeclared => String::from_str(
                "no `[[mcp.source]]` row is declared, so there is nowhere to look for a server's endpoint",
            ),
            Unresolved::NotFound { tried } => {
                let mut m = String::from_str("no declared source resolves this server (tried: ");
                let ghost tv = string_views(tried@);
                let ghost start = m@;
                let mut i: usize = 0;
                while i < tried.len()
                    invariant
                        i <= tried.len(),
                        tv == string_views(tried@),
                        m@ == start + comma_joined(tv.subrange(0, i as int)),
                    decreases tried.len() - i,
                {
                    proof {
                        assert(tv.subrange(0, i + 1).drop_last() == tv.subrange(0, i as int));
                        assert(tv.subrange(0, i + 1).last() == tried@[i as int]@);
                    }
                    if i > 0 {
                        m.append(", ");
                    }
                    m.append(tried[i].as_str());
                    i += 1;
                }
                proof {
                    assert(tv.subrange(0, tried.len() as int) == tv);
                }
                m.append(")");
                m
            },
            Unresolved::Unreadable { source } => {
                let mut m = String::from_str("source ");
                m.append(source.as_str());
                m.append(
                    " is present and will not parse \u{2014} could-not-look, which is not the same answer as a server nobody configured",
                );
                m
            },
        }
    }
}

/// The index of the first result row for a method.
pub open spec fn row_index(rows: Seq<Seq<char>>, method: Seq<char>, i: int) -> Option<int>
    decreases rows.len() - i,
{
    if i < 0 || i >= rows.len() {
        None
    } else if rows[i] == method {
        Some(i)
    } else {
        row_index(rows, method, i + 1)
    }
}

/// The reduction a method's row declares, or `None` where no row declares
/// one: the first row whose method is this one, exactly.
pub fn row_for<'a>(config: &'a McpConfig, method: &str) -> (r: Option<&'a ResultRow>)
    ensures
        match row_index(config.results@.map_values(|x: ResultRow| x.method@), method@, 0) {
            Some(i) => r is Some && *(r->0) == config.results@[i],
            None => r is None,
        },
{
    let ghost mv = config.results@.map_values(|x: ResultRow| x.method@);
    let mut i: usize = 0;
    while i < config.results.len()
        invariant
            i <= config.results.len(),
            mv == config.results@.map_values(|x: ResultRow| x.method@),
            row_index(mv, method@, 0) == row_index(mv, method@, i as int),
        decreases config.results.len() - i,
    {
        if same_string(config.results[i].method.as_str(), method) {
            return Some(&config.results[i]);
        }
        i += 1;
    }
    None
}

/// The last `data:` field among the lines from the first `k`, trimmed.
pub open spec fn last_data(ls: Seq<Seq<char>>) -> Option<Seq<char>>
    decreases ls.len(),
{
    if ls.len() == 0 {
        None
    } else {
        match strip_prefix(ls.last(), "data:"@) {
            Some(rest) => Some(trim(rest)),
            None => last_data(ls.drop_last()),
        }
    }
}

/// The document an answer carries: the last `data:` field of an event
/// stream (a server may send progress ahead of the answer), or the body
/// itself where no line is a `data:` field.
pub open spec fn frame_spec(text: Seq<char>) -> Seq<char> {
    match last_data(lines(text)) {
        Some(d) => d,
        None => text,
    }
}

/// Take the event-stream framing off an answer, where it has one.
pub fn frame(text: &str) -> (r: String)
    ensures
        r@ == frame_spec(text@),
{
    let c = chars_of(text);
    let ls = lines_exec(c.as_slice());
    let ghost lv = views(ls@);
    let mut i: usize = ls.len();
    proof {
        assert(lv.subrange(0, lv.len() as int) == lv);
    }
    while i > 0
        invariant
            i <= ls.len(),
            lv == views(ls@),
            lv == lines(text@),
            last_data(lv) == last_data(lv.subrange(0, i as int)),
        decreases i,
    {
        let ghost pre = lv.subrange(0, i as int);
        proof {
            assert(pre.last() == ls@[i - 1]@);
            assert(pre.drop_last() == lv.subrange(0, i - 1));
        }
        match strip_prefix_exec(ls[i - 1].as_slice(), "data:") {
            Some(rest) => {
                let t = trim_chars(rest.as_slice());
                return string_of(t.as_slice());
            },
            None => {},
        }
        i -= 1;
    }
    String::from_str(text)
}

// ---------------------------------------------------------------------------
// Resolving a server's wiring
// ---------------------------------------------------------------------------

/// What the caller found for one declared source, in declaration order:
/// the reading that resolving the row's root, reading its file and parsing
/// it as JSON came to.
#[derive(Debug, PartialEq, Eq)]
pub enum SourceReading {
    /// The row names a root this host does not set, or sets empty.
    Unset,
    /// The file could not be read.
    Absent,
    /// The file is there and will not parse.
    Unparsed,
    /// The file's parsed document.
    Document(Json),
}

/// The text of a scalar a key path reaches.
pub open spec fn scalar_at(v: Json, key: Seq<char>) -> Option<Seq<char>> {
    match at(v, key) {
        Some(n) => bare(n),
        None => None,
    }
}

/// A wiring entry's endpoint: the first of `url`, `endpoint` and `httpUrl`
/// that holds a scalar.
pub open spec fn endpoint_in(entry: Json) -> Option<Seq<char>> {
    match scalar_at(entry, "url"@) {
        Some(t) => Some(t),
        None => match scalar_at(entry, "endpoint"@) {
            Some(t) => Some(t),
            None => scalar_at(entry, "httpUrl"@),
        },
    }
}

/// The members whose values are scalars, as name and text, in order.
pub open spec fn scalar_members(ms: Seq<(String, Json)>) -> Seq<(Seq<char>, Seq<char>)>
    decreases ms.len(),
{
    if ms.len() == 0 {
        seq![]
    } else {
        let rest = scalar_members(ms.drop_last());
        match bare(ms.last().1) {
            Some(t) => rest.push((ms.last().0@, t)),
            None => rest,
        }
    }
}

/// A wiring entry's headers: the scalar members of its `headers` object,
/// or none where it carries no such object.
pub open spec fn header_pairs(entry: Json) -> Seq<(Seq<char>, Seq<char>)> {
    match at(entry, "headers"@) {
        Some(Json::Object(ms)) => scalar_members(ms@),
        _ => seq![],
    }
}

/// Name and value pairs as views.
pub open spec fn pair_views(v: Seq<(String, String)>) -> Seq<(Seq<char>, Seq<char>)> {
    v.map_values(|p: (String, String)| (p.0@, p.1@))
}

/// The endpoint and headers a parsed wiring document holds for a server:
/// the server map at `node`, the server's entry in it, and a non-empty
/// endpoint in the entry; `None` where any of them is missing.
pub open spec fn entry_found(d: Json, node: Seq<char>, server: Seq<char>) -> Option<
    (Seq<char>, Seq<(Seq<char>, Seq<char>)>),
> {
    match at(d, node) {
        Some(map) => match at(map, server) {
            Some(entry) => match endpoint_in(entry) {
                Some(ep) => if ep.len() > 0 {
                    Some((ep, header_pairs(entry)))
                } else {
                    None
                },
                None => None,
            },
            None => None,
        },
        None => None,
    }
}

/// The first source from the `i`th on that answers, by index: with the
/// endpoint and headers it resolved, or with `None` for a file that will
/// not parse, which stops the search. `None` where no source answers.
pub open spec fn resolved_from(
    sources: Seq<Source>,
    readings: Seq<SourceReading>,
    server: Seq<char>,
    i: int,
) -> Option<(int, Option<(Seq<char>, Seq<(Seq<char>, Seq<char>)>)>)>
    decreases sources.len() - i,
{
    if i < 0 || i >= sources.len() || i >= readings.len() {
        None
    } else {
        match readings[i] {
            SourceReading::Unparsed => Some((i, None)),
            SourceReading::Document(d) => match entry_found(d, sources[i].node@, server) {
                Some(e) => Some((i, Some(e))),
                None => resolved_from(sources, readings, server, i + 1),
            },
            _ => resolved_from(sources, readings, server, i + 1),
        }
    }
}

/// The ids of the declared sources, in order.
pub open spec fn source_ids(sources: Seq<Source>) -> Seq<Seq<char>> {
    sources.map_values(|s: Source| s.id@)
}

fn scalar_member_pairs(ms: &Vec<(String, Json)>) -> (r: Vec<(String, String)>)
    ensures
        pair_views(r@) == scalar_members(ms@),
{
    let mut out: Vec<(String, String)> = Vec::new();
    let mut j: usize = 0;
    while j < ms.len()
        invariant
            j <= ms.len(),
            pair_views(out@) == scalar_members(ms@.subrange(0, j as int)),
        decreases ms.len() - j,
    {
        proof {
            assert(ms@.subrange(0, j + 1).drop_last() == ms@.subrange(0, j as int));
            assert(ms@.subrange(0, j + 1).last() == ms@[j as int]);
        }
        match bare_of(&ms[j].1) {
            Some(t) => {
                let name = ms[j].0.clone();
                proof {
                    assert(pair_views(out@.push((name, t))) == pair_views(out@).push((name@, t@)));
                }
                out.push((name, t));
            },
            None => {},
        }
        j += 1;
    }
    proof {
        assert(ms@.subrange(0, ms@.len() as int) == ms@);
    }
    out
}

fn scalar_of_key(entry: &Json, key: &str) -> (r: Option<String>)
    ensures
        match r {
            Some(t) => scalar_at(*entry, key@) == Some(t@),
            None => scalar_at(*entry, key@) is None,
        },
{
    match at_of(entry, key) {
        Some(n) => bare_of(n),
        None => None,
    }
}

fn entry_of(d: &Json, node: &str, server: &str) -> (r: Option<(String, Vec<(String, String)>)>)
    ensures
        match r {
            Some(e) => entry_found(*d, node@, server@) == Some((e.0@, pair_views(e.1@))),
            None => entry_found(*d, node@, server@) is None,
        },
{
    let map = match at_of(d, node) {
        Some(m) => m,
        None => return None,
    };
    let entry = match at_of(map, server) {
        Some(e) => e,
        None => return None,
    };
    proof {
        reveal_strlit("url");
        reveal_strlit("endpoint");
        reveal_strlit("httpUrl");
    }
    let endpoint = match scalar_of_key(entry, "url") {
        Some(t) => t,
        None => match scalar_of_key(entry, "endpoint") {
            Some(t) => t,
            None => match scalar_of_key(entry, "httpUrl") {
                Some(t) => t,
                None => return None,
            },
        },
    };
    if endpoint.unicode_len() == 0 {
        return None;
    }
    let headers = match at_of(entry, "headers") {
        Some(Json::Object(ms)) => scalar_member_pairs(ms),
        _ => Vec::new(),
    };
    proof {
        if !(at(*entry, "headers"@) matches Some(Json::Object(_))) {
            assert(pair_views(headers@) == Seq::<(Seq<char>, Seq<char>)>::empty());
        }
    }
    Some((endpoint, headers))
}

/// Resolve one server's wiring out of the declared sources, given what the
/// caller read for each of them (`readings[i]` for `config.sources[i]`).
///
/// Declaration order decides, and the first row that carries the server
/// wins. A row whose root is unset, or whose file is absent, is skipped; a
/// file that exists and will not parse stops the search, because falling
/// through would answer for it with the next harness's file. A server whose
/// entry has no scalar endpoint, or an empty one, is not found in that file.
pub fn wiring(config: &McpConfig, readings: &[SourceReading], server: &str) -> (r: Result<
    Wiring,
    Unresolved,
>)
    requires
        readings@.len() == config.sources@.len(),
    ensures
        config.sources@.len() == 0 ==> r == Err::<Wiring, Unresolved>(Unresolved::Undeclared),
        config.sources@.len() > 0 ==> match resolved_from(config.sources@, readings@, server@, 0) {
            None => (r matches Err(Unresolved::NotFound { tried }) && string_views(tried@)
                == source_ids(config.sources@)),
            Some((i, None)) => (r matches Err(Unresolved::Unreadable { source }) && source@
                == config.sources@[i].id@),
            Some((i, Some(e))) => (r matches Ok(w) && w.source@ == config.sources@[i].id@
                && w.endpoint@ == e.0 && pair_views(w.headers@) == e.1),
        },
{
    if config.sources.len() == 0 {
        return Err(Unresolved::Undeclared);
    }
    let ghost ids = source_ids(config.sources@);
    let mut tried: Vec<String> = Vec::new();
    let mut i: usize = 0;
    while i < config.sources.len()
        invariant
            i <= config.sources.len(),
            readings@.len() == config.sources@.len(),
            ids == source_ids(config.sources@),
            string_views(tried@) == ids.subrange(0, i as int),
            resolved_from(config.sources@, readings@, server@, 0) == resolved_from(
                config.sources@,
                readings@,
                server@,
                i as int,
            ),
        decreases config.sources.len() - i,
    {
        let source = &config.sources[i];
        let id = source.id.clone();
        proof {
            assert(ids.subrange(0, i + 1) == ids.subrange(0, i as int).push(id@));
            assert(string_views(tried@.push(id)) == string_views(tried@).push(id@));
        }
        tried.push(id);
        match &readings[i] {
            SourceReading::Unparsed => {
                return Err(Unresolved::Unreadable { source: source.id.clone() });
            },
            SourceReading::Document(d) => {
                match entry_of(d, source.node.as_str(), server) {
                    Some((endpoint, headers)) => {
                        return Ok(Wiring { source: source.id.clone(), endpoint, headers });
                    },
                    None => {},
                }
            },
            _ => {},
        }
        i += 1;
    }
    proof {
        assert(ids.subrange(0, i as int) == ids);
    }
    Err(Unresolved::NotFound { tried })
}

// ---------------------------------------------------------------------------
// Reducing a payload
// ---------------------------------------------------------------------------

/// A kept field's value: the payload's own node, passed through, or the
/// text of a bounded scalar.
#[derive(Debug, PartialEq, Eq)]
pub enum Kept<'a> {
    /// The node as the payload carries it.
    Whole(&'a Json),
    /// A scalar's text, to be written as a JSON string.
    Scalar(String),
}

/// The document a row's fields are read from: the node the row's `node`
/// reaches in the payload, or, for an `embedded` row, the document that
/// node's scalar text parses to (`parsed`). `None` where the node is not
/// reached, or an embedded row's node holds no scalar or no document.
pub open spec fn reduced_document(row: ResultRow, payload: Json, parsed: Option<Json>) -> Option<
    Json,
> {
    match at(payload, row.node@) {
        None => None,
        Some(reach) => if row.embedded {
            if bare(reach) is Some && parsed is Some {
                parsed
            } else {
                None
            }
        } else {
            Some(reach)
        },
    }
}

/// Whether a field's node is kept: always under `project`; under
/// `acknowledge` only a non-empty scalar whose UTF-8 text is at most
/// `bound` bytes, refused rather than truncated.
pub open spec fn admitted(reduce: Reduce, n: Json, bound: nat) -> bool {
    match reduce {
        Reduce::Project => true,
        Reduce::Acknowledge => match bare(n) {
            Some(t) => t.len() > 0 && vstd::utf8::encode_utf8(t).len() <= bound,
            None => false,
        },
    }
}

/// The names of kept fields.
pub open spec fn kept_names(v: Seq<(Seq<char>, Json)>) -> Seq<Seq<char>> {
    v.map_values(|e: (Seq<char>, Json)| e.0)
}

/// The fields a reduction keeps, with the node each reaches, in the order
/// they are declared: a field the document does not carry is absent rather
/// than null, one the reduction does not admit is absent, and a field
/// declared twice is kept once.
pub open spec fn kept_fields(doc: Json, fields: Seq<Seq<char>>, reduce: Reduce, bound: nat) -> Seq<
    (Seq<char>, Json),
>
    decreases fields.len(),
{
    if fields.len() == 0 {
        seq![]
    } else {
        let before = kept_fields(doc, fields.drop_last(), reduce, bound);
        let f = fields.last();
        if kept_names(before).contains(f) {
            before
        } else {
            match at(doc, f) {
                Some(n) => if admitted(reduce, n, bound) {
                    before.push((f, n))
                } else {
                    before
                },
                None => before,
            }
        }
    }
}

/// Whether a kept value is what a reduction makes of a node: the node
/// itself under `project`, its scalar text under `acknowledge`.
pub open spec fn holds(k: Kept, reduce: Reduce, n: Json) -> bool {
    match k {
        Kept::Whole(j) => reduce is Project && *j == n,
        Kept::Scalar(t) => reduce is Acknowledge && bare(n) == Some(t@),
    }
}

/// The text an `embedded` row asks the caller to parse: the scalar at the
/// row's node, or `None` where the row is not embedded or its node holds no
/// scalar.
pub fn embedded_of(row: &ResultRow, payload: &Json) -> (r: Option<String>)
    ensures
        match r {
            Some(t) => row.embedded && (match at(*payload, row.node@) {
                Some(reach) => bare(reach) == Some(t@),
                None => false,
            }),
            None => !row.embedded || (match at(*payload, row.node@) {
                Some(reach) => bare(reach) is None,
                None => true,
            }),
        },
{
    if !row.embedded {
        return None;
    }
    match at_of(payload, row.node.as_str()) {
        Some(reach) => bare_of(reach),
        None => None,
    }
}

/// A non-empty text has a non-empty UTF-8 encoding.
proof fn lemma_utf8_nonempty(t: Seq<char>)
    requires
        t.len() > 0,
    ensures
        vstd::utf8::encode_utf8(t).len() > 0,
{
    assert(vstd::utf8::encode_scalar(t[0] as u32).len() >= 1);
}

/// A reduction keeps only fields the row declares, each at most once, and
/// each admitted by its arm: under `acknowledge` nothing but a non-empty
/// scalar of at most `bound` bytes, so however a row is written that arm
/// cannot echo a body.
pub proof fn lemma_reduction_keeps_declared_admitted_fields(
    doc: Json,
    fields: Seq<Seq<char>>,
    reduce: Reduce,
    bound: nat,
)
    ensures
        ({
            let kept = kept_fields(doc, fields, reduce, bound);
            &&& forall|i: int| 0 <= i < kept.len() ==> fields.contains((#[trigger] kept[i]).0) && admitted(reduce, kept[i].1, bound)
            &&& forall|i: int, j: int| 0 <= i < j < kept.len() ==> (#[trigger] kept[i]).0 != (#[trigger] kept[j]).0
        }),
    decreases fields.len(),
{
    if fields.len() > 0 {
        let rest = fields.drop_last();
        lemma_reduction_keeps_declared_admitted_fields(doc, rest, reduce, bound);
        let before = kept_fields(doc, rest, reduce, bound);
        let kept = kept_fields(doc, fields, reduce, bound);
        let f = fields.last();
        assert(fields[fields.len() - 1] == f);
        assert forall|i: int| 0 <= i < before.len() implies fields.contains((#[trigger] before[i]).0) by {
            assert(rest.contains(before[i].0));
            let k = choose|k: int| 0 <= k < rest.len() && rest[k] == before[i].0;
            assert(fields[k] == rest[k]);
        }
        if kept_names(before).contains(f) {
            assert(kept == before);
        } else {
            match at(doc, f) {
                Some(n) => {
                    if admitted(reduce, n, bound) {
                        assert(kept == before.push((f, n)));
                        assert forall|i: int| 0 <= i < before.len() implies (#[trigger] before[i]).0 != f by {
                            if before[i].0 == f {
                                assert(kept_names(before)[i] == f);
                            }
                        }
                        assert forall|i: int| 0 <= i < kept.len() implies fields.contains((#[trigger] kept[i]).0)
                            && admitted(reduce, kept[i].1, bound) by {
                            if i < before.len() {
                                assert(kept[i] == before[i]);
                            }
                        }
                        assert forall|i: int, j: int| 0 <= i < j < kept.len() implies (#[trigger] kept[i]).0 != (
                        #[trigger] kept[j]).0 by {
                            assert(kept[i] == before[i]);
                            if j < before.len() {
                                assert(kept[j] == before[j]);
                            }
                        }
                    } else {
                        assert(kept == before);
                    }
                },
                None => {
                    assert(kept == before);
                },
            }
        }
    }
}

/// Apply a row's reduction to a payload [`payload`] has already unframed.
///
/// `parsed` is the document the caller's JSON parser made of
/// [`embedded_of`]'s text, where the row is embedded and that text parsed;
/// `bound` is the longest scalar, in bytes, that `acknowledge` keeps. A row
/// that cannot find its payload yields `None`, which the caller reports as
/// could-not-look rather than as an empty reduction.
pub fn reduce<'a>(row: &ResultRow, payload: &'a Json, parsed: Option<&'a Json>, bound: usize) -> (r:
    Option<Vec<(String, Kept<'a>)>>)
    ensures
        match reduced_document(*row, *payload, match parsed {
            Some(p) => Some(*p),
            None => None,
        }) {
            None => r is None,
            Some(doc) => r is Some && ({
                let kept = kept_fields(doc, string_views(row.fields@), row.reduce, bound as nat);
                &&& r->0@.len() == kept.len()
                &&& forall|i: int|
                    0 <= i < kept.len() ==> (#[trigger] r->0@[i]).0@ == kept[i].0 && holds(
                        r->0@[i].1,
                        row.reduce,
                        kept[i].1,
                    )
            }),
        },
{
    let reach = match at_of(payload, row.node.as_str()) {
        Some(n) => n,
        None => return None,
    };
    let doc: &'a Json = if row.embedded {
        match bare_of(reach) {
            Some(_) => match parsed {
                Some(p) => p,
                None => return None,
            },
            None => return None,
        }
    } else {
        reach
    };
    let ghost fv = string_views(row.fields@);
    let mut kept: Vec<(String, Kept<'a>)> = Vec::new();
    let mut i: usize = 0;
    while i < row.fields.len()
        invariant
            i <= row.fields.len(),
            fv == string_views(row.fields@),
            ({
                let want = kept_fields(*doc, fv.subrange(0, i as int), row.reduce, bound as nat);
                &&& kept@.len() == want.len()
                &&& forall|k: int|
                    0 <= k < want.len() ==> (#[trigger] kept@[k]).0@ == want[k].0 && holds(
                        kept@[k].1,
                        row.reduce,
                        want[k].1,
                    )
            }),
        decreases row.fields.len() - i,
    {
        let field = &row.fields[i];
        let ghost before = kept_fields(*doc, fv.subrange(0, i as int), row.reduce, bound as nat);
        proof {
            assert(fv.subrange(0, i + 1).drop_last() == fv.subrange(0, i as int));
            assert(fv.subrange(0, i + 1).last() == field@);
        }
        let mut seen = false;
        let mut k: usize = 0;
        while k < kept.len()
            invariant
                k <= kept.len(),
                kept@.len() == before.len(),
                forall|q: int| 0 <= q < before.len() ==> (#[trigger] kept@[q]).0@ == before[q].0,
                seen <==> exists|q: int| 0 <= q < k && kept_names(before)[q] == field@,
            decreases kept.len() - k,
        {
            proof {
                assert(kept_names(before)[k as int] == kept@[k as int].0@);
            }
            if same_string(kept[k].0.as_str(), field.as_str()) {
                seen = true;
            }
            k += 1;
        }
        proof {
            if kept_names(before).contains(field@) {
                let q = choose|q: int| 0 <= q < kept_names(before).len() && kept_names(before)[q] == field@;
                assert(0 <= q < k);
            }
        }
        if !seen {
            match at_of(doc, field.as_str()) {
                Some(n) => {
                    match row.reduce {
                        Reduce::Project => {
                            kept.push((field.clone(), Kept::Whole(n)));
                        },
                        Reduce::Acknowledge => {
                            match bare_of(n) {
                                Some(t) => {
                                    let size = t.as_str().as_bytes().len();
                                    if size > 0 && size <= bound {
                                        proof {
                                            assert(t@.len() > 0) by {
                                                if t@.len() == 0 {
                                                    assert(vstd::utf8::encode_utf8(t@).len() == 0);
                                                }
                                            }
                                        }
                                        kept.push((field.clone(), Kept::Scalar(t)));
                                    } else {
                                        proof {
                                            if t@.len() > 0 {
                                                lemma_utf8_nonempty(t@);
                                            }
                                        }
                                    }
                                },
                                None => {},
                            }
                        },
                    }
                },
                None => {},
            }
        }
        i += 1;
    }
    proof {
        assert(fv.subrange(0, row.fields.len() as int) == fv);
    }
    Some(kept)
}

// ---------------------------------------------------------------------------
// The requests a dispatch sends
// ---------------------------------------------------------------------------

/// The names of an object's members, in order; none for anything else.
pub open spec fn member_names(v: Json) -> Seq<Seq<char>> {
    match v {
        Json::Object(ms) => ms@.map_values(|m: (String, Json)| m.0@),
        _ => seq![],
    }
}

/// Whether a member is a string with this text.
pub open spec fn text_member(v: Json, key: Seq<char>, t: Seq<char>) -> bool {
    member(v, key) matches Some(Json::Text(s)) && s@ == t
}

/// Whether a member is a number written this way.
pub open spec fn number_member(v: Json, key: Seq<char>, t: Seq<char>) -> bool {
    member(v, key) matches Some(Json::Number(s)) && s@ == t
}

/// The `initialize` request's parameters: the pinned protocol revision, no
/// capabilities, and this client's name and version.
pub open spec fn handshake_params(p: Json, client_version: Seq<char>) -> bool {
    &&& member_names(p) == seq!["protocolVersion"@, "capabilities"@, "clientInfo"@]
    &&& text_member(p, "protocolVersion"@, "2025-06-18"@)
    &&& member(p, "capabilities"@) matches Some(c) && c is Object && member_names(c).len() == 0
    &&& member(p, "clientInfo"@) matches Some(ci) && member_names(ci) == seq!["name"@, "version"@]
        && text_member(ci, "name"@, "batten"@) && text_member(ci, "version"@, client_version)
}

fn entry(key: &str, value: Json) -> (r: (String, Json))
    ensures
        r.0@ == key@,
        r.1 == value,
{
    (String::from_str(key), value)
}

fn text_value(t: &str) -> (r: Json)
    ensures
        r matches Json::Text(s) && s@ == t@,
{
    Json::Text(String::from_str(t))
}

/// The request that opens a session: JSON-RPC `2.0`, id `1`, method
/// `initialize`, negotiating the pinned revision `2025-06-18` rather than
/// whatever the server offers.
pub fn handshake(client_version: &str) -> (r: Json)
    ensures
        member_names(r) == seq!["jsonrpc"@, "id"@, "method"@, "params"@],
        text_member(r, "jsonrpc"@, "2.0"@),
        number_member(r, "id"@, "1"@),
        text_member(r, "method"@, "initialize"@),
        member(r, "params"@) matches Some(p) && handshake_params(p, client_version@),
{
    let info = Json::Object(vec![entry("name", text_value("batten")), entry("version", text_value(client_version))]);
    let ghost gi = info;
    let params = Json::Object(
        vec![
            entry("protocolVersion", text_value("2025-06-18")),
            entry("capabilities", Json::Object(Vec::new())),
            entry("clientInfo", info),
        ],
    );
    let ghost gp = params;
    let r = Json::Object(
        vec![
            entry("jsonrpc", text_value("2.0")),
            entry("id", Json::Number(String::from_str("1"))),
            entry("method", text_value("initialize")),
            entry("params", params),
        ],
    );
    proof {
        reveal_strlit("jsonrpc");
        reveal_strlit("id");
        reveal_strlit("method");
        reveal_strlit("params");
        reveal_strlit("protocolVersion");
        reveal_strlit("capabilities");
        reveal_strlit("clientInfo");
        reveal_strlit("name");
        reveal_strlit("version");
        reveal_strlit("1");
        reveal_with_fuel(member_from, 5);
        assert("jsonrpc"@.len() == 7 && "id"@.len() == 2 && "method"@.len() == 6 && "params"@.len() == 6);
        assert("method"@[0] != "params"@[0]);
        assert("protocolVersion"@.len() == 15 && "capabilities"@.len() == 12 && "clientInfo"@.len() == 10);
        assert("name"@.len() == 4 && "version"@.len() == 7);
        let ms = r->Object_0@;
        assert(member_from(ms, "method"@, 1) == Some(ms[2].1));
        assert(member_from(ms, "params"@, 1) == Some(ms[3].1));
        let ps = gp->Object_0@;
        assert(member_from(ps, "clientInfo"@, 1) == Some(ps[2].1));
        let is = gi->Object_0@;
        assert(member_from(is, "version"@, 0) == Some(is[1].1));
        assert(member(r, "params"@) == Some(gp));
        assert(member_names(gp) == seq!["protocolVersion"@, "capabilities"@, "clientInfo"@]);
        assert(text_member(gp, "protocolVersion"@, "2025-06-18"@));
        assert(member(gp, "capabilities"@) == Some(ps[1].1));
        assert(member(gp, "clientInfo"@) == Some(gi));
        assert(member_names(gi) == seq!["name"@, "version"@]);
        assert(text_member(gi, "name"@, "batten"@));
        assert(text_member(gi, "version"@, client_version@));
    }
    r
}

/// The two requests that follow the handshake, in order: the `initialized`
/// notification, which carries no id, and the `tools/call` request, id `2`,
/// naming the method and carrying its arguments.
pub fn follow_ups(method: &str, params: Json) -> (r: (Json, Json))
    ensures
        member_names(r.0) == seq!["jsonrpc"@, "method"@],
        text_member(r.0, "jsonrpc"@, "2.0"@),
        text_member(r.0, "method"@, "notifications/initialized"@),
        member_names(r.1) == seq!["jsonrpc"@, "id"@, "method"@, "params"@],
        text_member(r.1, "jsonrpc"@, "2.0"@),
        number_member(r.1, "id"@, "2"@),
        text_member(r.1, "method"@, "tools/call"@),
        member(r.1, "params"@) matches Some(p) && member_names(p) == seq!["name"@, "arguments"@]
            && text_member(p, "name"@, method@) && member(p, "arguments"@) == Some(params),
{
    let ready = Json::Object(
        vec![entry("jsonrpc", text_value("2.0")), entry("method", text_value("notifications/initialized"))],
    );
    let call_params = Json::Object(vec![entry("name", text_value(method)), entry("arguments", params)]);
    let ghost gc = call_params;
    let call = Json::Object(
        vec![
            entry("jsonrpc", text_value("2.0")),
            entry("id", Json::Number(String::from_str("2"))),
            entry("method", text_value("tools/call")),
            entry("params", call_params),
        ],
    );
    proof {
        reveal_strlit("jsonrpc");
        reveal_strlit("id");
        reveal_strlit("method");
        reveal_strlit("params");
        reveal_strlit("name");
        reveal_strlit("arguments");
        reveal_strlit("2");
        reveal_with_fuel(member_from, 5);
        assert("jsonrpc"@.len() == 7 && "id"@.len() == 2 && "method"@.len() == 6 && "params"@.len() == 6);
        assert("method"@[0] != "params"@[0]);
        assert("name"@.len() == 4 && "arguments"@.len() == 9);
        let rs = ready->Object_0@;
        assert(member_from(rs, "method"@, 0) == Some(rs[1].1));
        let ms = call->Object_0@;
        assert(member_from(ms, "method"@, 1) == Some(ms[2].1));
        assert(member_from(ms, "params"@, 1) == Some(ms[3].1));
        let ps = gc->Object_0@;
        assert(member_from(ps, "arguments"@, 0) == Some(ps[1].1));
    }
    (ready, call)
}

/// The headers every request of a dispatch carries: the wiring's own, then
/// the JSON content type, then both answer types a streamable server may
/// choose, then the session where the handshake minted one.
pub open spec fn headers_of(wired: Seq<(Seq<char>, Seq<char>)>, session: Option<Seq<char>>) -> Seq<
    (Seq<char>, Seq<char>),
> {
    let base = wired + seq![
        ("content-type"@, "application/json"@),
        ("accept"@, "application/json, text/event-stream"@),
    ];
    match session {
        Some(s) => base.push(("mcp-session-id"@, s)),
        None => base,
    }
}

/// The headers a request of this dispatch carries.
pub fn request_headers(wiring: &Wiring, session: Option<&str>) -> (r: Vec<(String, String)>)
    ensures
        pair_views(r@) == headers_of(
            pair_views(wiring.headers@),
            match session {
                Some(s) => Some(s@),
                None => None,
            },
        ),
{
    let mut out: Vec<(String, String)> = Vec::new();
    let mut i: usize = 0;
    while i < wiring.headers.len()
        invariant
            i <= wiring.headers.len(),
            pair_views(out@) == pair_views(wiring.headers@).subrange(0, i as int),
        decreases wiring.headers.len() - i,
    {
        let pair = (wiring.headers[i].0.clone(), wiring.headers[i].1.clone());
        proof {
            assert(pair_views(out@.push(pair)) == pair_views(out@).push((pair.0@, pair.1@)));
            assert(pair_views(wiring.headers@).subrange(0, i + 1) == pair_views(wiring.headers@).subrange(
                0,
                i as int,
            ).push((pair.0@, pair.1@)));
        }
        out.push(pair);
        i += 1;
    }
    proof {
        assert(pair_views(wiring.headers@).subrange(0, wiring.headers@.len() as int) == pair_views(
            wiring.headers@,
        ));
    }
    let ghost wired = pair_views(out@);
    let content = (String::from_str("content-type"), String::from_str("application/json"));
    out.push(content);
    let accept = (String::from_str("accept"), String::from_str("application/json, text/event-stream"));
    out.push(accept);
    proof {
        assert(pair_views(out@) == wired + seq![
            ("content-type"@, "application/json"@),
            ("accept"@, "application/json, text/event-stream"@),
        ]);
    }
    match session {
        Some(s) => {
            let ghost base = pair_views(out@);
            let id = (String::from_str("mcp-session-id"), String::from_str(s));
            out.push(id);
            proof {
                assert(pair_views(out@) == base.push(("mcp-session-id"@, s@)));
            }
        },
        None => {},
    }
    out
}

/// The session a handshake's answer established: its `mcp-session-id`
/// header, where it carries a non-empty one.
pub fn session_of(header: Option<&str>) -> (r: Option<String>)
    ensures
        match header {
            Some(h) => if h@.len() > 0 {
                r matches Some(s) && s@ == h@
            } else {
                r is None
            },
            None => r is None,
        },
{
    match header {
        Some(h) => if h.unicode_len() > 0 {
            Some(String::from_str(h))
        } else {
            None
        },
        None => None,
    }
}

/// Whether the exchange after the handshake went through: exactly two
/// answers, the first (the notification's) a success. Its status is read
/// because a handshake the server rejected must not be followed by a call
/// that pretends it succeeded.
pub open spec fn settled_of(statuses: Seq<u16>) -> Result<(), Seq<char>> {
    if statuses.len() != 2 {
        Err("mcp: the session exchange returned "@ + crate::text::decimal(statuses.len())
            + " answers rather than two"@)
    } else if !(200 <= statuses[0] < 300) {
        Err("mcp: the server refused the initialized notification with status "@ + crate::text::decimal(
            statuses[0] as nat,
        ))
    } else {
        Ok(())
    }
}

/// Check the statuses of the exchange after the handshake, in order.
pub fn settled(statuses: &[u16]) -> (r: Result<(), String>)
    ensures
        match settled_of(statuses@) {
            Ok(()) => r is Ok,
            Err(m) => r matches Err(x) && x@ == m,
        },
{
    if statuses.len() != 2 {
        let mut m = String::from_str("mcp: the session exchange returned ");
        let n = crate::text::nat_string(statuses.len() as u64);
        m.append(n.as_str());
        m.append(" answers rather than two");
        return Err(m);
    }
    if !(200 <= statuses[0] && statuses[0] < 300) {
        let mut m = String::from_str("mcp: the server refused the initialized notification with status ");
        let n = crate::text::nat_string(statuses[0] as u64);
        m.append(n.as_str());
        return Err(m);
    }
    Ok(())
}

// ---------------------------------------------------------------------------
// The JSON-RPC envelope an answer arrives in
// ---------------------------------------------------------------------------

/// Read bytes as text where they are UTF-8.
///
/// Trusted: `std::str::from_utf8`, which the standard library documents as
/// returning the text exactly when the slice is well-formed UTF-8, and an
/// error otherwise.
#[verifier::external_body]
fn utf8_text(bytes: &[u8]) -> (r: Option<String>)
    ensures
        r is Some <==> vstd::utf8::valid_utf8(bytes@),
        match r {
            Some(t) => t@ == vstd::utf8::decode_utf8(bytes@),
            None => true,
        },
{
    std::str::from_utf8(bytes).ok().map(str::to_owned)
}

/// The text of an HTTP answer a JSON-RPC envelope is read from: the framed
/// document, once the status is a success and the bytes are UTF-8.
pub open spec fn answer_text_of(status: u16, body: Seq<u8>, method: Seq<char>) -> Result<Seq<char>, Seq<char>> {
    if !(200 <= status < 300) {
        Err("mcp: "@ + method + " answered with status "@ + crate::text::decimal(status as nat))
    } else if !vstd::utf8::valid_utf8(body) {
        Err("mcp: "@ + method + " answered with bytes that are not UTF-8"@)
    } else {
        Ok(frame_spec(vstd::utf8::decode_utf8(body)))
    }
}

/// The document an answer carries, for the caller to parse as the
/// envelope; a refusal is a pointer (the status, the method) and never the
/// body.
pub fn answer_text(status: u16, body: &[u8], method: &str) -> (r: Result<String, String>)
    ensures
        match answer_text_of(status, body@, method@) {
            Ok(t) => r matches Ok(x) && x@ == t,
            Err(m) => r matches Err(x) && x@ == m,
        },
{
    if !(200 <= status && status < 300) {
        let mut m = String::from_str("mcp: ");
        m.append(method);
        m.append(" answered with status ");
        let n = crate::text::nat_string(status as u64);
        m.append(n.as_str());
        return Err(m);
    }
    match utf8_text(body) {
        Some(text) => Ok(frame(text.as_str())),
        None => {
            let mut m = String::from_str("mcp: ");
            m.append(method);
            m.append(" answered with bytes that are not UTF-8");
            Err(m)
        },
    }
}

/// Why an envelope carries no result.
#[derive(Debug, PartialEq, Eq)]
pub enum Refusal<'a> {
    /// The envelope carries an `error` with a `code`: the server refused.
    Refused(&'a Json),
    /// The envelope carries neither an error code nor a `result`.
    NoResult,
}

/// What an envelope answers: the server's error code where its `error`
/// carries one, else its `result`, else nothing.
pub open spec fn envelope_of(document: Json) -> Result<Json, Option<Json>> {
    match member(document, "error"@) {
        Some(e) => match member(e, "code"@) {
            Some(code) => Err(Some(code)),
            None => envelope_result_of(document),
        },
        None => envelope_result_of(document),
    }
}

/// The `result` member, or nothing.
pub open spec fn envelope_result_of(document: Json) -> Result<Json, Option<Json>> {
    match member(document, "result"@) {
        Some(r) => Ok(r),
        None => Err(None),
    }
}

/// The `result` member of a JSON-RPC envelope, or why there is none: a
/// refusal carrying the error code and nothing else of the server's, or an
/// envelope with no result.
pub fn envelope<'a>(document: &'a Json) -> (r: Result<&'a Json, Refusal<'a>>)
    ensures
        match envelope_of(*document) {
            Ok(v) => r matches Ok(x) && *x == v,
            Err(Some(code)) => r matches Err(Refusal::Refused(c)) && *c == code,
            Err(None) => r matches Err(Refusal::NoResult),
        },
{
    match member_of(document, "error") {
        Some(e) => match member_of(e, "code") {
            Some(code) => return Err(Refusal::Refused(code)),
            None => {},
        },
        None => {},
    }
    match member_of(document, "result") {
        Some(v) => Ok(v),
        None => Err(Refusal::NoResult),
    }
}

/// The refusal message for an envelope with no result, naming the method
/// and, for a server's refusal, the JSON-RPC error code as the caller's
/// writer renders it.
pub open spec fn refusal_text(refused: bool, method: Seq<char>, code: Seq<char>) -> Seq<char> {
    if refused {
        "mcp: "@ + method + " was refused by the server, JSON-RPC error code "@ + code
    } else {
        "mcp: "@ + method + " answered with an envelope carrying no result"@
    }
}

impl<'a> Refusal<'a> {
    /// The message this refusal is reported as; `code` is the error code as
    /// written JSON.
    pub fn message(&self, method: &str, code: &str) -> (r: String)
        ensures
            r@ == refusal_text(*self is Refused, method@, code@),
    {
        let mut m = String::from_str("mcp: ");
        m.append(method);
        match self {
            Refusal::Refused(_) => {
                m.append(" was refused by the server, JSON-RPC error code ");
                m.append(code);
            },
            Refusal::NoResult => {
                m.append(" answered with an envelope carrying no result");
            },
        }
        m
    }
}

// ---------------------------------------------------------------------------
// The payload a call answered with
// ---------------------------------------------------------------------------

/// A dispatched result with the protocol's own framing taken off.
#[derive(Debug, PartialEq, Eq)]
pub struct Payload {
    /// The document to store and to reduce.
    pub value: Json,
    /// Whether the framing was recognised and removed.
    pub unwrapped: bool,
}

/// The text of a result's one content block: `content` holding exactly one
/// block, whose `text` is a string. A multi-block answer is several
/// documents, and picking one would be choosing which half to keep.
pub open spec fn single_text(result: Json) -> Option<Seq<char>> {
    match member(result, "content"@) {
        Some(c) => match items(c) {
            Some(blocks) => if blocks.len() == 1 {
                match member(blocks[0], "text"@) {
                    Some(t) => text(t),
                    None => None,
                }
            } else {
                None
            },
            None => None,
        },
        None => None,
    }
}

/// The text of a result's one content block, which the caller parses as a
/// document before asking for the payload.
pub fn embedded_text(result: &Json) -> (r: Option<String>)
    ensures
        match r {
            Some(t) => single_text(*result) == Some(t@),
            None => single_text(*result) is None,
        },
{
    let content = match member_of(result, "content") {
        Some(c) => c,
        None => return None,
    };
    let blocks = match content {
        Json::Array(bs) => bs,
        _ => return None,
    };
    if blocks.len() != 1 {
        return None;
    }
    match member_of(&blocks[0], "text") {
        Some(Json::Text(t)) => Some(t.clone()),
        _ => None,
    }
}

/// What a `tools/call` result unframes to, and whether it was unframed:
/// `structuredContent` when the server sent one; else the document the one
/// content block's text parses to (`parsed`, where it parsed); else the
/// result whole, not unframed.
pub open spec fn payload_of(result: Json, parsed: Option<Json>) -> (Json, bool) {
    match member(result, "structuredContent"@) {
        Some(s) => (s, true),
        None => if single_text(result) is Some && parsed is Some {
            (parsed->0, true)
        } else {
            (result, false)
        },
    }
}

/// Take MCP's own content-block framing off a `tools/call` result.
///
/// `parsed` is what the caller's JSON parser made of [`embedded_text`]'s
/// answer, or `None` where there was no such text or it did not parse. A
/// server whose framing is not recognised keeps its bytes rather than having
/// a shape imposed on them.
pub fn payload(result: Json, parsed: Option<Json>) -> (r: Payload)
    ensures
        (r.value, r.unwrapped) == payload_of(result, parsed),
{
    let has_text = embedded_text(&result).is_some();
    match result {
        Json::Object(ms) => {
            let mut i: usize = 0;
            while i < ms.len()
                invariant
                    i <= ms.len(),
                    result == Json::Object(ms),
                    member(result, "structuredContent"@) == member_from(
                        ms@,
                        "structuredContent"@,
                        i as int,
                    ),
                decreases ms.len() - i,
            {
                if same_string(ms[i].0.as_str(), "structuredContent") {
                    return Payload { value: member_value(ms, i), unwrapped: true };
                }
                i += 1;
            }
            match parsed {
                Some(v) => {
                    if has_text {
                        return Payload { value: v, unwrapped: true };
                    }
                    Payload { value: Json::Object(ms), unwrapped: false }
                },
                None => Payload { value: Json::Object(ms), unwrapped: false },
            }
        },
        other => {
            proof {
                assert(member(result, "structuredContent"@) is None);
                assert(member(result, "content"@) is None);
            }
            Payload { value: other, unwrapped: false }
        },
    }
}

fn member_value(ms: Vec<(String, Json)>, i: usize) -> (r: Json)
    requires
        i < ms.len(),
    ensures
        r == ms@[i as int].1,
{
    let mut ms = ms;
    let (_, v) = ms.remove(i);
    v
}

} // verus!
