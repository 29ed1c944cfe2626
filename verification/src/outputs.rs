//! Output predicates over a wrapped command's captured streams.
//!
//! A command can exit `0` while its own output carries a line meaning "done
//! isn't really done". A declared pattern is a case-sensitive literal that must
//! not appear in a watched stream; a match always fails, and a finding is a
//! pointer — `stream:line id` — never the bytes that matched.

use vstd::prelude::*;
use vstd::string::StringExecFns;
use crate::error::UsageError;
use crate::lease::wire::{lossy_text, utf8_lossy};
use crate::text::{
    chars_of, contains, contains_exec, int_text, lines, lines_exec, nat_string, same_string,
    string_views, trim, trim_chars, views,
};

verus! {

/// A captured stream of a wrapped command.
#[derive(Debug, Clone, Copy, PartialEq, Eq)]
pub enum Stream {
    /// Standard output.
    Stdout,
    /// Standard error.
    Stderr,
}

/// The token a stream is written as.
pub open spec fn stream_name(s: Stream) -> Seq<char> {
    match s {
        Stream::Stdout => "stdout"@,
        Stream::Stderr => "stderr"@,
    }
}

impl Stream {
    /// Both streams.
    pub const ALL: [Stream; 2] = [Stream::Stdout, Stream::Stderr];

    /// The stable token this stream is written as.
    pub fn as_str(self) -> (r: &'static str)
        ensures
            r@ == stream_name(self),
    {
        match self {
            Stream::Stdout => "stdout",
            Stream::Stderr => "stderr",
        }
    }
}

/// Which captured stream a pattern is matched against.
#[derive(Debug, Clone, Copy, PartialEq, Eq)]
pub enum Watched {
    /// The child's standard output only.
    Stdout,
    /// The child's standard error only.
    Stderr,
    /// Both streams: the default, and deliberately the widest reading.
    Both,
}

/// The token a selection is written as.
pub open spec fn watched_name(w: Watched) -> Seq<char> {
    match w {
        Watched::Stdout => "stdout"@,
        Watched::Stderr => "stderr"@,
        Watched::Both => "both"@,
    }
}

/// Whether a selection covers a stream.
pub open spec fn covers_spec(w: Watched, s: Stream) -> bool {
    match w {
        Watched::Both => true,
        Watched::Stdout => s == Stream::Stdout,
        Watched::Stderr => s == Stream::Stderr,
    }
}

impl Default for Watched {
    /// Both streams.
    fn default() -> (r: Self)
        ensures
            r == Watched::Both,
    {
        Watched::Both
    }
}

impl Watched {
    /// Every value, so anything ranging over the vocabulary is derived.
    pub const ALL: [Watched; 3] = [Watched::Stdout, Watched::Stderr, Watched::Both];

    /// The stable token this value is written as.
    pub fn as_str(self) -> (r: &'static str)
        ensures
            r@ == watched_name(self),
    {
        match self {
            Watched::Stdout => "stdout",
            Watched::Stderr => "stderr",
            Watched::Both => "both",
        }
    }

    /// Whether this selection covers `stream`.
    pub fn covers(self, stream: Stream) -> (r: bool)
        ensures
            r == covers_spec(self, stream),
    {
        match self {
            Watched::Both => true,
            Watched::Stdout => match stream {
                Stream::Stdout => true,
                Stream::Stderr => false,
            },
            Watched::Stderr => match stream {
                Stream::Stderr => true,
                Stream::Stdout => false,
            },
        }
    }
}

/// One declared output predicate: a literal that must not appear.
#[derive(Debug, Clone, PartialEq, Eq)]
pub struct OutputPattern {
    /// The stable identifier a match is reported under.
    pub id: String,
    /// The case-sensitive literal that must not appear in the watched stream.
    pub pattern: String,
    /// Which stream to watch.
    pub stream: Watched,
    /// What the caller should do about it.
    pub reason: String,
}

/// A pattern as plain values.
pub open spec fn pattern_view(p: OutputPattern) -> (Seq<char>, Seq<char>, Watched, Seq<char>) {
    (p.id@, p.pattern@, p.stream, p.reason@)
}

/// The views of a pattern table.
pub open spec fn pattern_views(v: Seq<OutputPattern>) -> Seq<(Seq<char>, Seq<char>, Watched, Seq<char>)> {
    v.map_values(|p: OutputPattern| pattern_view(p))
}

/// Where a pattern matched: the stream and the 1-based line within it.
#[derive(Debug, Clone, PartialEq, Eq)]
pub struct Hit {
    /// The stream the match was found in.
    pub stream: &'static str,
    /// The 1-based line number within that stream.
    pub line: usize,
    /// The id of the pattern that matched.
    pub id: String,
}

/// A hit as plain values.
pub open spec fn hit_view(h: Hit) -> (Seq<char>, nat, Seq<char>) {
    (h.stream@, h.line as nat, h.id@)
}

impl Hit {
    /// The pointer line this hit renders as: `<stream>:<line> <id>`, never
    /// the matched bytes.
    pub fn line_text(&self) -> (r: String)
        ensures
            r@ == self.stream@ + ":"@ + crate::text::decimal(self.line as nat) + " "@ + self.id@,
    {
        let mut out = String::from_str(self.stream);
        out.append(":");
        let n = nat_string(self.line as u64);
        out.append(n.as_str());
        out.append(" ");
        out.append(self.id.as_str());
        out
    }
}

/// The first refusal a pattern table earns, from the `k`th row on: an id
/// that is blank, a pattern that is empty (it would match every run), a
/// reason that is blank, or an id an earlier row already declared.
pub open spec fn table_fault(rows: Seq<(Seq<char>, Seq<char>, Watched, Seq<char>)>, k: int) -> Option<Seq<char>>
    decreases rows.len() - k,
{
    if k < 0 || k >= rows.len() {
        None
    } else {
        let (id, pattern, _, reason) = rows[k];
        if trim(id).len() == 0 {
            Some("exec_pattern: id must not be empty \u{2014} it is what a match is reported as"@)
        } else if pattern.len() == 0 {
            Some(
                "exec_pattern "@ + id
                    + ": pattern must not be empty \u{2014} an empty literal matches every run"@,
            )
        } else if trim(reason).len() == 0 {
            Some(
                "exec_pattern "@ + id
                    + ": reason is required \u{2014} a promoted exit code is all the caller gets back"@,
            )
        } else if exists|j: int| 0 <= j < k && #[trigger] rows[j].0 == id {
            Some("exec_pattern "@ + id + ": declared twice"@)
        } else {
            table_fault(rows, k + 1)
        }
    }
}

/// Refuse a malformed pattern table at load, so a typo cannot sit inert.
pub fn validate(patterns: &[OutputPattern]) -> (r: Result<(), UsageError>)
    ensures
        match table_fault(pattern_views(patterns@), 0) {
            Some(m) => r is Err && r->Err_0.message@ == m,
            None => r is Ok,
        },
{
    let ghost rows = pattern_views(patterns@);
    let mut k: usize = 0;
    while k < patterns.len()
        invariant
            k <= patterns.len(),
            rows == pattern_views(patterns@),
            table_fault(rows, 0) == table_fault(rows, k as int),
        decreases patterns.len() - k,
    {
        let p = &patterns[k];
        proof {
            assert(rows[k as int] == pattern_view(patterns@[k as int]));
        }
        let id_chars = chars_of(p.id.as_str());
        if trim_chars(id_chars.as_slice()).len() == 0 {
            return Err(
                UsageError::new(
                    String::from_str(
                        "exec_pattern: id must not be empty \u{2014} it is what a match is reported as",
                    ),
                ),
            );
        }
        if p.pattern.as_str().is_empty() {
            let mut m = String::from_str("exec_pattern ");
            m.append(p.id.as_str());
            m.append(": pattern must not be empty \u{2014} an empty literal matches every run");
            return Err(UsageError::new(m));
        }
        let reason_chars = chars_of(p.reason.as_str());
        if trim_chars(reason_chars.as_slice()).len() == 0 {
            let mut m = String::from_str("exec_pattern ");
            m.append(p.id.as_str());
            m.append(
                ": reason is required \u{2014} a promoted exit code is all the caller gets back",
            );
            return Err(UsageError::new(m));
        }
        let mut j: usize = 0;
        while j < k
            invariant
                j <= k < patterns.len(),
                rows == pattern_views(patterns@),
                p.id@ == rows[k as int].0,
                table_fault(rows, 0) == table_fault(rows, k as int),
                trim(rows[k as int].0).len() != 0,
                rows[k as int].1.len() != 0,
                trim(rows[k as int].3).len() != 0,
                forall|i: int| 0 <= i < j ==> #[trigger] rows[i].0 != rows[k as int].0,
            decreases k - j,
        {
            proof {
                assert(rows[j as int] == pattern_view(patterns@[j as int]));
            }
            if same_string(patterns[j].id.as_str(), p.id.as_str()) {
                proof {
                    assert(rows[j as int].0 == rows[k as int].0);
                }
                let mut m = String::from_str("exec_pattern ");
                m.append(p.id.as_str());
                m.append(": declared twice");
                return Err(UsageError::new(m));
            }
            j += 1;
        }
        k += 1;
    }
    Ok(())
}

/// The hits of every pattern on one line, in declaration order.
pub open spec fn line_hits(
    pats: Seq<(Seq<char>, Seq<char>, Watched, Seq<char>)>,
    stream: Stream,
    line: Seq<char>,
    number: nat,
) -> Seq<(Seq<char>, nat, Seq<char>)>
    decreases pats.len(),
{
    if pats.len() == 0 {
        seq![]
    } else {
        let p = pats.last();
        line_hits(pats.drop_last(), stream, line, number) + if covers_spec(p.2, stream) && contains(
            line,
            p.1,
        ) {
            seq![(stream_name(stream), number, p.0)]
        } else {
            seq![]
        }
    }
}

/// The hits over the first lines of a stream, line by line.
pub open spec fn stream_hits(
    pats: Seq<(Seq<char>, Seq<char>, Watched, Seq<char>)>,
    stream: Stream,
    ls: Seq<Seq<char>>,
) -> Seq<(Seq<char>, nat, Seq<char>)>
    decreases ls.len(),
{
    if ls.len() == 0 {
        seq![]
    } else {
        stream_hits(pats, stream, ls.drop_last()) + line_hits(pats, stream, ls.last(), ls.len())
    }
}

/// Every hit of `patterns` in one captured `stream`, read as lossy text so
/// that a stray invalid byte cannot make a tool un-gateable.
pub fn hits(patterns: &[OutputPattern], stream: Stream, bytes: &[u8]) -> (r: Vec<Hit>)
    ensures
        r@.map_values(|h: Hit| hit_view(h)) == stream_hits(
            pattern_views(patterns@),
            stream,
            lines(utf8_lossy(bytes@)),
        ),
{
    let text = lossy_text(bytes);
    let chars = chars_of(text.as_str());
    let ls = lines_exec(chars.as_slice());
    let ghost lv = views(ls@);
    let ghost pv = pattern_views(patterns@);
    let mut found: Vec<Hit> = Vec::new();
    let mut index: usize = 0;
    while index < ls.len()
        invariant
            index <= ls.len(),
            lv == views(ls@),
            pv == pattern_views(patterns@),
            found@.map_values(|h: Hit| hit_view(h)) == stream_hits(pv, stream, lv.subrange(0, index as int)),
        decreases ls.len() - index,
    {
        let ghost before = found@.map_values(|h: Hit| hit_view(h));
        proof {
            assert(lv.subrange(0, index + 1).drop_last() == lv.subrange(0, index as int));
            assert(lv.subrange(0, index + 1).last() == ls@[index as int]@);
        }
        let mut k: usize = 0;
        while k < patterns.len()
            invariant
                k <= patterns.len(),
                index < ls.len(),
                pv == pattern_views(patterns@),
                found@.map_values(|h: Hit| hit_view(h)) == before + line_hits(
                    pv.subrange(0, k as int),
                    stream,
                    ls@[index as int]@,
                    (index + 1) as nat,
                ),
            decreases patterns.len() - k,
        {
            proof {
                assert(pv.subrange(0, k + 1).drop_last() == pv.subrange(0, k as int));
                assert(pv.subrange(0, k + 1).last() == pattern_view(patterns@[k as int]));
            }
            let p = &patterns[k];
            if p.stream.covers(stream) && contains_exec(ls[index].as_slice(), p.pattern.as_str()) {
                let hit = Hit { stream: stream.as_str(), line: index + 1, id: p.id.clone() };
                proof {
                    assert(found@.push(hit).map_values(|h: Hit| hit_view(h)) == found@.map_values(
                        |h: Hit| hit_view(h),
                    ).push(hit_view(hit)));
                }
                found.push(hit);
            }
            k += 1;
        }
        proof {
            assert(pv.subrange(0, patterns.len() as int) == pv);
        }
        index += 1;
    }
    proof {
        assert(lv.subrange(0, ls.len() as int) == lv);
    }
    found
}

/// Whether any hit carries `id`.
pub open spec fn hit_named(found: Seq<(Seq<char>, nat, Seq<char>)>, id: Seq<char>) -> bool {
    exists|i: int| 0 <= i < found.len() && #[trigger] found[i].2 == id
}

/// The reasons behind a set of hits, one per pattern that any hit names, in
/// declaration order, each as `id: reason`.
pub open spec fn reasons_of(
    pats: Seq<(Seq<char>, Seq<char>, Watched, Seq<char>)>,
    found: Seq<(Seq<char>, nat, Seq<char>)>,
) -> Seq<Seq<char>>
    decreases pats.len(),
{
    if pats.len() == 0 {
        seq![]
    } else if hit_named(found, pats.last().0) {
        reasons_of(pats.drop_last(), found).push(pats.last().0 + ": "@ + pats.last().3)
    } else {
        reasons_of(pats.drop_last(), found)
    }
}

/// The reasons behind a set of hits, deduplicated, in declaration order: a
/// tool that emitted the same warning forty times says what to do once.
pub fn reasons(patterns: &[OutputPattern], found: &[Hit]) -> (r: Vec<String>)
    ensures
        string_views(r@) == reasons_of(
            pattern_views(patterns@),
            found@.map_values(|h: Hit| hit_view(h)),
        ),
{
    let ghost pv = pattern_views(patterns@);
    let ghost fv = found@.map_values(|h: Hit| hit_view(h));
    let mut out: Vec<String> = Vec::new();
    let mut k: usize = 0;
    while k < patterns.len()
        invariant
            k <= patterns.len(),
            pv == pattern_views(patterns@),
            fv == found@.map_values(|h: Hit| hit_view(h)),
            string_views(out@) == reasons_of(pv.subrange(0, k as int), fv),
        decreases patterns.len() - k,
    {
        proof {
            assert(pv.subrange(0, k + 1).drop_last() == pv.subrange(0, k as int));
            assert(pv.subrange(0, k + 1).last() == pattern_view(patterns@[k as int]));
        }
        let p = &patterns[k];
        let mut any = false;
        let mut j: usize = 0;
        while j < found.len()
            invariant
                j <= found.len(),
                fv == found@.map_values(|h: Hit| hit_view(h)),
                any == exists|i: int| 0 <= i < j && #[trigger] fv[i].2 == p.id@,
            decreases found.len() - j,
        {
            proof {
                assert(fv[j as int] == hit_view(found@[j as int]));
            }
            let matched = same_string(found[j].id.as_str(), p.id.as_str());
            proof {
                assert(matched == (fv[j as int].2 == p.id@));
                if !matched && !any {
                    assert forall|i: int| 0 <= i < j + 1 implies #[trigger] fv[i].2 != p.id@ by {
                        if i < j {
                            assert(!(0 <= i < j && fv[i].2 == p.id@));
                        }
                    }
                }
            }
            if matched {
                any = true;
            }
            j += 1;
        }
        if any {
            let mut line = p.id.clone();
            line.append(": ");
            line.append(p.reason.as_str());
            proof {
                assert(string_views(out@.push(line)) == string_views(out@).push(line@));
            }
            out.push(line);
        }
        k += 1;
    }
    proof {
        assert(pv.subrange(0, patterns.len() as int) == pv);
    }
    out
}

/// `both` is the widest reading: it covers every stream, and each one-stream
/// selection covers exactly its own stream.
pub proof fn lemma_both_covers_each_stream(w: Watched, s: Stream)
    ensures
        covers_spec(Watched::Both, s),
        covers_spec(w, s) ==> covers_spec(Watched::Both, s),
        w != Watched::Both ==> (covers_spec(w, s) <==> watched_name(w) == stream_name(s)),
{
    reveal_strlit("stdout");
    reveal_strlit("stderr");
    assert("stdout"@[3] != "stderr"@[3]);
}

} // verus!
