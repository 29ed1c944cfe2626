//! Counted suppression markers: how many times has policy been waved
//! through, and where?
//!
//! A marker's spelling is configuration, never a constant here. A hit is a
//! pointer — marker id and `path:line` — never the line's bytes, and
//! identical markers in one file are one identity with a count.

use vstd::prelude::*;
use vstd::string::StringExecFns;
use crate::error::UsageError;
use crate::lint::{set_insert, set_of};
use crate::text::{
    chars_key, chars_of, contains, contains_exec, key_le, key_le_exec, lemma_key_total, lemma_key_trans,
    lines, lines_exec, push_chars_key, same_string, string_of, string_views, views,
};

verus! {

/// One suppression marker declared in `batten.toml`.
#[derive(Debug, Clone, PartialEq, Eq, PartialOrd, Ord)]
pub struct Marker {
    /// The stable identifier counts are reported under.
    pub id: String,
    /// The literal text that marks a suppression, matched as a substring.
    pub token: String,
    /// Which files this marker is looked for in, as a `/`-separated glob;
    /// absent to scan the whole tree.
    pub glob: Option<String>,
}

/// A marker as plain values.
pub open spec fn marker_view(m: Marker) -> (Seq<char>, Seq<char>, Option<Seq<char>>) {
    (
        m.id@,
        m.token@,
        match m.glob {
            Some(g) => Some(g@),
            None => None,
        },
    )
}

/// Why a marker cannot honestly be counted, if it cannot: an empty id, an
/// empty token (which would match every line), or an empty glob (which
/// reads as everywhere and selects nothing).
pub open spec fn marker_fault(m: (Seq<char>, Seq<char>, Option<Seq<char>>)) -> Option<Seq<char>> {
    if m.0.len() == 0 {
        Some("marker: `id` must not be empty"@)
    } else if m.1.len() == 0 {
        Some("marker "@ + m.0 + ": `token` must not be empty; an empty token matches every line"@)
    } else if m.2 == Some(Seq::<char>::empty()) {
        Some("marker "@ + m.0 + ": `glob` must not be empty; omit the key to scan the whole tree"@)
    } else {
        None
    }
}

impl Marker {
    /// Reject a marker that cannot honestly be counted.
    pub fn validate(&self) -> (r: Result<(), UsageError>)
        ensures
            match marker_fault(marker_view(*self)) {
                Some(m) => r is Err && r->Err_0.message@ == m,
                None => r is Ok,
            },
    {
        if self.id.as_str().is_empty() {
            return Err(UsageError::new(String::from_str("marker: `id` must not be empty")));
        }
        if self.token.as_str().is_empty() {
            let mut m = String::from_str("marker ");
            m.append(self.id.as_str());
            m.append(": `token` must not be empty; an empty token matches every line");
            return Err(UsageError::new(m));
        }
        match &self.glob {
            Some(g) => if g.as_str().is_empty() {
                let mut m = String::from_str("marker ");
                m.append(self.id.as_str());
                m.append(": `glob` must not be empty; omit the key to scan the whole tree");
                proof {
                    assert(g@ =~= Seq::<char>::empty());
                }
                return Err(UsageError::new(m));
            },
            None => {},
        }
        Ok(())
    }
}

/// The first refusal a marker table earns, from the `k`th entry on: a
/// malformed entry, or an id an earlier entry declared.
pub open spec fn table_fault(rows: Seq<(Seq<char>, Seq<char>, Option<Seq<char>>)>, k: int) -> Option<
    Seq<char>,
>
    decreases rows.len() - k,
{
    if k < 0 || k >= rows.len() {
        None
    } else if marker_fault(rows[k]) is Some {
        marker_fault(rows[k])
    } else if exists|j: int| 0 <= j < k && #[trigger] rows[j].0 == rows[k].0 {
        Some(
            "marker "@ + rows[k].0 + ": declared twice; an id is the name one count is reported under"@,
        )
    } else {
        table_fault(rows, k + 1)
    }
}

/// Validate a whole table, and refuse a duplicate `id`.
pub fn validate(table: &[Marker]) -> (r: Result<(), UsageError>)
    ensures
        match table_fault(table@.map_values(|m: Marker| marker_view(m)), 0) {
            Some(m) => r is Err && r->Err_0.message@ == m,
            None => r is Ok,
        },
{
    let ghost rows = table@.map_values(|m: Marker| marker_view(m));
    let mut k: usize = 0;
    while k < table.len()
        invariant
            k <= table.len(),
            rows == table@.map_values(|m: Marker| marker_view(m)),
            table_fault(rows, 0) == table_fault(rows, k as int),
        decreases table.len() - k,
    {
        let entry = &table[k];
        proof {
            assert(rows[k as int] == marker_view(table@[k as int]));
        }
        match entry.validate() {
            Err(e) => return Err(e),
            Ok(()) => {},
        }
        let mut j: usize = 0;
        while j < k
            invariant
                j <= k < table.len(),
                rows == table@.map_values(|m: Marker| marker_view(m)),
                entry.id@ == rows[k as int].0,
                table_fault(rows, 0) == table_fault(rows, k as int),
                marker_fault(rows[k as int]) is None,
                forall|i: int| 0 <= i < j ==> #[trigger] rows[i].0 != rows[k as int].0,
            decreases k - j,
        {
            proof {
                assert(rows[j as int] == marker_view(table@[j as int]));
            }
            if same_string(table[j].id.as_str(), entry.id.as_str()) {
                let mut m = String::from_str("marker ");
                m.append(entry.id.as_str());
                m.append(": declared twice; an id is the name one count is reported under");
                proof {
                    assert(rows[j as int].0 == rows[k as int].0);
                }
                return Err(UsageError::new(m));
            }
            j += 1;
        }
        k += 1;
    }
    Ok(())
}

/// One occurrence of a marker: the pointer, never the line.
#[derive(Debug, Clone, PartialEq, Eq, PartialOrd, Ord)]
#[non_exhaustive]
pub struct Hit {
    /// The repo-relative, `/`-separated path.
    pub path: String,
    /// The 1-based line the marker appears on.
    pub line: usize,
    /// The marker id that matched.
    pub marker: String,
}

impl Hit {
    /// A hit at `path:line` for `marker`.
    pub fn new(path: String, line: usize, marker: String) -> (r: Hit)
        ensures
            r.path@ == path@ && r.line == line && r.marker@ == marker@,
    {
        Hit { path, line, marker }
    }
}

/// A hit as plain values: path, line, marker id.
pub open spec fn hit_view(h: Hit) -> (Seq<char>, int, Seq<char>) {
    (h.path@, h.line as int, h.marker@)
}

/// The views of a run of hits.
pub open spec fn hit_views(v: Seq<Hit>) -> Seq<(Seq<char>, int, Seq<char>)> {
    v.map_values(|h: Hit| hit_view(h))
}

/// The hits one line earns: one per marker whose token it contains, in the
/// order the markers are given.
pub open spec fn line_hits(path: Seq<char>, n: int, line: Seq<char>, markers: Seq<(Seq<char>, Seq<char>)>) -> Seq<
    (Seq<char>, int, Seq<char>),
>
    decreases markers.len(),
{
    if markers.len() == 0 {
        seq![]
    } else {
        let before = line_hits(path, n, line, markers.drop_last());
        if contains(line, markers.last().1) {
            before.push((path, n, markers.last().0))
        } else {
            before
        }
    }
}

/// The hits a file's lines earn, line by line, each at its 1-based number.
pub open spec fn text_hits(path: Seq<char>, ls: Seq<Seq<char>>, markers: Seq<(Seq<char>, Seq<char>)>) -> Seq<
    (Seq<char>, int, Seq<char>),
>
    decreases ls.len(),
{
    if ls.len() == 0 {
        seq![]
    } else {
        text_hits(path, ls.drop_last(), markers) + line_hits(path, ls.len() as int, ls.last(), markers)
    }
}

/// The id and token of each marker.
pub open spec fn id_tokens(markers: Seq<Marker>) -> Seq<(Seq<char>, Seq<char>)> {
    markers.map_values(|m: Marker| (m.id@, m.token@))
}

/// Every occurrence, in one file's text, of every marker that selects the
/// file: line by line, and within a line in marker order. A hit is the
/// pointer, never the line.
pub fn hits_in(path: &str, text: &str, selecting: &[Marker]) -> (r: Vec<Hit>)
    ensures
        hit_views(r@) == text_hits(path@, lines(text@), id_tokens(selecting@)),
{
    let tc = chars_of(text);
    let ls = lines_exec(tc.as_slice());
    let ghost lv = views(ls@);
    let ghost mv = id_tokens(selecting@);
    let mut out: Vec<Hit> = Vec::new();
    let mut i: usize = 0;
    while i < ls.len()
        invariant
            i <= ls.len(),
            lv == views(ls@),
            lv == lines(text@),
            mv == id_tokens(selecting@),
            hit_views(out@) == text_hits(path@, lv.subrange(0, i as int), mv),
        decreases ls.len() - i,
    {
        let ghost start = hit_views(out@);
        proof {
            assert(lv.subrange(0, i + 1).drop_last() == lv.subrange(0, i as int));
            assert(lv.subrange(0, i + 1).last() == ls@[i as int]@);
        }
        let mut k: usize = 0;
        while k < selecting.len()
            invariant
                k <= selecting.len(),
                i < ls.len(),
                mv == id_tokens(selecting@),
                hit_views(out@) == start + line_hits(path@, i + 1, ls@[i as int]@, mv.subrange(0, k as int)),
            decreases selecting.len() - k,
        {
            proof {
                assert(mv.subrange(0, k + 1).drop_last() == mv.subrange(0, k as int));
                assert(mv.subrange(0, k + 1).last() == (selecting@[k as int].id@, selecting@[k as int].token@));
            }
            if contains_exec(ls[i].as_slice(), selecting[k].token.as_str()) {
                let h = Hit { path: string_of(chars_of(path).as_slice()), line: i + 1, marker: selecting[k].id.clone() };
                proof {
                    assert(hit_views(out@.push(h)) == hit_views(out@).push(hit_view(h)));
                }
                out.push(h);
            }
            k += 1;
        }
        proof {
            assert(mv.subrange(0, selecting@.len() as int) == mv);
        }
        i += 1;
    }
    proof {
        assert(lv.subrange(0, lv.len() as int) == lv);
    }
    out
}

/// A hit's sort key: path, then line, then marker id, each text by code
/// point — the order `(path, line, marker)` has as a tuple.
pub open spec fn hit_key(h: (Seq<char>, int, Seq<char>)) -> Seq<u64> {
    chars_key(h.0) + seq![h.1 as u64] + chars_key(h.2)
}

/// Whether hits are in pointer order.
pub open spec fn hits_sorted(s: Seq<(Seq<char>, int, Seq<char>)>) -> bool {
    forall|i: int, j: int| 0 <= i < j < s.len() ==> key_le(hit_key(#[trigger] s[i]), hit_key(#[trigger] s[j]))
}

fn hit_key_of(h: &Hit) -> (r: Vec<u64>)
    ensures
        r@ == hit_key(hit_view(*h)),
{
    let mut out: Vec<u64> = Vec::new();
    let pc = chars_of(h.path.as_str());
    push_chars_key(&mut out, pc.as_slice());
    out.push(h.line as u64);
    let mc = chars_of(h.marker.as_str());
    push_chars_key(&mut out, mc.as_slice());
    proof {
        assert(out@ =~= hit_key(hit_view(*h)));
    }
    out
}

proof fn lemma_insert_sorted_hits(s: Seq<(Seq<char>, int, Seq<char>)>, p: int, x: (Seq<char>, int, Seq<char>))
    requires
        hits_sorted(s),
        0 <= p <= s.len(),
        forall|k: int| 0 <= k < p ==> key_le(hit_key(#[trigger] s[k]), hit_key(x)),
        p < s.len() ==> !key_le(hit_key(s[p]), hit_key(x)),
    ensures
        hits_sorted(s.insert(p, x)),
{
    let n = s.insert(p, x);
    if p < s.len() {
        lemma_key_total(hit_key(s[p]), hit_key(x));
    }
    assert forall|i: int, j: int| 0 <= i < j < n.len() implies key_le(
        hit_key(#[trigger] n[i]),
        hit_key(#[trigger] n[j]),
    ) by {
        if i < p && j <= p {
            assert(n[i] == s[i]);
        } else if i < p && j > p {
            assert(n[i] == s[i] && n[j] == s[j - 1]);
        } else if i == p && j > p {
            assert(n[j] == s[j - 1]);
            if j - 1 > p {
                assert(key_le(hit_key(s[p]), hit_key(s[j - 1])));
                lemma_key_trans(hit_key(x), hit_key(s[p]), hit_key(s[j - 1]));
            }
        } else {
            assert(n[i] == s[i - 1] && n[j] == s[j - 1]);
        }
    }
}

/// Hits in pointer order, `(path, line, marker)`, so identical input gives
/// identical output whatever order the files were walked in: the same hits,
/// each as often, sorted.
pub fn sort_hits(hits: Vec<Hit>) -> (r: Vec<Hit>)
    ensures
        hits_sorted(hit_views(r@)),
        hit_views(r@).to_multiset() == hit_views(hits@).to_multiset(),
{
    let ghost fv = hit_views(hits@);
    let mut out: Vec<Hit> = Vec::new();
    let mut i: usize = 0;
    proof {
        assert(hit_views(out@) =~= seq![]);
        assert(fv.subrange(0, 0) =~= seq![]);
    }
    while i < hits.len()
        invariant
            i <= hits.len(),
            fv == hit_views(hits@),
            hits_sorted(hit_views(out@)),
            hit_views(out@).to_multiset() == fv.subrange(0, i as int).to_multiset(),
        decreases hits.len() - i,
    {
        let x = Hit { path: hits[i].path.clone(), line: hits[i].line, marker: hits[i].marker.clone() };
        let xk = hit_key_of(&x);
        let ghost ov = hit_views(out@);
        let mut p: usize = 0;
        while p < out.len()
            invariant
                p <= out.len(),
                ov == hit_views(out@),
                xk@ == hit_key(hit_view(x)),
                forall|k: int| 0 <= k < p ==> key_le(hit_key(#[trigger] ov[k]), xk@),
            ensures
                p <= out.len(),
                forall|k: int| 0 <= k < p ==> key_le(hit_key(#[trigger] ov[k]), xk@),
                p < out.len() ==> !key_le(hit_key(ov[p as int]), xk@),
            decreases out.len() - p,
        {
            let ok = hit_key_of(&out[p]);
            if !key_le_exec(ok.as_slice(), xk.as_slice()) {
                break;
            }
            p += 1;
        }
        proof {
            lemma_insert_sorted_hits(ov, p as int, hit_view(x));
            assert(hit_views(out@.insert(p as int, x)) =~= ov.insert(p as int, hit_view(x)));
            vstd::seq_lib::to_multiset_insert(ov, p as int, hit_view(x));
            assert(fv.subrange(0, i + 1) == fv.subrange(0, i as int).push(fv[i as int]));
            vstd::seq_lib::to_multiset_build(fv.subrange(0, i as int), fv[i as int]);
            assert(fv[i as int] == hit_view(x));
        }
        out.insert(p, x);
        i += 1;
    }
    proof {
        assert(fv.subrange(0, fv.len() as int) == fv);
    }
    out
}

/// How a candidate file's read went.
#[derive(Debug, Clone, PartialEq, Eq)]
pub enum Read {
    /// The file's text.
    Text(String),
    /// The bytes are not UTF-8.
    NotUtf8,
    /// The read failed for another reason.
    Failed,
}

/// What an attempted read means: text to scan, a file legitimately skipped
/// (not UTF-8: a repository holds binaries), or a failure naming the path,
/// which must never read as zero markers.
pub fn scannable(read: Read, path: &str) -> (r: Result<Option<String>, String>)
    ensures
        match read {
            Read::Text(t) => r matches Ok(Some(x)) && x@ == t@,
            Read::NotUtf8 => r == Ok::<Option<String>, String>(None),
            Read::Failed => r is Err && r->Err_0@ == "cannot read "@ + path@
                + " for suppression markers"@,
        },
{
    match read {
        Read::Text(text) => Ok(Some(text)),
        Read::NotUtf8 => Ok(None),
        Read::Failed => {
            let mut m = String::from_str("cannot read ");
            m.append(path);
            m.append(" for suppression markers");
            Err(m)
        },
    }
}

/// How many hits carry a marker id.
pub open spec fn count_of(hits: Seq<Seq<char>>, id: Seq<char>) -> nat
    decreases hits.len(),
{
    if hits.len() == 0 {
        0
    } else {
        count_of(hits.drop_last(), id) + if hits.last() == id {
            1nat
        } else {
            0nat
        }
    }
}

proof fn lemma_count_of_bound(hits: Seq<Seq<char>>, id: Seq<char>)
    ensures
        count_of(hits, id) <= hits.len(),
    decreases hits.len(),
{
    if hits.len() > 0 {
        lemma_count_of_bound(hits.drop_last(), id);
    }
}

/// Fold hits into the multiset a budget reads: one entry per marker id, in
/// id order, valued by how many hits carry it. Every configured marker
/// appears, at zero too: an absent key and a zero count are different
/// claims.
pub fn counts(markers: &[Marker], hits: &[Hit]) -> (r: Vec<(String, u64)>)
    ensures
        r@.map_values(|p: (String, u64)| p.0@) == set_of(
            markers@.map_values(|m: Marker| m.id@) + hits@.map_values(|h: Hit| h.marker@),
        ),
        forall|i: int|
            0 <= i < r@.len() ==> #[trigger] r@[i].1 == count_of(
                hits@.map_values(|h: Hit| h.marker@),
                r@[i].0@,
            ),
{
    let ghost ids = markers@.map_values(|m: Marker| m.id@) + hits@.map_values(|h: Hit| h.marker@);
    let ghost hv = hits@.map_values(|h: Hit| h.marker@);
    let mut keys: Vec<String> = Vec::new();
    let mut i: usize = 0;
    proof {
        assert(ids.subrange(0, 0) =~= Seq::<Seq<char>>::empty());
        assert(string_views(keys@) =~= Seq::<Seq<char>>::empty());
    }
    while i < markers.len()
        invariant
            i <= markers.len(),
            ids == markers@.map_values(|m: Marker| m.id@) + hits@.map_values(|h: Hit| h.marker@),
            string_views(keys@) == set_of(ids.subrange(0, i as int)),
        decreases markers.len() - i,
    {
        proof {
            assert(ids.subrange(0, i + 1).drop_last() == ids.subrange(0, i as int));
            assert(ids.subrange(0, i + 1).last() == markers@[i as int].id@);
        }
        set_insert(&mut keys, markers[i].id.clone());
        i += 1;
    }
    let mut j: usize = 0;
    while j < hits.len()
        invariant
            j <= hits.len(),
            ids == markers@.map_values(|m: Marker| m.id@) + hits@.map_values(|h: Hit| h.marker@),
            string_views(keys@) == set_of(ids.subrange(0, markers.len() + j)),
        decreases hits.len() - j,
    {
        proof {
            assert(ids.subrange(0, markers.len() + j + 1).drop_last() == ids.subrange(
                0,
                markers.len() + j,
            ));
            assert(ids.subrange(0, markers.len() + j + 1).last() == hits@[j as int].marker@);
        }
        set_insert(&mut keys, hits[j].marker.clone());
        j += 1;
    }
    proof {
        assert(ids.subrange(0, markers.len() + hits.len()) == ids);
    }
    let mut out: Vec<(String, u64)> = Vec::new();
    let mut k: usize = 0;
    while k < keys.len()
        invariant
            k <= keys.len(),
            hv == hits@.map_values(|h: Hit| h.marker@),
            out@.len() == k,
            forall|q: int| 0 <= q < k ==> #[trigger] out@[q].0@ == keys@[q]@,
            forall|q: int| 0 <= q < k ==> #[trigger] out@[q].1 == count_of(hv, out@[q].0@),
        decreases keys.len() - k,
    {
        let mut n: u64 = 0;
        let mut h: usize = 0;
        while h < hits.len()
            invariant
                h <= hits.len(),
                k < keys.len(),
                hv == hits@.map_values(|x: Hit| x.marker@),
                n == count_of(hv.subrange(0, h as int), keys@[k as int]@),
                n <= h,
            decreases hits.len() - h,
        {
            proof {
                assert(hv.subrange(0, h + 1).drop_last() == hv.subrange(0, h as int));
                assert(hv.subrange(0, h + 1).last() == hits@[h as int].marker@);
            }
            if same_string(hits[h].marker.as_str(), keys[k].as_str()) {
                n += 1;
            }
            h += 1;
        }
        proof {
            assert(hv.subrange(0, hits.len() as int) == hv);
        }
        out.push((keys[k].clone(), n));
        k += 1;
    }
    proof {
        assert(out@.map_values(|p: (String, u64)| p.0@) == string_views(keys@));
    }
    out
}

} // verus!
