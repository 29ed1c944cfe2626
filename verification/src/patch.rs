//! The identity of a change: what a commit changed, hashed in a canonical,
//! deterministic form, so that a rebased, squashed or cherry-picked branch is
//! recognisable after it lands under a new commit id.
//!
//! The identity is only ever compared against one computed by the same build,
//! so its normalisation is decided here rather than inherited:
//!
//! - **Line numbers are excluded.** Hunk positions are what shift when a
//!   change is replayed on another base.
//! - **Whitespace is significant.** A whitespace-only change gets its own
//!   identity: a false "landed" is a lie, a false "not landed" only noise.
//! - **Renames are not detected.** A rename is a deletion and an addition;
//!   a similarity heuristic inside an identity would let two runs disagree.
//! - **Binary content is identified by its blob ids**, which are stable
//!   across builds, never by a compressed patch body.

use vstd::prelude::*;
use crate::lease::pack::{hex_of, hex_text};
use crate::lease::wire::{lossy_text, utf8_lossy};
use crate::outcome::{sha256, sha256_of};
use crate::text::{chars_key, chars_of, key_le, key_le_exec, lemma_key_total, lemma_key_trans, push_chars_key};

verus! {

// ---------------------------------------------------------------------------
// Changes
// ---------------------------------------------------------------------------

/// One side of a change.
#[derive(Debug, Clone, PartialEq, Eq, PartialOrd, Ord)]
pub struct Blob {
    /// The object id, hex. Carries the whole content by construction.
    pub oid: String,
    /// The file mode, so a chmod is a change rather than a no-op.
    pub mode: u32,
    /// The content, when it is text and the hunks are what identify it;
    /// `None` for a binary blob, identified by its id alone.
    pub text: Option<Vec<u8>>,
}

/// The three shapes a change takes once rename detection is refused.
#[derive(Debug, Clone, PartialEq, Eq, PartialOrd, Ord)]
pub enum Kind {
    /// The path did not exist and now does.
    Added { blob: Blob },
    /// The path existed and no longer does.
    Removed { blob: Blob },
    /// The path existed on both sides with different content or mode.
    Modified { before: Blob, after: Blob },
}

/// How a single path changed, in the canonical form the identity hashes.
#[derive(Debug, Clone, PartialEq, Eq, PartialOrd, Ord)]
pub struct Change {
    /// The path, as bytes: a repository may carry a path that is not UTF-8.
    pub path: Vec<u8>,
    /// What happened to it.
    pub kind: Kind,
}

/// A blob as plain values: its id, its mode and its text.
pub type BlobView = (Seq<char>, u32, Option<Seq<u8>>);

/// A kind as plain values.
pub enum KindView {
    Added(BlobView),
    Removed(BlobView),
    Modified(BlobView, BlobView),
}

/// A change as plain values: its path and its kind.
pub type ChangeView = (Seq<u8>, KindView);

/// The view of a blob.
pub open spec fn blob_view(b: Blob) -> BlobView {
    (
        b.oid@,
        b.mode,
        match b.text {
            Some(t) => Some(t@),
            None => None,
        },
    )
}

/// The view of a kind.
pub open spec fn kind_view(k: Kind) -> KindView {
    match k {
        Kind::Added { blob } => KindView::Added(blob_view(blob)),
        Kind::Removed { blob } => KindView::Removed(blob_view(blob)),
        Kind::Modified { before, after } => KindView::Modified(blob_view(before), blob_view(after)),
    }
}

/// The view of a change.
pub open spec fn change_view(c: Change) -> ChangeView {
    (c.path@, kind_view(c.kind))
}

/// The views of a run of changes.
pub open spec fn change_views(s: Seq<Change>) -> Seq<ChangeView> {
    s.map_values(|c: Change| change_view(c))
}

/// Whether a blob is treated as text for hunk extraction: it holds no NUL
/// byte, git's own heuristic, which classifies a blob the same way on every
/// machine.
pub open spec fn text_bytes(bytes: Seq<u8>) -> bool {
    forall|i: int| 0 <= i < bytes.len() ==> #[trigger] bytes[i] != 0
}

/// Whether a blob is treated as text for hunk extraction.
pub fn is_text(bytes: &[u8]) -> (r: bool)
    ensures
        r == text_bytes(bytes@),
{
    let mut i: usize = 0;
    while i < bytes.len()
        invariant
            i <= bytes.len(),
            forall|k: int| 0 <= k < i ==> #[trigger] bytes@[k] != 0,
        decreases bytes.len() - i,
    {
        if bytes[i] == 0 {
            return false;
        }
        i += 1;
    }
    true
}

fn copy_blob(b: &Blob) -> (r: Blob)
    ensures
        blob_view(r) == blob_view(*b),
{
    Blob {
        oid: b.oid.clone(),
        mode: b.mode,
        text: match &b.text {
            Some(t) => Some(vstd::slice::slice_to_vec(t.as_slice())),
            None => None,
        },
    }
}

fn copy_change(c: &Change) -> (r: Change)
    ensures
        change_view(r) == change_view(*c),
{
    Change {
        path: vstd::slice::slice_to_vec(c.path.as_slice()),
        kind: match &c.kind {
            Kind::Added { blob } => Kind::Added { blob: copy_blob(blob) },
            Kind::Removed { blob } => Kind::Removed { blob: copy_blob(blob) },
            Kind::Modified { before, after } => Kind::Modified {
                before: copy_blob(before),
                after: copy_blob(after),
            },
        },
    }
}

// ---------------------------------------------------------------------------
// The order changes are hashed in
// ---------------------------------------------------------------------------

/// Bytes as a sort key: each byte one above itself, then a zero, so a key
/// ends before anything that continues it.
pub open spec fn bytes_key(b: Seq<u8>) -> Seq<u64> {
    b.map_values(|x: u8| (x as int + 1) as u64).push(0)
}

/// A blob's sort key: its id, then its mode, then its text (absent first).
pub open spec fn blob_key(b: BlobView) -> Seq<u64> {
    chars_key(b.0) + seq![b.1 as u64] + match b.2 {
        None => seq![0u64],
        Some(t) => seq![1u64] + bytes_key(t),
    }
}

/// A kind's sort key: the shape (added, removed, modified, in that order),
/// then its blobs.
pub open spec fn kind_key(k: KindView) -> Seq<u64> {
    match k {
        KindView::Added(b) => seq![0u64] + blob_key(b),
        KindView::Removed(b) => seq![1u64] + blob_key(b),
        KindView::Modified(x, y) => seq![2u64] + blob_key(x) + blob_key(y),
    }
}

/// A change's sort key: its path, then its kind. Each part ends where it
/// says it does, so comparing keys compares the path first, then the kind,
/// field by field, as the derived order on [`Change`] does.
pub open spec fn change_key(c: ChangeView) -> Seq<u64> {
    bytes_key(c.0) + kind_key(c.1)
}

/// Whether changes are in hashing order.
pub open spec fn in_order(s: Seq<ChangeView>) -> bool {
    forall|i: int, j: int|
        0 <= i < j < s.len() ==> key_le(change_key(#[trigger] s[i]), change_key(#[trigger] s[j]))
}

proof fn lemma_insert_in_order(s: Seq<ChangeView>, p: int, x: ChangeView)
    requires
        in_order(s),
        0 <= p <= s.len(),
        forall|k: int| 0 <= k < p ==> key_le(change_key(#[trigger] s[k]), change_key(x)),
        p < s.len() ==> !key_le(change_key(s[p]), change_key(x)),
    ensures
        in_order(s.insert(p, x)),
{
    let n = s.insert(p, x);
    if p < s.len() {
        lemma_key_total(change_key(s[p]), change_key(x));
    }
    assert forall|i: int, j: int| 0 <= i < j < n.len() implies key_le(
        change_key(#[trigger] n[i]),
        change_key(#[trigger] n[j]),
    ) by {
        if i < p && j <= p {
            assert(n[i] == s[i]);
        } else if i < p && j > p {
            assert(n[i] == s[i] && n[j] == s[j - 1]);
        } else if i == p && j > p {
            assert(n[j] == s[j - 1]);
            if j - 1 > p {
                assert(key_le(change_key(s[p]), change_key(s[j - 1])));
                lemma_key_trans(change_key(x), change_key(s[p]), change_key(s[j - 1]));
            }
        } else {
            assert(n[i] == s[i - 1] && n[j] == s[j - 1]);
        }
    }
}

fn push_bytes_key(out: &mut Vec<u64>, b: &[u8])
    ensures
        final(out)@ == old(out)@ + bytes_key(b@),
{
    let mut i: usize = 0;
    while i < b.len()
        invariant
            i <= b.len(),
            out@ == old(out)@ + b@.subrange(0, i as int).map_values(|x: u8| (x as int + 1) as u64),
        decreases b.len() - i,
    {
        out.push(b[i] as u64 + 1);
        proof {
            assert(b@.subrange(0, i + 1) == b@.subrange(0, i as int).push(b@[i as int]));
        }
        i += 1;
    }
    out.push(0);
    proof {
        assert(b@.subrange(0, b@.len() as int) == b@);
    }
}

fn push_blob_key(out: &mut Vec<u64>, b: &Blob)
    ensures
        final(out)@ == old(out)@ + blob_key(blob_view(*b)),
{
    let oid = chars_of(b.oid.as_str());
    push_chars_key(out, oid.as_slice());
    out.push(b.mode as u64);
    match &b.text {
        None => out.push(0),
        Some(t) => {
            out.push(1);
            push_bytes_key(out, t.as_slice());
        },
    }
    proof {
        assert(final(out)@ =~= old(out)@ + blob_key(blob_view(*b)));
    }
}

/// The sort key of a change.
fn change_key_of(c: &Change) -> (r: Vec<u64>)
    ensures
        r@ == change_key(change_view(*c)),
{
    let mut out: Vec<u64> = Vec::new();
    push_bytes_key(&mut out, c.path.as_slice());
    let ghost at_kind = out@;
    match &c.kind {
        Kind::Added { blob } => {
            out.push(0);
            push_blob_key(&mut out, blob);
        },
        Kind::Removed { blob } => {
            out.push(1);
            push_blob_key(&mut out, blob);
        },
        Kind::Modified { before, after } => {
            out.push(2);
            push_blob_key(&mut out, before);
            push_blob_key(&mut out, after);
        },
    }
    proof {
        assert(out@ =~= change_key(change_view(*c)));
    }
    out
}

// ---------------------------------------------------------------------------
// The edit script
// ---------------------------------------------------------------------------

/// The edit script imara-diff's histogram algorithm finds between two texts
/// taken line by line: hunk by hunk, each removed line (`false`) and then
/// each added line (`true`), with its text and no position.
pub uninterp spec fn histogram_edits(before: Seq<char>, after: Seq<char>) -> Seq<(bool, Seq<char>)>;

/// An edit script as plain values.
pub open spec fn edit_views(v: Seq<(bool, String)>) -> Seq<(bool, Seq<char>)> {
    v.map_values(|e: (bool, String)| (e.0, e.1@))
}

/// The edit script between two texts.
///
/// Trusted: `imara_diff::Diff::compute` with `Algorithm::Histogram` over an
/// `InternedInput` of the two texts, each hunk's removed tokens and then its
/// added ones read back through the interner. The contract names the result.
#[verifier::external_body]
fn edit_script(before: &str, after: &str) -> (r: Vec<(bool, String)>)
    ensures
        edit_views(r@) == histogram_edits(before@, after@),
{
    let input = imara_diff::InternedInput::new(before, after);
    let diff = imara_diff::Diff::compute(imara_diff::Algorithm::Histogram, &input);
    let text = |t: imara_diff::Token| input.interner[t].to_string();
    diff.hunks().flat_map(|h| {
        let gone = h.before.map(|i| (false, text(input.before[i as usize])));
        let came = h.after.map(|i| (true, text(input.after[i as usize])));
        gone.chain(came).collect::<Vec<_>>()
    }).collect()
}

/// One edit-script line as bytes: `-` for a removal or `+` for an addition,
/// then the line's text, and no position. The tag keeps a change and its
/// exact revert apart.
pub open spec fn tagged(e: (bool, Seq<char>)) -> Seq<u8> {
    seq![
        if e.0 {
            43u8
        } else {
            45u8
        },
    ] + vstd::utf8::encode_utf8(e.1)
}

/// The edit script between two text blobs, read as text, as tagged lines.
pub open spec fn hunk_lines(before: Seq<u8>, after: Seq<u8>) -> Seq<Seq<u8>> {
    histogram_edits(utf8_lossy(before), utf8_lossy(after)).map_values(
        |e: (bool, Seq<char>)| tagged(e),
    )
}

/// The views of a run of byte vectors.
pub open spec fn byte_views(v: Seq<Vec<u8>>) -> Seq<Seq<u8>> {
    v.map_values(|b: Vec<u8>| b@)
}

fn push_all(out: &mut Vec<u8>, b: &[u8])
    ensures
        final(out)@ == old(out)@ + b@,
{
    let mut tail = vstd::slice::slice_to_vec(b);
    out.append(&mut tail);
}

/// The edit script between two text blobs, as tagged lines.
fn hunks(before: &[u8], after: &[u8]) -> (r: Vec<Vec<u8>>)
    ensures
        byte_views(r@) == hunk_lines(before@, after@),
{
    let b = lossy_text(before);
    let a = lossy_text(after);
    let script = edit_script(b.as_str(), a.as_str());
    let ghost es = histogram_edits(utf8_lossy(before@), utf8_lossy(after@));
    let mut out: Vec<Vec<u8>> = Vec::new();
    let mut i: usize = 0;
    while i < script.len()
        invariant
            i <= script.len(),
            es == edit_views(script@),
            byte_views(out@) == es.subrange(0, i as int).map_values(
                |e: (bool, Seq<char>)| tagged(e),
            ),
        decreases script.len() - i,
    {
        let mut line: Vec<u8> = Vec::new();
        if script[i].0 {
            line.push(43u8);
        } else {
            line.push(45u8);
        }
        push_all(&mut line, script[i].1.as_str().as_bytes());
        proof {
            assert(es[i as int] == (script@[i as int].0, script@[i as int].1@));
            assert(line@ =~= tagged(es[i as int]));
            assert(es.subrange(0, i + 1) == es.subrange(0, i as int).push(es[i as int]));
            assert(byte_views(out@.push(line)) =~= byte_views(out@).push(line@));
        }
        out.push(line);
        i += 1;
    }
    proof {
        assert(es.subrange(0, es.len() as int) == es);
    }
    out
}

// ---------------------------------------------------------------------------
// The framing that is hashed
// ---------------------------------------------------------------------------

/// A number's low eight bytes, least significant first.
pub open spec fn le64(n: nat) -> Seq<u8> {
    seq![
        (n % 256) as u8,
        (n / 0x100 % 256) as u8,
        (n / 0x1_0000 % 256) as u8,
        (n / 0x100_0000 % 256) as u8,
        (n / 0x1_0000_0000 % 256) as u8,
        (n / 0x100_0000_0000 % 256) as u8,
        (n / 0x1_0000_0000_0000 % 256) as u8,
        (n / 0x100_0000_0000_0000 % 256) as u8,
    ]
}

/// A number's low four bytes, least significant first.
pub open spec fn le32(n: nat) -> Seq<u8> {
    seq![
        (n % 256) as u8,
        (n / 0x100 % 256) as u8,
        (n / 0x1_0000 % 256) as u8,
        (n / 0x100_0000 % 256) as u8,
    ]
}

/// One length-prefixed field: the length as a little-endian 64-bit number,
/// then the bytes, so no two field sequences can be re-cut into one another.
pub open spec fn field(bytes: Seq<u8>) -> Seq<u8> {
    le64(bytes.len()) + bytes
}

/// A run of fields, in order.
pub open spec fn fields(items: Seq<Seq<u8>>) -> Seq<u8>
    decreases items.len(),
{
    if items.len() == 0 {
        seq![]
    } else {
        fields(items.drop_last()) + field(items.last())
    }
}

/// One side of one change: its mode, then, where there is a previous side
/// and both are text, the edit script between them; otherwise its object
/// id, which is exact.
pub open spec fn side(blob: BlobView, previous: Option<BlobView>) -> Seq<u8> {
    field(le32(blob.1 as nat)) + if previous is Some && (previous->0).2 is Some && blob.2 is Some {
        field(vstd::utf8::encode_utf8("hunks"@)) + fields(hunk_lines((previous->0).2->0, blob.2->0))
    } else {
        field(vstd::utf8::encode_utf8("oid"@)) + field(vstd::utf8::encode_utf8(blob.0))
    }
}

/// One change framed: its path, its shape's tag, and its sides.
pub open spec fn change_frame(c: ChangeView) -> Seq<u8> {
    field(c.0) + match c.1 {
        KindView::Added(b) => field(vstd::utf8::encode_utf8("+"@)) + side(b, None),
        KindView::Removed(b) => field(vstd::utf8::encode_utf8("-"@)) + side(b, None),
        KindView::Modified(x, y) => field(vstd::utf8::encode_utf8("~"@)) + side(x, None) + side(
            y,
            Some(x),
        ),
    }
}

/// A run of changes framed, in order.
pub open spec fn change_frames(cs: Seq<ChangeView>) -> Seq<u8>
    decreases cs.len(),
{
    if cs.len() == 0 {
        seq![]
    } else {
        change_frames(cs.drop_last()) + change_frame(cs.last())
    }
}

/// What the identity hashes: a version field, then every change framed.
pub open spec fn frame(cs: Seq<ChangeView>) -> Seq<u8> {
    field(vstd::utf8::encode_utf8("batten-patch-v1"@)) + change_frames(cs)
}

fn push_field(out: &mut Vec<u8>, bytes: &[u8])
    ensures
        final(out)@ == old(out)@ + field(bytes@),
{
    let n: u64 = bytes.len() as u64;
    out.push((n % 256) as u8);
    out.push((n / 0x100 % 256) as u8);
    out.push((n / 0x1_0000 % 256) as u8);
    out.push((n / 0x100_0000 % 256) as u8);
    out.push((n / 0x1_0000_0000 % 256) as u8);
    out.push((n / 0x100_0000_0000 % 256) as u8);
    out.push((n / 0x1_0000_0000_0000 % 256) as u8);
    out.push((n / 0x100_0000_0000_0000 % 256) as u8);
    push_all(out, bytes);
    proof {
        assert(final(out)@ =~= old(out)@ + field(bytes@));
    }
}

fn push_side(out: &mut Vec<u8>, blob: &Blob, previous: Option<&Blob>)
    ensures
        final(out)@ == old(out)@ + side(
            blob_view(*blob),
            match previous {
                Some(p) => Some(blob_view(*p)),
                None => None,
            },
        ),
{
    let m = blob.mode;
    let mode: Vec<u8> = vec![
        (m % 256) as u8,
        (m / 0x100 % 256) as u8,
        (m / 0x1_0000 % 256) as u8,
        (m / 0x100_0000 % 256) as u8,
    ];
    proof {
        assert(mode@ =~= le32(m as nat));
    }
    push_field(out, mode.as_slice());
    let ghost mid = out@;
    let pair = match previous {
        Some(p) => match (&p.text, &blob.text) {
            (Some(bt), Some(at)) => Some((bt, at)),
            _ => None,
        },
        None => None,
    };
    match pair {
        Some((bt, at)) => {
            push_field(out, "hunks".as_bytes());
            let lines = hunks(bt.as_slice(), at.as_slice());
            let ghost ls = byte_views(lines@);
            let ghost at_lines = out@;
            let mut i: usize = 0;
            while i < lines.len()
                invariant
                    i <= lines.len(),
                    ls == byte_views(lines@),
                    out@ == at_lines + fields(ls.subrange(0, i as int)),
                decreases lines.len() - i,
            {
                push_field(out, lines[i].as_slice());
                proof {
                    let next = ls.subrange(0, i + 1);
                    assert(next.drop_last() == ls.subrange(0, i as int));
                    assert(next.last() == lines@[i as int]@);
                }
                i += 1;
            }
            proof {
                assert(ls.subrange(0, ls.len() as int) == ls);
            }
        },
        None => {
            push_field(out, "oid".as_bytes());
            push_field(out, blob.oid.as_str().as_bytes());
        },
    }
}

fn push_change(out: &mut Vec<u8>, c: &Change)
    ensures
        final(out)@ == old(out)@ + change_frame(change_view(*c)),
{
    push_field(out, c.path.as_slice());
    match &c.kind {
        Kind::Added { blob } => {
            push_field(out, "+".as_bytes());
            push_side(out, blob, None);
        },
        Kind::Removed { blob } => {
            push_field(out, "-".as_bytes());
            push_side(out, blob, None);
        },
        Kind::Modified { before, after } => {
            push_field(out, "~".as_bytes());
            push_side(out, before, None);
            push_side(out, after, Some(before));
        },
    }
    proof {
        assert(final(out)@ =~= old(out)@ + change_frame(change_view(*c)));
    }
}

// ---------------------------------------------------------------------------
// The identity
// ---------------------------------------------------------------------------

/// What the identity hashes for a run of changes, in the order given.
fn framed_changes(changes: &[Change]) -> (r: Vec<u8>)
    ensures
        r@ == frame(change_views(changes@)),
{
    let mut bytes: Vec<u8> = Vec::new();
    push_field(&mut bytes, "batten-patch-v1".as_bytes());
    let ghost head = bytes@;
    let ghost cv = change_views(changes@);
    let mut k: usize = 0;
    proof {
        assert(cv.subrange(0, 0) =~= seq![]);
    }
    while k < changes.len()
        invariant
            k <= changes.len(),
            cv == change_views(changes@),
            head == field(vstd::utf8::encode_utf8("batten-patch-v1"@)),
            bytes@ == head + change_frames(cv.subrange(0, k as int)),
        decreases changes.len() - k,
    {
        push_change(&mut bytes, &changes[k]);
        proof {
            let next = cv.subrange(0, k + 1);
            assert(next.drop_last() == cv.subrange(0, k as int));
            assert(next.last() == change_view(changes@[k as int]));
        }
        k += 1;
    }
    proof {
        assert(cv.subrange(0, cv.len() as int) == cv);
    }
    bytes
}

/// Hash a commit's changes into the hex identity a patch id wraps, leaving
/// the changes in the order they were hashed in.
///
/// An empty change set has no identity: two commits that changed nothing
/// must never compare equal to each other. Otherwise the changes are put in
/// order (path first, then shape and sides), because a tree walk's order is
/// an implementation detail, and the identity is the SHA-256 of their
/// framing, in lower-case hex.
pub fn identity(changes: &mut [Change]) -> (r: Option<String>)
    ensures
        change_views(final(changes)@).to_multiset() == change_views(old(changes)@).to_multiset(),
        in_order(change_views(final(changes)@)),
        old(changes)@.len() == 0 ==> r is None,
        old(changes)@.len() > 0 ==> r is Some && r->0@ == hex_text(
            sha256(frame(change_views(final(changes)@))),
        ),
{
    if changes.len() == 0 {
        proof {
            assert(change_views(changes@) =~= Seq::<ChangeView>::empty());
        }
        return None;
    }
    let ghost start = change_views(changes@);
    let mut out: Vec<Change> = Vec::new();
    let mut i: usize = 0;
    proof {
        assert(change_views(out@) =~= seq![]);
        assert(start.subrange(0, 0) =~= seq![]);
    }
    while i < changes.len()
        invariant
            i <= changes.len(),
            start == change_views(changes@),
            out@.len() == i,
            in_order(change_views(out@)),
            change_views(out@).to_multiset() == start.subrange(0, i as int).to_multiset(),
        decreases changes.len() - i,
    {
        let x = copy_change(&changes[i]);
        let xk = change_key_of(&x);
        let ghost ov = change_views(out@);
        let mut p: usize = 0;
        while p < out.len()
            invariant
                p <= out.len(),
                ov == change_views(out@),
                xk@ == change_key(change_view(x)),
                forall|k: int| 0 <= k < p ==> key_le(change_key(#[trigger] ov[k]), xk@),
            ensures
                p <= out.len(),
                forall|k: int| 0 <= k < p ==> key_le(change_key(#[trigger] ov[k]), xk@),
                p < out.len() ==> !key_le(change_key(ov[p as int]), xk@),
            decreases out.len() - p,
        {
            let ok = change_key_of(&out[p]);
            if !key_le_exec(ok.as_slice(), xk.as_slice()) {
                break;
            }
            p += 1;
        }
        proof {
            lemma_insert_in_order(ov, p as int, change_view(x));
            assert(change_views(out@.insert(p as int, x)) =~= ov.insert(p as int, change_view(x)));
            vstd::seq_lib::to_multiset_insert(ov, p as int, change_view(x));
            assert(start.subrange(0, i + 1) == start.subrange(0, i as int).push(start[i as int]));
            vstd::seq_lib::to_multiset_build(start.subrange(0, i as int), start[i as int]);
            assert(start[i as int] == change_view(x));
        }
        out.insert(p, x);
        i += 1;
    }
    proof {
        assert(start.subrange(0, start.len() as int) == start);
    }
    let mut j: usize = 0;
    while j < out.len()
        invariant
            j <= out.len(),
            changes@.len() == out@.len(),
            forall|k: int| 0 <= k < j ==> change_view(#[trigger] changes@[k]) == change_view(out@[k]),
        decreases out.len() - j,
    {
        changes[j] = copy_change(&out[j]);
        j += 1;
    }
    proof {
        assert(change_views(changes@) =~= change_views(out@));
    }
    let bytes = framed_changes(changes);
    let digest = sha256_of(bytes.as_slice());
    Some(hex_of(digest.as_slice()))
}

} // verus!
