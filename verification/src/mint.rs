//! Receipts minted from the tool result that earned them.
//!
//! A mint has a name, a tool selector, a key, a required projection and a
//! body template over a closed placeholder vocabulary. This module holds
//! the template's grammar, the slug and digest a placeholder renders, and
//! the load-time refusal of a table that would mint nothing.

use vstd::prelude::*;
use vstd::string::StringExecFns;
use vstd::string::StringSliceAdditionalSpecFns;
use crate::error::UsageError;
use crate::lease::pack::{git_object_id, object_id, ObjectKind};
use crate::json::{Json, bare, is_null, items, member, member_of, referents, text};
use crate::text::{
    chars_of, find, find_exec, same_str, same_string, slice_of, split, split_exec, split_once,
    split_once_exec, string_of, string_views, strip_suffix, strip_suffix_exec, trim, trim_chars,
    views,
};

verus! {

/// What a mint's receipt is filed under.
#[derive(Debug, Clone, Copy, PartialEq, Eq, PartialOrd, Ord)]
pub enum MintKey {
    /// Filed under a subject the result names.
    Named,
    /// Filed under the current branch.
    Branch,
}

/// Whether a mint replaces its record or appends to it.
#[derive(Debug, Clone, Copy, PartialEq, Eq, PartialOrd, Ord)]
pub enum MintMode {
    /// Truncate and write. The freshest answer is the only answer.
    Replace,
    /// Append a line. The record is a journal of what was seen.
    Append,
}

/// One receipt this repository mints from a tool result.
#[derive(Debug, Clone, PartialEq, Eq)]
pub struct Declared {
    /// The receipt namespace.
    pub name: String,
    /// Which tool's result mints it.
    pub tool: String,
    /// What the record is filed under.
    pub key: MintKey,
    /// The path whose value is the subject, for a named key.
    pub key_from: Option<String>,
    /// Paths that must be present and non-null in the result for anything
    /// to be written: the success predicate.
    pub requires: Vec<String>,
    /// Whether the record is replaced or appended.
    pub mode: MintMode,
    /// The record's bytes, as a template.
    pub body: String,
}

/// One element of a body template: a closed vocabulary.
#[derive(Debug, Clone, PartialEq, Eq)]
pub enum Piece {
    /// Text outside any placeholder, verbatim.
    Literal(String),
    /// `{path}` — the scalar at that path.
    Path(String),
    /// `{now}` — seconds since the epoch, read at the boundary.
    Now,
    /// `{digest:path}` — the git blob hash of the string there.
    Digest(String),
    /// `{slug:path}` — lowercased with non-alphanumeric runs folded to `-`.
    Slug(String),
    /// `{join:path}` — the values an iterating path yields, space-joined.
    Join(String),
    /// `{git:ref}` — what that ref resolves to in this checkout.
    Git(String),
}

/// A template element as plain values.
pub enum PieceView {
    Literal(Seq<char>),
    Path(Seq<char>),
    Now,
    Digest(Seq<char>),
    Slug(Seq<char>),
    Join(Seq<char>),
    Git(Seq<char>),
}

/// The view of a template element.
pub open spec fn piece_view(p: Piece) -> PieceView {
    match p {
        Piece::Literal(s) => PieceView::Literal(s@),
        Piece::Path(s) => PieceView::Path(s@),
        Piece::Now => PieceView::Now,
        Piece::Digest(s) => PieceView::Digest(s@),
        Piece::Slug(s) => PieceView::Slug(s@),
        Piece::Join(s) => PieceView::Join(s@),
        Piece::Git(s) => PieceView::Git(s@),
    }
}

/// The views of a run of template elements.
pub open spec fn piece_views(v: Seq<Piece>) -> Seq<PieceView> {
    v.map_values(|p: Piece| piece_view(p))
}

/// The token an absent optional records: could-not-look.
pub const ABSENT: &'static str = "-";

/// One placeholder's meaning, or the refusal naming it: `now`; a bare path;
/// or `verb:argument` with a known verb and a non-empty argument.
pub open spec fn piece_of(token: Seq<char>) -> Result<PieceView, Seq<char>> {
    if token == "now"@ {
        Ok(PieceView::Now)
    } else {
        match split_once(token, ":"@) {
            None => if token.len() == 0 {
                Err("`{}` names no path"@)
            } else {
                Ok(PieceView::Path(token))
            },
            Some((verb, argument)) => if argument.len() == 0 {
                Err("`{"@ + token + "}` names an empty argument"@)
            } else if verb == "digest"@ {
                Ok(PieceView::Digest(argument))
            } else if verb == "slug"@ {
                Ok(PieceView::Slug(argument))
            } else if verb == "join"@ {
                Ok(PieceView::Join(argument))
            } else if verb == "git"@ {
                Ok(PieceView::Git(argument))
            } else {
                Err(
                    "`{"@ + token + "}` names `"@ + verb
                        + "`, which is not one of `digest`, `slug`, `join` or `git`"@,
                )
            },
        }
    }
}

/// One placeholder's meaning, or a refusal naming it.
pub fn piece_for(token: &str) -> (r: Result<Piece, String>)
    ensures
        match r {
            Ok(p) => piece_of(token@) == Ok::<PieceView, Seq<char>>(piece_view(p)),
            Err(e) => piece_of(token@) == Err::<PieceView, Seq<char>>(e@),
        },
{
    if same_string(token, "now") {
        return Ok(Piece::Now);
    }
    let t = chars_of(token);
    let Some((verb, argument)) = split_once_exec(t.as_slice(), ":") else {
        if t.len() == 0 {
            return Err(String::from_str("`{}` names no path"));
        }
        return Ok(Piece::Path(String::from_str(token)));
    };
    if argument.len() == 0 {
        let mut m = String::from_str("`{");
        m.append(token);
        m.append("}` names an empty argument");
        return Err(m);
    }
    let arg = string_of(argument.as_slice());
    if same_str(verb.as_slice(), "digest") {
        Ok(Piece::Digest(arg))
    } else if same_str(verb.as_slice(), "slug") {
        Ok(Piece::Slug(arg))
    } else if same_str(verb.as_slice(), "join") {
        Ok(Piece::Join(arg))
    } else if same_str(verb.as_slice(), "git") {
        Ok(Piece::Git(arg))
    } else {
        let mut m = String::from_str("`{");
        m.append(token);
        m.append("}` names `");
        let v = string_of(verb.as_slice());
        m.append(v.as_str());
        m.append("`, which is not one of `digest`, `slug`, `join` or `git`");
        Err(m)
    }
}

/// A literal piece, where there is text to carry.
pub open spec fn literal_piece(lit: Seq<char>) -> Seq<PieceView> {
    if lit.len() > 0 {
        seq![PieceView::Literal(lit)]
    } else {
        seq![]
    }
}

/// The pieces of what is left of a template: text up to the next `{`, then
/// the placeholder up to the next `}`, and on; an unclosed `{` refuses the
/// whole template, naming it.
pub open spec fn parse_rest(body: Seq<char>, rest: Seq<char>) -> Result<Seq<PieceView>, Seq<char>>
    decreases rest.len(),
{
    match find(rest, "{"@) {
        None => Ok(literal_piece(rest)),
        Some(open) => {
            if open < 0 || open >= rest.len() {
                Ok(literal_piece(rest))
            } else {
                let after = rest.subrange(open + 1, rest.len() as int);
                match find(after, "}"@) {
                    None => Err("`"@ + body + "` has an unclosed `{`"@),
                    Some(close) => if close < 0 || close >= after.len() {
                        Err("`"@ + body + "` has an unclosed `{`"@)
                    } else {
                        let token = after.subrange(0, close);
                        match piece_of(token) {
                            Err(e) => Err(e),
                            Ok(p) => match parse_rest(
                                body,
                                after.subrange(close + 1, after.len() as int),
                            ) {
                                Err(e) => Err(e),
                                Ok(tail) => Ok(
                                    literal_piece(rest.subrange(0, open)).push(p) + tail,
                                ),
                            },
                        }
                    },
                }
            }
        },
    }
}

/// A template's pieces, or the first thing wrong with it.
pub open spec fn parse_spec(body: Seq<char>) -> Result<Seq<PieceView>, Seq<char>> {
    parse_rest(body, body)
}

/// Pieces already read, in front of what the rest parses to.
pub open spec fn prefixed(acc: Seq<PieceView>, r: Result<Seq<PieceView>, Seq<char>>) -> Result<
    Seq<PieceView>,
    Seq<char>,
> {
    match r {
        Ok(t) => Ok(acc + t),
        Err(e) => Err(e),
    }
}

fn push_piece(v: &mut Vec<Piece>, p: Piece)
    ensures
        piece_views(final(v)@) == piece_views(old(v)@).push(piece_view(p)),
{
    v.push(p);
    proof {
        assert(piece_views(v@) == piece_views(old(v)@).push(piece_view(p)));
    }
}

/// Split a body template into its pieces, or name the first thing wrong
/// with it. Shared by validation and rendering, so a template that loads is
/// a template that renders.
pub fn parse(body: &str) -> (r: Result<Vec<Piece>, String>)
    ensures
        match r {
            Ok(v) => parse_spec(body@) == Ok::<Seq<PieceView>, Seq<char>>(piece_views(v@)),
            Err(e) => parse_spec(body@) == Err::<Seq<PieceView>, Seq<char>>(e@),
        },
{
    let opener = chars_of("{");
    let closer = chars_of("}");
    proof {
        reveal_strlit("{");
        reveal_strlit("}");
    }
    let mut pieces: Vec<Piece> = Vec::new();
    let mut rest = chars_of(body);
    proof {
        assert(piece_views(pieces@) =~= seq![]);
        match parse_rest(body@, body@) {
            Ok(t) => {
                assert(Seq::<PieceView>::empty() + t =~= t);
            },
            Err(_) => {},
        }
    }
    loop
        invariant
            opener@ == "{"@,
            closer@ == "}"@,
            opener@.len() == 1,
            closer@.len() == 1,
            parse_spec(body@) == prefixed(piece_views(pieces@), parse_rest(body@, rest@)),
        decreases rest@.len(),
    {
        let ghost acc = piece_views(pieces@);
        let Some(open) = find_exec(rest.as_slice(), opener.as_slice()) else {
            if rest.len() > 0 {
                push_piece(&mut pieces, Piece::Literal(string_of(rest.as_slice())));
            }
            proof {
                assert(parse_rest(body@, rest@) == Ok::<Seq<PieceView>, Seq<char>>(
                    literal_piece(rest@),
                ));
                assert(piece_views(pieces@) == acc + literal_piece(rest@));
            }
            return Ok(pieces);
        };
        proof {
            crate::text::lemma_find_from_occurs(rest@, opener@, 0);
            assert(crate::text::find(rest@, opener@) == Some(open as int));
            assert(crate::text::occurs_at(rest@, opener@, open as int));
        }
        assert(open < rest.len());
        let after = crate::text::slice_of(rest.as_slice(), open + 1, rest.len());
        let Some(close) = find_exec(after.as_slice(), closer.as_slice()) else {
            let mut m = String::from_str("`");
            m.append(body);
            m.append("` has an unclosed `{`");
            return Err(m);
        };
        proof {
            crate::text::lemma_find_from_occurs(after@, closer@, 0);
        }
        let token = string_of(crate::text::slice_of(after.as_slice(), 0, close).as_slice());
        let lit = crate::text::slice_of(rest.as_slice(), 0, open);
        let p = match piece_for(token.as_str()) {
            Ok(p) => p,
            Err(e) => return Err(e),
        };
        let ghost pv = piece_view(p);
        let next = crate::text::slice_of(after.as_slice(), close + 1, after.len());
        if lit.len() > 0 {
            push_piece(&mut pieces, Piece::Literal(string_of(lit.as_slice())));
        }
        push_piece(&mut pieces, p);
        proof {
            assert(piece_views(pieces@) == acc + literal_piece(lit@).push(pv));
            match parse_rest(body@, next@) {
                Ok(tail) => {
                    assert(acc + (literal_piece(lit@).push(pv) + tail) == (acc + literal_piece(
                        lit@,
                    ).push(pv)) + tail);
                },
                Err(_) => {},
            }
        }
        rest = next;
    }
}

/// The slug state after some text: what has been written, and whether a
/// run of characters to fold is pending.
pub open spec fn slug_state(t: Seq<char>) -> (Seq<char>, bool)
    decreases t.len(),
{
    if t.len() == 0 {
        (seq![], false)
    } else {
        let (out, pending) = slug_state(t.drop_last());
        let c = t.last();
        if is_ascii_alnum(c) {
            (
                if pending && out.len() > 0 {
                    out.push('-')
                } else {
                    out
                }.push(ascii_lower(c)),
                false,
            )
        } else {
            (out, true)
        }
    }
}

/// An ASCII letter or digit.
pub open spec fn is_ascii_alnum(c: char) -> bool {
    ('0' <= c <= '9') || ('a' <= c <= 'z') || ('A' <= c <= 'Z')
}

/// An ASCII letter lowercased; anything else as it is.
pub open spec fn ascii_lower(c: char) -> char {
    if 'A' <= c <= 'Z' {
        ((c as int) + 32) as char
    } else {
        c
    }
}

/// Lowercase with runs of non-alphanumerics folded to a single `-`, none
/// leading and none trailing.
pub open spec fn slug_spec(t: Seq<char>) -> Seq<char> {
    slug_state(t).0
}

fn lower_exec(c: char) -> (r: char)
    requires
        is_ascii_alnum(c),
    ensures
        r == ascii_lower(c),
{
    if 'A' <= c && c <= 'Z' {
        let mut k: u8 = 65;
        while k <= 90
            invariant
                65 <= k <= 91,
                (c as int) >= k,
                (c as int) <= 90,
            decreases 91 - k,
        {
            if (k as char) == c {
                return ((k + 32) as char);
            }
            k += 1;
        }
        c
    } else {
        c
    }
}

/// Lowercase with runs of non-alphanumerics folded to a single `-`.
pub fn slug(text: &str) -> (r: String)
    ensures
        r@ == slug_spec(text@),
{
    let t = chars_of(text);
    let mut out: Vec<char> = Vec::new();
    let mut pending = false;
    let mut i: usize = 0;
    while i < t.len()
        invariant
            i <= t.len(),
            t@ == text@,
            (out@, pending) == slug_state(t@.subrange(0, i as int)),
        decreases t.len() - i,
    {
        proof {
            assert(t@.subrange(0, i + 1).drop_last() == t@.subrange(0, i as int));
            assert(t@.subrange(0, i + 1).last() == t@[i as int]);
        }
        let c = t[i];
        if ('0' <= c && c <= '9') || ('a' <= c && c <= 'z') || ('A' <= c && c <= 'Z') {
            if pending && out.len() > 0 {
                out.push('-');
            }
            pending = false;
            out.push(lower_exec(c));
        } else {
            pending = true;
        }
        i += 1;
    }
    proof {
        assert(t@.subrange(0, t.len() as int) == t@);
    }
    string_of(out.as_slice())
}

// ---------------------------------------------------------------------------
// Reading a tool result
// ---------------------------------------------------------------------------

/// A path segment's name, and whether it iterates: a `[]` suffix comes off
/// and makes it iterate.
pub open spec fn segment(seg: Seq<char>) -> (Seq<char>, bool) {
    match strip_suffix(seg, "[]"@) {
        Some(name) => (name, true),
        None => (seg, false),
    }
}

/// What one segment selects from one value: the value's member (or the value
/// itself, for an empty name: a top-level array's spelling), and then, for an
/// iterating segment, that member's items.
pub open spec fn step(v: Json, name: Seq<char>, iterate: bool) -> Option<Seq<Json>> {
    match (if name.len() == 0 {
        Some(v)
    } else {
        member(v, name)
    }) {
        None => None,
        Some(w) => if iterate {
            items(w)
        } else {
            Some(seq![w])
        },
    }
}

/// Values already selected, in front of what the rest selects.
pub open spec fn joined_after(acc: Seq<Json>, r: Option<Seq<Json>>) -> Option<Seq<Json>> {
    match r {
        None => None,
        Some(b) => Some(acc + b),
    }
}

/// What one segment selects from each value from the `k`th on, in order;
/// `None` where any of them does not resolve.
pub open spec fn step_each(current: Seq<Json>, name: Seq<char>, iterate: bool, k: int) -> Option<
    Seq<Json>,
>
    decreases current.len() - k,
{
    if k < 0 || k >= current.len() {
        Some(seq![])
    } else {
        match step(current[k], name, iterate) {
            None => None,
            Some(a) => joined_after(a, step_each(current, name, iterate, k + 1)),
        }
    }
}

/// What the segments from the `j`th on select from `current`.
pub open spec fn select_from(current: Seq<Json>, segs: Seq<Seq<char>>, j: int) -> Option<Seq<Json>>
    decreases segs.len() - j,
{
    if j < 0 || j >= segs.len() {
        Some(current)
    } else {
        match step_each(current, segment(segs[j]).0, segment(segs[j]).1, 0) {
            None => None,
            Some(next) => select_from(next, segs, j + 1),
        }
    }
}

/// Every value a dotted path selects, or `None` where the path does not
/// resolve, or resolves to a `null`. `None` and an empty selection are
/// different answers: the first is a result this mint cannot read, the
/// second a real reading of nothing.
pub open spec fn select_spec(v: Json, path: Seq<char>) -> Option<Seq<Json>> {
    match select_from(seq![v], split(path, '.'), 0) {
        None => None,
        Some(vs) => if exists|i: int| 0 <= i < vs.len() && #[trigger] vs[i] is Null {
            None
        } else {
            Some(vs)
        },
    }
}

fn push_step<'a>(next: &mut Vec<&'a Json>, v: &'a Json, name: &[char], iterate: bool) -> (ok: bool)
    ensures
        ok == step(*v, name@, iterate) is Some,
        ok ==> referents(final(next)@) == referents(old(next)@) + step(*v, name@, iterate)->0,
{
    let at: &Json = if name.len() == 0 {
        v
    } else {
        let key = string_of(name);
        match member_of(v, key.as_str()) {
            Some(x) => x,
            None => return false,
        }
    };
    if !iterate {
        proof {
            assert(referents(next@.push(at)) =~= referents(next@) + seq![*at]);
        }
        next.push(at);
        return true;
    }
    match at {
        Json::Array(xs) => {
            let ghost start = referents(next@);
            let mut i: usize = 0;
            while i < xs.len()
                invariant
                    i <= xs.len(),
                    referents(next@) == start + xs@.subrange(0, i as int),
                decreases xs.len() - i,
            {
                proof {
                    assert(referents(next@.push(&xs[i as int])) =~= referents(next@) + seq![xs@[i as int]]);
                    assert(xs@.subrange(0, i + 1) =~= xs@.subrange(0, i as int).push(xs@[i as int]));
                }
                next.push(&xs[i]);
                i += 1;
            }
            proof {
                assert(xs@.subrange(0, xs.len() as int) == xs@);
            }
            true
        },
        _ => false,
    }
}

/// Every value a dotted path selects.
pub fn select<'a>(value: &'a Json, path: &str) -> (r: Option<Vec<&'a Json>>)
    ensures
        match r {
            Some(vs) => select_spec(*value, path@) == Some(referents(vs@)),
            None => select_spec(*value, path@) is None,
        },
{
    let chars = chars_of(path);
    let segs = split_exec(chars.as_slice(), '.');
    let ghost sv = views(segs@);
    let mut current: Vec<&'a Json> = vec![value];
    proof {
        assert(referents(current@) =~= seq![*value]);
        reveal_strlit("[]");
    }
    let mut j: usize = 0;
    while j < segs.len()
        invariant
            j <= segs.len(),
            sv == views(segs@),
            sv == split(path@, '.'),
            select_from(seq![*value], sv, 0) == select_from(referents(current@), sv, j as int),
        decreases segs.len() - j,
    {
        let seg = segs[j].as_slice();
        let (name, iterate) = match strip_suffix_exec(seg, "[]") {
            Some(n) => (n, true),
            None => (slice_of(seg, 0, seg.len()), false),
        };
        proof {
            assert(sv[j as int] == seg@);
            assert(seg@.subrange(0, seg@.len() as int) == seg@);
            assert(segment(sv[j as int]) == (name@, iterate));
        }
        let ghost cur = referents(current@);
        let mut next: Vec<&'a Json> = Vec::new();
        let mut k: usize = 0;
        proof {
            assert(referents(next@) =~= seq![]);
            assert(step_each(cur, name@, iterate, 0) == joined_after(referents(next@), step_each(cur, name@, iterate, 0)));
        }
        while k < current.len()
            invariant
                k <= current.len(),
                cur == referents(current@),
                j < segs.len(),
                sv == views(segs@),
                sv == split(path@, '.'),
                select_from(seq![*value], sv, 0) == select_from(cur, sv, j as int),
                segment(sv[j as int]) == (name@, iterate),
                step_each(cur, name@, iterate, 0) == joined_after(
                    referents(next@),
                    step_each(cur, name@, iterate, k as int),
                ),
            decreases current.len() - k,
        {
            let ghost before = referents(next@);
            let ok = push_step(&mut next, current[k], name.as_slice(), iterate);
            proof {
                assert(cur[k as int] == *current@[k as int]);
            }
            if !ok {
                proof {
                    assert(step_each(cur, name@, iterate, k as int) is None);
                    assert(select_from(cur, sv, j as int) is None);
                }
                return None;
            }
            proof {
                let a = step(cur[k as int], name@, iterate)->0;
                match step_each(cur, name@, iterate, k + 1) {
                    None => {},
                    Some(b) => {
                        assert(before + (a + b) =~= (before + a) + b);
                    },
                }
            }
            k += 1;
        }
        proof {
            assert(referents(next@) + seq![] =~= referents(next@));
        }
        proof {
            assert(select_from(cur, sv, j as int) == select_from(referents(next@), sv, j + 1));
        }
        current = next;
        j += 1;
    }
    let ghost fin = referents(current@);
    proof {
        assert(select_from(fin, sv, j as int) == Some(fin));
    }
    let mut k: usize = 0;
    while k < current.len()
        invariant
            k <= current.len(),
            fin == referents(current@),
            select_from(seq![*value], sv, 0) == Some(fin),
            sv == split(path@, '.'),
            forall|i: int| 0 <= i < k ==> !(#[trigger] fin[i] is Null),
        decreases current.len() - k,
    {
        if is_null(current[k]) {
            proof {
                assert(fin[k as int] is Null);
            }
            return None;
        }
        k += 1;
    }
    Some(current)
}

/// The git blob id of a text: its object id as git computes it, or `-`
/// where hashing refuses.
pub open spec fn blob_hash_spec(text: Seq<char>) -> Seq<char> {
    match git_object_id(3, vstd::utf8::encode_utf8(text)) {
        Some(id) => id,
        None => "-"@,
    }
}

/// The git blob id of `text`, byte-identical to `git hash-object --stdin`.
pub fn blob_hash(text: &str) -> (r: String)
    ensures
        r@ == blob_hash_spec(text@),
{
    match object_id(ObjectKind::Blob, text.as_bytes()) {
        Some(id) => id,
        None => String::from_str("-"),
    }
}

/// The single scalar a path selects, as a bare string: `None` for anything
/// but exactly one non-null scalar, so no JSON fragment is ever written into
/// a receipt a shell reads positionally.
pub open spec fn scalar_spec(v: Json, path: Seq<char>) -> Option<Seq<char>> {
    match select_spec(v, path) {
        Some(vs) => if vs.len() == 1 {
            bare(vs[0])
        } else {
            None
        },
        None => None,
    }
}

/// The single scalar a path selects, as a bare string.
pub fn scalar(value: &Json, path: &str) -> (r: Option<String>)
    ensures
        match r {
            Some(t) => scalar_spec(*value, path@) == Some(t@),
            None => scalar_spec(*value, path@) is None,
        },
{
    let selected = match select(value, path) {
        Some(vs) => vs,
        None => return None,
    };
    if selected.len() != 1 {
        return None;
    }
    let only: &Json = selected[0];
    proof {
        assert(referents(selected@)[0] == *only);
    }
    match only {
        Json::Text(t) => Some(t.clone()),
        Json::Bool(b) => Some(
            if *b {
                String::from_str("true")
            } else {
                String::from_str("false")
            },
        ),
        Json::Number(n) => Some(n.clone()),
        _ => None,
    }
}

/// Whether every required path of a mint resolves in a result: the mint's
/// success test.
pub open spec fn satisfied_spec(needed: Seq<Seq<char>>, result: Json) -> bool {
    forall|i: int| 0 <= i < needed.len() ==> #[trigger] select_spec(result, needed[i]) is Some
}

/// Whether every required path resolved, which is this module's success
/// test.
pub fn satisfied(declared: &Declared, result: &Json) -> (r: bool)
    ensures
        r == satisfied_spec(string_views(declared.requires@), *result),
{
    let ghost rv = string_views(declared.requires@);
    let mut i: usize = 0;
    while i < declared.requires.len()
        invariant
            i <= declared.requires.len(),
            rv == string_views(declared.requires@),
            forall|k: int| 0 <= k < i ==> #[trigger] select_spec(*result, rv[k]) is Some,
        decreases declared.requires.len() - i,
    {
        if select(result, declared.requires[i].as_str()).is_none() {
            proof {
                assert(select_spec(*result, rv[i as int]) is None);
            }
            return false;
        }
        i += 1;
    }
    true
}

/// The refs a template's `{git:...}` placeholders name, in order: what the
/// caller resolves in its checkout before rendering.
pub open spec fn git_refs(ps: Seq<PieceView>) -> Seq<Seq<char>>
    decreases ps.len(),
{
    if ps.len() == 0 {
        seq![]
    } else {
        git_refs(ps.drop_last()) + match ps.last() {
            PieceView::Git(r) => seq![r],
            _ => seq![],
        }
    }
}

/// The refs a body template names, in order; none for a template that does
/// not parse.
pub fn references(body: &str) -> (r: Vec<String>)
    ensures
        match parse_spec(body@) {
            Ok(ps) => string_views(r@) == git_refs(ps),
            Err(_) => r@.len() == 0,
        },
{
    let pieces = match parse(body) {
        Ok(ps) => ps,
        Err(_) => return Vec::new(),
    };
    let ghost pv = piece_views(pieces@);
    let mut out: Vec<String> = Vec::new();
    let mut i: usize = 0;
    while i < pieces.len()
        invariant
            i <= pieces.len(),
            pv == piece_views(pieces@),
            string_views(out@) == git_refs(pv.subrange(0, i as int)),
        decreases pieces.len() - i,
    {
        let ghost before = out@;
        match &pieces[i] {
            Piece::Git(r) => out.push(r.clone()),
            _ => {},
        }
        proof {
            let next = pv.subrange(0, i + 1);
            assert(next.drop_last() == pv.subrange(0, i as int));
            assert(next.last() == piece_view(pieces@[i as int]));
            assert(string_views(out@) =~= git_refs(next));
        }
        i += 1;
    }
    proof {
        assert(pv.subrange(0, pv.len() as int) == pv);
    }
    out
}

/// What a ref resolved to, as the caller listed it: the first entry naming
/// it, or `None` where none does.
pub open spec fn resolution(refs: Seq<(Seq<char>, Option<Seq<char>>)>, r: Seq<char>, i: int) -> Option<
    Seq<char>,
>
    decreases refs.len() - i,
{
    if i < 0 || i >= refs.len() {
        None
    } else if refs[i].0 == r {
        refs[i].1
    } else {
        resolution(refs, r, i + 1)
    }
}

/// Resolutions as plain values.
pub open spec fn resolution_views(v: Seq<(String, Option<String>)>) -> Seq<(Seq<char>, Option<Seq<char>>)> {
    v.map_values(
        |e: (String, Option<String>)|
            (
                e.0@,
                match e.1 {
                    Some(t) => Some(t@),
                    None => None,
                },
            ),
    )
}

/// The texts among selected values, space-joined; other values are passed
/// over.
pub open spec fn joined_texts(vs: Seq<Json>) -> Seq<char>
    decreases vs.len(),
{
    if vs.len() == 0 {
        seq![]
    } else {
        let head = joined_texts(vs.drop_last());
        match text(vs.last()) {
            None => head,
            Some(t) => if texts_before(vs.drop_last()) {
                head + " "@ + t
            } else {
                t
            },
        }
    }
}

/// Whether any of the values is a string.
pub open spec fn texts_before(vs: Seq<Json>) -> bool {
    exists|i: int| 0 <= i < vs.len() && #[trigger] text(vs[i]) is Some
}

/// What one template element renders to: `-`, could-not-look, wherever the
/// result does not say what the element asks for.
pub open spec fn piece_text(
    p: PieceView,
    result: Json,
    now: u64,
    refs: Seq<(Seq<char>, Option<Seq<char>>)>,
) -> Seq<char> {
    match p {
        PieceView::Literal(t) => t,
        PieceView::Now => crate::text::decimal(now as nat),
        PieceView::Path(path) => match scalar_spec(result, path) {
            Some(t) => t,
            None => "-"@,
        },
        PieceView::Digest(path) => match scalar_spec(result, path) {
            Some(t) => blob_hash_spec(t),
            None => "-"@,
        },
        PieceView::Slug(path) => match scalar_spec(result, path) {
            Some(t) => if slug_spec(t).len() == 0 {
                "-"@
            } else {
                slug_spec(t)
            },
            None => "-"@,
        },
        PieceView::Join(path) => match select_spec(result, path) {
            Some(vs) => joined_texts(vs),
            None => "-"@,
        },
        PieceView::Git(r) => match resolution(refs, r, 0) {
            Some(t) => t,
            None => "-"@,
        },
    }
}

/// A run of template elements rendered, in order.
pub open spec fn pieces_text(
    ps: Seq<PieceView>,
    result: Json,
    now: u64,
    refs: Seq<(Seq<char>, Option<Seq<char>>)>,
) -> Seq<char>
    decreases ps.len(),
{
    if ps.len() == 0 {
        seq![]
    } else {
        pieces_text(ps.drop_last(), result, now, refs) + piece_text(ps.last(), result, now, refs)
    }
}

/// The record a result mints: `None` unless every required path resolves
/// and the template parses; otherwise the template rendered, ending in a line
/// feed.
pub open spec fn render_spec(
    needed: Seq<Seq<char>>,
    body: Seq<char>,
    result: Json,
    now: u64,
    refs: Seq<(Seq<char>, Option<Seq<char>>)>,
) -> Option<Seq<char>> {
    if !satisfied_spec(needed, result) {
        None
    } else {
        match parse_spec(body) {
            Err(_) => None,
            Ok(ps) => {
                let t = pieces_text(ps, result, now, refs);
                Some(
                    if crate::text::ends_with(t, "\n"@) {
                        t
                    } else {
                        t + "\n"@
                    },
                )
            },
        }
    }
}

fn resolve(refs: &[(String, Option<String>)], r: &str) -> (out: Option<String>)
    ensures
        match out {
            Some(t) => resolution(resolution_views(refs@), r@, 0) == Some(t@),
            None => resolution(resolution_views(refs@), r@, 0) is None,
        },
{
    let ghost rv = resolution_views(refs@);
    let mut i: usize = 0;
    while i < refs.len()
        invariant
            i <= refs.len(),
            rv == resolution_views(refs@),
            resolution(rv, r@, 0) == resolution(rv, r@, i as int),
        decreases refs.len() - i,
    {
        if same_string(refs[i].0.as_str(), r) {
            return match &refs[i].1 {
                Some(t) => Some(t.clone()),
                None => None,
            };
        }
        i += 1;
    }
    None
}

proof fn lemma_no_texts_joined_empty(vs: Seq<Json>)
    requires
        !texts_before(vs),
    ensures
        joined_texts(vs) == Seq::<char>::empty(),
    decreases vs.len(),
{
    if vs.len() > 0 {
        let pre = vs.drop_last();
        assert(text(vs[vs.len() - 1]) is None);
        assert forall|k: int| 0 <= k < pre.len() implies #[trigger] text(pre[k]) is None by {
            assert(pre[k] == vs[k]);
        }
        lemma_no_texts_joined_empty(pre);
    }
}

fn join_texts(vs: &[&Json]) -> (r: String)
    ensures
        r@ == joined_texts(referents(vs@)),
{
    let ghost all = referents(vs@);
    let mut out = String::new();
    let mut any = false;
    let mut i: usize = 0;
    proof {
        assert(all.subrange(0, 0) =~= seq![]);
    }
    while i < vs.len()
        invariant
            i <= vs.len(),
            all == referents(vs@),
            out@ == joined_texts(all.subrange(0, i as int)),
            any == texts_before(all.subrange(0, i as int)),
        decreases vs.len() - i,
    {
        let ghost pre = all.subrange(0, i as int);
        let ghost next_pre = all.subrange(0, i + 1);
        proof {
            assert(next_pre.drop_last() == pre);
            assert(next_pre.last() == *vs@[i as int]);
        }
        match vs[i] {
            Json::Text(t) => {
                proof {
                    if !any {
                        lemma_no_texts_joined_empty(pre);
                    }
                }
                if any {
                    out.append(" ");
                }
                out.append(t.as_str());
                proof {
                    assert(text(next_pre[i as int]) is Some);
                }
                any = true;
            },
            _ => {
                proof {
                    if texts_before(next_pre) {
                        let w = choose|k: int| 0 <= k < next_pre.len() && #[trigger] text(next_pre[k]) is Some;
                        if w < i {
                            assert(pre[w] == next_pre[w]);
                        }
                    }
                }
            },
        }
        proof {
            assert forall|k: int| 0 <= k < pre.len() implies #[trigger] next_pre[k] == pre[k] by {}
            if texts_before(pre) {
                let w = choose|k: int| 0 <= k < pre.len() && #[trigger] text(pre[k]) is Some;
                assert(text(next_pre[w]) is Some);
            }
        }
        i += 1;
    }
    proof {
        assert(all.subrange(0, all.len() as int) == all);
    }
    out
}

fn piece_render(p: &Piece, result: &Json, now: u64, refs: &[(String, Option<String>)]) -> (r: String)
    ensures
        r@ == piece_text(piece_view(*p), *result, now, resolution_views(refs@)),
{
    match p {
        Piece::Literal(t) => t.clone(),
        Piece::Now => crate::text::nat_string(now),
        Piece::Path(path) => match scalar(result, path.as_str()) {
            Some(t) => t,
            None => String::from_str(ABSENT),
        },
        Piece::Digest(path) => match scalar(result, path.as_str()) {
            Some(t) => blob_hash(t.as_str()),
            None => String::from_str(ABSENT),
        },
        Piece::Slug(path) => match scalar(result, path.as_str()) {
            Some(t) => {
                let s = slug(t.as_str());
                if s.as_str().unicode_len() == 0 {
                    String::from_str(ABSENT)
                } else {
                    s
                }
            },
            None => String::from_str(ABSENT),
        },
        Piece::Join(path) => match select(result, path.as_str()) {
            Some(vs) => join_texts(vs.as_slice()),
            None => String::from_str(ABSENT),
        },
        Piece::Git(reference) => match resolve(refs, reference.as_str()) {
            Some(t) => t,
            None => String::from_str(ABSENT),
        },
    }
}

/// The record this result mints, or `None` when it mints nothing.
///
/// Pure given its inputs: the clock is `now`, and `refs` lists what each ref
/// the template names resolved to in this checkout (see [`references`]); a
/// ref it does not list, or lists as unresolved, renders as `-`. `None` on an
/// unsatisfied required path or an unparseable template.
pub fn render(declared: &Declared, result: &Json, now: u64, refs: &[(String, Option<String>)]) -> (r:
    Option<String>)
    ensures
        match r {
            Some(t) => render_spec(
                string_views(declared.requires@),
                declared.body@,
                *result,
                now,
                resolution_views(refs@),
            ) == Some(t@),
            None => render_spec(
                string_views(declared.requires@),
                declared.body@,
                *result,
                now,
                resolution_views(refs@),
            ) is None,
        },
{
    if !satisfied(declared, result) {
        return None;
    }
    let pieces = match parse(declared.body.as_str()) {
        Ok(ps) => ps,
        Err(_) => return None,
    };
    let ghost pv = piece_views(pieces@);
    let ghost rv = resolution_views(refs@);
    let mut out: Vec<char> = Vec::new();
    let mut i: usize = 0;
    proof {
        assert(pv.subrange(0, 0) =~= seq![]);
    }
    while i < pieces.len()
        invariant
            i <= pieces.len(),
            pv == piece_views(pieces@),
            rv == resolution_views(refs@),
            out@ == pieces_text(pv.subrange(0, i as int), *result, now, rv),
        decreases pieces.len() - i,
    {
        let t = piece_render(&pieces[i], result, now, refs);
        let tc = chars_of(t.as_str());
        crate::text::push_all(&mut out, tc.as_slice());
        proof {
            let next = pv.subrange(0, i + 1);
            assert(next.drop_last() == pv.subrange(0, i as int));
            assert(next.last() == piece_view(pieces@[i as int]));
        }
        i += 1;
    }
    proof {
        assert(pv.subrange(0, pv.len() as int) == pv);
        reveal_strlit("\n");
    }
    let nl = chars_of("\n");
    if !crate::text::ends_with_exec(out.as_slice(), nl.as_slice()) {
        out.push('\n');
        proof {
            assert(out@ =~= pieces_text(pv, *result, now, rv) + "\n"@);
        }
    }
    Some(string_of(out.as_slice()))
}

/// The first refusal a mint table earns, from the `k`th row on: a blank
/// name, a blank tool, a named key with no `key_from`, an unreadable body, a
/// blank `key_from`, or a name an earlier row declared.
pub open spec fn mint_fault(
    rows: Seq<(Seq<char>, Seq<char>, MintKey, Option<Seq<char>>, Seq<char>)>,
    k: int,
) -> Option<Seq<char>>
    decreases rows.len() - k,
{
    if k < 0 || k >= rows.len() {
        None
    } else {
        let (name, tool, key, key_from, body) = rows[k];
        if trim(name).len() == 0 {
            Some(
                "a `[[mint]]` row declares an empty `name`, so the receipt it writes could not be the one any `checks` entry reads"@,
            )
        } else if trim(tool).len() == 0 {
            Some(
                "`[[mint]]` `"@ + name
                    + "` declares an empty `tool`: an empty selector matches the empty final segment of any name ending `__`, so the row would mint from calls nobody named"@,
            )
        } else if key == MintKey::Named && key_from is None {
            Some(
                "`[[mint]]` `"@ + name
                    + "` is keyed `named` and declares no `key_from`, so nothing says which projection supplies the subject and no receipt could be filed"@,
            )
        } else if parse_spec(body) is Err {
            Some("`[[mint]]` `"@ + name + "` has an unreadable `body`: "@ + parse_spec(body)->Err_0)
        } else if key_from is Some && trim(key_from->0).len() == 0 {
            Some("`[[mint]]` `"@ + name + "` declares an empty `key_from`"@)
        } else if exists|j: int| 0 <= j < k && #[trigger] rows[j].0 == name {
            Some(
                "`[[mint]]` `"@ + name
                    + "` is declared twice; two rows writing one receipt name would let the sorted-later one silently decide the record"@,
            )
        } else {
            mint_fault(rows, k + 1)
        }
    }
}

/// A mint row as the plain values validation reads.
pub open spec fn mint_view(d: Declared) -> (Seq<char>, Seq<char>, MintKey, Option<Seq<char>>, Seq<char>) {
    (
        d.name@,
        d.tool@,
        d.key,
        match d.key_from {
            Some(s) => Some(s@),
            None => None,
        },
        d.body@,
    )
}

fn named_message(head: &str, name: &str, tail: &str) -> (r: String)
    ensures
        r@ == head@ + name@ + tail@,
{
    let mut m = String::from_str(head);
    m.append(name);
    m.append(tail);
    m
}

/// Refuse a malformed mint table at load, naming the offending row: a row
/// that would parse, read as configured, and mint nothing.
pub fn validate(mints: &[Declared]) -> (r: Result<(), UsageError>)
    ensures
        match mint_fault(mints@.map_values(|d: Declared| mint_view(d)), 0) {
            Some(m) => r is Err && r->Err_0.message@ == m,
            None => r is Ok,
        },
{
    let ghost rows = mints@.map_values(|d: Declared| mint_view(d));
    let mut k: usize = 0;
    while k < mints.len()
        invariant
            k <= mints.len(),
            rows == mints@.map_values(|d: Declared| mint_view(d)),
            mint_fault(rows, 0) == mint_fault(rows, k as int),
        decreases mints.len() - k,
    {
        let m = &mints[k];
        proof {
            assert(rows[k as int] == mint_view(mints@[k as int]));
        }
        let name_chars = chars_of(m.name.as_str());
        if trim_chars(name_chars.as_slice()).len() == 0 {
            return Err(
                UsageError::new(
                    String::from_str(
                        "a `[[mint]]` row declares an empty `name`, so the receipt it writes could not be the one any `checks` entry reads",
                    ),
                ),
            );
        }
        let tool_chars = chars_of(m.tool.as_str());
        if trim_chars(tool_chars.as_slice()).len() == 0 {
            return Err(
                UsageError::new(
                    named_message(
                        "`[[mint]]` `",
                        m.name.as_str(),
                        "` declares an empty `tool`: an empty selector matches the empty final segment of any name ending `__`, so the row would mint from calls nobody named",
                    ),
                ),
            );
        }
        let named = match m.key {
            MintKey::Named => true,
            MintKey::Branch => false,
        };
        if named && m.key_from.is_none() {
            return Err(
                UsageError::new(
                    named_message(
                        "`[[mint]]` `",
                        m.name.as_str(),
                        "` is keyed `named` and declares no `key_from`, so nothing says which projection supplies the subject and no receipt could be filed",
                    ),
                ),
            );
        }
        match parse(m.body.as_str()) {
            Err(problem) => {
                let mut msg = named_message("`[[mint]]` `", m.name.as_str(), "` has an unreadable `body`: ");
                msg.append(problem.as_str());
                return Err(UsageError::new(msg));
            },
            Ok(_) => {},
        }
        match &m.key_from {
            Some(from) => {
                let fc = chars_of(from.as_str());
                if trim_chars(fc.as_slice()).len() == 0 {
                    return Err(
                        UsageError::new(
                            named_message("`[[mint]]` `", m.name.as_str(), "` declares an empty `key_from`"),
                        ),
                    );
                }
            },
            None => {},
        }
        let mut j: usize = 0;
        while j < k
            invariant
                j <= k < mints.len(),
                rows == mints@.map_values(|d: Declared| mint_view(d)),
                m.name@ == rows[k as int].0,
                mint_fault(rows, 0) == mint_fault(rows, k as int),
                trim(rows[k as int].0).len() != 0,
                trim(rows[k as int].1).len() != 0,
                !(rows[k as int].2 == MintKey::Named && rows[k as int].3 is None),
                parse_spec(rows[k as int].4) is Ok,
                !(rows[k as int].3 is Some && trim(rows[k as int].3->0).len() == 0),
                forall|i: int| 0 <= i < j ==> #[trigger] rows[i].0 != rows[k as int].0,
            decreases k - j,
        {
            proof {
                assert(rows[j as int] == mint_view(mints@[j as int]));
            }
            if same_string(mints[j].name.as_str(), m.name.as_str()) {
                proof {
                    assert(rows[j as int].0 == rows[k as int].0);
                }
                return Err(
                    UsageError::new(
                        named_message(
                            "`[[mint]]` `",
                            m.name.as_str(),
                            "` is declared twice; two rows writing one receipt name would let the sorted-later one silently decide the record",
                        ),
                    ),
                );
            }
            j += 1;
        }
        k += 1;
    }
    Ok(())
}

} // verus!
