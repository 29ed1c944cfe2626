//! Text as sequences of characters: the conversions at the edge of the
//! library, and the string operations every parser here shares, each stated
//! over `Seq<char>` the way the standard library documents it.

use vstd::prelude::*;
use vstd::string::StrSliceExecFns;
use vstd::string::StringExecFns;

verus! {

// ---------------------------------------------------------------------------
// Conversions
// ---------------------------------------------------------------------------

/// Append one character to a string.
///
/// Trusted: `String::push`, which the standard library documents as appending
/// the character to the end of the string.
#[verifier::external_body]
pub(crate) fn push_char(s: &mut String, c: char)
    ensures
        final(s)@ == old(s)@.push(c),
{
    s.push(c)
}

/// The characters of a string slice, in order.
pub fn chars_of(s: &str) -> (v: Vec<char>)
    ensures
        v@ == s@,
{
    let n = s.unicode_len();
    let mut v: Vec<char> = Vec::new();
    let mut i: usize = 0;
    while i < n
        invariant
            n == s@.len(),
            i <= n,
            v@ == s@.subrange(0, i as int),
        decreases n - i,
    {
        v.push(s.get_char(i));
        i += 1;
    }
    v
}

/// A string holding exactly these characters.
pub fn string_of(v: &[char]) -> (s: String)
    ensures
        s@ == v@,
{
    let mut s = String::new();
    let mut i: usize = 0;
    while i < v.len()
        invariant
            i <= v.len(),
            s@ == v@.subrange(0, i as int),
        decreases v.len() - i,
    {
        push_char(&mut s, v[i]);
        i += 1;
    }
    s
}

/// The views of a vector of character vectors.
pub open spec fn views(v: Seq<Vec<char>>) -> Seq<Seq<char>> {
    v.map_values(|x: Vec<char>| x@)
}

/// The views of a vector of strings.
pub open spec fn string_views(v: Seq<String>) -> Seq<Seq<char>> {
    v.map_values(|x: String| x@)
}

/// Whether two character sequences are equal.
pub fn same(a: &[char], b: &[char]) -> (r: bool)
    ensures
        r == (a@ == b@),
{
    if a.len() != b.len() {
        return false;
    }
    let mut i: usize = 0;
    while i < a.len()
        invariant
            a.len() == b.len(),
            i <= a.len(),
            a@.subrange(0, i as int) == b@.subrange(0, i as int),
        decreases a.len() - i,
    {
        if a[i] != b[i] {
            assert(a@[i as int] != b@[i as int]);
            return false;
        }
        assert(a@.subrange(0, i + 1) == a@.subrange(0, i as int).push(a@[i as int]));
        assert(b@.subrange(0, i + 1) == b@.subrange(0, i as int).push(b@[i as int]));
        i += 1;
    }
    assert(a@ == a@.subrange(0, a.len() as int));
    assert(b@ == b@.subrange(0, b.len() as int));
    true
}

/// Whether a character sequence reads exactly as a string.
pub fn same_str(a: &[char], b: &str) -> (r: bool)
    ensures
        r == (a@ == b@),
{
    let bv = chars_of(b);
    same(a, bv.as_slice())
}

/// Whether two strings are equal.
pub fn same_string(a: &str, b: &str) -> (r: bool)
    ensures
        r == (a@ == b@),
{
    let av = chars_of(a);
    same_str(av.as_slice(), b)
}

/// Append the characters of `t` to `out`.
pub fn push_all(out: &mut Vec<char>, t: &[char])
    ensures
        final(out)@ == old(out)@ + t@,
{
    let mut i: usize = 0;
    while i < t.len()
        invariant
            i <= t.len(),
            out@ == old(out)@ + t@.subrange(0, i as int),
        decreases t.len() - i,
    {
        out.push(t[i]);
        i += 1;
    }
    assert(t@.subrange(0, t.len() as int) == t@);
}

/// The characters of `s` from `lo` up to `hi`.
pub fn slice_of(s: &[char], lo: usize, hi: usize) -> (r: Vec<char>)
    requires
        lo <= hi <= s.len(),
    ensures
        r@ == s@.subrange(lo as int, hi as int),
{
    let mut r: Vec<char> = Vec::new();
    let mut i: usize = lo;
    while i < hi
        invariant
            lo <= i <= hi,
            hi <= s.len(),
            r@ == s@.subrange(lo as int, i as int),
        decreases hi - i,
    {
        r.push(s[i]);
        i += 1;
    }
    r
}

// ---------------------------------------------------------------------------
// White space and trimming
// ---------------------------------------------------------------------------

/// The Unicode `White_Space` property, which is what `char::is_whitespace`
/// and every `trim` of the standard library test.
pub open spec fn is_ws(c: char) -> bool {
    let v = c as u32;
    (9 <= v <= 13) || v == 32 || v == 0x85 || v == 0xa0 || v == 0x1680 || (0x2000 <= v <= 0x200a)
        || v == 0x2028 || v == 0x2029 || v == 0x202f || v == 0x205f || v == 0x3000
}

/// Whether `c` is white space.
pub fn is_whitespace(c: char) -> (r: bool)
    ensures
        r == is_ws(c),
{
    let v = c as u32;
    (9 <= v && v <= 13) || v == 32 || v == 0x85 || v == 0xa0 || v == 0x1680 || (0x2000 <= v && v
        <= 0x200a) || v == 0x2028 || v == 0x2029 || v == 0x202f || v == 0x205f || v == 0x3000
}

/// The first index at or after `i` that does not hold white space.
pub open spec fn skip_ws(s: Seq<char>, i: int) -> int
    decreases s.len() - i,
{
    if 0 <= i < s.len() && is_ws(s[i]) {
        skip_ws(s, i + 1)
    } else {
        i
    }
}

/// Walking back from `j` towards `lo`, the end of the last character that is
/// not white space.
pub open spec fn back_ws(s: Seq<char>, lo: int, j: int) -> int
    decreases j - lo,
{
    if lo < j <= s.len() && is_ws(s[j - 1]) {
        back_ws(s, lo, j - 1)
    } else {
        j
    }
}

/// `str::trim`: the sequence without its leading and trailing white space.
pub open spec fn trim(s: Seq<char>) -> Seq<char> {
    let lo = skip_ws(s, 0);
    s.subrange(lo, back_ws(s, lo, s.len() as int))
}

/// `str::trim_end`.
pub open spec fn trim_end(s: Seq<char>) -> Seq<char> {
    s.subrange(0, back_ws(s, 0, s.len() as int))
}

proof fn lemma_skip_ws_bounds(s: Seq<char>, i: int)
    requires
        0 <= i <= s.len(),
    ensures
        i <= skip_ws(s, i) <= s.len(),
    decreases s.len() - i,
{
    if i < s.len() && is_ws(s[i]) {
        lemma_skip_ws_bounds(s, i + 1);
    }
}

proof fn lemma_back_ws_bounds(s: Seq<char>, lo: int, j: int)
    requires
        0 <= lo <= j <= s.len(),
    ensures
        lo <= back_ws(s, lo, j) <= j,
    decreases j - lo,
{
    if lo < j && is_ws(s[j - 1]) {
        lemma_back_ws_bounds(s, lo, j - 1);
    }
}

/// The bounds `trim` keeps.
fn trim_bounds(s: &[char], lo_from: usize) -> (r: (usize, usize))
    requires
        lo_from == 0,
    ensures
        r.0 == skip_ws(s@, 0),
        r.1 == back_ws(s@, r.0 as int, s@.len() as int),
        r.0 <= r.1 <= s.len(),
{
    let mut i: usize = lo_from;
    while i < s.len() && is_whitespace(s[i])
        invariant
            i <= s.len(),
            skip_ws(s@, 0) == skip_ws(s@, i as int),
        decreases s.len() - i,
    {
        i += 1;
    }
    let mut j: usize = s.len();
    while j > i && is_whitespace(s[j - 1])
        invariant
            i <= j <= s.len(),
            back_ws(s@, i as int, s@.len() as int) == back_ws(s@, i as int, j as int),
        decreases j,
    {
        j -= 1;
    }
    (i, j)
}

/// `str::trim`.
pub fn trim_chars(s: &[char]) -> (r: Vec<char>)
    ensures
        r@ == trim(s@),
{
    let (lo, hi) = trim_bounds(s, 0);
    slice_of(s, lo, hi)
}

/// `str::trim_start`.
pub open spec fn trim_start(s: Seq<char>) -> Seq<char> {
    s.subrange(skip_ws(s, 0), s.len() as int)
}

/// `str::trim_start`.
pub fn trim_start_chars(s: &[char]) -> (r: Vec<char>)
    ensures
        r@ == trim_start(s@),
{
    let mut i: usize = 0;
    while i < s.len() && is_whitespace(s[i])
        invariant
            i <= s.len(),
            skip_ws(s@, 0) == skip_ws(s@, i as int),
        decreases s.len() - i,
    {
        i += 1;
    }
    slice_of(s, i, s.len())
}

/// `str::trim_end`.
pub fn trim_end_chars(s: &[char]) -> (r: Vec<char>)
    ensures
        r@ == trim_end(s@),
{
    let mut j: usize = s.len();
    while j > 0 && is_whitespace(s[j - 1])
        invariant
            j <= s.len(),
            back_ws(s@, 0, s@.len() as int) == back_ws(s@, 0, j as int),
        decreases j,
    {
        j -= 1;
    }
    slice_of(s, 0, j)
}

/// Walking back from `j`, the end of the last character that is not `c`.
pub open spec fn back_char(s: Seq<char>, c: char, j: int) -> int
    decreases j,
{
    if 0 < j <= s.len() && s[j - 1] == c {
        back_char(s, c, j - 1)
    } else {
        j
    }
}

/// `str::trim_end_matches` with one character: every trailing `c` removed.
pub open spec fn trim_end_char(s: Seq<char>, c: char) -> Seq<char> {
    s.subrange(0, back_char(s, c, s.len() as int))
}

/// `str::trim_end_matches` with one character.
pub fn trim_end_char_exec(s: &[char], c: char) -> (r: Vec<char>)
    ensures
        r@ == trim_end_char(s@, c),
{
    let mut j: usize = s.len();
    while j > 0 && s[j - 1] == c
        invariant
            j <= s.len(),
            back_char(s@, c, s@.len() as int) == back_char(s@, c, j as int),
        decreases j,
    {
        j -= 1;
    }
    slice_of(s, 0, j)
}

/// `str::trim_end_matches` with one character, over a string.
pub fn trim_end_char_string(s: &str, c: char) -> (r: String)
    ensures
        r@ == trim_end_char(s@, c),
{
    let v = chars_of(s);
    let t = trim_end_char_exec(v.as_slice(), c);
    string_of(t.as_slice())
}

/// Whether a sequence is empty once trimmed.
pub open spec fn is_blank(s: Seq<char>) -> bool {
    trim(s).len() == 0
}

// ---------------------------------------------------------------------------
// Prefixes, suffixes and searching
// ---------------------------------------------------------------------------

/// `str::starts_with`.
pub open spec fn starts_with(s: Seq<char>, p: Seq<char>) -> bool {
    p.len() <= s.len() && s.subrange(0, p.len() as int) == p
}

/// `str::ends_with`.
pub open spec fn ends_with(s: Seq<char>, p: Seq<char>) -> bool {
    p.len() <= s.len() && s.subrange(s.len() - p.len(), s.len() as int) == p
}

/// `str::strip_prefix`.
pub open spec fn strip_prefix(s: Seq<char>, p: Seq<char>) -> Option<Seq<char>> {
    if starts_with(s, p) {
        Some(s.subrange(p.len() as int, s.len() as int))
    } else {
        None
    }
}

/// `str::strip_suffix`.
pub open spec fn strip_suffix(s: Seq<char>, p: Seq<char>) -> Option<Seq<char>> {
    if ends_with(s, p) {
        Some(s.subrange(0, s.len() - p.len()))
    } else {
        None
    }
}

/// Whether `p` occurs in `s` starting at `i`.
pub open spec fn occurs_at(s: Seq<char>, p: Seq<char>, i: int) -> bool {
    0 <= i && i + p.len() <= s.len() && s.subrange(i, i + p.len()) == p
}

/// The first index at or after `i` where `p` occurs in `s`.
pub open spec fn find_from(s: Seq<char>, p: Seq<char>, i: int) -> Option<int>
    decreases s.len() + 1 - i,
{
    if i < 0 || i + p.len() > s.len() {
        None
    } else if s.subrange(i, i + p.len()) == p {
        Some(i)
    } else {
        find_from(s, p, i + 1)
    }
}

/// `str::find`.
pub open spec fn find(s: Seq<char>, p: Seq<char>) -> Option<int> {
    find_from(s, p, 0)
}

/// `str::contains`.
pub open spec fn contains(s: Seq<char>, p: Seq<char>) -> bool {
    find(s, p) is Some
}

/// `str::split_once`, at the first occurrence of `p`.
pub open spec fn split_once(s: Seq<char>, p: Seq<char>) -> Option<(Seq<char>, Seq<char>)> {
    match find(s, p) {
        Some(k) => Some((s.subrange(0, k), s.subrange(k + p.len(), s.len() as int))),
        None => None,
    }
}

proof fn lemma_find_from_first(s: Seq<char>, p: Seq<char>, i: int, j: int)
    requires
        0 <= i <= j,
        p.len() > 0,
        occurs_at(s, p, j),
        forall|m: int| i <= m < j ==> #[trigger] s[m] != p[0],
    ensures
        find_from(s, p, i) == Some(j),
    decreases j - i,
{
    if i < j {
        assert(s.subrange(i, i + p.len())[0] == s[i]);
        lemma_find_from_first(s, p, i + 1, j);
    }
}

/// A `key: value` line splits at the `": "` after its key, where the key
/// holds no colon.
pub proof fn lemma_split_key_value(key: Seq<char>, value: Seq<char>)
    requires
        forall|i: int| 0 <= i < key.len() ==> #[trigger] key[i] != ':',
    ensures
        split_once(key + ": "@ + value, ": "@) == Some((key, value)),
{
    reveal_strlit(": ");
    let s = key + ": "@ + value;
    assert(s.subrange(key.len() as int, key.len() + 2int) =~= ": "@);
    assert forall|m: int| 0 <= m < key.len() implies #[trigger] s[m] != ": "@[0] by {
        assert(s[m] == key[m]);
    }
    lemma_find_from_first(s, ": "@, 0, key.len() as int);
    assert(s.subrange(0, key.len() as int) =~= key);
    assert(s.subrange(key.len() + 2int, s.len() as int) =~= value);
}

/// Whether `p` occurs in `s` at `i`.
pub fn occurs_at_exec(s: &[char], p: &[char], i: usize) -> (r: bool)
    ensures
        r == occurs_at(s@, p@, i as int),
{
    if i > s.len() || p.len() > s.len() - i {
        return false;
    }
    let mut k: usize = 0;
    while k < p.len()
        invariant
            i + p.len() <= s.len(),
            k <= p.len(),
            s@.subrange(i as int, i + k) == p@.subrange(0, k as int),
        decreases p.len() - k,
    {
        if s[i + k] != p[k] {
            assert(s@.subrange(i as int, i + p.len())[k as int] != p@[k as int]);
            return false;
        }
        assert(s@.subrange(i as int, i + k + 1) == s@.subrange(i as int, i + k).push(s@[i + k]));
        assert(p@.subrange(0, k + 1) == p@.subrange(0, k as int).push(p@[k as int]));
        k += 1;
    }
    assert(p@.subrange(0, p.len() as int) == p@);
    true
}

/// `str::starts_with`.
pub fn starts_with_exec(s: &[char], p: &[char]) -> (r: bool)
    ensures
        r == starts_with(s@, p@),
{
    occurs_at_exec(s, p, 0)
}

/// `str::starts_with`, against a string.
pub fn starts_with_str(s: &[char], p: &str) -> (r: bool)
    ensures
        r == starts_with(s@, p@),
{
    let pv = chars_of(p);
    starts_with_exec(s, pv.as_slice())
}

/// `str::ends_with`.
pub fn ends_with_exec(s: &[char], p: &[char]) -> (r: bool)
    ensures
        r == ends_with(s@, p@),
{
    if p.len() > s.len() {
        return false;
    }
    occurs_at_exec(s, p, s.len() - p.len())
}

/// `str::strip_prefix`.
pub fn strip_prefix_exec(s: &[char], p: &str) -> (r: Option<Vec<char>>)
    ensures
        match r {
            Some(t) => strip_prefix(s@, p@) == Some(t@),
            None => strip_prefix(s@, p@) is None,
        },
{
    let pv = chars_of(p);
    if starts_with_exec(s, pv.as_slice()) {
        Some(slice_of(s, pv.len(), s.len()))
    } else {
        None
    }
}

/// `str::strip_suffix`.
pub fn strip_suffix_exec(s: &[char], p: &str) -> (r: Option<Vec<char>>)
    ensures
        match r {
            Some(t) => strip_suffix(s@, p@) == Some(t@),
            None => strip_suffix(s@, p@) is None,
        },
{
    let pv = chars_of(p);
    if ends_with_exec(s, pv.as_slice()) {
        Some(slice_of(s, 0, s.len() - pv.len()))
    } else {
        None
    }
}

/// `str::find`.
pub fn find_exec(s: &[char], p: &[char]) -> (r: Option<usize>)
    ensures
        match r {
            Some(k) => find(s@, p@) == Some(k as int),
            None => find(s@, p@) is None,
        },
{
    if p.len() > s.len() {
        return None;
    }
    let last: usize = s.len() - p.len();
    let mut i: usize = 0;
    loop
        invariant
            i <= last,
            last + p.len() == s.len(),
            find(s@, p@) == find_from(s@, p@, i as int),
        decreases last - i,
    {
        if occurs_at_exec(s, p, i) {
            return Some(i);
        }
        if i == last {
            assert(find_from(s@, p@, i + 1) is None);
            return None;
        }
        i += 1;
    }
}

/// `str::contains`.
pub fn contains_exec(s: &[char], p: &str) -> (r: bool)
    ensures
        r == contains(s@, p@),
{
    let pv = chars_of(p);
    find_exec(s, pv.as_slice()).is_some()
}

/// `str::split_once`.
pub fn split_once_exec(s: &[char], p: &str) -> (r: Option<(Vec<char>, Vec<char>)>)
    ensures
        match r {
            Some((a, b)) => split_once(s@, p@) == Some((a@, b@)),
            None => split_once(s@, p@) is None,
        },
{
    let pv = chars_of(p);
    match find_exec(s, pv.as_slice()) {
        Some(k) => {
            proof {
                assert(find(s@, p@) == Some(k as int));
                lemma_find_from_occurs(s@, p@, 0);
                assert(occurs_at(s@, p@, k as int));
                assert(k + pv@.len() <= s@.len());
            }
            assert(k + pv.len() <= s.len());
            Some((slice_of(s, 0, k), slice_of(s, k + pv.len(), s.len())))
        },
        None => None,
    }
}

/// A found occurrence is an occurrence.
pub proof fn lemma_find_from_occurs(s: Seq<char>, p: Seq<char>, i: int)
    ensures
        match find_from(s, p, i) {
            Some(k) => occurs_at(s, p, k) && i <= k,
            None => true,
        },
    decreases s.len() + 1 - i,
{
    if i < 0 || i + p.len() > s.len() {
    } else if s.subrange(i, i + p.len()) == p {
    } else {
        lemma_find_from_occurs(s, p, i + 1);
    }
}

// ---------------------------------------------------------------------------
// Splitting
// ---------------------------------------------------------------------------

/// Drop one `\r` ending a line, as `str::lines` does before a `\n`.
pub open spec fn strip_cr(t: Seq<char>) -> Seq<char> {
    if t.len() > 0 && t.last() == '\r' {
        t.drop_last()
    } else {
        t
    }
}

/// `str::lines`, scanning from `i` with the current line begun at `start`.
pub open spec fn lines_from(s: Seq<char>, start: int, i: int) -> Seq<Seq<char>>
    decreases s.len() - i,
{
    if i < 0 || i >= s.len() {
        if 0 <= start < s.len() {
            seq![s.subrange(start, s.len() as int)]
        } else {
            seq![]
        }
    } else if s[i] == '\n' {
        seq![strip_cr(s.subrange(start, i))] + lines_from(s, i + 1, i + 1)
    } else {
        lines_from(s, start, i + 1)
    }
}

/// `str::lines`: split at `\n`, each line without a `\r` before its `\n`,
/// and no empty line after a final `\n`.
pub open spec fn lines(s: Seq<char>) -> Seq<Seq<char>> {
    lines_from(s, 0, 0)
}

/// `str::lines`.
pub fn lines_exec(s: &[char]) -> (r: Vec<Vec<char>>)
    ensures
        views(r@) == lines(s@),
{
    let mut out: Vec<Vec<char>> = Vec::new();
    let mut start: usize = 0;
    let mut i: usize = 0;
    while i < s.len()
        invariant
            start <= i <= s.len(),
            lines(s@) == views(out@) + lines_from(s@, start as int, i as int),
        decreases s.len() - i,
    {
        if s[i] == '\n' {
            let mut line = slice_of(s, start, i);
            if line.len() > 0 && line[line.len() - 1] == '\r' {
                line.pop();
            }
            proof {
                assert(line@ == strip_cr(s@.subrange(start as int, i as int)));
                assert(views(out@.push(line)) == views(out@).push(line@));
                assert(views(out@) + lines_from(s@, start as int, i as int) == views(out@.push(
                    line,
                )) + lines_from(s@, i + 1, i + 1));
            }
            out.push(line);
            start = i + 1;
        }
        i += 1;
    }
    if start < s.len() {
        let last = slice_of(s, start, s.len());
        proof {
            assert(views(out@.push(last)) == views(out@).push(last@));
        }
        out.push(last);
    }
    proof {
        assert(views(out@) == views(out@) + Seq::<Seq<char>>::empty());
    }
    out
}

/// There are no more lines than characters.
pub proof fn lemma_lines_count(s: Seq<char>)
    ensures
        lines(s).len() <= s.len(),
{
    lemma_lines_from_count(s, 0, 0);
}

proof fn lemma_lines_from_count(s: Seq<char>, start: int, i: int)
    requires
        0 <= start <= i,
    ensures
        lines_from(s, start, i).len() <= if i <= s.len() {
            s.len() - start
        } else {
            1
        },
    decreases s.len() - i,
{
    if i < 0 || i >= s.len() {
    } else if s[i] == '\n' {
        lemma_lines_from_count(s, i + 1, i + 1);
    } else {
        lemma_lines_from_count(s, start, i + 1);
    }
}

/// Whether no character of `s` is a line feed.
pub open spec fn no_newline(s: Seq<char>) -> bool {
    forall|i: int| 0 <= i < s.len() ==> #[trigger] s[i] != '\n'
}

proof fn lemma_lines_from_shift(p: Seq<char>, r: Seq<char>, st: int, i: int)
    requires
        0 <= st <= i,
    ensures
        lines_from(p + r, p.len() + st, p.len() + i) == lines_from(r, st, i),
    decreases r.len() - i,
{
    let s = p + r;
    if i >= r.len() {
        if st < r.len() {
            assert(s.subrange(p.len() + st, s.len() as int) =~= r.subrange(st, r.len() as int));
        }
    } else {
        assert(s[p.len() + i] == r[i]);
        if r[i] == '\n' {
            assert(s.subrange(p.len() + st, p.len() + i) =~= r.subrange(st, i));
            lemma_lines_from_shift(p, r, i + 1, i + 1);
        } else {
            lemma_lines_from_shift(p, r, st, i + 1);
        }
    }
}

proof fn lemma_lines_from_boundary(p: Seq<char>, r: Seq<char>, st: int, i: int)
    requires
        0 <= st <= i <= p.len(),
        i == p.len() ==> st == p.len(),
        p.len() > 0 ==> p.last() == '\n',
    ensures
        lines_from(p + r, st, i) == lines_from(p, st, i) + lines(r),
    decreases p.len() - i,
{
    let s = p + r;
    if i == p.len() {
        lemma_lines_from_shift(p, r, 0, 0);
        assert(lines_from(p, st, i) + lines(r) =~= lines(r));
    } else {
        assert(s[i] == p[i]);
        if p[i] == '\n' {
            assert(s.subrange(st, i) =~= p.subrange(st, i));
            lemma_lines_from_boundary(p, r, i + 1, i + 1);
            let first = seq![strip_cr(p.subrange(st, i))];
            assert(first + (lines_from(p, i + 1, i + 1) + lines(r)) =~= (first + lines_from(
                p,
                i + 1,
                i + 1,
            )) + lines(r));
        } else {
            lemma_lines_from_boundary(p, r, st, i + 1);
        }
    }
}

/// Text cut at a line boundary: where `p` is empty or ends with a line feed,
/// the lines of `p + r` are those of `p` and then those of `r`.
pub proof fn lemma_lines_append(p: Seq<char>, r: Seq<char>)
    requires
        p.len() > 0 ==> p.last() == '\n',
    ensures
        lines(p + r) == lines(p) + lines(r),
{
    lemma_lines_from_boundary(p, r, 0, 0);
}

proof fn lemma_lines_from_one(a: Seq<char>, i: int)
    requires
        no_newline(a),
        0 <= i <= a.len(),
    ensures
        lines_from(a.push('\n'), 0, i) == seq![strip_cr(a)],
    decreases a.len() - i,
{
    let s = a.push('\n');
    if i == a.len() {
        assert(s.subrange(0, i) =~= a);
        assert(seq![strip_cr(a)] + lines_from(s, i + 1, i + 1) =~= seq![strip_cr(a)]);
    } else {
        assert(s[i] == a[i]);
        lemma_lines_from_one(a, i + 1);
    }
}

/// One line and its line feed: where `t` is empty or ends with a line feed
/// and `line` holds none, the lines of `t`, `line` and a line feed are those
/// of `t` and then `line`, less a carriage return that ends it.
pub proof fn lemma_lines_snoc(t: Seq<char>, line: Seq<char>)
    requires
        t.len() > 0 ==> t.last() == '\n',
        no_newline(line),
    ensures
        lines(t + line + "\n"@) == lines(t).push(strip_cr(line)),
        (t + line + "\n"@).last() == '\n',
{
    reveal_strlit("\n");
    assert(t + line + "\n"@ =~= t + line.push('\n'));
    lemma_lines_append(t, line.push('\n'));
    lemma_lines_from_one(line, 0);
    assert(lines(t) + seq![strip_cr(line)] =~= lines(t).push(strip_cr(line)));
}

/// A split always has at least one piece.
pub proof fn lemma_split_nonempty(s: Seq<char>, c: char)
    ensures
        split(s, c).len() >= 1,
{
    lemma_split_from_nonempty(s, c, 0, 0);
}

proof fn lemma_split_from_nonempty(s: Seq<char>, c: char, start: int, i: int)
    ensures
        split_from(s, c, start, i).len() >= 1,
    decreases s.len() - i,
{
    if i < 0 || i >= s.len() {
    } else if s[i] == c {
        lemma_split_from_nonempty(s, c, i + 1, i + 1);
    } else {
        lemma_split_from_nonempty(s, c, start, i + 1);
    }
}

/// `str::split` at one character, scanning from `i` with the current piece
/// begun at `start`.
pub open spec fn split_from(s: Seq<char>, c: char, start: int, i: int) -> Seq<Seq<char>>
    decreases s.len() - i,
{
    if i < 0 || i >= s.len() {
        seq![s.subrange(start, s.len() as int)]
    } else if s[i] == c {
        seq![s.subrange(start, i)] + split_from(s, c, i + 1, i + 1)
    } else {
        split_from(s, c, start, i + 1)
    }
}

/// `str::split` at one character: every piece, empty ones included.
pub open spec fn split(s: Seq<char>, c: char) -> Seq<Seq<char>> {
    split_from(s, c, 0, 0)
}

/// `str::split` at one character.
pub fn split_exec(s: &[char], c: char) -> (r: Vec<Vec<char>>)
    ensures
        views(r@) == split(s@, c),
{
    let mut out: Vec<Vec<char>> = Vec::new();
    let mut start: usize = 0;
    let mut i: usize = 0;
    while i < s.len()
        invariant
            start <= i <= s.len(),
            split(s@, c) == views(out@) + split_from(s@, c, start as int, i as int),
        decreases s.len() - i,
    {
        if s[i] == c {
            let piece = slice_of(s, start, i);
            proof {
                assert(views(out@.push(piece)) == views(out@).push(piece@));
                assert(views(out@) + split_from(s@, c, start as int, i as int) == views(
                    out@.push(piece),
                ) + split_from(s@, c, i + 1, i + 1));
            }
            out.push(piece);
            start = i + 1;
        }
        i += 1;
    }
    let last = slice_of(s, start, s.len());
    proof {
        assert(views(out@.push(last)) == views(out@).push(last@));
    }
    out.push(last);
    out
}

/// `str::split_whitespace`, scanning from `i` with the current word begun at
/// `start`.
pub open spec fn words_from(s: Seq<char>, start: int, i: int) -> Seq<Seq<char>>
    decreases s.len() - i,
{
    if i < 0 || i >= s.len() {
        if 0 <= start < s.len() {
            seq![s.subrange(start, s.len() as int)]
        } else {
            seq![]
        }
    } else if is_ws(s[i]) {
        (if start < i {
            seq![s.subrange(start, i)]
        } else {
            seq![]
        }) + words_from(s, i + 1, i + 1)
    } else {
        words_from(s, start, i + 1)
    }
}

/// `str::split_whitespace`: the non-empty runs between white space.
pub open spec fn words(s: Seq<char>) -> Seq<Seq<char>> {
    words_from(s, 0, 0)
}

/// `str::split_whitespace`.
pub fn words_exec(s: &[char]) -> (r: Vec<Vec<char>>)
    ensures
        views(r@) == words(s@),
{
    let mut out: Vec<Vec<char>> = Vec::new();
    let mut start: usize = 0;
    let mut i: usize = 0;
    while i < s.len()
        invariant
            start <= i <= s.len(),
            words(s@) == views(out@) + words_from(s@, start as int, i as int),
        decreases s.len() - i,
    {
        if is_whitespace(s[i]) {
            if start < i {
                let piece = slice_of(s, start, i);
                proof {
                    assert(views(out@.push(piece)) == views(out@).push(piece@));
                    assert(views(out@) + words_from(s@, start as int, i as int) == views(
                        out@.push(piece),
                    ) + words_from(s@, i + 1, i + 1));
                }
                out.push(piece);
            } else {
                proof {
                    assert(views(out@) + words_from(s@, start as int, i as int) == views(out@)
                        + words_from(s@, i + 1, i + 1));
                }
            }
            start = i + 1;
        }
        i += 1;
    }
    if start < s.len() {
        let last = slice_of(s, start, s.len());
        proof {
            assert(views(out@.push(last)) == views(out@).push(last@));
        }
        out.push(last);
    }
    proof {
        assert(views(out@) == views(out@) + Seq::<Seq<char>>::empty());
    }
    out
}

// ---------------------------------------------------------------------------
// Integers
// ---------------------------------------------------------------------------

/// Whether every character is an ASCII digit.
pub open spec fn all_digits(s: Seq<char>) -> bool {
    forall|i: int| 0 <= i < s.len() ==> '0' <= #[trigger] s[i] <= '9'
}

/// The value of a run of decimal digits.
pub open spec fn digits_value(s: Seq<char>) -> int
    decreases s.len(),
{
    if s.len() == 0 {
        0
    } else {
        digits_value(s.drop_last()) * 10 + (s.last() as int - '0' as int)
    }
}

/// The integer a decimal numeral names, the way `i64::from_str` reads one:
/// an optional sign, then at least one digit and nothing else.
pub open spec fn numeral_value(s: Seq<char>) -> Option<int> {
    if s.len() > 0 && (s[0] == '+' || s[0] == '-') {
        let d = s.drop_first();
        if d.len() > 0 && all_digits(d) {
            Some(
                if s[0] == '-' {
                    -digits_value(d)
                } else {
                    digits_value(d)
                },
            )
        } else {
            None
        }
    } else if s.len() > 0 && all_digits(s) {
        Some(digits_value(s))
    } else {
        None
    }
}

/// `i64::from_str`: the numeral's value where it fits.
pub open spec fn parse_i64(s: Seq<char>) -> Option<i64> {
    match numeral_value(s) {
        Some(v) => if i64::MIN <= v <= i64::MAX {
            Some(v as i64)
        } else {
            None
        },
        None => None,
    }
}

proof fn lemma_digits_nonneg(s: Seq<char>)
    requires
        all_digits(s),
    ensures
        digits_value(s) >= 0,
    decreases s.len(),
{
    if s.len() > 0 {
        assert(all_digits(s.drop_last()));
        lemma_digits_nonneg(s.drop_last());
    }
}

proof fn lemma_digits_grow(s: Seq<char>, i: int, j: int)
    requires
        all_digits(s),
        0 <= i <= j <= s.len(),
    ensures
        digits_value(s.subrange(0, j)) >= digits_value(s.subrange(0, i)),
    decreases j - i,
{
    if i < j {
        lemma_digits_grow(s, i, j - 1);
        let t = s.subrange(0, j);
        assert(t.drop_last() == s.subrange(0, j - 1));
        assert(all_digits(s.subrange(0, j - 1)));
        lemma_digits_nonneg(s.subrange(0, j - 1));
        assert('0' <= s[j - 1] <= '9');
    }
}

/// The value of one decimal digit character.
pub fn digit_of(c: char) -> (r: Option<u64>)
    ensures
        r is Some <==> '0' <= c <= '9',
        r is Some ==> r->0 == c as int - '0' as int && r->0 <= 9,
{
    match c {
        '0' => Some(0),
        '1' => Some(1),
        '2' => Some(2),
        '3' => Some(3),
        '4' => Some(4),
        '5' => Some(5),
        '6' => Some(6),
        '7' => Some(7),
        '8' => Some(8),
        '9' => Some(9),
        _ => None,
    }
}

/// Read an unsigned run of digits, giving its value when it is at most
/// `limit` and `None` when it is larger or is not all digits.
pub(crate) fn digits_upto(s: &[char], lo: usize, limit: u64) -> (r: Option<u64>)
    requires
        lo <= s.len(),
        limit >= 9,
    ensures
        match r {
            Some(v) => all_digits(s@.subrange(lo as int, s.len() as int)) && v == digits_value(
                s@.subrange(lo as int, s.len() as int),
            ) && v <= limit,
            None => !all_digits(s@.subrange(lo as int, s.len() as int)) || digits_value(
                s@.subrange(lo as int, s.len() as int),
            ) > limit,
        },
{
    let ghost d = s@.subrange(lo as int, s.len() as int);
    let mut acc: u64 = 0;
    let mut over = false;
    let mut i: usize = lo;
    while i < s.len()
        invariant
            lo <= i <= s.len(),
            limit >= 9,
            d == s@.subrange(lo as int, s.len() as int),
            all_digits(d.subrange(0, i - lo)),
            over ==> digits_value(d.subrange(0, i - lo)) > limit,
            !over ==> acc == digits_value(d.subrange(0, i - lo)) && acc <= limit,
        decreases s.len() - i,
    {
        let c = s[i];
        let got = digit_of(c);
        if got.is_none() {
            proof {
                assert(d[i - lo] == c);
            }
            return None;
        }
        proof {
            let t = d.subrange(0, i - lo + 1);
            assert(t.drop_last() == d.subrange(0, i - lo));
            assert(t.last() == c);
            assert(all_digits(t));
            lemma_digits_nonneg(d.subrange(0, i - lo));
        }
        if !over {
            let digit: u64 = got.unwrap();
            if acc > (limit - digit) / 10 {
                over = true;
                proof {
                    assert(acc * 10 + digit > limit) by (nonlinear_arith)
                        requires
                            acc > (limit - digit) / 10,
                            digit <= limit,
                    {
                    }
                }
            } else {
                proof {
                    assert(acc * 10 + digit <= limit) by (nonlinear_arith)
                        requires
                            acc <= (limit - digit) / 10,
                            digit <= limit,
                    {
                    }
                }
                acc = acc * 10 + digit;
            }
        }
        i += 1;
    }
    proof {
        assert(d.subrange(0, i - lo) == d);
    }
    if over {
        None
    } else {
        Some(acc)
    }
}

/// `u64::from_str`: an optional `+`, then at least one digit and nothing
/// else, where the value fits.
pub open spec fn parse_u64(s: Seq<char>) -> Option<nat> {
    let d = if s.len() > 0 && s[0] == '+' {
        s.drop_first()
    } else {
        s
    };
    if d.len() > 0 && all_digits(d) && digits_value(d) <= u64::MAX {
        Some(digits_value(d) as nat)
    } else {
        None
    }
}

/// `u64::from_str`.
pub fn parse_u64_exec(s: &[char]) -> (r: Option<u64>)
    ensures
        match r {
            Some(v) => parse_u64(s@) == Some(v as nat),
            None => parse_u64(s@) is None,
        },
{
    let lo: usize = if s.len() > 0 && s[0] == '+' {
        1
    } else {
        0
    };
    proof {
        if lo == 1 {
            assert(s@.drop_first() == s@.subrange(1, s@.len() as int));
        } else {
            assert(s@ == s@.subrange(0, s@.len() as int));
        }
    }
    if lo == s.len() {
        return None;
    }
    digits_upto(s, lo, u64::MAX)
}

/// `usize::from_str`: an optional `+`, then at least one digit and nothing
/// else, where the value fits.
pub open spec fn parse_usize(s: Seq<char>) -> Option<nat> {
    let d = if s.len() > 0 && s[0] == '+' {
        s.drop_first()
    } else {
        s
    };
    if d.len() > 0 && all_digits(d) && digits_value(d) <= usize::MAX {
        Some(digits_value(d) as nat)
    } else {
        None
    }
}

/// `usize::from_str`.
pub fn parse_usize_exec(s: &[char]) -> (r: Option<usize>)
    ensures
        match r {
            Some(v) => parse_usize(s@) == Some(v as nat),
            None => parse_usize(s@) is None,
        },
{
    let lo: usize = if s.len() > 0 && s[0] == '+' {
        1
    } else {
        0
    };
    proof {
        if lo == 1 {
            assert(s@.drop_first() == s@.subrange(1, s@.len() as int));
        } else {
            assert(s@ == s@.subrange(0, s@.len() as int));
        }
    }
    if lo == s.len() {
        return None;
    }
    match digits_upto(s, lo, usize::MAX as u64) {
        Some(v) => {
            proof {
                lemma_digits_nonneg(s@.subrange(lo as int, s.len() as int));
            }
            Some(v as usize)
        },
        None => None,
    }
}

/// `i64::from_str`.
pub fn parse_i64_exec(s: &[char]) -> (r: Option<i64>)
    ensures
        r == parse_i64(s@),
{
    if s.len() == 0 {
        return None;
    }
    let negative = s[0] == '-';
    let signed = s[0] == '-' || s[0] == '+';
    let lo: usize = if signed {
        1
    } else {
        0
    };
    if lo == s.len() {
        return None;
    }
    let limit: u64 = if negative {
        0x8000_0000_0000_0000
    } else {
        0x7fff_ffff_ffff_ffff
    };
    let got = digits_upto(s, lo, limit);
    proof {
        if signed {
            assert(s@.drop_first() == s@.subrange(1, s.len() as int));
        } else {
            assert(s@ == s@.subrange(0, s.len() as int));
        }
    }
    match got {
        Some(v) => {
            if negative {
                if v == 0x8000_0000_0000_0000 {
                    Some(i64::MIN)
                } else {
                    Some(-(v as i64))
                }
            } else {
                Some(v as i64)
            }
        },
        None => None,
    }
}

/// The decimal digit character for `d`.
pub open spec fn digit_char(d: int) -> char {
    ('0' as int + d) as char
}

/// The decimal numeral of a natural number, without leading zeros.
pub open spec fn decimal(n: nat) -> Seq<char>
    decreases n,
{
    if n < 10 {
        seq![digit_char(n as int)]
    } else {
        decimal(n / 10).push(digit_char((n % 10) as int))
    }
}

/// The decimal numeral of an integer, as `format!("{}")` renders it.
pub open spec fn int_text(v: int) -> Seq<char> {
    if v < 0 {
        seq!['-'] + decimal((-v) as nat)
    } else {
        decimal(v as nat)
    }
}

proof fn lemma_decimal(n: nat)
    ensures
        decimal(n).len() > 0,
        all_digits(decimal(n)),
        digits_value(decimal(n)) == n,
    decreases n,
{
    if n < 10 {
        assert(decimal(n).drop_last() =~= Seq::<char>::empty());
        assert(digit_char(n as int) as int == '0' as int + n);
        assert(digits_value(Seq::<char>::empty()) == 0);
        assert(decimal(n).last() == digit_char(n as int));
        assert(digits_value(decimal(n)) == digits_value(decimal(n).drop_last()) * 10 + (
        decimal(n).last() as int - '0' as int));
    } else {
        lemma_decimal(n / 10);
        let d = decimal(n / 10);
        let s = d.push(digit_char((n % 10) as int));
        assert(s.drop_last() =~= d);
        assert(digit_char((n % 10) as int) as int == '0' as int + n % 10);
        assert(n == (n / 10) * 10 + n % 10) by (nonlinear_arith);
        assert(decimal(n) == s);
        assert(digits_value(s) == digits_value(d) * 10 + (s.last() as int - '0' as int));
        assert forall|i: int| 0 <= i < s.len() implies '0' <= #[trigger] s[i] <= '9' by {
            if i < d.len() {
                assert(s[i] == d[i]);
            }
        }
    }
}

/// A number's decimal numeral: digits after an optional minus, never empty.
pub proof fn lemma_int_text_chars(v: int)
    ensures
        int_text(v).len() > 0,
        forall|i: int|
            0 <= i < int_text(v).len() ==> #[trigger] int_text(v)[i] == '-' || '0' <= int_text(v)[i]
                <= '9',
        '0' <= int_text(v).last() <= '9',
{
    if v < 0 {
        lemma_decimal((-v) as nat);
        let d = decimal((-v) as nat);
        assert forall|i: int| 0 <= i < int_text(v).len() implies #[trigger] int_text(v)[i] == '-'
            || '0' <= int_text(v)[i] <= '9' by {
            if i > 0 {
                assert(int_text(v)[i] == d[i - 1]);
            }
        }
        assert(int_text(v).last() == d.last());
    } else {
        lemma_decimal(v as nat);
    }
}

/// A number's decimal numeral reads back as that number.
pub proof fn lemma_parse_int_text(v: i64)
    ensures
        parse_i64(int_text(v as int)) == Some(v),
{
    if v < 0 {
        lemma_decimal((-v) as nat);
        assert(int_text(v as int).drop_first() =~= decimal((-v) as nat));
    } else {
        lemma_decimal(v as nat);
    }
}

fn push_decimal(out: &mut Vec<char>, n: u64)
    ensures
        final(out)@ == old(out)@ + decimal(n as nat),
    decreases n,
{
    if n >= 10 {
        push_decimal(out, n / 10);
    }
    let d: u8 = (n % 10) as u8;
    let c: char = (48u8 + d) as char;
    proof {
        assert(c == digit_char((n % 10) as int));
    }
    out.push(c);
}

/// The decimal numeral of an `i64`.
pub fn int_chars(v: i64) -> (r: Vec<char>)
    ensures
        r@ == int_text(v as int),
{
    let mut out: Vec<char> = Vec::new();
    if v < 0 {
        out.push('-');
        let m: u64 = if v == i64::MIN {
            0x8000_0000_0000_0000
        } else {
            (-v) as u64
        };
        push_decimal(&mut out, m);
    } else {
        push_decimal(&mut out, v as u64);
    }
    out
}

/// The decimal numeral of an `i64`, as a string.
pub fn int_string(v: i64) -> (r: String)
    ensures
        r@ == int_text(v as int),
{
    let c = int_chars(v);
    string_of(c.as_slice())
}

/// The decimal numeral of a `u64`, as a string.
pub fn nat_string(v: u64) -> (r: String)
    ensures
        r@ == decimal(v as nat),
{
    let mut out: Vec<char> = Vec::new();
    push_decimal(&mut out, v);
    string_of(out.as_slice())
}

// ---------------------------------------------------------------------------
// Order
// ---------------------------------------------------------------------------

/// The order `str`'s `Ord` gives: character by character, a prefix first.
/// Characters compare as code points, which is the order UTF-8 bytes give.
pub open spec fn lex_le(a: Seq<char>, b: Seq<char>) -> bool
    decreases a.len(),
{
    if a.len() == 0 {
        true
    } else if b.len() == 0 {
        false
    } else if a[0] != b[0] {
        a[0] < b[0]
    } else {
        lex_le(a.drop_first(), b.drop_first())
    }
}

/// Any two sequences are ordered one way or the other.
pub proof fn lemma_lex_total(a: Seq<char>, b: Seq<char>)
    ensures
        lex_le(a, b) || lex_le(b, a),
    decreases a.len(),
{
    if a.len() > 0 && b.len() > 0 && a[0] == b[0] {
        lemma_lex_total(a.drop_first(), b.drop_first());
    }
}

/// The order is transitive.
pub proof fn lemma_lex_trans(a: Seq<char>, b: Seq<char>, c: Seq<char>)
    requires
        lex_le(a, b),
        lex_le(b, c),
    ensures
        lex_le(a, c),
    decreases a.len(),
{
    if a.len() > 0 && b.len() > 0 && c.len() > 0 && a[0] == b[0] && b[0] == c[0] {
        lemma_lex_trans(a.drop_first(), b.drop_first(), c.drop_first());
    }
}

/// The order is antisymmetric.
pub proof fn lemma_lex_antisym(a: Seq<char>, b: Seq<char>)
    requires
        lex_le(a, b),
        lex_le(b, a),
    ensures
        a == b,
    decreases a.len(),
{
    if a.len() > 0 && b.len() > 0 {
        lemma_lex_antisym(a.drop_first(), b.drop_first());
        assert(a == seq![a[0]] + a.drop_first());
        assert(b == seq![b[0]] + b.drop_first());
    }
}

/// Whether `a` sorts no later than `b`.
pub fn lex_le_exec(a: &[char], b: &[char]) -> (r: bool)
    ensures
        r == lex_le(a@, b@),
{
    let mut i: usize = 0;
    proof {
        assert(a@.subrange(0, a@.len() as int) == a@);
        assert(b@.subrange(0, b@.len() as int) == b@);
    }
    while i < a.len() && i < b.len() && a[i] == b[i]
        invariant
            i <= a.len(),
            i <= b.len(),
            lex_le(a@, b@) == lex_le(
                a@.subrange(i as int, a@.len() as int),
                b@.subrange(i as int, b@.len() as int),
            ),
        decreases a.len() - i,
    {
        proof {
            let sa = a@.subrange(i as int, a@.len() as int);
            let sb = b@.subrange(i as int, b@.len() as int);
            assert(sa.drop_first() == a@.subrange(i + 1, a@.len() as int));
            assert(sb.drop_first() == b@.subrange(i + 1, b@.len() as int));
        }
        i += 1;
    }
    proof {
        let sa = a@.subrange(i as int, a@.len() as int);
        let sb = b@.subrange(i as int, b@.len() as int);
        if i < a.len() && i < b.len() {
            assert(sa[0] == a@[i as int]);
            assert(sb[0] == b@[i as int]);
        }
    }
    if i == a.len() {
        true
    } else if i == b.len() {
        false
    } else {
        a[i] < b[i]
    }
}

/// Whether a run of sequences is in order.
pub open spec fn sorted(s: Seq<Seq<char>>) -> bool {
    forall|i: int, j: int| 0 <= i < j < s.len() ==> lex_le(#[trigger] s[i], #[trigger] s[j])
}

proof fn lemma_insert_sorted(s: Seq<Seq<char>>, p: int, x: Seq<char>)
    requires
        sorted(s),
        0 <= p <= s.len(),
        forall|k: int| 0 <= k < p ==> lex_le(#[trigger] s[k], x),
        p < s.len() ==> !lex_le(s[p], x),
    ensures
        sorted(s.insert(p, x)),
{
    let n = s.insert(p, x);
    if p < s.len() {
        lemma_lex_total(s[p], x);
    }
    assert forall|i: int, j: int| 0 <= i < j < n.len() implies lex_le(#[trigger] n[i], #[trigger] n[j]) by {
        if i < p && j <= p {
            assert(n[i] == s[i]);
        } else if i < p && j > p {
            assert(n[i] == s[i] && n[j] == s[j - 1]);
        } else if i == p && j > p {
            assert(n[j] == s[j - 1]);
            if j - 1 > p {
                assert(lex_le(s[p], s[j - 1]));
                lemma_lex_trans(x, s[p], s[j - 1]);
            }
        } else {
            assert(n[i] == s[i - 1] && n[j] == s[j - 1]);
        }
    }
}

/// Strings in order, the same ones the input held.
pub fn sort_strings(v: Vec<String>) -> (r: Vec<String>)
    ensures
        sorted(string_views(r@)),
        string_views(r@).to_multiset() == string_views(v@).to_multiset(),
{
    let mut out: Vec<String> = Vec::new();
    let mut i: usize = 0;
    proof {
        assert(string_views(out@) =~= seq![]);
        assert(string_views(v@).subrange(0, 0) =~= seq![]);
    }
    while i < v.len()
        invariant
            i <= v.len(),
            sorted(string_views(out@)),
            string_views(out@).to_multiset() == string_views(v@).subrange(0, i as int).to_multiset(),
        decreases v.len() - i,
    {
        let x = v[i].clone();
        let xc = chars_of(x.as_str());
        let ghost ov = string_views(out@);
        let mut p: usize = 0;
        while p < out.len()
            invariant
                p <= out.len(),
                ov == string_views(out@),
                xc@ == x@,
                forall|k: int| 0 <= k < p ==> lex_le(#[trigger] ov[k], x@),
            ensures
                p <= out.len(),
                forall|k: int| 0 <= k < p ==> lex_le(#[trigger] ov[k], x@),
                p < out.len() ==> !lex_le(ov[p as int], x@),
            decreases out.len() - p,
        {
            let oc = chars_of(out[p].as_str());
            if !lex_le_exec(oc.as_slice(), xc.as_slice()) {
                break;
            }
            p += 1;
        }
        proof {
            lemma_insert_sorted(ov, p as int, x@);
            assert(string_views(out@.insert(p as int, x)) == ov.insert(p as int, x@));
            vstd::seq_lib::to_multiset_insert(ov, p as int, x@);
            let sv = string_views(v@);
            assert(sv.subrange(0, i + 1) == sv.subrange(0, i as int).push(sv[i as int]));
            vstd::seq_lib::to_multiset_build(sv.subrange(0, i as int), sv[i as int]);
            assert(sv[i as int] == x@);
        }
        out.insert(p, x);
        i += 1;
    }
    proof {
        assert(string_views(v@).subrange(0, v.len() as int) == string_views(v@));
    }
    out
}

// ---------------------------------------------------------------------------
// Sort keys
// ---------------------------------------------------------------------------

/// Characters as a sort key, the same way, by code point: the order UTF-8
/// bytes give.
pub open spec fn chars_key(s: Seq<char>) -> Seq<u64> {
    s.map_values(|c: char| (c as u32 as int + 1) as u64).push(0)
}

/// Whether key `a` sorts no later than key `b`: element by element, a
/// prefix first.
pub open spec fn key_le(a: Seq<u64>, b: Seq<u64>) -> bool
    decreases a.len(),
{
    if a.len() == 0 {
        true
    } else if b.len() == 0 {
        false
    } else if a[0] != b[0] {
        a[0] < b[0]
    } else {
        key_le(a.drop_first(), b.drop_first())
    }
}

/// Any two keys are ordered one way or the other.
pub proof fn lemma_key_total(a: Seq<u64>, b: Seq<u64>)
    ensures
        key_le(a, b) || key_le(b, a),
    decreases a.len(),
{
    if a.len() > 0 && b.len() > 0 && a[0] == b[0] {
        lemma_key_total(a.drop_first(), b.drop_first());
    }
}

/// The key order is transitive.
pub proof fn lemma_key_trans(a: Seq<u64>, b: Seq<u64>, c: Seq<u64>)
    requires
        key_le(a, b),
        key_le(b, c),
    ensures
        key_le(a, c),
    decreases a.len(),
{
    if a.len() > 0 && b.len() > 0 && c.len() > 0 && a[0] == b[0] && b[0] == c[0] {
        lemma_key_trans(a.drop_first(), b.drop_first(), c.drop_first());
    }
}

/// Append a text's sort key.
pub fn push_chars_key(out: &mut Vec<u64>, s: &[char])
    ensures
        final(out)@ == old(out)@ + chars_key(s@),
{
    let mut i: usize = 0;
    while i < s.len()
        invariant
            i <= s.len(),
            out@ == old(out)@ + s@.subrange(0, i as int).map_values(|c: char| (c as u32 as int + 1) as u64),
        decreases s.len() - i,
    {
        let c = s[i];
        out.push(c as u32 as u64 + 1);
        proof {
            assert(s@.subrange(0, i + 1) == s@.subrange(0, i as int).push(s@[i as int]));
        }
        i += 1;
    }
    out.push(0);
    proof {
        assert(s@.subrange(0, s@.len() as int) == s@);
    }
}

/// Whether key `a` sorts no later than key `b`.
pub fn key_le_exec(a: &[u64], b: &[u64]) -> (r: bool)
    ensures
        r == key_le(a@, b@),
{
    let mut i: usize = 0;
    proof {
        assert(a@.subrange(0, a@.len() as int) == a@);
        assert(b@.subrange(0, b@.len() as int) == b@);
    }
    while i < a.len() && i < b.len() && a[i] == b[i]
        invariant
            i <= a.len(),
            i <= b.len(),
            key_le(a@, b@) == key_le(
                a@.subrange(i as int, a@.len() as int),
                b@.subrange(i as int, b@.len() as int),
            ),
        decreases a.len() - i,
    {
        proof {
            let sa = a@.subrange(i as int, a@.len() as int);
            let sb = b@.subrange(i as int, b@.len() as int);
            assert(sa.drop_first() == a@.subrange(i + 1, a@.len() as int));
            assert(sb.drop_first() == b@.subrange(i + 1, b@.len() as int));
        }
        i += 1;
    }
    if i == a.len() {
        true
    } else if i == b.len() {
        false
    } else {
        a[i] < b[i]
    }
}

} // verus!
