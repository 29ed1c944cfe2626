//! The lease body: its fields, its rendering, its reading back out of a
//! commit, and the four bodies a verb mints.
//!
//! `holder` decides ownership and `expires` decides liveness; `branch`,
//! `head`, `next` and `progress` are advisory and read by no predicate that
//! decides who holds the lease. `nonce` is what makes every mint a distinct
//! object.

use vstd::prelude::*;
use vstd::string::StringExecFns;
use crate::lease::pack::{LEASE_EMAIL, LEASE_NAME, commit_text, hex_text, lease_commit, signature_text};
use crate::lease::wire::{lossy_text, utf8_lossy};
use crate::text::{
    chars_of, int_string, int_text, lemma_find_from_occurs, lemma_int_text_chars, lemma_lines_append,
    lemma_lines_snoc, lemma_parse_int_text, lemma_split_key_value, lines, lines_exec, no_newline,
    parse_i64, parse_i64_exec, same_str, split_once, split_once_exec, string_of, strip_cr,
    strip_suffix, strip_suffix_exec, views,
};

verus! {

/// The lease body's own fields.
#[derive(Debug, Clone, PartialEq, Eq)]
pub struct Body {
    /// The clone that holds it. The one field ownership is decided by.
    pub holder: String,
    /// The instant it lapses, or `0` for a tombstone: a release is a
    /// declaration and an expiry an inference, and only the second needs a
    /// clock.
    pub expires: i64,
    /// The branch this lease authorises to spend a matrix. Advisory.
    pub branch: String,
    /// The commit that is about to become trunk. Advisory.
    pub head: String,
    /// The one admitted successor, or empty. Advisory.
    pub next: String,
    /// The holder's own progress token, tested for equality over time and
    /// never interpreted. Advisory.
    pub progress: String,
    /// What makes every mint a distinct object.
    pub nonce: String,
}

/// A body as text.
pub struct BodyView {
    pub holder: Seq<char>,
    pub expires: i64,
    pub branch: Seq<char>,
    pub head: Seq<char>,
    pub next: Seq<char>,
    pub progress: Seq<char>,
    pub nonce: Seq<char>,
}

/// The view of a body.
pub open spec fn body_view(b: Body) -> BodyView {
    BodyView {
        holder: b.holder@,
        expires: b.expires,
        branch: b.branch@,
        head: b.head@,
        next: b.next@,
        progress: b.progress@,
        nonce: b.nonce@,
    }
}

impl Default for Body {
    /// The empty body: every field empty and no expiry.
    fn default() -> (r: Self)
        ensures
            r.holder@ == Seq::<char>::empty() && r.expires == 0 && r.branch@ == Seq::<char>::empty()
                && r.head@ == Seq::<char>::empty() && r.next@ == Seq::<char>::empty() && r.progress@
                == Seq::<char>::empty() && r.nonce@ == Seq::<char>::empty(),
    {
        Body {
            holder: String::new(),
            expires: 0,
            branch: String::new(),
            head: String::new(),
            next: String::new(),
            progress: String::new(),
            nonce: String::new(),
        }
    }
}

/// The banner every lease body opens with, so a commit that is not a lease is
/// not read as one.
pub const BANNER: &'static str = "land-lock";

/// A `key: value` line, without its line feed.
pub open spec fn field_line(key: Seq<char>, value: Seq<char>) -> Seq<char> {
    key + ": "@ + value
}

/// The text a body renders to: the banner, then one `key: value` line per
/// field, `nonce:` last.
pub open spec fn render_text(b: BodyView) -> Seq<char> {
    BANNER@ + "\n"@ + field_line("holder"@, b.holder) + "\n"@ + field_line(
        "expires"@,
        int_text(b.expires as int),
    ) + "\n"@ + field_line("branch"@, b.branch) + "\n"@ + field_line("head"@, b.head) + "\n"@
        + field_line("next"@, b.next) + "\n"@ + field_line("progress"@, b.progress) + "\n"@
        + field_line("nonce"@, b.nonce) + "\n"@
}

/// Append one `key: value` line and its line feed.
fn push_field(out: &mut String, key: &str, value: &str)
    ensures
        final(out)@ == old(out)@ + field_line(key@, value@) + "\n"@,
{
    out.append(key);
    out.append(": ");
    out.append(value);
    out.append("\n");
    proof {
        assert(old(out)@ + key@ + ": "@ + value@ + "\n"@ =~= old(out)@ + field_line(key@, value@)
            + "\n"@);
    }
}

impl Body {
    /// The body as `lease_object` takes it.
    pub fn render(&self) -> (r: String)
        ensures
            r@ == render_text(body_view(*self)),
    {
        let mut out = String::from_str(BANNER);
        out.append("\n");
        push_field(&mut out, "holder", self.holder.as_str());
        let expires = int_string(self.expires);
        push_field(&mut out, "expires", expires.as_str());
        push_field(&mut out, "branch", self.branch.as_str());
        push_field(&mut out, "head", self.head.as_str());
        push_field(&mut out, "next", self.next.as_str());
        push_field(&mut out, "progress", self.progress.as_str());
        push_field(&mut out, "nonce", self.nonce.as_str());
        out
    }

    /// Explicitly handed over, as opposed to merely lapsed. No clock
    /// involved.
    pub fn released(&self) -> (r: bool)
        ensures
            r == (self.expires == 0),
    {
        self.expires == 0
    }

    /// Lapsed as of `now`: a lease with zero seconds left has none.
    pub fn expired(&self, now: i64) -> (r: bool)
        ensures
            r == (now >= self.expires),
    {
        now >= self.expires
    }
}

/// What a reading of a body's lines has gathered so far.
pub struct Fields {
    pub banner: bool,
    pub expires: Option<i64>,
    pub holder: Seq<char>,
    pub branch: Seq<char>,
    pub head: Seq<char>,
    pub next: Seq<char>,
    pub progress: Seq<char>,
    pub nonce: Seq<char>,
}

/// Nothing read yet.
pub open spec fn no_fields() -> Fields {
    Fields {
        banner: false,
        expires: None,
        holder: seq![],
        branch: seq![],
        head: seq![],
        next: seq![],
        progress: seq![],
        nonce: seq![],
    }
}

/// One line read into the fields: the banner line marks it a lease; a
/// `key: value` line sets that field (the expiry to whatever its value
/// parses as, or to nothing); an advisory `key:` with no value empties it;
/// anything else, the commit's own headers among it, is passed over.
pub open spec fn read_line(f: Fields, line: Seq<char>) -> Fields {
    if line == BANNER@ {
        Fields { banner: true, ..f }
    } else {
        match split_once(line, ": "@) {
            None => match strip_suffix(line, ":"@) {
                Some(key) => if key == "branch"@ {
                    Fields { branch: seq![], ..f }
                } else if key == "head"@ {
                    Fields { head: seq![], ..f }
                } else if key == "next"@ {
                    Fields { next: seq![], ..f }
                } else if key == "progress"@ {
                    Fields { progress: seq![], ..f }
                } else {
                    f
                },
                None => f,
            },
            Some((key, value)) => set_field(f, key, value),
        }
    }
}

/// A `key: value` line read into the fields: a known key takes the value (the
/// expiry whatever the value parses as, or nothing); any other is passed
/// over.
pub open spec fn set_field(f: Fields, key: Seq<char>, value: Seq<char>) -> Fields {
    if key == "holder"@ {
        Fields { holder: value, ..f }
    } else if key == "expires"@ {
        Fields { expires: parse_i64(value), ..f }
    } else if key == "branch"@ {
        Fields { branch: value, ..f }
    } else if key == "head"@ {
        Fields { head: value, ..f }
    } else if key == "next"@ {
        Fields { next: value, ..f }
    } else if key == "progress"@ {
        Fields { progress: value, ..f }
    } else if key == "nonce"@ {
        Fields { nonce: value, ..f }
    } else {
        f
    }
}

/// The lines from the `k`th on, read in order.
pub open spec fn read_lines(ls: Seq<Seq<char>>, k: int, f: Fields) -> Fields
    decreases ls.len() - k,
{
    if k < 0 || k >= ls.len() {
        f
    } else {
        read_lines(ls, k + 1, read_line(f, ls[k]))
    }
}

/// The body a text carries: `None` unless it holds the banner and an expiry
/// that reads as a number.
pub open spec fn body_of_text(text: Seq<char>) -> Option<BodyView> {
    let f = read_lines(lines(text), 0, no_fields());
    if !f.banner {
        None
    } else {
        match f.expires {
            None => None,
            Some(e) => Some(
                BodyView {
                    holder: f.holder,
                    expires: e,
                    branch: f.branch,
                    head: f.head,
                    next: f.next,
                    progress: f.progress,
                    nonce: f.nonce,
                },
            ),
        }
    }
}

/// Read a lease body out of a commit object.
///
/// A commit that does not open with the banner is not a lease, and one with
/// no `expires:` line does not parse: the default belongs to the caller that
/// knows its own term.
pub fn parse_body(object: &[u8]) -> (r: Option<Body>)
    ensures
        match body_of_text(utf8_lossy(object@)) {
            Some(b) => r is Some && body_view(r->0) == b,
            None => r is None,
        },
        vstd::utf8::valid_utf8(object@) ==> match body_of_text(vstd::utf8::decode_utf8(object@)) {
            Some(b) => r is Some && body_view(r->0) == b,
            None => r is None,
        },
{
    let text = lossy_text(object);
    let chars = chars_of(text.as_str());
    let ls = lines_exec(chars.as_slice());
    let ghost lv = views(ls@);
    let mut banner = false;
    let mut expires: Option<i64> = None;
    let mut holder: Vec<char> = Vec::new();
    let mut branch: Vec<char> = Vec::new();
    let mut head: Vec<char> = Vec::new();
    let mut next: Vec<char> = Vec::new();
    let mut progress: Vec<char> = Vec::new();
    let mut nonce: Vec<char> = Vec::new();
    proof {
        reveal_strlit(": ");
        reveal_strlit(":");
    }
    let mut k: usize = 0;
    while k < ls.len()
        invariant
            k <= ls.len(),
            lv == views(ls@),
            read_lines(lv, 0, no_fields()) == read_lines(
                lv,
                k as int,
                Fields {
                    banner,
                    expires,
                    holder: holder@,
                    branch: branch@,
                    head: head@,
                    next: next@,
                    progress: progress@,
                    nonce: nonce@,
                },
            ),
        decreases ls.len() - k,
    {
        let line = ls[k].as_slice();
        proof {
            assert(lv[k as int] == line@);
        }
        if same_str(line, BANNER) {
            banner = true;
        } else {
            match split_once_exec(line, ": ") {
                None => {
                    match strip_suffix_exec(line, ":") {
                        Some(key) => {
                            if same_str(key.as_slice(), "branch") {
                                branch = Vec::new();
                            } else if same_str(key.as_slice(), "head") {
                                head = Vec::new();
                            } else if same_str(key.as_slice(), "next") {
                                next = Vec::new();
                            } else if same_str(key.as_slice(), "progress") {
                                progress = Vec::new();
                            }
                        },
                        None => {},
                    }
                },
                Some((key, value)) => {
                    if same_str(key.as_slice(), "holder") {
                        holder = value;
                    } else if same_str(key.as_slice(), "expires") {
                        expires = parse_i64_exec(value.as_slice());
                    } else if same_str(key.as_slice(), "branch") {
                        branch = value;
                    } else if same_str(key.as_slice(), "head") {
                        head = value;
                    } else if same_str(key.as_slice(), "next") {
                        next = value;
                    } else if same_str(key.as_slice(), "progress") {
                        progress = value;
                    } else if same_str(key.as_slice(), "nonce") {
                        nonce = value;
                    }
                },
            }
        }
        k += 1;
    }
    if !banner {
        return None;
    }
    let expires = match expires {
        Some(e) => e,
        None => return None,
    };
    Some(
        Body {
            holder: string_of(holder.as_slice()),
            expires,
            branch: string_of(branch.as_slice()),
            head: string_of(head.as_slice()),
            next: string_of(next.as_slice()),
            progress: string_of(progress.as_slice()),
            nonce: string_of(nonce.as_slice()),
        },
    )
}

// ---------------------------------------------------------------------------
// Reading back what was written
// ---------------------------------------------------------------------------

/// Whether a field survives a line of its own: it holds no line feed and does
/// not end with a carriage return.
pub open spec fn field_ok(s: Seq<char>) -> bool {
    no_newline(s) && !(s.len() > 0 && s.last() == '\r')
}

/// Whether every text field of a body survives a line of its own.
pub open spec fn fields_ok(b: BodyView) -> bool {
    &&& field_ok(b.holder)
    &&& field_ok(b.branch)
    &&& field_ok(b.head)
    &&& field_ok(b.next)
    &&& field_ok(b.progress)
    &&& field_ok(b.nonce)
}

/// The lines a body renders to.
pub open spec fn body_lines(b: BodyView) -> Seq<Seq<char>> {
    seq![
        BANNER@,
        field_line("holder"@, b.holder),
        field_line("expires"@, int_text(b.expires as int)),
        field_line("branch"@, b.branch),
        field_line("head"@, b.head),
        field_line("next"@, b.next),
        field_line("progress"@, b.progress),
        field_line("nonce"@, b.nonce),
    ]
}

proof fn lemma_no_newline_add(a: Seq<char>, b: Seq<char>)
    requires
        no_newline(a),
        no_newline(b),
    ensures
        no_newline(a + b),
{
    assert forall|i: int| 0 <= i < (a + b).len() implies #[trigger] (a + b)[i] != '\n' by {
        if i >= a.len() {
            assert((a + b)[i] == b[i - a.len()]);
        }
    }
}

proof fn lemma_field_line(key: Seq<char>, value: Seq<char>)
    requires
        key.len() > 0,
        key[0] != 'l',
        forall|i: int| 0 <= i < key.len() ==> #[trigger] key[i] != ':' && key[i] != '\n',
        field_ok(value),
    ensures
        no_newline(field_line(key, value)),
        strip_cr(field_line(key, value)) == field_line(key, value),
        split_once(field_line(key, value), ": "@) == Some((key, value)),
        field_line(key, value) != BANNER@,
{
    reveal_strlit(": ");
    reveal_strlit("land-lock");
    let l = field_line(key, value);
    assert(no_newline(key));
    assert(no_newline(": "@));
    lemma_no_newline_add(key, ": "@);
    lemma_no_newline_add(key + ": "@, value);
    lemma_split_key_value(key, value);
    assert(l[0] == key[0]);
    if value.len() > 0 {
        assert(l.last() == value.last());
    } else {
        assert(l.last() == ' ');
    }
}

proof fn lemma_foreign_line(f: Fields, line: Seq<char>)
    requires
        line.len() > 0 ==> line[0] != 'h' && line[0] != 'e' && line[0] != 'b' && line[0] != 'n'
            && line[0] != 'p' && line[0] != 'l',
    ensures
        read_line(f, line) == f,
{
    reveal_strlit("land-lock");
    reveal_strlit(": ");
    reveal_strlit(":");
    reveal_strlit("holder");
    reveal_strlit("expires");
    reveal_strlit("branch");
    reveal_strlit("head");
    reveal_strlit("next");
    reveal_strlit("progress");
    reveal_strlit("nonce");
    lemma_find_from_occurs(line, ": "@, 0);
    match split_once(line, ": "@) {
        Some((key, value)) => {
            if key.len() > 0 {
                assert(key[0] == line[0]);
            }
        },
        None => {
            match strip_suffix(line, ":"@) {
                Some(key) => {
                    if key.len() > 0 {
                        assert(key[0] == line[0]);
                    }
                },
                None => {},
            }
        },
    }
}

proof fn lemma_read_lines_shift(a: Seq<Seq<char>>, b: Seq<Seq<char>>, j: int, f: Fields)
    requires
        0 <= j,
    ensures
        read_lines(a + b, a.len() + j, f) == read_lines(b, j, f),
    decreases b.len() - j,
{
    if j < b.len() {
        assert((a + b)[a.len() + j] == b[j]);
        lemma_read_lines_shift(a, b, j + 1, read_line(f, b[j]));
    }
}

proof fn lemma_read_lines_concat(a: Seq<Seq<char>>, b: Seq<Seq<char>>, k: int, f: Fields)
    requires
        0 <= k <= a.len(),
    ensures
        read_lines(a + b, k, f) == read_lines(b, 0, read_lines(a, k, f)),
    decreases a.len() - k,
{
    if k == a.len() {
        lemma_read_lines_shift(a, b, 0, f);
    } else {
        assert((a + b)[k] == a[k]);
        lemma_read_lines_concat(a, b, k + 1, read_line(f, a[k]));
    }
}

proof fn lemma_render_lines(b: BodyView)
    requires
        fields_ok(b),
    ensures
        lines(render_text(b)) == body_lines(b),
{
    reveal_strlit("land-lock");
    reveal_strlit("holder");
    reveal_strlit("expires");
    reveal_strlit("branch");
    reveal_strlit("head");
    reveal_strlit("next");
    reveal_strlit("progress");
    reveal_strlit("nonce");
    reveal_strlit("\n");
    lemma_int_text_chars(b.expires as int);
    let e = int_text(b.expires as int);
    assert(field_ok(e));
    lemma_field_line("holder"@, b.holder);
    lemma_field_line("expires"@, e);
    lemma_field_line("branch"@, b.branch);
    lemma_field_line("head"@, b.head);
    lemma_field_line("next"@, b.next);
    lemma_field_line("progress"@, b.progress);
    lemma_field_line("nonce"@, b.nonce);
    let empty = Seq::<char>::empty();
    assert(no_newline(BANNER@));
    lemma_lines_snoc(empty, BANNER@);
    let t0 = BANNER@ + "\n"@;
    assert(empty + BANNER@ + "\n"@ =~= t0);
    let t1 = t0 + field_line("holder"@, b.holder) + "\n"@;
    lemma_lines_snoc(t0, field_line("holder"@, b.holder));
    let t2 = t1 + field_line("expires"@, e) + "\n"@;
    lemma_lines_snoc(t1, field_line("expires"@, e));
    let t3 = t2 + field_line("branch"@, b.branch) + "\n"@;
    lemma_lines_snoc(t2, field_line("branch"@, b.branch));
    let t4 = t3 + field_line("head"@, b.head) + "\n"@;
    lemma_lines_snoc(t3, field_line("head"@, b.head));
    let t5 = t4 + field_line("next"@, b.next) + "\n"@;
    lemma_lines_snoc(t4, field_line("next"@, b.next));
    let t6 = t5 + field_line("progress"@, b.progress) + "\n"@;
    lemma_lines_snoc(t5, field_line("progress"@, b.progress));
    lemma_lines_snoc(t6, field_line("nonce"@, b.nonce));
    assert(lines(empty) =~= Seq::<Seq<char>>::empty());
    assert(lines(render_text(b)) =~= body_lines(b));
}

/// The header lines of the lease commit at `seconds`.
pub open spec fn header_lines(seconds: i64) -> Seq<Seq<char>> {
    seq![
        "tree 4b825dc642cb6eb9a060e54bf8d69288fbee4904"@,
        "author "@ + signature_text(LEASE_NAME@, LEASE_EMAIL@, seconds),
        "committer "@ + signature_text(LEASE_NAME@, LEASE_EMAIL@, seconds),
        Seq::<char>::empty(),
    ]
}

proof fn lemma_commit_lines(m: Seq<char>, seconds: i64)
    ensures
        lines(commit_text(LEASE_NAME@, LEASE_EMAIL@, m, seconds)) == header_lines(seconds) + lines(m),
{
    reveal_strlit("tree 4b825dc642cb6eb9a060e54bf8d69288fbee4904");
    reveal_strlit("author ");
    reveal_strlit("committer ");
    reveal_strlit("batten");
    reveal_strlit("batten@localhost");
    reveal_strlit(" <");
    reveal_strlit("> ");
    reveal_strlit(" +0000");
    reveal_strlit("\n");
    let tree = "tree 4b825dc642cb6eb9a060e54bf8d69288fbee4904"@;
    let sig = signature_text(LEASE_NAME@, LEASE_EMAIL@, seconds);
    lemma_int_text_chars(seconds as int);
    let num = int_text(seconds as int);
    assert(no_newline(num));
    assert(no_newline(LEASE_NAME@));
    assert(no_newline(LEASE_EMAIL@));
    assert(no_newline(" <"@));
    assert(no_newline("> "@));
    assert(no_newline(" +0000"@));
    lemma_no_newline_add(LEASE_NAME@, " <"@);
    lemma_no_newline_add(LEASE_NAME@ + " <"@, LEASE_EMAIL@);
    lemma_no_newline_add(LEASE_NAME@ + " <"@ + LEASE_EMAIL@, "> "@);
    lemma_no_newline_add(LEASE_NAME@ + " <"@ + LEASE_EMAIL@ + "> "@, num);
    lemma_no_newline_add(LEASE_NAME@ + " <"@ + LEASE_EMAIL@ + "> "@ + num, " +0000"@);
    assert(sig.last() == '0');
    let author = "author "@ + sig;
    let committer = "committer "@ + sig;
    assert(no_newline("author "@));
    assert(no_newline("committer "@));
    lemma_no_newline_add("author "@, sig);
    lemma_no_newline_add("committer "@, sig);
    assert(author.last() == '0');
    assert(committer.last() == '0');
    let empty = Seq::<char>::empty();
    assert(no_newline(tree));
    lemma_lines_snoc(empty, tree);
    let h1 = tree + "\n"@;
    assert(empty + tree + "\n"@ =~= h1);
    let h2 = h1 + author + "\n"@;
    lemma_lines_snoc(h1, author);
    let h3 = h2 + committer + "\n"@;
    lemma_lines_snoc(h2, committer);
    let h4 = h3 + "\n"@;
    lemma_lines_snoc(h3, empty);
    assert(h3 + empty + "\n"@ =~= h4);
    lemma_lines_append(h4, m);
    assert(lines(empty) =~= Seq::<Seq<char>>::empty());
    assert(lines(h4) =~= header_lines(seconds));
}

proof fn lemma_read_body(b: BodyView)
    requires
        fields_ok(b),
    ensures
        read_lines(body_lines(b), 0, no_fields()) == (Fields {
            banner: true,
            expires: Some(b.expires),
            holder: b.holder,
            branch: b.branch,
            head: b.head,
            next: b.next,
            progress: b.progress,
            nonce: b.nonce,
        }),
{
    reveal_strlit("holder");
    reveal_strlit("expires");
    reveal_strlit("branch");
    reveal_strlit("head");
    reveal_strlit("next");
    reveal_strlit("progress");
    reveal_strlit("nonce");
    let bs = body_lines(b);
    let e = int_text(b.expires as int);
    lemma_int_text_chars(b.expires as int);
    lemma_parse_int_text(b.expires);
    lemma_field_line("holder"@, b.holder);
    lemma_field_line("expires"@, e);
    lemma_field_line("branch"@, b.branch);
    lemma_field_line("head"@, b.head);
    lemma_field_line("next"@, b.next);
    lemma_field_line("progress"@, b.progress);
    lemma_field_line("nonce"@, b.nonce);
    let f0 = no_fields();
    let f1 = Fields { banner: true, ..f0 };
    let f2 = Fields { holder: b.holder, ..f1 };
    let f3 = Fields { expires: Some(b.expires), ..f2 };
    let f4 = Fields { branch: b.branch, ..f3 };
    let f5 = Fields { head: b.head, ..f4 };
    let f6 = Fields { next: b.next, ..f5 };
    let f7 = Fields { progress: b.progress, ..f6 };
    let f8 = Fields { nonce: b.nonce, ..f7 };
    assert(read_line(f0, bs[0]) == f1);
    assert("expires"@[1] != "holder"@[1]);
    assert("branch"@[0] != "holder"@[0]);
    assert("head"@[1] != "holder"@[1]);
    assert("next"@[0] != "head"@[0]);
    assert("progress"@[0] != "holder"@[0]);
    assert("nonce"@[0] != "holder"@[0]);
    assert(set_field(f1, "holder"@, b.holder) == f2);
    assert(set_field(f2, "expires"@, e) == f3);
    assert(set_field(f3, "branch"@, b.branch) == f4);
    assert(set_field(f4, "head"@, b.head) == f5);
    assert(set_field(f5, "next"@, b.next) == f6);
    assert(set_field(f6, "progress"@, b.progress) == f7);
    assert(set_field(f7, "nonce"@, b.nonce) == f8);
    assert(read_lines(bs, 8, f8) == f8);
    assert(read_lines(bs, 7, f7) == f8);
    assert(read_lines(bs, 6, f6) == f8);
    assert(read_lines(bs, 5, f5) == f8);
    assert(read_lines(bs, 4, f4) == f8);
    assert(read_lines(bs, 3, f3) == f8);
    assert(read_lines(bs, 2, f2) == f8);
    assert(read_lines(bs, 1, f1) == f8);
    assert(read_lines(bs, 0, f0) == f8);
}

/// A body survives being minted and read back: the lease commit carrying its
/// rendering, at any instant, is valid UTF-8 and reads back as that very
/// body, whenever no field holds a line feed or ends with a carriage return.
pub proof fn lemma_body_round_trip(b: BodyView, seconds: i64)
    requires
        fields_ok(b),
    ensures
        vstd::utf8::valid_utf8(lease_commit(render_text(b), seconds)),
        body_of_text(vstd::utf8::decode_utf8(lease_commit(render_text(b), seconds))) == Some(b),
{
    let m = render_text(b);
    let t = commit_text(LEASE_NAME@, LEASE_EMAIL@, m, seconds);
    vstd::utf8::encode_utf8_valid_utf8(t);
    vstd::utf8::encode_utf8_decode_utf8(t);
    lemma_commit_lines(m, seconds);
    lemma_render_lines(b);
    let hs = header_lines(seconds);
    let bs = body_lines(b);
    lemma_read_lines_concat(hs, bs, 0, no_fields());
    reveal_strlit("tree 4b825dc642cb6eb9a060e54bf8d69288fbee4904");
    reveal_strlit("author ");
    reveal_strlit("committer ");
    let f0 = no_fields();
    lemma_foreign_line(f0, hs[0]);
    lemma_foreign_line(f0, hs[1]);
    lemma_foreign_line(f0, hs[2]);
    lemma_foreign_line(f0, hs[3]);
    assert(read_lines(hs, 4, f0) == f0);
    assert(read_lines(hs, 3, f0) == f0);
    assert(read_lines(hs, 2, f0) == f0);
    assert(read_lines(hs, 1, f0) == f0);
    assert(read_lines(hs, 0, f0) == f0);
    lemma_read_body(b);
    assert(body_of_text(t) == Some(b));
}

// ---------------------------------------------------------------------------
// Minting
// ---------------------------------------------------------------------------

/// Whether a text is sixteen lower-case hex characters.
pub open spec fn is_nonce(s: Seq<char>) -> bool {
    s.len() == 16 && forall|i: int|
        0 <= i < 16 ==> ('0' <= #[trigger] s[i] <= '9' || 'a' <= s[i] <= 'f')
}

/// Bytes of entropy from the operating system.
///
/// Trusted: `getrandom::fill` over `n` zeroed bytes; where it succeeds the
/// answer is `n` bytes long. What they are rests on chance and is left
/// unsaid.
#[verifier::external_body]
fn random_bytes(n: usize) -> (r: Option<Vec<u8>>)
    ensures
        r is Some ==> r->0@.len() == n,
{
    let mut bytes = vec![0u8; n];
    getrandom::fill(&mut bytes).ok().map(|()| bytes)
}

/// Nanoseconds since the epoch on this machine's clock, truncated to 64 bits.
///
/// Trusted: `SystemTime::elapsed` on `UNIX_EPOCH`. It rests on the clock, so
/// nothing is stated of it.
#[verifier::external_body]
fn clock_nanos() -> u64 {
    std::time::UNIX_EPOCH.elapsed().map_or(0, |d| d.as_nanos() as u64)
}

proof fn lemma_hex_text_is_nonce(bytes: Seq<u8>)
    requires
        bytes.len() == 8,
    ensures
        is_nonce(hex_text(bytes)),
{
    lemma_hex_text_digits(bytes);
}

proof fn lemma_hex_text_digits(bytes: Seq<u8>)
    ensures
        hex_text(bytes).len() == 2 * bytes.len(),
        forall|i: int|
            0 <= i < hex_text(bytes).len() ==> ('0' <= #[trigger] hex_text(bytes)[i] <= '9' || 'a'
                <= hex_text(bytes)[i] <= 'f'),
    decreases bytes.len(),
{
    if bytes.len() > 0 {
        lemma_hex_text_digits(bytes.drop_last());
    }
}

/// The last `n` hex digits of a number, most significant first, in
/// lower case.
pub open spec fn hex_digits(v: nat, n: nat) -> Seq<char>
    decreases n,
{
    if n == 0 {
        seq![]
    } else {
        hex_digits(v / 16, (n - 1) as nat).push(crate::lease::pack::hex_char(v % 16))
    }
}

/// A number as sixteen lower-case hex digits, most significant first: the
/// `{:016x}` rendering of a 64-bit value.
pub open spec fn hex16_text(v: u64) -> Seq<char> {
    hex_digits(v as nat, 16)
}

proof fn lemma_hex_digits_are_hex(v: nat, n: nat)
    ensures
        hex_digits(v, n).len() == n,
        forall|i: int|
            0 <= i < n ==> ('0' <= #[trigger] hex_digits(v, n)[i] <= '9' || 'a' <= hex_digits(v, n)[i] <= 'f'),
    decreases n,
{
    if n > 0 {
        lemma_hex_digits_are_hex(v / 16, (n - 1) as nat);
    }
}

/// Sixteen hex digits of a number, most significant first.
fn hex16(v: u64) -> (r: String)
    ensures
        r@ == hex16_text(v),
{
    let mut out: Vec<char> = Vec::new();
    let mut x: u64 = v;
    let mut k: usize = 0;
    while k < 16
        invariant
            k <= 16,
            hex_digits(v as nat, 16) == hex_digits(x as nat, (16 - k) as nat) + out@,
        decreases 16 - k,
    {
        let d: u8 = (x % 16) as u8;
        let c = if d < 10 {
            (48u8 + d) as char
        } else {
            (87u8 + d) as char
        };
        proof {
            assert(c == crate::lease::pack::hex_char(x as nat % 16));
            assert(hex_digits(x as nat, (16 - k) as nat) == hex_digits((x / 16) as nat, (16 - k - 1) as nat).push(c));
            assert(hex_digits((x / 16) as nat, (16 - k - 1) as nat).push(c) + out@ == hex_digits(
                (x / 16) as nat,
                (16 - k - 1) as nat,
            ) + out@.insert(0, c));
        }
        out.insert(0, c);
        x = x / 16;
        k += 1;
    }
    proof {
        assert(hex_digits(x as nat, 0) + out@ == out@);
    }
    string_of(out.as_slice())
}

/// The nonce a mint carries, given what the operating system's entropy
/// source answered: eight drawn bytes as sixteen hex characters; where it
/// gave none, `fallback` as sixteen hex digits, so that two mints that both
/// failed to draw still differ wherever their fallbacks do rather than
/// agreeing on a constant.
pub fn nonce_from(drawn: Option<Vec<u8>>, fallback: u64) -> (r: String)
    requires
        drawn matches Some(b) ==> b@.len() == 8,
    ensures
        match drawn {
            Some(b) => r@ == hex_text(b@),
            None => r@ == hex16_text(fallback),
        },
        is_nonce(r@),
{
    match drawn {
        Some(bytes) => {
            proof {
                lemma_hex_text_is_nonce(bytes@);
            }
            crate::lease::pack::hex_of(bytes.as_slice())
        },
        None => {
            proof {
                lemma_hex_digits_are_hex(fallback as nat, 16);
            }
            hex16(fallback)
        },
    }
}

/// Sixteen hex characters of entropy, which is what keeps every mint
/// distinct: eight bytes drawn from the operating system, and where it
/// gives none, the clock's nanoseconds. What was drawn rests on chance; how
/// it is written is [`nonce_from`]'s exact contract.
pub fn nonce() -> (r: String)
    ensures
        is_nonce(r@),
{
    let drawn = random_bytes(8);
    let fallback = if drawn.is_none() {
        clock_nanos()
    } else {
        0
    };
    nonce_from(drawn, fallback)
}

} // verus!
