//! The decisions every lease verb takes over what a read of the lease found:
//! who may spend a matrix, who may take the lease, whether the holder is
//! still moving, and whether the ref is healthy.
//!
//! Every could-not-look here is a variant or a `None`, never an unheld lease:
//! an unreadable lease read as free is the misread that lets two sessions
//! land at once.

use vstd::prelude::*;
use vstd::string::StringExecFns;
use vstd::string::StringSliceAdditionalSpecFns;
use crate::json::Json;
use crate::lease::body::{Body, BodyView, body_view, is_nonce, nonce};
use crate::num::{clamp64, sat_mul, sat_neg, sat_sub};
use crate::text::{
    chars_of, int_string, int_text, same_string, starts_with, starts_with_str, strip_prefix,
    strip_prefix_exec, string_of,
};

verus! {

/// Where the lease lives, and the bounds it was pressure-tested into.
#[derive(Debug, Clone, PartialEq, Eq)]
pub struct Terms {
    /// The remote the lease lives on, as a URL the transport can reach.
    pub remote: String,
    /// The lease's own ref, never the branch a lease authorises.
    pub reference: String,
    /// How long a fresh lease lasts.
    pub ttl: i64,
    /// How often a holder re-mints it.
    pub beat: i64,
}

/// How many beats fit inside a term.
pub const BEATS_PER_TTL: i64 = 4;

/// The shipped term, in seconds.
pub const DEFAULT_TTL: i64 = 120;

impl Default for Terms {
    /// The shipped terms: `origin`, `refs/heads/batten-land-lock`, a
    /// 120-second term and a beat a quarter of it.
    fn default() -> (r: Self)
        ensures
            r.remote@ == "origin"@,
            r.reference@ == "refs/heads/batten-land-lock"@,
            r.ttl == 120,
            r.beat == 30,
    {
        Terms {
            remote: String::from_str("origin"),
            reference: String::from_str("refs/heads/batten-land-lock"),
            ttl: DEFAULT_TTL,
            beat: DEFAULT_TTL / BEATS_PER_TTL,
        }
    }
}

/// What a read of the remote lease found. Could-not-look is an error from the
/// reader and never a variant here.
#[derive(Debug, Clone, PartialEq, Eq)]
pub enum Observed {
    /// No lease ref on the remote. The next acquire wins.
    Absent,
    /// A lease is there, at `sha`, saying `body`.
    Held {
        /// The lease object's id — the swap's expected value.
        sha: String,
        /// What it says.
        body: Body,
    },
    /// The ref is there and carries no lease body. Every decision still
    /// treats it as held; only the report tells it apart.
    Garbage {
        /// The object the ref points at.
        sha: String,
        /// Why it did not read as a lease. A pointer, never the ref body.
        why: String,
    },
}

/// An observation as text.
pub enum ObservedView {
    Absent,
    Held(Seq<char>, BodyView),
    Garbage(Seq<char>, Seq<char>),
}

/// The view of an observation.
pub open spec fn observed_view(o: Observed) -> ObservedView {
    match o {
        Observed::Absent => ObservedView::Absent,
        Observed::Held { sha, body } => ObservedView::Held(sha@, body_view(body)),
        Observed::Garbage { sha, why } => ObservedView::Garbage(sha@, why@),
    }
}

/// May this branch spend a matrix right now?
#[derive(Debug, Clone, PartialEq, Eq)]
pub enum Authority {
    /// Run, for the reason given.
    Run(String),
    /// Stop: the lease authorises somebody else, named in the reason.
    Stop(String),
}

/// An authority as text: whether it runs, and why.
pub open spec fn authority_view(a: Authority) -> (bool, Seq<char>) {
    match a {
        Authority::Run(why) => (true, why@),
        Authority::Stop(why) => (false, why@),
    }
}

/// Whether a body is released or lapsed as of `now`.
pub open spec fn lapsed(b: BodyView, now: i64) -> bool {
    b.expires == 0 || now >= b.expires
}

/// The authority a reading gives `want`: could-not-look, a ref that will not
/// parse, an absent, released or lapsed lease and a lease naming no branch all
/// run; the branch the lease names runs, and so does its admitted successor;
/// every other branch stops, told which branch the lease authorises.
pub open spec fn authority_of(observed: Option<ObservedView>, want: Seq<char>, now: i64) -> (bool, Seq<char>) {
    match observed {
        None => (true, "cannot read the lease; running rather than stopping the fleet"@),
        Some(ObservedView::Garbage(_, _)) => (
            true,
            "the lease does not parse; running rather than stopping the fleet"@,
        ),
        Some(ObservedView::Absent) => (true, "no lease is held; "@ + want + " may run"@),
        Some(ObservedView::Held(_, b)) => if lapsed(b, now) {
            (true, "no lease is held; "@ + want + " may run"@)
        } else if b.branch.len() == 0 {
            (true, "the lease names no branch; running rather than guessing"@)
        } else if b.branch == want {
            (true, "the lease authorises "@ + want)
        } else if b.next.len() != 0 && b.next == want {
            (true, "the lease authorises "@ + want + " as the successor behind "@ + b.branch)
        } else {
            (false, "the lease authorises "@ + b.branch + ", not "@ + want)
        },
    }
}

/// Decide [`Authority`] over a lease reading.
///
/// `None` is could-not-look and answers `Run`: a lease it cannot read would
/// stop every job in the fleet, where waving one matrix through costs one
/// matrix.
pub fn authorises(observed: Option<&Observed>, want: &str, now: i64) -> (r: Authority)
    ensures
        authority_view(r) == authority_of(
            match observed {
                Some(o) => Some(observed_view(*o)),
                None => None,
            },
            want@,
            now,
        ),
{
    let body = match observed {
        None => {
            return Authority::Run(
                String::from_str("cannot read the lease; running rather than stopping the fleet"),
            );
        },
        Some(Observed::Garbage { .. }) => {
            return Authority::Run(
                String::from_str("the lease does not parse; running rather than stopping the fleet"),
            );
        },
        Some(Observed::Absent) => {
            let mut why = String::from_str("no lease is held; ");
            why.append(want);
            why.append(" may run");
            return Authority::Run(why);
        },
        Some(Observed::Held { body, .. }) => body,
    };
    if body.released() || body.expired(now) {
        let mut why = String::from_str("no lease is held; ");
        why.append(want);
        why.append(" may run");
        return Authority::Run(why);
    }
    if body.branch.as_str().is_empty() {
        proof {
            assert(body.branch@.len() == 0);
        }
        return Authority::Run(
            String::from_str("the lease names no branch; running rather than guessing"),
        );
    }
    proof {
        assert(body.branch@.len() != 0);
    }
    if same_string(body.branch.as_str(), want) {
        let mut why = String::from_str("the lease authorises ");
        why.append(want);
        return Authority::Run(why);
    }
    if !body.next.as_str().is_empty() && same_string(body.next.as_str(), want) {
        let mut why = String::from_str("the lease authorises ");
        why.append(want);
        why.append(" as the successor behind ");
        why.append(body.branch.as_str());
        return Authority::Run(why);
    }
    let mut why = String::from_str("the lease authorises ");
    why.append(body.branch.as_str());
    why.append(", not ");
    why.append(want);
    Authority::Stop(why)
}

/// Whether a reading leaves the clone that holds `holder` free to spend: an
/// absent, released or lapsed lease authorises every clone, a ref that will
/// not parse authorises none, and a live lease authorises its holder alone.
pub open spec fn authorises_clone(observed: ObservedView, holder: Seq<char>, now: i64) -> bool {
    match observed {
        ObservedView::Absent => true,
        ObservedView::Garbage(_, _) => false,
        ObservedView::Held(_, b) => lapsed(b, now) || b.holder == holder,
    }
}

/// Whether an observed lease leaves the clone reading it free to spend.
pub fn authorises_this_clone(observed: &Observed, holder: &str, now: i64) -> (r: bool)
    ensures
        r == authorises_clone(observed_view(*observed), holder@, now),
{
    let body = match observed {
        Observed::Absent => return true,
        Observed::Garbage { .. } => return false,
        Observed::Held { body, .. } => body,
    };
    if body.released() || body.expired(now) {
        return true;
    }
    same_string(body.holder.as_str(), holder)
}

// ---------------------------------------------------------------------------
// Minting bodies
// ---------------------------------------------------------------------------

/// The body a fresh claim mints: this holder for one term from now, on this
/// branch and head, with no successor and no progress token — the previous
/// holder's successor has had its admission.
pub fn claim(terms: &Terms, holder: &str, branch: &str, head: &str, now: i64) -> (r: Body)
    requires
        i64::MIN <= now + terms.ttl <= i64::MAX,
    ensures
        r.holder@ == holder@,
        r.expires == now + terms.ttl,
        r.branch@ == branch@,
        r.head@ == head@,
        r.next@ == Seq::<char>::empty(),
        r.progress@ == Seq::<char>::empty(),
        is_nonce(r.nonce@),
{
    Body {
        holder: String::from_str(holder),
        expires: now + terms.ttl,
        branch: String::from_str(branch),
        head: String::from_str(head),
        next: String::new(),
        progress: String::new(),
        nonce: nonce(),
    }
}

/// The body a release leaves behind: the same fields with the expiry at the
/// `0` sentinel and a fresh nonce — a declaration, not a delete.
pub fn tombstone(body: &Body) -> (r: Body)
    ensures
        body_view(r) == (BodyView { expires: 0, nonce: r.nonce@, ..body_view(*body) }),
        is_nonce(r.nonce@),
{
    Body {
        holder: body.holder.clone(),
        expires: 0,
        branch: body.branch.clone(),
        head: body.head.clone(),
        next: body.next.clone(),
        progress: body.progress.clone(),
        nonce: nonce(),
    }
}

/// The body a heartbeat mints: one term from now, the progress token given
/// (or the one it carried), a fresh nonce, and every other field — the
/// successor a waiter wrote above all — carried forward.
pub fn renewal(terms: &Terms, body: &Body, progress: Option<&str>, now: i64) -> (r: Body)
    requires
        i64::MIN <= now + terms.ttl <= i64::MAX,
    ensures
        body_view(r) == (BodyView {
            expires: (now + terms.ttl) as i64,
            progress: match progress {
                Some(p) => p@,
                None => body.progress@,
            },
            nonce: r.nonce@,
            ..body_view(*body)
        }),
        is_nonce(r.nonce@),
{
    Body {
        holder: body.holder.clone(),
        expires: now + terms.ttl,
        branch: body.branch.clone(),
        head: body.head.clone(),
        next: body.next.clone(),
        progress: match progress {
            Some(p) => String::from_str(p),
            None => body.progress.clone(),
        },
        nonce: nonce(),
    }
}

/// The body that fills the one successor slot: `next` becomes `want`, the
/// nonce is fresh, and every other field — the holder and the expiry above
/// all — is re-minted as it was. It is not a claim on the lease.
pub fn reservation(body: &Body, want: &str) -> (r: Body)
    ensures
        body_view(r) == (BodyView { next: want@, nonce: r.nonce@, ..body_view(*body) }),
        is_nonce(r.nonce@),
{
    Body {
        holder: body.holder.clone(),
        expires: body.expires,
        branch: body.branch.clone(),
        head: body.head.clone(),
        next: String::from_str(want),
        progress: body.progress.clone(),
        nonce: nonce(),
    }
}

/// A branch name without one leading `refs/heads/`, if it has one.
pub open spec fn branch_name(branch: Seq<char>) -> Seq<char> {
    match strip_prefix(branch, "refs/heads/"@) {
        Some(rest) => rest,
        None => branch,
    }
}

/// Whether a branch lands without ever taking the lease: it starts with one
/// of the declared prefixes, an empty prefix matching nothing.
pub open spec fn fast_forwarded(branch: Seq<char>, prefixes: Seq<Seq<char>>) -> bool {
    exists|i: int|
        0 <= i < prefixes.len() && #[trigger] prefixes[i].len() > 0 && starts_with(
            branch_name(branch),
            prefixes[i],
        )
}

/// Does this branch land without ever taking the lease?
///
/// A prefix on the branch — at most one `refs/heads/` removed — never a
/// substring anywhere in the ref; an empty prefix is a typo and exempts
/// nothing.
pub fn lands_by_fast_forward(branch: &str, prefixes: &[String]) -> (r: bool)
    ensures
        r == fast_forwarded(branch@, prefixes@.map_values(|p: String| p@)),
{
    let full = chars_of(branch);
    let name = match strip_prefix_exec(full.as_slice(), "refs/heads/") {
        Some(rest) => rest,
        None => full,
    };
    let ghost pv = prefixes@.map_values(|p: String| p@);
    let mut i: usize = 0;
    while i < prefixes.len()
        invariant
            i <= prefixes.len(),
            pv == prefixes@.map_values(|p: String| p@),
            name@ == branch_name(branch@),
            forall|j: int|
                0 <= j < i ==> !(#[trigger] pv[j].len() > 0 && starts_with(name@, pv[j])),
        decreases prefixes.len() - i,
    {
        if !prefixes[i].as_str().is_empty() && starts_with_str(name.as_slice(), prefixes[i].as_str()) {
            proof {
                assert(pv[i as int] == prefixes@[i as int]@);
            }
            return true;
        }
        proof {
            assert(pv[i as int] == prefixes@[i as int]@);
        }
        i += 1;
    }
    false
}

// ---------------------------------------------------------------------------
// Taking the lease
// ---------------------------------------------------------------------------

/// What a waiter may do about the lease it just read.
#[derive(Debug, Clone, PartialEq, Eq)]
pub enum Turn {
    /// This clone already holds it, and it has not lapsed.
    Mine,
    /// Take it. The reason is a pointer for the report, never a lease body.
    Take(String),
    /// Somebody else holds it and the evidence to take it does not exist.
    Wait,
}

/// A turn as text.
pub enum TurnView {
    Mine,
    Take(Seq<char>),
    Wait,
}

/// The view of a turn.
pub open spec fn turn_view(t: Turn) -> TurnView {
    match t {
        Turn::Mine => TurnView::Mine,
        Turn::Take(why) => TurnView::Take(why@),
        Turn::Wait => TurnView::Wait,
    }
}

/// The turn a reading gives the clone holding `holder`: a ref that will not
/// parse is waited out and an absent lease taken; a live lease of this
/// clone's own is its own; a released lease is taken without corroboration, a
/// lapsed one only once its object has sat unchanged for a beat on this
/// clock, and a live one only when it carries a progress token that has not
/// moved for the stall bound.
pub open spec fn turn_of(
    beat: i64,
    observed: ObservedView,
    holder: Seq<char>,
    held_for: i64,
    progress_for: i64,
    stall_beats: i64,
    now: i64,
) -> TurnView {
    match observed {
        ObservedView::Garbage(_, _) => TurnView::Wait,
        ObservedView::Absent => TurnView::Take("no lease is held"@),
        ObservedView::Held(_, b) => {
            let stall = clamp64(stall_beats * beat);
            if b.holder == holder && !(now >= b.expires) {
                TurnView::Mine
            } else if b.expires == 0 {
                TurnView::Take("took the lease "@ + b.holder + " released"@)
            } else if now >= b.expires && held_for >= beat {
                TurnView::Take(
                    "took the lease "@ + int_text(clamp64(now - b.expires) as int) + "s after "@
                        + b.holder + " stopped holding it"@,
                )
            } else if b.progress.len() != 0 && progress_for >= stall {
                TurnView::Take(
                    "took the lease from "@ + b.holder
                        + ", which was still beating but had not progressed in "@ + int_text(
                        progress_for as int,
                    ) + "s (stall bound: "@ + int_text(stall as int) + "s)"@,
                )
            } else {
                TurnView::Wait
            }
        },
    }
}

/// Decide a [`Turn`] over one observation.
///
/// `held_for` and `progress_for` are durations on this clock: expiry is an
/// instant on the holder's clock, and taking on it alone is what puts two
/// holders on one trunk.
pub fn turn(
    terms: &Terms,
    observed: &Observed,
    holder: &str,
    held_for: i64,
    progress_for: i64,
    stall_beats: i64,
    now: i64,
) -> (r: Turn)
    ensures
        turn_view(r) == turn_of(
            terms.beat,
            observed_view(*observed),
            holder@,
            held_for,
            progress_for,
            stall_beats,
            now,
        ),
{
    let body = match observed {
        Observed::Held { body, .. } => body,
        Observed::Garbage { .. } => return Turn::Wait,
        Observed::Absent => return Turn::Take(String::from_str("no lease is held")),
    };
    if same_string(body.holder.as_str(), holder) && !body.expired(now) {
        return Turn::Mine;
    }
    if body.released() {
        let mut why = String::from_str("took the lease ");
        why.append(body.holder.as_str());
        why.append(" released");
        return Turn::Take(why);
    }
    if body.expired(now) && held_for >= terms.beat {
        let mut why = String::from_str("took the lease ");
        let ago = int_string(sat_sub(now, body.expires));
        why.append(ago.as_str());
        why.append("s after ");
        why.append(body.holder.as_str());
        why.append(" stopped holding it");
        return Turn::Take(why);
    }
    let stall = sat_mul(stall_beats, terms.beat);
    if !body.progress.as_str().is_empty() && progress_for >= stall {
        let mut why = String::from_str("took the lease from ");
        why.append(body.holder.as_str());
        why.append(", which was still beating but had not progressed in ");
        let waited = int_string(progress_for);
        why.append(waited.as_str());
        why.append("s (stall bound: ");
        let bound = int_string(stall);
        why.append(bound.as_str());
        why.append("s)");
        return Turn::Take(why);
    }
    Turn::Wait
}

/// What the holder's own bookkeeping says about whether it is moving.
#[derive(Debug, Clone, Copy, PartialEq, Eq)]
pub struct Progress {
    /// The later of "a lap step began" and "the world moved".
    pub advance: i64,
    /// The last time a loop went round, whether or not it learned anything.
    pub tick_at: i64,
}

impl Progress {
    /// The opaque token a lease carries: the two stamps, dot-separated.
    pub fn token(self) -> (r: String)
        ensures
            r@ == int_text(self.advance as int) + "."@ + int_text(self.tick_at as int),
    {
        let mut out = int_string(self.advance);
        out.append(".");
        let tick = int_string(self.tick_at);
        out.append(tick.as_str());
        out
    }
}

/// What the heartbeat should do about the land it serves.
#[derive(Debug, Clone, PartialEq, Eq)]
pub enum Bail {
    /// Keep holding.
    Hold,
    /// Release and stop it, for the reason given.
    Stop(String),
}

/// A bail as text: `None` to hold, the reason to stop.
pub open spec fn bail_view(b: Bail) -> Option<Seq<char>> {
    match b {
        Bail::Hold => None,
        Bail::Stop(why) => Some(why@),
    }
}

/// Whether the land holding the lease is still moving: a land that never
/// registered is held; one that has not advanced for the stall bound is
/// stopped; and while a loop is ticking, one whose loop has not turned for
/// the hang bound is stopped too.
pub open spec fn bail_of(progress: Option<Progress>, beat: i64, stall_beats: i64, hang_beats: i64, now: i64) -> Option<Seq<char>> {
    match progress {
        None => None,
        Some(p) => if clamp64(now - p.advance) >= clamp64(stall_beats * beat) {
            Some("has not advanced in "@ + int_text(stall_beats as int) + " beats"@)
        } else if p.tick_at > p.advance && clamp64(now - p.tick_at) >= clamp64(hang_beats * beat) {
            Some("stopped turning "@ + int_text(hang_beats as int) + " beats ago"@)
        } else {
            None
        },
    }
}

/// Decide whether the land holding this lease is still moving.
pub fn bail(progress: Option<Progress>, terms: &Terms, stall_beats: i64, hang_beats: i64, now: i64) -> (r: Bail)
    ensures
        bail_view(r) == bail_of(progress, terms.beat, stall_beats, hang_beats, now),
{
    let progress = match progress {
        Some(p) => p,
        None => return Bail::Hold,
    };
    if sat_sub(now, progress.advance) >= sat_mul(stall_beats, terms.beat) {
        let mut why = String::from_str("has not advanced in ");
        let n = int_string(stall_beats);
        why.append(n.as_str());
        why.append(" beats");
        return Bail::Stop(why);
    }
    if progress.tick_at > progress.advance && sat_sub(now, progress.tick_at) >= sat_mul(
        hang_beats,
        terms.beat,
    ) {
        let mut why = String::from_str("stopped turning ");
        let n = int_string(hang_beats);
        why.append(n.as_str());
        why.append(" beats ago");
        return Bail::Stop(why);
    }
    Bail::Hold
}

// ---------------------------------------------------------------------------
// Health
// ---------------------------------------------------------------------------

/// The lease ref's health, as a gate rather than a report.
#[derive(Debug, Clone, PartialEq, Eq)]
pub enum Health {
    /// Nobody has taken it, a holder handed it back, or it lapsed.
    Free(String),
    /// Somebody is landing right now, within one term.
    Held(String),
    /// A horizon no legitimate mint produces.
    Wedged(String),
    /// The ref exists and is not a lease, or nobody can release it.
    Garbage(String),
}

/// A health verdict as text: which of the four, by number, and the reason.
pub open spec fn health_view(h: Health) -> (int, Seq<char>) {
    match h {
        Health::Free(why) => (0, why@),
        Health::Held(why) => (1, why@),
        Health::Wedged(why) => (2, why@),
        Health::Garbage(why) => (3, why@),
    }
}

impl Health {
    /// Whether this is a state a fleet can land through.
    pub fn healthy(&self) -> (r: bool)
        ensures
            r == (health_view(*self).0 <= 1),
    {
        match self {
            Health::Free(_) | Health::Held(_) => true,
            _ => false,
        }
    }
}

/// The admitted successor as a clause, or nothing when there is none.
pub open spec fn successor_text(b: BodyView) -> Seq<char> {
    if b.next.len() == 0 {
        seq![]
    } else {
        ", "@ + b.next + " admitted behind it"@
    }
}

/// The admitted successor as a clause, or the empty string.
fn successor_clause(body: &Body) -> (r: String)
    ensures
        r@ == successor_text(body_view(*body)),
{
    if body.next.as_str().is_empty() {
        return String::new();
    }
    let mut out = String::from_str(", ");
    out.append(body.next.as_str());
    out.append(" admitted behind it");
    out
}

/// The health of a reading: an absent lease is free; a ref that will not
/// parse, or a lease with no holder, is garbage; a released lease is free,
/// and so is a lapsed one; a horizon the expiry arithmetic cannot reach, or
/// one beyond a term, is wedged; anything else is held. Every verdict on a
/// lease names its holder and its admitted successor.
pub open spec fn health_of(observed: ObservedView, ttl: i64, now: i64) -> (int, Seq<char>) {
    match observed {
        ObservedView::Absent => (0, "absent — nobody holds the landing lease"@),
        ObservedView::Garbage(_, why) => (
            3,
            why + ". It reads as held, so landing is blocked until it expires or is overwritten"@,
        ),
        ObservedView::Held(_, b) => {
            let behind = successor_text(b);
            let left = b.expires - now;
            if b.holder.len() == 0 {
                (3, "a lease with no holder cannot be released by anyone"@)
            } else if b.expires == 0 {
                (0, "free — released by "@ + b.holder + behind)
            } else if left < i64::MIN || left > i64::MAX {
                (
                    2,
                    "held by "@ + b.holder + behind
                        + " with an expiry that will not compare — the body is not a lease this can read"@,
                )
            } else if left <= 0 {
                (0, "free — lapsed by "@ + b.holder + " "@ + int_text(clamp64(-left) as int) + "s ago"@ + behind)
            } else if left > ttl {
                (
                    2,
                    "held by "@ + b.holder + behind + " for another "@ + int_text(left) + "s, beyond the "@
                        + int_text(ttl as int) + "s any lease may claim"@,
                )
            } else {
                (1, "held by "@ + b.holder + behind + ", "@ + int_text(left) + "s left"@)
            }
        },
    }
}

/// Judge the lease ref's health. Reported, never repaired; pointer-only
/// throughout.
pub fn health(observed: &Observed, terms: &Terms, now: i64) -> (r: Health)
    ensures
        health_view(r) == health_of(observed_view(*observed), terms.ttl, now),
{
    let body = match observed {
        Observed::Absent => {
            return Health::Free(String::from_str("absent — nobody holds the landing lease"));
        },
        Observed::Garbage { why, .. } => {
            let mut out = why.clone();
            out.append(". It reads as held, so landing is blocked until it expires or is overwritten");
            return Health::Garbage(out);
        },
        Observed::Held { body, .. } => body,
    };
    if body.holder.as_str().is_empty() {
        return Health::Garbage(
            String::from_str("a lease with no holder cannot be released by anyone"),
        );
    }
    let behind = successor_clause(body);
    if body.released() {
        let mut out = String::from_str("free — released by ");
        out.append(body.holder.as_str());
        out.append(behind.as_str());
        return Health::Free(out);
    }
    let left = match body.expires.checked_sub(now) {
        Some(l) => l,
        None => {
            let mut out = String::from_str("held by ");
            out.append(body.holder.as_str());
            out.append(behind.as_str());
            out.append(
                " with an expiry that will not compare — the body is not a lease this can read",
            );
            return Health::Wedged(out);
        },
    };
    if left <= 0 {
        let mut out = String::from_str("free — lapsed by ");
        out.append(body.holder.as_str());
        out.append(" ");
        let ago = int_string(sat_neg(left));
        out.append(ago.as_str());
        out.append("s ago");
        out.append(behind.as_str());
        return Health::Free(out);
    }
    if left > terms.ttl {
        let mut out = String::from_str("held by ");
        out.append(body.holder.as_str());
        out.append(behind.as_str());
        out.append(" for another ");
        let l = int_string(left);
        out.append(l.as_str());
        out.append("s, beyond the ");
        let t = int_string(terms.ttl);
        out.append(t.as_str());
        out.append("s any lease may claim");
        return Health::Wedged(out);
    }
    let mut out = String::from_str("held by ");
    out.append(body.holder.as_str());
    out.append(behind.as_str());
    out.append(", ");
    let l = int_string(left);
    out.append(l.as_str());
    out.append("s left");
    Health::Held(out)
}

// ---------------------------------------------------------------------------
// The step-0 guard
// ---------------------------------------------------------------------------

/// What the staleness read decided.
#[derive(Debug, Clone, PartialEq, Eq)]
pub enum Carries {
    /// The head's history contains trunk's newest landing-mechanism commit.
    Current,
    /// It does not, so the head cannot be serialised against the fleet.
    Stale {
        /// Trunk's commit the head is missing. A pointer, never a diff.
        wanted: String,
    },
    /// The reading could not be taken, and the caller fails open on it.
    Unknown {
        /// What could not be read. A pointer for a human, never a payload.
        because: String,
    },
}

/// A staleness reading as text: `0` current, `1` stale, `2` unknown, and
/// the commit or the reason it carries.
pub open spec fn carries_view(c: Carries) -> (int, Seq<char>) {
    match c {
        Carries::Current => (0, seq![]),
        Carries::Stale { wanted } => (1, wanted@),
        Carries::Unknown { because } => (2, because@),
    }
}

/// The staleness decision over readings already taken: each reading that
/// could not be taken is its own unknown; otherwise the head carries the
/// wanted commit or is stale against it.
pub open spec fn decide_of(
    paths_empty: bool,
    head: Seq<char>,
    wanted: Option<Seq<char>>,
    ancestral: Option<bool>,
) -> (int, Seq<char>) {
    if paths_empty {
        (2, "no landing paths declared"@)
    } else if crate::text::trim(head).len() == 0 {
        (2, "no head sha in the environment"@)
    } else {
        match wanted {
            None => (2, "no landing commit readable at trunk"@),
            Some(w) => match ancestral {
                Some(true) => (0, seq![]),
                Some(false) => (1, w),
                None => (2, "the forge did not compare "@ + w + " with "@ + head),
            },
        }
    }
}

/// What a forge's compare answer says of whether a head carries a wanted
/// commit: `identical` and `ahead` carry it, `behind` and `diverged` do not,
/// and any other status (or a document without one) is no answer: a fifth
/// status means the contract moved.
pub open spec fn carried_of(document: Json) -> Option<bool> {
    match crate::json::member(document, "status"@) {
        Some(s) => match crate::json::text(s) {
            Some(t) => if t == "identical"@ || t == "ahead"@ {
                Some(true)
            } else if t == "behind"@ || t == "diverged"@ {
                Some(false)
            } else {
                None
            },
            None => None,
        },
        None => None,
    }
}

/// Whether a compare answer says the head carries the wanted commit.
pub fn carried(document: &Json) -> (r: Option<bool>)
    ensures
        r == carried_of(*document),
{
    match crate::json::member_of(document, "status") {
        Some(Json::Text(t)) => {
            let t = t.as_str();
            if same_string(t, "identical") || same_string(t, "ahead") {
                Some(true)
            } else if same_string(t, "behind") || same_string(t, "diverged") {
                Some(false)
            } else {
                None
            }
        },
        _ => None,
    }
}

/// The sha of the newest commit a commits listing names: its first entry's
/// `sha`, where that is a string.
pub open spec fn listed_sha(document: Json) -> Option<Seq<char>> {
    match crate::json::items(document) {
        Some(rows) => if rows.len() > 0 {
            match crate::json::member(rows[0], "sha"@) {
                Some(s) => crate::json::text(s),
                None => None,
            }
        } else {
            None
        },
        None => None,
    }
}

/// The sha a commits listing names first, where it names one.
pub fn first_listed(document: &Json) -> (r: Option<String>)
    ensures
        match r {
            Some(t) => listed_sha(*document) == Some(t@),
            None => listed_sha(*document) is None,
        },
{
    let rows = match document {
        Json::Array(rows) => rows,
        _ => return None,
    };
    if rows.len() == 0 {
        return None;
    }
    match crate::json::member_of(&rows[0], "sha") {
        Some(Json::Text(t)) => Some(t.clone()),
        _ => None,
    }
}

/// What one landing path's answer does to the newest landing commit found so
/// far.
#[derive(Debug, Clone, Copy, PartialEq, Eq)]
pub enum Landing {
    /// Nothing: the path is blank (a blank path asks about the whole
    /// repository), it named no commit, or it named the one already held.
    Keep,
    /// The first answer: it becomes the newest.
    Take,
    /// Ask the forge whether the candidate carries the one held; it is the
    /// later commit exactly when it does.
    Ask,
}

/// What one path's answer does: `path` is the declared path, `candidate`
/// the sha its listing named, `held` the newest so far.
pub open spec fn landing_of(held: Option<Seq<char>>, path: Seq<char>, candidate: Option<Seq<char>>) -> Landing {
    if path.len() == 0 {
        Landing::Keep
    } else {
        match candidate {
            None => Landing::Keep,
            Some(c) => match held {
                None => Landing::Take,
                Some(h) => if h == c {
                    Landing::Keep
                } else {
                    Landing::Ask
                },
            },
        }
    }
}

/// What one path's answer does to the newest landing commit so far. Every
/// candidate is on the trunk, so they are ordered by ancestry, and the
/// newest is the one that carries the others; where the forge cannot order
/// two of them, the whole reading is abandoned.
pub fn landing_step(held: Option<&str>, path: &str, candidate: Option<&str>) -> (r: Landing)
    ensures
        r == landing_of(
            match held {
                Some(h) => Some(h@),
                None => None,
            },
            path@,
            match candidate {
                Some(c) => Some(c@),
                None => None,
            },
        ),
{
    if path.unicode_len() == 0 {
        return Landing::Keep;
    }
    match candidate {
        None => Landing::Keep,
        Some(c) => match held {
            None => Landing::Take,
            Some(h) => {
                if same_string(h, c) {
                    Landing::Keep
                } else {
                    Landing::Ask
                }
            },
        },
    }
}

/// Whether the staleness read needs the forge at all: not where no landing
/// path is declared or the head is blank, where [`decide`] answers from the
/// inputs alone.
pub fn reads_forge(paths: &[String], head: &str) -> (r: bool)
    ensures
        r == (paths@.len() > 0 && crate::text::trim(head@).len() > 0),
{
    let hc = chars_of(head);
    let t = crate::text::trim_chars(hc.as_slice());
    paths.len() > 0 && t.len() > 0
}

/// The staleness decision, over readings the caller already took.
pub fn decide(paths: &[String], head: &str, wanted: Option<&str>, ancestral: Option<bool>) -> (r: Carries)
    ensures
        carries_view(r) == decide_of(
            paths@.len() == 0,
            head@,
            match wanted {
                Some(w) => Some(w@),
                None => None,
            },
            ancestral,
        ),
{
    if paths.len() == 0 {
        return Carries::Unknown { because: String::from_str("no landing paths declared") };
    }
    let head_chars = chars_of(head);
    let trimmed = crate::text::trim_chars(head_chars.as_slice());
    if trimmed.len() == 0 {
        return Carries::Unknown { because: String::from_str("no head sha in the environment") };
    }
    let wanted = match wanted {
        Some(w) => w,
        None => {
            return Carries::Unknown {
                because: String::from_str("no landing commit readable at trunk"),
            };
        },
    };
    match ancestral {
        Some(true) => Carries::Current,
        Some(false) => Carries::Stale { wanted: String::from_str(wanted) },
        None => {
            let mut because = String::from_str("the forge did not compare ");
            because.append(wanted);
            because.append(" with ");
            because.append(head);
            Carries::Unknown { because }
        },
    }
}

/// What the runner's step-0 guard decided.
#[derive(Debug, Clone, PartialEq, Eq)]
pub enum Guarded {
    /// Spend the matrix.
    Run {
        /// Why, as a pointer a human reads off a green step.
        why: String,
    },
    /// Do not. The caller cancels the run it is standing in.
    Stop {
        /// Why, with the remedy.
        why: String,
    },
}

/// A guard verdict as text: whether it runs, and why.
pub open spec fn guarded_view(g: Guarded) -> (bool, Seq<char>) {
    match g {
        Guarded::Run { why } => (true, why@),
        Guarded::Stop { why } => (false, why@),
    }
}

/// The guard over its two readings: a stale head stops without the lease
/// being consulted; otherwise the lease's own verdict stands (a reading that
/// could not be taken runs), prefixed by the staleness reading that could not
/// be taken, if there was one.
pub open spec fn guard_of(carries: (int, Seq<char>), authority: Option<(bool, Seq<char>)>) -> (bool, Seq<char>) {
    if carries.0 == 1 {
        (
            false,
            "this head does not carry "@ + carries.1
                + ", so it cannot be serialised against the fleet. Rebase onto current trunk and land with it."@,
        )
    } else {
        let unjudged = if carries.0 == 2 {
            carries.1 + "; not judging this head's age. "@
        } else {
            seq![]
        };
        match authority {
            Some((run, why)) => (run, unjudged + why),
            None => (true, unjudged + "the lease could not be read, so nothing refuses this branch"@),
        }
    }
}

/// The guard's decision over the two readings it composes. Every
/// could-not-look runs; only a head that provably does not carry trunk's
/// landing mechanism, or a lease that provably names somebody else, stops.
pub fn guard(carries: &Carries, authority: Option<&Authority>) -> (r: Guarded)
    ensures
        guarded_view(r) == guard_of(
            carries_view(*carries),
            match authority {
                Some(a) => Some(authority_view(*a)),
                None => None,
            },
        ),
{
    let unjudged = match carries {
        Carries::Stale { wanted } => {
            let mut why = String::from_str("this head does not carry ");
            why.append(wanted.as_str());
            why.append(
                ", so it cannot be serialised against the fleet. Rebase onto current trunk and land with it.",
            );
            return Guarded::Stop { why };
        },
        Carries::Unknown { because } => {
            let mut u = because.clone();
            u.append("; not judging this head's age. ");
            u
        },
        Carries::Current => String::new(),
    };
    match authority {
        Some(Authority::Stop(why)) => {
            let mut out = unjudged;
            out.append(why.as_str());
            Guarded::Stop { why: out }
        },
        Some(Authority::Run(why)) => {
            let mut out = unjudged;
            out.append(why.as_str());
            Guarded::Run { why: out }
        },
        None => {
            let mut out = unjudged;
            out.append("the lease could not be read, so nothing refuses this branch");
            Guarded::Run { why: out }
        },
    }
}

// ---------------------------------------------------------------------------
// Recorder answers
// ---------------------------------------------------------------------------

/// What a recorder column may ask the landing lease for.
#[derive(Debug, Clone, Copy, PartialEq, Eq)]
pub enum Asked {
    /// Does the lease authorise this clone right now?
    Status,
    /// Which branch, if any, the live holder admitted behind it.
    Successor,
}

/// One recorder answer, in exit-status-and-stdout form: could-not-look —
/// no reading, no holder identity, or a ref that will not parse, asked for a
/// status — answers `3`; a successor question answers `0` and the live
/// holder's successor (nothing where none stands) on a line; a status
/// question answers `0` where the lease authorises this clone and `2` where
/// it does not.
pub open spec fn adjudicate_of(
    asked: Asked,
    observed: Option<ObservedView>,
    holder: Option<Seq<char>>,
    now: i64,
) -> (i32, Seq<char>) {
    match observed {
        None => (3, seq![]),
        Some(o) => match asked {
            Asked::Successor => {
                let next = match o {
                    ObservedView::Held(_, b) => if !lapsed(b, now) {
                        b.next
                    } else {
                        seq![]
                    },
                    _ => seq![],
                };
                (0, next + "\n"@)
            },
            Asked::Status => match holder {
                None => (3, seq![]),
                Some(h) => if o is Garbage {
                    (3, seq![])
                } else if authorises_clone(o, h, now) {
                    (0, seq![])
                } else {
                    (2, seq![])
                },
            },
        },
    }
}

/// Answer a recorder column, over the lease reading (`None` where the terms
/// or the remote could not be read) and this clone's holder id (`None` where
/// it could not be read).
pub fn adjudicate(asked: Asked, observed: Option<&Observed>, holder: Option<&str>, now: i64) -> (r: Option<(i32, String)>)
    ensures
        r is Some,
        ((r->0).0, (r->0).1@) == adjudicate_of(
            asked,
            match observed {
                Some(o) => Some(observed_view(*o)),
                None => None,
            },
            match holder {
                Some(h) => Some(h@),
                None => None,
            },
            now,
        ),
{
    let unknown = Some((crate::exit::ExitCode::Internal.code(), String::new()));
    let observed = match observed {
        Some(o) => o,
        None => return unknown,
    };
    match asked {
        Asked::Successor => {
            let mut next = match observed {
                Observed::Held { body, .. } => if !body.released() && !body.expired(now) {
                    body.next.clone()
                } else {
                    String::new()
                },
                _ => String::new(),
            };
            next.append("\n");
            Some((0, next))
        },
        Asked::Status => {
            let holder = match holder {
                Some(h) => h,
                None => return unknown,
            };
            if let Observed::Garbage { .. } = observed {
                return unknown;
            }
            if authorises_this_clone(observed, holder, now) {
                Some((0, String::new()))
            } else {
                Some((crate::exit::ExitCode::Violation.code(), String::new()))
            }
        },
    }
}

// ---------------------------------------------------------------------------
// Terms
// ---------------------------------------------------------------------------

/// Why a clone has no lease terms.
#[derive(Debug, Clone, PartialEq, Eq)]
pub enum TermsMissing {
    /// No remote is configured, so this clone cannot participate in a lease.
    NoRemote,
    /// A remote exists and something about reading it failed.
    Unreadable(String),
}

impl TermsMissing {
    /// The diagnostic, for the arms that report one.
    pub fn say(&self, name: &str) -> (r: String)
        ensures
            r@ == match self {
                TermsMissing::NoRemote => "no remote named "@ + name@ + " is configured"@,
                TermsMissing::Unreadable(reason) => reason@,
            },
    {
        match self {
            TermsMissing::NoRemote => {
                let mut out = String::from_str("no remote named ");
                out.append(name);
                out.append(" is configured");
                out
            },
            TermsMissing::Unreadable(reason) => reason.clone(),
        }
    }
}

/// A positive whole number of seconds, as an environment variable spells
/// one: trimmed, read as a decimal `i64`, zero and negatives refused.
pub open spec fn positive_secs_of(raw: Seq<char>) -> Option<i64> {
    match crate::text::parse_i64(crate::text::trim(raw)) {
        Some(v) => if v > 0 {
            Some(v)
        } else {
            None
        },
        None => None,
    }
}

/// Read a positive whole number of seconds.
pub fn positive_secs(raw: &str) -> (r: Option<i64>)
    ensures
        r == positive_secs_of(raw@),
{
    let chars = chars_of(raw);
    let trimmed = crate::text::trim_chars(chars.as_slice());
    match crate::text::parse_i64_exec(trimmed.as_slice()) {
        Some(v) => if v > 0 {
            Some(v)
        } else {
            None
        },
        None => None,
    }
}

/// The URL of the first remote configured under `name`.
pub open spec fn remote_url(remotes: Seq<(Seq<char>, Seq<char>)>, name: Seq<char>, i: int) -> Option<Seq<char>>
    decreases remotes.len() - i,
{
    if i < 0 || i >= remotes.len() {
        None
    } else if remotes[i].0 == name {
        Some(remotes[i].1)
    } else {
        remote_url(remotes, name, i + 1)
    }
}

/// A term and a beat with the beat put back inside the term: where four
/// beats no longer fit, the beat becomes a quarter of the term, and at least
/// a second. The term is the outer bound an operator raised on purpose, so it
/// is the half that stays.
pub open spec fn fitted_beat(ttl: i64, beat: i64) -> i64 {
    if clamp64(beat * 4) > ttl {
        if ttl / 4 >= 1 {
            (ttl / 4) as i64
        } else {
            1
        }
    } else {
        beat
    }
}

/// Resolve the lease's terms from what the checkout and its environment
/// say: the URL of the remote named `name`, the shipped term and beat unless
/// the environment sets positive ones, the beat fitted back inside the term,
/// and the lease's ref under `refs/heads/` where a branch is named.
pub fn terms_from(
    remotes: &[(String, String)],
    name: &str,
    ttl: Option<&str>,
    beat: Option<&str>,
    branch: Option<&str>,
) -> (r: Result<Terms, TermsMissing>)
    ensures
        remote_url(remotes@.map_values(|p: (String, String)| (p.0@, p.1@)), name@, 0) is None
            ==> r == Err::<Terms, TermsMissing>(TermsMissing::NoRemote),
        remote_url(remotes@.map_values(|p: (String, String)| (p.0@, p.1@)), name@, 0) is Some ==> {
            let url = remote_url(remotes@.map_values(|p: (String, String)| (p.0@, p.1@)), name@, 0)->0;
            let t = match ttl {
                Some(raw) => match positive_secs_of(raw@) {
                    Some(v) => v,
                    None => 120,
                },
                None => 120,
            };
            let b = match beat {
                Some(raw) => match positive_secs_of(raw@) {
                    Some(v) => v,
                    None => 30,
                },
                None => 30,
            };
            &&& r is Ok
            &&& (r->Ok_0).remote@ == url
            &&& (r->Ok_0).ttl == t
            &&& (r->Ok_0).beat == fitted_beat(t, b)
            &&& (r->Ok_0).reference@ == match branch {
                Some(name) => "refs/heads/"@ + name@,
                None => "refs/heads/batten-land-lock"@,
            }
        },
        r is Ok ==> (r->Ok_0).ttl >= 1 && (r->Ok_0).beat >= 1 && ((r->Ok_0).beat * 4 <= (
        r->Ok_0).ttl || (r->Ok_0).beat == 1 || (r->Ok_0).ttl == i64::MAX),
{
    let ghost rv = remotes@.map_values(|p: (String, String)| (p.0@, p.1@));
    let mut i: usize = 0;
    while i < remotes.len()
        invariant
            i <= remotes.len(),
            rv == remotes@.map_values(|p: (String, String)| (p.0@, p.1@)),
            remote_url(rv, name@, 0) == remote_url(rv, name@, i as int),
        ensures
            i <= remotes.len(),
            remote_url(rv, name@, 0) == remote_url(rv, name@, i as int),
            i < remotes.len() ==> rv[i as int].0 == name@,
        decreases remotes.len() - i,
    {
        if same_string(remotes[i].0.as_str(), name) {
            break;
        }
        i += 1;
    }
    if i == remotes.len() {
        return Err(TermsMissing::NoRemote);
    }
    let mut resolved = Terms::default();
    resolved.remote = remotes[i].1.clone();
    match ttl {
        Some(raw) => match positive_secs(raw) {
            Some(v) => {
                resolved.ttl = v;
            },
            None => {},
        },
        None => {},
    }
    match beat {
        Some(raw) => match positive_secs(raw) {
            Some(v) => {
                resolved.beat = v;
            },
            None => {},
        },
        None => {},
    }
    if sat_mul(resolved.beat, BEATS_PER_TTL) > resolved.ttl {
        let quarter = resolved.ttl / BEATS_PER_TTL;
        resolved.beat = if quarter >= 1 {
            quarter
        } else {
            1
        };
        proof {
            assert(quarter * 4 <= resolved.ttl) by (nonlinear_arith)
                requires
                    quarter == resolved.ttl / 4,
                    resolved.ttl >= 1,
            {
            }
        }
    }
    match branch {
        Some(name) => {
            let mut reference = String::from_str("refs/heads/");
            reference.append(name);
            resolved.reference = reference;
        },
        None => {},
    }
    Ok(resolved)
}

// ---------------------------------------------------------------------------
// Readings the caller takes from disk
// ---------------------------------------------------------------------------

/// The stamp a registry entry records under `key`: the first line reading
/// `key: ` and a value, the value trimmed and read as a number, or `0` where
/// there is no such line or its value is not a number.
pub open spec fn stamp_from(ls: Seq<Seq<char>>, key: Seq<char>, i: int) -> i64
    decreases ls.len() - i,
{
    if i < 0 || i >= ls.len() {
        0
    } else {
        match strip_prefix(ls[i], key + ": "@) {
            Some(rest) => match crate::text::parse_i64(crate::text::trim(rest)) {
                Some(v) => v,
                None => 0,
            },
            None => stamp_from(ls, key, i + 1),
        }
    }
}

/// The progress a registry entry records: the advance is the later of
/// `phase_since` and `sig_at`, and an entry whose advance is zero is no
/// evidence at all.
pub open spec fn progress_of_text(text: Seq<char>) -> Option<Progress> {
    let ls = crate::text::lines(text);
    let phase = stamp_from(ls, "phase_since"@, 0);
    let sig = stamp_from(ls, "sig_at"@, 0);
    let advance = if phase >= sig {
        phase
    } else {
        sig
    };
    if advance == 0 {
        None
    } else {
        Some(Progress { advance, tick_at: stamp_from(ls, "tick_at"@, 0) })
    }
}

fn stamp(ls: &Vec<Vec<char>>, key: &str) -> (r: i64)
    ensures
        r == stamp_from(crate::text::views(ls@), key@, 0),
{
    let ghost lv = crate::text::views(ls@);
    let mut prefix = String::from_str(key);
    prefix.append(": ");
    let mut i: usize = 0;
    while i < ls.len()
        invariant
            i <= ls.len(),
            lv == crate::text::views(ls@),
            prefix@ == key@ + ": "@,
            stamp_from(lv, key@, 0) == stamp_from(lv, key@, i as int),
        decreases ls.len() - i,
    {
        proof {
            assert(lv[i as int] == ls@[i as int]@);
        }
        match strip_prefix_exec(ls[i].as_slice(), prefix.as_str()) {
            Some(rest) => {
                let trimmed = crate::text::trim_chars(rest.as_slice());
                return match crate::text::parse_i64_exec(trimmed.as_slice()) {
                    Some(v) => v,
                    None => 0,
                };
            },
            None => {},
        }
        i += 1;
    }
    0
}

/// Read a task's progress stamps out of the registry entry the task runner
/// wrote. `None` where there is nothing to read: a land whose bookkeeping
/// never registered is not evidence of a stall.
pub fn progress_in(text: &str) -> (r: Option<Progress>)
    ensures
        r == progress_of_text(text@),
{
    let chars = chars_of(text);
    let ls = crate::text::lines_exec(chars.as_slice());
    let phase = stamp(&ls, "phase_since");
    let sig = stamp(&ls, "sig_at");
    let advance = if phase >= sig {
        phase
    } else {
        sig
    };
    if advance == 0 {
        return None;
    }
    Some(Progress { advance, tick_at: stamp(&ls, "tick_at") })
}

/// Whether a byte is in RFC 3986's unreserved set.
pub open spec fn unreserved(b: u8) -> bool {
    (48 <= b <= 57) || (65 <= b <= 90) || (97 <= b <= 122) || b == 45 || b == 46 || b == 95 || b
        == 126
}

/// The upper-case hex digit for a value below sixteen.
pub open spec fn upper_hex(d: nat) -> char {
    if d < 10 {
        (48 + d) as char
    } else {
        (55 + d) as char
    }
}

/// Bytes percent-encoded: the unreserved ones as themselves, every other as
/// `%` and two upper-case hex digits.
pub open spec fn percent_encoded(bytes: Seq<u8>) -> Seq<char>
    decreases bytes.len(),
{
    if bytes.len() == 0 {
        seq![]
    } else {
        let b = bytes.last();
        percent_encoded(bytes.drop_last()) + if unreserved(b) {
            seq![b as char]
        } else {
            seq!['%', upper_hex(b as nat / 16), upper_hex(b as nat % 16)]
        }
    }
}

fn upper_digit(d: u8) -> (c: char)
    requires
        d < 16,
    ensures
        c == upper_hex(d as nat),
{
    if d < 10 {
        (48u8 + d) as char
    } else {
        (55u8 + d) as char
    }
}

/// Percent-encode one query value: everything outside `A-Za-z0-9-._~` is
/// escaped, the conservative direction.
pub fn query_value(raw: &str) -> (r: String)
    ensures
        r@ == percent_encoded(raw.spec_bytes()),
{
    let bytes = raw.as_bytes();
    let mut out: Vec<char> = Vec::new();
    let mut i: usize = 0;
    while i < bytes.len()
        invariant
            i <= bytes.len(),
            out@ == percent_encoded(bytes@.subrange(0, i as int)),
        decreases bytes.len() - i,
    {
        let b = bytes[i];
        proof {
            assert(bytes@.subrange(0, i + 1).drop_last() == bytes@.subrange(0, i as int));
        }
        if (48 <= b && b <= 57) || (65 <= b && b <= 90) || (97 <= b && b <= 122) || b == 45 || b
            == 46 || b == 95 || b == 126 {
            out.push(b as char);
        } else {
            out.push('%');
            out.push(upper_digit(b / 16));
            out.push(upper_digit(b % 16));
        }
        i += 1;
    }
    proof {
        assert(bytes@.subrange(0, bytes.len() as int) == bytes@);
    }
    string_of(out.as_slice())
}


/// A process's command line as one string: its arguments, NUL-separated as
/// the kernel records them, read as text with each NUL made a space.
pub open spec fn command_line(raw: Seq<u8>) -> Seq<char> {
    crate::lease::wire::utf8_lossy(raw).map_values(|c: char| if c == '\0' { ' ' } else { c })
}

/// Whether a lease's holder is still alive, from the command line of the
/// process its pid names: the pid must still be a process whose command
/// line carries `marker`, because pids recycle. A command line that could
/// not be read — no such process, or no `/proc` on this platform — reads as
/// gone: a wrongly released lease costs one lap, a wrongly renewed one
/// wedges the fleet.
pub fn holder_alive(cmdline: Option<&[u8]>, marker: &str) -> (r: bool)
    ensures
        match cmdline {
            None => !r,
            Some(raw) => r == crate::text::contains(command_line(raw@), marker@),
        },
{
    let Some(raw) = cmdline else {
        return false;
    };
    let text = crate::lease::wire::lossy_text(raw);
    let chars = chars_of(text.as_str());
    let mut spaced: Vec<char> = Vec::new();
    let mut i: usize = 0;
    while i < chars.len()
        invariant
            i <= chars.len(),
            chars@ == crate::lease::wire::utf8_lossy(raw@),
            spaced@ == command_line(raw@).subrange(0, i as int),
        decreases chars.len() - i,
    {
        let c = chars[i];
        spaced.push(if c == '\0' { ' ' } else { c });
        i += 1;
    }
    proof {
        assert(command_line(raw@).subrange(0, chars.len() as int) == command_line(raw@));
    }
    crate::text::contains_exec(spaced.as_slice(), marker)
}

// ---------------------------------------------------------------------------
// What the decisions keep
// ---------------------------------------------------------------------------

/// A released lease authorises everyone without consulting the clock: a body
/// whose expiry is the release sentinel lets every branch run and every
/// clone spend, whatever the time.
pub proof fn lemma_release_frees_everyone(sha: Seq<char>, b: BodyView, want: Seq<char>, holder: Seq<char>, now: i64)
    requires
        b.expires == 0,
    ensures
        authority_of(Some(ObservedView::Held(sha, b)), want, now).0,
        authorises_clone(ObservedView::Held(sha, b), holder, now),
{
}

/// A live lease authorises its holder and nobody else: while it has neither
/// lapsed nor been released, a clone may spend exactly when it is the
/// holder.
pub proof fn lemma_live_lease_authorises_its_holder_alone(sha: Seq<char>, b: BodyView, holder: Seq<char>, now: i64)
    requires
        !lapsed(b, now),
    ensures
        authorises_clone(ObservedView::Held(sha, b), holder, now) <==> holder == b.holder,
{
}

/// A lease that will not parse authorises no clone, whatever the time.
pub proof fn lemma_garbage_authorises_no_clone(sha: Seq<char>, why: Seq<char>, holder: Seq<char>, now: i64)
    ensures
        !authorises_clone(ObservedView::Garbage(sha, why), holder, now),
        authority_of(Some(ObservedView::Garbage(sha, why)), holder, now).0,
{
}

/// The admitted successor runs beside the holder: under a live lease naming
/// a branch and a successor, both run, and every other branch stops.
pub proof fn lemma_successor_runs_beside_the_holder(sha: Seq<char>, b: BodyView, want: Seq<char>, now: i64)
    requires
        !lapsed(b, now),
        b.branch.len() != 0,
    ensures
        authority_of(Some(ObservedView::Held(sha, b)), b.branch, now).0,
        b.next.len() != 0 ==> authority_of(Some(ObservedView::Held(sha, b)), b.next, now).0,
        authority_of(Some(ObservedView::Held(sha, b)), want, now).0 <==> (want == b.branch || (
        b.next.len() != 0 && want == b.next)),
{
}

/// A reservation leaves the holder holding: a body whose successor slot and
/// nonce alone were re-minted authorises exactly the clones the body it
/// came from did, at every instant.
pub proof fn lemma_reservation_keeps_the_holder(
    sha: Seq<char>,
    b: BodyView,
    want: Seq<char>,
    fresh: Seq<char>,
    holder: Seq<char>,
    now: i64,
)
    ensures
        authorises_clone(
            ObservedView::Held(sha, BodyView { next: want, nonce: fresh, ..b }),
            holder,
            now,
        ) == authorises_clone(ObservedView::Held(sha, b), holder, now),
{
}

/// A heartbeat keeps the lease with its holder for one term: the body a
/// renewal mints at `now` authorises its holder, and nobody else, at every
/// instant before the new expiry.
pub proof fn lemma_renewal_keeps_the_holder_for_a_term(
    sha: Seq<char>,
    b: BodyView,
    ttl: i64,
    now: i64,
    progress: Seq<char>,
    fresh: Seq<char>,
    later: i64,
    holder: Seq<char>,
)
    requires
        0 <= now,
        0 < ttl,
        now + ttl <= i64::MAX,
        now <= later < now + ttl,
    ensures
        authorises_clone(
            ObservedView::Held(
                sha,
                BodyView { expires: (now + ttl) as i64, progress, nonce: fresh, ..b },
            ),
            holder,
            later,
        ) <==> holder == b.holder,
{
}

/// A live lease another clone holds is taken only as a stalled one: while
/// it is neither released nor past its expiry, the turn is never this
/// clone's, it is `Take` only where the lease carries a progress token that
/// has not moved for the stall bound (`stall_beats` beats), and a lease whose
/// progress moved more recently than that bound is waited on.
pub proof fn lemma_a_progressing_live_lease_is_waited_on(
    beat: i64,
    sha: Seq<char>,
    b: BodyView,
    holder: Seq<char>,
    held_for: i64,
    progress_for: i64,
    stall_beats: i64,
    now: i64,
)
    requires
        b.holder != holder,
        b.expires != 0,
        now < b.expires,
    ensures
        turn_of(beat, ObservedView::Held(sha, b), holder, held_for, progress_for, stall_beats, now)
            != TurnView::Mine,
        turn_of(beat, ObservedView::Held(sha, b), holder, held_for, progress_for, stall_beats, now)
            is Take ==> b.progress.len() > 0 && progress_for >= clamp64(stall_beats * beat),
        progress_for < clamp64(stall_beats * beat) ==> turn_of(
            beat,
            ObservedView::Held(sha, b),
            holder,
            held_for,
            progress_for,
            stall_beats,
            now,
        ) == TurnView::Wait,
        b.progress.len() == 0 ==> turn_of(
            beat,
            ObservedView::Held(sha, b),
            holder,
            held_for,
            progress_for,
            stall_beats,
            now,
        ) == TurnView::Wait,
{
}

/// Only a live lease names a successor: asked for the successor over a
/// lease that is released (`expires` of `0`) or lapsed (`now` at or past its
/// expiry), the answer is an empty line, whatever the lease's `next` says;
/// over a live one it is that `next`.
pub proof fn lemma_only_a_live_lease_names_a_successor(
    sha: Seq<char>,
    b: BodyView,
    holder: Option<Seq<char>>,
    now: i64,
)
    ensures
        (b.expires == 0 || now >= b.expires) ==> adjudicate_of(
            Asked::Successor,
            Some(ObservedView::Held(sha, b)),
            holder,
            now,
        ) == (0i32, "\n"@),
        (b.expires != 0 && now < b.expires) ==> adjudicate_of(
            Asked::Successor,
            Some(ObservedView::Held(sha, b)),
            holder,
            now,
        ) == (0i32, b.next + "\n"@),
{
    assert(Seq::<char>::empty() + "\n"@ == "\n"@);
}

/// The other ways a turn falls: a ref that will not parse is waited out;
/// an absent lease is taken; a clone's own live lease is its own; a lapsed
/// lease is taken on its expiry only once it has sat unchanged for a beat
/// on this clock, and until then (short of a stalled progress token) it is
/// waited on.
pub proof fn lemma_a_turn_is_taken_only_on_evidence(
    beat: i64,
    observed: ObservedView,
    holder: Seq<char>,
    held_for: i64,
    progress_for: i64,
    stall_beats: i64,
    now: i64,
)
    ensures
        observed is Garbage ==> turn_of(beat, observed, holder, held_for, progress_for, stall_beats, now)
            == TurnView::Wait,
        observed is Absent ==> turn_of(beat, observed, holder, held_for, progress_for, stall_beats, now)
            is Take,
        observed matches ObservedView::Held(_, b) ==> (b.holder == holder && now < b.expires ==> turn_of(
            beat,
            observed,
            holder,
            held_for,
            progress_for,
            stall_beats,
            now,
        ) == TurnView::Mine),
        observed matches ObservedView::Held(_, b) ==> (b.holder != holder && b.expires != 0 && now
            >= b.expires && held_for < beat && (b.progress.len() == 0 || progress_for < clamp64(
            stall_beats * beat,
        )) ==> turn_of(beat, observed, holder, held_for, progress_for, stall_beats, now)
            == TurnView::Wait),
        turn_of(beat, observed, holder, held_for, progress_for, stall_beats, now) is Take ==> match observed {
            ObservedView::Absent => true,
            ObservedView::Garbage(_, _) => false,
            ObservedView::Held(_, b) => b.expires == 0 || (now >= b.expires && held_for >= beat) || (
            b.progress.len() > 0 && progress_for >= clamp64(stall_beats * beat)),
        },
{
}

} // verus!
