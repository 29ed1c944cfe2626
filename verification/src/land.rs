//! The landing lap's records and decisions.
//!
//! A lap is fetch, replay, verify, ready, push, wait, fast-forward, and a
//! refusal starts the next one by itself. This module writes down what each
//! step did — one four-column record line per outcome, led by its kind — and
//! holds the one table that says what a lap does with a step's answer, the
//! ledger that counts what a lap spent, and the two small decisions over the
//! forge's readings.

use vstd::prelude::*;
use vstd::string::StringExecFns;
use crate::exit::ExitCode;
use crate::json::{Json, items, member, member_of, text};
use crate::text::{
    chars_of, lines, lines_exec, same_string, split, split_exec, starts_with, starts_with_str,
    string_of, string_views, trim, trim_chars, views, words, words_exec,
};

verus! {

// ---------------------------------------------------------------------------
// Replay
// ---------------------------------------------------------------------------

/// What one replay did. None of the three is an error.
#[derive(Debug, Clone, PartialEq, Eq)]
pub enum Replay {
    /// Two sides changed the same lines: the one human stop. Nothing moved.
    Conflicted {
        /// The original commit that would not replay.
        commit: String,
        /// The paths that would not merge, in the order the merge reported.
        paths: Vec<String>,
    },
    /// The branch already descended from the base; nothing was replayed.
    Current,
    /// The branch was replayed onto the moved base.
    Replayed {
        /// The sha the branch now points at.
        head: String,
        /// How many commits were replayed.
        commits: usize,
    },
}

/// The record line a replay writes: `rebase <outcome> <commit> <path>`, with
/// `-` for a column that has nothing to point at. A conflict names its first
/// path only.
pub open spec fn replay_line(r: Replay) -> Seq<char> {
    match r {
        Replay::Conflicted { commit, paths } => "rebase conflicted "@ + commit@ + " "@ + if paths@.len()
            > 0 {
            paths@[0]@
        } else {
            "-"@
        },
        Replay::Current => "rebase current - -"@,
        Replay::Replayed { head, .. } => "rebase replayed "@ + head@ + " -"@,
    }
}

impl Replay {
    /// The record line this outcome writes.
    pub fn line(&self) -> (r: String)
        ensures
            r@ == replay_line(*self),
    {
        match self {
            Replay::Conflicted { commit, paths } => {
                let mut out = String::from_str("rebase conflicted ");
                out.append(commit.as_str());
                out.append(" ");
                if paths.len() > 0 {
                    out.append(paths[0].as_str());
                } else {
                    out.append("-");
                }
                out
            },
            Replay::Current => String::from_str("rebase current - -"),
            Replay::Replayed { head, .. } => {
                let mut out = String::from_str("rebase replayed ");
                out.append(head.as_str());
                out.append(" -");
                out
            },
        }
    }
}

/// Walking back from `j`, the index just after the last `c`, or `0` where
/// there is none.
pub open spec fn after_last(s: Seq<char>, c: char, j: int) -> int
    decreases j,
{
    if j <= 0 || j > s.len() {
        0
    } else if s[j - 1] == c {
        j
    } else {
        after_last(s, c, j - 1)
    }
}

/// Where a remote reference is tracked locally: its last `/`-separated
/// segment under `refs/remotes/origin/`.
pub open spec fn tracking_of(reference: Seq<char>) -> Seq<char> {
    "refs/remotes/origin/"@ + reference.subrange(
        after_last(reference, '/', reference.len() as int),
        reference.len() as int,
    )
}

proof fn lemma_after_last_bounds(s: Seq<char>, c: char, j: int)
    requires
        0 <= j <= s.len(),
    ensures
        0 <= after_last(s, c, j) <= j,
    decreases j,
{
    if j > 0 && s[j - 1] != c {
        lemma_after_last_bounds(s, c, j - 1);
    }
}

/// Where a remote reference is tracked locally.
pub fn tracking_ref(reference: &str) -> (r: String)
    ensures
        r@ == tracking_of(reference@),
{
    let chars = chars_of(reference);
    let mut j: usize = chars.len();
    while j > 0 && chars[j - 1] != '/'
        invariant
            j <= chars.len(),
            after_last(chars@, '/', chars@.len() as int) == after_last(chars@, '/', j as int),
        decreases j,
    {
        j -= 1;
    }
    let leaf = crate::text::slice_of(chars.as_slice(), j, chars.len());
    let mut out = String::from_str("refs/remotes/origin/");
    let leaf_text = string_of(leaf.as_slice());
    out.append(leaf_text.as_str());
    out
}

/// The record this module writes.
pub const LAP_RECORD: &'static str = "lap";

// ---------------------------------------------------------------------------
// The raced wait
// ---------------------------------------------------------------------------

/// Which arm of the lap's raced wait an answer came from.
#[derive(Debug, Clone, Copy, PartialEq, Eq)]
pub enum Arm {
    /// Is the commit green?
    Green,
    /// Has the base moved out from under it?
    Stale,
}

/// The token an arm writes.
pub open spec fn arm_token(a: Arm) -> Seq<char> {
    match a {
        Arm::Green => "green"@,
        Arm::Stale => "stale"@,
    }
}

impl Arm {
    /// The token this arm writes into the record's second column.
    pub fn token(self) -> (r: &'static str)
        ensures
            r@ == arm_token(self),
    {
        match self {
            Arm::Green => "green",
            Arm::Stale => "stale",
        }
    }
}

/// One arm's answer, or its silence. A loser is recorded, as could-not-look.
#[derive(Debug, Clone, PartialEq, Eq)]
pub struct Answered {
    /// Which question this is.
    pub arm: Arm,
    /// What it answered, or `None` where it was abandoned unread.
    pub verdict: Option<String>,
    /// The commit the question was about.
    pub sha: String,
}

/// The record line an answer writes: `wait <arm> <answer> <sha>`, `-` for
/// an answer nobody read.
pub open spec fn answered_line(a: Answered) -> Seq<char> {
    "wait "@ + arm_token(a.arm) + " "@ + match a.verdict {
        Some(v) => v@,
        None => "-"@,
    } + " "@ + a.sha@
}

impl Answered {
    /// The record line this answer writes.
    pub fn line(&self) -> (r: String)
        ensures
            r@ == answered_line(*self),
    {
        let mut out = String::from_str("wait ");
        out.append(self.arm.token());
        out.append(" ");
        match &self.verdict {
            Some(v) => out.append(v.as_str()),
            None => out.append("-"),
        }
        out.append(" ");
        out.append(self.sha.as_str());
        out
    }
}

/// How a lap's wait ended.
#[derive(Debug, Clone, PartialEq, Eq)]
pub enum Waited {
    /// The green question answered first.
    Green {
        /// The forge's answer, as a token.
        verdict: String,
    },
    /// The staleness question answered first: the base moved.
    Stale {
        /// Where the base points now.
        base: String,
    },
    /// Neither question answered inside the lap's bound.
    Unanswered,
}

/// A wait's ending as plain values.
pub enum WaitedView {
    Green(Seq<char>),
    Stale(Seq<char>),
    Unanswered,
}

/// The view of a wait's ending.
pub open spec fn waited_view(w: Waited) -> WaitedView {
    match w {
        Waited::Green { verdict } => WaitedView::Green(verdict@),
        Waited::Stale { base } => WaitedView::Stale(base@),
        Waited::Unanswered => WaitedView::Unanswered,
    }
}

/// The race between a wait's two questions. The first answer offered is the
/// verdict; every later one is voided by construction rather than by a
/// caller remembering to drop it, and each arm stops asking once the race
/// is settled.
pub struct Race {
    verdict: Option<Waited>,
}

impl Race {
    /// The answer that won, if one has.
    pub closed spec fn won(self) -> Option<WaitedView> {
        match self.verdict {
            Some(w) => Some(waited_view(w)),
            None => None,
        }
    }

    /// A race nobody has answered.
    pub fn new() -> (r: Race)
        ensures
            r.won() is None,
    {
        Race { verdict: None }
    }

    /// Whether an answer has come, which is what stops each arm asking again.
    pub fn settled(&self) -> (r: bool)
        ensures
            r == self.won() is Some,
    {
        self.verdict.is_some()
    }

    /// Offer an arm's answer: it decides the race if nothing has, and is
    /// voided otherwise. Whether it decided comes back.
    pub fn offer(&mut self, answer: Waited) -> (decided: bool)
        ensures
            decided == old(self).won() is None,
            decided ==> final(self).won() == Some(waited_view(answer)),
            !decided ==> final(self).won() == old(self).won(),
    {
        if self.verdict.is_some() {
            return false;
        }
        self.verdict = Some(answer);
        true
    }

    /// How the wait ended: the answer that won, or `Unanswered` where both
    /// arms ran out of asks without one.
    pub fn outcome(self) -> (r: Waited)
        ensures
            waited_view(r) == match self.won() {
                Some(w) => w,
                None => WaitedView::Unanswered,
            },
    {
        match self.verdict {
            Some(w) => w,
            None => Waited::Unanswered,
        }
    }
}

/// What the staleness arm answers after a poll: `Stale` with where the base
/// points now, once the trunk has moved past the base the run was cut from.
pub fn stale_answer(poll: &crate::main_watch::Poll, base: &str) -> (r: Option<Waited>)
    ensures
        match r {
            Some(w) => poll.head_view() matches Some(h) && base@.len() > 0 && h != base@
                && waited_view(w) == WaitedView::Stale(h),
            None => !(poll.head_view() matches Some(h) && base@.len() > 0 && h != base@),
        },
{
    match poll.moved(base) {
        Some(head) => Some(Waited::Stale { base: String::from_str(head) }),
        None => None,
    }
}

/// Both arms of one wait: the green arm with what it said, the stale arm
/// with `moved` where it said anything at all (never the new base), both
/// about `sha`. Both always appear, so what varies is how many answered.
pub fn answers(sha: &str, green: Option<&str>, stale: Option<&str>) -> (r: Vec<Answered>)
    ensures
        r@.len() == 2,
        r@[0].arm == Arm::Green,
        r@[0].sha@ == sha@,
        match green {
            Some(g) => r@[0].verdict is Some && r@[0].verdict->0@ == g@,
            None => r@[0].verdict is None,
        },
        r@[1].arm == Arm::Stale,
        r@[1].sha@ == sha@,
        match stale {
            Some(_) => r@[1].verdict is Some && r@[1].verdict->0@ == "moved"@,
            None => r@[1].verdict is None,
        },
{
    let mut out: Vec<Answered> = Vec::new();
    out.push(
        Answered {
            arm: Arm::Green,
            verdict: match green {
                Some(g) => Some(String::from_str(g)),
                None => None,
            },
            sha: String::from_str(sha),
        },
    );
    out.push(
        Answered {
            arm: Arm::Stale,
            verdict: match stale {
                Some(_) => Some(String::from_str("moved")),
                None => None,
            },
            sha: String::from_str(sha),
        },
    );
    out
}

// ---------------------------------------------------------------------------
// Push and verify
// ---------------------------------------------------------------------------

/// What the lap's push did to the branch's own ref on the remote. A lost
/// race is an outcome, never an error.
#[derive(Debug, Clone, PartialEq, Eq)]
pub enum Pushed {
    /// The remote took the update; its ref now reads this sha.
    Landed(String),
    /// The ref moved under the push and the server refused. Lap again.
    Raced,
}

/// The record line a push writes.
pub open spec fn pushed_line(p: Pushed) -> Seq<char> {
    match p {
        Pushed::Landed(sha) => "push landed "@ + sha@ + " -"@,
        Pushed::Raced => "push raced - -"@,
    }
}

impl Pushed {
    /// The record line this outcome writes: `push <outcome> <sha> -`.
    pub fn line(&self) -> (r: String)
        ensures
            r@ == pushed_line(*self),
    {
        match self {
            Pushed::Landed(sha) => {
                let mut out = String::from_str("push landed ");
                out.append(sha.as_str());
                out.append(" -");
                out
            },
            Pushed::Raced => String::from_str("push raced - -"),
        }
    }
}

/// What the lap's verification said about this head.
#[derive(Debug, Clone, PartialEq, Eq)]
pub enum Verified {
    /// A gate answered clean for this sha.
    Clean(String),
    /// A gate refused.
    Refused(String),
}

/// The record line a verification writes.
pub open spec fn verified_line(v: Verified) -> Seq<char> {
    match v {
        Verified::Clean(sha) => "verify clean "@ + sha@ + " -"@,
        Verified::Refused(sha) => "verify refused "@ + sha@ + " -"@,
    }
}

impl Verified {
    /// The record line this outcome writes: `verify <outcome> <sha> -`.
    pub fn line(&self) -> (r: String)
        ensures
            r@ == verified_line(*self),
    {
        match self {
            Verified::Clean(sha) => {
                let mut out = String::from_str("verify clean ");
                out.append(sha.as_str());
                out.append(" -");
                out
            },
            Verified::Refused(sha) => {
                let mut out = String::from_str("verify refused ");
                out.append(sha.as_str());
                out.append(" -");
                out
            },
        }
    }
}

// ---------------------------------------------------------------------------
// The lap table
// ---------------------------------------------------------------------------

/// One step of the lap.
#[derive(Debug, Clone, Copy, PartialEq, Eq)]
pub enum Step {
    /// Advance the base and replay this branch onto it.
    Replay,
    /// Run the consumer's gate over this head.
    Verify,
    /// Ask those gates that read the pull request's body, then commit to review.
    Ready,
    /// Push under receive-pack's compare-and-swap.
    Push,
    /// Race green against stale and act on whichever answers.
    Wait,
    /// Ask the bot to land this head, and read the keyed answer.
    FastForward,
}

/// What the lap does once a step has answered.
#[derive(Debug, Clone, Copy, PartialEq, Eq)]
pub enum Progress {
    /// Carry on to the next step of this lap.
    Proceed,
    /// Lap again. The base moved, or the answer is not in yet.
    Lap,
    /// Stop, carrying the step's own code. A human owns this one.
    Stop,
    /// The head is on the landing target.
    Landed,
}

/// The lap table: success carries on, and lands from the fast-forward; a
/// refusal a rebase would clear — a raced push, a refused or unanswered wait
/// or fast-forward — laps; a refusal no rebase clears, a could-not-look
/// from a step that reads this clone, and every misconfiguration stop.
pub open spec fn progress_of(step: Step, code: ExitCode) -> Progress {
    match code {
        ExitCode::Success => if step == Step::FastForward {
            Progress::Landed
        } else {
            Progress::Proceed
        },
        ExitCode::Usage => Progress::Stop,
        ExitCode::Violation => match step {
            Step::Push | Step::Wait | Step::FastForward => Progress::Lap,
            _ => Progress::Stop,
        },
        ExitCode::Internal => match step {
            Step::Wait | Step::FastForward => Progress::Lap,
            _ => Progress::Stop,
        },
    }
}

/// What a lap does with `code` from `step`.
pub fn progress(step: Step, code: ExitCode) -> (r: Progress)
    ensures
        r == progress_of(step, code),
{
    match (step, code) {
        (Step::Replay, ExitCode::Success) | (Step::Verify, ExitCode::Success) | (
            Step::Ready,
            ExitCode::Success,
        ) | (Step::Push, ExitCode::Success) | (Step::Wait, ExitCode::Success) => Progress::Proceed,
        (Step::FastForward, ExitCode::Success) => Progress::Landed,
        (Step::Push, ExitCode::Violation) | (Step::Wait, ExitCode::Violation) | (
            Step::Wait,
            ExitCode::Internal,
        ) | (Step::FastForward, ExitCode::Violation) | (Step::FastForward, ExitCode::Internal) => {
            Progress::Lap
        },
        _ => Progress::Stop,
    }
}

// ---------------------------------------------------------------------------
// The ready phase
// ---------------------------------------------------------------------------

/// The words of every `|`-separated entry that has any.
pub open spec fn argvs_of(entries: Seq<Seq<char>>) -> Seq<Seq<Seq<char>>>
    decreases entries.len(),
{
    if entries.len() == 0 {
        seq![]
    } else if words(entries.last()).len() > 0 {
        argvs_of(entries.drop_last()).push(words(entries.last()))
    } else {
        argvs_of(entries.drop_last())
    }
}

/// The views of a list of argvs.
pub open spec fn argv_views(v: Seq<Vec<String>>) -> Seq<Seq<Seq<char>>> {
    v.map_values(|a: Vec<String>| string_views(a@))
}

/// A gate invocations a ready phase runs, decoded from one declared string:
/// `|`-separated argvs of space-separated words, an empty entry dropped
/// rather than becoming a gate that cannot run.
pub fn body_gates(declared: &str) -> (r: Vec<Vec<String>>)
    ensures
        argv_views(r@) == argvs_of(split(declared@, '|')),
{
    let chars = chars_of(declared);
    let entries = split_exec(chars.as_slice(), '|');
    let ghost ev = views(entries@);
    let mut out: Vec<Vec<String>> = Vec::new();
    let mut i: usize = 0;
    while i < entries.len()
        invariant
            i <= entries.len(),
            ev == views(entries@),
            argv_views(out@) == argvs_of(ev.subrange(0, i as int)),
        decreases entries.len() - i,
    {
        proof {
            assert(ev.subrange(0, i + 1).drop_last() == ev.subrange(0, i as int));
            assert(ev.subrange(0, i + 1).last() == entries@[i as int]@);
        }
        let ws = words_exec(entries[i].as_slice());
        if ws.len() > 0 {
            let mut argv: Vec<String> = Vec::new();
            let mut k: usize = 0;
            while k < ws.len()
                invariant
                    k <= ws.len(),
                    string_views(argv@) == views(ws@).subrange(0, k as int),
                decreases ws.len() - k,
            {
                let w = string_of(ws[k].as_slice());
                proof {
                    assert(string_views(argv@.push(w)) == string_views(argv@).push(w@));
                    assert(views(ws@).subrange(0, k + 1) == views(ws@).subrange(0, k as int).push(
                        ws@[k as int]@,
                    ));
                }
                argv.push(w);
                k += 1;
            }
            proof {
                assert(views(ws@).subrange(0, ws.len() as int) == views(ws@));
                assert(argv_views(out@.push(argv)) == argv_views(out@).push(string_views(argv@)));
            }
            out.push(argv);
        }
        i += 1;
    }
    proof {
        assert(ev.subrange(0, entries.len() as int) == ev);
    }
    out
}

/// What a ready phase decided.
#[derive(Debug, Clone, PartialEq, Eq)]
pub enum Readied {
    /// Every declared gate passed, or there was no body to judge.
    Clear,
    /// A gate refused, naming itself.
    Refused {
        /// A gate's own first word, which is the pointer a reader follows.
        gate: String,
        /// What a gate printed, trimmed.
        detail: String,
    },
    /// A declared gate could not be run at all: a refusal, not a pass.
    Unrunnable {
        /// A gate that would not run.
        gate: String,
    },
}

/// What a ready phase needs next.
#[derive(Debug, Clone, PartialEq, Eq)]
pub enum ReadyStep {
    /// Run a gate at this index and hand back its answer: its exit status
    /// and what it printed, or nothing where it could not be started.
    Run(usize),
    /// The phase is decided.
    Done(Readied),
}

/// A ready step as plain values: `Ok(index)` to run a gate, or the decision
/// as `0` clear, `1` refused with a gate and its trimmed output, `2`
/// unrunnable with a gate.
pub open spec fn ready_step_view(s: ReadyStep) -> Result<usize, (int, Seq<char>, Seq<char>)> {
    match s {
        ReadyStep::Run(i) => Ok(i),
        ReadyStep::Done(Readied::Clear) => Err((0, seq![], seq![])),
        ReadyStep::Done(Readied::Refused { gate, detail }) => Err((1, gate@, detail@)),
        ReadyStep::Done(Readied::Unrunnable { gate }) => Err((2, gate@, seq![])),
    }
}

/// The ready phase over those gates answered so far, the `k`th on: a gate with
/// no words is passed over; one that could not start is unrunnable; one that
/// answered non-zero refused, with its trimmed output; once every answered
/// gate has passed, the next gate is asked for, and once every gate has, the
/// phase is clear.
pub open spec fn ready_from(
    gates: Seq<Seq<Seq<char>>>,
    answers: Seq<Option<(i32, Seq<char>)>>,
    k: int,
) -> Result<usize, (int, Seq<char>, Seq<char>)>
    decreases gates.len() - k,
{
    if k < 0 || k >= gates.len() {
        Err((0, seq![], seq![]))
    } else if k >= answers.len() {
        Ok(k as usize)
    } else if gates[k].len() == 0 {
        ready_from(gates, answers, k + 1)
    } else {
        match answers[k] {
            None => Err((2, gates[k][0], seq![])),
            Some((code, output)) => if code != 0 {
                Err((1, gates[k][0], trim(output)))
            } else {
                ready_from(gates, answers, k + 1)
            },
        }
    }
}

/// The answers handed back, as text.
pub open spec fn answer_views(v: Seq<Option<(i32, String)>>) -> Seq<Option<(i32, Seq<char>)>> {
    v.map_values(
        |a: Option<(i32, String)>|
            match a {
                Some((code, out)) => Some((code, out@)),
                None => None,
            },
    )
}

/// The next step of a ready phase over `body`, given the answers of those gates
/// run so far, in order (an answer for a gate with no words is ignored).
///
/// An empty body is a pass — a body the fetch never produced says nothing —
/// and a declared gate that cannot run is a refusal.
pub fn ready(gates: &[Vec<String>], body: &str, answers: &[Option<(i32, String)>]) -> (r: ReadyStep)
    ensures
        trim(body@).len() == 0 ==> r == ReadyStep::Done(Readied::Clear),
        trim(body@).len() != 0 ==> ready_step_view(r) == ready_from(
            argv_views(gates@),
            answer_views(answers@),
            0,
        ),
{
    let chars = chars_of(body);
    let trimmed = trim_chars(chars.as_slice());
    if trimmed.len() == 0 {
        return ReadyStep::Done(Readied::Clear);
    }
    let ghost gv = argv_views(gates@);
    let ghost av = answer_views(answers@);
    let mut k: usize = 0;
    while k < gates.len()
        invariant
            k <= gates.len(),
            trim(body@).len() != 0,
            gv == argv_views(gates@),
            av == answer_views(answers@),
            ready_from(gv, av, 0) == ready_from(gv, av, k as int),
        decreases gates.len() - k,
    {
        if k >= answers.len() {
            return ReadyStep::Run(k);
        }
        proof {
            assert(gv[k as int] == string_views(gates@[k as int]@));
            assert(av[k as int] == match answers@[k as int] {
                Some((code, out)) => Some((code, out@)),
                None => None,
            });
        }
        if gates[k].len() > 0 {
            let gate = gates[k][0].clone();
            match &answers[k] {
                None => return ReadyStep::Done(Readied::Unrunnable { gate }),
                Some((code, output)) => {
                    if *code != 0 {
                        let out_chars = chars_of(output.as_str());
                        let detail = string_of(trim_chars(out_chars.as_slice()).as_slice());
                        return ReadyStep::Done(Readied::Refused { gate, detail });
                    }
                },
            }
        }
        k += 1;
    }
    ReadyStep::Done(Readied::Clear)
}

// ---------------------------------------------------------------------------
// The ledger
// ---------------------------------------------------------------------------

/// Which bound a charge ran into.
#[derive(Debug, Clone, Copy, PartialEq, Eq)]
pub enum Bound {
    /// Never won the lease: the fleet is saturated, and no CI was spent.
    LeaseWaits,
    /// The fast-forward bot gave no readable answer.
    Unknowns,
    /// CI failed before reaching an answer, repeatedly.
    Transients,
}

/// What a charge decided.
#[derive(Debug, Clone, Copy, PartialEq, Eq)]
pub enum Charge {
    /// Inside the bound; the lap goes round again.
    Lap,
    /// The bound is spent.
    Stop(Bound),
}

/// A lap's accounting. Spend is counted at the one site that buys, never
/// inferred from the attempt counter; every bound is a count, never a clock.
#[derive(Debug, Clone, Copy, PartialEq, Eq)]
pub struct Ledger {
    /// Attempts.
    pub laps: u32,
    /// CI matrices actually bought.
    pub paid: u32,
    /// Passes that never won the lease.
    pub lease_waits: u32,
    /// Passes that got no readable answer from the bot.
    pub unknowns: u32,
    /// Runs that failed before reaching an answer.
    pub transients: u32,
}

impl Default for Ledger {
    /// Nothing attempted, nothing spent.
    fn default() -> (r: Self)
        ensures
            r.laps == 0 && r.paid == 0 && r.lease_waits == 0 && r.unknowns == 0 && r.transients
                == 0,
    {
        Ledger { laps: 0, paid: 0, lease_waits: 0, unknowns: 0, transients: 0 }
    }
}

/// One more, stopping at the top.
pub open spec fn up(n: u32) -> u32 {
    if n == u32::MAX {
        n
    } else {
        (n + 1) as u32
    }
}

/// One fewer, stopping at zero.
pub open spec fn down(n: u32) -> u32 {
    if n == 0 {
        0
    } else {
        (n - 1) as u32
    }
}

impl Ledger {
    /// Open a lap.
    pub fn attempt(&mut self)
        ensures
            *final(self) == (Ledger { laps: up(old(self).laps), ..*old(self) }),
    {
        self.laps = self.laps.saturating_add(1);
    }

    /// A matrix was bought. The one site that increments the spend.
    pub fn bought_a_matrix(&mut self)
        ensures
            *final(self) == (Ledger { paid: up(old(self).paid), ..*old(self) }),
    {
        self.paid = self.paid.saturating_add(1);
    }

    /// A pass that never won the lease: refund the lap, charge the wait, and
    /// stop once the waits pass `max`.
    pub fn waited(&mut self, max: u32) -> (r: Charge)
        ensures
            *final(self) == (Ledger {
                laps: down(old(self).laps),
                lease_waits: up(old(self).lease_waits),
                ..*old(self)
            }),
            r == if final(self).lease_waits > max {
                Charge::Stop(Bound::LeaseWaits)
            } else {
                Charge::Lap
            },
    {
        self.laps = self.laps.saturating_sub(1);
        self.lease_waits = self.lease_waits.saturating_add(1);
        if self.lease_waits > max {
            Charge::Stop(Bound::LeaseWaits)
        } else {
            Charge::Lap
        }
    }

    /// A pass the bot gave no readable answer to: refund the lap, charge the
    /// unknown, and stop once the unknowns pass `max`.
    pub fn unknown(&mut self, max: u32) -> (r: Charge)
        ensures
            *final(self) == (Ledger {
                laps: down(old(self).laps),
                unknowns: up(old(self).unknowns),
                ..*old(self)
            }),
            r == if final(self).unknowns > max {
                Charge::Stop(Bound::Unknowns)
            } else {
                Charge::Lap
            },
    {
        self.laps = self.laps.saturating_sub(1);
        self.unknowns = self.unknowns.saturating_add(1);
        if self.unknowns > max {
            Charge::Stop(Bound::Unknowns)
        } else {
            Charge::Lap
        }
    }

    /// A run that failed before reaching an answer: refund the lap, charge the
    /// transient, and stop once the transients pass `max`.
    pub fn transient(&mut self, max: u32) -> (r: Charge)
        ensures
            *final(self) == (Ledger {
                laps: down(old(self).laps),
                transients: up(old(self).transients),
                ..*old(self)
            }),
            r == if final(self).transients > max {
                Charge::Stop(Bound::Transients)
            } else {
                Charge::Lap
            },
    {
        self.laps = self.laps.saturating_sub(1);
        self.transients = self.transients.saturating_add(1);
        if self.transients > max {
            Charge::Stop(Bound::Transients)
        } else {
            Charge::Lap
        }
    }

    /// What a refusal may honestly say was spent: the matrices bought.
    pub fn spent(&self) -> (r: u32)
        ensures
            r == self.paid,
    {
        self.paid
    }
}

// ---------------------------------------------------------------------------
// Transients and worthless runs
// ---------------------------------------------------------------------------

/// Every record's lines, trimmed, the blank ones dropped.
pub open spec fn scan_lines(records: Seq<Seq<char>>) -> Seq<Seq<char>>
    decreases records.len(),
{
    if records.len() == 0 {
        seq![]
    } else {
        scan_lines(records.drop_last()) + kept_lines(lines(records.last()))
    }
}

/// Lines trimmed, the blank ones dropped.
pub open spec fn kept_lines(ls: Seq<Seq<char>>) -> Seq<Seq<char>>
    decreases ls.len(),
{
    if ls.len() == 0 {
        seq![]
    } else if trim(ls.last()).len() > 0 {
        kept_lines(ls.drop_last()).push(trim(ls.last()))
    } else {
        kept_lines(ls.drop_last())
    }
}

/// The lines that start with `p`.
pub open spec fn lines_starting(ls: Seq<Seq<char>>, p: Seq<char>) -> Seq<Seq<char>>
    decreases ls.len(),
{
    if ls.len() == 0 {
        seq![]
    } else if starts_with(ls.last(), p) {
        lines_starting(ls.drop_last(), p).push(ls.last())
    } else {
        lines_starting(ls.drop_last(), p)
    }
}

/// Whether a head's CI failure was a provisioning transient: could-not-look
/// where the scan produced no lines, no transient where any line is a
/// verdict, and otherwise the non-verdict lines.
pub open spec fn absorbed_of(records: Seq<Seq<char>>) -> Option<Seq<Seq<char>>> {
    let ls = scan_lines(records);
    if ls.len() == 0 {
        None
    } else if lines_starting(ls, "verdict"@).len() > 0 {
        None
    } else {
        Some(lines_starting(ls, "nonverdict"@))
    }
}

fn keep_trimmed(out: &mut Vec<String>, text: &str)
    ensures
        string_views(final(out)@) == string_views(old(out)@) + kept_lines(lines(text@)),
{
    let chars = chars_of(text);
    let ls = lines_exec(chars.as_slice());
    let ghost lv = views(ls@);
    let ghost start = string_views(out@);
    let mut i: usize = 0;
    while i < ls.len()
        invariant
            i <= ls.len(),
            lv == views(ls@),
            string_views(out@) == start + kept_lines(lv.subrange(0, i as int)),
        decreases ls.len() - i,
    {
        proof {
            assert(lv.subrange(0, i + 1).drop_last() == lv.subrange(0, i as int));
            assert(lv.subrange(0, i + 1).last() == ls@[i as int]@);
        }
        let t = trim_chars(ls[i].as_slice());
        if t.len() > 0 {
            let s = string_of(t.as_slice());
            proof {
                assert(string_views(out@.push(s)) == string_views(out@).push(s@));
            }
            out.push(s);
        }
        i += 1;
    }
    proof {
        assert(lv.subrange(0, ls.len() as int) == lv);
    }
}

fn starting(ls: &Vec<String>, p: &str) -> (r: Vec<String>)
    ensures
        string_views(r@) == lines_starting(string_views(ls@), p@),
{
    let ghost lv = string_views(ls@);
    let mut out: Vec<String> = Vec::new();
    let mut i: usize = 0;
    while i < ls.len()
        invariant
            i <= ls.len(),
            lv == string_views(ls@),
            string_views(out@) == lines_starting(lv.subrange(0, i as int), p@),
        decreases ls.len() - i,
    {
        proof {
            assert(lv.subrange(0, i + 1).drop_last() == lv.subrange(0, i as int));
            assert(lv.subrange(0, i + 1).last() == ls@[i as int]@);
        }
        let c = chars_of(ls[i].as_str());
        if starts_with_str(c.as_slice(), p) {
            let s = ls[i].clone();
            proof {
                assert(string_views(out@.push(s)) == string_views(out@).push(s@));
            }
            out.push(s);
        }
        i += 1;
    }
    proof {
        assert(lv.subrange(0, ls.len() as int) == lv);
    }
    out
}

proof fn lemma_kept_lines_keep(ls: Seq<Seq<char>>, j: int)
    requires
        0 <= j < ls.len(),
        trim(ls[j]).len() > 0,
    ensures
        kept_lines(ls).contains(trim(ls[j])),
    decreases ls.len(),
{
    if j == ls.len() - 1 {
        assert(kept_lines(ls).last() == trim(ls[j]));
        assert(kept_lines(ls)[kept_lines(ls).len() - 1] == trim(ls[j]));
    } else {
        lemma_kept_lines_keep(ls.drop_last(), j);
        assert(ls.drop_last()[j] == ls[j]);
        let before = kept_lines(ls.drop_last());
        let q = choose|q: int| 0 <= q < before.len() && before[q] == trim(ls[j]);
        assert(kept_lines(ls)[q] == trim(ls[j]));
    }
}

proof fn lemma_scan_lines_keep(records: Seq<Seq<char>>, k: int, t: Seq<char>)
    requires
        0 <= k < records.len(),
        kept_lines(lines(records[k])).contains(t),
    ensures
        scan_lines(records).contains(t),
    decreases records.len(),
{
    let before = scan_lines(records.drop_last());
    let last = kept_lines(lines(records.last()));
    if k == records.len() - 1 {
        let q = choose|q: int| 0 <= q < last.len() && last[q] == t;
        assert(scan_lines(records)[before.len() + q] == t);
    } else {
        assert(records.drop_last()[k] == records[k]);
        lemma_scan_lines_keep(records.drop_last(), k, t);
        let q = choose|q: int| 0 <= q < before.len() && before[q] == t;
        assert(scan_lines(records)[q] == t);
    }
}

proof fn lemma_starting_finds(ls: Seq<Seq<char>>, p: Seq<char>, t: Seq<char>)
    requires
        ls.contains(t),
        starts_with(t, p),
    ensures
        lines_starting(ls, p).len() > 0,
    decreases ls.len(),
{
    if ls.last() != t {
        let q = choose|q: int| 0 <= q < ls.len() && ls[q] == t;
        assert(ls.drop_last()[q] == t);
        lemma_starting_finds(ls.drop_last(), p, t);
    }
}

/// A verdict anywhere is never absorbed: if any line of any record, once
/// trimmed, starts with `verdict`, the branch was judged and the failure is
/// no transient, whichever record carries that line and wherever it stands.
/// What is absorbed is only ever `nonverdict` lines.
pub proof fn lemma_a_verdict_anywhere_is_not_absorbed(records: Seq<Seq<char>>, k: int, j: int)
    requires
        0 <= k < records.len(),
        0 <= j < lines(records[k]).len(),
        starts_with(trim(lines(records[k])[j]), "verdict"@),
    ensures
        absorbed_of(records) is None,
{
    reveal_strlit("verdict");
    let t = trim(lines(records[k])[j]);
    assert(t.len() >= 7);
    lemma_kept_lines_keep(lines(records[k]), j);
    lemma_scan_lines_keep(records, k, t);
    lemma_starting_finds(scan_lines(records), "verdict"@, t);
}

/// Every line an absorbed run yields is a `nonverdict` record line.
pub proof fn lemma_absorbed_lines_are_nonverdicts(records: Seq<Seq<char>>)
    ensures
        absorbed_of(records) matches Some(ls) ==> forall|i: int|
            0 <= i < ls.len() ==> starts_with(#[trigger] ls[i], "nonverdict"@),
{
    if absorbed_of(records) is Some {
        lemma_starting_all(scan_lines(records), "nonverdict"@);
    }
}

proof fn lemma_starting_all(ls: Seq<Seq<char>>, p: Seq<char>)
    ensures
        forall|i: int| 0 <= i < lines_starting(ls, p).len() ==> starts_with(#[trigger] lines_starting(ls, p)[i], p),
    decreases ls.len(),
{
    if ls.len() > 0 {
        lemma_starting_all(ls.drop_last(), p);
        let before = lines_starting(ls.drop_last(), p);
        assert forall|i: int| 0 <= i < lines_starting(ls, p).len() implies starts_with(
            #[trigger] lines_starting(ls, p)[i],
            p,
        ) by {
            if i < before.len() {
                assert(lines_starting(ls, p)[i] == before[i]);
            }
        }
    }
}

/// Was this head's CI failure a provisioning transient rather than a verdict?
///
/// A run is absorbed only if every record is a non-verdict; `None` is
/// could-not-look, and its causes are deliberately one reading.
pub fn absorbed(records: &[String]) -> (r: Option<Vec<String>>)
    ensures
        match absorbed_of(string_views(records@)) {
            Some(ls) => r is Some && string_views(r->0@) == ls,
            None => r is None,
        },
{
    let ghost rv = string_views(records@);
    let mut all: Vec<String> = Vec::new();
    let mut i: usize = 0;
    while i < records.len()
        invariant
            i <= records.len(),
            rv == string_views(records@),
            string_views(all@) == scan_lines(rv.subrange(0, i as int)),
        decreases records.len() - i,
    {
        proof {
            assert(rv.subrange(0, i + 1).drop_last() == rv.subrange(0, i as int));
            assert(rv.subrange(0, i + 1).last() == records@[i as int]@);
        }
        keep_trimmed(&mut all, records[i].as_str());
        i += 1;
    }
    proof {
        assert(rv.subrange(0, records.len() as int) == rv);
    }
    if all.len() == 0 {
        return None;
    }
    let verdicts = starting(&all, "verdict");
    if verdicts.len() > 0 {
        return None;
    }
    Some(starting(&all, "nonverdict"))
}

/// Whether the trunk moved past the base this lap replayed onto, from the
/// ref that records that base (`None` where it does not resolve) and a poll
/// of the trunk: where the base moved to, or `None` for both unmoved and
/// could-not-look. This is an economy rather than a gate, so it fails open.
pub fn stale_of(replayed_onto: Option<&str>, poll: &crate::main_watch::Poll) -> (r: Option<String>)
    ensures
        match replayed_onto {
            None => r is None,
            Some(base) => match r {
                Some(s) => base@.len() > 0 && poll.head_view() == Some(s@) && s@ != base@,
                None => base@.len() == 0 || poll.head_view() is None || poll.head_view() == Some(base@),
            },
        },
{
    match replayed_onto {
        None => None,
        Some(base) => match poll.moved(base) {
            Some(head) => Some(String::from_str(head)),
            None => None,
        },
    }
}

/// How many answers were `true`.
pub open spec fn count_true(v: Seq<bool>) -> nat
    decreases v.len(),
{
    if v.len() == 0 {
        0
    } else {
        count_true(v.drop_last()) + if v.last() {
            1nat
        } else {
            0nat
        }
    }
}

proof fn lemma_count_true_bound(v: Seq<bool>)
    ensures
        count_true(v) <= v.len(),
    decreases v.len(),
{
    if v.len() > 0 {
        lemma_count_true_bound(v.drop_last());
    }
}

/// What an abandon pass did, from how many runs it spared and, for each run
/// it asked the forge to stop, whether the forge accepted: the accepted
/// ones cancelled, the rest refused. Best-effort throughout, and never a
/// verdict.
pub fn abandoned(spared: u32, answers: &[bool]) -> (r: Abandoned)
    requires
        answers@.len() <= u32::MAX,
    ensures
        r.spared == spared,
        r.cancelled == count_true(answers@),
        r.cancelled + r.refused == answers@.len(),
{
    let mut report = Abandoned { cancelled: 0, spared, refused: 0 };
    let mut i: usize = 0;
    while i < answers.len()
        invariant
            i <= answers.len(),
            answers@.len() <= u32::MAX,
            report.spared == spared,
            report.cancelled == count_true(answers@.subrange(0, i as int)),
            report.cancelled + report.refused == i,
        decreases answers.len() - i,
    {
        proof {
            assert(answers@.subrange(0, i + 1).drop_last() == answers@.subrange(0, i as int));
            assert(answers@.subrange(0, i + 1).last() == answers@[i as int]);
        }
        if answers[i] {
            report.cancelled = report.cancelled + 1;
        } else {
            report.refused = report.refused + 1;
        }
        i += 1;
    }
    proof {
        assert(answers@.subrange(0, answers@.len() as int) == answers@);
    }
    report
}

/// One arm's asking budget in a wait: how many times it has asked, out of
/// how many it may. A count, never a deadline.
#[derive(Debug, Clone, Copy, PartialEq, Eq)]
pub struct Asking {
    /// Asks made so far.
    pub asked: u32,
    /// Asks allowed.
    pub limit: u32,
}

impl Asking {
    /// A budget of `limit` asks, none made.
    pub fn new(limit: u32) -> (r: Asking)
        ensures
            r.asked == 0 && r.limit == limit,
    {
        Asking { asked: 0, limit }
    }

    /// Whether the arm asks again: only while the wait is undecided and the
    /// budget has asks left, each one counted. An arm never asks more than
    /// its limit.
    pub fn ask(&mut self, decided: bool) -> (r: bool)
        requires
            old(self).asked <= old(self).limit,
        ensures
            r == (!decided && old(self).asked < old(self).limit),
            final(self).limit == old(self).limit,
            final(self).asked == if r {
                old(self).asked + 1
            } else {
                old(self).asked as int
            },
            final(self).asked <= final(self).limit,
    {
        if decided || self.asked >= self.limit {
            return false;
        }
        self.asked = self.asked + 1;
        true
    }
}

/// One run still spending on a head, as the pair the decision needs.
#[derive(Debug, Clone, PartialEq, Eq)]
pub struct Spending {
    /// The run id, for the cancel endpoint.
    pub id: String,
    /// The workflow file it came from — what the fan-in is recognised by.
    pub path: String,
}

/// What one abandon pass did. Counts, never a log line from a cancelled run.
#[derive(Debug, Clone, Copy, PartialEq, Eq)]
pub struct Abandoned {
    /// Runs this pass asked the forge to stop.
    pub cancelled: u32,
    /// Runs deliberately left alone.
    pub spared: u32,
    /// Cancellations the forge refused.
    pub refused: u32,
}

impl Default for Abandoned {
    /// Nothing cancelled, spared or refused.
    fn default() -> (r: Self)
        ensures
            r.cancelled == 0 && r.spared == 0 && r.refused == 0,
    {
        Abandoned { cancelled: 0, spared: 0, refused: 0 }
    }
}

/// A run as text: its id and its workflow path.
pub open spec fn spending_view(s: Spending) -> (Seq<char>, Seq<char>) {
    (s.id@, s.path@)
}

/// The runs whose workflow is not the fan-in's, in order.
pub open spec fn doomed_of(runs: Seq<(Seq<char>, Seq<char>)>, fanin: Seq<char>) -> Seq<(Seq<char>, Seq<char>)>
    decreases runs.len(),
{
    if runs.len() == 0 {
        seq![]
    } else if runs.last().1 == fanin {
        doomed_of(runs.drop_last(), fanin)
    } else {
        doomed_of(runs.drop_last(), fanin).push(runs.last())
    }
}

/// A run id as a forge answer carries it: an unsigned integer, written as
/// its decimal text, or a string's own text; `None` for anything else.
pub open spec fn run_id(v: Json) -> Option<Seq<char>> {
    match v {
        Json::Number(n) => if n@.len() > 0 && crate::text::all_digits(n@) && crate::text::digits_value(
            n@,
        ) <= u64::MAX {
            Some(crate::text::decimal(crate::text::digits_value(n@) as nat))
        } else {
            None
        },
        Json::Text(t) => Some(t@),
        _ => None,
    }
}

/// Whether a run has finished: its `status` is the string `completed`. A
/// run with no status, or one that is not a string, has not.
pub open spec fn completed(run: Json) -> bool {
    match member(run, "status"@) {
        Some(st) => text(st) == Some("completed"@),
        None => false,
    }
}

/// The id and workflow path of one run, where it carries both.
pub open spec fn run_of(run: Json) -> Option<(Seq<char>, Seq<char>)> {
    match member(run, "id"@) {
        Some(id) => match run_id(id) {
            Some(i) => match member(run, "path"@) {
                Some(p) => match text(p) {
                    Some(path) => Some((i, path)),
                    None => None,
                },
                None => None,
            },
            None => None,
        },
        None => None,
    }
}

/// The runs still in flight, in order: every run that has not completed and
/// carries an id and a path.
pub open spec fn in_flight(runs: Seq<Json>) -> Seq<(Seq<char>, Seq<char>)>
    decreases runs.len(),
{
    if runs.len() == 0 {
        seq![]
    } else {
        let before = in_flight(runs.drop_last());
        if completed(runs.last()) {
            before
        } else {
            match run_of(runs.last()) {
                Some(r) => before.push(r),
                None => before,
            }
        }
    }
}

/// The runs a forge's list of a head's workflow runs says are still in
/// flight; `None` where the answer carries no `workflow_runs` array.
pub open spec fn spending_of(document: Json) -> Option<Seq<(Seq<char>, Seq<char>)>> {
    match member(document, "workflow_runs"@) {
        Some(runs) => match items(runs) {
            Some(rs) => Some(in_flight(rs)),
            None => None,
        },
        None => None,
    }
}

fn run_id_of(v: &Json) -> (r: Option<String>)
    ensures
        match r {
            Some(t) => run_id(*v) == Some(t@),
            None => run_id(*v) is None,
        },
{
    match v {
        Json::Number(n) => {
            let c = chars_of(n.as_str());
            if c.len() == 0 || c[0] == '+' {
                return None;
            }
            match crate::text::parse_u64_exec(c.as_slice()) {
                Some(value) => Some(crate::text::nat_string(value)),
                None => None,
            }
        },
        Json::Text(t) => Some(t.clone()),
        _ => None,
    }
}

fn run_in(run: &Json) -> (r: Option<Spending>)
    ensures
        match r {
            Some(s) => run_of(*run) == Some(spending_view(s)),
            None => run_of(*run) is None,
        },
{
    let id = match member_of(run, "id") {
        Some(i) => match run_id_of(i) {
            Some(t) => t,
            None => return None,
        },
        None => return None,
    };
    match member_of(run, "path") {
        Some(Json::Text(p)) => Some(Spending { id, path: p.clone() }),
        _ => None,
    }
}

fn is_completed(run: &Json) -> (r: bool)
    ensures
        r == completed(*run),
{
    match member_of(run, "status") {
        Some(Json::Text(st)) => same_string(st.as_str(), "completed"),
        _ => false,
    }
}

/// The runs still in flight on a head, read from the forge's list of that
/// head's workflow runs: `status` other than `completed` is the whole
/// filter, since a finished run bills nothing further. `None` is
/// could-not-look: an answer with no `workflow_runs` array.
pub fn spending_in(document: &Json) -> (r: Option<Vec<Spending>>)
    ensures
        match spending_of(*document) {
            Some(want) => r is Some && r->0@.map_values(|s: Spending| spending_view(s)) == want,
            None => r is None,
        },
{
    let runs = match member_of(document, "workflow_runs") {
        Some(Json::Array(rs)) => rs,
        _ => return None,
    };
    let mut out: Vec<Spending> = Vec::new();
    let mut i: usize = 0;
    while i < runs.len()
        invariant
            i <= runs.len(),
            out@.map_values(|s: Spending| spending_view(s)) == in_flight(runs@.subrange(0, i as int)),
        decreases runs.len() - i,
    {
        proof {
            assert(runs@.subrange(0, i + 1).drop_last() == runs@.subrange(0, i as int));
            assert(runs@.subrange(0, i + 1).last() == runs@[i as int]);
        }
        if !is_completed(&runs[i]) {
            match run_in(&runs[i]) {
                Some(s) => {
                    proof {
                        assert(out@.push(s).map_values(|x: Spending| spending_view(x)) == out@.map_values(
                            |x: Spending| spending_view(x),
                        ).push(spending_view(s)));
                    }
                    out.push(s);
                },
                None => {},
            }
        }
        i += 1;
    }
    proof {
        assert(runs@.subrange(0, runs@.len() as int) == runs@);
    }
    Some(out)
}

/// Which runs on a head a red verdict makes worthless, sparing the fan-in's:
/// every run but those whose workflow is the fan-in's, in order, and how many
/// were spared. The fan-in's run is never cancelled.
pub fn worthless(spending: &[Spending], fanin: &str) -> (r: (Vec<Spending>, u32))
    requires
        spending@.len() <= u32::MAX,
    ensures
        r.0@.map_values(|s: Spending| spending_view(s)) == doomed_of(
            spending@.map_values(|s: Spending| spending_view(s)),
            fanin@,
        ),
        r.1 + r.0@.len() == spending@.len(),
{
    let ghost sv = spending@.map_values(|s: Spending| spending_view(s));
    let mut doomed: Vec<Spending> = Vec::new();
    let mut spared: u32 = 0;
    let mut i: usize = 0;
    while i < spending.len()
        invariant
            i <= spending.len(),
            spending@.len() <= u32::MAX,
            sv == spending@.map_values(|s: Spending| spending_view(s)),
            doomed@.map_values(|s: Spending| spending_view(s)) == doomed_of(
                sv.subrange(0, i as int),
                fanin@,
            ),
            spared + doomed@.len() == i,
        decreases spending.len() - i,
    {
        proof {
            assert(sv.subrange(0, i + 1).drop_last() == sv.subrange(0, i as int));
            assert(sv.subrange(0, i + 1).last() == spending_view(spending@[i as int]));
        }
        if same_string(spending[i].path.as_str(), fanin) {
            spared += 1;
        } else {
            let run = Spending { id: spending[i].id.clone(), path: spending[i].path.clone() };
            proof {
                assert(doomed@.push(run).map_values(|s: Spending| spending_view(s)) == doomed@.map_values(
                    |s: Spending| spending_view(s),
                ).push(spending_view(run)));
            }
            doomed.push(run);
        }
        i += 1;
    }
    proof {
        assert(sv.subrange(0, spending.len() as int) == sv);
    }
    (doomed, spared)
}

/// A refund undoes the lap it refunds: opening a lap and refunding it leaves
/// the count where it was (below the counter's ceiling), and a refund with no
/// lap to refund stays at zero rather than wrapping.
pub proof fn lemma_refund_undoes_the_lap(n: u32)
    ensures
        n < u32::MAX ==> down(up(n)) == n,
        down(0) == 0,
        up(n) >= n,
{
}

} // verus!
