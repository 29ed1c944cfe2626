//! The verbosity ladder and the attended/unattended layer.
//!
//! Two settings, resolved once at the binary boundary: how much to say — a
//! total order from `silent` to `trace`, chosen by the rightmost ladder flag
//! of the raw argument list or by `BATTEN_LOG_LEVEL` — and who is reading,
//! which decides colour and prompting. Verbosity shapes stderr only; a
//! verdict and a usage error are never gated.

use vstd::prelude::*;
use vstd::string::StringExecFns;
use crate::error::UsageError;
use crate::text::{
    chars_of, same, same_str, same_string, split_once, split_once_exec, starts_with,
    starts_with_str, string_of, string_views,
};

verus! {

/// How much Batten says on stderr, quietest first.
#[derive(Debug, Clone, Copy, PartialEq, Eq, PartialOrd, Ord)]
#[non_exhaustive]
pub enum Verbosity {
    /// Say nothing but a verdict or a usage error.
    Silent,
    /// Suppress ordinary progress; keep warnings.
    Quiet,
    /// The default.
    Normal,
    /// Explain what is being checked.
    Verbose,
    /// Add resolution detail.
    Debug,
    /// Add everything.
    Trace,
}

/// A rung's place on the ladder, quietest first.
pub open spec fn rank(v: Verbosity) -> int {
    match v {
        Verbosity::Silent => 0,
        Verbosity::Quiet => 1,
        Verbosity::Normal => 2,
        Verbosity::Verbose => 3,
        Verbosity::Debug => 4,
        Verbosity::Trace => 5,
    }
}

/// The rung at a place on the ladder.
pub open spec fn rung_at(i: int) -> Verbosity {
    if i <= 0 {
        Verbosity::Silent
    } else if i == 1 {
        Verbosity::Quiet
    } else if i == 2 {
        Verbosity::Normal
    } else if i == 3 {
        Verbosity::Verbose
    } else if i == 4 {
        Verbosity::Debug
    } else {
        Verbosity::Trace
    }
}

/// A rung's token, as `--log-level` and `BATTEN_LOG_LEVEL` spell it.
pub open spec fn rung_token(v: Verbosity) -> Seq<char> {
    match v {
        Verbosity::Silent => "silent"@,
        Verbosity::Quiet => "quiet"@,
        Verbosity::Normal => "normal"@,
        Verbosity::Verbose => "verbose"@,
        Verbosity::Debug => "debug"@,
        Verbosity::Trace => "trace"@,
    }
}

/// The rung a token names, if any: exactly the emitted spellings.
pub open spec fn token_rung(t: Seq<char>) -> Option<Verbosity> {
    if t == "silent"@ {
        Some(Verbosity::Silent)
    } else if t == "quiet"@ {
        Some(Verbosity::Quiet)
    } else if t == "normal"@ {
        Some(Verbosity::Normal)
    } else if t == "verbose"@ {
        Some(Verbosity::Verbose)
    } else if t == "debug"@ {
        Some(Verbosity::Debug)
    } else if t == "trace"@ {
        Some(Verbosity::Trace)
    } else {
        None
    }
}

/// `extra` rungs further in the direction a rung lies from `normal`,
/// clamped at the ends; `normal` has no direction and stays.
pub open spec fn further_spec(v: Verbosity, extra: nat) -> Verbosity {
    if extra == 0 || v == Verbosity::Normal {
        v
    } else if rank(v) < 2 {
        rung_at(if rank(v) - extra < 0 {
            0
        } else {
            rank(v) - extra
        })
    } else {
        rung_at(if rank(v) + extra > 5 {
            5
        } else {
            rank(v) + extra
        })
    }
}

impl Verbosity {
    /// Every rung, in ladder order.
    pub const ALL: [Verbosity; 6] = [
        Verbosity::Silent,
        Verbosity::Quiet,
        Verbosity::Normal,
        Verbosity::Verbose,
        Verbosity::Debug,
        Verbosity::Trace,
    ];

    /// The default rung, and the origin the ladder is measured from.
    pub const DEFAULT: Verbosity = Verbosity::Normal;

    /// The rung's place on the ladder.
    pub fn index(self) -> (r: u8)
        ensures
            r == rank(self),
    {
        match self {
            Verbosity::Silent => 0,
            Verbosity::Quiet => 1,
            Verbosity::Normal => 2,
            Verbosity::Verbose => 3,
            Verbosity::Debug => 4,
            Verbosity::Trace => 5,
        }
    }

    fn at(i: u8) -> (r: Verbosity)
        ensures
            r == rung_at(i as int),
    {
        if i == 0 {
            Verbosity::Silent
        } else if i == 1 {
            Verbosity::Quiet
        } else if i == 2 {
            Verbosity::Normal
        } else if i == 3 {
            Verbosity::Verbose
        } else if i == 4 {
            Verbosity::Debug
        } else {
            Verbosity::Trace
        }
    }

    /// The rung's token.
    pub fn as_str(self) -> (r: &'static str)
        ensures
            r@ == rung_token(self),
    {
        match self {
            Verbosity::Silent => "silent",
            Verbosity::Quiet => "quiet",
            Verbosity::Normal => "normal",
            Verbosity::Verbose => "verbose",
            Verbosity::Debug => "debug",
            Verbosity::Trace => "trace",
        }
    }

    /// The rung named by `token`, or `None` if it names none.
    pub fn from_token(token: &str) -> (r: Option<Verbosity>)
        ensures
            r == token_rung(token@),
    {
        if same_string(token, "silent") {
            Some(Verbosity::Silent)
        } else if same_string(token, "quiet") {
            Some(Verbosity::Quiet)
        } else if same_string(token, "normal") {
            Some(Verbosity::Normal)
        } else if same_string(token, "verbose") {
            Some(Verbosity::Verbose)
        } else if same_string(token, "debug") {
            Some(Verbosity::Debug)
        } else if same_string(token, "trace") {
            Some(Verbosity::Trace)
        } else {
            None
        }
    }

    /// Step `extra` further rungs in the direction this rung lies from the
    /// default, clamped at the end of the ladder.
    pub fn further(self, extra: u8) -> (r: Verbosity)
        ensures
            r == further_spec(self, extra as nat),
    {
        let here = self.index();
        if extra == 0 || here == 2 {
            return self;
        }
        if here < 2 {
            if extra >= here {
                Verbosity::Silent
            } else {
                Verbosity::at(here - extra)
            }
        } else {
            if extra >= 5 - here {
                Verbosity::Trace
            } else {
                Verbosity::at(here + extra)
            }
        }
    }

    /// Whether a message declared at `rung` is said at this verbosity.
    pub fn admits(self, rung: Verbosity) -> (r: bool)
        ensures
            r == (rank(self) >= rank(rung)),
    {
        self.index() >= rung.index()
    }
}

/// The presentation flags as they appeared on the command line.
#[derive(Debug, Clone, Copy, PartialEq, Eq)]
#[non_exhaustive]
pub struct Presentation {
    /// The rung the ladder selected, or `None` when no ladder flag was passed.
    pub verbosity: Option<Verbosity>,
    /// `--no-color`.
    pub no_color: bool,
    /// `--no-input`: never prompt, whatever stderr is attached to.
    pub no_input: bool,
    /// `-y --yes`: the confirmation a destructive verb asks for, given.
    pub yes: bool,
}

impl Default for Presentation {
    /// No flag given.
    fn default() -> (r: Presentation)
        ensures
            r.verbosity is None && !r.no_color && !r.no_input && !r.yes,
    {
        Presentation { verbosity: None, no_color: false, no_input: false, yes: false }
    }
}

/// The resolved output mode: what to say, and how.
#[derive(Debug, Clone, Copy, PartialEq, Eq)]
#[non_exhaustive]
pub struct Mode {
    /// The resolved rung.
    pub verbosity: Verbosity,
    /// Whether stderr may carry colour.
    pub color: bool,
    /// Whether the run is unattended: no prompting, no decoration.
    pub machine: bool,
    /// Whether a destructive operation has been confirmed.
    pub confirmed: bool,
}

impl Default for Mode {
    /// The mode to report an error under when resolution itself failed:
    /// loud, uncoloured, unattended, and never confirmed.
    fn default() -> (r: Mode)
        ensures
            r.verbosity == Verbosity::Normal && !r.color && r.machine && !r.confirmed,
    {
        Mode { verbosity: Verbosity::Normal, color: false, machine: true, confirmed: false }
    }
}

impl Mode {
    /// A mode with every field given.
    pub fn new(verbosity: Verbosity, color: bool, machine: bool, confirmed: bool) -> (r: Mode)
        ensures
            r.verbosity == verbosity && r.color == color && r.machine == machine && r.confirmed
                == confirmed,
    {
        Mode { verbosity, color, machine, confirmed }
    }
}

/// `BATTEN_LOG_LEVEL`, the one environment equivalent the ladder carries.
pub const LOG_LEVEL_ENV: &'static str = "BATTEN_LOG_LEVEL";

/// `BATTEN_NO_COLOR`, the env equivalent of `--no-color`.
pub const NO_COLOR_ENV: &'static str = "BATTEN_NO_COLOR";

/// `BATTEN_NO_INPUT`, the env equivalent of `--no-input`.
pub const NO_INPUT_ENV: &'static str = "BATTEN_NO_INPUT";

/// `BATTEN_YES`, the env equivalent of `-y --yes`.
pub const YES_ENV: &'static str = "BATTEN_YES";

/// The environment's value for a key: the first pair that names it, with
/// an empty value read as unset.
pub open spec fn env_value(env: Seq<(Seq<char>, Seq<char>)>, key: Seq<char>) -> Option<Seq<char>>
    decreases env.len(),
{
    if env.len() == 0 {
        None
    } else if env[0].0 == key {
        if env[0].1.len() > 0 {
            Some(env[0].1)
        } else {
            None
        }
    } else {
        env_value(env.drop_first(), key)
    }
}

/// The environment as plain values.
pub open spec fn env_views(env: Seq<(String, String)>) -> Seq<(Seq<char>, Seq<char>)> {
    env.map_values(|p: (String, String)| (p.0@, p.1@))
}

/// Read one environment variable, treating an empty value as unset.
pub fn present(env: &[(String, String)], key: &str) -> (r: Option<String>)
    ensures
        match r {
            Some(v) => env_value(env_views(env@), key@) == Some(v@),
            None => env_value(env_views(env@), key@) is None,
        },
{
    let ghost ev = env_views(env@);
    let mut i: usize = 0;
    proof {
        assert(ev.subrange(0, ev.len() as int) == ev);
    }
    while i < env.len()
        invariant
            i <= env.len(),
            ev == env_views(env@),
            env_value(ev, key@) == env_value(ev.subrange(i as int, ev.len() as int), key@),
        decreases env.len() - i,
    {
        let ghost rest = ev.subrange(i as int, ev.len() as int);
        proof {
            assert(rest[0] == (env@[i as int].0@, env@[i as int].1@));
            assert(rest.drop_first() == ev.subrange(i + 1, ev.len() as int));
        }
        if same_string(env[i].0.as_str(), key) {
            if env[i].1.as_str().is_empty() {
                return None;
            }
            return Some(env[i].1.clone());
        }
        i += 1;
    }
    None
}

/// The rendering of a token in a refusal: double-quoted, with the
/// backslash, the double quote, tab, CR and LF escaped, and every other
/// ASCII control character as `\u{..}` in lowercase hex.
pub open spec fn quoted(t: Seq<char>) -> Seq<char> {
    "\""@ + escaped(t) + "\""@
}

/// A token's characters, each escaped as `quoted` says.
pub open spec fn escaped(t: Seq<char>) -> Seq<char>
    decreases t.len(),
{
    if t.len() == 0 {
        seq![]
    } else {
        escaped(t.drop_last()) + escape_char(t.last())
    }
}

/// The lowercase hex digit of a value below 16.
pub open spec fn hex_lower(d: int) -> char {
    if d < 10 {
        ('0' as int + d) as char
    } else {
        ('a' as int + d - 10) as char
    }
}

/// One character, escaped.
pub open spec fn escape_char(c: char) -> Seq<char> {
    if c == '\\' {
        "\\\\"@
    } else if c == '"' {
        "\\\""@
    } else if c == '\t' {
        "\\t"@
    } else if c == '\r' {
        "\\r"@
    } else if c == '\n' {
        "\\n"@
    } else if c < '\u{20}' || c == '\u{7f}' {
        if (c as int) < 16 {
            "\\u{"@ + seq![hex_lower(c as int)] + "}"@
        } else {
            "\\u{"@ + seq![hex_lower((c as int) / 16), hex_lower((c as int) % 16)] + "}"@
        }
    } else {
        seq![c]
    }
}

fn hex_lower_exec(d: u32) -> (r: char)
    requires
        d < 16,
    ensures
        r == hex_lower(d as int),
{
    if d < 10 {
        ((48 + d) as u8) as char
    } else {
        ((97 + d - 10) as u8) as char
    }
}

fn control_code(c: char) -> (r: u32)
    requires
        c < '\u{20}' || c == '\u{7f}',
    ensures
        r == c as int,
{
    let mut k: u8 = 0;
    while k < 128
        invariant
            k <= 128,
            (c as int) < 128,
            (c as int) >= k,
        decreases 128 - k,
    {
        if (k as char) == c {
            return k as u32;
        }
        k += 1;
    }
    proof {
        assert((c as int) != (c as int));
    }
    0
}

pub(crate) fn push_escaped(out: &mut String, t: &[char])
    ensures
        final(out)@ == old(out)@ + escaped(t@),
{
    let ghost start = out@;
    let mut i: usize = 0;
    while i < t.len()
        invariant
            i <= t.len(),
            out@ == start + escaped(t@.subrange(0, i as int)),
        decreases t.len() - i,
    {
        proof {
            assert(t@.subrange(0, i + 1).drop_last() == t@.subrange(0, i as int));
            assert(t@.subrange(0, i + 1).last() == t@[i as int]);
        }
        let c = t[i];
        if c == '\\' {
            out.append("\\\\");
        } else if c == '"' {
            out.append("\\\"");
        } else if c == '\t' {
            out.append("\\t");
        } else if c == '\r' {
            out.append("\\r");
        } else if c == '\n' {
            out.append("\\n");
        } else if c < '\u{20}' || c == '\u{7f}' {
            let v = control_code(c);
            out.append("\\u{");
            if v < 16 {
                crate::text::push_char(out, hex_lower_exec(v));
            } else {
                crate::text::push_char(out, hex_lower_exec(v / 16));
                crate::text::push_char(out, hex_lower_exec(v % 16));
            }
            out.append("}");
        } else {
            crate::text::push_char(out, c);
        }
        proof {
            assert(escaped(t@.subrange(0, i + 1)) == escaped(t@.subrange(0, i as int))
                + escape_char(t@[i as int]));
        }
        i += 1;
    }
    proof {
        assert(t@.subrange(0, t.len() as int) == t@);
    }
}

/// The refusal a `BATTEN_LOG_LEVEL` that names no rung earns.
pub open spec fn log_level_message(token: Seq<char>) -> Seq<char> {
    "BATTEN_LOG_LEVEL: "@ + quoted(token)
        + " names no verbosity; expected one of silent, quiet, normal, verbose, debug, trace"@
}

/// Whether the run is unattended: no terminal on stderr, `--no-input` by
/// flag or env, `CI`, `TERM=dumb` or `NO_COLOR` — each only ever forces it.
pub open spec fn machine_of(
    flags: Presentation,
    stderr_tty: bool,
    env: Seq<(Seq<char>, Seq<char>)>,
) -> bool {
    !stderr_tty || flags.no_input || env_value(env, "BATTEN_NO_INPUT"@) is Some || env_value(
        env,
        "CI"@,
    ) is Some || env_value(env, "TERM"@) == Some("dumb"@) || env_value(env, "NO_COLOR"@) is Some
}

/// Whether stderr may carry colour: `CLICOLOR_FORCE` always; otherwise an
/// attended terminal that nothing asked to keep plain.
pub open spec fn color_of(flags: Presentation, stderr_tty: bool, env: Seq<(Seq<char>, Seq<char>)>) -> bool {
    env_value(env, "CLICOLOR_FORCE"@) is Some || (!(flags.no_color || env_value(
        env,
        "BATTEN_NO_COLOR"@,
    ) is Some) && env_value(env, "NO_COLOR"@) is None && env_value(env, "CLICOLOR"@) != Some(
        "0"@,
    ) && stderr_tty && !machine_of(flags, stderr_tty, env))
}

/// Resolve the output mode from explicit inputs: the flags, whether each
/// stream is a terminal, and the environment as key/value pairs. Flag beats
/// env; the env rung is parsed even when a flag won, so a typo is refused
/// rather than hidden. `stdout_tty` governs nothing: stdout is the answer
/// channel.
pub fn resolve_with(
    flags: &Presentation,
    stdout_tty: bool,
    stderr_tty: bool,
    env: &[(String, String)],
) -> (r: Result<Mode, UsageError>)
    ensures
        ({
            let ev = env_views(env@);
            match env_value(ev, "BATTEN_LOG_LEVEL"@) {
                Some(t) if token_rung(t) is None => r is Err && r->Err_0.message@
                    == log_level_message(t),
                _ => r is Ok && r->Ok_0 == Mode {
                    verbosity: match flags.verbosity {
                        Some(v) => v,
                        None => match env_value(ev, "BATTEN_LOG_LEVEL"@) {
                            Some(t) => token_rung(t)->0,
                            None => Verbosity::Normal,
                        },
                    },
                    color: color_of(*flags, stderr_tty, ev),
                    machine: machine_of(*flags, stderr_tty, ev),
                    confirmed: flags.yes || env_value(ev, "BATTEN_YES"@) is Some,
                },
            }
        }),
{
    let ghost ev = env_views(env@);
    let from_env = match present(env, "BATTEN_LOG_LEVEL") {
        Some(token) => match Verbosity::from_token(token.as_str()) {
            Some(v) => Some(v),
            None => {
                let mut m = String::from_str("BATTEN_LOG_LEVEL: ");
                m.append("\"");
                let tc = chars_of(token.as_str());
                push_escaped(&mut m, tc.as_slice());
                m.append("\"");
                m.append(
                    " names no verbosity; expected one of silent, quiet, normal, verbose, debug, trace",
                );
                return Err(UsageError::new(m));
            },
        },
        None => None,
    };
    let verbosity = match flags.verbosity {
        Some(v) => v,
        None => match from_env {
            Some(v) => v,
            None => Verbosity::Normal,
        },
    };
    let no_color = flags.no_color || present(env, "BATTEN_NO_COLOR").is_some();
    let no_input = flags.no_input || present(env, "BATTEN_NO_INPUT").is_some();
    let confirmed = flags.yes || present(env, "BATTEN_YES").is_some();
    let term_dumb = match present(env, "TERM") {
        Some(t) => same_string(t.as_str(), "dumb"),
        None => false,
    };
    let machine = !stderr_tty || no_input || present(env, "CI").is_some() || term_dumb || present(
        env,
        "NO_COLOR",
    ).is_some();
    let clicolor_zero = match present(env, "CLICOLOR") {
        Some(t) => same_string(t.as_str(), "0"),
        None => false,
    };
    let color = present(env, "CLICOLOR_FORCE").is_some() || (!no_color && present(
        env,
        "NO_COLOR",
    ).is_none() && !clicolor_zero && stderr_tty && !machine);
    proof {
        reveal_strlit("dumb");
        reveal_strlit("0");
    }
    Ok(Mode { verbosity, color, machine, confirmed })
}

// ---------------------------------------------------------------------------
// The argv scan: position is the tie-break.
// ---------------------------------------------------------------------------

/// A ladder flag, as the raw-argv scan recognises it.
#[derive(Debug, Clone, Copy, PartialEq, Eq)]
pub enum Ladder {
    /// A flag that selects one rung.
    Fixed(Verbosity),
    /// `--log-level`, whose value names the rung.
    Named,
}

/// The ladder flag a token selects, if it is one.
pub open spec fn ladder_spec(t: Seq<char>) -> Option<Ladder> {
    if t == "--silent"@ {
        Some(Ladder::Fixed(Verbosity::Silent))
    } else if t == "--quiet"@ || t == "-q"@ {
        Some(Ladder::Fixed(Verbosity::Quiet))
    } else if t == "--verbose"@ || t == "-v"@ {
        Some(Ladder::Fixed(Verbosity::Verbose))
    } else if t == "--debug"@ {
        Some(Ladder::Fixed(Verbosity::Debug))
    } else if t == "--trace"@ {
        Some(Ladder::Fixed(Verbosity::Trace))
    } else if t == "--log-level"@ {
        Some(Ladder::Named)
    } else {
        None
    }
}

/// The ladder flag a token selects, if it is one.
pub fn ladder_of(token: &str) -> (r: Option<Ladder>)
    ensures
        r == ladder_spec(token@),
{
    if same_string(token, "--silent") {
        Some(Ladder::Fixed(Verbosity::Silent))
    } else if same_string(token, "--quiet") || same_string(token, "-q") {
        Some(Ladder::Fixed(Verbosity::Quiet))
    } else if same_string(token, "--verbose") || same_string(token, "-v") {
        Some(Ladder::Fixed(Verbosity::Verbose))
    } else if same_string(token, "--debug") {
        Some(Ladder::Fixed(Verbosity::Debug))
    } else if same_string(token, "--trace") {
        Some(Ladder::Fixed(Verbosity::Trace))
    } else if same_string(token, "--log-level") {
        Some(Ladder::Named)
    } else {
        None
    }
}

/// Whether a token is a clustered run of counted ladder shorts (`-vv`,
/// `-qv`): a single dash and at least two letters, each `q` or `v`.
pub open spec fn clustered(t: Seq<char>) -> bool {
    t.len() > 2 && t[0] == '-' && t[1] != '-' && forall|i: int|
        1 <= i < t.len() ==> #[trigger] t[i] == 'q' || t[i] == 'v'
}

/// The flags a token stands for: each letter of a cluster as its own short
/// flag, anything else as itself.
pub open spec fn expand_one(t: Seq<char>) -> Seq<Seq<char>> {
    if clustered(t) {
        Seq::new((t.len() - 1) as nat, |i: int| seq!['-', t[i + 1]])
    } else {
        seq![t]
    }
}

/// A token list with every cluster split into its flags.
pub open spec fn expanded(ts: Seq<Seq<char>>) -> Seq<Seq<char>>
    decreases ts.len(),
{
    if ts.len() == 0 {
        seq![]
    } else {
        expanded(ts.drop_last()) + expand_one(ts.last())
    }
}

/// Split a clustered short run (`-vv`, `-qv`) into its individual flags.
pub fn expand_clusters(argv: &[String]) -> (r: Vec<String>)
    ensures
        string_views(r@) == expanded(string_views(argv@)),
{
    let ghost av = string_views(argv@);
    let mut out: Vec<String> = Vec::new();
    let mut k: usize = 0;
    while k < argv.len()
        invariant
            k <= argv.len(),
            av == string_views(argv@),
            string_views(out@) == expanded(av.subrange(0, k as int)),
        decreases argv.len() - k,
    {
        proof {
            assert(av.subrange(0, k + 1).drop_last() == av.subrange(0, k as int));
            assert(av.subrange(0, k + 1).last() == argv@[k as int]@);
        }
        let t = chars_of(argv[k].as_str());
        let mut all_qv = t.len() > 2 && t[0] == '-' && t[1] != '-';
        let mut i: usize = 1;
        while all_qv && i < t.len()
            invariant
                1 <= i,
                all_qv ==> i <= t.len(),
                all_qv ==> t@.len() > 2 && t@[0] == '-' && t@[1] != '-',
                all_qv ==> forall|j: int| 1 <= j < i ==> #[trigger] t@[j] == 'q' || t@[j] == 'v',
                !all_qv ==> !clustered(t@),
            decreases t.len() - i,
        {
            if !(t[i] == 'q' || t[i] == 'v') {
                all_qv = false;
            }
            i += 1;
        }
        let ghost before = string_views(out@);
        if all_qv {
            let mut j: usize = 1;
            while j < t.len()
                invariant
                    1 <= j <= t.len(),
                    clustered(t@),
                    string_views(out@) == before + expand_one(t@).subrange(0, j - 1),
                decreases t.len() - j,
            {
                let mut f = String::from_str("-");
                crate::text::push_char(&mut f, t[j]);
                proof {
                    reveal_strlit("-");
                    assert(f@ == expand_one(t@)[j - 1]);
                    assert(expand_one(t@).subrange(0, j as int) == expand_one(t@).subrange(
                        0,
                        j - 1,
                    ).push(f@));
                    assert(string_views(out@.push(f)) == string_views(out@).push(f@));
                }
                out.push(f);
                j += 1;
            }
            proof {
                assert(expand_one(t@).subrange(0, t.len() - 1) == expand_one(t@));
            }
        } else {
            let c = argv[k].clone();
            proof {
                assert(string_views(out@.push(c)) == string_views(out@).push(c@));
                assert(expand_one(t@) == seq![c@]);
            }
            out.push(c);
        }
        k += 1;
    }
    proof {
        assert(av.subrange(0, argv.len() as int) == av);
    }
    out
}

/// What the scan has read so far: the last ladder flag with how many times
/// it ran consecutively, the rung `--log-level` named, and the booleans.
#[derive(Debug, Clone, Copy, PartialEq, Eq)]
pub struct Scan {
    /// The last ladder flag, and its consecutive repetitions.
    pub last: Option<(Ladder, u8)>,
    /// The rung the last `--log-level` named, where it named one.
    pub named: Option<Verbosity>,
    /// `--no-color` seen.
    pub no_color: bool,
    /// `--no-input` seen.
    pub no_input: bool,
    /// `--yes` or `-y` seen.
    pub yes: bool,
}

/// A flag token split at its first `=` when it is a long flag: the name,
/// and the inline value.
pub open spec fn split_flag(raw: Seq<char>) -> (Seq<char>, Option<Seq<char>>) {
    match split_once(raw, "="@) {
        Some((name, value)) => if starts_with(name, "--"@) {
            (name, Some(value))
        } else {
            (raw, None)
        },
        None => (raw, None),
    }
}

/// A ladder flag counted into the run: a repetition of the last flag steps
/// the count (saturating), any other starts a new run.
pub open spec fn bump(last: Option<(Ladder, u8)>, rung: Ladder) -> Option<(Ladder, u8)> {
    match last {
        Some((previous, count)) => if previous == rung {
            Some((rung, if count == 255 { 255u8 } else { (count + 1) as u8 }))
        } else {
            Some((rung, 1u8))
        },
        None => Some((rung, 1u8)),
    }
}

/// The scan of the tokens from `i` on: it stops at `--`; the presentation
/// booleans are read anywhere; `--log-level` takes the inline value or the
/// next token; and a flag that consumes a value has that value skipped so
/// it can never be read as a ladder flag.
pub open spec fn scan(tokens: Seq<Seq<char>>, consumes: Seq<Seq<char>>, i: int, st: Scan) -> Scan
    decreases tokens.len() + 1 - i,
{
    if i < 0 || i >= tokens.len() {
        st
    } else if tokens[i] == "--"@ {
        st
    } else {
        let (token, inline) = split_flag(tokens[i]);
        if token == "--no-color"@ {
            scan(tokens, consumes, i + 1, Scan { no_color: true, ..st })
        } else if token == "--no-input"@ {
            scan(tokens, consumes, i + 1, Scan { no_input: true, ..st })
        } else if token == "--yes"@ || token == "-y"@ {
            scan(tokens, consumes, i + 1, Scan { yes: true, ..st })
        } else {
            match ladder_spec(token) {
                Some(Ladder::Named) => {
                    let value = if inline is Some {
                        inline
                    } else if i + 1 < tokens.len() {
                        Some(tokens[i + 1])
                    } else {
                        None
                    };
                    let next = if inline is Some {
                        i + 1
                    } else {
                        i + 2
                    };
                    let named = match value {
                        Some(v) => token_rung(v),
                        None => None,
                    };
                    scan(
                        tokens,
                        consumes,
                        next,
                        Scan { named: named, last: Some((Ladder::Named, 1u8)), ..st },
                    )
                },
                Some(rung) => scan(tokens, consumes, i + 1, Scan { last: bump(st.last, rung), ..st }),
                None => if inline is None && consumes.contains(token) {
                    scan(tokens, consumes, i + 2, st)
                } else {
                    scan(tokens, consumes, i + 1, st)
                },
            }
        }
    }
}

/// The scan's start: nothing read.
pub open spec fn scan_start() -> Scan {
    Scan { last: None, named: None, no_color: false, no_input: false, yes: false }
}

/// The presentation a finished scan selects: a fixed rung stepped further
/// by its repetitions, the named rung, or none.
pub open spec fn presentation_of(st: Scan) -> Presentation {
    Presentation {
        verbosity: match st.last {
            Some((Ladder::Fixed(rung), count)) => Some(
                further_spec(rung, if count == 0 { 0 } else { (count - 1) as nat }),
            ),
            Some((Ladder::Named, _)) => st.named,
            None => None,
        },
        no_color: st.no_color,
        no_input: st.no_input,
        yes: st.yes,
    }
}

fn same_ladder(a: Ladder, b: Ladder) -> (r: bool)
    ensures
        r == (a == b),
{
    match (a, b) {
        (Ladder::Named, Ladder::Named) => true,
        (Ladder::Fixed(x), Ladder::Fixed(y)) => x.index() == y.index(),
        _ => false,
    }
}

fn holds_token(v: &[String], t: &str) -> (r: bool)
    ensures
        r == string_views(v@).contains(t@),
{
    let mut i: usize = 0;
    while i < v.len()
        invariant
            i <= v.len(),
            forall|j: int| 0 <= j < i ==> #[trigger] string_views(v@)[j] != t@,
        decreases v.len() - i,
    {
        if same_string(v[i].as_str(), t) {
            proof {
                assert(string_views(v@)[i as int] == t@);
            }
            return true;
        }
        i += 1;
    }
    false
}

impl Presentation {
    /// Read the presentation flags out of a raw argument list, in order. The
    /// rightmost ladder flag wins and its own consecutive repetitions step
    /// further from `normal`; `consumes` lists the flag spellings that take
    /// a value, whose value is skipped.
    pub fn from_argv(argv: &[String], consumes: &[String]) -> (r: Presentation)
        ensures
            r == presentation_of(
                scan(expanded(string_views(argv@)), string_views(consumes@), 0, scan_start()),
            ),
    {
        let tokens = expand_clusters(argv);
        let ghost tv = string_views(tokens@);
        let ghost cv = string_views(consumes@);
        let mut st = Scan { last: None, named: None, no_color: false, no_input: false, yes: false };
        let mut index: usize = 0;
        let mut stopped = false;
        while !stopped && index < tokens.len()
            invariant
                tv == string_views(tokens@),
                cv == string_views(consumes@),
                scan(tv, cv, 0, scan_start()) == if stopped {
                    st
                } else {
                    scan(tv, cv, index as int, st)
                },
            decreases tokens.len() - index, if stopped { 0int } else { 1int },
        {
            proof {
                assert(tv[index as int] == tokens@[index as int]@);
            }
            let ghost i0 = index as int;
            let ghost st0 = st;
            let raw = tokens[index].as_str();
            if same_string(raw, "--") {
                stopped = true;
            } else {
                let rc = chars_of(raw);
                let (token, inline): (String, Option<String>) = match split_once_exec(
                    rc.as_slice(),
                    "=",
                ) {
                    Some((name, value)) => if starts_with_str(name.as_slice(), "--") {
                        (string_of(name.as_slice()), Some(string_of(value.as_slice())))
                    } else {
                        (String::from_str(raw), None)
                    },
                    None => (String::from_str(raw), None),
                };
                proof {
                    assert(split_flag(tv[index as int]) == (token@, match inline {
                        Some(v) => Some(v@),
                        None => None,
                    }));
                }
                let t = token.as_str();
                if same_string(t, "--no-color") {
                    st.no_color = true;
                    index += 1;
                    proof { assert(scan(tv, cv, i0, st0) == scan(tv, cv, index as int, st)); }
                } else if same_string(t, "--no-input") {
                    st.no_input = true;
                    index += 1;
                    proof { assert(scan(tv, cv, i0, st0) == scan(tv, cv, index as int, st)); }
                } else if same_string(t, "--yes") || same_string(t, "-y") {
                    st.yes = true;
                    index += 1;
                    proof { assert(scan(tv, cv, i0, st0) == scan(tv, cv, index as int, st)); }
                } else {
                    match ladder_of(t) {
                        Some(Ladder::Named) => {
                            let value: Option<String> = match &inline {
                                Some(v) => Some(v.clone()),
                                None => if index + 1 < tokens.len() {
                                    proof {
                                        assert(tv[index + 1] == tokens@[index + 1]@);
                                    }
                                    Some(tokens[index + 1].clone())
                                } else {
                                    None
                                },
                            };
                            st.named = match &value {
                                Some(v) => Verbosity::from_token(v.as_str()),
                                None => None,
                            };
                            st.last = Some((Ladder::Named, 1));
                            if inline.is_some() || index + 1 >= tokens.len() {
                                index += 1;
                            } else {
                                index += 2;
                            }
                            proof {
                                if index as int >= tv.len() {
                                    assert(scan(tv, cv, index as int, st) == st);
                                    assert(scan(tv, cv, i0 + 2, st) == st);
                                }
                            }
                        },
                        Some(rung) => {
                            st.last = match st.last {
                                Some((previous, count)) => if same_ladder(previous, rung) {
                                    Some((rung, if count == 255 { 255 } else { count + 1 }))
                                } else {
                                    Some((rung, 1))
                                },
                                None => Some((rung, 1)),
                            };
                            index += 1;
                            proof { assert(scan(tv, cv, i0, st0) == scan(tv, cv, index as int, st)); }
                        },
                        None => {
                            if inline.is_none() && holds_token(consumes, t)
                                && index + 1 < tokens.len() {
                                index += 2;
                            } else {
                                index += 1;
                            }
                            proof {
                                if index as int >= tv.len() {
                                    assert(scan(tv, cv, index as int, st) == st);
                                    assert(scan(tv, cv, i0 + 2, st) == st);
                                }
                            }
                        },
                    }
                }
            }
        }
        let verbosity = match st.last {
            Some((Ladder::Fixed(rung), count)) => Some(
                rung.further(if count == 0 { 0 } else { count - 1 }),
            ),
            Some((Ladder::Named, _)) => st.named,
            None => None,
        };
        Presentation { verbosity, no_color: st.no_color, no_input: st.no_input, yes: st.yes }
    }
}

// ---------------------------------------------------------------------------
// What reaches stderr.
// ---------------------------------------------------------------------------

/// The line a gated message is written as, where the resolved rung admits
/// it: `batten: <text>` and a newline.
pub fn message(mode: Mode, rung: Verbosity, text: &str) -> (r: Option<String>)
    ensures
        rank(mode.verbosity) >= rank(rung) ==> r is Some && r->0@ == "batten: "@ + text@ + "\n"@,
        rank(mode.verbosity) < rank(rung) ==> r is None,
{
    if !mode.verbosity.admits(rung) {
        return None;
    }
    let mut out = String::from_str("batten: ");
    out.append(text);
    out.append("\n");
    Some(out)
}

/// The line a failure is reported as. Never gated; the mode decides colour
/// only.
pub fn error(mode: Mode, text: &str) -> (r: String)
    ensures
        mode.color ==> r@ == "\x1b[31mbatten:\x1b[0m "@ + text@ + "\n"@,
        !mode.color ==> r@ == "batten: "@ + text@ + "\n"@,
{
    let mut out = if mode.color {
        String::from_str("\x1b[31mbatten:\x1b[0m ")
    } else {
        String::from_str("batten: ")
    };
    out.append(text);
    out.append("\n");
    out
}

/// The line a mediation verdict is written as: unprefixed, uncoloured, and
/// never gated.
pub fn verdict(text: &str) -> (r: String)
    ensures
        r@ == text@ + "\n"@,
{
    let mut out = String::from_str(text);
    out.append("\n");
    out
}

// ---------------------------------------------------------------------------
// What the ladder keeps
// ---------------------------------------------------------------------------

/// Whether the scan, reading this token without an inline value, takes the
/// next token as its value: `--log-level`, or a flag that consumes a value.
pub open spec fn takes_next(t: Seq<char>, consumes: Seq<Seq<char>>) -> bool {
    let (token, inline) = split_flag(t);
    &&& inline is None
    &&& token != "--no-color"@
    &&& token != "--no-input"@
    &&& token != "--yes"@
    &&& token != "-y"@
    &&& (ladder_spec(token) == Some(Ladder::Named) || (ladder_spec(token) is None && consumes.contains(
        token,
    )))
}

proof fn lemma_expanded_concat(x: Seq<Seq<char>>, y: Seq<Seq<char>>)
    ensures
        expanded(x + y) == expanded(x) + expanded(y),
    decreases y.len(),
{
    if y.len() == 0 {
        assert(x + y == x);
    } else {
        lemma_expanded_concat(x, y.drop_last());
        assert((x + y).drop_last() == x + y.drop_last());
        assert((x + y).last() == y.last());
    }
}

proof fn lemma_expanded_has_no_separator(a: Seq<Seq<char>>)
    requires
        !a.contains("--"@),
    ensures
        !expanded(a).contains("--"@),
    decreases a.len(),
{
    reveal_strlit("--");
    if a.len() > 0 {
        assert(!a.drop_last().contains("--"@)) by {
            if a.drop_last().contains("--"@) {
                let k = choose|k: int| 0 <= k < a.drop_last().len() && a.drop_last()[k] == "--"@;
                assert(a[k] == "--"@);
            }
        }
        lemma_expanded_has_no_separator(a.drop_last());
        let t = a.last();
        assert(t != "--"@) by {
            assert(a[a.len() - 1] == t);
        }
        let e = expand_one(t);
        assert(!e.contains("--"@)) by {
            if e.contains("--"@) {
                let k = choose|k: int| 0 <= k < e.len() && e[k] == "--"@;
                if clustered(t) {
                    assert(e[k][1] == t[k + 1]);
                }
            }
        }
        let whole = expanded(a.drop_last()) + e;
        assert(!whole.contains("--"@)) by {
            if whole.contains("--"@) {
                let k = choose|k: int| 0 <= k < whole.len() && whole[k] == "--"@;
                if k < expanded(a.drop_last()).len() {
                    assert(expanded(a.drop_last())[k] == "--"@);
                } else {
                    assert(e[k - expanded(a.drop_last()).len()] == "--"@);
                }
            }
        }
    }
}

proof fn lemma_scan_ignores_what_follows(
    t: Seq<Seq<char>>,
    u: Seq<Seq<char>>,
    consumes: Seq<Seq<char>>,
    i: int,
    st: Scan,
)
    requires
        !t.contains("--"@),
        t.len() > 0 ==> !takes_next(t.last(), consumes),
        0 <= i <= t.len(),
    ensures
        scan(t + seq!["--"@] + u, consumes, i, st) == scan(t, consumes, i, st),
    decreases t.len() + 1 - i,
{
    let long = t + seq!["--"@] + u;
    assert(long[t.len() as int] == "--"@);
    if i < t.len() {
        assert(long[i] == t[i]);
        assert(t[i] != "--"@);
        if i + 1 < t.len() {
            assert(long[i + 1] == t[i + 1]);
        }
        if i + 1 == t.len() {
            assert(t[i] == t.last());
        }
        let (token, inline) = split_flag(t[i]);
        if token == "--no-color"@ {
            lemma_scan_ignores_what_follows(t, u, consumes, i + 1, Scan { no_color: true, ..st });
        } else if token == "--no-input"@ {
            lemma_scan_ignores_what_follows(t, u, consumes, i + 1, Scan { no_input: true, ..st });
        } else if token == "--yes"@ || token == "-y"@ {
            lemma_scan_ignores_what_follows(t, u, consumes, i + 1, Scan { yes: true, ..st });
        } else {
            match ladder_spec(token) {
                Some(Ladder::Named) => {
                    let value = if inline is Some {
                        inline
                    } else if i + 1 < t.len() {
                        Some(t[i + 1])
                    } else {
                        None
                    };
                    let next = if inline is Some {
                        i + 1
                    } else {
                        i + 2
                    };
                    let named = match value {
                        Some(v) => token_rung(v),
                        None => None,
                    };
                    lemma_scan_ignores_what_follows(
                        t,
                        u,
                        consumes,
                        next,
                        Scan { named: named, last: Some((Ladder::Named, 1u8)), ..st },
                    );
                },
                Some(rung) => {
                    lemma_scan_ignores_what_follows(t, u, consumes, i + 1, Scan { last: bump(st.last, rung), ..st });
                },
                None => {
                    if inline is None && consumes.contains(token) {
                        lemma_scan_ignores_what_follows(t, u, consumes, i + 2, st);
                    } else {
                        lemma_scan_ignores_what_follows(t, u, consumes, i + 1, st);
                    }
                },
            }
        }
    }
}

/// Nothing after the first `--` changes the presentation: that separator
/// ends batten's own arguments and begins another program's, so a wrapped
/// command's `-v` or `--silent` selects nothing. The one way a separator is
/// not a separator is as a value: the tokens before it may not end with a
/// flag that takes the next token.
pub proof fn lemma_separator_ends_the_presentation(
    a: Seq<Seq<char>>,
    b: Seq<Seq<char>>,
    consumes: Seq<Seq<char>>,
)
    requires
        !a.contains("--"@),
        expanded(a).len() > 0 ==> !takes_next(expanded(a).last(), consumes),
    ensures
        presentation_of(scan(expanded(a + seq!["--"@] + b), consumes, 0, scan_start()))
            == presentation_of(scan(expanded(a), consumes, 0, scan_start())),
{
    reveal_strlit("--");
    lemma_expanded_concat(a + seq!["--"@], b);
    lemma_expanded_concat(a, seq!["--"@]);
    assert(!clustered("--"@));
    assert(expand_one("--"@) == seq!["--"@]);
    assert(expanded(seq!["--"@]) == seq!["--"@]) by {
        let one = seq!["--"@];
        assert(one.drop_last() == Seq::<Seq<char>>::empty());
        assert(one.last() == "--"@);
        assert(expanded(Seq::<Seq<char>>::empty()) == Seq::<Seq<char>>::empty());
        assert(expanded(one) == expanded(one.drop_last()) + expand_one(one.last()));
        assert(Seq::<Seq<char>>::empty() + one == one);
    }
    lemma_expanded_has_no_separator(a);
    lemma_scan_ignores_what_follows(expanded(a), expanded(b), consumes, 0, scan_start());
}

/// The ladder is a total order over every rung: each rung has a place of its
/// own, and its place names it back.
pub proof fn lemma_ladder_total_order(a: Verbosity, b: Verbosity)
    ensures
        0 <= rank(a) <= 5,
        rung_at(rank(a)) == a,
        rank(a) == rank(b) <==> a == b,
{
}

/// Every rung round-trips through its token, and no two rungs share one.
pub proof fn lemma_rung_tokens_round_trip(a: Verbosity, b: Verbosity)
    ensures
        token_rung(rung_token(a)) == Some(a),
        rung_token(a) == rung_token(b) ==> a == b,
{
    reveal_strlit("silent");
    reveal_strlit("quiet");
    reveal_strlit("normal");
    reveal_strlit("verbose");
    reveal_strlit("debug");
    reveal_strlit("trace");
    assert("quiet"@[0] != "silent"@[0]);
    assert("normal"@[0] != "silent"@[0]);
    assert("verbose"@[0] != "silent"@[0]);
    assert("debug"@[0] != "silent"@[0]);
    assert("trace"@[0] != "silent"@[0]);
    assert("normal"@[0] != "quiet"@[0]);
    assert("verbose"@[0] != "quiet"@[0]);
    assert("debug"@[0] != "quiet"@[0]);
    assert("trace"@[0] != "quiet"@[0]);
    assert("verbose"@[0] != "normal"@[0]);
    assert("debug"@[0] != "normal"@[0]);
    assert("trace"@[0] != "normal"@[0]);
    assert("debug"@[0] != "verbose"@[0]);
    assert("trace"@[0] != "verbose"@[0]);
    assert("trace"@[0] != "debug"@[0]);
}

/// Repetition steps one rung at a time, away from `normal` and never back
/// toward it: stepping `extra + 1` is stepping `extra` and then one more,
/// and `normal` itself never moves.
pub proof fn lemma_repetition_steps_one_rung(v: Verbosity, extra: nat)
    ensures
        further_spec(v, extra + 1) == further_spec(further_spec(v, extra), 1),
        rank(v) < 2 ==> rank(further_spec(v, extra)) <= rank(v),
        rank(v) > 2 ==> rank(further_spec(v, extra)) >= rank(v),
        further_spec(Verbosity::Normal, extra) == Verbosity::Normal,
{
}

/// A message is said exactly where its rung is admitted, so `silent` says
/// none but its own, and an admitted rung admits every quieter one.
pub proof fn lemma_admission_is_monotone(mode: Verbosity, a: Verbosity, b: Verbosity)
    ensures
        rank(mode) >= rank(a) && rank(a) >= rank(b) ==> rank(mode) >= rank(b),
        rank(Verbosity::Silent) >= rank(a) <==> a == Verbosity::Silent,
{
}

} // verus!
