//! The post-tool outcome, normalized.
//!
//! A bare pinned tool can fail loudly after it starts. This advises rather
//! than decides, and only on exact, anchored signatures: the structured exit
//! code is read first, so no amount of diagnostic prose can promote an
//! outcome to a class. An outcome carries a closed class, an optional code,
//! an OS family and the program token as written — never a byte of the
//! command's output.

use vstd::prelude::*;
use vstd::string::StringExecFns;
use vstd::string::StringSliceAdditionalSpecFns;
use crate::error::UsageError;
use crate::lease::pack::{hex_of, hex_text};
use crate::json::Json;
use crate::text::{chars_of, int_string, int_text, nat_string, same_string, string_of, words, words_exec};

verus! {

/// A normalized failure class: closed, and deliberately small.
#[derive(Debug, Clone, Copy, PartialEq, Eq)]
#[non_exhaustive]
pub enum Class {
    /// The shell could not find the program.
    CommandNotFound,
    /// The program was found and could not be executed.
    PermissionDenied,
    /// A declared program rejected a flag.
    UnsupportedOption,
    /// Could not look: an outcome this build cannot classify is one nothing
    /// may advise on.
    Unknown,
}

/// The token a class is reported under.
pub open spec fn class_token(c: Class) -> Seq<char> {
    match c {
        Class::CommandNotFound => "command-not-found"@,
        Class::PermissionDenied => "permission-denied"@,
        Class::UnsupportedOption => "unsupported-option"@,
        Class::Unknown => "unknown"@,
    }
}

/// The class a declared token names, if this build knows it.
pub open spec fn class_named(t: Seq<char>) -> Option<Class> {
    if t == "command-not-found"@ {
        Some(Class::CommandNotFound)
    } else if t == "permission-denied"@ {
        Some(Class::PermissionDenied)
    } else if t == "unsupported-option"@ {
        Some(Class::UnsupportedOption)
    } else {
        None
    }
}

impl Class {
    /// The stable token this class is reported under.
    pub fn as_str(self) -> (r: &'static str)
        ensures
            r@ == class_token(self),
    {
        match self {
            Class::CommandNotFound => "command-not-found",
            Class::PermissionDenied => "permission-denied",
            Class::UnsupportedOption => "unsupported-option",
            Class::Unknown => "unknown",
        }
    }

    /// Whether this class may carry advice at all: never the could-not-look
    /// one.
    pub fn advisable(self) -> (r: bool)
        ensures
            r == (self != Class::Unknown),
    {
        match self {
            Class::Unknown => false,
            _ => true,
        }
    }
}

/// The class a declared token names, or `None` for one this build does not
/// know.
pub fn class_of(token: &str) -> (r: Option<Class>)
    ensures
        r == class_named(token@),
{
    if same_string(token, "command-not-found") {
        Some(Class::CommandNotFound)
    } else if same_string(token, "permission-denied") {
        Some(Class::PermissionDenied)
    } else if same_string(token, "unsupported-option") {
        Some(Class::UnsupportedOption)
    } else {
        None
    }
}

/// Which operating-system family the outcome came from.
#[derive(Debug, Clone, Copy, PartialEq, Eq)]
#[non_exhaustive]
pub enum Family {
    /// A POSIX shell host.
    Unix,
    /// Anything this build has not surveyed.
    Unsupported,
}

/// The token a signature's `family` column is compared against.
pub open spec fn family_name(f: Family) -> Seq<char> {
    match f {
        Family::Unix => "unix"@,
        Family::Unsupported => "unsupported"@,
    }
}

/// The token a signature's `family` column is compared against.
pub fn family_token(family: Family) -> (r: &'static str)
    ensures
        r@ == family_name(family),
{
    match family {
        Family::Unix => "unix",
        Family::Unsupported => "unsupported",
    }
}

/// One normalized outcome: everything a static remedy needs and nothing
/// else.
#[derive(Debug, Clone, PartialEq, Eq)]
#[non_exhaustive]
pub struct Outcome {
    /// The closed class.
    pub class: Class,
    /// The structured exit code, where the host supplies one.
    pub code: Option<i64>,
    /// The OS family.
    pub family: Family,
    /// The program token as written: the command's first word.
    pub token: Option<String>,
}

/// A declared signature: what makes a class exact.
#[derive(Debug, Clone, PartialEq, Eq)]
#[non_exhaustive]
pub struct Signature {
    /// The class this signature establishes.
    pub class: String,
    /// The structured exit code it requires: the anchoring.
    pub code: i64,
    /// The OS family it applies to.
    pub family: String,
}

impl Signature {
    /// A signature with every column given.
    pub fn new(class: String, code: i64, family: String) -> (r: Signature)
        ensures
            r.class@ == class@ && r.code == code && r.family@ == family@,
    {
        Signature { class, code, family }
    }
}

/// A signature as plain values.
pub open spec fn signature_view(s: Signature) -> (Seq<char>, i64, Seq<char>) {
    (s.class@, s.code, s.family@)
}

/// The class the first signature with this code and family names, or
/// could-not-look where none matches or its class is unknown.
pub open spec fn class_for(sigs: Seq<(Seq<char>, i64, Seq<char>)>, code: i64, family: Family) -> Class
    decreases sigs.len(),
{
    if sigs.len() == 0 {
        Class::Unknown
    } else if sigs[0].1 == code && sigs[0].2 == family_name(family) {
        match class_named(sigs[0].0) {
            Some(c) => c,
            None => Class::Unknown,
        }
    } else {
        class_for(sigs.drop_first(), code, family)
    }
}

/// Classify one post-tool result against the declared signatures, from the
/// structured code the host supplied (if any), the command as written, and
/// this build's family. Absent a code the outcome is could-not-look before
/// anything else is read.
pub fn classify(code: Option<i64>, command: &str, signatures: &[Signature], family: Family) -> (r: Outcome)
    ensures
        r.family == family,
        r.code == code,
        match r.token {
            Some(t) => words(command@).len() > 0 && t@ == words(command@)[0],
            None => words(command@).len() == 0,
        },
        r.class == match code {
            None => Class::Unknown,
            Some(c) => class_for(signatures@.map_values(|s: Signature| signature_view(s)), c, family),
        },
{
    let c = chars_of(command);
    let ws = words_exec(c.as_slice());
    let token = if ws.len() > 0 {
        Some(string_of(ws[0].as_slice()))
    } else {
        None
    };
    let Some(c0) = code else {
        return Outcome { class: Class::Unknown, code: None, family, token };
    };
    let ghost sv = signatures@.map_values(|s: Signature| signature_view(s));
    let fam = family_token(family);
    let mut i: usize = 0;
    proof {
        assert(sv.subrange(0, sv.len() as int) == sv);
    }
    while i < signatures.len()
        invariant
            i <= signatures.len(),
            code == Some(c0),
            match token {
                Some(t) => words(command@).len() > 0 && t@ == words(command@)[0],
                None => words(command@).len() == 0,
            },
            sv == signatures@.map_values(|s: Signature| signature_view(s)),
            fam@ == family_name(family),
            class_for(sv, c0, family) == class_for(sv.subrange(i as int, sv.len() as int), c0, family),
        decreases signatures.len() - i,
    {
        let ghost rest = sv.subrange(i as int, sv.len() as int);
        proof {
            assert(rest[0] == signature_view(signatures@[i as int]));
            assert(rest.drop_first() == sv.subrange(i + 1, sv.len() as int));
        }
        let s = &signatures[i];
        if s.code == c0 && same_string(s.family.as_str(), fam) {
            let class = match class_of(s.class.as_str()) {
                Some(c) => c,
                None => Class::Unknown,
            };
            return Outcome { class, code: Some(c0), family, token };
        }
        i += 1;
    }
    Outcome { class: Class::Unknown, code: Some(c0), family, token }
}

/// The first refusal a signature table earns, from the `k`th row on (rows
/// counted from 1 in the message): an unresolvable class, an unsurveyed
/// family, or a (code, family) pair an earlier row claims.
pub open spec fn outcome_fault(rows: Seq<(Seq<char>, i64, Seq<char>)>, k: int) -> Option<Seq<char>>
    decreases rows.len() - k,
{
    if k < 0 || k >= rows.len() {
        None
    } else {
        let (class, code, family) = rows[k];
        let row = crate::text::decimal((k + 1) as nat);
        if class_named(class) is None {
            Some(
                "[[outcome]] row "@ + row + ": `class` is `"@ + class
                    + "`, which is not a class this build resolves"@,
            )
        } else if family != "unix"@ && family != "unsupported"@ {
            Some(
                "[[outcome]] row "@ + row + ": `family` is `"@ + family
                    + "`, which names no surveyed OS family"@,
            )
        } else if exists|j: int| 0 <= j < k && #[trigger] rows[j].1 == code && rows[j].2 == family {
            Some(
                "[[outcome]] row "@ + row + ": a second row claims code "@ + int_text(code as int)
                    + " on `"@ + family
                    + "`, so which arm answers would depend on table order"@,
            )
        } else {
            outcome_fault(rows, k + 1)
        }
    }
}

/// Refuse a signature table that could not mean anything, at load.
pub fn validate(signatures: &[Signature]) -> (r: Result<(), UsageError>)
    ensures
        match outcome_fault(signatures@.map_values(|s: Signature| signature_view(s)), 0) {
            Some(m) => r is Err && r->Err_0.message@ == m,
            None => r is Ok,
        },
{
    let ghost rows = signatures@.map_values(|s: Signature| signature_view(s));
    let mut k: usize = 0;
    while k < signatures.len()
        invariant
            k <= signatures.len(),
            rows == signatures@.map_values(|s: Signature| signature_view(s)),
            outcome_fault(rows, 0) == outcome_fault(rows, k as int),
        decreases signatures.len() - k,
    {
        let s = &signatures[k];
        proof {
            assert(rows[k as int] == signature_view(signatures@[k as int]));
        }
        let row = nat_string((k + 1) as u64);
        if class_of(s.class.as_str()).is_none() {
            let mut m = String::from_str("[[outcome]] row ");
            m.append(row.as_str());
            m.append(": `class` is `");
            m.append(s.class.as_str());
            m.append("`, which is not a class this build resolves");
            return Err(UsageError::new(m));
        }
        if !same_string(s.family.as_str(), "unix") && !same_string(s.family.as_str(), "unsupported") {
            let mut m = String::from_str("[[outcome]] row ");
            m.append(row.as_str());
            m.append(": `family` is `");
            m.append(s.family.as_str());
            m.append("`, which names no surveyed OS family");
            return Err(UsageError::new(m));
        }
        let mut j: usize = 0;
        while j < k
            invariant
                j <= k < signatures.len(),
                rows == signatures@.map_values(|s: Signature| signature_view(s)),
                s == signatures@[k as int],
                row@ == crate::text::decimal((k + 1) as nat),
                outcome_fault(rows, 0) == outcome_fault(rows, k as int),
                class_named(rows[k as int].0) is Some,
                rows[k as int].2 == "unix"@ || rows[k as int].2 == "unsupported"@,
                forall|i: int|
                    0 <= i < j ==> !(#[trigger] rows[i].1 == rows[k as int].1 && rows[i].2
                        == rows[k as int].2),
            decreases k - j,
        {
            proof {
                assert(rows[j as int] == signature_view(signatures@[j as int]));
            }
            if signatures[j].code == s.code && same_string(signatures[j].family.as_str(), s.family.as_str()) {
                let mut m = String::from_str("[[outcome]] row ");
                m.append(row.as_str());
                m.append(": a second row claims code ");
                let c = int_string(s.code);
                m.append(c.as_str());
                m.append(" on `");
                m.append(s.family.as_str());
                m.append("`, so which arm answers would depend on table order");
                proof {
                    assert(rows[j as int].1 == rows[k as int].1 && rows[j as int].2 == rows[k as int].2);
                }
                return Err(UsageError::new(m));
            }
            j += 1;
        }
        k += 1;
    }
    Ok(())
}

/// The SHA-256 digest of some bytes.
pub uninterp spec fn sha256(data: Seq<u8>) -> Seq<u8>;

/// The SHA-256 digest of `data`.
///
/// Trusted: `sha2::Sha256::digest`. The contract names the result and states
/// that a SHA-256 digest is thirty-two bytes.
#[verifier::external_body]
pub(crate) fn sha256_of(data: &[u8]) -> (r: Vec<u8>)
    ensures
        r@ == sha256(data@),
        r@.len() == 32,
{
    <sha2::Sha256 as sha2::Digest>::digest(data).to_vec()
}

/// The key an advisory is rate-limited by: the session's SHA-256 in hex,
/// the tool, and the class token, dot-separated. The raw session never
/// appears in it.
pub open spec fn advice_key_spec(session: Seq<char>, tool: Seq<char>, class: Class) -> Seq<char> {
    hex_text(sha256(vstd::utf8::encode_utf8(session))) + "."@ + tool + "."@ + class_token(class)
}

/// The key an advisory is rate-limited by: session, tool and class.
pub fn advice_key(session: &str, tool: &str, class: Class) -> (r: String)
    ensures
        r@ == advice_key_spec(session@, tool@, class),
{
    let digest = sha256_of(session.as_bytes());
    let mut out = hex_of(digest.as_slice());
    out.append(".");
    out.append(tool);
    out.append(".");
    out.append(class.as_str());
    out
}

/// Every class is reported under a token of its own, each declared token
/// names back its class, and only `unknown` is silent.
pub proof fn lemma_classes_are_distinct(a: Class, b: Class)
    ensures
        class_token(a) == class_token(b) ==> a == b,
        a != Class::Unknown ==> class_named(class_token(a)) == Some(a),
        class_named(class_token(Class::Unknown)) is None,
{
    reveal_strlit("command-not-found");
    reveal_strlit("permission-denied");
    reveal_strlit("unsupported-option");
    reveal_strlit("unknown");
    assert("permission-denied"@[0] != "command-not-found"@[0]);
    assert("unsupported-option"@[0] != "command-not-found"@[0]);
    assert("unknown"@[0] != "command-not-found"@[0]);
    assert("unsupported-option"@[0] != "permission-denied"@[0]);
    assert("unknown"@[0] != "permission-denied"@[0]);
    assert("unknown"@.len() != "unsupported-option"@.len());
}

/// The integer a result carries under `key`: a number written as an integer
/// that fits in 64 signed bits; `None` for anything else, a sentence above
/// all.
pub open spec fn code_at(result: Json, key: Seq<char>) -> Option<i64> {
    match crate::json::member(result, key) {
        Some(Json::Number(n)) => crate::text::parse_i64(n@),
        _ => None,
    }
}

/// The structured exit code: the first of `exitCode`, `exit_code` and
/// `returnCode` that carries one.
pub open spec fn structured_code_of(result: Json) -> Option<i64> {
    if code_at(result, "exitCode"@) is Some {
        code_at(result, "exitCode"@)
    } else if code_at(result, "exit_code"@) is Some {
        code_at(result, "exit_code"@)
    } else {
        code_at(result, "returnCode"@)
    }
}

fn code_of(result: &Json, key: &str) -> (r: Option<i64>)
    ensures
        r == code_at(*result, key@),
{
    match crate::json::member_of(result, key) {
        Some(Json::Number(n)) => {
            let digits = chars_of(n.as_str());
            crate::text::parse_i64_exec(digits.as_slice())
        },
        _ => None,
    }
}

/// The structured exit code, where the host supplies one. A value that is
/// not an integer is `None`: reading a sentence as a code would make a
/// signature fire on nothing it meant.
pub fn structured_code(result: &Json) -> (r: Option<i64>)
    ensures
        r == structured_code_of(*result),
{
    if let Some(code) = code_of(result, "exitCode") {
        return Some(code);
    }
    if let Some(code) = code_of(result, "exit_code") {
        return Some(code);
    }
    code_of(result, "returnCode")
}

} // verus!
