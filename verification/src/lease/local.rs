//! This clone's own lease bookkeeping: its holder id, minted once and reused
//! by every later verb, and how long it has seen one value sit under a
//! name, on its own clock. The files they live in are the caller's to read
//! and write.

use vstd::prelude::*;
use vstd::string::StringExecFns;
use crate::num::{clamp64, sat_sub};
use crate::text::{
    chars_of, int_string, int_text, parse_i64, parse_i64_exec, same, string_of, trim, trim_chars,
    views, words, words_exec,
};

verus! {

/// The holder id a recorded file carries: its text trimmed, where anything
/// is left.
pub open spec fn recorded_holder(recorded: Seq<char>) -> Option<Seq<char>> {
    if trim(recorded).len() > 0 {
        Some(trim(recorded))
    } else {
        None
    }
}

/// The holder id a recorded file carries, where it carries one. A clone
/// that has none mints one with [`minted_holder`] and records it.
pub fn holder_in(recorded: &str) -> (r: Option<String>)
    ensures
        match r {
            Some(h) => recorded_holder(recorded@) == Some(h@),
            None => recorded_holder(recorded@) is None,
        },
{
    let chars = chars_of(recorded);
    let t = trim_chars(chars.as_slice());
    if t.len() == 0 {
        None
    } else {
        Some(string_of(t.as_slice()))
    }
}

/// A fresh holder id: the host, the process and a nonce, dash-separated,
/// so two clones never mint the same one.
pub open spec fn holder_text(host: Seq<char>, pid: u32, nonce: Seq<char>) -> Seq<char> {
    host + "-"@ + int_text(pid as int) + "-"@ + nonce
}

/// A fresh holder id, and the line it is recorded as.
pub fn minted_holder(host: &str, pid: u32, nonce: &str) -> (r: (String, String))
    ensures
        r.0@ == holder_text(host@, pid, nonce@),
        r.1@ == holder_text(host@, pid, nonce@) + "\n"@,
{
    let mut id = String::from_str(host);
    id.append("-");
    let p = int_string(pid as i64);
    id.append(p.as_str());
    id.append("-");
    id.append(nonce);
    let mut line = id.clone();
    line.append("\n");
    (id, line)
}

/// What a sighting record says: the value last seen under a name and the
/// instant it was first seen, where the second reads as a number.
pub open spec fn record_of(seen: Seq<char>) -> (Seq<char>, Option<i64>) {
    let ws = words(seen);
    (
        if ws.len() > 0 {
            ws[0]
        } else {
            Seq::<char>::empty()
        },
        if ws.len() > 1 {
            parse_i64(ws[1])
        } else {
            None
        },
    )
}

/// How long `token` has sat under a name as of `now`, and the record to
/// write where there is a new one: the same value seen before measures from
/// its first sighting; a first sighting, a changed value, or a record that
/// does not read is `0`, and is recorded as `token now`.
pub open spec fn sighting_of(seen: Seq<char>, token: Seq<char>, now: i64) -> (i64, Option<Seq<char>>) {
    match record_of(seen) {
        (previous, Some(since)) => if previous == token {
            (clamp64(now - since), None)
        } else {
            (0, Some(token + " "@ + int_text(now as int) + "\n"@))
        },
        (_, None) => (0, Some(token + " "@ + int_text(now as int) + "\n"@)),
    }
}

/// How long `token` has sat under a name as of `now`, from the record
/// `seen` (empty where there is none), and the record to write in its place
/// where one is due. A changed value restarts the clock, which is what makes
/// this evidence about the lease sitting still rather than about how long it
/// has been watched.
pub fn sighting(seen: &str, token: &str, now: i64) -> (r: (i64, Option<String>))
    ensures
        (r.0, match r.1 {
            Some(t) => Some(t@),
            None => None,
        }) == sighting_of(seen@, token@, now),
{
    let chars = chars_of(seen);
    let ws = words_exec(chars.as_slice());
    let tc = chars_of(token);
    if ws.len() > 1 {
        match parse_i64_exec(ws[1].as_slice()) {
            Some(since) => {
                if same(ws[0].as_slice(), tc.as_slice()) {
                    return (sat_sub(now, since), None);
                }
            },
            None => {},
        }
    }
    let mut line = String::from_str(token);
    line.append(" ");
    let n = int_string(now);
    line.append(n.as_str());
    line.append("\n");
    (0, Some(line))
}

} // verus!
