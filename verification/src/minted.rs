//! A declared field of an already-minted receipt, on the tree surface.
//!
//! A receipt the mediated boundary wrote is read back for one declared
//! field, and only while the reading is recent enough: a reading older than
//! the row declares does not answer, so its subject is absent rather than
//! present with a stale token. Could-not-look is the ordinary answer here,
//! and it stays distinguishable from a reading that says something.

use vstd::prelude::*;
use vstd::string::StringExecFns;
use crate::text::{
    chars_of, lines, lines_exec, parse_u64, parse_u64_exec, string_of, string_views, strip_prefix,
    strip_prefix_exec, views, words, words_exec,
};

verus! {

/// Where the mediated boundary leaves its receipts, under the git
/// directory.
pub const DIRECTORY: &'static str = "batten-receipts";

/// One `[[rule.minted]]` row: which mint's receipts to read, and which
/// whitespace-separated column of their first line carries the field and
/// which the reading's time.
#[derive(Debug, Clone, PartialEq, Eq)]
pub struct MintedQuery {
    /// The fact id the field is reported under.
    pub id: String,
    /// The mint whose receipts are read.
    pub mint: String,
    /// The column holding the declared field.
    pub field: usize,
    /// The column holding the reading's time, in seconds since the epoch.
    pub recency: usize,
    /// How many days old a reading may be and still answer.
    pub max_age_days: u32,
}

/// The receipt directory for a checkout.
pub fn store_path(git_dir: &str) -> (r: String)
    ensures
        r@ == crate::mutate::path_join(git_dir@, "batten-receipts"@),
{
    proof {
        reveal_strlit("batten-receipts");
        reveal_strlit("/");
        assert(!crate::text::starts_with("batten-receipts"@, "/"@)) by {
            if crate::text::starts_with("batten-receipts"@, "/"@) {
                assert("batten-receipts"@.subrange(0, 1)[0] == "/"@[0]);
            }
        }
    }
    crate::mutate::join(git_dir, "batten-receipts")
}

/// The subject a receipt filename names for one mint: what follows the
/// mint's name and the first `.`, where that is not empty.
pub open spec fn subject_spec(filename: Seq<char>, mint: Seq<char>) -> Option<Seq<char>> {
    match strip_prefix(filename, mint) {
        Some(rest) => match strip_prefix(rest, "."@) {
            Some(subject) => if subject.len() > 0 {
                Some(subject)
            } else {
                None
            },
            None => None,
        },
        None => None,
    }
}

/// The subject a receipt filename names, for one declared mint; `None`
/// where the file belongs to a different mint.
pub fn subject_of(filename: &str, mint: &str) -> (r: Option<String>)
    ensures
        match r {
            Some(s) => subject_spec(filename@, mint@) == Some(s@),
            None => subject_spec(filename@, mint@) is None,
        },
{
    let f = chars_of(filename);
    let rest = strip_prefix_exec(f.as_slice(), mint)?;
    let subject = strip_prefix_exec(rest.as_slice(), ".")?;
    if subject.len() == 0 {
        return None;
    }
    Some(string_of(subject.as_slice()))
}

/// The declared field of a receipt whose first line's columns are `fields`,
/// if the reading is recent enough: the recency column must parse, and the
/// reading be no more than the bound's days old (a reading from the future
/// is not refused).
pub open spec fn field_spec(
    fields: Seq<Seq<char>>,
    field: nat,
    recency: nat,
    max_age_days: nat,
    now: nat,
) -> Option<Seq<char>> {
    if recency >= fields.len() {
        None
    } else {
        match parse_u64(fields[recency as int]) {
            None => None,
            Some(taken) => {
                let age = if now >= taken {
                    now - taken
                } else {
                    0
                };
                let bound = max_age_days * 86400;
                if age > bound {
                    None
                } else if field < fields.len() {
                    Some(fields[field as int])
                } else {
                    None
                }
            },
        }
    }
}

/// The declared field of one receipt, if the reading is recent enough.
pub fn field_of(text: &str, row: &MintedQuery, now: u64) -> (r: Option<String>)
    ensures
        match r {
            Some(v) => lines(text@).len() > 0 && field_spec(
                words(lines(text@)[0]),
                row.field as nat,
                row.recency as nat,
                row.max_age_days as nat,
                now as nat,
            ) == Some(v@),
            None => lines(text@).len() == 0 || field_spec(
                words(lines(text@)[0]),
                row.field as nat,
                row.recency as nat,
                row.max_age_days as nat,
                now as nat,
            ) is None,
        },
{
    let c = chars_of(text);
    let ls = lines_exec(c.as_slice());
    if ls.len() == 0 {
        return None;
    }
    proof {
        assert(views(ls@)[0] == ls@[0]@);
    }
    let fields = words_exec(ls[0].as_slice());
    if row.recency >= fields.len() {
        return None;
    }
    proof {
        assert(views(fields@)[row.recency as int] == fields@[row.recency as int]@);
    }
    let taken = parse_u64_exec(fields[row.recency].as_slice())?;
    let age = now.saturating_sub(taken);
    let bound: u64 = (row.max_age_days as u64) * 86400;
    if age > bound {
        return None;
    }
    if row.field < fields.len() {
        proof {
            assert(views(fields@)[row.field as int] == fields@[row.field as int]@);
        }
        Some(string_of(fields[row.field].as_slice()))
    } else {
        None
    }
}

} // verus!
