//! The staleness half of a landing lap's wait: has `main` moved past the
//! base this branch was replayed onto?
//!
//! One conditional read of the trunk ref per poll, made by the caller; this
//! module holds the state one poll carries into the next and the decision
//! over it. An unchanged reading (`304`) leaves the last reading standing;
//! only a reading replaces the reading; and a read that could not look is
//! never movement.

use vstd::prelude::*;
use crate::json::Json;
use vstd::string::StringExecFns;
use crate::text::same_string;

verus! {

/// What the staleness poll needs.
#[derive(Debug, Clone)]
pub struct Config {
    /// The repository, in whatever spelling the client resolves.
    pub repo: String,
    /// The trunk ref's short name, as the endpoint path spells it.
    pub branch: String,
    /// The sha the branch was replayed onto: what "moved" is measured
    /// against.
    pub base: String,
    /// Seconds between polls, a floor the server may raise and nothing may
    /// lower.
    pub interval: u64,
}

/// The endpoint path one read asks: `repos/<repo>/git/ref/heads/<branch>`,
/// the smallest response that answers the question.
pub open spec fn endpoint_of(repo: Seq<char>, branch: Seq<char>) -> Seq<char> {
    "repos/"@ + repo + "/git/ref/heads/"@ + branch
}

impl Config {
    /// The endpoint path one read asks.
    pub fn endpoint(&self) -> (r: String)
        ensures
            r@ == endpoint_of(self.repo@, self.branch@),
    {
        let mut out = String::from_str("repos/");
        out.append(self.repo.as_str());
        out.append("/git/ref/heads/");
        out.append(self.branch.as_str());
        out
    }
}

/// What one completed read answered, as the poll folds it in.
#[derive(Debug, Clone, PartialEq, Eq)]
pub struct Answer {
    /// The validator the response carried, if any.
    pub etag: Option<String>,
    /// Whether the response is a reading: a success that is not `304`.
    pub reading: bool,
    /// The sha the body names, where it is a readable ref object naming a
    /// non-empty sha.
    pub head: Option<String>,
}

/// The state one staleness poll carries into the next.
#[derive(Debug)]
pub struct Poll {
    etag: Option<String>,
    head: Option<String>,
    polls: u64,
}

/// An optional string as plain values.
pub open spec fn opt_view(o: Option<String>) -> Option<Seq<char>> {
    match o {
        Some(s) => Some(s@),
        None => None,
    }
}

fn copy_opt(o: &Option<String>) -> (c: Option<String>)
    ensures
        opt_view(c) == opt_view(*o),
{
    match o {
        Some(s) => Some(s.clone()),
        None => None,
    }
}

impl Default for Poll {
    /// No answer yet.
    fn default() -> (r: Poll)
        ensures
            r.etag_view() is None && r.head_view() is None && r.count() == 0,
    {
        Poll { etag: None, head: None, polls: 0 }
    }
}

impl Poll {
    /// The validator the next request sends.
    pub closed spec fn etag_view(self) -> Option<Seq<char>> {
        opt_view(self.etag)
    }

    /// The sha this poll holds.
    pub closed spec fn head_view(self) -> Option<Seq<char>> {
        opt_view(self.head)
    }

    /// How many requests this poll has made.
    pub closed spec fn count(self) -> nat {
        self.polls as nat
    }

    /// Fold one answer in: the count advances whatever came back (so an
    /// unreachable forge cannot make a bounded loop unbounded); a validator
    /// survives an answer that carries none; and only a reading replaces
    /// the reading.
    pub fn absorb(&mut self, answer: Option<&Answer>)
        requires
            old(self).count() < u64::MAX,
        ensures
            final(self).count() == old(self).count() + 1,
            match answer {
                None => final(self).etag_view() == old(self).etag_view() && final(self).head_view()
                    == old(self).head_view(),
                Some(a) => final(self).etag_view() == (if a.etag is Some {
                    opt_view(a.etag)
                } else {
                    old(self).etag_view()
                }) && final(self).head_view() == (if a.reading {
                    opt_view(a.head)
                } else {
                    old(self).head_view()
                }),
            },
    {
        self.polls = self.polls + 1;
        let Some(a) = answer else {
            return;
        };
        if a.etag.is_some() {
            self.etag = copy_opt(&a.etag);
        }
        if a.reading {
            self.head = copy_opt(&a.head);
        }
    }

    /// The validator for the next request.
    pub fn etag(&self) -> (r: Option<&str>)
        ensures
            match r {
                Some(s) => self.etag_view() == Some(s@),
                None => self.etag_view() is None,
            },
    {
        match &self.etag {
            Some(e) => Some(e.as_str()),
            None => None,
        }
    }

    /// The sha this poll currently holds, where it has read one.
    pub fn head(&self) -> (r: Option<&str>)
        ensures
            match r {
                Some(s) => self.head_view() == Some(s@),
                None => self.head_view() is None,
            },
    {
        match &self.head {
            Some(h) => Some(h.as_str()),
            None => None,
        }
    }

    /// How many requests have been made.
    pub fn polls(&self) -> (r: u64)
        ensures
            r == self.count(),
    {
        self.polls
    }

    /// Where the trunk has moved to, or `None` for still landable: nothing
    /// read yet, a reading equal to the base, and an empty base (nothing to
    /// have moved from) are all not movement.
    pub fn moved(&self, base: &str) -> (r: Option<&str>)
        ensures
            match r {
                Some(s) => base@.len() > 0 && self.head_view() == Some(s@) && s@ != base@,
                None => base@.len() == 0 || self.head_view() is None || self.head_view() == Some(
                    base@,
                ),
            },
    {
        if base.is_empty() {
            return None;
        }
        let head = self.head.as_ref()?;
        if same_string(head.as_str(), base) {
            None
        } else {
            Some(head.as_str())
        }
    }
}

/// The sha a ref document names: its `object.sha`, where that is a
/// non-empty string. Anything else is no reading.
pub open spec fn head_of_document(document: Json) -> Option<Seq<char>> {
    match crate::json::member(document, "object"@) {
        Some(o) => match crate::json::member(o, "sha"@) {
            Some(s) => match crate::json::text(s) {
                Some(t) => if t.len() > 0 {
                    Some(t)
                } else {
                    None
                },
                None => None,
            },
            None => None,
        },
        None => None,
    }
}

/// The sha a ref document names, where it names one.
pub fn head_from_body(document: &Json) -> (r: Option<String>)
    ensures
        opt_view(r) == head_of_document(*document),
{
    let object = match crate::json::member_of(document, "object") {
        Some(o) => o,
        None => return None,
    };
    match crate::json::member_of(object, "sha") {
        Some(Json::Text(t)) => {
            if t.as_str().unicode_len() == 0 {
                None
            } else {
                Some(t.clone())
            }
        },
        _ => None,
    }
}

} // verus!
