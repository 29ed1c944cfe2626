//! The lease's exchanges with its remote, as the decisions on either side of
//! each request: what to ask for, and what an answer means. Sending the
//! request is the caller's.
//!
//! Every answer that cannot be read is an error here, never an unheld lease:
//! an unreachable remote read as free is the misread that lets two sessions
//! land at once.

use vstd::prelude::*;
use vstd::string::StringExecFns;
use crate::lease::body::{Body, body_of_text, body_view, parse_body, render_text};
use crate::lease::pack::{
    Object, ObjectKind, ObjectView, PackError, first_with_id, git_object_id, lease_commit,
    lease_object, object_view, object_views, objects_in, objects_of, pack_bytes, pack_of,
};
use crate::lease::rules::{Observed, ObservedView, Terms, observed_view};
use crate::lease::wire::{
    Advertisement, LeaseError, Update, ZERO, command_text, flush, framed, lookup, pkt_section,
    pkt_split, pktline, receive_pack_body, ref_views, utf8_lossy,
};
use crate::text::{starts_with, starts_with_str, chars_of};

verus! {

/// Why an exchange with the lease's remote could not be read.
#[derive(Debug, Clone, PartialEq, Eq)]
pub enum ExchangeError {
    /// The remote does not advertise this full ref name.
    NotAdvertised(String),
    /// The wire could not be read.
    Wire(LeaseError),
    /// The pack could not be read or written.
    Pack(PackError),
    /// The answer does not carry the object asked for.
    NotCarried,
}

/// The full ref name a reference means: a name already under `refs/` as it
/// is, any other a branch under `refs/heads/`. An advertisement is keyed by
/// full name, so a short name looked up as it is finds nothing.
pub open spec fn qualified_name(reference: Seq<char>) -> Seq<char> {
    if starts_with(reference, "refs/"@) {
        reference
    } else {
        "refs/heads/"@ + reference
    }
}

/// The full ref name a reference means.
pub fn qualified(reference: &str) -> (r: String)
    ensures
        r@ == qualified_name(reference@),
{
    let chars = chars_of(reference);
    if starts_with_str(chars.as_slice(), "refs/") {
        String::from_str(reference)
    } else {
        let mut out = String::from_str("refs/heads/");
        out.append(reference);
        out
    }
}

/// The id an advertisement carries under a name, or the all-zero id where it
/// carries none.
pub open spec fn head_of_spec(adv: Seq<(Seq<char>, Seq<char>)>, name: Seq<char>) -> Seq<char> {
    match lookup(adv, name) {
        Some(id) => id,
        None => ZERO@,
    }
}

/// What a fetch of `reference` wants: the id the remote advertises under the
/// reference's full name. A remote that carries no such ref (or carries the
/// all-zero id under it) is refused, naming the full name.
pub fn want_of(adv: &Advertisement, reference: &str) -> (r: Result<String, ExchangeError>)
    ensures
        head_of_spec(ref_views(adv.refs@), qualified_name(reference@)) != ZERO@ ==> (r matches Ok(
            id,
        ) && id@ == head_of_spec(ref_views(adv.refs@), qualified_name(reference@))),
        head_of_spec(ref_views(adv.refs@), qualified_name(reference@)) == ZERO@ ==> (r matches Err(
            ExchangeError::NotAdvertised(name),
        ) && name@ == qualified_name(reference@)),
{
    let name = qualified(reference);
    let want = adv.head_of(name.as_str());
    if crate::text::same_string(want, ZERO) {
        return Err(ExchangeError::NotAdvertised(name));
    }
    Ok(String::from_str(want))
}

/// The objects an upload-pack answer carries: anything but a `200` is
/// could-not-look; a `200` carries its framed negotiation and then, unframed,
/// the pack.
pub open spec fn pack_answer_of(status: u16, body: Seq<u8>) -> Result<Seq<ObjectView>, ExchangeError> {
    if status != 200 {
        Err(ExchangeError::Wire(LeaseError::Status(status)))
    } else {
        match pkt_section(body) {
            Err(n) => Err(ExchangeError::Wire(LeaseError::ShortLine(n as usize))),
            Ok((_, tail)) => match objects_of(body.subrange(tail, body.len() as int)) {
                Ok(objs) => Ok(objs),
                Err(e) => Err(ExchangeError::Pack(e)),
            },
        }
    }
}

/// Read the objects out of an upload-pack answer.
pub fn pack_answer(status: u16, body: &[u8]) -> (r: Result<Vec<Object>, ExchangeError>)
    ensures
        r is Ok <==> pack_answer_of(status, body@) is Ok,
        r matches Ok(v) ==> object_views(v@) == pack_answer_of(status, body@)->Ok_0,
        r matches Err(e) ==> pack_answer_of(status, body@) == Err::<Seq<ObjectView>, ExchangeError>(
            e,
        ),
{
    if status != 200 {
        return Err(ExchangeError::Wire(LeaseError::Status(status)));
    }
    let tail = match pkt_split(body) {
        Ok((_, t)) => t,
        Err(e) => return Err(ExchangeError::Wire(e)),
    };
    match objects_in(&body[tail..body.len()]) {
        Ok(v) => Ok(v),
        Err(e) => Err(ExchangeError::Pack(e)),
    }
}

/// The body that asks the remote for one object by id: a `want` with no
/// progress, a flush, and `done`. A lease is a parentless commit over the
/// empty tree, so its whole closure is itself and there is nothing to
/// negotiate.
pub open spec fn object_request_of(id: Seq<char>) -> Option<Seq<u8>> {
    match framed(vstd::utf8::encode_utf8("want "@ + id + " no-progress\n"@)) {
        None => None,
        Some(w) => match framed(vstd::utf8::encode_utf8("done\n"@)) {
            None => None,
            Some(d) => Some(w + flush() + d),
        },
    }
}

/// The body that asks the remote for one object by id.
pub fn object_request(id: &str) -> (r: Result<Vec<u8>, LeaseError>)
    ensures
        match object_request_of(id@) {
            Some(b) => r matches Ok(v) && v@ == b,
            None => r == Err::<Vec<u8>, LeaseError>(LeaseError::Unframeable),
        },
{
    let mut line = String::from_str("want ");
    line.append(id);
    line.append(" no-progress\n");
    let mut body = match pktline(line.as_str()) {
        Ok(b) => b,
        Err(e) => return Err(e),
    };
    let done = match pktline("done\n") {
        Ok(b) => b,
        Err(e) => return Err(e),
    };
    let ghost want = body@;
    body.push(48u8);
    body.push(48u8);
    body.push(48u8);
    body.push(48u8);
    let mut tail = done;
    body.append(&mut tail);
    proof {
        assert(body@ =~= want + flush() + done@);
    }
    Ok(body)
}

/// The one object an answer to [`object_request`] was asked for: the first
/// the pack carries under that id. A server answering with some other object
/// is not an answer about this lease.
pub open spec fn object_answer_of(id: Seq<char>, status: u16, body: Seq<u8>) -> Result<ObjectView, ExchangeError> {
    match pack_answer_of(status, body) {
        Err(e) => Err(e),
        Ok(objs) => match first_with_id(objs, id, 0) {
            Some(k) => Ok(objs[k]),
            None => Err(ExchangeError::NotCarried),
        },
    }
}

/// Read the one object asked for out of an upload-pack answer.
pub fn object_answer(id: &str, status: u16, body: &[u8]) -> (r: Result<Object, ExchangeError>)
    ensures
        r is Ok <==> object_answer_of(id@, status, body@) is Ok,
        r matches Ok(o) ==> object_view(o) == object_answer_of(id@, status, body@)->Ok_0,
        r matches Err(e) ==> object_answer_of(id@, status, body@) == Err::<ObjectView, ExchangeError>(
            e,
        ),
{
    let mut objects = match pack_answer(status, body) {
        Ok(v) => v,
        Err(e) => return Err(e),
    };
    let ghost ov = object_views(objects@);
    let mut k: usize = 0;
    while k < objects.len()
        invariant
            k <= objects.len(),
            ov == object_views(objects@),
            pack_answer_of(status, body@) == Ok::<Seq<ObjectView>, ExchangeError>(ov),
            first_with_id(ov, id@, 0) == first_with_id(ov, id@, k as int),
        decreases objects.len() - k,
    {
        if crate::text::same_string(objects[k].id.as_str(), id) {
            proof {
                assert(ov[k as int] == object_view(objects@[k as int]));
            }
            let found = objects.remove(k);
            return Ok(found);
        }
        k += 1;
    }
    Err(ExchangeError::NotCarried)
}

/// The message a ref that carries no lease body is reported under.
pub open spec fn no_body_message() -> Seq<char> {
    "the ref carries no lease body"@
}

/// What the lease ref's object says: a lease held at `sha`, or, where the
/// object does not parse as a lease body, garbage that every decision still
/// treats as held.
pub open spec fn observed_of(sha: Seq<char>, object: Seq<u8>) -> ObservedView {
    match body_of_text(utf8_lossy(object)) {
        Some(b) => ObservedView::Held(sha, b),
        None => ObservedView::Garbage(sha, no_body_message()),
    }
}

/// Read what the lease ref at `sha` says out of its object's bytes.
pub fn observed_from(sha: &str, object: &[u8]) -> (r: Observed)
    ensures
        observed_view(r) == observed_of(sha@, object@),
{
    match parse_body(object) {
        Some(body) => Observed::Held { sha: String::from_str(sha), body },
        None => Observed::Garbage {
            sha: String::from_str(sha),
            why: String::from_str("the ref carries no lease body"),
        },
    }
}

/// What a read of the lease does after the advertisement: nothing, where the
/// remote carries no lease ref (the lease is absent), or fetch the object
/// the ref names.
#[derive(Debug, Clone, PartialEq, Eq)]
pub enum LeaseLook {
    /// The remote carries no lease ref.
    Absent,
    /// Fetch this object: the lease ref's id.
    Fetch(String),
}

/// What to do about the lease ref `reference` in an advertisement.
pub fn lease_look(adv: &Advertisement, reference: &str) -> (r: LeaseLook)
    ensures
        match lookup(ref_views(adv.refs@), reference@) {
            Some(id) => r matches LeaseLook::Fetch(s) && s@ == id,
            None => r == LeaseLook::Absent,
        },
{
    match adv.id_of(reference) {
        Some(id) => LeaseLook::Fetch(id.clone()),
        None => LeaseLook::Absent,
    }
}

/// What the lease ref at `sha` says, from the fetch of its object: a fetch
/// that failed is an error and never an absent lease, and an object with no
/// lease body is garbage rather than free.
pub fn observation(sha: &str, fetched: Result<Vec<u8>, ExchangeError>) -> (r: Result<Observed, ExchangeError>)
    ensures
        match fetched {
            Ok(object) => r matches Ok(o) && observed_view(o) == observed_of(sha@, object@),
            Err(e) => r == Err::<Observed, ExchangeError>(e),
        },
        !(r matches Ok(Observed::Absent)),
{
    match fetched {
        Ok(object) => Ok(observed_from(sha, object.as_slice())),
        Err(e) => Err(e),
    }
}

/// The update that deletes `reference`, or `None` where the remote already
/// carries none (or the all-zero id): a deletion is idempotent, so a ref
/// already gone is applied without a request.
pub fn deletion(adv: &Advertisement, reference: &str) -> (r: Option<Update>)
    ensures
        head_of_spec(ref_views(adv.refs@), reference@) == ZERO@ ==> r is None,
        head_of_spec(ref_views(adv.refs@), reference@) != ZERO@ ==> (r matches Some(u) && u.old@
            == head_of_spec(ref_views(adv.refs@), reference@) && u.new@ == ZERO@ && u.name@
            == reference@),
{
    let old = adv.head_of(reference);
    if crate::text::same_string(old, ZERO) {
        return None;
    }
    Some(Update { old: String::from_str(old), new: String::from_str(ZERO), name: String::from_str(reference) })
}

/// What a swap expects the lease ref to read: the all-zero id for an absent
/// lease, which is how the first claim is made without a separate create
/// path, and the observed object's id otherwise.
pub open spec fn expected_of(observed: ObservedView) -> Seq<char> {
    match observed {
        ObservedView::Absent => ZERO@,
        ObservedView::Held(sha, _) => sha,
        ObservedView::Garbage(sha, _) => sha,
    }
}

/// The receive-pack body that swaps the lease to `body`, from whatever
/// `observed` said: the lease object minted at `now`, the update from the
/// expected id to the new object's id, and a pack carrying the object.
///
/// A failed mint is a refused swap and never a delete: the new id is one the
/// mint produced or there is no request at all.
pub open spec fn swap_request_of(terms: Terms, observed: ObservedView, body: Body, now: i64) -> Result<
    Seq<u8>,
    ExchangeError,
> {
    let commit = lease_commit(render_text(body_view(body)), now);
    match git_object_id(1, commit) {
        None => Err(ExchangeError::Pack(PackError::Unhashable)),
        Some(id) => match pack_bytes(seq![(id, ObjectKind::Commit, commit)]) {
            Err(e) => Err(ExchangeError::Pack(e)),
            Ok(p) => match framed(
                vstd::utf8::encode_utf8(command_text(expected_of(observed), id, terms.reference@)),
            ) {
                None => Err(ExchangeError::Wire(LeaseError::Unframeable)),
                Some(f) => Ok(f + flush() + p),
            },
        },
    }
}

/// The receive-pack body that swaps the lease to `body`.
pub fn swap_request(terms: &Terms, observed: &Observed, body: &Body, now: i64) -> (r: Result<
    Vec<u8>,
    ExchangeError,
>)
    ensures
        r is Ok <==> swap_request_of(*terms, observed_view(*observed), *body, now) is Ok,
        r matches Ok(b) ==> b@ == swap_request_of(*terms, observed_view(*observed), *body, now)->Ok_0,
        r matches Err(e) ==> swap_request_of(*terms, observed_view(*observed), *body, now) == Err::<
            Seq<u8>,
            ExchangeError,
        >(e),
{
    let old: &str = match observed {
        Observed::Absent => ZERO,
        Observed::Held { sha, .. } => sha.as_str(),
        Observed::Garbage { sha, .. } => sha.as_str(),
    };
    let message = body.render();
    let object = match lease_object(message.as_str(), now) {
        Ok(o) => o,
        Err(e) => return Err(ExchangeError::Pack(e)),
    };
    let update = Update {
        old: String::from_str(old),
        new: object.id.clone(),
        name: terms.reference.clone(),
    };
    let objects = vec![object];
    proof {
        assert(object_views(objects@) =~= seq![object_view(objects@[0])]);
    }
    let pack = match pack_of(objects.as_slice()) {
        Ok(p) => p,
        Err(e) => return Err(ExchangeError::Pack(e)),
    };
    match receive_pack_body(&update, pack.as_slice()) {
        Ok(b) => Ok(b),
        Err(e) => Err(ExchangeError::Wire(e)),
    }
}

} // verus!
