//! Packfiles: the undeltified writer a lease is minted with, and the reader
//! that resolves both delta forms a real server sends.
//!
//! The compression, the object hash and the pack trailer are the outside
//! crates' (`flate2` and `gix`); the framing around them, the two variable
//! length integers, the delta instruction stream and the member walk are this
//! module's, each stated below and proved against its statement.

use vstd::prelude::*;
use vstd::arithmetic::power2::pow2;
use crate::text::{int_text};

verus! {

// ---------------------------------------------------------------------------
// Objects
// ---------------------------------------------------------------------------

/// The four kinds of git object a pack carries undeltified.
#[derive(Debug, Clone, Copy, PartialEq, Eq)]
pub enum ObjectKind {
    Commit,
    Tree,
    Blob,
    Tag,
}

/// A kind's pack type number, which is the wire's own.
pub open spec fn type_number(kind: ObjectKind) -> u8 {
    match kind {
        ObjectKind::Commit => 1,
        ObjectKind::Tree => 2,
        ObjectKind::Blob => 3,
        ObjectKind::Tag => 4,
    }
}

/// The kind a type number names, or `None` for a delta or an unassigned
/// number.
pub open spec fn kind_of_number(number: u8) -> Option<ObjectKind> {
    if number == 1 {
        Some(ObjectKind::Commit)
    } else if number == 2 {
        Some(ObjectKind::Tree)
    } else if number == 3 {
        Some(ObjectKind::Blob)
    } else if number == 4 {
        Some(ObjectKind::Tag)
    } else {
        None
    }
}

/// The pack type number of a kind.
pub fn pack_type(kind: ObjectKind) -> (r: u8)
    ensures
        r == type_number(kind),
{
    match kind {
        ObjectKind::Commit => 1,
        ObjectKind::Tree => 2,
        ObjectKind::Blob => 3,
        ObjectKind::Tag => 4,
    }
}

/// The kind a pack type number names.
pub fn pack_kind(number: u8) -> (r: Option<ObjectKind>)
    ensures
        r == kind_of_number(number),
{
    if number == 1 {
        Some(ObjectKind::Commit)
    } else if number == 2 {
        Some(ObjectKind::Tree)
    } else if number == 3 {
        Some(ObjectKind::Blob)
    } else if number == 4 {
        Some(ObjectKind::Tag)
    } else {
        None
    }
}

/// A git object, as both halves of its identity: the id it hashes to and the
/// bytes that hash to it.
#[derive(Debug, Clone, PartialEq, Eq)]
pub struct Object {
    /// The object id, as forty hex characters.
    pub id: String,
    /// What kind of object it is.
    pub kind: ObjectKind,
    /// The object's payload, without the loose header.
    pub body: Vec<u8>,
}

/// An object as plain values: its id, its kind and its body.
pub type ObjectView = (Seq<char>, ObjectKind, Seq<u8>);

/// The view of an object.
pub open spec fn object_view(o: Object) -> ObjectView {
    (o.id@, o.kind, o.body@)
}

/// The views of a run of objects.
pub open spec fn object_views(v: Seq<Object>) -> Seq<ObjectView> {
    v.map_values(|o: Object| object_view(o))
}

/// Why a pack could not be read or written.
#[derive(Debug, Clone, Copy, PartialEq, Eq)]
pub enum PackError {
    /// The answer does not open with a pack signature and header.
    NotAPack,
    /// A pack of a version this reader does not speak.
    Version(u32),
    /// More objects than a pack header can count.
    TooManyObjects,
    /// The pack ends where an object header should be.
    HeaderMissing,
    /// An object header runs off the end of the pack.
    HeaderTruncated,
    /// An object header's size varint is wider than a machine word.
    HeaderTooWide,
    /// An offset delta carries no base distance.
    OffsetMissing,
    /// An offset delta's base distance runs off the end of the pack.
    OffsetTruncated,
    /// An offset delta's base distance does not fit a machine word.
    OffsetTooWide,
    /// An offset delta points before the pack.
    OffsetBeforePack,
    /// An offset delta names no member of this pack.
    OffsetNoMember,
    /// A reference delta runs off the end of the pack.
    RefTruncated,
    /// A reference delta names a base outside this pack.
    RefOutside,
    /// An object type this reader does not resolve.
    UnknownType(u8),
    /// A member that does not inflate, as one whole stream, to the size its
    /// header declares.
    MemberUnreadable,
    /// A member, or the pack trailer, that will not hash.
    Unhashable,
    /// A body that will not compress.
    Uncompressible,
    /// A lease commit that will not serialise.
    Unserialisable,
    /// A delta header runs off its end.
    DeltaHeaderTruncated,
    /// A delta header's size varint is wider than a machine word.
    DeltaHeaderTooWide,
    /// A delta expects a base of another length.
    DeltaBase,
    /// A delta carries a zero-length insert.
    ZeroInsert,
    /// A delta's insert runs off its end.
    InsertTruncated,
    /// A delta's copy runs off its end.
    CopyTruncated,
    /// A delta copies a span outside its base.
    CopyOutside,
    /// A delta produced a length its header did not declare.
    DeltaLength,
}

// ---------------------------------------------------------------------------
// The outside crates
// ---------------------------------------------------------------------------

/// The id git gives an object of this type number and body, as forty
/// lower-case hex characters, or `None` where hashing refuses.
pub uninterp spec fn git_object_id(kind: u8, body: Seq<u8>) -> Option<Seq<char>>;

/// What the zlib stream at the start of `input` inflates to, and how many
/// bytes of `input` it takes; `None` where `input` does not start with one
/// whole, valid stream.
pub uninterp spec fn zlib_stream(input: Seq<u8>) -> Option<(Seq<u8>, nat)>;

/// The zlib stream `flate2` writes for `body` at its default level.
pub uninterp spec fn zlib_compressed(body: Seq<u8>) -> Option<Seq<u8>>;

/// The SHA-1 digest `gix` computes over `data`, or `None` where its collision
/// detection refuses.
pub uninterp spec fn git_sha1(data: Seq<u8>) -> Option<Seq<u8>>;

/// The id of an object.
///
/// Trusted: `gix::objs::compute_hash` with SHA-1, its id rendered as text.
/// The contract names the result.
#[verifier::external_body]
pub(crate) fn object_id(kind: ObjectKind, body: &[u8]) -> (r: Option<String>)
    ensures
        match r {
            Some(id) => git_object_id(type_number(kind), body@) == Some(id@),
            None => git_object_id(type_number(kind), body@) is None,
        },
{
    let kind = match kind {
        ObjectKind::Commit => gix::object::Kind::Commit,
        ObjectKind::Tree => gix::object::Kind::Tree,
        ObjectKind::Blob => gix::object::Kind::Blob,
        ObjectKind::Tag => gix::object::Kind::Tag,
    };
    gix::objs::compute_hash(gix::hash::Kind::Sha1, kind, body).ok().map(|id| id.to_string())
}

/// Compress a body as one zlib stream.
///
/// Trusted: `flate2::write::ZlibEncoder` at the default level, written and
/// finished. The contract names the result, and states what makes it a zlib
/// stream: whatever follows it, the stream at its start inflates back to the
/// body and takes exactly its own length.
#[verifier::external_body]
fn compress(body: &[u8]) -> (r: Option<Vec<u8>>)
    ensures
        match r {
            Some(c) => zlib_compressed(body@) == Some(c@),
            None => zlib_compressed(body@) is None,
        },
        r is Some ==> forall|rest: Seq<u8>| #[trigger]
            zlib_stream(r->0@ + rest) == Some((body@, r->0@.len())),
{
    let mut encoder = flate2::write::ZlibEncoder::new(Vec::new(), flate2::Compression::default());
    std::io::Write::write_all(&mut encoder, body).and_then(|()| encoder.finish()).ok()
}

/// Inflate the zlib stream at the start of `input` into at most `size`
/// bytes of room.
///
/// Trusted: `flate2::Decompress::decompress_vec` with `FlushDecompress::Finish`
/// into a vector of capacity `size`, and `total_in` after it. An answer is
/// given only where the stream ended, and is then the stream's data and the
/// bytes it took; a stream whose data fits in `size` always ends. Which of a
/// stream too large for the room is refused and which is answered in full
/// depends on the capacity the allocator gave, and is left unsaid.
#[verifier::external_body]
fn inflate(input: &[u8], size: usize) -> (r: Option<(Vec<u8>, usize)>)
    requires
        size <= isize::MAX,
    ensures
        r is Some ==> zlib_stream(input@) == Some(((r->0).0@, (r->0).1 as nat)) && (r->0).1
            <= input@.len(),
        zlib_stream(input@) is Some && (zlib_stream(input@)->0).0.len() <= size ==> r is Some
            && zlib_stream(input@) == Some(((r->0).0@, (r->0).1 as nat)),
{
    let mut out = Vec::with_capacity(size);
    let mut decompress = flate2::Decompress::new(true);
    match decompress.decompress_vec(input, &mut out, flate2::FlushDecompress::Finish) {
        Ok(flate2::Status::StreamEnd) => usize::try_from(decompress.total_in()).ok().map(|n| (out, n)),
        _ => None,
    }
}

/// The SHA-1 digest of `data`.
///
/// Trusted: `gix::hash::hasher(Sha1)`, updated once and finalised. The
/// contract names the result and states that a digest is twenty bytes.
#[verifier::external_body]
fn sha1_of(data: &[u8]) -> (r: Option<Vec<u8>>)
    ensures
        match r {
            Some(d) => git_sha1(data@) == Some(d@) && d@.len() == 20,
            None => git_sha1(data@) is None,
        },
{
    let mut hasher = gix::hash::hasher(gix::hash::Kind::Sha1);
    hasher.update(data);
    hasher.try_finalize().ok().map(|id| id.as_slice().to_vec())
}

/// Whether a signature field may be written: it holds no `<`, `>` or line
/// feed.
pub open spec fn token_ok(s: Seq<char>) -> bool {
    forall|i: int| 0 <= i < s.len() ==> #[trigger] s[i] != '<' && s[i] != '>' && s[i] != '\n'
}

/// A signature line's value: the name, the email in angle brackets, the
/// seconds and a zero offset.
pub open spec fn signature_text(name: Seq<char>, email: Seq<char>, seconds: i64) -> Seq<char> {
    name + " <"@ + email + "> "@ + int_text(seconds as int) + " +0000"@
}

/// A parentless commit over the empty tree, authored and committed by one
/// signature at one instant, as git serialises it.
pub open spec fn commit_text(name: Seq<char>, email: Seq<char>, message: Seq<char>, seconds: i64) -> Seq<char> {
    "tree 4b825dc642cb6eb9a060e54bf8d69288fbee4904"@ + "\n"@ + ("author "@ + signature_text(
        name,
        email,
        seconds,
    )) + "\n"@ + ("committer "@ + signature_text(name, email, seconds)) + "\n"@ + "\n"@ + message
}

/// Serialise a parentless commit over the empty tree.
///
/// Trusted: `gix::objs::Commit::write_to`, whose source writes the `tree`
/// header, the author and committer lines (each field refused where it holds
/// `<`, `>` or a line feed, the time as decimal seconds and a `+0000`
/// offset), a blank line and the message, restated by [`commit_text`].
#[verifier::external_body]
fn commit_bytes(name: &str, email: &str, message: &str, seconds: i64) -> (r: Option<Vec<u8>>)
    ensures
        token_ok(name@) && token_ok(email@) ==> r is Some && r->0@ == vstd::utf8::encode_utf8(
            commit_text(name@, email@, message@, seconds),
        ),
        !(token_ok(name@) && token_ok(email@)) ==> r is None,
{
    let time = gix::date::Time { seconds, offset: 0 };
    let who = gix::actor::Signature { name: name.into(), email: email.into(), time };
    let commit = gix::objs::Commit {
        tree: gix::hash::ObjectId::empty_tree(gix::hash::Kind::Sha1),
        parents: std::iter::empty().collect(),
        author: who.clone(),
        committer: who,
        encoding: None,
        message: message.into(),
        extra_headers: Vec::new(),
    };
    let mut body = Vec::new();
    gix::objs::WriteTo::write_to(&commit, &mut body).ok().map(|()| body)
}

// ---------------------------------------------------------------------------
// The lease object
// ---------------------------------------------------------------------------

/// The identity every lease object is authored and committed by.
pub const LEASE_NAME: &'static str = "batten";

/// The email half of [`LEASE_NAME`].
pub const LEASE_EMAIL: &'static str = "batten@localhost";

/// The bytes of the lease commit carrying `message`.
pub open spec fn lease_commit(message: Seq<char>, seconds: i64) -> Seq<u8> {
    vstd::utf8::encode_utf8(commit_text(LEASE_NAME@, LEASE_EMAIL@, message, seconds))
}

/// Mint a lease object: a parentless commit over the empty tree carrying
/// `message`, authored at `seconds` by the lease's own identity.
///
/// Parentless so it shares history with nothing and can never fast-forward
/// over a live lease. The caller supplies the instant and the message must
/// carry a nonce, because two mints agreeing on every byte are one object.
pub fn lease_object(message: &str, seconds: i64) -> (r: Result<Object, PackError>)
    ensures
        match git_object_id(1, lease_commit(message@, seconds)) {
            Some(id) => r matches Ok(o) && o.id@ == id && o.kind == ObjectKind::Commit && o.body@
                == lease_commit(message@, seconds),
            None => r == Err::<Object, PackError>(PackError::Unhashable),
        },
{
    proof {
        reveal_strlit("batten");
        reveal_strlit("batten@localhost");
        assert(token_ok(LEASE_NAME@));
        assert(token_ok(LEASE_EMAIL@));
    }
    let body = match commit_bytes(LEASE_NAME, LEASE_EMAIL, message, seconds) {
        Some(b) => b,
        None => return Err(PackError::Unserialisable),
    };
    let id = match object_id(ObjectKind::Commit, body.as_slice()) {
        Some(i) => i,
        None => return Err(PackError::Unhashable),
    };
    Ok(Object { id, kind: ObjectKind::Commit, body })
}

// ---------------------------------------------------------------------------
// Variable-length integers
// ---------------------------------------------------------------------------

/// The rest of an object header's size from byte `index`, `size` holding
/// what came before and `shift` where the next seven bits go. A byte that is
/// not there, or a shift past the machine word, is refused; bits shifted out
/// of the word are lost, as `checked_shl` loses them.
pub open spec fn header_more(rest: Seq<u8>, index: int, size: usize, shift: int) -> Result<(usize, int), PackError>
    decreases rest.len() - index,
{
    if index < 0 || index >= rest.len() {
        Err(PackError::HeaderTruncated)
    } else if shift < 0 || shift >= usize::BITS {
        Err(PackError::HeaderTooWide)
    } else {
        let b = rest[index];
        let size2 = size | (((b & 0x7f) as usize) << (shift as usize));
        if b & 0x80 != 0 {
            header_more(rest, index + 1, size2, shift + 7)
        } else {
            Ok((size2, index + 1))
        }
    }
}

/// A pack object header: its type number, its inflated size, and its own
/// length. Four size bits ride beside the type, then seven per continuation
/// byte, little-endian, the high bit meaning another byte follows.
pub open spec fn object_header_at(rest: Seq<u8>) -> Result<(u8, usize, int), PackError> {
    if rest.len() == 0 {
        Err(PackError::HeaderMissing)
    } else {
        let first = rest[0];
        let kind = (first >> 4u8) & 0x07;
        let size = (first & 0x0f) as usize;
        if first & 0x80 != 0 {
            match header_more(rest, 1, size, 4) {
                Ok((s, n)) => Ok((kind, s, n)),
                Err(e) => Err(e),
            }
        } else {
            Ok((kind, size, 1))
        }
    }
}

proof fn lemma_header_more_len(rest: Seq<u8>, index: int, size: usize, shift: int)
    ensures
        header_more(rest, index, size, shift) matches Ok((s, n)) ==> index < n <= rest.len(),
    decreases rest.len() - index,
{
    if index < 0 || index >= rest.len() {
    } else if shift < 0 || shift >= usize::BITS {
    } else {
        let b = rest[index];
        let size2 = size | (((b & 0x7f) as usize) << (shift as usize));
        if b & 0x80 != 0 {
            lemma_header_more_len(rest, index + 1, size2, shift + 7);
        }
    }
}

/// Read a pack object header.
fn pack_header(rest: &[u8]) -> (r: Result<(u8, usize, usize), PackError>)
    ensures
        r is Ok <==> object_header_at(rest@) is Ok,
        r is Ok ==> (r->Ok_0).0 == (object_header_at(rest@)->Ok_0).0 && (r->Ok_0).1 == (
        object_header_at(rest@)->Ok_0).1 && (r->Ok_0).2 == (object_header_at(rest@)->Ok_0).2 && 1
            <= (r->Ok_0).2 <= rest@.len(),
        r is Err ==> r->Err_0 == object_header_at(rest@)->Err_0,
{
    if rest.len() == 0 {
        return Err(PackError::HeaderMissing);
    }
    let first = rest[0];
    let kind = (first >> 4u8) & 0x07;
    let mut size: usize = (first & 0x0f) as usize;
    if first & 0x80 == 0 {
        return Ok((kind, size, 1));
    }
    proof {
        lemma_header_more_len(rest@, 1, size, 4);
    }
    let mut shift: u32 = 4;
    let mut index: usize = 1;
    loop
        invariant
            1 <= index <= rest.len(),
            shift == 4 + 7 * (index - 1),
            object_header_at(rest@) == match header_more(rest@, index as int, size, shift as int) {
                Ok((s, n)) => Ok::<(u8, usize, int), PackError>((kind, s, n)),
                Err(e) => Err(e),
            },
        decreases rest.len() - index,
    {
        proof {
            lemma_header_more_len(rest@, index as int, size, shift as int);
        }
        if index >= rest.len() {
            return Err(PackError::HeaderTruncated);
        }
        if shift >= usize::BITS {
            return Err(PackError::HeaderTooWide);
        }
        let b = rest[index];
        size = size | (((b & 0x7f) as usize) << (shift as usize));
        index += 1;
        if b & 0x80 == 0 {
            return Ok((kind, size, index));
        }
        shift += 7;
    }
}

/// The rest of an offset delta's base distance from byte `index`: each
/// continuation adds one before shifting, so the encoding is dense. An
/// addition that overflows the machine word is refused; the shift itself
/// loses bits as `checked_shl` loses them.
pub open spec fn offset_more(rest: Seq<u8>, index: int, value: usize) -> Result<(usize, int), PackError>
    decreases rest.len() - index,
{
    if index < 0 || index >= rest.len() {
        Err(PackError::OffsetTruncated)
    } else {
        let b = rest[index];
        if value as int + 1 > usize::MAX {
            Err(PackError::OffsetTooWide)
        } else {
            let shifted = ((value + 1) as usize) << 7usize;
            if shifted as int + (b & 0x7f) as int > usize::MAX {
                Err(PackError::OffsetTooWide)
            } else {
                let v = (shifted + (b & 0x7f) as usize) as usize;
                if b & 0x80 != 0 {
                    offset_more(rest, index + 1, v)
                } else {
                    Ok((v, index + 1))
                }
            }
        }
    }
}

/// An offset delta's base distance and how many bytes it took.
pub open spec fn offset_base_at(rest: Seq<u8>) -> Result<(usize, int), PackError> {
    if rest.len() == 0 {
        Err(PackError::OffsetMissing)
    } else {
        let b = rest[0];
        if b & 0x80 != 0 {
            offset_more(rest, 1, (b & 0x7f) as usize)
        } else {
            Ok(((b & 0x7f) as usize, 1))
        }
    }
}

proof fn lemma_offset_more_len(rest: Seq<u8>, index: int, value: usize)
    ensures
        offset_more(rest, index, value) matches Ok((v, n)) ==> index < n <= rest.len(),
    decreases rest.len() - index,
{
    if index < 0 || index >= rest.len() {
    } else {
        let b = rest[index];
        if value as int + 1 > usize::MAX {
        } else {
            let shifted = ((value + 1) as usize) << 7usize;
            if shifted as int + (b & 0x7f) as int > usize::MAX {
            } else {
                let v = (shifted + (b & 0x7f) as usize) as usize;
                if b & 0x80 != 0 {
                    lemma_offset_more_len(rest, index + 1, v);
                }
            }
        }
    }
}

/// Read an offset delta's base distance.
fn offset_base(rest: &[u8]) -> (r: Result<(usize, usize), PackError>)
    ensures
        r is Ok <==> offset_base_at(rest@) is Ok,
        r is Ok ==> (r->Ok_0).0 == (offset_base_at(rest@)->Ok_0).0 && (r->Ok_0).1 == (
        offset_base_at(rest@)->Ok_0).1 && 1 <= (r->Ok_0).1 <= rest@.len(),
        r is Err ==> r->Err_0 == offset_base_at(rest@)->Err_0,
{
    if rest.len() == 0 {
        return Err(PackError::OffsetMissing);
    }
    let first = rest[0];
    let mut value: usize = (first & 0x7f) as usize;
    if first & 0x80 == 0 {
        return Ok((value, 1));
    }
    proof {
        lemma_offset_more_len(rest@, 1, value);
    }
    let mut index: usize = 1;
    loop
        invariant
            1 <= index <= rest.len(),
            offset_base_at(rest@) == offset_more(rest@, index as int, value),
        decreases rest.len() - index,
    {
        proof {
            lemma_offset_more_len(rest@, index as int, value);
        }
        if index >= rest.len() {
            return Err(PackError::OffsetTruncated);
        }
        let b = rest[index];
        let plus = match value.checked_add(1) {
            Some(p) => p,
            None => return Err(PackError::OffsetTooWide),
        };
        let shifted: usize = plus << 7usize;
        value = match shifted.checked_add((b & 0x7f) as usize) {
            Some(v) => v,
            None => return Err(PackError::OffsetTooWide),
        };
        index += 1;
        if b & 0x80 == 0 {
            return Ok((value, index));
        }
    }
}

/// One of a delta header's two sizes, read from `cursor` with `value`
/// holding what came before and `shift` where the next seven bits go.
pub open spec fn varint_at(delta: Seq<u8>, cursor: int, value: usize, shift: int) -> Result<(usize, int), PackError>
    decreases delta.len() - cursor,
{
    if cursor < 0 || cursor >= delta.len() {
        Err(PackError::DeltaHeaderTruncated)
    } else if shift < 0 || shift >= usize::BITS {
        Err(PackError::DeltaHeaderTooWide)
    } else {
        let b = delta[cursor];
        let v = value | (((b & 0x7f) as usize) << (shift as usize));
        if b & 0x80 == 0 {
            Ok((v, cursor + 1))
        } else {
            varint_at(delta, cursor + 1, v, shift + 7)
        }
    }
}

proof fn lemma_varint_len(delta: Seq<u8>, cursor: int, value: usize, shift: int)
    ensures
        varint_at(delta, cursor, value, shift) matches Ok((v, n)) ==> cursor < n <= delta.len(),
    decreases delta.len() - cursor,
{
    if cursor < 0 || cursor >= delta.len() {
    } else if shift < 0 || shift >= usize::BITS {
    } else {
        let b = delta[cursor];
        let v = value | (((b & 0x7f) as usize) << (shift as usize));
        if b & 0x80 != 0 {
            lemma_varint_len(delta, cursor + 1, v, shift + 7);
        }
    }
}

/// Read one of a delta header's sizes at `cursor`.
fn delta_size(delta: &[u8], cursor: usize) -> (r: Result<(usize, usize), PackError>)
    ensures
        r is Ok <==> varint_at(delta@, cursor as int, 0, 0) is Ok,
        r is Ok ==> (r->Ok_0).0 == (varint_at(delta@, cursor as int, 0, 0)->Ok_0).0 && (r->Ok_0).1
            == (varint_at(delta@, cursor as int, 0, 0)->Ok_0).1 && cursor < (r->Ok_0).1
            <= delta@.len(),
        r is Err ==> r->Err_0 == varint_at(delta@, cursor as int, 0, 0)->Err_0,
{
    let mut value: usize = 0;
    let mut shift: u32 = 0;
    let mut at: usize = cursor;
    proof {
        lemma_varint_len(delta@, cursor as int, 0, 0);
    }
    loop
        invariant
            cursor <= at,
            shift == 7 * (at - cursor),
            varint_at(delta@, cursor as int, 0, 0) == varint_at(delta@, at as int, value, shift as int),
        decreases delta.len() - at,
    {
        proof {
            lemma_varint_len(delta@, at as int, value, shift as int);
        }
        if at >= delta.len() {
            return Err(PackError::DeltaHeaderTruncated);
        }
        if shift >= usize::BITS {
            return Err(PackError::DeltaHeaderTooWide);
        }
        let b = delta[at];
        value = value | (((b & 0x7f) as usize) << (shift as usize));
        at += 1;
        if b & 0x80 == 0 {
            return Ok((value, at));
        }
        shift += 7;
    }
}

// ---------------------------------------------------------------------------
// Deltas
// ---------------------------------------------------------------------------

/// Two hundred and fifty-six to the `k`.
pub open spec fn pow256(k: int) -> int
    decreases k,
{
    if k <= 0 {
        1
    } else {
        256 * pow256(k - 1)
    }
}

/// One copy field, assembled little-endian from the bytes whose presence the
/// instruction's bits `bit..bit + n` announce, read from `cursor` on; an
/// absent byte is a zero octet, and a present one that is not there is
/// refused.
pub open spec fn copy_field(delta: Seq<u8>, cursor: int, ins: u8, bit: int, k: int, n: int, acc: int) -> Result<(int, int), PackError>
    decreases n - k,
{
    if k >= n {
        Ok((acc, cursor))
    } else if ins & (1u8 << ((bit + k) as u8)) != 0 {
        if cursor < 0 || cursor >= delta.len() {
            Err(PackError::CopyTruncated)
        } else {
            copy_field(delta, cursor + 1, ins, bit, k + 1, n, acc + delta[cursor] as int * pow256(k))
        }
    } else {
        copy_field(delta, cursor, ins, bit, k + 1, n, acc)
    }
}

/// A copy field moves the cursor forward and never past the delta's end.
pub proof fn lemma_copy_field_moves(delta: Seq<u8>, cursor: int, ins: u8, bit: int, k: int, n: int, acc: int)
    requires
        0 <= cursor <= delta.len(),
        0 <= acc,
    ensures
        copy_field(delta, cursor, ins, bit, k, n, acc) matches Ok((v, c)) ==> cursor <= c <= delta.len()
            && 0 <= v,
    decreases n - k,
{
    if k >= n {
    } else if ins & (1u8 << ((bit + k) as u8)) != 0 {
        if cursor < 0 || cursor >= delta.len() {
        } else {
            assert(pow256(k) >= 1) by {
                lemma_pow256_positive(k);
            }
            assert(delta[cursor] as int * pow256(k) >= 0) by (nonlinear_arith)
                requires
                    pow256(k) >= 1,
            {
            }
            lemma_copy_field_moves(
                delta,
                cursor + 1,
                ins,
                bit,
                k + 1,
                n,
                acc + delta[cursor] as int * pow256(k),
            );
        }
    } else {
        lemma_copy_field_moves(delta, cursor, ins, bit, k + 1, n, acc);
    }
}

proof fn lemma_pow256_positive(k: int)
    ensures
        pow256(k) >= 1,
    decreases k,
{
    if k > 0 {
        lemma_pow256_positive(k - 1);
    }
}

/// The delta instruction stream from `cursor`, with `out` produced so far:
/// a clear high bit inserts that many literal bytes that follow, a set one
/// copies a span of the base; a zero-length insert is malformed, and a copy
/// length of zero means `0x10000`.
pub open spec fn run_delta(base: Seq<u8>, delta: Seq<u8>, cursor: int, out: Seq<u8>) -> Result<Seq<u8>, PackError>
    decreases delta.len() - cursor,
{
    if cursor < 0 || cursor >= delta.len() {
        Ok(out)
    } else {
        let ins = delta[cursor];
        let c = cursor + 1;
        if ins & 0x80 == 0 {
            let length = (ins & 0x7f) as int;
            if length == 0 {
                Err(PackError::ZeroInsert)
            } else if c + length > delta.len() {
                Err(PackError::InsertTruncated)
            } else {
                run_delta(base, delta, c + length, out + delta.subrange(c, c + length))
            }
        } else {
            match copy_field(delta, c, ins, 0, 0, 4, 0) {
                Err(e) => Err(e),
                Ok((offset, c2)) => match copy_field(delta, c2, ins, 4, 0, 3, 0) {
                    Err(e) => Err(e),
                    Ok((raw, c3)) => {
                        let length = if raw == 0 {
                            0x10000
                        } else {
                            raw
                        };
                        proof {
                            lemma_copy_field_moves(delta, c, ins, 0, 0, 4, 0);
                            lemma_copy_field_moves(delta, c2, ins, 4, 0, 3, 0);
                        }
                        if offset + length > base.len() {
                            Err(PackError::CopyOutside)
                        } else {
                            run_delta(base, delta, c3, out + base.subrange(offset, offset + length))
                        }
                    },
                },
            }
        }
    }
}

/// A copy instruction carrying all four offset bytes and all three size
/// bytes (`0xff`) appends exactly `base[o..o+n]`, where `o` and `n` are
/// those bytes read little-endian, and the walk resumes after them.
pub proof fn lemma_full_copy_appends_the_base_span(base: Seq<u8>, delta: Seq<u8>, c: int, out: Seq<u8>)
    requires
        0 <= c,
        c + 8 <= delta.len(),
        delta[c] == 0xff,
        ({
            let n = delta[c + 5] + delta[c + 6] * 0x100 + delta[c + 7] * 0x1_0000;
            let o = delta[c + 1] + delta[c + 2] * 0x100 + delta[c + 3] * 0x1_0000 + delta[c + 4]
                * 0x100_0000;
            n > 0 && o + n <= base.len()
        }),
    ensures
        ({
            let n = delta[c + 5] + delta[c + 6] * 0x100 + delta[c + 7] * 0x1_0000;
            let o = delta[c + 1] + delta[c + 2] * 0x100 + delta[c + 3] * 0x1_0000 + delta[c + 4]
                * 0x100_0000;
            run_delta(base, delta, c, out) == run_delta(base, delta, c + 8, out + base.subrange(o, o + n))
        }),
{
    lemma_pow256_values();
    let ins: u8 = 0xff;
    assert(ins & 0x80 != 0) by (bit_vector)
        requires
            ins == 0xff,
    ;
    assert(ins & (1u8 << 0u8) != 0 && ins & (1u8 << 1u8) != 0 && ins & (1u8 << 2u8) != 0 && ins & (1u8
        << 3u8) != 0 && ins & (1u8 << 4u8) != 0 && ins & (1u8 << 5u8) != 0 && ins & (1u8 << 6u8) != 0)
        by (bit_vector)
        requires
            ins == 0xff,
    ;
    assert(copy_field(delta, c + 5, ins, 0, 4, 4, delta[c + 1] * pow256(0) + delta[c + 2] * pow256(1)
        + delta[c + 3] * pow256(2) + delta[c + 4] * pow256(3)) == Ok::<(int, int), PackError>(
        (delta[c + 1] * pow256(0) + delta[c + 2] * pow256(1) + delta[c + 3] * pow256(2) + delta[c + 4]
            * pow256(3), c + 5),
    ));
    assert(copy_field(delta, c + 8, ins, 4, 3, 3, delta[c + 5] * pow256(0) + delta[c + 6] * pow256(1)
        + delta[c + 7] * pow256(2)) == Ok::<(int, int), PackError>(
        (delta[c + 5] * pow256(0) + delta[c + 6] * pow256(1) + delta[c + 7] * pow256(2), c + 8),
    ));
    reveal_with_fuel(copy_field, 5);
}

/// A copy instruction carrying only the low offset byte and the low size
/// byte (`0x91`) appends exactly `base[o..o+n]` for those two bytes, and the
/// walk resumes after them.
pub proof fn lemma_short_copy_appends_the_base_span(base: Seq<u8>, delta: Seq<u8>, c: int, out: Seq<u8>)
    requires
        0 <= c,
        c + 3 <= delta.len(),
        delta[c] == 0x91,
        delta[c + 2] > 0,
        delta[c + 1] + delta[c + 2] <= base.len(),
    ensures
        run_delta(base, delta, c, out) == run_delta(
            base,
            delta,
            c + 3,
            out + base.subrange(delta[c + 1] as int, delta[c + 1] + delta[c + 2]),
        ),
{
    lemma_pow256_values();
    let ins: u8 = 0x91;
    assert(ins & 0x80 != 0) by (bit_vector)
        requires
            ins == 0x91,
    ;
    assert(ins & (1u8 << 0u8) != 0 && ins & (1u8 << 1u8) == 0 && ins & (1u8 << 2u8) == 0 && ins & (1u8
        << 3u8) == 0 && ins & (1u8 << 4u8) != 0 && ins & (1u8 << 5u8) == 0 && ins & (1u8 << 6u8) == 0)
        by (bit_vector)
        requires
            ins == 0x91,
    ;
    reveal_with_fuel(copy_field, 5);
}

/// An insert instruction of `k` bytes (`0 < k < 128`) appends exactly the
/// `k` bytes that follow it in the delta, and the walk resumes after them.
pub proof fn lemma_insert_appends_its_bytes(base: Seq<u8>, delta: Seq<u8>, c: int, out: Seq<u8>)
    requires
        0 <= c,
        c < delta.len(),
        0 < delta[c] < 0x80,
        c + 1 + delta[c] <= delta.len(),
    ensures
        run_delta(base, delta, c, out) == run_delta(
            base,
            delta,
            c + 1 + delta[c],
            out + delta.subrange(c + 1, c + 1 + delta[c]),
        ),
{
    let ins = delta[c];
    assert(ins & 0x80 == 0 && ins & 0x7f == ins) by (bit_vector)
        requires
            ins < 0x80,
    ;
}

proof fn lemma_small_varint(delta: Seq<u8>, cursor: int)
    requires
        0 <= cursor < delta.len(),
        delta[cursor] < 0x80,
    ensures
        varint_at(delta, cursor, 0, 0) == Ok::<(usize, int), PackError>((delta[cursor] as usize, cursor + 1)),
{
    let b = delta[cursor];
    assert(b & 0x80 == 0 && (0usize | (((b & 0x7f) as usize) << 0usize)) == b as usize) by (bit_vector)
        requires
            b < 0x80,
    ;
}

/// The git delta format, on a whole delta of one copy: a base of fewer
/// than 128 bytes, the two sizes, then `0x91 o n` copying `n` bytes from
/// offset `o` — the result is exactly `base[o..o+n]`.
pub proof fn lemma_one_copy_delta_reads_the_span(base: Seq<u8>, o: u8, n: u8)
    requires
        base.len() < 0x80,
        0 < n < 0x80,
        o + n <= base.len(),
    ensures
        delta_result(base, seq![base.len() as u8, n, 0x91u8, o, n]) == Ok::<Seq<u8>, PackError>(
            base.subrange(o as int, o + n),
        ),
{
    let delta = seq![base.len() as u8, n, 0x91u8, o, n];
    lemma_small_varint(delta, 0);
    lemma_small_varint(delta, 1);
    lemma_short_copy_appends_the_base_span(base, delta, 2, seq![]);
    assert(Seq::<u8>::empty() + base.subrange(o as int, o + n) == base.subrange(o as int, o + n));
}

/// A delta applied to its base: the declared base size must be the base's,
/// and the instructions must produce exactly the declared result size.
pub open spec fn delta_result(base: Seq<u8>, delta: Seq<u8>) -> Result<Seq<u8>, PackError> {
    match varint_at(delta, 0, 0, 0) {
        Err(e) => Err(e),
        Ok((declared_base, c1)) => if declared_base != base.len() {
            Err(PackError::DeltaBase)
        } else {
            match varint_at(delta, c1, 0, 0) {
                Err(e) => Err(e),
                Ok((declared, c2)) => match run_delta(base, delta, c2, seq![]) {
                    Err(e) => Err(e),
                    Ok(out) => if out.len() != declared {
                        Err(PackError::DeltaLength)
                    } else {
                        Ok(out)
                    },
                },
            }
        },
    }
}

/// Append `src[lo..hi]` to `out`.
fn push_span(out: &mut Vec<u8>, src: &[u8], lo: usize, hi: usize)
    requires
        lo <= hi <= src.len(),
    ensures
        final(out)@ == old(out)@ + src@.subrange(lo as int, hi as int),
{
    let mut i: usize = lo;
    while i < hi
        invariant
            lo <= i <= hi,
            hi <= src.len(),
            out@ == old(out)@ + src@.subrange(lo as int, i as int),
        decreases hi - i,
    {
        out.push(src[i]);
        i += 1;
    }
}

/// Read one copy field.
fn read_copy_field(delta: &[u8], cursor: usize, ins: u8, bit: u8, n: u8) -> (r: Result<(u64, usize), PackError>)
    requires
        cursor <= delta.len(),
        bit + n <= 8,
        n <= 4,
    ensures
        r is Ok <==> copy_field(delta@, cursor as int, ins, bit as int, 0, n as int, 0) is Ok,
        r is Ok ==> (r->Ok_0).0 == (copy_field(delta@, cursor as int, ins, bit as int, 0, n as int, 0)->Ok_0).0
            && (r->Ok_0).1 == (copy_field(delta@, cursor as int, ins, bit as int, 0, n as int, 0)->Ok_0).1
            && (r->Ok_0).0 < pow256(n as int) && cursor <= (r->Ok_0).1 <= delta@.len(),
        r is Err ==> r->Err_0 == copy_field(delta@, cursor as int, ins, bit as int, 0, n as int, 0)->Err_0,
{
    let mut k: u8 = 0;
    let mut at: usize = cursor;
    let mut acc: u64 = 0;
    let mut mult: u64 = 1;
    while k < n
        invariant
            k <= n <= 4,
            bit + n <= 8,
            cursor <= at <= delta.len(),
            mult == pow256(k as int),
            acc < pow256(k as int),
            copy_field(delta@, cursor as int, ins, bit as int, 0, n as int, 0) == copy_field(
                delta@,
                at as int,
                ins,
                bit as int,
                k as int,
                n as int,
                acc as int,
            ),
        decreases n - k,
    {
        proof {
            lemma_pow256_values();
            lemma_pow256_mono(k as int, 3);
        }
        if ins & (1u8 << (bit + k)) != 0 {
            if at >= delta.len() {
                return Err(PackError::CopyTruncated);
            }
            let byte = delta[at] as u64;
            proof {
                assert(acc + byte * mult < 256 * mult) by (nonlinear_arith)
                    requires
                        acc < mult,
                        byte <= 255,
                {
                }
            }
            acc = acc + byte * mult;
            at += 1;
        }
        mult = mult * 256;
        k += 1;
    }
    Ok((acc, at))
}

proof fn lemma_pow256_values()
    ensures
        pow256(0) == 1,
        pow256(1) == 0x100,
        pow256(2) == 0x1_0000,
        pow256(3) == 0x100_0000,
        pow256(4) == 0x1_0000_0000,
{
    assert(pow256(0) == 1);
    assert(pow256(1) == 0x100);
    assert(pow256(2) == 0x1_0000);
    assert(pow256(3) == 0x100_0000);
    assert(pow256(4) == 0x1_0000_0000);
}

proof fn lemma_pow256_mono(k: int, m: int)
    requires
        0 <= k <= m,
    ensures
        pow256(k) <= pow256(m),
    decreases m - k,
{
    if k < m {
        lemma_pow256_mono(k, m - 1);
        lemma_pow256_positive(m - 1);
    }
}

/// Apply a delta stream to its base.
///
/// Both sizes are checked against what actually happens, because a delta that
/// produces the wrong length silently produces the wrong object.
fn apply_delta(base: &[u8], delta: &[u8]) -> (r: Result<Vec<u8>, PackError>)
    ensures
        match delta_result(base@, delta@) {
            Ok(o) => r matches Ok(v) && v@ == o,
            Err(e) => r == Err::<Vec<u8>, PackError>(e),
        },
{
    let (declared_base, c1) = match delta_size(delta, 0) {
        Ok(got) => got,
        Err(e) => return Err(e),
    };
    if declared_base != base.len() {
        return Err(PackError::DeltaBase);
    }
    let (declared, c2) = match delta_size(delta, c1) {
        Ok(got) => got,
        Err(e) => {
            return Err(e);
        },
    };
    let mut out: Vec<u8> = Vec::new();
    let mut cursor: usize = c2;
    proof {
        lemma_pow256_values();
    }
    while cursor < delta.len()
        invariant
            c2 <= cursor <= delta.len(),
            pow256(3) == 0x100_0000,
            pow256(4) == 0x1_0000_0000,
            varint_at(delta@, 0, 0, 0) == Ok::<(usize, int), PackError>((declared_base, c1 as int)),
            declared_base == base@.len(),
            varint_at(delta@, c1 as int, 0, 0) == Ok::<(usize, int), PackError>((declared, c2 as int)),
            run_delta(base@, delta@, c2 as int, seq![]) == run_delta(
                base@,
                delta@,
                cursor as int,
                out@,
            ),
        decreases delta.len() - cursor,
    {
        let ins = delta[cursor];
        let c = cursor + 1;
        if ins & 0x80 == 0 {
            let length = (ins & 0x7f) as usize;
            if length == 0 {
                return Err(PackError::ZeroInsert);
            }
            if length > delta.len() - c {
                return Err(PackError::InsertTruncated);
            }
            push_span(&mut out, delta, c, c + length);
            cursor = c + length;
        } else {
            let (offset, c2b) = match read_copy_field(delta, c, ins, 0, 4) {
                Ok(got) => got,
                Err(e) => return Err(e),
            };
            let (raw, c3) = match read_copy_field(delta, c2b, ins, 4, 3) {
                Ok(got) => got,
                Err(e) => return Err(e),
            };
            let length: u64 = if raw == 0 {
                0x10000
            } else {
                raw
            };
            proof {
                assert(copy_field(delta@, c as int, ins, 0, 0, 4, 0) == Ok::<(int, int), PackError>((offset as int, c2b as int)));
                assert(copy_field(delta@, c2b as int, ins, 4, 0, 3, 0) == Ok::<(int, int), PackError>((raw as int, c3 as int)));
            }
            if offset + length > base.len() as u64 {
                return Err(PackError::CopyOutside);
            }
            push_span(&mut out, base, offset as usize, (offset + length) as usize);
            cursor = c3;
        }
    }
    if out.len() != declared {
        return Err(PackError::DeltaLength);
    }
    Ok(out)
}

// ---------------------------------------------------------------------------
// Reading a pack
// ---------------------------------------------------------------------------

/// The lower-case hex digit for a value below sixteen.
pub open spec fn hex_char(d: nat) -> char {
    if d < 10 {
        (48 + d) as char
    } else {
        (87 + d) as char
    }
}

/// Two lower-case hex characters per byte.
pub open spec fn hex_text(bytes: Seq<u8>) -> Seq<char>
    decreases bytes.len(),
{
    if bytes.len() == 0 {
        seq![]
    } else {
        hex_text(bytes.drop_last()) + seq![
            hex_char(bytes.last() as nat / 16),
            hex_char(bytes.last() as nat % 16),
        ]
    }
}

fn hex_digit(d: u8) -> (c: char)
    requires
        d < 16,
    ensures
        c == hex_char(d as nat),
{
    if d < 10 {
        (48u8 + d) as char
    } else {
        (87u8 + d) as char
    }
}

/// Forty hex characters for twenty bytes.
pub(crate) fn hex_of(raw: &[u8]) -> (r: String)
    ensures
        r@ == hex_text(raw@),
{
    let mut out: Vec<char> = Vec::new();
    let mut i: usize = 0;
    while i < raw.len()
        invariant
            i <= raw.len(),
            out@ == hex_text(raw@.subrange(0, i as int)),
        decreases raw.len() - i,
    {
        let b = raw[i];
        proof {
            assert(raw@.subrange(0, i + 1).drop_last() == raw@.subrange(0, i as int));
        }
        out.push(hex_digit(b / 16));
        out.push(hex_digit(b % 16));
        i += 1;
    }
    proof {
        assert(raw@.subrange(0, raw.len() as int) == raw@);
    }
    crate::text::string_of(out.as_slice())
}

/// The first index from `i` on whose object carries `id`.
pub open spec fn first_with_id(objs: Seq<ObjectView>, id: Seq<char>, i: int) -> Option<int>
    decreases objs.len() - i,
{
    if i < 0 || i >= objs.len() {
        None
    } else if objs[i].0 == id {
        Some(i)
    } else {
        first_with_id(objs, id, i + 1)
    }
}

/// The first index from `i` on holding `x`.
pub open spec fn first_at(starts: Seq<usize>, x: int, i: int) -> Option<int>
    decreases starts.len() - i,
{
    if i < 0 || i >= starts.len() {
        None
    } else if starts[i] == x {
        Some(i)
    } else {
        first_at(starts, x, i + 1)
    }
}

proof fn lemma_first_with_id_in(objs: Seq<ObjectView>, id: Seq<char>, i: int)
    ensures
        first_with_id(objs, id, i) matches Some(k) ==> 0 <= i <= k < objs.len(),
    decreases objs.len() - i,
{
    if 0 <= i < objs.len() && objs[i].0 != id {
        lemma_first_with_id_in(objs, id, i + 1);
    }
}

proof fn lemma_first_at_in(starts: Seq<usize>, x: int, i: int)
    ensures
        first_at(starts, x, i) matches Some(k) ==> 0 <= i <= k < starts.len(),
    decreases starts.len() - i,
{
    if 0 <= i < starts.len() && starts[i] != x {
        lemma_first_at_in(starts, x, i + 1);
    }
}

/// Where a member's base is, if it is a delta, and where its compressed
/// stream begins: an offset delta names its base by the distance back to the
/// member's start, a reference delta by the id of an earlier member.
pub open spec fn member_base(
    pack: Seq<u8>,
    start: int,
    number: u8,
    cursor: int,
    prior: Seq<ObjectView>,
    starts: Seq<usize>,
) -> Result<(Option<int>, int), PackError> {
    if number == 6 {
        match offset_base_at(pack.subrange(cursor, pack.len() as int)) {
            Err(e) => Err(e),
            Ok((distance, read)) => if distance > start {
                Err(PackError::OffsetBeforePack)
            } else {
                match first_at(starts, start - distance, 0) {
                    None => Err(PackError::OffsetNoMember),
                    Some(ix) => Ok((Some(ix), cursor + read)),
                }
            },
        }
    } else if number == 7 {
        if cursor + 20 > pack.len() {
            Err(PackError::RefTruncated)
        } else {
            match first_with_id(prior, hex_text(pack.subrange(cursor, cursor + 20)), 0) {
                None => Err(PackError::RefOutside),
                Some(ix) => Ok((Some(ix), cursor + 20)),
            }
        }
    } else {
        Ok((None, cursor))
    }
}

/// The member starting at `start`, read after `prior` (which started at
/// `starts`): the object it holds and where the next member starts.
///
/// An undeltified member is its own kind; a delta's inflated bytes are
/// instructions applied to its base, whose kind it takes. Every member is
/// hashed as its own kind. A member must inflate, as one whole zlib stream,
/// to exactly the size its header declares; a declared size no allocation
/// could hold is refused as unreadable.
pub open spec fn member_at(pack: Seq<u8>, start: int, prior: Seq<ObjectView>, starts: Seq<usize>) -> Result<
    (ObjectView, int),
    PackError,
> {
    match object_header_at(pack.subrange(start, pack.len() as int)) {
        Err(e) => Err(e),
        Ok((number, size, hlen)) => match member_base(pack, start, number, start + hlen, prior, starts) {
            Err(e) => Err(e),
            Ok((base, c)) => {
                let kind0 = match base {
                    Some(_) => Some(ObjectKind::Blob),
                    None => kind_of_number(number),
                };
                if kind0 is None {
                    Err(PackError::UnknownType(number))
                } else if size > isize::MAX {
                    Err(PackError::MemberUnreadable)
                } else {
                    match zlib_stream(pack.subrange(c, pack.len() as int)) {
                        None => Err(PackError::MemberUnreadable),
                        Some((inflated, used)) => if inflated.len() != size || c + used > pack.len() {
                            Err(PackError::MemberUnreadable)
                        } else {
                            let resolved = match base {
                                Some(ix) => match delta_result(prior[ix].2, inflated) {
                                    Err(e) => Err(e),
                                    Ok(b) => Ok((prior[ix].1, b)),
                                },
                                None => Ok((kind0->0, inflated)),
                            };
                            match resolved {
                                Err(e) => Err(e),
                                Ok((kind, body)) => match git_object_id(type_number(kind), body) {
                                    None => Err(PackError::Unhashable),
                                    Some(id) => Ok(((id, kind, body), c + used)),
                                },
                            }
                        },
                    }
                }
            },
        },
    }
}

/// The `remaining` members from `cursor` on, after `prior`.
pub open spec fn members_from(
    pack: Seq<u8>,
    cursor: int,
    remaining: int,
    prior: Seq<ObjectView>,
    starts: Seq<usize>,
) -> Result<Seq<ObjectView>, PackError>
    decreases remaining,
{
    if remaining <= 0 {
        Ok(prior)
    } else {
        match member_at(pack, cursor, prior, starts) {
            Err(e) => Err(e),
            Ok((obj, next)) => members_from(
                pack,
                next,
                remaining - 1,
                prior.push(obj),
                starts.push(cursor as usize),
            ),
        }
    }
}

/// The big-endian 32-bit number at `i`.
pub open spec fn be32(b: Seq<u8>, i: int) -> u32 {
    (b[i] as int * 0x100_0000 + b[i + 1] as int * 0x1_0000 + b[i + 2] as int * 0x100 + b[i
        + 3] as int) as u32
}

/// The four bytes `PACK`.
pub open spec fn pack_signature() -> Seq<u8> {
    seq![80u8, 65u8, 67u8, 75u8]
}

/// The objects a packfile carries, in order: the signature, version 2, the
/// count, then that many members.
pub open spec fn objects_of(pack: Seq<u8>) -> Result<Seq<ObjectView>, PackError> {
    if pack.len() < 12 || pack.subrange(0, 4) != pack_signature() {
        Err(PackError::NotAPack)
    } else if be32(pack, 4) != 2 {
        Err(PackError::Version(be32(pack, 4)))
    } else {
        members_from(pack, 12, be32(pack, 8) as int, seq![], seq![])
    }
}

/// Read one member.
fn read_member(pack: &[u8], start: usize, prior: &Vec<Object>, starts: &Vec<usize>) -> (r: Result<(Object, usize), PackError>)
    requires
        start <= pack.len(),
        prior.len() == starts.len(),
    ensures
        r is Ok <==> member_at(pack@, start as int, object_views(prior@), starts@) is Ok,
        r is Ok ==> object_view((r->Ok_0).0) == (member_at(
            pack@,
            start as int,
            object_views(prior@),
            starts@,
        )->Ok_0).0 && (r->Ok_0).1 == (member_at(pack@, start as int, object_views(prior@), starts@)->Ok_0).1
            && (r->Ok_0).1 <= pack.len(),
        r is Err ==> r->Err_0 == member_at(pack@, start as int, object_views(prior@), starts@)->Err_0,
{
    let ghost pv = object_views(prior@);
    let (number, size, hlen) = match pack_header(&pack[start..pack.len()]) {
        Ok(h) => h,
        Err(e) => return Err(e),
    };
    let cursor = start + hlen;
    let mut base: Option<usize> = None;
    let mut c: usize = cursor;
    if number == 6 {
        let (distance, read) = match offset_base(&pack[cursor..pack.len()]) {
            Ok(o) => o,
            Err(e) => return Err(e),
        };
        if distance > start {
            return Err(PackError::OffsetBeforePack);
        }
        let target = start - distance;
        let mut i: usize = 0;
        while i < starts.len()
            invariant
                i <= starts.len(),
                first_at(starts@, target as int, 0) == first_at(starts@, target as int, i as int),
            ensures
                i <= starts.len(),
                first_at(starts@, target as int, 0) == first_at(starts@, target as int, i as int),
                i < starts.len() ==> starts@[i as int] == target,
            decreases starts.len() - i,
        {
            if starts[i] == target {
                break;
            }
            i += 1;
        }
        if i == starts.len() {
            return Err(PackError::OffsetNoMember);
        }
        base = Some(i);
        c = cursor + read;
    } else if number == 7 {
        if 20 > pack.len() - cursor {
            return Err(PackError::RefTruncated);
        }
        let id = hex_of(&pack[cursor..cursor + 20]);
        let mut i: usize = 0;
        while i < prior.len()
            invariant
                i <= prior.len(),
                pv == object_views(prior@),
                first_with_id(pv, id@, 0) == first_with_id(pv, id@, i as int),
            ensures
                i <= prior.len(),
                first_with_id(pv, id@, 0) == first_with_id(pv, id@, i as int),
                i < prior.len() ==> pv[i as int].0 == id@,
            decreases prior.len() - i,
        {
            if crate::text::same_string(prior[i].id.as_str(), id.as_str()) {
                break;
            }
            i += 1;
        }
        if i == prior.len() {
            return Err(PackError::RefOutside);
        }
        base = Some(i);
        c = cursor + 20;
    }
    let kind0: ObjectKind = match base {
        Some(_) => ObjectKind::Blob,
        None => match pack_kind(number) {
            Some(k) => k,
            None => return Err(PackError::UnknownType(number)),
        },
    };
    if size > isize::MAX as usize {
        return Err(PackError::MemberUnreadable);
    }
    let (inflated, used) = match inflate(&pack[c..pack.len()], size) {
        Some(got) => got,
        None => return Err(PackError::MemberUnreadable),
    };
    if inflated.len() != size {
        return Err(PackError::MemberUnreadable);
    }
    let (kind, body) = match base {
        Some(ix) => {
            let applied = match apply_delta(prior[ix].body.as_slice(), inflated.as_slice()) {
                Ok(b) => b,
                Err(e) => return Err(e),
            };
            (prior[ix].kind, applied)
        },
        None => (kind0, inflated),
    };
    let id = match object_id(kind, body.as_slice()) {
        Some(i) => i,
        None => return Err(PackError::Unhashable),
    };
    Ok((Object { id, kind, body }, c + used))
}

/// Read the objects out of a packfile, resolving both delta forms.
///
/// A body that is not a version-2 pack, a member that will not read, or a
/// pack carrying fewer members than its header claims is could-not-look: a
/// lease body that cannot be read has not been read.
pub fn objects_in(pack: &[u8]) -> (r: Result<Vec<Object>, PackError>)
    ensures
        r is Ok <==> objects_of(pack@) is Ok,
        r is Ok ==> object_views(r->Ok_0@) == objects_of(pack@)->Ok_0,
        r is Err ==> r->Err_0 == objects_of(pack@)->Err_0,
{
    if pack.len() < 12 || !(pack[0] == 80 && pack[1] == 65 && pack[2] == 67 && pack[3] == 75) {
        proof {
            if pack.len() >= 12 {
                assert(pack@.subrange(0, 4) != pack_signature()) by {
                    if pack@.subrange(0, 4) == pack_signature() {
                        assert(pack@.subrange(0, 4)[0] == 80u8);
                    }
                }
            }
        }
        return Err(PackError::NotAPack);
    }
    assert(pack@.subrange(0, 4) =~= pack_signature());
    let version: u32 = (pack[4] as u32) * 0x100_0000 + (pack[5] as u32) * 0x1_0000 + (pack[6] as u32)
        * 0x100 + (pack[7] as u32);
    if version != 2 {
        return Err(PackError::Version(version));
    }
    let count: u32 = (pack[8] as u32) * 0x100_0000 + (pack[9] as u32) * 0x1_0000 + (pack[10] as u32)
        * 0x100 + (pack[11] as u32);
    let mut objects: Vec<Object> = Vec::new();
    let mut starts: Vec<usize> = Vec::new();
    let mut cursor: usize = 12;
    let mut k: u32 = 0;
    proof {
        assert(object_views(objects@) =~= seq![]);
        assert(starts@ =~= seq![]);
        assert(be32(pack@, 4) == version);
        assert(be32(pack@, 8) == count);
    }
    while k < count
        invariant
            k <= count,
            cursor <= pack.len(),
            objects.len() == starts.len(),
            objects_of(pack@) == members_from(
                pack@,
                cursor as int,
                count - k,
                object_views(objects@),
                starts@,
            ),
        decreases count - k,
    {
        let (object, next) = match read_member(pack, cursor, &objects, &starts) {
            Ok(m) => m,
            Err(e) => return Err(e),
        };
        proof {
            assert(object_views(objects@.push(object)) == object_views(objects@).push(
                object_view(object),
            ));
        }
        objects.push(object);
        starts.push(cursor);
        cursor = next;
        k += 1;
    }
    Ok(objects)
}

// ---------------------------------------------------------------------------
// Writing a pack
// ---------------------------------------------------------------------------

/// A header byte `byte` with `rest` still to write: each byte but the last
/// carries the continuation bit, and the rest goes out seven bits at a time,
/// little-endian.
pub open spec fn emit(byte: nat, rest: nat) -> Seq<u8>
    decreases rest,
{
    if rest == 0 {
        seq![byte as u8]
    } else {
        seq![(byte + 128) as u8] + emit(rest % 128, rest / 128)
    }
}

/// The type-and-size header of an object: the type beside the size's low
/// four bits, then the rest seven bits per byte.
pub open spec fn object_header(t: u8, size: nat) -> Seq<u8> {
    emit(t as nat * 16 + size % 16, size / 16)
}

/// A number as four big-endian bytes.
pub open spec fn be32_bytes(v: nat) -> Seq<u8> {
    seq![(v / 0x100_0000 % 256) as u8, (v / 0x1_0000 % 256) as u8, (v / 0x100 % 256) as u8, (v % 256) as u8]
}

/// The members of a pack carrying `objs`, each undeltified: its header, then
/// its body compressed; `None` where a body will not compress.
pub open spec fn members_bytes(objs: Seq<ObjectView>) -> Option<Seq<u8>>
    decreases objs.len(),
{
    if objs.len() == 0 {
        Some(seq![])
    } else {
        match members_bytes(objs.drop_last()) {
            None => None,
            Some(prefix) => match zlib_compressed(objs.last().2) {
                None => None,
                Some(c) => Some(prefix + object_header(type_number(objs.last().1), objs.last().2.len()) + c),
            },
        }
    }
}

/// The packfile carrying `objs`: the signature, version 2, the count, the
/// members, and the SHA-1 trailer over everything before it.
pub open spec fn pack_bytes(objs: Seq<ObjectView>) -> Result<Seq<u8>, PackError> {
    if objs.len() > 0xffff_ffff {
        Err(PackError::TooManyObjects)
    } else {
        match members_bytes(objs) {
            None => Err(PackError::Uncompressible),
            Some(m) => {
                let body = pack_signature() + be32_bytes(2) + be32_bytes(objs.len()) + m;
                match git_sha1(body) {
                    None => Err(PackError::Unhashable),
                    Some(d) => Ok(body + d),
                }
            },
        }
    }
}

fn push_header(out: &mut Vec<u8>, t: u8, size: usize)
    requires
        t < 8,
    ensures
        final(out)@ == old(out)@ + object_header(t, size as nat),
{
    let mut byte: u8 = t * 16 + (size % 16) as u8;
    let mut rest: usize = size / 16;
    while rest > 0
        invariant
            byte < 128,
            old(out)@ + object_header(t, size as nat) == out@ + emit(byte as nat, rest as nat),
        decreases rest,
    {
        proof {
            assert(out@ + emit(byte as nat, rest as nat) == out@.push((byte + 128) as u8) + emit(
                (rest % 128) as nat,
                (rest / 128) as nat,
            ));
        }
        out.push(byte + 128);
        byte = (rest % 128) as u8;
        rest = rest / 128;
    }
    proof {
        assert(emit(byte as nat, 0) == seq![byte]);
    }
    out.push(byte);
}

fn push_be32(out: &mut Vec<u8>, v: u32)
    ensures
        final(out)@ == old(out)@ + be32_bytes(v as nat),
{
    out.push((v / 0x100_0000 % 256) as u8);
    out.push((v / 0x1_0000 % 256) as u8);
    out.push((v / 0x100 % 256) as u8);
    out.push((v % 256) as u8);
    assert(final(out)@ =~= old(out)@ + be32_bytes(v as nat));
}

/// Write a packfile carrying `objects`, each undeltified.
///
/// No deltas, deliberately: a lease is one small parentless commit, so a
/// delta would save nothing and would put a second encoding on a path whose
/// whole job is to be unambiguous.
pub fn pack_of(objects: &[Object]) -> (r: Result<Vec<u8>, PackError>)
    ensures
        r is Ok <==> pack_bytes(object_views(objects@)) is Ok,
        r is Ok ==> r->Ok_0@ == pack_bytes(object_views(objects@))->Ok_0,
        r is Err ==> r->Err_0 == pack_bytes(object_views(objects@))->Err_0,
        r is Ok && (forall|k: int|
            0 <= k < objects@.len() ==> #[trigger] object_reads_back(object_view(objects@[k])))
            ==> objects_of(r->Ok_0@) == Ok::<Seq<ObjectView>, PackError>(object_views(objects@)),
{
    let ghost ov = object_views(objects@);
    if objects.len() > 0xffff_ffff {
        return Err(PackError::TooManyObjects);
    }
    let count = objects.len() as u32;
    let mut pack: Vec<u8> = Vec::new();
    pack.push(80u8);
    pack.push(65u8);
    pack.push(67u8);
    pack.push(75u8);
    push_be32(&mut pack, 2);
    push_be32(&mut pack, count);
    let ghost head = pack@;
    proof {
        assert(head =~= pack_signature() + be32_bytes(2) + be32_bytes(ov.len()));
        assert(ov.subrange(0, 0) =~= seq![]);
        assert(head == head + members_bytes(ov.subrange(0, 0))->0);
    }
    let mut i: usize = 0;
    while i < objects.len()
        invariant
            i <= objects.len(),
            objects.len() <= 0xffff_ffff,
            ov == object_views(objects@),
            head == pack_signature() + be32_bytes(2) + be32_bytes(ov.len()),
            members_bytes(ov.subrange(0, i as int)) is Some,
            pack@ == head + members_bytes(ov.subrange(0, i as int))->0,
            forall|k: int| 0 <= k < i ==> inflates_back(#[trigger] ov[k].2),
        decreases objects.len() - i,
    {
        let ghost pre = ov.subrange(0, i + 1);
        proof {
            assert(pre.drop_last() == ov.subrange(0, i as int));
            assert(pre.last() == object_view(objects@[i as int]));
        }
        let body = objects[i].body.as_slice();
        let compressed = match compress(body) {
            Some(c) => c,
            None => {
                proof {
                    assert(members_bytes(pre) is None);
                    lemma_members_none_extends(ov, i as int + 1);
                }
                return Err(PackError::Uncompressible);
            },
        };
        proof {
            assert(inflates_back(ov[i as int].2));
        }
        push_header(&mut pack, pack_type(objects[i].kind), body.len());
        let mut j: usize = 0;
        while j < compressed.len()
            invariant
                j <= compressed.len(),
                i < objects.len(),
                pack@ == old_pack_with(head, ov, i as int, objects@[i as int]) + compressed@.subrange(0, j as int),
            decreases compressed.len() - j,
        {
            pack.push(compressed[j]);
            j += 1;
        }
        proof {
            assert(compressed@.subrange(0, compressed.len() as int) == compressed@);
        }
        i += 1;
    }
    proof {
        assert(ov.subrange(0, ov.len() as int) == ov);
    }
    let digest = match sha1_of(pack.as_slice()) {
        Some(d) => d,
        None => return Err(PackError::Unhashable),
    };
    let mut k: usize = 0;
    let ghost body_bytes = pack@;
    while k < digest.len()
        invariant
            k <= digest.len(),
            pack@ == body_bytes + digest@.subrange(0, k as int),
        decreases digest.len() - k,
    {
        pack.push(digest[k]);
        k += 1;
    }
    proof {
        assert(digest@.subrange(0, digest.len() as int) == digest@);
        if forall|k: int|
            0 <= k < objects@.len() ==> #[trigger] object_reads_back(object_view(objects@[k])) {
            assert forall|j: int| 0 <= j < ov.len() implies object_reads_back(#[trigger] ov[j])
                && inflates_back(ov[j].2) by {
                assert(ov[j] == object_view(objects@[j]));
            }
            lemma_pack_reads(ov);
        }
    }
    Ok(pack)
}

// ---------------------------------------------------------------------------
// Reading back what was written
// ---------------------------------------------------------------------------

proof fn lemma_byte_bits(x: u8, more: bool)
    requires
        x < 128,
    ensures
        ((if more {
            (x + 128) as u8
        } else {
            x
        }) & 0x7f) == x,
        (((if more {
            (x + 128) as u8
        } else {
            x
        }) & 0x80) != 0) == more,
{
    assert(((x + 128) as u8) & 0x7f == x) by (bit_vector)
        requires
            x < 128,
    ;
    assert(((x + 128) as u8) & 0x80 != 0) by (bit_vector)
        requires
            x < 128,
    ;
    assert(x & 0x7f == x) by (bit_vector)
        requires
            x < 128,
    ;
    assert(x & 0x80 == 0) by (bit_vector)
        requires
            x < 128,
    ;
}

proof fn lemma_or_low(acc: usize, x: usize, s: usize)
    requires
        s < usize::BITS,
        acc < (1usize << s),
    ensures
        acc | (x << s) == acc + (x << s),
{
    assert(acc | (x << s) == acc + (x << s)) by (bit_vector)
        requires
            s < usize::BITS,
            acc < (1usize << s),
    ;
}

/// The continuation bytes of a header for `size` once `shift` bits are read.
pub open spec fn header_tail(size: nat, shift: nat) -> Seq<u8> {
    emit((size / pow2(shift)) % 128, (size / pow2(shift)) / 128)
}

proof fn lemma_header_more_reads(rest: Seq<u8>, index: int, acc: usize, shift: nat, size: usize)
    requires
        0 <= index,
        4 <= shift,
        size >= pow2(shift),
        acc as nat == size as nat % pow2(shift),
        index + header_tail(size as nat, shift).len() <= rest.len(),
        rest.subrange(index, index + header_tail(size as nat, shift).len()) == header_tail(
            size as nat,
            shift,
        ),
    ensures
        header_more(rest, index, acc, shift as int) == Ok::<(usize, int), PackError>(
            (size, index + header_tail(size as nat, shift).len()),
        ),
    decreases rest.len() - index,
{
    let p = pow2(shift);
    let n = size as nat;
    let r = n / p;
    let t = header_tail(size as nat, shift);
    vstd::arithmetic::power2::lemma_pow2_pos(shift);
    vstd::arithmetic::power2::lemma2_to64();
    vstd::arithmetic::power2::lemma2_to64_rest();
    if shift >= usize::BITS {
        if shift > usize::BITS {
            vstd::arithmetic::power2::lemma_pow2_strictly_increases(usize::BITS as nat, shift);
        }
        assert(false);
    }
    vstd::arithmetic::div_mod::lemma_fundamental_div_mod(n as int, p as int);
    assert(r >= 1) by (nonlinear_arith)
        requires
            n >= p,
            p > 0,
            n == p * r + n % p,
            n % p < p,
            r >= 0,
    ;
    assert(t[0] == rest[index]);
    let x8: u8 = (r % 128) as u8;
    lemma_byte_bits(x8, r / 128 > 0);
    if r / 128 > 0 {
        assert(t[0] == (x8 + 128) as u8);
    } else {
        assert(t[0] == x8);
    }
    let b = rest[index];
    let x: usize = (b & 0x7f) as usize;
    assert(x == r % 128);
    assert(x * p <= n) by (nonlinear_arith)
        requires
            x <= r,
            n == p * r + n % p,
            n % p >= 0,
            p > 0,
    ;
    vstd::arithmetic::power2::lemma_pow2_strictly_increases(shift, usize::BITS as nat);
    vstd::bits::lemma_usize_shl_is_mul(x, shift as usize);
    vstd::bits::lemma_usize_shl_is_mul(1, shift as usize);
    lemma_or_low(acc, x, shift as usize);
    let size2 = acc | (x << (shift as usize));
    assert(size2 == n % p + (r % 128) * p);
    vstd::arithmetic::div_mod::lemma_mod_breakdown(size as int, p as int, 128);
    vstd::arithmetic::power2::lemma_pow2_adds(shift, 7);
    assert(pow2(shift + 7) == p * 128);
    if r / 128 == 0 {
        assert(size2 == size);
        assert(t.len() == 1);
    } else {
        vstd::arithmetic::div_mod::lemma_div_denominator(size as int, p as int, 128);
        assert(n >= pow2(shift + 7)) by (nonlinear_arith)
            requires
                r / 128 >= 1,
                n == p * r + n % p,
                n % p >= 0,
                p > 0,
                pow2(shift + 7) == p * 128,
        ;
        let t2 = header_tail(size as nat, shift + 7);
        assert(n / pow2(shift + 7) == r / 128);
        assert(t == seq![(x8 + 128) as u8] + t2);
        assert(size2 == n % pow2(shift + 7));
        assert(rest.subrange(index + 1, index + 1 + t2.len()) =~= t2) by {
            assert forall|j: int| 0 <= j < t2.len() implies rest.subrange(index + 1, index + 1 + t2.len())[j]
                == t2[j] by {
                assert(rest[index + 1 + j] == rest.subrange(index, index + t.len())[j + 1]);
            }
        }
        lemma_header_more_reads(rest, index + 1, size2 as usize, shift + 7, size);
    }
}

/// An object header reads back as the type and size it was written for.
pub proof fn lemma_object_header_reads(t: u8, size: usize, rest: Seq<u8>)
    requires
        t < 8,
    ensures
        object_header_at(object_header(t, size as nat) + rest) == Ok::<(u8, usize, int), PackError>(
            (t, size, object_header(t, size as nat).len() as int),
        ),
{
    let whole = object_header(t, size as nat) + rest;
    let lo: u8 = (size % 16) as u8;
    let h = object_header(t, size as nat);
    vstd::arithmetic::power2::lemma2_to64();
    assert(((t * 16 + lo) as u8 >> 4u8) & 7 == t) by (bit_vector)
        requires
            t < 8,
            lo < 16,
    ;
    assert(((t * 16 + lo + 128) as u8 >> 4u8) & 7 == t) by (bit_vector)
        requires
            t < 8,
            lo < 16,
    ;
    assert((t * 16 + lo) as u8 & 0x0f == lo) by (bit_vector)
        requires
            t < 8,
            lo < 16,
    ;
    assert((t * 16 + lo + 128) as u8 & 0x0f == lo) by (bit_vector)
        requires
            t < 8,
            lo < 16,
    ;
    assert((t * 16 + lo) as u8 & 0x80 == 0) by (bit_vector)
        requires
            t < 8,
            lo < 16,
    ;
    assert((t * 16 + lo + 128) as u8 & 0x80 != 0) by (bit_vector)
        requires
            t < 8,
            lo < 16,
    ;
    assert(whole[0] == h[0]);
    if size / 16 == 0 {
        assert(h == seq![(t * 16 + lo) as u8]);
    } else {
        let tail = header_tail(size as nat, 4);
        assert(h == seq![(t * 16 + lo + 128) as u8] + tail);
        assert(whole.subrange(1, 1 + tail.len() as int) =~= tail) by {
            assert forall|j: int| 0 <= j < tail.len() implies whole.subrange(1, 1 + tail.len() as int)[j]
                == tail[j] by {
                assert(whole[1 + j] == h[1 + j]);
            }
        }
        lemma_header_more_reads(whole, 1, (size % 16) as usize, 4, size);
    }
}

/// Whether the zlib stream written for `body` inflates back to it, whatever
/// follows it.
pub open spec fn inflates_back(body: Seq<u8>) -> bool {
    zlib_compressed(body) matches Some(c) && forall|rest: Seq<u8>| #[trigger]
        zlib_stream(c + rest) == Some((body, c.len()))
}

/// Whether an object reads back as itself: its id is the one its kind and
/// body hash to, and its body is one an allocation can hold.
pub open spec fn object_reads_back(o: ObjectView) -> bool {
    git_object_id(type_number(o.1), o.2) == Some(o.0) && o.2.len() <= isize::MAX
}

proof fn lemma_member_reads(
    pack: Seq<u8>,
    start: int,
    prior: Seq<ObjectView>,
    starts: Seq<usize>,
    o: ObjectView,
    c: Seq<u8>,
)
    requires
        0 <= start,
        object_reads_back(o),
        inflates_back(o.2),
        zlib_compressed(o.2) == Some(c),
        start + object_header(type_number(o.1), o.2.len()).len() + c.len() <= pack.len(),
        pack.subrange(start, start + object_header(type_number(o.1), o.2.len()).len() + c.len())
            == object_header(type_number(o.1), o.2.len()) + c,
    ensures
        member_at(pack, start, prior, starts) == Ok::<(ObjectView, int), PackError>(
            (o, start + object_header(type_number(o.1), o.2.len()).len() + c.len()),
        ),
{
    let t = type_number(o.1);
    let h = object_header(t, o.2.len());
    let end = start + h.len() + c.len();
    let rest = pack.subrange(end, pack.len() as int);
    let size = o.2.len() as usize;
    assert(pack.subrange(start, pack.len() as int) =~= h + (c + rest)) by {
        assert forall|j: int| 0 <= j < pack.len() - start implies #[trigger] pack.subrange(
            start,
            pack.len() as int,
        )[j] == (h + (c + rest))[j] by {
            if j < h.len() + c.len() {
                assert(pack[start + j] == pack.subrange(start, end)[j]);
            }
        }
    }
    lemma_object_header_reads(t, size, c + rest);
    let cursor = start + h.len();
    assert(pack.subrange(cursor, pack.len() as int) =~= c + rest) by {
        assert forall|j: int| 0 <= j < pack.len() - cursor implies #[trigger] pack.subrange(
            cursor,
            pack.len() as int,
        )[j] == (c + rest)[j] by {
            assert(pack[cursor + j] == pack.subrange(start, pack.len() as int)[h.len() + j]);
        }
    }
    assert(zlib_stream(c + rest) == Some((o.2, c.len())));
}

proof fn lemma_members_prefix(objs: Seq<ObjectView>, k: int)
    requires
        members_bytes(objs) is Some,
        0 <= k <= objs.len(),
    ensures
        members_bytes(objs.subrange(0, k)) is Some,
        members_bytes(objs.subrange(0, k))->0.len() <= members_bytes(objs)->0.len(),
        members_bytes(objs)->0.subrange(0, members_bytes(objs.subrange(0, k))->0.len() as int)
            == members_bytes(objs.subrange(0, k))->0,
    decreases objs.len() - k,
{
    if k == objs.len() {
        assert(objs.subrange(0, k) == objs);
        assert(members_bytes(objs)->0.subrange(0, members_bytes(objs)->0.len() as int)
            =~= members_bytes(objs)->0);
    } else {
        lemma_members_prefix(objs, k + 1);
        let next = objs.subrange(0, k + 1);
        assert(next.drop_last() =~= objs.subrange(0, k));
        let a = members_bytes(objs.subrange(0, k))->0;
        let b = members_bytes(next)->0;
        let m = members_bytes(objs)->0;
        assert(b.subrange(0, a.len() as int) =~= a);
        assert(m.subrange(0, a.len() as int) =~= a) by {
            assert forall|j: int| 0 <= j < a.len() implies #[trigger] m.subrange(0, a.len() as int)[j]
                == a[j] by {
                assert(m[j] == m.subrange(0, b.len() as int)[j]);
                assert(b[j] == b.subrange(0, a.len() as int)[j]);
            }
        }
    }
}

proof fn lemma_members_read(pack: Seq<u8>, objs: Seq<ObjectView>, k: int, starts: Seq<usize>)
    requires
        forall|j: int|
            0 <= j < objs.len() ==> object_reads_back(#[trigger] objs[j]) && inflates_back(objs[j].2),
        members_bytes(objs) is Some,
        0 <= k <= objs.len(),
        12int + members_bytes(objs)->0.len() <= pack.len(),
        pack.subrange(12, 12int + members_bytes(objs)->0.len()) == members_bytes(objs)->0,
    ensures
        members_bytes(objs.subrange(0, k)) is Some,
        members_from(
            pack,
            12int + members_bytes(objs.subrange(0, k))->0.len(),
            objs.len() - k,
            objs.subrange(0, k),
            starts,
        ) == Ok::<Seq<ObjectView>, PackError>(objs),
    decreases objs.len() - k,
{
    lemma_members_prefix(objs, k);
    if k == objs.len() {
        assert(objs.subrange(0, k) == objs);
    } else {
        lemma_members_prefix(objs, k + 1);
        let next = objs.subrange(0, k + 1);
        assert(next.drop_last() =~= objs.subrange(0, k));
        assert(next.last() == objs[k]);
        let a = members_bytes(objs.subrange(0, k))->0;
        let b = members_bytes(next)->0;
        let m = members_bytes(objs)->0;
        let o = objs[k];
        let c = zlib_compressed(o.2)->0;
        let h = object_header(type_number(o.1), o.2.len());
        assert(b == a + h + c);
        let start: int = 12int + a.len();
        assert(pack.subrange(start, start + h.len() + c.len()) =~= h + c) by {
            assert forall|j: int| 0 <= j < h.len() + c.len() implies #[trigger] pack.subrange(
                start,
                start + h.len() + c.len(),
            )[j] == (h + c)[j] by {
                assert(pack[start + j] == pack.subrange(12, 12int + m.len())[a.len() + j]);
                assert(m[a.len() + j] == m.subrange(0, b.len() as int)[a.len() + j]);
                assert(b[a.len() + j] == (h + c)[j]);
            }
        }
        lemma_member_reads(pack, start, objs.subrange(0, k), starts, o, c);
        assert(objs.subrange(0, k).push(o) =~= next);
        lemma_members_read(pack, objs, k + 1, starts.push(start as usize));
    }
}

proof fn lemma_be32_reads(b: Seq<u8>, i: int, v: u32)
    requires
        0 <= i,
        i + 4 <= b.len(),
        b.subrange(i, i + 4) == be32_bytes(v as nat),
    ensures
        be32(b, i) == v,
{
    assert(b[i] == b.subrange(i, i + 4)[0]);
    assert(b[i + 1] == b.subrange(i, i + 4)[1]);
    assert(b[i + 2] == b.subrange(i, i + 4)[2]);
    assert(b[i + 3] == b.subrange(i, i + 4)[3]);
    assert((v / 0x100_0000 % 256) * 0x100_0000 + (v / 0x1_0000 % 256) * 0x1_0000 + (v / 0x100 % 256)
        * 0x100 + v % 256 == v) by (bit_vector);
}

/// A pack written for `objs` reads back as `objs`, in order, wherever each
/// object's id is the one its kind and body hash to and each body's written
/// stream inflates back to it.
proof fn lemma_pack_reads(objs: Seq<ObjectView>)
    requires
        forall|j: int|
            0 <= j < objs.len() ==> object_reads_back(#[trigger] objs[j]) && inflates_back(objs[j].2),
        pack_bytes(objs) is Ok,
    ensures
        objects_of(pack_bytes(objs)->Ok_0) == Ok::<Seq<ObjectView>, PackError>(objs),
{
    let m = members_bytes(objs)->0;
    let body = pack_signature() + be32_bytes(2) + be32_bytes(objs.len()) + m;
    let d = git_sha1(body)->0;
    let pack = body + d;
    assert(pack.subrange(0, 4) =~= pack_signature());
    assert(pack.subrange(4, 8) =~= be32_bytes(2));
    assert(pack.subrange(8, 12) =~= be32_bytes(objs.len()));
    lemma_be32_reads(pack, 4, 2);
    lemma_be32_reads(pack, 8, objs.len() as u32);
    assert(pack.subrange(12, 12int + m.len()) =~= m);
    lemma_members_read(pack, objs, 0, seq![]);
    assert(objs.subrange(0, 0) =~= Seq::<ObjectView>::empty());
}

/// The pack written so far and one more object's header.
pub open spec fn old_pack_with(head: Seq<u8>, ov: Seq<ObjectView>, i: int, o: Object) -> Seq<u8> {
    head + members_bytes(ov.subrange(0, i))->0 + object_header(type_number(o.kind), o.body@.len())
}

proof fn lemma_members_none_extends(ov: Seq<ObjectView>, i: int)
    requires
        0 <= i <= ov.len(),
        members_bytes(ov.subrange(0, i)) is None,
    ensures
        members_bytes(ov) is None,
    decreases ov.len() - i,
{
    if i < ov.len() {
        let next = ov.subrange(0, i + 1);
        assert(next.drop_last() == ov.subrange(0, i));
        lemma_members_none_extends(ov, i + 1);
    } else {
        assert(ov.subrange(0, i) == ov);
    }
}

} // verus!
