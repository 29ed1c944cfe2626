//! The lease's wire: pkt-line framing, ref discovery, the receive-pack command
//! and its report.
//!
//! The framing itself is `gix-packetline`'s; what this module adds is the
//! boundary where the framed section stops, and the readings of the two
//! answers the lease turns on. Every reading that cannot be taken is an error,
//! never an empty answer: an unread lease read as unheld is the misread that
//! lets two sessions land at once.

use vstd::prelude::*;
use crate::text::{
    chars_of, lines, push_char, same_str, slice_of, split, split_exec, split_once, split_once_exec,
    string_of, string_views, strip_prefix, strip_prefix_exec, trim, trim_chars, views,
};
use vstd::string::StringExecFns;
use vstd::string::StringSliceAdditionalSpecFns;

verus! {

/// Why a reading of the wire could not be taken.
#[derive(Debug, Clone, Copy, PartialEq, Eq)]
pub enum LeaseError {
    /// A pkt-line's length header promises this many bytes more than the body
    /// carries.
    ShortLine(usize),
    /// A payload the four-hex-digit length header cannot frame: empty, or
    /// longer than a pkt-line may carry.
    Unframeable,
    /// An advertisement with no lines at all.
    EmptyAdvertisement,
    /// An advertisement whose first line does not announce the service.
    NotAnnounced,
    /// A report carrying no `unpack` status.
    NoUnpackStatus,
    /// The server answered with this status rather than `200`.
    Status(u16),
}

/// The two smart-HTTP services, named as the wire names them.
#[derive(Debug, Clone, Copy, PartialEq, Eq)]
pub enum Service {
    /// Reading: ref discovery and object fetch.
    UploadPack,
    /// Writing: the ref update the lease exists for.
    ReceivePack,
}

/// The wire name of a service.
pub open spec fn service_name(service: Service) -> Seq<char> {
    match service {
        Service::UploadPack => "git-upload-pack"@,
        Service::ReceivePack => "git-receive-pack"@,
    }
}

impl Service {
    /// The wire name, which is also the path segment and the media-type stem.
    pub fn as_str(self) -> (r: &'static str)
        ensures
            r@ == service_name(self),
    {
        match self {
            Service::UploadPack => "git-upload-pack",
            Service::ReceivePack => "git-receive-pack",
        }
    }
}

/// The object id git uses for "this ref does not exist".
pub const ZERO: &'static str = "0000000000000000000000000000000000000000";

// ---------------------------------------------------------------------------
// Framing
// ---------------------------------------------------------------------------

/// What one pkt-line decode found at the start of a body.
pub enum Frame {
    /// A whole line: its payload (none for a flush, delimiter or response-end
    /// line) and how many bytes it took.
    Complete(Option<Seq<u8>>, nat),
    /// The header promises this many more bytes than there are.
    Incomplete(nat),
    /// The first four bytes are not a pkt-line header.
    Invalid,
}

/// The value of one hexadecimal digit, in either case.
pub open spec fn hex_value(b: u8) -> Option<nat> {
    if 48 <= b <= 57 {
        Some((b - 48) as nat)
    } else if 97 <= b <= 102 {
        Some((b - 87) as nat)
    } else if 65 <= b <= 70 {
        Some((b - 55) as nat)
    } else {
        None
    }
}

/// `gix_packetline::decode::streaming`, as its source reads: fewer than four
/// bytes want the rest of a header; `0000`, `0001` and `0002` are the three
/// special lines; otherwise four hex digits give the line's whole length,
/// where `3` and `4` and anything over 65520 are refused, and a body shorter
/// than that length wants the difference.
pub open spec fn frame_at(data: Seq<u8>) -> Frame {
    if data.len() < 4 {
        Frame::Incomplete((4 - data.len()) as nat)
    } else if data[0] == 48 && data[1] == 48 && data[2] == 48 && (data[3] == 48 || data[3] == 49
        || data[3] == 50) {
        Frame::Complete(None, 4)
    } else {
        match (hex_value(data[0]), hex_value(data[1]), hex_value(data[2]), hex_value(data[3])) {
            (Some(a), Some(b), Some(c), Some(d)) => {
                let wanted = a * 4096 + b * 256 + c * 16 + d;
                if wanted == 3 || wanted == 4 || wanted > 65520 {
                    Frame::Invalid
                } else if data.len() < wanted {
                    Frame::Incomplete((wanted - data.len()) as nat)
                } else {
                    Frame::Complete(Some(data.subrange(4, wanted as int)), wanted)
                }
            },
            _ => Frame::Invalid,
        }
    }
}

/// One decode, as plain values.
pub enum Decoded {
    Complete { payload: Option<Vec<u8>>, consumed: usize },
    Incomplete { needed: usize },
    Invalid,
}

/// The frame a decode stands for.
pub open spec fn decoded_frame(d: Decoded) -> Frame {
    match d {
        Decoded::Complete { payload, consumed } => Frame::Complete(
            match payload {
                Some(p) => Some(p@),
                None => None,
            },
            consumed as nat,
        ),
        Decoded::Incomplete { needed } => Frame::Incomplete(needed as nat),
        Decoded::Invalid => Frame::Invalid,
    }
}

/// Decode the pkt-line at the start of `data`.
///
/// Trusted: `gix_packetline::decode::streaming`, whose source is restated by
/// [`frame_at`]; its error is every header that is not one.
#[verifier::external_body]
fn decode_frame(data: &[u8]) -> (r: Decoded)
    ensures
        decoded_frame(r) == frame_at(data@),
{
    match gix_packetline::decode::streaming(data) {
        Ok(gix_packetline::decode::Stream::Complete { line, bytes_consumed }) => {
            Decoded::Complete { payload: line.as_slice().map(|p| p.to_vec()), consumed: bytes_consumed }
        },
        Ok(gix_packetline::decode::Stream::Incomplete { bytes_needed }) => {
            Decoded::Incomplete { needed: bytes_needed }
        },
        Err(_) => Decoded::Invalid,
    }
}

/// The text a byte string reads as, invalid sequences replaced.
pub uninterp spec fn utf8_lossy(bytes: Seq<u8>) -> Seq<char>;

/// Read bytes as text, replacing what is not UTF-8.
///
/// Trusted: `String::from_utf8_lossy`, which the standard library documents
/// as keeping every valid UTF-8 sequence and replacing the rest; the contract
/// names the result and states the first half.
#[verifier::external_body]
pub(crate) fn lossy_text(bytes: &[u8]) -> (s: String)
    ensures
        s@ == utf8_lossy(bytes@),
        vstd::utf8::valid_utf8(bytes@) ==> s@ == vstd::utf8::decode_utf8(bytes@),
{
    String::from_utf8_lossy(bytes).into_owned()
}

/// Walk the framed section of `body` from `i`, gathering payloads: the
/// payloads and where the framed section stops, or how many bytes a
/// truncated line wants.
pub open spec fn pkt_walk(body: Seq<u8>, i: int, acc: Seq<Seq<u8>>) -> Result<(Seq<Seq<u8>>, int), nat>
    decreases body.len() - i,
{
    if i < 0 || i >= body.len() {
        Ok((acc, i))
    } else {
        match frame_at(body.subrange(i, body.len() as int)) {
            Frame::Complete(p, n) => {
                if n == 0 || i + n > body.len() {
                    Ok((acc, i))
                } else {
                    pkt_walk(
                        body,
                        i + n,
                        match p {
                            Some(q) => acc.push(q),
                            None => acc,
                        },
                    )
                }
            },
            Frame::Incomplete(n) => Err(n),
            Frame::Invalid => Ok((acc, i)),
        }
    }
}

/// The framed section of a body: its payloads read as text, and the index
/// where whatever follows it begins.
pub open spec fn pkt_section(body: Seq<u8>) -> Result<(Seq<Seq<char>>, int), nat> {
    match pkt_walk(body, 0, seq![]) {
        Ok((payloads, tail)) => Ok((payloads.map_values(|p: Seq<u8>| utf8_lossy(p)), tail)),
        Err(n) => Err(n),
    }
}

/// Split a smart-HTTP body into its pkt-line payloads and the index where the
/// unframed remainder begins.
///
/// A flush is a delimiter and never a payload. A header that promises more
/// than the body carries is a truncation, never the end of the section.
pub fn pkt_split(body: &[u8]) -> (r: Result<(Vec<String>, usize), LeaseError>)
    ensures
        r is Ok <==> pkt_section(body@) is Ok,
        r is Ok ==> string_views(r->Ok_0.0@) == pkt_section(body@)->Ok_0.0 && r->Ok_0.1
            == pkt_section(body@)->Ok_0.1,
        r is Err ==> r->Err_0 == LeaseError::ShortLine(pkt_section(body@)->Err_0 as usize),
        r is Ok ==> r->Ok_0.1 <= body@.len(),
{
    let mut lines: Vec<String> = Vec::new();
    let ghost mut payloads: Seq<Seq<u8>> = seq![];
    let mut i: usize = 0;
    while i < body.len()
        invariant
            i <= body.len(),
            pkt_walk(body@, 0, seq![]) == pkt_walk(body@, i as int, payloads),
            string_views(lines@) == payloads.map_values(|p: Seq<u8>| utf8_lossy(p)),
        ensures
            i <= body.len(),
            pkt_walk(body@, 0, seq![]) == Ok::<(Seq<Seq<u8>>, int), nat>((payloads, i as int)),
            string_views(lines@) == payloads.map_values(|p: Seq<u8>| utf8_lossy(p)),
        decreases body.len() - i,
    {
        let rest = &body[i..body.len()];
        match decode_frame(rest) {
            Decoded::Complete { payload, consumed } => {
                if consumed == 0 || consumed > body.len() - i {
                    break;
                }
                match payload {
                    Some(p) => {
                        let text = lossy_text(p.as_slice());
                        proof {
                            assert(string_views(lines@.push(text)) == string_views(lines@).push(
                                text@,
                            ));
                            assert(payloads.push(p@).map_values(|q: Seq<u8>| utf8_lossy(q))
                                == payloads.map_values(|q: Seq<u8>| utf8_lossy(q)).push(
                                utf8_lossy(p@),
                            ));
                            payloads = payloads.push(p@);
                        }
                        lines.push(text);
                    },
                    None => {},
                }
                i = i + consumed;
            },
            Decoded::Incomplete { needed } => {
                return Err(LeaseError::ShortLine(needed));
            },
            Decoded::Invalid => {
                break;
            },
        }
    }
    Ok((lines, i))
}

/// The pkt-line payloads of a body that carries nothing else.
pub fn pktlines(body: &[u8]) -> (r: Result<Vec<String>, LeaseError>)
    ensures
        r is Ok <==> pkt_section(body@) is Ok,
        r is Ok ==> string_views(r->Ok_0@) == pkt_section(body@)->Ok_0.0,
        r is Err ==> r->Err_0 == LeaseError::ShortLine(pkt_section(body@)->Err_0 as usize),
{
    match pkt_split(body) {
        Ok((lines, _)) => Ok(lines),
        Err(e) => Err(e),
    }
}

/// The bytes of `s` from `lo` up to `hi`.
pub fn slice_bytes(s: &[u8], lo: usize, hi: usize) -> (r: Vec<u8>)
    requires
        lo <= hi <= s.len(),
    ensures
        r@ == s@.subrange(lo as int, hi as int),
{
    let mut r: Vec<u8> = Vec::new();
    let mut i: usize = lo;
    while i < hi
        invariant
            lo <= i <= hi,
            hi <= s.len(),
            r@ == s@.subrange(lo as int, i as int),
        decreases hi - i,
    {
        r.push(s[i]);
        i += 1;
    }
    r
}

/// The four lower-case hex digits of a pkt-line length.
pub open spec fn hex4(n: nat) -> Seq<u8> {
    seq![hex_digit_byte(n / 4096 % 16), hex_digit_byte(n / 256 % 16), hex_digit_byte(n / 16 % 16), hex_digit_byte(n % 16)]
}

/// The lower-case hex digit byte for a value below sixteen.
pub open spec fn hex_digit_byte(d: nat) -> u8 {
    if d < 10 {
        (48 + d) as u8
    } else {
        (87 + d) as u8
    }
}

/// One payload framed as a pkt-line: `gix_packetline`'s `data_to_write`
/// refuses an empty payload and one over 65516 bytes, and otherwise writes the
/// four lower-case hex digits of the line's whole length, then the payload.
pub open spec fn framed(payload: Seq<u8>) -> Option<Seq<u8>> {
    if payload.len() == 0 || payload.len() > 65516 {
        None
    } else {
        Some(hex4(payload.len() + 4) + payload)
    }
}

/// Frame one payload.
///
/// Trusted: `gix_packetline::blocking_io::encode::data_to_write`, whose source
/// is restated by [`framed`].
#[verifier::external_body]
fn encode_frame(payload: &[u8]) -> (r: Option<Vec<u8>>)
    ensures
        match r {
            Some(f) => framed(payload@) == Some(f@),
            None => framed(payload@) is None,
        },
{
    let mut out = Vec::new();
    gix_packetline::blocking_io::encode::data_to_write(payload, &mut out).ok().map(|_| out)
}

/// Frame `payload` as one pkt-line.
pub fn pktline(payload: &str) -> (r: Result<Vec<u8>, LeaseError>)
    ensures
        match framed(payload.spec_bytes()) {
            Some(f) => r matches Ok(g) && g@ == f,
            None => r == Err::<Vec<u8>, LeaseError>(LeaseError::Unframeable),
        },
{
    match encode_frame(payload.as_bytes()) {
        Some(f) => Ok(f),
        None => Err(LeaseError::Unframeable),
    }
}

/// The flush-pkt, which ends a section.
pub open spec fn flush() -> Seq<u8> {
    seq![48u8, 48u8, 48u8, 48u8]
}

fn push_flush(out: &mut Vec<u8>)
    ensures
        final(out)@ == old(out)@ + flush(),
{
    out.push(48u8);
    out.push(48u8);
    out.push(48u8);
    out.push(48u8);
    assert(final(out)@ =~= old(out)@ + flush());
}

fn push_bytes(out: &mut Vec<u8>, t: &[u8])
    ensures
        final(out)@ == old(out)@ + t@,
{
    let mut i: usize = 0;
    while i < t.len()
        invariant
            i <= t.len(),
            out@ == old(out)@ + t@.subrange(0, i as int),
        decreases t.len() - i,
    {
        out.push(t[i]);
        i += 1;
    }
    assert(t@.subrange(0, t.len() as int) == t@);
}

// ---------------------------------------------------------------------------
// Ref discovery
// ---------------------------------------------------------------------------

/// What the remote said its refs are: every `(name, id)` line in the order it
/// came, and the capabilities it offered.
///
/// A ref absent from `refs` does not exist on the remote; where a name comes
/// twice, the later line is the one that stands.
#[derive(Debug, Clone, PartialEq, Eq)]
pub struct Advertisement {
    /// Full ref name and object id, in the order the remote sent them.
    pub refs: Vec<(String, String)>,
    /// The capabilities the server offered, as it spelled them.
    pub capabilities: Vec<String>,
}

/// The `(name, id)` pairs as text.
pub open spec fn ref_views(refs: Seq<(String, String)>) -> Seq<(Seq<char>, Seq<char>)> {
    refs.map_values(|p: (String, String)| (p.0@, p.1@))
}

/// The id the last line naming `name` carries.
pub open spec fn lookup(refs: Seq<(Seq<char>, Seq<char>)>, name: Seq<char>) -> Option<Seq<char>>
    decreases refs.len(),
{
    if refs.len() == 0 {
        None
    } else if refs.last().0 == name {
        Some(refs.last().1)
    } else {
        lookup(refs.drop_last(), name)
    }
}

impl Advertisement {
    /// The id the remote carries under `name`, if it carries one.
    pub fn id_of(&self, name: &str) -> (r: Option<&String>)
        ensures
            match lookup(ref_views(self.refs@), name@) {
                Some(id) => r matches Some(s) && s@ == id,
                None => r is None,
            },
    {
        let mut i: usize = self.refs.len();
        assert(self.refs@.subrange(0, i as int) == self.refs@);
        while i > 0
            invariant
                i <= self.refs.len(),
                lookup(ref_views(self.refs@), name@) == lookup(
                    ref_views(self.refs@.subrange(0, i as int)),
                    name@,
                ),
            decreases i,
        {
            let ghost pre = ref_views(self.refs@.subrange(0, i as int));
            proof {
                assert(pre.drop_last() == ref_views(self.refs@.subrange(0, i - 1)));
                assert(pre.last() == (self.refs@[i - 1].0@, self.refs@[i - 1].1@));
            }
            if same_str(chars_of(self.refs[i - 1].0.as_str()).as_slice(), name) {
                return Some(&self.refs[i - 1].1);
            }
            i -= 1;
        }
        None
    }

    /// The id `name` points at, or [`ZERO`] where the remote does not carry
    /// it — the collapse the old side of a swap wants.
    pub fn head_of(&self, name: &str) -> (r: &str)
        ensures
            r@ == match lookup(ref_views(self.refs@), name@) {
                Some(id) => id,
                None => ZERO@,
            },
    {
        match self.id_of(name) {
            Some(id) => id.as_str(),
            None => ZERO,
        }
    }
}

/// The URL ref discovery asks: the remote without its trailing slashes, then
/// `/info/refs?service=` and the service's name.
pub fn discovery_url(remote: &str, service: Service) -> (r: String)
    ensures
        r@ == crate::text::trim_end_char(remote@, '/') + "/info/refs?service="@ + service_name(
            service,
        ),
{
    let mut url = crate::text::trim_end_char_string(remote, '/');
    url.append("/info/refs?service=");
    url.append(service.as_str());
    url
}

/// The URL a service's request goes to: the remote without its trailing
/// slashes, a slash, and the service's name.
pub fn service_url(remote: &str, service: Service) -> (r: String)
    ensures
        r@ == crate::text::trim_end_char(remote@, '/') + "/"@ + service_name(service),
{
    let mut url = crate::text::trim_end_char_string(remote, '/');
    url.append("/");
    url.append(service.as_str());
    url
}

/// The banner an advertisement for `service` must open with.
pub open spec fn banner(service: Service) -> Seq<char> {
    "# service="@ + service_name(service)
}

/// The pieces of a split that are not empty.
pub open spec fn nonempty(pieces: Seq<Seq<char>>) -> Seq<Seq<char>>
    decreases pieces.len(),
{
    if pieces.len() == 0 {
        seq![]
    } else if pieces.last().len() > 0 {
        nonempty(pieces.drop_last()).push(pieces.last())
    } else {
        nonempty(pieces.drop_last())
    }
}

/// One advertisement line after the banner, the `index`th, read into the refs
/// and capabilities gathered so far.
pub open spec fn advert_line(
    line: Seq<char>,
    index: int,
    refs: Seq<(Seq<char>, Seq<char>)>,
    caps: Seq<Seq<char>>,
) -> (Seq<(Seq<char>, Seq<char>)>, Seq<Seq<char>>) {
    let l = crate::text::trim_end_char(line, '\n');
    if l.len() == 0 {
        (refs, caps)
    } else {
        let (payload, caps2) = match split_once(l, seq!['\0']) {
            Some((p, c)) if index == 0 => (p, nonempty(split(c, ' '))),
            _ => (l, caps),
        };
        match split_once(payload, seq![' ']) {
            Some((id, name)) => if name == "capabilities^{}"@ {
                (refs, caps2)
            } else {
                (refs.push((name, id)), caps2)
            },
            None => (refs, caps2),
        }
    }
}

/// The lines after the banner, from the `k`th, read in order.
pub open spec fn advert_from(
    lines: Seq<Seq<char>>,
    k: int,
    refs: Seq<(Seq<char>, Seq<char>)>,
    caps: Seq<Seq<char>>,
) -> (Seq<(Seq<char>, Seq<char>)>, Seq<Seq<char>>)
    decreases lines.len() - k,
{
    if k < 1 || k >= lines.len() {
        (refs, caps)
    } else {
        let (r2, c2) = advert_line(lines[k], k - 1, refs, caps);
        advert_from(lines, k + 1, r2, c2)
    }
}

/// What an advertisement body says, read as [`parse_advertisement`] reads it.
pub open spec fn advertisement_of(body: Seq<u8>, service: Service) -> Result<
    (Seq<(Seq<char>, Seq<char>)>, Seq<Seq<char>>),
    LeaseError,
> {
    match pkt_section(body) {
        Err(n) => Err(LeaseError::ShortLine(n as usize)),
        Ok((lines, _)) => if lines.len() == 0 {
            Err(LeaseError::EmptyAdvertisement)
        } else if trim(lines[0]) != banner(service) {
            Err(LeaseError::NotAnnounced)
        } else {
            Ok(advert_from(lines, 1, seq![], seq![]))
        },
    }
}

/// Keep the non-empty pieces.
fn keep_nonempty(pieces: Vec<Vec<char>>) -> (r: Vec<String>)
    ensures
        string_views(r@) == nonempty(views(pieces@)),
{
    let mut out: Vec<String> = Vec::new();
    let mut i: usize = 0;
    while i < pieces.len()
        invariant
            i <= pieces.len(),
            string_views(out@) == nonempty(views(pieces@).subrange(0, i as int)),
        decreases pieces.len() - i,
    {
        let ghost pre = views(pieces@).subrange(0, i + 1);
        proof {
            assert(pre.drop_last() == views(pieces@).subrange(0, i as int));
            assert(pre.last() == pieces@[i as int]@);
        }
        if pieces[i].len() > 0 {
            let s = string_of(pieces[i].as_slice());
            proof {
                assert(string_views(out@.push(s)) == string_views(out@).push(s@));
            }
            out.push(s);
        }
        i += 1;
    }
    proof {
        assert(views(pieces@).subrange(0, pieces.len() as int) == views(pieces@));
    }
    out
}

/// Parse a smart-HTTP advertisement body.
///
/// The first line must announce `service`: that is what stops a proxy's error
/// page being read as an empty ref set. The capabilities ride the first ref
/// after a NUL, and the `capabilities^{}` placeholder of an empty repository
/// contributes no ref.
pub fn parse_advertisement(body: &[u8], service: Service) -> (r: Result<Advertisement, LeaseError>)
    ensures
        match advertisement_of(body@, service) {
            Ok((refs, caps)) => r matches Ok(a) && ref_views(a.refs@) == refs && string_views(
                a.capabilities@,
            ) == caps,
            Err(e) => r == Err::<Advertisement, LeaseError>(e),
        },
{
    let (lines, _tail) = match pkt_split(body) {
        Ok(split_up) => split_up,
        Err(e) => return Err(e),
    };
    let ghost lv = string_views(lines@);
    if lines.len() == 0 {
        return Err(LeaseError::EmptyAdvertisement);
    }
    let first = chars_of(lines[0].as_str());
    let trimmed = trim_chars(first.as_slice());
    let mut expected = String::from_str("# service=");
    expected.append(service.as_str());
    if !same_str(trimmed.as_slice(), expected.as_str()) {
        return Err(LeaseError::NotAnnounced);
    }
    let mut refs: Vec<(String, String)> = Vec::new();
    let mut capabilities: Vec<String> = Vec::new();
    proof {
        assert(ref_views(refs@) =~= seq![]);
        assert(string_views(capabilities@) =~= seq![]);
        reveal_strlit("\0");
        reveal_strlit(" ");
        assert("\0"@ =~= seq!['\0']);
        assert(" "@ =~= seq![' ']);
    }
    let mut k: usize = 1;
    while k < lines.len()
        invariant
            1 <= k <= lines.len(),
            lv == string_views(lines@),
            "\0"@ == seq!['\0'],
            " "@ == seq![' '],
            advert_from(lv, 1, seq![], seq![]) == advert_from(
                lv,
                k as int,
                ref_views(refs@),
                string_views(capabilities@),
            ),
        decreases lines.len() - k,
    {
        let ghost before_r = ref_views(refs@);
        let ghost before_c = string_views(capabilities@);
        let line = chars_of(lines[k].as_str());
        proof {
            assert(lv[k as int] == line@);
        }
        let l = crate::text::trim_end_char_exec(line.as_slice(), '\n');
        proof {
            assert(l@ == crate::text::trim_end_char(lv[k as int], '\n'));
        }
        if l.len() > 0 {
            let mut payload: Vec<char> = slice_of(l.as_slice(), 0, l.len());
            let nul = split_once_exec(l.as_slice(), "\0");
            if k == 1 && nul.is_some() {
                let (p, c) = nul.unwrap();
                payload = p;
                let pieces = split_exec(c.as_slice(), ' ');
                capabilities = keep_nonempty(pieces);
            }
            let ghost sp = split_once(l@, seq!['\0']);
            let ghost expect_payload = match sp {
                Some((pp, cc)) if k - 1 == 0 => pp,
                _ => l@,
            };
            let ghost expect_caps = match sp {
                Some((pp, cc)) if k - 1 == 0 => nonempty(split(cc, ' ')),
                _ => before_c,
            };
            assert(payload@ == expect_payload);
            assert(string_views(capabilities@) == expect_caps);
            let space = split_once_exec(payload.as_slice(), " ");
            match space {
                Some((id, name)) => {
                    if !same_str(name.as_slice(), "capabilities^{}") {
                        let pair = (string_of(name.as_slice()), string_of(id.as_slice()));
                        proof {
                            assert(ref_views(refs@.push(pair)) == ref_views(refs@).push(
                                (name@, id@),
                            ));
                        }
                        refs.push(pair);
                    }
                },
                None => {},
            }
        }
        proof {
            assert((ref_views(refs@), string_views(capabilities@)) == advert_line(
                lv[k as int],
                k - 1,
                before_r,
                before_c,
            ));
        }
        k += 1;
    }
    Ok(Advertisement { refs, capabilities })
}

/// Read a discovery answer: anything but `200` is could-not-look, and a `200`
/// is parsed as an advertisement for `service`.
pub fn advertise(status: u16, body: &[u8], service: Service) -> (r: Result<Advertisement, LeaseError>)
    ensures
        status != 200 ==> r == Err::<Advertisement, LeaseError>(LeaseError::Status(status)),
        status == 200 ==> match advertisement_of(body@, service) {
            Ok((refs, caps)) => r matches Ok(a) && ref_views(a.refs@) == refs && string_views(
                a.capabilities@,
            ) == caps,
            Err(e) => r == Err::<Advertisement, LeaseError>(e),
        },
{
    if status != 200 {
        return Err(LeaseError::Status(status));
    }
    parse_advertisement(body, service)
}

// ---------------------------------------------------------------------------
// The swap
// ---------------------------------------------------------------------------

/// One ref update, as receive-pack takes it.
#[derive(Debug, Clone, PartialEq, Eq)]
pub struct Update {
    /// What the ref must currently read for the swap to apply — [`ZERO`] to
    /// create it.
    pub old: String,
    /// What it becomes — [`ZERO`] to delete it.
    pub new: String,
    /// The full ref name.
    pub name: String,
}

/// The command line for an update, asking for a report on its capability
/// list.
pub open spec fn command_text(old: Seq<char>, new: Seq<char>, name: Seq<char>) -> Seq<char> {
    old + " "@ + new + " "@ + name + "\0report-status\n"@
}

impl Update {
    /// The command line receive-pack reads, without its pkt framing.
    pub fn command(&self) -> (r: String)
        ensures
            r@ == command_text(self.old@, self.new@, self.name@),
    {
        let mut line = self.old.clone();
        line.append(" ");
        line.append(self.new.as_str());
        line.append(" ");
        line.append(self.name.as_str());
        line.append("\0report-status\n");
        line
    }
}

/// What the server did with a command list.
#[derive(Debug, Clone, PartialEq, Eq)]
pub enum Outcome {
    /// The swap applied: the ref read `old` and now reads `new`.
    Applied,
    /// The ref did not read `old`, so nothing was written. The CAS losing is
    /// an ordinary outcome rather than an error.
    Rejected {
        /// The server's own reason, carried verbatim.
        reason: String,
    },
}

/// An outcome, as text.
pub enum Reported {
    Applied,
    Rejected(Seq<char>),
}

/// What an outcome reports.
pub open spec fn reported(o: Outcome) -> Reported {
    match o {
        Outcome::Applied => Reported::Applied,
        Outcome::Rejected { reason } => Reported::Rejected(reason@),
    }
}

/// The report's lines from the `k`th, with `unpacked` saying whether a good
/// `unpack` line came before: the first refusal decides, and otherwise a good
/// `unpack` is needed for the swap to count as applied.
pub open spec fn report_from(lines: Seq<Seq<char>>, k: int, unpacked: bool) -> Result<Reported, LeaseError>
    decreases lines.len() - k,
{
    if k < 0 || k >= lines.len() {
        if unpacked {
            Ok(Reported::Applied)
        } else {
            Err(LeaseError::NoUnpackStatus)
        }
    } else {
        let line = trim(lines[k]);
        match strip_prefix(line, "unpack "@) {
            Some(rest) => if rest != "ok"@ {
                Ok(Reported::Rejected("unpack "@ + rest))
            } else {
                report_from(lines, k + 1, true)
            },
            None => match strip_prefix(line, "ng "@) {
                Some(rest) => Ok(Reported::Rejected(rest)),
                None => report_from(lines, k + 1, unpacked),
            },
        }
    }
}

/// What a report body says, read as [`parse_report`] reads it.
pub open spec fn report_of(body: Seq<u8>) -> Result<Reported, LeaseError> {
    match pkt_section(body) {
        Err(n) => Err(LeaseError::ShortLine(n as usize)),
        Ok((lines, _)) => report_from(lines, 0, false),
    }
}

/// Parse receive-pack's report-status.
///
/// The first `ng` line, or an `unpack` that is not `ok`, is a rejection; a
/// report with neither and no `unpack` at all is could-not-look, because a
/// push whose result cannot be read has not been shown to have applied.
pub fn parse_report(body: &[u8]) -> (r: Result<Outcome, LeaseError>)
    ensures
        match report_of(body@) {
            Ok(rep) => r matches Ok(o) && reported(o) == rep,
            Err(e) => r == Err::<Outcome, LeaseError>(e),
        },
{
    let (lines, _tail) = match pkt_split(body) {
        Ok(split_up) => split_up,
        Err(e) => return Err(e),
    };
    let ghost lv = string_views(lines@);
    let mut unpacked = false;
    let mut k: usize = 0;
    while k < lines.len()
        invariant
            k <= lines.len(),
            lv == string_views(lines@),
            report_of(body@) == report_from(lv, 0, false),
            report_from(lv, 0, false) == report_from(lv, k as int, unpacked),
        decreases lines.len() - k,
    {
        let raw = chars_of(lines[k].as_str());
        proof {
            assert(lv[k as int] == raw@);
        }
        let line = trim_chars(raw.as_slice());
        match strip_prefix_exec(line.as_slice(), "unpack ") {
            Some(rest) => {
                if !same_str(rest.as_slice(), "ok") {
                    let mut reason = String::from_str("unpack ");
                    let tail = string_of(rest.as_slice());
                    reason.append(tail.as_str());
                    return Ok(Outcome::Rejected { reason });
                }
                unpacked = true;
            },
            None => {
                match strip_prefix_exec(line.as_slice(), "ng ") {
                    Some(rest) => {
                        proof {
                            assert(line@ == trim(lv[k as int]));
                            assert(strip_prefix(line@, "unpack "@) is None);
                            assert(strip_prefix(line@, "ng "@) == Some(rest@));
                            assert(report_from(lv, k as int, unpacked) == Ok::<Reported, LeaseError>(Reported::Rejected(rest@)));
                        }
                        return Ok(Outcome::Rejected { reason: string_of(rest.as_slice()) });
                    },
                    None => {},
                }
            },
        }
        k += 1;
    }
    if !unpacked {
        return Err(LeaseError::NoUnpackStatus);
    }
    Ok(Outcome::Applied)
}

/// Read a receive-pack answer: anything but `200` is could-not-look, and a
/// `200` is parsed as a report.
pub fn swap(status: u16, body: &[u8]) -> (r: Result<Outcome, LeaseError>)
    ensures
        status != 200 ==> r == Err::<Outcome, LeaseError>(LeaseError::Status(status)),
        status == 200 ==> match report_of(body@) {
            Ok(rep) => r matches Ok(o) && reported(o) == rep,
            Err(e) => r == Err::<Outcome, LeaseError>(e),
        },
{
    if status != 200 {
        return Err(LeaseError::Status(status));
    }
    parse_report(body)
}

/// A receive-pack request body: the command framed, a flush, then the pack.
pub fn receive_pack_body(update: &Update, pack: &[u8]) -> (r: Result<Vec<u8>, LeaseError>)
    ensures
        match framed(vstd::utf8::encode_utf8(command_text(update.old@, update.new@, update.name@))) {
            Some(f) => r matches Ok(b) && b@ == f + flush() + pack@,
            None => r == Err::<Vec<u8>, LeaseError>(LeaseError::Unframeable),
        },
{
    let command = update.command();
    let mut body = match pktline(command.as_str()) {
        Ok(b) => b,
        Err(e) => return Err(e),
    };
    push_flush(&mut body);
    push_bytes(&mut body, pack);
    Ok(body)
}

// ---------------------------------------------------------------------------
// The fetch request
// ---------------------------------------------------------------------------

/// The framed `have` lines, in order.
pub open spec fn haves_framed(haves: Seq<Seq<char>>) -> Option<Seq<u8>>
    decreases haves.len(),
{
    if haves.len() == 0 {
        Some(seq![])
    } else {
        match haves_framed(haves.drop_last()) {
            None => None,
            Some(p) => match framed(vstd::utf8::encode_utf8("have "@ + haves.last() + "\n"@)) {
                None => None,
                Some(f) => Some(p + f),
            },
        }
    }
}

/// The `want`/`have`/`done` body: the one `want` carrying the capabilities, a
/// flush, a `have` per local commit, and `done`.
pub open spec fn upload_request_of(want: Seq<char>, haves: Seq<Seq<char>>) -> Option<Seq<u8>> {
    match framed(vstd::utf8::encode_utf8("want "@ + want + " no-progress ofs-delta\n"@)) {
        None => None,
        Some(first) => match haves_framed(haves) {
            None => None,
            Some(h) => match framed(vstd::utf8::encode_utf8("done\n"@)) {
                None => None,
                Some(d) => Some(first + flush() + h + d),
            },
        },
    }
}

proof fn lemma_haves_none_extends(haves: Seq<Seq<char>>, i: int)
    requires
        0 <= i <= haves.len(),
        haves_framed(haves.subrange(0, i)) is None,
    ensures
        haves_framed(haves) is None,
    decreases haves.len() - i,
{
    if i < haves.len() {
        assert(haves.subrange(0, i + 1).drop_last() == haves.subrange(0, i));
        lemma_haves_none_extends(haves, i + 1);
    } else {
        assert(haves.subrange(0, i) == haves);
    }
}

/// The body an upload-pack request sends for `want`, offering `haves`.
pub fn upload_pack_request(want: &str, haves: &[String]) -> (r: Result<Vec<u8>, LeaseError>)
    ensures
        r is Ok <==> upload_request_of(want@, string_views(haves@)) is Some,
        r is Ok ==> r->Ok_0@ == upload_request_of(want@, string_views(haves@))->0,
        r is Err ==> r->Err_0 == LeaseError::Unframeable,
{
    let ghost hv = string_views(haves@);
    let mut line = String::from_str("want ");
    line.append(want);
    line.append(" no-progress ofs-delta\n");
    let mut body = match pktline(line.as_str()) {
        Ok(b) => b,
        Err(e) => return Err(e),
    };
    push_flush(&mut body);
    let ghost head = body@;
    proof {
        assert(hv.subrange(0, 0) =~= seq![]);
    }
    let mut i: usize = 0;
    while i < haves.len()
        invariant
            i <= haves.len(),
            hv == string_views(haves@),
            haves_framed(hv.subrange(0, i as int)) is Some,
            body@ == head + haves_framed(hv.subrange(0, i as int))->0,
        decreases haves.len() - i,
    {
        proof {
            assert(hv.subrange(0, i + 1).drop_last() == hv.subrange(0, i as int));
            assert(hv.subrange(0, i + 1).last() == haves@[i as int]@);
        }
        let mut have = String::from_str("have ");
        have.append(haves[i].as_str());
        have.append("\n");
        let framed_have = match pktline(have.as_str()) {
            Ok(f) => f,
            Err(e) => {
                proof {
                    lemma_haves_none_extends(hv, i + 1);
                }
                return Err(e);
            },
        };
        push_bytes(&mut body, framed_have.as_slice());
        i += 1;
    }
    proof {
        assert(hv.subrange(0, haves.len() as int) == hv);
    }
    let done = match pktline("done\n") {
        Ok(d) => d,
        Err(e) => return Err(e),
    };
    push_bytes(&mut body, done.as_slice());
    Ok(body)
}

} // verus!
