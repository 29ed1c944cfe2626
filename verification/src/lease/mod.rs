//! The landing lease: a compare-and-swap over a remote ref, spoken as git
//! smart-HTTP, and the decisions every verb takes over what a read of it found.
//!
//! The wire half reads and writes pkt-line framing, ref advertisements,
//! receive-pack reports and packfiles; the rule half decides who may spend a
//! matrix, who may take the lease, and whether the ref is healthy.

pub mod body;
pub mod exchange;
pub mod local;
pub mod pack;
pub mod rules;
pub mod wire;

pub use self::body::{BANNER, Body, nonce, nonce_from, parse_body};
pub use self::pack::{
    LEASE_EMAIL, LEASE_NAME, Object, ObjectKind, PackError, lease_object, objects_in, pack_kind,
    pack_of, pack_type,
};
pub use self::rules::{
    Asked, Authority, BEATS_PER_TTL, Bail, Carries, DEFAULT_TTL, Guarded, Health, Landing, Observed,
    Progress, Terms, TermsMissing, Turn, adjudicate, authorises, authorises_this_clone, bail, carried, claim,
    decide, first_listed, guard, health, holder_alive, landing_step, lands_by_fast_forward, positive_secs, progress_in, query_value, renewal,
    reservation, terms_from, tombstone, turn,
};
pub use self::wire::{
    Advertisement, LeaseError, Outcome, Service, Update, ZERO, advertise, discovery_url,
    parse_advertisement, parse_report, pkt_split, pktline, pktlines, receive_pack_body, service_url,
    swap, upload_pack_request,
};
