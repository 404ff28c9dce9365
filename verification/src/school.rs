//! The school ledger: workspaces and staff, classes, encrypted bookings,
//! waitlists, released-seat offers, reconciliation runs, calendar feeds and
//! the email outbox.
use vstd::prelude::*;
use crate::codec::{digest, digest_spec};
use crate::ids::{fresh_id, is_hyphenated_uuid_text, is_simple_uuid_text, opaque_id};
use crate::metrics::WorkspaceMetrics;
use crate::records::{CalendarConnection, ReleaseResult, WaitlistOffer, availability_at, availability_spec, Availability, NewRealClass, RealClass, RealError, Workspace};
use crate::seqs::{is_permutation, ordered_by, sort_by_key, distinct_by, lemma_distinct_push, lemma_distinct_update, lemma_distinct_filter};
use crate::crypto::{ContactCipher, open_spec, seal_limit};
use crate::text::{trim_end_char, trim_end_matches_char};
use vstd::utf8::encode_utf8;
use crate::seqs::{retain_flagged, lemma_filter_member, first_match, lemma_first_match, lemma_first_match_at, lemma_first_match_none, pick, lemma_pick, lemma_pick_step};

verus! {

/// Seconds of a new workspace's trial.
pub const TRIAL_SECONDS: i64 = 1209600;

/// Seconds a guardian contact is retained.
pub const CONTACT_RETENTION_SECONDS: i64 = 7776000;

/// Seconds a released-seat offer stays open.
pub const OFFER_SECONDS: i64 = 86400;

#[derive(Clone, Copy, Debug, PartialEq, Eq, Structural)]
pub enum BookingStatus {
    Confirmed,
    Cancelled,
}

#[derive(Clone, Copy, Debug, PartialEq, Eq, Structural)]
pub enum WaitlistStatus {
    Waiting,
    Offered,
    Accepted,
}

#[derive(Clone, Copy, Debug, PartialEq, Eq, Structural)]
pub enum OfferStatus {
    Open,
    Accepted,
}

#[derive(Clone, Copy, Debug, PartialEq, Eq, Structural)]
pub enum RunStatus {
    Matched,
    Attention,
}

#[derive(Clone, Copy, Debug, PartialEq, Eq, Structural)]
pub enum DeliveryStatus {
    EmailQueued,
    ReadyToCopy,
}

#[derive(Clone, Copy, Debug, PartialEq, Eq, Structural)]
pub enum EmailStatus {
    Pending,
    Failed,
    Captured,
    Sent,
}

pub struct WorkspaceRow {
    pub id: String,
    pub school_name: String,
    pub access_key_hash: String,
    pub created_at: i64,
    pub subscription_status: String,
    pub trial_ends_at: Option<i64>,
}

pub struct MemberRow {
    pub workspace_id: String,
    pub oid: String,
    pub role: String,
    pub created_at: i64,
}

pub struct ClassRow {
    pub id: String,
    pub workspace_id: String,
    pub public_id: String,
    pub name: String,
    pub starts_at: i64,
    pub booking_cutoff: i64,
    pub timezone: String,
    pub capacity: i64,
    pub confirmed: i64,
    pub published: bool,
    pub created_at: i64,
}

pub struct SeatBooking {
    pub id: String,
    pub class_id: String,
    pub idempotency_key: String,
    pub guardian_name: String,
    pub guardian_email: String,
    pub status: BookingStatus,
    pub created_at: i64,
    pub contact_expires_at: Option<i64>,
}

pub struct WaitlistEntry {
    pub id: String,
    pub class_id: String,
    pub guardian_name: String,
    pub guardian_email: String,
    pub consented_at: i64,
    pub status: WaitlistStatus,
    pub created_at: i64,
    pub contact_expires_at: Option<i64>,
    pub idempotency_key: String,
}

pub struct SeatOffer {
    pub id: String,
    pub waitlist_entry_id: String,
    pub class_id: String,
    pub token_hash: String,
    pub expires_at: i64,
    pub status: OfferStatus,
    pub created_at: i64,
    pub token_encrypted: Option<String>,
    pub delivery_status: DeliveryStatus,
}

pub struct ReconciliationRun {
    pub id: String,
    pub class_id: String,
    pub calendar_confirmed: i64,
    pub local_confirmed: i64,
    pub status: RunStatus,
    pub created_at: i64,
}

pub struct CalendarFeed {
    pub id: String,
    pub workspace_id: String,
    pub label: String,
    pub provider: String,
    pub enabled: bool,
    pub created_at: i64,
    pub feed_url_encrypted: Option<String>,
    pub next_poll_at: Option<i64>,
    pub last_polled_at: Option<i64>,
    pub last_error: Option<String>,
}

pub struct OutboxEmail {
    pub id: String,
    pub workspace_id: String,
    pub recipient_encrypted: String,
    pub subject: String,
    pub text_body: String,
    pub status: EmailStatus,
    pub attempts: i64,
    pub next_attempt_at: i64,
    pub created_at: i64,
    pub seat_offer_id: Option<String>,
    pub sent_at: Option<i64>,
    pub last_error: Option<String>,
}

pub struct BillingEvent {
    pub id: String,
    pub workspace_id: String,
    pub external_reference_hash: String,
    pub status: String,
    pub created_at: i64,
}

/// The school tables.
pub struct SchoolLedger {
    pub workspaces: Vec<WorkspaceRow>,
    pub members: Vec<MemberRow>,
    pub classes: Vec<ClassRow>,
    pub bookings: Vec<SeatBooking>,
    pub waitlist: Vec<WaitlistEntry>,
    pub offers: Vec<SeatOffer>,
    pub runs: Vec<ReconciliationRun>,
    pub calendars: Vec<CalendarFeed>,
    pub outbox: Vec<OutboxEmail>,
    pub billing: Vec<BillingEvent>,
}

/// The workspace that access key `key` opens: its stored key digest matches,
/// or `key` is its id.
pub open spec fn opened_by(key: Seq<char>) -> spec_fn(WorkspaceRow) -> bool {
    |w: WorkspaceRow| w.access_key_hash@ == digest_spec(key) || w.id@ == key
}

/// `w` shows workspace row `row`.
pub open spec fn shows_workspace(w: Workspace, row: WorkspaceRow) -> bool {
    &&& w.id@ == row.id@
    &&& w.school_name@ == row.school_name@
    &&& w.subscription_status@ == row.subscription_status@
    &&& w.trial_ends_at == row.trial_ends_at
}

/// A subscription that entitles the school to use the service at `now`.
pub open spec fn entitled(row: WorkspaceRow, now: i64) -> bool {
    ||| row.subscription_status@ == "active"@
    ||| row.subscription_status@ == "grace"@
    ||| (row.subscription_status@ == "trial"@ && (row.trial_ends_at matches Some(end) && end > now))
}

/// A member `oid` of some workspace that `key` opens.
pub open spec fn member_for(workspaces: Seq<WorkspaceRow>, key: Seq<char>, oid: Seq<char>) -> spec_fn(MemberRow) -> bool {
    |m: MemberRow| m.oid@ == oid && exists|i: int| 0 <= i < workspaces.len()
        && #[trigger] workspaces[i].id@ == m.workspace_id@ && (opened_by(key))(workspaces[i])
}

/// Workspace rows having a member `oid`.
pub open spec fn has_member(members: Seq<MemberRow>, oid: Seq<char>) -> spec_fn(WorkspaceRow) -> bool {
    |w: WorkspaceRow| exists|j: int| 0 <= j < members.len() && #[trigger] members[j].oid@ == oid && members[j].workspace_id@ == w.id@
}

pub open spec fn created_earlier() -> spec_fn(WorkspaceRow, WorkspaceRow) -> bool {
    |a: WorkspaceRow, b: WorkspaceRow| a.created_at < b.created_at
}

/// `w` shows the workspace that `key` opens, or the key opens none.
pub open spec fn found_workspace(ws: Seq<WorkspaceRow>, key: Seq<char>, r: Result<Workspace, RealError>) -> bool {
    match first_match(ws, opened_by(key)) {
        Some(i) => r matches Ok(w) && shows_workspace(w, ws[i]),
        None => r == Err::<Workspace, RealError>(RealError::Forbidden),
    }
}

/// Whether a billing event with reference digest `hash` is left out: an
/// event with that digest, or with the event's id `id`, is already recorded.
pub open spec fn billing_ignored(billing: Seq<BillingEvent>, hash: Seq<char>, id: Seq<char>) -> bool {
    exists|j: int| 0 <= j < billing.len()
        && (#[trigger] billing[j].external_reference_hash@ == hash || billing[j].id@ == id)
}

/// What activating the subscription of the workspace that `access_key` opens
/// does, the billing event getting id `id`: the workspace's status becomes
/// `active`, and the event is appended unless `billing_ignored`.
pub open spec fn activated(old: SchoolLedger, new: SchoolLedger, access_key: Seq<char>, external_reference: Seq<char>,
    now: i64, id: Seq<char>, r: Result<Workspace, RealError>) -> bool {
    match first_match(old.workspaces@, opened_by(access_key)) {
        None => new == old && r == Err::<Workspace, RealError>(RealError::Forbidden),
        Some(w) => {
            let wid = old.workspaces@[w].id@;
            let hash = digest_spec(external_reference);
            &&& new.workspaces@.len() == old.workspaces@.len()
            &&& forall|i: int| 0 <= i < old.workspaces@.len() ==> {
                let o = #[trigger] old.workspaces@[i];
                let n = new.workspaces@[i];
                if o.id@ == wid {
                    n.subscription_status@ == "active"@ && n.id == o.id && n.school_name == o.school_name
                        && n.access_key_hash == o.access_key_hash && n.created_at == o.created_at
                        && n.trial_ends_at == o.trial_ends_at
                } else {
                    n == o
                }
            }
            &&& if billing_ignored(old.billing@, hash, id) {
                new.billing == old.billing
            } else {
                let b = new.billing@.last();
                &&& new.billing@.len() == old.billing@.len() + 1
                &&& new.billing@.subrange(0, old.billing@.len() as int) == old.billing@
                &&& b.id@ == id && b.workspace_id@ == wid && b.external_reference_hash@ == hash
                &&& b.status@ == "active"@ && b.created_at == now
            }
            &&& new.members == old.members && new.classes == old.classes
            &&& new.bookings == old.bookings && new.waitlist == old.waitlist
            &&& new.offers == old.offers && new.runs == old.runs
            &&& new.calendars == old.calendars && new.outbox == old.outbox
            &&& found_workspace(new.workspaces@, access_key, r)
        },
    }
}


/// Class seat counts never go negative or above a non-negative capacity.
pub open spec fn class_seats_ok(c: ClassRow) -> bool {
    0 <= c.confirmed && (c.confirmed <= c.capacity || c.confirmed == 0)
}

pub open spec fn class_key() -> spec_fn(ClassRow) -> Seq<char> {
    |c: ClassRow| c.id@
}

pub open spec fn booking_key() -> spec_fn(SeatBooking) -> Seq<char> {
    |b: SeatBooking| b.id@
}

pub open spec fn entry_key() -> spec_fn(WaitlistEntry) -> Seq<char> {
    |e: WaitlistEntry| e.id@
}

pub open spec fn offer_key() -> spec_fn(SeatOffer) -> Seq<char> {
    |o: SeatOffer| o.id@
}

pub open spec fn with_public_id(public_id: Seq<char>) -> spec_fn(ClassRow) -> bool {
    |c: ClassRow| c.public_id@ == public_id
}

/// A guardian contact too long to be sealed.
pub open spec fn unsealable(text: Seq<char>) -> bool {
    encode_utf8(text).len() >= seal_limit()
}

/// `b` is a new confirmed booking of class `class_id` under `key`, made at
/// `now`, whose stored contact opens to `name` and `email` and is kept ninety days.
pub open spec fn records_seat(b: SeatBooking, cipher_key: Seq<u8>, class_id: Seq<char>, key: Seq<char>, name: Seq<char>, email: Seq<char>, now: i64) -> bool {
    &&& b.class_id@ == class_id
    &&& b.idempotency_key@ == key
    &&& open_spec(cipher_key, b.guardian_name@) == Ok::<Seq<char>, crate::crypto::CipherError>(name)
    &&& open_spec(cipher_key, b.guardian_email@) == Ok::<Seq<char>, crate::crypto::CipherError>(email)
    &&& b.status == BookingStatus::Confirmed
    &&& b.created_at == now
    &&& b.contact_expires_at == Some((now + CONTACT_RETENTION_SECONDS) as i64)
}

/// Whether `id` is the id of one of `classes`.
pub open spec fn class_id_used(classes: Seq<ClassRow>, id: Seq<char>) -> bool {
    exists|j: int| 0 <= j < classes.len() && #[trigger] classes[j].id@ == id
}

/// The outcome of creating a class in the workspace that `key` opens, with
/// id `id` and public id `public_id`.
pub open spec fn created_class(old: SchoolLedger, new: SchoolLedger, key: Seq<char>, name: Seq<char>, starts_at: i64, cutoff: i64,
    timezone: Seq<char>, capacity: i64, now: i64, id: Seq<char>, public_id: Seq<char>, r: Result<RealClass, RealError>) -> bool {
    match first_match(old.workspaces@, opened_by(key)) {
        None => new == old && r == Err::<RealClass, RealError>(RealError::Forbidden),
        Some(w) => if class_id_used(old.classes@, id) {
            new == old && r == Err::<RealClass, RealError>(RealError::Database)
        } else {
            r matches Ok(c) && {
                let row = new.classes@.last();
                &&& new.classes@.len() == old.classes@.len() + 1
                &&& new.classes@.subrange(0, old.classes@.len() as int) == old.classes@
                &&& row.id@ == id && c.id@ == id
                &&& row.workspace_id@ == old.workspaces@[w].id@
                &&& row.public_id@ == public_id
                &&& row.name@ == name
                &&& row.starts_at == starts_at
                &&& row.booking_cutoff == cutoff
                &&& row.timezone@ == timezone
                &&& row.capacity == capacity
                &&& row.confirmed == 0
                &&& !row.published
                &&& row.created_at == now
                &&& shows_class_now(c, row, new.runs@, now)
                &&& new.workspaces == old.workspaces && new.members == old.members
                &&& new.runs == old.runs && new.bookings == old.bookings
                &&& new.waitlist == old.waitlist && new.offers == old.offers
                &&& new.calendars == old.calendars && new.outbox == old.outbox
                &&& new.billing == old.billing
            }
        },
    }
}

/// Whether `id` is the id of one of `bookings`.
pub open spec fn booking_id_used(bookings: Seq<SeatBooking>, id: Seq<char>) -> bool {
    exists|j: int| 0 <= j < bookings.len() && #[trigger] bookings[j].id@ == id
}

/// The outcome of booking a seat of class `public_id` under `idempotency_key`
/// at `now`, a new booking getting id `id`: `old` becomes `new` and `r` is
/// returned.
pub open spec fn booked_seat(old: SchoolLedger, new: SchoolLedger, cipher_key: Seq<u8>, public_id: Seq<char>, idempotency_key: Seq<char>,
    name: Seq<char>, email: Seq<char>, now: i64, id: Seq<char>, r: Result<RealClass, RealError>) -> bool {
    if unsealable(name) || unsealable(email) {
        new == old && r == Err::<RealClass, RealError>(RealError::Database)
    } else {
        match first_match(old.classes@, with_public_id(public_id)) {
            None => new == old && r == Err::<RealClass, RealError>(RealError::NotFound),
            Some(i) => {
                let c = old.classes@[i];
                if !c.published {
                    new == old && r == Err::<RealClass, RealError>(RealError::NotFound)
                } else if exists|j: int| 0 <= j < old.bookings@.len() && #[trigger] old.bookings@[j].class_id@ == c.id@
                    && old.bookings@[j].idempotency_key@ == idempotency_key {
                    new == old && (r matches Ok(v) && shows_class(v, c, None, now))
                } else if c.confirmed >= c.capacity {
                    new == old && r == Err::<RealClass, RealError>(RealError::Full)
                } else if c.booking_cutoff <= now {
                    new == old && r == Err::<RealClass, RealError>(RealError::Cutoff)
                } else {
                    if booking_id_used(old.bookings@, id) {
                        new == old && r == Err::<RealClass, RealError>(RealError::Database)
                    } else {
                        r matches Ok(v) && {
                            &&& new.classes@ == old.classes@.update(i, ClassRow { confirmed: (c.confirmed + 1) as i64, ..c })
                            &&& new.bookings@.len() == old.bookings@.len() + 1
                            &&& new.bookings@.subrange(0, old.bookings@.len() as int) == old.bookings@
                            &&& new.bookings@.last().id@ == id
                            &&& records_seat(new.bookings@.last(), cipher_key, c.id@, idempotency_key, name, email, now)
                            &&& same_except_classes_bookings(new, old)
                            &&& shows_class(v, new.classes@[i], None, now)
                        }
                    }
                }
            },
        }
    }
}

/// `e` is a new waiting entry for class `class_id` under `key`, consented
/// and created at `now`, whose stored contact opens to `name` and `email` and
/// is kept ninety days.
pub open spec fn records_entry(e: WaitlistEntry, cipher_key: Seq<u8>, class_id: Seq<char>, key: Seq<char>, name: Seq<char>, email: Seq<char>, now: i64) -> bool {
    &&& e.class_id@ == class_id
    &&& e.idempotency_key@ == key
    &&& open_spec(cipher_key, e.guardian_name@) == Ok::<Seq<char>, crate::crypto::CipherError>(name)
    &&& open_spec(cipher_key, e.guardian_email@) == Ok::<Seq<char>, crate::crypto::CipherError>(email)
    &&& e.status == WaitlistStatus::Waiting
    &&& e.consented_at == now
    &&& e.created_at == now
    &&& e.contact_expires_at == Some((now + CONTACT_RETENTION_SECONDS) as i64)
}

/// Whether `id` is the id of one of `entries`.
pub open spec fn entry_id_used(entries: Seq<WaitlistEntry>, id: Seq<char>) -> bool {
    exists|j: int| 0 <= j < entries.len() && #[trigger] entries[j].id@ == id
}

/// The outcome of joining the waitlist of class `public_id` under
/// `idempotency_key` at `now`, a new entry getting id `id`.
pub open spec fn joined_waitlist(old: SchoolLedger, new: SchoolLedger, cipher_key: Seq<u8>, public_id: Seq<char>, idempotency_key: Seq<char>,
    name: Seq<char>, email: Seq<char>, now: i64, id: Seq<char>, r: Result<String, RealError>) -> bool {
    match first_match(old.classes@, published_class(public_id)) {
        None => new == old && r == Err::<String, RealError>(RealError::NotFound),
        Some(i) => {
            let c = old.classes@[i];
            match first_match(old.waitlist@, entry_under(c.id@, idempotency_key)) {
                Some(e) => new == old && (r matches Ok(eid) && eid@ == old.waitlist@[e].id@),
                None => if unsealable(name) || unsealable(email) || entry_id_used(old.waitlist@, id) {
                    new == old && r == Err::<String, RealError>(RealError::Database)
                } else {
                    r matches Ok(eid) && {
                        &&& eid@ == id
                        &&& new.waitlist@.len() == old.waitlist@.len() + 1
                        &&& new.waitlist@.subrange(0, old.waitlist@.len() as int) == old.waitlist@
                        &&& new.waitlist@.last().id@ == id
                        &&& records_entry(new.waitlist@.last(), cipher_key, c.id@, idempotency_key, name, email, now)
                        &&& new.workspaces == old.workspaces && new.members == old.members
                        &&& new.classes == old.classes && new.bookings == old.bookings
                        &&& new.offers == old.offers && new.runs == old.runs && new.calendars == old.calendars
                        &&& new.outbox == old.outbox && new.billing == old.billing
                    }
                },
            }
        },
    }
}

pub open spec fn entry_under(class_id: Seq<char>, key: Seq<char>) -> spec_fn(WaitlistEntry) -> bool {
    |e: WaitlistEntry| e.class_id@ == class_id && e.idempotency_key@ == key
}

/// Only the tables named may differ.
pub open spec fn same_except_classes_bookings(a: SchoolLedger, b: SchoolLedger) -> bool {
    &&& a.workspaces == b.workspaces
    &&& a.members == b.members
    &&& a.waitlist == b.waitlist
    &&& a.offers == b.offers
    &&& a.runs == b.runs
    &&& a.calendars == b.calendars
    &&& a.outbox == b.outbox
    &&& a.billing == b.billing
}

/// How a released-seat offer is delivered.
pub struct OfferDelivery<'a> {
    pub cipher: &'a ContactCipher,
    pub public_base_url: &'a str,
    pub email_configured: bool,
}

/// The link to the offer with token `token`.
pub open spec fn offer_url_spec(base: Seq<char>, token: Seq<char>) -> Seq<char> {
    trim_end_char(base, '/') + "/offer/"@ + token
}

pub open spec fn waiting_in(class_id: Seq<char>) -> spec_fn(WaitlistEntry) -> bool {
    |e: WaitlistEntry| e.class_id@ == class_id && e.status == WaitlistStatus::Waiting
}

pub open spec fn entry_earlier() -> spec_fn(WaitlistEntry, WaitlistEntry) -> bool {
    |a: WaitlistEntry, b: WaitlistEntry| a.created_at < b.created_at
}

pub open spec fn confirmed_booking(id: Seq<char>, class_id: Seq<char>) -> spec_fn(SeatBooking) -> bool {
    |b: SeatBooking| b.id@ == id && b.class_id@ == class_id && b.status == BookingStatus::Confirmed
}

pub open spec fn confirmed_in(class_id: Seq<char>) -> spec_fn(SeatBooking) -> bool {
    |b: SeatBooking| b.class_id@ == class_id && b.status == BookingStatus::Confirmed
}

pub open spec fn booking_earlier() -> spec_fn(SeatBooking, SeatBooking) -> bool {
    |a: SeatBooking, b: SeatBooking| a.created_at < b.created_at
}

pub open spec fn delivery_text(email_configured: bool) -> Seq<char> {
    if email_configured { "email_queued"@ } else { "ready_to_copy"@ }
}

pub open spec fn offer_body_spec(url: Seq<char>) -> Seq<char> {
    "A class seat is available for 24 hours. Accept it at "@ + url
}

/// Class `c` with one seat released (none below zero).
pub open spec fn released_class(c: ClassRow) -> ClassRow {
    if c.confirmed > 0 { ClassRow { confirmed: (c.confirmed - 1) as i64, ..c } } else { c }
}

/// What cancelling confirmed booking `booking_id` of class `class_id` in the
/// workspace that `key` opens does, with the offer of the released seat to
/// the oldest waiting guardian.
pub open spec fn released(
    old: SchoolLedger,
    new: SchoolLedger,
    cipher_key: Seq<u8>,
    base: Seq<char>,
    email_configured: bool,
    key: Seq<char>,
    class_id: Seq<char>,
    booking_id: Seq<char>,
    now: i64,
    token: Seq<char>,
    offer_id: Seq<char>,
    email_id: Seq<char>,
    r: Result<ReleaseResult, RealError>,
) -> bool {
    match first_match(old.workspaces@, opened_by(key)) {
        None => new == old && r == Err::<ReleaseResult, RealError>(RealError::Forbidden),
        Some(w) => match first_match(old.classes@, class_in(old.workspaces@[w].id@, class_id)) {
            None => new == old && r == Err::<ReleaseResult, RealError>(RealError::NotFound),
            Some(ci) => match first_match(old.bookings@, confirmed_booking(booking_id, class_id)) {
                None => new == old && r == Err::<ReleaseResult, RealError>(RealError::NotFound),
                Some(bi) => {
                    let cancelled = old.bookings@.update(bi, SeatBooking { status: BookingStatus::Cancelled, ..old.bookings@[bi] });
                    let classes = old.classes@.update(ci, released_class(old.classes@[ci]));
                    match pick(old.waitlist@, waiting_in(class_id), entry_earlier()) {
                        None => {
                            &&& new.classes@ == classes
                            &&& new.bookings@ == cancelled
                            &&& new.workspaces == old.workspaces && new.members == old.members && new.waitlist == old.waitlist
                            &&& new.offers == old.offers && new.runs == old.runs && new.calendars == old.calendars
                            &&& new.outbox == old.outbox && new.billing == old.billing
                            &&& r matches Ok(res) && res.offer_token is None && res.offer_url is None
                                && res.expires_at is None && res.delivery_status@ == "not_needed"@
                        },
                        Some(ei) => if offer_id_used(old.offers@, offer_id) || unsealable(token) {
                            new == old && r == Err::<ReleaseResult, RealError>(RealError::Database)
                        } else {
                            r matches Ok(res) && {
                                let entry = old.waitlist@[ei];
                                let o = new.offers@.last();
                                &&& res.offer_token matches Some(t) && t@ == token && {
                                    &&& o.id@ == offer_id
                                    &&& res.offer_url matches Some(url) && url@ == offer_url_spec(base, token)
                                    &&& res.expires_at == Some((now + OFFER_SECONDS) as i64)
                                    &&& res.delivery_status@ == delivery_text(email_configured)
                                    &&& new.offers@.len() == old.offers@.len() + 1
                                    &&& new.offers@.subrange(0, old.offers@.len() as int) == old.offers@
                                    &&& o.waitlist_entry_id@ == entry.id@ && o.class_id@ == class_id
                                    &&& o.token_hash@ == crate::codec::digest_spec(token)
                                    &&& o.expires_at == now + OFFER_SECONDS && o.status == OfferStatus::Open && o.created_at == now
                                    &&& (o.token_encrypted matches Some(t) && open_spec(cipher_key, t@) == Ok::<Seq<char>, crate::crypto::CipherError>(token))
                                    &&& o.delivery_status == (if email_configured { DeliveryStatus::EmailQueued } else { DeliveryStatus::ReadyToCopy })
                                    &&& if email_configured {
                                        let m = new.outbox@.last();
                                        &&& m.id@ == email_id
                                        &&& new.outbox@.len() == old.outbox@.len() + 1
                                        &&& new.outbox@.subrange(0, old.outbox@.len() as int) == old.outbox@
                                        &&& m.workspace_id@ == old.workspaces@[w].id@
                                        &&& m.recipient_encrypted@ == entry.guardian_email@
                                        &&& m.subject@ == "A class seat is available"@
                                        &&& m.text_body@ == offer_body_spec(offer_url_spec(base, token))
                                        &&& m.status == EmailStatus::Pending && m.attempts == 0
                                        &&& m.next_attempt_at == now && m.created_at == now
                                        &&& (m.seat_offer_id matches Some(id) && id@ == o.id@)
                                        &&& m.sent_at is None && m.last_error is None
                                    } else {
                                        new.outbox == old.outbox
                                    }
                                }
                                &&& new.classes@ == classes
                                &&& new.bookings@ == cancelled
                                &&& new.waitlist@ == old.waitlist@.update(ei, WaitlistEntry { status: WaitlistStatus::Offered, ..entry })
                                &&& new.workspaces == old.workspaces && new.members == old.members
                                &&& new.runs == old.runs && new.calendars == old.calendars && new.billing == old.billing
                            }
                        },
                    }
                },
            },
        },
    }
}

/// The outcome of releasing the oldest confirmed booking of class
/// `class_id` in the workspace that `key` opens, as `released` describes.
pub open spec fn released_oldest(old: SchoolLedger, new: SchoolLedger, cipher_key: Seq<u8>, base: Seq<char>, email_configured: bool,
    key: Seq<char>, class_id: Seq<char>, now: i64, token: Seq<char>, offer_id: Seq<char>, email_id: Seq<char>,
    r: Result<ReleaseResult, RealError>) -> bool {
    match first_match(old.workspaces@, opened_by(key)) {
        None => new == old && r == Err::<ReleaseResult, RealError>(RealError::Forbidden),
        Some(w) => if first_match(old.classes@, class_in(old.workspaces@[w].id@, class_id)) is None {
            new == old && r == Err::<ReleaseResult, RealError>(RealError::NotFound)
        } else {
            match pick(old.bookings@, confirmed_in(class_id), booking_earlier()) {
                None => new == old && r == Err::<ReleaseResult, RealError>(RealError::NotFound),
                Some(b) => released(old, new, cipher_key, base,
                    email_configured, key, class_id, old.bookings@[b].id@, now, token, offer_id, email_id, r),
            }
        },
    }
}

/// Whether `id` is the id of one of `offers`.
pub open spec fn offer_id_used(offers: Seq<SeatOffer>, id: Seq<char>) -> bool {
    exists|j: int| 0 <= j < offers.len() && #[trigger] offers[j].id@ == id
}

/// Ids drawn for a released-seat offer: the token, the offer's id and the
/// id of its email.
pub open spec fn drawn_offer_ids(token: Seq<char>, offer_id: Seq<char>, email_id: Seq<char>) -> bool {
    &&& token.len() == 38 && token.subrange(0, 6) == "offer_"@ && is_simple_uuid_text(token.subrange(6, 38))
    &&& is_hyphenated_uuid_text(offer_id)
    &&& is_hyphenated_uuid_text(email_id)
}

pub open spec fn has_class_id(id: Seq<char>) -> spec_fn(ClassRow) -> bool {
    |c: ClassRow| c.id@ == id
}

/// An open offer whose token digest is `hash` and whose class exists.
pub open spec fn open_offer(hash: Seq<char>, classes: Seq<ClassRow>) -> spec_fn(SeatOffer) -> bool {
    |o: SeatOffer| o.token_hash@ == hash && o.status == OfferStatus::Open && first_match(classes, has_class_id(o.class_id@)) is Some
}

/// An open offer whose token digest is `hash`, unexpired at `now`, whose class exists.
pub open spec fn live_offer(hash: Seq<char>, classes: Seq<ClassRow>, now: i64) -> spec_fn(SeatOffer) -> bool {
    |o: SeatOffer| o.token_hash@ == hash && o.status == OfferStatus::Open && o.expires_at > now
        && first_match(classes, has_class_id(o.class_id@)) is Some
}

/// Entries marked accepted when offer `o` is accepted.
pub open spec fn accept_entry(entry_id: Seq<char>) -> spec_fn(WaitlistEntry) -> WaitlistEntry {
    |e: WaitlistEntry| if e.id@ == entry_id { WaitlistEntry { status: WaitlistStatus::Accepted, ..e } } else { e }
}

/// Class `cid` belongs to workspace `wid`.
pub open spec fn class_of_workspace(classes: Seq<ClassRow>, wid: Seq<char>, cid: Seq<char>) -> bool {
    exists|i: int| 0 <= i < classes.len() && #[trigger] classes[i].id@ == cid && classes[i].workspace_id@ == wid
}

pub open spec fn workspace_row_kept(wid: Seq<char>) -> spec_fn(WorkspaceRow) -> bool {
    |w: WorkspaceRow| w.id@ != wid
}

pub open spec fn member_kept(wid: Seq<char>) -> spec_fn(MemberRow) -> bool {
    |m: MemberRow| m.workspace_id@ != wid
}

pub open spec fn class_kept(wid: Seq<char>) -> spec_fn(ClassRow) -> bool {
    |c: ClassRow| c.workspace_id@ != wid
}

pub open spec fn booking_kept(classes: Seq<ClassRow>, wid: Seq<char>) -> spec_fn(SeatBooking) -> bool {
    |b: SeatBooking| !class_of_workspace(classes, wid, b.class_id@)
}

pub open spec fn entry_kept(classes: Seq<ClassRow>, wid: Seq<char>) -> spec_fn(WaitlistEntry) -> bool {
    |e: WaitlistEntry| !class_of_workspace(classes, wid, e.class_id@)
}

pub open spec fn offer_kept(classes: Seq<ClassRow>, wid: Seq<char>) -> spec_fn(SeatOffer) -> bool {
    |o: SeatOffer| !class_of_workspace(classes, wid, o.class_id@)
}

pub open spec fn run_kept(classes: Seq<ClassRow>, wid: Seq<char>) -> spec_fn(ReconciliationRun) -> bool {
    |r: ReconciliationRun| !class_of_workspace(classes, wid, r.class_id@)
}

pub open spec fn calendar_kept(wid: Seq<char>) -> spec_fn(CalendarFeed) -> bool {
    |c: CalendarFeed| c.workspace_id@ != wid
}

pub open spec fn email_kept(wid: Seq<char>) -> spec_fn(OutboxEmail) -> bool {
    |m: OutboxEmail| m.workspace_id@ != wid
}

pub open spec fn billing_kept(wid: Seq<char>) -> spec_fn(BillingEvent) -> bool {
    |b: BillingEvent| b.workspace_id@ != wid
}

/// `new` is `old` without workspace `wid` and everything that belongs to it.
pub open spec fn without_workspace(old: SchoolLedger, new: SchoolLedger, wid: Seq<char>) -> bool {
    &&& new.workspaces@ == old.workspaces@.filter(workspace_row_kept(wid))
    &&& new.members@ == old.members@.filter(member_kept(wid))
    &&& new.classes@ == old.classes@.filter(class_kept(wid))
    &&& new.bookings@ == old.bookings@.filter(booking_kept(old.classes@, wid))
    &&& new.waitlist@ == old.waitlist@.filter(entry_kept(old.classes@, wid))
    &&& new.offers@ == old.offers@.filter(offer_kept(old.classes@, wid))
    &&& new.runs@ == old.runs@.filter(run_kept(old.classes@, wid))
    &&& new.calendars@ == old.calendars@.filter(calendar_kept(wid))
    &&& new.outbox@ == old.outbox@.filter(email_kept(wid))
    &&& new.billing@ == old.billing@.filter(billing_kept(wid))
}

/// A stored contact past its retention at `now`, not yet scrubbed.
pub open spec fn contact_due(expires: Option<i64>, name: Seq<char>, now: i64) -> bool {
    (expires matches Some(t) && t <= now) && name != "[deleted]"@
}

pub open spec fn due_poll_in(wid: Seq<char>, now: i64) -> spec_fn(CalendarFeed) -> bool {
    |c: CalendarFeed| c.workspace_id@ == wid && c.enabled && (c.next_poll_at matches Some(t) && t <= now)
}

/// How late the most overdue enabled calendar check of workspace `wid` is at
/// `now` (zero when none is due).
pub open spec fn calendar_lag(cals: Seq<CalendarFeed>, wid: Seq<char>, now: i64) -> int
    decreases cals.len(),
{
    if cals.len() == 0 {
        0
    } else {
        let rest = calendar_lag(cals.drop_last(), wid, now);
        let c = cals.last();
        if (due_poll_in(wid, now))(c) {
            let lag = now - c.next_poll_at->0;
            if lag > rest { lag } else { rest }
        } else {
            rest
        }
    }
}

/// Classes of workspace `wid` whose latest reconciliation needs attention.
pub open spec fn needs_attention(runs: Seq<ReconciliationRun>, wid: Seq<char>) -> spec_fn(ClassRow) -> bool {
    |c: ClassRow| c.workspace_id@ == wid && (latest_run(runs, c.id@) matches Some(r) && r.status == RunStatus::Attention)
}

pub open spec fn offer_in(classes: Seq<ClassRow>, wid: Seq<char>) -> spec_fn(SeatOffer) -> bool {
    |o: SeatOffer| class_of_workspace(classes, wid, o.class_id@)
}

pub open spec fn accepted_offer_in(classes: Seq<ClassRow>, wid: Seq<char>) -> spec_fn(SeatOffer) -> bool {
    |o: SeatOffer| class_of_workspace(classes, wid, o.class_id@) && o.status == OfferStatus::Accepted
}

pub open spec fn run_of(class_id: Seq<char>) -> spec_fn(ReconciliationRun) -> bool {
    |r: ReconciliationRun| r.class_id@ == class_id
}

pub open spec fn not_older() -> spec_fn(ReconciliationRun, ReconciliationRun) -> bool {
    |a: ReconciliationRun, b: ReconciliationRun| a.created_at >= b.created_at
}

/// The run that class `class_id` shows: the latest created (a later-stored
/// run wins a tie).
pub open spec fn latest_run(runs: Seq<ReconciliationRun>, class_id: Seq<char>) -> Option<ReconciliationRun> {
    match pick(runs, run_of(class_id), not_older()) {
        Some(i) => Some(runs[i]),
        None => None,
    }
}

pub open spec fn run_status_text(s: RunStatus) -> Seq<char> {
    match s {
        RunStatus::Matched => "matched"@,
        RunStatus::Attention => "attention"@,
    }
}

/// `c` shows class row `row` at `now`, with reconciliation `run` if any.
pub open spec fn shows_class(c: RealClass, row: ClassRow, run: Option<ReconciliationRun>, now: i64) -> bool {
    &&& c.id@ == row.id@
    &&& c.public_id@ == row.public_id@
    &&& c.name@ == row.name@
    &&& c.starts_at == row.starts_at
    &&& c.booking_cutoff == row.booking_cutoff
    &&& c.timezone@ == row.timezone@
    &&& c.capacity == row.capacity
    &&& c.confirmed == row.confirmed
    &&& c.open_seats == row.capacity - row.confirmed
    &&& c.availability == availability_spec(row.capacity, row.confirmed, row.booking_cutoff, now)
    &&& c.published == row.published
    &&& match run {
        Some(r) => c.calendar_confirmed == Some(r.calendar_confirmed)
            && (c.reconciliation_status matches Some(s) && s@ == run_status_text(r.status)),
        None => c.calendar_confirmed is None && c.reconciliation_status is None,
    }
}

/// `c` shows class `row` at `now` with its latest reconciliation.
pub open spec fn shows_class_now(c: RealClass, row: ClassRow, runs: Seq<ReconciliationRun>, now: i64) -> bool {
    shows_class(c, row, latest_run(runs, row.id@), now)
}

pub open spec fn in_workspace(ws: Seq<char>) -> spec_fn(ClassRow) -> bool {
    |c: ClassRow| c.workspace_id@ == ws
}

pub open spec fn class_in(ws: Seq<char>, id: Seq<char>) -> spec_fn(ClassRow) -> bool {
    |c: ClassRow| c.workspace_id@ == ws && c.id@ == id
}

/// `v` shows the classes of workspace `wid` at `now`, earliest start first.
pub open spec fn lists_classes(v: Seq<RealClass>, l: SchoolLedger, wid: Seq<char>, now: i64) -> bool {
    let rows = l.classes@.filter(in_workspace(wid));
    exists|perm: Seq<int>| {
        &&& is_permutation(perm, rows.len() as int)
        &&& ordered_by(rows.map_values(|c: ClassRow| c.starts_at), perm, false)
        &&& v.len() == perm.len()
        &&& forall|k: int| 0 <= k < v.len() ==> shows_class_now(#[trigger] v[k], rows[perm[k]], l.runs@, now)
    }
}

pub open spec fn published_class(public_id: Seq<char>) -> spec_fn(ClassRow) -> bool {
    |c: ClassRow| c.public_id@ == public_id && c.published
}

fn run_status_string(s: RunStatus) -> (t: String)
    ensures
        t@ == run_status_text(s),
{
    match s {
        RunStatus::Matched => "matched".to_owned(),
        RunStatus::Attention => "attention".to_owned(),
    }
}

/// The view of class `row` at `now` with reconciliation `run`.
fn class_view(row: &ClassRow, run: Option<&ReconciliationRun>, now: i64) -> (c: RealClass)
    requires
        class_seats_ok(*row),
    ensures
        shows_class(c, *row, match run { Some(r) => Some(*r), None => None }, now),
{
    let (calendar_confirmed, reconciliation_status) = match run {
        Some(r) => (Some(r.calendar_confirmed), Some(run_status_string(r.status))),
        None => (None, None),
    };
    RealClass {
        id: row.id.clone(),
        public_id: row.public_id.clone(),
        name: row.name.clone(),
        starts_at: row.starts_at,
        booking_cutoff: row.booking_cutoff,
        timezone: row.timezone.clone(),
        capacity: row.capacity,
        confirmed: row.confirmed,
        open_seats: row.capacity - row.confirmed,
        availability: availability_at(row.capacity, row.confirmed, row.booking_cutoff, now),
        published: row.published,
        calendar_confirmed,
        reconciliation_status,
    }
}

fn workspace_view(row: &WorkspaceRow) -> (w: Workspace)
    ensures
        shows_workspace(w, *row),
{
    Workspace {
        id: row.id.clone(),
        school_name: row.school_name.clone(),
        subscription_status: row.subscription_status.clone(),
        trial_ends_at: row.trial_ends_at,
    }
}

impl SchoolLedger {
    pub open spec fn wf(&self) -> bool {
        &&& forall|i: int| 0 <= i < self.classes@.len() ==> class_seats_ok(#[trigger] self.classes@[i])
        &&& distinct_by(self.classes@, class_key())
        &&& distinct_by(self.bookings@, booking_key())
        &&& distinct_by(self.waitlist@, entry_key())
        &&& distinct_by(self.offers@, offer_key())
        &&& forall|i: int| 0 <= i < self.calendars@.len() ==>
            ((#[trigger] self.calendars@[i]).next_poll_at matches Some(t) ==> t >= i64::MIN + 7776000)
        &&& forall|i: int| 0 <= i < self.outbox@.len() ==>
            0 <= #[trigger] self.outbox@[i].attempts
    }

    pub fn new() -> (l: SchoolLedger)
        ensures
            l.wf(),
            l.workspaces@.len() == 0,
            l.members@.len() == 0,
            l.classes@.len() == 0,
            l.bookings@.len() == 0,
            l.waitlist@.len() == 0,
            l.offers@.len() == 0,
            l.runs@.len() == 0,
            l.calendars@.len() == 0,
            l.outbox@.len() == 0,
            l.billing@.len() == 0,
    {
        SchoolLedger {
            workspaces: Vec::new(),
            members: Vec::new(),
            classes: Vec::new(),
            bookings: Vec::new(),
            waitlist: Vec::new(),
            offers: Vec::new(),
            runs: Vec::new(),
            calendars: Vec::new(),
            outbox: Vec::new(),
            billing: Vec::new(),
        }
    }

    /// Position of the workspace that `key` opens.
    pub(crate) fn find_workspace(&self, key: &str) -> (r: Option<usize>)
        ensures
            match r {
                Some(i) => i < self.workspaces@.len() && first_match(self.workspaces@, opened_by(key@)) == Some(i as int),
                None => first_match(self.workspaces@, opened_by(key@)) is None,
            },
    {
        let hash = digest(key);
        let k = key.to_owned();
        let mut i: usize = 0;
        while i < self.workspaces.len()
            invariant
                hash@ == digest_spec(key@),
                k@ == key@,
                i <= self.workspaces@.len(),
                forall|j: int| 0 <= j < i ==> !(opened_by(key@))(#[trigger] self.workspaces@[j]),
            decreases self.workspaces@.len() - i,
        {
            if self.workspaces[i].access_key_hash == hash || self.workspaces[i].id == k {
                proof {
                    lemma_first_match_at(self.workspaces@, opened_by(key@), i as int);
                }
                return Some(i);
            }
            i = i + 1;
        }
        proof {
            lemma_first_match_none(self.workspaces@, opened_by(key@));
        }
        None
    }

    /// Creates a workspace for `school_name` on a fourteen-day trial, with
    /// `owner_oid` as its owner, and returns it with its new access key (only
    /// the key's digest is stored).
    pub fn create_workspace(&mut self, school_name: &str, owner_oid: &str, now: i64) -> (r: Result<(Workspace, String), RealError>)
        requires
            old(self).wf(),
            crate::demo::valid_now(now),
        ensures
            final(self).wf(),
            r matches Ok((w, key)) && {
                let row = final(self).workspaces@.last();
                let m = final(self).members@.last();
                &&& shows_workspace(w, row)
                &&& row.school_name@ == school_name@
                &&& row.access_key_hash@ == digest_spec(key@)
                &&& row.created_at == now
                &&& row.subscription_status@ == "trial"@
                &&& row.trial_ends_at == Some((now + TRIAL_SECONDS) as i64)
                &&& m.workspace_id@ == row.id@ && m.oid@ == owner_oid@ && m.role@ == "owner"@ && m.created_at == now
                &&& key@.subrange(0, 10) == "cct_owner_"@
                &&& key@.len() == 42
            },
            final(self).workspaces@.len() == old(self).workspaces@.len() + 1,
            final(self).workspaces@.subrange(0, old(self).workspaces@.len() as int) == old(self).workspaces@,
            final(self).members@.len() == old(self).members@.len() + 1,
            final(self).members@.subrange(0, old(self).members@.len() as int) == old(self).members@,
            final(self).classes == old(self).classes,
            final(self).bookings == old(self).bookings,
            final(self).waitlist == old(self).waitlist,
            final(self).offers == old(self).offers,
            final(self).runs == old(self).runs,
            final(self).calendars == old(self).calendars,
            final(self).outbox == old(self).outbox,
            final(self).billing == old(self).billing,
    {
        proof {
            reveal_strlit("cct_owner_");
            reveal_strlit("trial");
            reveal_strlit("owner");
        }
        let id = fresh_id();
        let access_key = opaque_id("cct_owner_");
        let row = WorkspaceRow {
            id: id.clone(),
            school_name: school_name.to_owned(),
            access_key_hash: digest(access_key.as_str()),
            created_at: now,
            subscription_status: "trial".to_owned(),
            trial_ends_at: Some(now + TRIAL_SECONDS),
        };
        let w = workspace_view(&row);
        let ghost ws = self.workspaces@;
        let ghost ms = self.members@;
        self.workspaces.push(row);
        self.members.push(MemberRow { workspace_id: id, oid: owner_oid.to_owned(), role: "owner".to_owned(), created_at: now });
        proof {
            assert(self.workspaces@.subrange(0, ws.len() as int) =~= ws);
            assert(self.members@.subrange(0, ms.len() as int) =~= ms);
        }
        Ok((w, access_key))
    }

    /// The workspace that `access_key` opens.
    pub fn workspace_from_key(&self, access_key: &str) -> (r: Result<Workspace, RealError>)
        ensures
            found_workspace(self.workspaces@, access_key@, r),
    {
        match self.find_workspace(access_key) {
            Some(i) => Ok(workspace_view(&self.workspaces[i])),
            None => Err(RealError::Forbidden),
        }
    }

    /// The earliest-created workspace in which `oid` is a member.
    pub fn workspace_for_oid(&self, oid: &str) -> (r: Result<Workspace, RealError>)
        ensures
            match pick(self.workspaces@, has_member(self.members@, oid@), created_earlier()) {
                Some(i) => r matches Ok(w) && shows_workspace(w, self.workspaces@[i]),
                None => r == Err::<Workspace, RealError>(RealError::NotFound),
            },
    {
        let o = oid.to_owned();
        let ghost ok = has_member(self.members@, oid@);
        let mut best: Option<usize> = None;
        let mut i: usize = 0;
        while i < self.workspaces.len()
            invariant
                o@ == oid@,
                ok == has_member(self.members@, oid@),
                i <= self.workspaces@.len(),
                match best {
                    Some(b) => pick(self.workspaces@.take(i as int), ok, created_earlier()) == Some(b as int),
                    None => pick(self.workspaces@.take(i as int), ok, created_earlier()) is None,
                },
            decreases self.workspaces@.len() - i,
        {
            proof {
                lemma_pick_step(self.workspaces@, ok, created_earlier(), i as int);
                lemma_pick(self.workspaces@.take(i as int), ok, created_earlier());
            }
            let member = self.has_member_in(&o, &self.workspaces[i].id);
            if member {
                match best {
                    None => {
                        best = Some(i);
                    },
                    Some(b) => {
                        proof {
                            assert(self.workspaces@.take(i as int)[b as int] == self.workspaces@[b as int]);
                        }
                        if self.workspaces[i].created_at < self.workspaces[b].created_at {
                            best = Some(i);
                        }
                    },
                }
            }
            i = i + 1;
        }
        proof {
            assert(self.workspaces@.take(i as int) =~= self.workspaces@);
            lemma_pick(self.workspaces@, ok, created_earlier());
        }
        match best {
            Some(b) => Ok(workspace_view(&self.workspaces[b])),
            None => Err(RealError::NotFound),
        }
    }

    /// Whether `oid` is a member of workspace `workspace_id`.
    fn has_member_in(&self, oid: &String, workspace_id: &String) -> (b: bool)
        ensures
            b == exists|j: int| 0 <= j < self.members@.len() && #[trigger] self.members@[j].oid@ == oid@
                && self.members@[j].workspace_id@ == workspace_id@,
    {
        let mut j: usize = 0;
        while j < self.members.len()
            invariant
                j <= self.members@.len(),
                forall|k: int| 0 <= k < j ==> !(#[trigger] self.members@[k].oid@ == oid@ && self.members@[k].workspace_id@ == workspace_id@),
            decreases self.members@.len() - j,
        {
            if self.members[j].oid == *oid && self.members[j].workspace_id == *workspace_id {
                return true;
            }
            j = j + 1;
        }
        false
    }

    /// Allows the request when `oid`'s role in the workspace that
    /// `access_key` opens is one of `allowed_roles`.
    pub fn authorize_workspace(&self, access_key: &str, oid: &str, allowed_roles: &[&str]) -> (r: Result<(), RealError>)
        ensures
            match first_match(self.members@, member_for(self.workspaces@, access_key@, oid@)) {
                Some(m) => if exists|k: int| 0 <= k < allowed_roles@.len() && #[trigger] allowed_roles@[k]@ == self.members@[m].role@ {
                    r is Ok
                } else {
                    r == Err::<(), RealError>(RealError::Forbidden)
                },
                None => r == Err::<(), RealError>(RealError::Forbidden),
            },
    {
        let m = match self.find_member(access_key, oid) {
            Some(m) => m,
            None => return Err(RealError::Forbidden),
        };
        let mut k: usize = 0;
        while k < allowed_roles.len()
            invariant
                m < self.members@.len(),
                first_match(self.members@, member_for(self.workspaces@, access_key@, oid@)) == Some(m as int),
                k <= allowed_roles@.len(),
                forall|j: int| 0 <= j < k ==> #[trigger] allowed_roles@[j]@ != self.members@[m as int].role@,
            decreases allowed_roles@.len() - k,
        {
            if allowed_roles[k].to_owned() == self.members[m].role {
                return Ok(());
            }
            k = k + 1;
        }
        Err(RealError::Forbidden)
    }

    /// Position of the first member `oid` of a workspace that `key` opens.
    fn find_member(&self, key: &str, oid: &str) -> (r: Option<usize>)
        ensures
            match r {
                Some(i) => i < self.members@.len() && first_match(self.members@, member_for(self.workspaces@, key@, oid@)) == Some(i as int),
                None => first_match(self.members@, member_for(self.workspaces@, key@, oid@)) is None,
            },
    {
        let o = oid.to_owned();
        let ghost p = member_for(self.workspaces@, key@, oid@);
        let mut i: usize = 0;
        while i < self.members.len()
            invariant
                o@ == oid@,
                p == member_for(self.workspaces@, key@, oid@),
                i <= self.members@.len(),
                forall|j: int| 0 <= j < i ==> !p(#[trigger] self.members@[j]),
            decreases self.members@.len() - i,
        {
            if self.members[i].oid == o && self.key_opens_id(key, &self.members[i].workspace_id) {
                proof {
                    lemma_first_match_at(self.members@, p, i as int);
                }
                return Some(i);
            }
            i = i + 1;
        }
        proof {
            lemma_first_match_none(self.members@, p);
        }
        None
    }

    /// Whether some workspace with id `id` is opened by `key`.
    fn key_opens_id(&self, key: &str, id: &String) -> (b: bool)
        ensures
            b == exists|i: int| 0 <= i < self.workspaces@.len() && #[trigger] self.workspaces@[i].id@ == id@
                && (opened_by(key@))(self.workspaces@[i]),
    {
        let hash = digest(key);
        let k = key.to_owned();
        let mut i: usize = 0;
        while i < self.workspaces.len()
            invariant
                hash@ == digest_spec(key@),
                k@ == key@,
                i <= self.workspaces@.len(),
                forall|j: int| 0 <= j < i ==> !(#[trigger] self.workspaces@[j].id@ == id@ && (opened_by(key@))(self.workspaces@[j])),
            decreases self.workspaces@.len() - i,
        {
            let w = &self.workspaces[i];
            if w.id == *id && (w.access_key_hash == hash || w.id == k) {
                return true;
            }
            i = i + 1;
        }
        false
    }

    /// Allows the request when the workspace that `access_key` opens has an
    /// active or grace subscription, or a trial that ends after `now`.
    pub fn ensure_entitled(&self, access_key: &str, now: i64) -> (r: Result<(), RealError>)
        ensures
            match first_match(self.workspaces@, opened_by(access_key@)) {
                Some(i) => if entitled(self.workspaces@[i], now) {
                    r is Ok
                } else {
                    r == Err::<(), RealError>(RealError::SubscriptionRequired)
                },
                None => r == Err::<(), RealError>(RealError::Forbidden),
            },
    {
        proof {
            reveal_strlit("active");
            reveal_strlit("grace");
            reveal_strlit("trial");
        }
        let i = match self.find_workspace(access_key) {
            Some(i) => i,
            None => return Err(RealError::Forbidden),
        };
        let w = &self.workspaces[i];
        let trial_open = match w.trial_ends_at {
            Some(end) => end > now,
            None => false,
        };
        if w.subscription_status == "active".to_owned() || w.subscription_status == "grace".to_owned()
            || (w.subscription_status == "trial".to_owned() && trial_open) {
            Ok(())
        } else {
            Err(RealError::SubscriptionRequired)
        }
    }

    /// The reconciliation run that class `class_id` shows.
    fn find_latest_run(&self, class_id: &String) -> (r: Option<usize>)
        ensures
            match r {
                Some(i) => i < self.runs@.len() && pick(self.runs@, run_of(class_id@), not_older()) == Some(i as int),
                None => pick(self.runs@, run_of(class_id@), not_older()) is None,
            },
    {
        let ghost ok = run_of(class_id@);
        let mut best: Option<usize> = None;
        let mut i: usize = 0;
        while i < self.runs.len()
            invariant
                ok == run_of(class_id@),
                i <= self.runs@.len(),
                match best {
                    Some(b) => b < i && pick(self.runs@.take(i as int), ok, not_older()) == Some(b as int),
                    None => pick(self.runs@.take(i as int), ok, not_older()) is None,
                },
            decreases self.runs@.len() - i,
        {
            proof {
                lemma_pick_step(self.runs@, ok, not_older(), i as int);
            }
            if self.runs[i].class_id == *class_id {
                match best {
                    None => {
                        best = Some(i);
                    },
                    Some(b) => {
                        proof {
                            assert(self.runs@.take(i as int)[b as int] == self.runs@[b as int]);
                        }
                        if self.runs[i].created_at >= self.runs[b].created_at {
                            best = Some(i);
                        }
                    },
                }
            }
            i = i + 1;
        }
        proof {
            assert(self.runs@.take(i as int) =~= self.runs@);
        }
        best
    }

    /// The view of the class at position `i` with its latest reconciliation.
    fn class_now(&self, i: usize, now: i64) -> (c: RealClass)
        requires
            self.wf(),
            i < self.classes@.len(),
        ensures
            shows_class_now(c, self.classes@[i as int], self.runs@, now),
    {
        let run = self.find_latest_run(&self.classes[i].id);
        match run {
            Some(k) => class_view(&self.classes[i], Some(&self.runs[k]), now),
            None => class_view(&self.classes[i], None, now),
        }
    }

    /// Position of the first class satisfying `class_in(ws, id)`.
    pub(crate) fn find_class_in(&self, ws: &String, id: &String) -> (r: Option<usize>)
        ensures
            match r {
                Some(i) => i < self.classes@.len() && first_match(self.classes@, class_in(ws@, id@)) == Some(i as int),
                None => first_match(self.classes@, class_in(ws@, id@)) is None,
            },
    {
        let mut i: usize = 0;
        while i < self.classes.len()
            invariant
                i <= self.classes@.len(),
                forall|j: int| 0 <= j < i ==> !(class_in(ws@, id@))(#[trigger] self.classes@[j]),
            decreases self.classes@.len() - i,
        {
            if self.classes[i].workspace_id == *ws && self.classes[i].id == *id {
                proof {
                    lemma_first_match_at(self.classes@, class_in(ws@, id@), i as int);
                }
                return Some(i);
            }
            i = i + 1;
        }
        proof {
            lemma_first_match_none(self.classes@, class_in(ws@, id@));
        }
        None
    }

    /// Whether some class has id `id`.
    fn class_id_taken(&self, id: &String) -> (b: bool)
        ensures
            b == exists|j: int| 0 <= j < self.classes@.len() && #[trigger] self.classes@[j].id@ == id@,
    {
        let mut i: usize = 0;
        while i < self.classes.len()
            invariant
                i <= self.classes@.len(),
                forall|j: int| 0 <= j < i ==> #[trigger] self.classes@[j].id@ != id@,
            decreases self.classes@.len() - i,
        {
            if self.classes[i].id == *id {
                return true;
            }
            i = i + 1;
        }
        false
    }

    /// Creates an unpublished class from `input` in the workspace that
    /// `access_key` opens, with fresh random ids.
    pub fn create_real_class(&mut self, access_key: &str, input: NewRealClass<'_>, now: i64) -> (r: Result<RealClass, RealError>)
        requires
            old(self).wf(),
        ensures
            final(self).wf(),
            exists|id: Seq<char>, public_id: Seq<char>| is_hyphenated_uuid_text(id)
                && public_id.len() == 38 && public_id.subrange(0, 6) == "class_"@ && is_simple_uuid_text(public_id.subrange(6, 38))
                && created_class(*old(self), *final(self), access_key@, input.name@, input.starts_at, input.cutoff,
                    input.timezone@, input.capacity, now, id, public_id, r),
    {
        proof {
            reveal_strlit("class_");
        }
        let id = fresh_id();
        let public_id = opaque_id("class_");
        self.create_real_class_with_ids(access_key, input, now, id, public_id)
    }

    /// Creates a class as `create_real_class` does, with id `id` and public id
    /// `public_id`; refused with `Database` only when `id` is already used.
    pub fn create_real_class_with_ids(&mut self, access_key: &str, input: NewRealClass<'_>, now: i64, id: String, public_id: String) -> (r: Result<RealClass, RealError>)
        requires
            old(self).wf(),
        ensures
            final(self).wf(),
            created_class(*old(self), *final(self), access_key@, input.name@, input.starts_at, input.cutoff,
                input.timezone@, input.capacity, now, id@, public_id@, r),
    {
        let w = match self.find_workspace(access_key) {
            Some(w) => w,
            None => return Err(RealError::Forbidden),
        };
        if self.class_id_taken(&id) {
            return Err(RealError::Database);
        }
        let row = ClassRow {
            id,
            workspace_id: self.workspaces[w].id.clone(),
            public_id,
            name: input.name.to_owned(),
            starts_at: input.starts_at,
            booking_cutoff: input.cutoff,
            timezone: input.timezone.to_owned(),
            capacity: input.capacity,
            confirmed: 0,
            published: false,
            created_at: now,
        };
        let ghost before = self.classes@;
        self.classes.push(row);
        proof {
            assert(self.classes@.subrange(0, before.len() as int) =~= before);
            assert forall|a: int, b: int| 0 <= a < b < self.classes@.len() implies
                #[trigger] self.classes@[a].id@ != #[trigger] self.classes@[b].id@ by {
                if b < before.len() {
                    assert(self.classes@[a] == before[a] && self.classes@[b] == before[b]);
                } else {
                    assert(self.classes@[a] == before[a]);
                }
            }
            assert forall|a: int| 0 <= a < self.classes@.len() implies class_seats_ok(#[trigger] self.classes@[a]) by {
                if a < before.len() {
                    assert(self.classes@[a] == before[a]);
                }
            }
        }
        let n = self.classes.len() - 1;
        Ok(self.class_now(n, now))
    }

    /// Publishes class `id` of the workspace that `access_key` opens.
    pub fn publish_real_class(&mut self, access_key: &str, id: &str, now: i64) -> (r: Result<RealClass, RealError>)
        requires
            old(self).wf(),
        ensures
            final(self).wf(),
            match first_match(old(self).workspaces@, opened_by(access_key@)) {
                None => *final(self) == *old(self) && r == Err::<RealClass, RealError>(RealError::Forbidden),
                Some(w) => match first_match(old(self).classes@, class_in(old(self).workspaces@[w].id@, id@)) {
                    None => *final(self) == *old(self) && r == Err::<RealClass, RealError>(RealError::NotFound),
                    Some(i) => {
                        &&& final(self).classes@ == old(self).classes@.update(i, ClassRow { published: true, ..old(self).classes@[i] })
                        &&& final(self).workspaces == old(self).workspaces
                        &&& final(self).members == old(self).members
                        &&& final(self).bookings == old(self).bookings
                        &&& final(self).waitlist == old(self).waitlist
                        &&& final(self).offers == old(self).offers
                        &&& final(self).runs == old(self).runs
                        &&& final(self).calendars == old(self).calendars
                        &&& final(self).outbox == old(self).outbox
                        &&& final(self).billing == old(self).billing
                        &&& r matches Ok(c) && shows_class_now(c, final(self).classes@[i], final(self).runs@, now)
                    },
                },
            },
    {
        let w = match self.find_workspace(access_key) {
            Some(w) => w,
            None => return Err(RealError::Forbidden),
        };
        let ws = self.workspaces[w].id.clone();
        let cid = id.to_owned();
        let i = match self.find_class_in(&ws, &cid) {
            Some(i) => i,
            None => return Err(RealError::NotFound),
        };
        let ghost before = self.classes@;
        self.classes[i].published = true;
        proof {
            assert forall|a: int, b: int| 0 <= a < b < self.classes@.len() implies
                #[trigger] self.classes@[a].id@ != #[trigger] self.classes@[b].id@ by {
                assert(before[a].id@ != before[b].id@);
            }
            assert forall|a: int| 0 <= a < self.classes@.len() implies class_seats_ok(#[trigger] self.classes@[a]) by {
                assert(class_seats_ok(before[a]));
            }
        }
        Ok(self.class_now(i, now))
    }

    /// The published class `public_id`, if any, as seen at `now`.
    pub fn get_public_real_class(&self, public_id: &str, now: i64) -> (r: Option<RealClass>)
        requires
            self.wf(),
        ensures
            match first_match(self.classes@, published_class(public_id@)) {
                Some(i) => r matches Some(c) && shows_class_now(c, self.classes@[i], self.runs@, now),
                None => r is None,
            },
    {
        match self.find_published(public_id) {
            Some(i) => Some(self.class_now(i, now)),
            None => None,
        }
    }

    /// Position of the published class `public_id`.
    fn find_published(&self, public_id: &str) -> (r: Option<usize>)
        ensures
            match r {
                Some(i) => i < self.classes@.len() && first_match(self.classes@, published_class(public_id@)) == Some(i as int),
                None => first_match(self.classes@, published_class(public_id@)) is None,
            },
    {
        let p = public_id.to_owned();
        let mut i: usize = 0;
        while i < self.classes.len()
            invariant
                p@ == public_id@,
                i <= self.classes@.len(),
                forall|j: int| 0 <= j < i ==> !(published_class(public_id@))(#[trigger] self.classes@[j]),
            decreases self.classes@.len() - i,
        {
            if self.classes[i].public_id == p && self.classes[i].published {
                proof {
                    lemma_first_match_at(self.classes@, published_class(public_id@), i as int);
                }
                return Some(i);
            }
            i = i + 1;
        }
        proof {
            lemma_first_match_none(self.classes@, published_class(public_id@));
        }
        None
    }

    /// The classes of the workspace that `access_key` opens, ordered by start
    /// time (the order of classes starting at the same instant is not fixed).
    pub fn list_real_classes(&self, access_key: &str, now: i64) -> (r: Result<Vec<RealClass>, RealError>)
        requires
            self.wf(),
        ensures
            match first_match(self.workspaces@, opened_by(access_key@)) {
                None => r == Err::<Vec<RealClass>, RealError>(RealError::Forbidden),
                Some(w) => r matches Ok(v) && lists_classes(v@, *self, self.workspaces@[w].id@, now),
            },
    {
        let w = match self.find_workspace(access_key) {
            Some(w) => w,
            None => return Err(RealError::Forbidden),
        };
        let ws = self.workspaces[w].id.clone();
        let ghost p = in_workspace(ws@);
        let mut positions: Vec<usize> = Vec::new();
        let mut keys: Vec<i64> = Vec::new();
        let mut i: usize = 0;
        proof {
            reveal_with_fuel(Seq::<_>::filter, 1);
            assert(self.classes@.take(0) =~= Seq::<ClassRow>::empty());
        }
        while i < self.classes.len()
            invariant
                p == in_workspace(ws@),
                i <= self.classes@.len(),
                positions@.len() == keys@.len(),
                positions@.len() == self.classes@.take(i as int).filter(p).len(),
                forall|k: int| 0 <= k < positions@.len() ==> #[trigger] positions@[k] < i
                    && self.classes@[positions@[k] as int] == self.classes@.take(i as int).filter(p)[k]
                    && keys@[k] == self.classes@[positions@[k] as int].starts_at,
            decreases self.classes@.len() - i,
        {
            proof {
                reveal_with_fuel(Seq::<_>::filter, 1);
                assert(self.classes@.take(i + 1).drop_last() =~= self.classes@.take(i as int));
                assert(self.classes@.take(i + 1).last() == self.classes@[i as int]);
            }
            if self.classes[i].workspace_id == ws {
                positions.push(i);
                keys.push(self.classes[i].starts_at);
            }
            i = i + 1;
        }
        proof {
            assert(self.classes@.take(i as int) =~= self.classes@);
            assert forall|a: int| 0 <= a < keys@.len() implies keys@[a] == #[trigger] self.classes@.filter(p)[a].starts_at by {
                assert(self.classes@[positions@[a] as int] == self.classes@.take(i as int).filter(p)[a]);
            }
            assert(keys@ =~= self.classes@.filter(p).map_values(|c: ClassRow| c.starts_at));
        }
        let order = sort_by_key(&keys, false);
        let ghost rows = self.classes@.filter(p);
        let ghost perm = order@.map_values(|x: usize| x as int);
        let mut v: Vec<RealClass> = Vec::new();
        let mut k: usize = 0;
        while k < order.len()
            invariant
                self.wf(),
                rows == self.classes@.filter(p),
                perm == order@.map_values(|x: usize| x as int),
                is_permutation(perm, keys@.len() as int),
                ordered_by(keys@, perm, false),
                keys@ == rows.map_values(|c: ClassRow| c.starts_at),
                positions@.len() == keys@.len(),
                positions@.len() == rows.len(),
                forall|a: int| 0 <= a < positions@.len() ==> #[trigger] positions@[a] < self.classes@.len()
                    && self.classes@[positions@[a] as int] == rows[a],
                k <= order@.len(),
                v@.len() == k,
                forall|a: int| 0 <= a < k ==> shows_class_now(#[trigger] v@[a], rows[perm[a]], self.runs@, now),
            decreases order@.len() - k,
        {
            proof {
                assert(perm[k as int] == order@[k as int] as int);
            }
            let pos = positions[order[k]];
            let c = self.class_now(pos, now);
            v.push(c);
            k = k + 1;
        }
        Ok(v)
    }

    /// Position of the first class with public id `public_id`.
    fn find_public_id(&self, public_id: &String) -> (r: Option<usize>)
        ensures
            match r {
                Some(i) => i < self.classes@.len() && first_match(self.classes@, with_public_id(public_id@)) == Some(i as int),
                None => first_match(self.classes@, with_public_id(public_id@)) is None,
            },
    {
        let mut i: usize = 0;
        while i < self.classes.len()
            invariant
                i <= self.classes@.len(),
                forall|j: int| 0 <= j < i ==> !(with_public_id(public_id@))(#[trigger] self.classes@[j]),
            decreases self.classes@.len() - i,
        {
            if self.classes[i].public_id == *public_id {
                proof {
                    lemma_first_match_at(self.classes@, with_public_id(public_id@), i as int);
                }
                return Some(i);
            }
            i = i + 1;
        }
        proof {
            lemma_first_match_none(self.classes@, with_public_id(public_id@));
        }
        None
    }

    /// Whether class `class_id` has a booking under `key`.
    fn booked_under(&self, class_id: &String, key: &String) -> (b: bool)
        ensures
            b == exists|j: int| 0 <= j < self.bookings@.len() && #[trigger] self.bookings@[j].class_id@ == class_id@
                && self.bookings@[j].idempotency_key@ == key@,
    {
        let mut i: usize = 0;
        while i < self.bookings.len()
            invariant
                i <= self.bookings@.len(),
                forall|j: int| 0 <= j < i ==> !(#[trigger] self.bookings@[j].class_id@ == class_id@ && self.bookings@[j].idempotency_key@ == key@),
            decreases self.bookings@.len() - i,
        {
            if self.bookings[i].class_id == *class_id && self.bookings[i].idempotency_key == *key {
                return true;
            }
            i = i + 1;
        }
        false
    }

    /// Whether some booking has id `id`.
    fn booking_id_taken(&self, id: &String) -> (b: bool)
        ensures
            b == exists|j: int| 0 <= j < self.bookings@.len() && #[trigger] self.bookings@[j].id@ == id@,
    {
        let mut i: usize = 0;
        while i < self.bookings.len()
            invariant
                i <= self.bookings@.len(),
                forall|j: int| 0 <= j < i ==> #[trigger] self.bookings@[j].id@ != id@,
            decreases self.bookings@.len() - i,
        {
            if self.bookings[i].id == *id {
                return true;
            }
            i = i + 1;
        }
        false
    }

    /// Books one seat of published class `public_id` for a guardian, storing
    /// the contact encrypted. A repeated idempotency key books nothing more.
    /// A full class is refused before a passed cutoff, and a booking never
    /// takes a seat beyond capacity.
    pub fn book_real_seat(
        &mut self,
        cipher: &ContactCipher,
        public_id: &str,
        idempotency_key: &str,
        name: &str,
        email: &str,
        now: i64,
    ) -> (r: Result<RealClass, RealError>)
        requires
            old(self).wf(),
            crate::demo::valid_now(now),
        ensures
            final(self).wf(),
            exists|id: Seq<char>| is_hyphenated_uuid_text(id)
                && booked_seat(*old(self), *final(self), cipher.key(), public_id@, idempotency_key@, name@, email@, now, id, r),
    {
        let id = fresh_id();
        self.book_real_seat_with_id(cipher, public_id, idempotency_key, name, email, now, id)
    }

    /// Books a seat as `book_real_seat` does, the new booking getting id
    /// `id`; refused with `Database` only when `id` is already used.
    pub fn book_real_seat_with_id(
        &mut self,
        cipher: &ContactCipher,
        public_id: &str,
        idempotency_key: &str,
        name: &str,
        email: &str,
        now: i64,
        id: String,
    ) -> (r: Result<RealClass, RealError>)
        requires
            old(self).wf(),
            crate::demo::valid_now(now),
        ensures
            final(self).wf(),
            booked_seat(*old(self), *final(self), cipher.key(), public_id@, idempotency_key@, name@, email@, now, id@, r),
    {
        let encrypted_name = match cipher.encrypt(name) {
            Ok(v) => v,
            Err(_) => return Err(RealError::Database),
        };
        let encrypted_email = match cipher.encrypt(email) {
            Ok(v) => v,
            Err(_) => return Err(RealError::Database),
        };
        let p = public_id.to_owned();
        let i = match self.find_public_id(&p) {
            Some(i) => i,
            None => return Err(RealError::NotFound),
        };
        if !self.classes[i].published {
            return Err(RealError::NotFound);
        }
        let key = idempotency_key.to_owned();
        if self.booked_under(&self.classes[i].id, &key) {
            return Ok(class_view(&self.classes[i], None, now));
        }
        if self.classes[i].confirmed >= self.classes[i].capacity {
            return Err(RealError::Full);
        }
        if self.classes[i].booking_cutoff <= now {
            return Err(RealError::Cutoff);
        }
        if self.booking_id_taken(&id) {
            return Err(RealError::Database);
        }
        let ghost old_self = *self;
        let class_id = self.classes[i].id.clone();
        let confirmed = self.classes[i].confirmed + 1;
        self.classes[i].confirmed = confirmed;
        let row = SeatBooking {
            id,
            class_id,
            idempotency_key: key,
            guardian_name: encrypted_name,
            guardian_email: encrypted_email,
            status: BookingStatus::Confirmed,
            created_at: now,
            contact_expires_at: Some(now + CONTACT_RETENTION_SECONDS),
        };
        proof {
            lemma_distinct_push(old_self.bookings@, booking_key(), row);
            lemma_distinct_update(old_self.classes@, class_key(), i as int, self.classes@[i as int]);
            assert(self.classes@ == old_self.classes@.update(i as int, self.classes@[i as int]));
        }
        self.bookings.push(row);
        proof {
            assert(self.bookings@.subrange(0, old_self.bookings@.len() as int) =~= old_self.bookings@);
            assert forall|a: int| 0 <= a < self.classes@.len() implies class_seats_ok(#[trigger] self.classes@[a]) by {
                assert(class_seats_ok(old_self.classes@[a]));
            }
        }
        Ok(class_view(&self.classes[i], None, now))
    }

    /// Position of the first waitlist entry of class `class_id` under `key`.
    fn find_entry_under(&self, class_id: &String, key: &String) -> (r: Option<usize>)
        ensures
            match r {
                Some(i) => i < self.waitlist@.len() && first_match(self.waitlist@, entry_under(class_id@, key@)) == Some(i as int),
                None => first_match(self.waitlist@, entry_under(class_id@, key@)) is None,
            },
    {
        let mut i: usize = 0;
        while i < self.waitlist.len()
            invariant
                i <= self.waitlist@.len(),
                forall|j: int| 0 <= j < i ==> !(entry_under(class_id@, key@))(#[trigger] self.waitlist@[j]),
            decreases self.waitlist@.len() - i,
        {
            if self.waitlist[i].class_id == *class_id && self.waitlist[i].idempotency_key == *key {
                proof {
                    lemma_first_match_at(self.waitlist@, entry_under(class_id@, key@), i as int);
                }
                return Some(i);
            }
            i = i + 1;
        }
        proof {
            lemma_first_match_none(self.waitlist@, entry_under(class_id@, key@));
        }
        None
    }

    /// Whether some waitlist entry has id `id`.
    fn entry_id_taken(&self, id: &String) -> (b: bool)
        ensures
            b == exists|j: int| 0 <= j < self.waitlist@.len() && #[trigger] self.waitlist@[j].id@ == id@,
    {
        let mut i: usize = 0;
        while i < self.waitlist.len()
            invariant
                i <= self.waitlist@.len(),
                forall|j: int| 0 <= j < i ==> #[trigger] self.waitlist@[j].id@ != id@,
            decreases self.waitlist@.len() - i,
        {
            if self.waitlist[i].id == *id {
                return true;
            }
            i = i + 1;
        }
        false
    }

    /// Puts a consenting guardian on the waitlist of published class
    /// `public_id` and returns the entry's id; a repeated idempotency key
    /// returns the earlier entry's id and adds nothing.
    pub fn join_waitlist(
        &mut self,
        cipher: &ContactCipher,
        public_id: &str,
        idempotency_key: &str,
        name: &str,
        email: &str,
        now: i64,
    ) -> (r: Result<String, RealError>)
        requires
            old(self).wf(),
            crate::demo::valid_now(now),
        ensures
            final(self).wf(),
            exists|id: Seq<char>| is_hyphenated_uuid_text(id)
                && joined_waitlist(*old(self), *final(self), cipher.key(), public_id@, idempotency_key@, name@, email@, now, id, r),
    {
        let id = fresh_id();
        self.join_waitlist_with_id(cipher, public_id, idempotency_key, name, email, now, id)
    }

    /// Joins the waitlist as `join_waitlist` does, a new entry getting id
    /// `id`; refused with `Database` only when `id` is already used.
    pub fn join_waitlist_with_id(
        &mut self,
        cipher: &ContactCipher,
        public_id: &str,
        idempotency_key: &str,
        name: &str,
        email: &str,
        now: i64,
        id: String,
    ) -> (r: Result<String, RealError>)
        requires
            old(self).wf(),
            crate::demo::valid_now(now),
        ensures
            final(self).wf(),
            joined_waitlist(*old(self), *final(self), cipher.key(), public_id@, idempotency_key@, name@, email@, now, id@, r),
    {
        let i = match self.find_published(public_id) {
            Some(i) => i,
            None => return Err(RealError::NotFound),
        };
        let key = idempotency_key.to_owned();
        if let Some(e) = self.find_entry_under(&self.classes[i].id, &key) {
            return Ok(self.waitlist[e].id.clone());
        }
        let encrypted_name = match cipher.encrypt(name) {
            Ok(v) => v,
            Err(_) => return Err(RealError::Database),
        };
        let encrypted_email = match cipher.encrypt(email) {
            Ok(v) => v,
            Err(_) => return Err(RealError::Database),
        };
        if self.entry_id_taken(&id) {
            return Err(RealError::Database);
        }
        let ghost old_self = *self;
        let row = WaitlistEntry {
            id: id.clone(),
            class_id: self.classes[i].id.clone(),
            guardian_name: encrypted_name,
            guardian_email: encrypted_email,
            consented_at: now,
            status: WaitlistStatus::Waiting,
            created_at: now,
            contact_expires_at: Some(now + CONTACT_RETENTION_SECONDS),
            idempotency_key: key,
        };
        proof {
            lemma_distinct_push(old_self.waitlist@, entry_key(), row);
        }
        self.waitlist.push(row);
        proof {
            assert(self.waitlist@.subrange(0, old_self.waitlist@.len() as int) =~= old_self.waitlist@);
        }
        Ok(id)
    }

    /// Position of the confirmed booking `id` of class `class_id`.
    fn find_confirmed_booking(&self, id: &String, class_id: &String) -> (r: Option<usize>)
        ensures
            match r {
                Some(i) => i < self.bookings@.len() && first_match(self.bookings@, confirmed_booking(id@, class_id@)) == Some(i as int),
                None => first_match(self.bookings@, confirmed_booking(id@, class_id@)) is None,
            },
    {
        let mut i: usize = 0;
        while i < self.bookings.len()
            invariant
                i <= self.bookings@.len(),
                forall|j: int| 0 <= j < i ==> !(confirmed_booking(id@, class_id@))(#[trigger] self.bookings@[j]),
            decreases self.bookings@.len() - i,
        {
            if self.bookings[i].id == *id && self.bookings[i].class_id == *class_id && self.bookings[i].status == BookingStatus::Confirmed {
                proof {
                    lemma_first_match_at(self.bookings@, confirmed_booking(id@, class_id@), i as int);
                }
                return Some(i);
            }
            i = i + 1;
        }
        proof {
            lemma_first_match_none(self.bookings@, confirmed_booking(id@, class_id@));
        }
        None
    }

    /// The oldest waiting entry of class `class_id`.
    fn oldest_waiting(&self, class_id: &String) -> (r: Option<usize>)
        ensures
            match r {
                Some(i) => i < self.waitlist@.len() && pick(self.waitlist@, waiting_in(class_id@), entry_earlier()) == Some(i as int),
                None => pick(self.waitlist@, waiting_in(class_id@), entry_earlier()) is None,
            },
    {
        let ghost ok = waiting_in(class_id@);
        let mut best: Option<usize> = None;
        let mut i: usize = 0;
        while i < self.waitlist.len()
            invariant
                ok == waiting_in(class_id@),
                i <= self.waitlist@.len(),
                match best {
                    Some(b) => b < i && pick(self.waitlist@.take(i as int), ok, entry_earlier()) == Some(b as int),
                    None => pick(self.waitlist@.take(i as int), ok, entry_earlier()) is None,
                },
            decreases self.waitlist@.len() - i,
        {
            proof {
                lemma_pick_step(self.waitlist@, ok, entry_earlier(), i as int);
            }
            if self.waitlist[i].class_id == *class_id && self.waitlist[i].status == WaitlistStatus::Waiting {
                match best {
                    None => {
                        best = Some(i);
                    },
                    Some(b) => {
                        if self.waitlist[i].created_at < self.waitlist[b].created_at {
                            best = Some(i);
                        }
                    },
                }
            }
            i = i + 1;
        }
        proof {
            assert(self.waitlist@.take(i as int) =~= self.waitlist@);
        }
        best
    }

    /// Whether some offer has id `id`.
    fn offer_id_taken(&self, id: &String) -> (b: bool)
        ensures
            b == exists|j: int| 0 <= j < self.offers@.len() && #[trigger] self.offers@[j].id@ == id@,
    {
        let mut i: usize = 0;
        while i < self.offers.len()
            invariant
                i <= self.offers@.len(),
                forall|j: int| 0 <= j < i ==> #[trigger] self.offers@[j].id@ != id@,
            decreases self.offers@.len() - i,
        {
            if self.offers[i].id == *id {
                return true;
            }
            i = i + 1;
        }
        false
    }

    /// Cancels confirmed booking `booking_id` of class `class_id` and offers
    /// the released seat, for one day, to the class's oldest waiting guardian,
    /// under a fresh random token and fresh ids.
    pub fn cancel_booking_and_offer(
        &mut self,
        delivery: OfferDelivery<'_>,
        access_key: &str,
        class_id: &str,
        booking_id: &str,
        now: i64,
    ) -> (r: Result<ReleaseResult, RealError>)
        requires
            old(self).wf(),
            crate::demo::valid_now(now),
        ensures
            final(self).wf(),
            exists|token: Seq<char>, offer_id: Seq<char>, email_id: Seq<char>| drawn_offer_ids(token, offer_id, email_id)
                && released(*old(self), *final(self), delivery.cipher.key(), delivery.public_base_url@,
                    delivery.email_configured, access_key@, class_id@, booking_id@, now, token, offer_id, email_id, r),
    {
        proof {
            reveal_strlit("offer_");
        }
        let token = opaque_id("offer_");
        let offer_id = fresh_id();
        let email_id = fresh_id();
        proof {
            assert(drawn_offer_ids(token@, offer_id@, email_id@));
        }
        let ghost (t, o, e) = (token@, offer_id@, email_id@);
        let r = self.cancel_booking_and_offer_with_ids(delivery, access_key, class_id, booking_id, now, token, offer_id, email_id);
        proof {
            assert(drawn_offer_ids(t, o, e));
        }
        r
    }

    /// Cancels and offers as `cancel_booking_and_offer` does, under offer
    /// token `token`, offer id `offer_id` and email id `email_id`; refused
    /// with `Database` only when `offer_id` is already used or the token is
    /// too long to seal.
    pub fn cancel_booking_and_offer_with_ids(
        &mut self,
        delivery: OfferDelivery<'_>,
        access_key: &str,
        class_id: &str,
        booking_id: &str,
        now: i64,
        token: String,
        offer_id: String,
        email_id: String,
    ) -> (r: Result<ReleaseResult, RealError>)
        requires
            old(self).wf(),
            crate::demo::valid_now(now),
        ensures
            final(self).wf(),
            released(*old(self), *final(self), delivery.cipher.key(), delivery.public_base_url@,
                delivery.email_configured, access_key@, class_id@, booking_id@, now, token@, offer_id@, email_id@, r),
    {
        proof {
            reveal_strlit("not_needed");
            reveal_strlit("email_queued");
            reveal_strlit("ready_to_copy");
            reveal_strlit("offer_");
            reveal_strlit("/offer/");
            reveal_strlit("A class seat is available");
            reveal_strlit("A class seat is available for 24 hours. Accept it at ");
        }
        let w = match self.find_workspace(access_key) {
            Some(w) => w,
            None => return Err(RealError::Forbidden),
        };
        let ws = self.workspaces[w].id.clone();
        let cid = class_id.to_owned();
        let ci = match self.find_class_in(&ws, &cid) {
            Some(ci) => ci,
            None => return Err(RealError::NotFound),
        };
        let bid = booking_id.to_owned();
        let bi = match self.find_confirmed_booking(&bid, &cid) {
            Some(bi) => bi,
            None => return Err(RealError::NotFound),
        };
        let next = self.oldest_waiting(&cid);
        let ghost old_self = *self;
        match next {
            None => {
                self.release_seat(ci, bi);
                Ok(ReleaseResult { offer_token: None, offer_url: None, expires_at: None, delivery_status: "not_needed" })
            },
            Some(ei) => {
                let expires_at = now + OFFER_SECONDS;
                let mut offer_url = trim_end_matches_char(delivery.public_base_url, '/');
                offer_url.append("/offer/");
                offer_url.append(token.as_str());
                let token_encrypted = match delivery.cipher.encrypt(token.as_str()) {
                    Ok(t) => t,
                    Err(_) => return Err(RealError::Database),
                };
                if self.offer_id_taken(&offer_id) {
                    return Err(RealError::Database);
                }
                let (delivery_status, stored_status) = if delivery.email_configured {
                    ("email_queued", DeliveryStatus::EmailQueued)
                } else {
                    ("ready_to_copy", DeliveryStatus::ReadyToCopy)
                };
                let offer = SeatOffer {
                    id: offer_id.clone(),
                    waitlist_entry_id: self.waitlist[ei].id.clone(),
                    class_id: cid,
                    token_hash: digest(token.as_str()),
                    expires_at,
                    status: OfferStatus::Open,
                    created_at: now,
                    token_encrypted: Some(token_encrypted),
                    delivery_status: stored_status,
                };
                let recipient = self.waitlist[ei].guardian_email.clone();
                self.release_seat(ci, bi);
                proof {
                    lemma_distinct_push(old_self.offers@, offer_key(), offer);
                    lemma_distinct_update(old_self.waitlist@, entry_key(), ei as int,
                        WaitlistEntry { status: WaitlistStatus::Offered, ..old_self.waitlist@[ei as int] });
                }
                self.offers.push(offer);
                self.waitlist[ei].status = WaitlistStatus::Offered;
                if delivery.email_configured {
                    let mut body = "A class seat is available for 24 hours. Accept it at ".to_owned();
                    body.append(offer_url.as_str());
                    let ghost before = self.outbox@;
                    self.outbox.push(OutboxEmail {
                        id: email_id,
                        workspace_id: ws,
                        recipient_encrypted: recipient,
                        subject: "A class seat is available".to_owned(),
                        text_body: body,
                        status: EmailStatus::Pending,
                        attempts: 0,
                        next_attempt_at: now,
                        created_at: now,
                        seat_offer_id: Some(offer_id),
                        sent_at: None,
                        last_error: None,
                    });
                    proof {
                        assert(self.outbox@.subrange(0, before.len() as int) =~= before);
                        assert forall|a: int| 0 <= a < self.outbox@.len() implies 0 <= #[trigger] self.outbox@[a].attempts by {
                            if a < before.len() {
                                assert(self.outbox@[a] == before[a]);
                            }
                        }
                    }
                }
                proof {
                    assert(self.offers@.subrange(0, old_self.offers@.len() as int) =~= old_self.offers@);
                }
                Ok(ReleaseResult { offer_token: Some(token), offer_url: Some(offer_url), expires_at: Some(expires_at), delivery_status })
            },
        }
    }

    /// Marks booking `bi` cancelled and frees one seat of class `ci`.
    fn release_seat(&mut self, ci: usize, bi: usize)
        requires
            old(self).wf(),
            ci < old(self).classes@.len(),
            bi < old(self).bookings@.len(),
        ensures
            final(self).wf(),
            final(self).classes@ == old(self).classes@.update(ci as int, released_class(old(self).classes@[ci as int])),
            final(self).bookings@ == old(self).bookings@.update(bi as int,
                SeatBooking { status: BookingStatus::Cancelled, ..old(self).bookings@[bi as int] }),
            final(self).workspaces == old(self).workspaces,
            final(self).members == old(self).members,
            final(self).waitlist == old(self).waitlist,
            final(self).offers == old(self).offers,
            final(self).runs == old(self).runs,
            final(self).calendars == old(self).calendars,
            final(self).outbox == old(self).outbox,
            final(self).billing == old(self).billing,
    {
        let ghost old_self = *self;
        self.bookings[bi].status = BookingStatus::Cancelled;
        if self.classes[ci].confirmed > 0 {
            let c = self.classes[ci].confirmed - 1;
            self.classes[ci].confirmed = c;
        }
        proof {
            lemma_distinct_update(old_self.bookings@, booking_key(), bi as int, self.bookings@[bi as int]);
            lemma_distinct_update(old_self.classes@, class_key(), ci as int, self.classes@[ci as int]);
            assert(self.classes@ =~= old_self.classes@.update(ci as int, released_class(old_self.classes@[ci as int])));
            assert forall|a: int| 0 <= a < self.classes@.len() implies class_seats_ok(#[trigger] self.classes@[a]) by {
                assert(class_seats_ok(old_self.classes@[a]));
            }
        }
    }

    /// Releases the oldest confirmed booking of class `class_id` and offers
    /// the seat as `cancel_booking_and_offer` does.
    pub fn release_oldest_booking_and_offer(
        &mut self,
        delivery: OfferDelivery<'_>,
        access_key: &str,
        class_id: &str,
        now: i64,
    ) -> (r: Result<ReleaseResult, RealError>)
        requires
            old(self).wf(),
            crate::demo::valid_now(now),
        ensures
            final(self).wf(),
            exists|token: Seq<char>, offer_id: Seq<char>, email_id: Seq<char>| drawn_offer_ids(token, offer_id, email_id)
                && released_oldest(*old(self), *final(self), delivery.cipher.key(), delivery.public_base_url@,
                    delivery.email_configured, access_key@, class_id@, now, token, offer_id, email_id, r),
    {
        proof {
            reveal_strlit("offer_");
        }
        let token = opaque_id("offer_");
        let offer_id = fresh_id();
        let email_id = fresh_id();
        proof {
            assert(drawn_offer_ids(token@, offer_id@, email_id@));
        }
        let ghost (t, o, e) = (token@, offer_id@, email_id@);
        let r = self.release_oldest_booking_and_offer_with_ids(delivery, access_key, class_id, now, token, offer_id, email_id);
        proof {
            assert(drawn_offer_ids(t, o, e));
        }
        r
    }

    /// Releases as `release_oldest_booking_and_offer` does, under offer token
    /// `token`, offer id `offer_id` and email id `email_id`.
    pub fn release_oldest_booking_and_offer_with_ids(
        &mut self,
        delivery: OfferDelivery<'_>,
        access_key: &str,
        class_id: &str,
        now: i64,
        token: String,
        offer_id: String,
        email_id: String,
    ) -> (r: Result<ReleaseResult, RealError>)
        requires
            old(self).wf(),
            crate::demo::valid_now(now),
        ensures
            final(self).wf(),
            released_oldest(*old(self), *final(self), delivery.cipher.key(), delivery.public_base_url@,
                delivery.email_configured, access_key@, class_id@, now, token@, offer_id@, email_id@, r),
    {
        let w = match self.find_workspace(access_key) {
            Some(w) => w,
            None => return Err(RealError::Forbidden),
        };
        let ws = self.workspaces[w].id.clone();
        let cid = class_id.to_owned();
        if self.find_class_in(&ws, &cid).is_none() {
            return Err(RealError::NotFound);
        }
        let b = match self.oldest_confirmed(&cid) {
            Some(b) => b,
            None => return Err(RealError::NotFound),
        };
        let id = self.bookings[b].id.clone();
        proof {
            crate::seqs::lemma_pick(self.bookings@, confirmed_in(class_id@), booking_earlier());
            let p = confirmed_booking(id@, class_id@);
            assert(p(self.bookings@[b as int]));
            assert forall|j: int| 0 <= j < b implies !p(#[trigger] self.bookings@[j]) by {
                assert(distinct_by(self.bookings@, booking_key()));
                assert(booking_key()(self.bookings@[j]) != booking_key()(self.bookings@[b as int]));
            }
            lemma_first_match_at(self.bookings@, p, b as int);
        }
        self.cancel_booking_and_offer_with_ids(delivery, access_key, class_id, id.as_str(), now, token, offer_id, email_id)
    }

    /// The oldest confirmed booking of class `class_id`.
    fn oldest_confirmed(&self, class_id: &String) -> (r: Option<usize>)
        ensures
            match r {
                Some(i) => i < self.bookings@.len() && pick(self.bookings@, confirmed_in(class_id@), booking_earlier()) == Some(i as int),
                None => pick(self.bookings@, confirmed_in(class_id@), booking_earlier()) is None,
            },
    {
        let ghost ok = confirmed_in(class_id@);
        let mut best: Option<usize> = None;
        let mut i: usize = 0;
        while i < self.bookings.len()
            invariant
                ok == confirmed_in(class_id@),
                i <= self.bookings@.len(),
                match best {
                    Some(b) => b < i && pick(self.bookings@.take(i as int), ok, booking_earlier()) == Some(b as int),
                    None => pick(self.bookings@.take(i as int), ok, booking_earlier()) is None,
                },
            decreases self.bookings@.len() - i,
        {
            proof {
                lemma_pick_step(self.bookings@, ok, booking_earlier(), i as int);
            }
            if self.bookings[i].class_id == *class_id && self.bookings[i].status == BookingStatus::Confirmed {
                match best {
                    None => {
                        best = Some(i);
                    },
                    Some(b) => {
                        if self.bookings[i].created_at < self.bookings[b].created_at {
                            best = Some(i);
                        }
                    },
                }
            }
            i = i + 1;
        }
        proof {
            assert(self.bookings@.take(i as int) =~= self.bookings@);
        }
        best
    }

    /// Position of the first class with id `id`.
    pub(crate) fn find_class_id(&self, id: &String) -> (r: Option<usize>)
        ensures
            match r {
                Some(i) => i < self.classes@.len() && first_match(self.classes@, has_class_id(id@)) == Some(i as int),
                None => first_match(self.classes@, has_class_id(id@)) is None,
            },
    {
        let mut i: usize = 0;
        while i < self.classes.len()
            invariant
                i <= self.classes@.len(),
                forall|j: int| 0 <= j < i ==> !(has_class_id(id@))(#[trigger] self.classes@[j]),
            decreases self.classes@.len() - i,
        {
            if self.classes[i].id == *id {
                proof {
                    lemma_first_match_at(self.classes@, has_class_id(id@), i as int);
                }
                return Some(i);
            }
            i = i + 1;
        }
        proof {
            lemma_first_match_none(self.classes@, has_class_id(id@));
        }
        None
    }

    /// Position of the first offer whose token digest is `hash`, open (and
    /// unexpired at `now` when `live`), whose class exists.
    fn find_offer(&self, hash: &String, live: bool, now: i64) -> (r: Option<(usize, usize)>)
        ensures
            match r {
                Some((o, c)) => o < self.offers@.len() && c < self.classes@.len()
                    && first_match(self.offers@, if live { live_offer(hash@, self.classes@, now) } else { open_offer(hash@, self.classes@) }) == Some(o as int)
                    && first_match(self.classes@, has_class_id(self.offers@[o as int].class_id@)) == Some(c as int),
                None => first_match(self.offers@, if live { live_offer(hash@, self.classes@, now) } else { open_offer(hash@, self.classes@) }) is None,
            },
    {
        let ghost p = if live { live_offer(hash@, self.classes@, now) } else { open_offer(hash@, self.classes@) };
        let mut i: usize = 0;
        while i < self.offers.len()
            invariant
                p == (if live { live_offer(hash@, self.classes@, now) } else { open_offer(hash@, self.classes@) }),
                i <= self.offers@.len(),
                forall|j: int| 0 <= j < i ==> !p(#[trigger] self.offers@[j]),
            decreases self.offers@.len() - i,
        {
            let o = &self.offers[i];
            if o.token_hash == *hash && o.status == OfferStatus::Open && (!live || o.expires_at > now) {
                if let Some(c) = self.find_class_id(&o.class_id) {
                    proof {
                        lemma_first_match_at(self.offers@, p, i as int);
                    }
                    return Some((i, c));
                }
            }
            i = i + 1;
        }
        proof {
            lemma_first_match_none(self.offers@, p);
        }
        None
    }

    /// The open, unexpired offer with token `token`, as its guardian sees it.
    pub fn get_offer(&self, token: &str, now: i64) -> (r: Result<Option<WaitlistOffer>, RealError>)
        requires
            self.wf(),
        ensures
            match first_match(self.offers@, live_offer(digest_spec(token@), self.classes@, now)) {
                Some(o) => r matches Ok(Some(offer)) && offer.offer_token@ == token@
                    && offer.expires_at == self.offers@[o].expires_at
                    && shows_class(offer.class, self.classes@[first_match(self.classes@, has_class_id(self.offers@[o].class_id@))->0], None, now),
                None => r matches Ok(None),
            },
    {
        let hash = digest(token);
        match self.find_offer(&hash, true, now) {
            Some((o, c)) => Ok(Some(WaitlistOffer {
                offer_token: token.to_owned(),
                class: class_view(&self.classes[c], None, now),
                expires_at: self.offers[o].expires_at,
            })),
            None => Ok(None),
        }
    }

    /// Accepts the open offer with token `token`: the guardian takes the
    /// released seat, provided the offer has not expired, the class is not
    /// full and its cutoff has not passed. An offer is accepted at most once.
    pub fn accept_offer(&mut self, token: &str, now: i64) -> (r: Result<RealClass, RealError>)
        requires
            old(self).wf(),
        ensures
            final(self).wf(),
            match first_match(old(self).offers@, open_offer(digest_spec(token@), old(self).classes@)) {
                None => *final(self) == *old(self) && r == Err::<RealClass, RealError>(RealError::OfferUnavailable),
                Some(oi) => {
                    let o = old(self).offers@[oi];
                    let ci = first_match(old(self).classes@, has_class_id(o.class_id@))->0;
                    let c = old(self).classes@[ci];
                    if o.expires_at <= now || c.confirmed >= c.capacity || c.booking_cutoff <= now {
                        *final(self) == *old(self) && r == Err::<RealClass, RealError>(RealError::OfferUnavailable)
                    } else {
                        &&& final(self).classes@ == old(self).classes@.update(ci, ClassRow { confirmed: (c.confirmed + 1) as i64, ..c })
                        &&& final(self).offers@ == old(self).offers@.update(oi, SeatOffer { status: OfferStatus::Accepted, ..o })
                        &&& final(self).waitlist@ == old(self).waitlist@.map_values(accept_entry(o.waitlist_entry_id@))
                        &&& final(self).workspaces == old(self).workspaces && final(self).members == old(self).members
                        &&& final(self).bookings == old(self).bookings && final(self).runs == old(self).runs
                        &&& final(self).calendars == old(self).calendars && final(self).outbox == old(self).outbox
                        &&& final(self).billing == old(self).billing
                        &&& r matches Ok(v) && shows_class(v, final(self).classes@[ci], None, now)
                    }
                },
            },
    {
        let hash = digest(token);
        let (oi, ci) = match self.find_offer(&hash, false, now) {
            Some(found) => found,
            None => return Err(RealError::OfferUnavailable),
        };
        if self.offers[oi].expires_at <= now || self.classes[ci].confirmed >= self.classes[ci].capacity
            || self.classes[ci].booking_cutoff <= now {
            return Err(RealError::OfferUnavailable);
        }
        let ghost old_self = *self;
        let confirmed = self.classes[ci].confirmed + 1;
        self.classes[ci].confirmed = confirmed;
        self.offers[oi].status = OfferStatus::Accepted;
        let entry_id = self.offers[oi].waitlist_entry_id.clone();
        proof {
            lemma_distinct_update(old_self.classes@, class_key(), ci as int, self.classes@[ci as int]);
            lemma_distinct_update(old_self.offers@, offer_key(), oi as int, self.offers@[oi as int]);
            assert forall|a: int| 0 <= a < self.classes@.len() implies class_seats_ok(#[trigger] self.classes@[a]) by {
                assert(class_seats_ok(old_self.classes@[a]));
            }
        }
        let ghost before = self.waitlist@;
        let ghost mid = *self;
        let mut i: usize = 0;
        while i < self.waitlist.len()
            invariant
                self.classes == mid.classes && self.offers == mid.offers && self.workspaces == mid.workspaces,
                self.members == mid.members && self.bookings == mid.bookings && self.runs == mid.runs,
                self.calendars == mid.calendars && self.outbox == mid.outbox && self.billing == mid.billing,
                ci < self.classes@.len(),
                forall|a: int| 0 <= a < self.classes@.len() ==> class_seats_ok(#[trigger] self.classes@[a]),
                self.waitlist@.len() == before.len(),
                i <= before.len(),
                distinct_by(before, entry_key()),
                forall|a: int| 0 <= a < i ==> #[trigger] self.waitlist@[a] == (accept_entry(entry_id@))(before[a]),
                forall|a: int| i <= a < before.len() ==> #[trigger] self.waitlist@[a] == before[a],
            decreases before.len() - i,
        {
            if self.waitlist[i].id == entry_id {
                self.waitlist[i].status = WaitlistStatus::Accepted;
            }
            i = i + 1;
        }
        proof {
            assert(self.waitlist@ =~= before.map_values(accept_entry(entry_id@)));
            assert forall|a: int, b: int| 0 <= a < b < self.waitlist@.len() implies
                (entry_key())(#[trigger] self.waitlist@[a]) != (entry_key())(#[trigger] self.waitlist@[b]) by {
                assert((entry_key())(before[a]) != (entry_key())(before[b]));
            }
        }
        Ok(class_view(&self.classes[ci], None, now))
    }

    /// Records a reconciliation of class `id` against the calendar's count:
    /// "matched" when the counts agree, "attention" otherwise. Confirmed
    /// seats are never changed.
    pub fn reconcile_class(&mut self, access_key: &str, id: &str, calendar_confirmed: i64, now: i64) -> (r: Result<RealClass, RealError>)
        requires
            old(self).wf(),
        ensures
            final(self).wf(),
            final(self).classes == old(self).classes,
            final(self).bookings == old(self).bookings,
            match first_match(old(self).workspaces@, opened_by(access_key@)) {
                None => *final(self) == *old(self) && r == Err::<RealClass, RealError>(RealError::Forbidden),
                Some(w) => match first_match(old(self).classes@, class_in(old(self).workspaces@[w].id@, id@)) {
                    None => *final(self) == *old(self) && r == Err::<RealClass, RealError>(RealError::NotFound),
                    Some(ci) => {
                        let c = old(self).classes@[ci];
                        let run = final(self).runs@.last();
                        &&& final(self).runs@.len() == old(self).runs@.len() + 1
                        &&& final(self).runs@.subrange(0, old(self).runs@.len() as int) == old(self).runs@
                        &&& run.class_id@ == id@
                        &&& run.calendar_confirmed == calendar_confirmed
                        &&& run.local_confirmed == c.confirmed
                        &&& run.status == (if c.confirmed == calendar_confirmed { RunStatus::Matched } else { RunStatus::Attention })
                        &&& run.created_at == now
                        &&& final(self).workspaces == old(self).workspaces && final(self).members == old(self).members
                        &&& final(self).waitlist == old(self).waitlist && final(self).offers == old(self).offers
                        &&& final(self).calendars == old(self).calendars && final(self).outbox == old(self).outbox
                        &&& final(self).billing == old(self).billing
                        &&& r matches Ok(v) && shows_class_now(v, c, final(self).runs@, now)
                    },
                },
            },
    {
        let w = match self.find_workspace(access_key) {
            Some(w) => w,
            None => return Err(RealError::Forbidden),
        };
        let ws = self.workspaces[w].id.clone();
        let cid = id.to_owned();
        let ci = match self.find_class_in(&ws, &cid) {
            Some(ci) => ci,
            None => return Err(RealError::NotFound),
        };
        let local = self.classes[ci].confirmed;
        let status = if local == calendar_confirmed { RunStatus::Matched } else { RunStatus::Attention };
        let ghost before = self.runs@;
        self.runs.push(ReconciliationRun {
            id: fresh_id(),
            class_id: cid,
            calendar_confirmed,
            local_confirmed: local,
            status,
            created_at: now,
        });
        proof {
            assert(self.runs@.subrange(0, before.len() as int) =~= before);
        }
        Ok(self.class_now(ci, now))
    }

    /// Whether class `cid` belongs to workspace `wid`.
    pub(crate) fn class_in_workspace(&self, wid: &String, cid: &String) -> (b: bool)
        ensures
            b == class_of_workspace(self.classes@, wid@, cid@),
    {
        let mut i: usize = 0;
        while i < self.classes.len()
            invariant
                i <= self.classes@.len(),
                forall|j: int| 0 <= j < i ==> !(#[trigger] self.classes@[j].id@ == cid@ && self.classes@[j].workspace_id@ == wid@),
            decreases self.classes@.len() - i,
        {
            if self.classes[i].id == *cid && self.classes[i].workspace_id == *wid {
                return true;
            }
            i = i + 1;
        }
        false
    }

    /// Deletes the workspace that `access_key` opens with its staff, classes,
    /// bookings, waitlists, offers, reconciliations, calendar feed, queued
    /// email and billing records.
    pub fn delete_workspace(&mut self, access_key: &str) -> (r: Result<(), RealError>)
        requires
            old(self).wf(),
        ensures
            final(self).wf(),
            match first_match(old(self).workspaces@, opened_by(access_key@)) {
                None => *final(self) == *old(self) && r == Err::<(), RealError>(RealError::Forbidden),
                Some(w) => r is Ok && without_workspace(*old(self), *final(self), old(self).workspaces@[w].id@),
            },
    {
        let w = match self.find_workspace(access_key) {
            Some(w) => w,
            None => return Err(RealError::Forbidden),
        };
        let wid = self.workspaces[w].id.clone();
        let ghost old_self = *self;
        let mut flags: Vec<bool> = Vec::new();
        let mut i: usize = 0;
        while i < self.bookings.len()
            invariant
                self.classes == old_self.classes,
                i <= self.bookings@.len(),
                flags@.len() == i,
                forall|j: int| 0 <= j < i ==> flags@[j] == (booking_kept(old_self.classes@, wid@))(#[trigger] self.bookings@[j]),
            decreases self.bookings@.len() - i,
        {
            let keep = !self.class_in_workspace(&wid, &self.bookings[i].class_id);
            flags.push(keep);
            i = i + 1;
        }
        retain_flagged(&mut self.bookings, &flags, Ghost(booking_kept(old_self.classes@, wid@)));
        let mut flags: Vec<bool> = Vec::new();
        let mut i: usize = 0;
        while i < self.waitlist.len()
            invariant
                self.classes == old_self.classes,
                i <= self.waitlist@.len(),
                flags@.len() == i,
                forall|j: int| 0 <= j < i ==> flags@[j] == (entry_kept(old_self.classes@, wid@))(#[trigger] self.waitlist@[j]),
            decreases self.waitlist@.len() - i,
        {
            let keep = !self.class_in_workspace(&wid, &self.waitlist[i].class_id);
            flags.push(keep);
            i = i + 1;
        }
        retain_flagged(&mut self.waitlist, &flags, Ghost(entry_kept(old_self.classes@, wid@)));
        let mut flags: Vec<bool> = Vec::new();
        let mut i: usize = 0;
        while i < self.offers.len()
            invariant
                self.classes == old_self.classes,
                i <= self.offers@.len(),
                flags@.len() == i,
                forall|j: int| 0 <= j < i ==> flags@[j] == (offer_kept(old_self.classes@, wid@))(#[trigger] self.offers@[j]),
            decreases self.offers@.len() - i,
        {
            let keep = !self.class_in_workspace(&wid, &self.offers[i].class_id);
            flags.push(keep);
            i = i + 1;
        }
        retain_flagged(&mut self.offers, &flags, Ghost(offer_kept(old_self.classes@, wid@)));
        let mut flags: Vec<bool> = Vec::new();
        let mut i: usize = 0;
        while i < self.runs.len()
            invariant
                self.classes == old_self.classes,
                i <= self.runs@.len(),
                flags@.len() == i,
                forall|j: int| 0 <= j < i ==> flags@[j] == (run_kept(old_self.classes@, wid@))(#[trigger] self.runs@[j]),
            decreases self.runs@.len() - i,
        {
            let keep = !self.class_in_workspace(&wid, &self.runs[i].class_id);
            flags.push(keep);
            i = i + 1;
        }
        retain_flagged(&mut self.runs, &flags, Ghost(run_kept(old_self.classes@, wid@)));
        let mut flags: Vec<bool> = Vec::new();
        let mut i: usize = 0;
        while i < self.workspaces.len()
            invariant
                self.classes == old_self.classes,
                i <= self.workspaces@.len(),
                flags@.len() == i,
                forall|j: int| 0 <= j < i ==> flags@[j] == (workspace_row_kept(wid@))(#[trigger] self.workspaces@[j]),
            decreases self.workspaces@.len() - i,
        {
            let keep = !(self.workspaces[i].id == wid);
            flags.push(keep);
            i = i + 1;
        }
        retain_flagged(&mut self.workspaces, &flags, Ghost(workspace_row_kept(wid@)));
        let mut flags: Vec<bool> = Vec::new();
        let mut i: usize = 0;
        while i < self.members.len()
            invariant
                self.classes == old_self.classes,
                i <= self.members@.len(),
                flags@.len() == i,
                forall|j: int| 0 <= j < i ==> flags@[j] == (member_kept(wid@))(#[trigger] self.members@[j]),
            decreases self.members@.len() - i,
        {
            let keep = !(self.members[i].workspace_id == wid);
            flags.push(keep);
            i = i + 1;
        }
        retain_flagged(&mut self.members, &flags, Ghost(member_kept(wid@)));
        let mut flags: Vec<bool> = Vec::new();
        let mut i: usize = 0;
        while i < self.calendars.len()
            invariant
                self.classes == old_self.classes,
                i <= self.calendars@.len(),
                flags@.len() == i,
                forall|j: int| 0 <= j < i ==> flags@[j] == (calendar_kept(wid@))(#[trigger] self.calendars@[j]),
            decreases self.calendars@.len() - i,
        {
            let keep = !(self.calendars[i].workspace_id == wid);
            flags.push(keep);
            i = i + 1;
        }
        retain_flagged(&mut self.calendars, &flags, Ghost(calendar_kept(wid@)));
        let mut flags: Vec<bool> = Vec::new();
        let mut i: usize = 0;
        while i < self.outbox.len()
            invariant
                self.classes == old_self.classes,
                i <= self.outbox@.len(),
                flags@.len() == i,
                forall|j: int| 0 <= j < i ==> flags@[j] == (email_kept(wid@))(#[trigger] self.outbox@[j]),
            decreases self.outbox@.len() - i,
        {
            let keep = !(self.outbox[i].workspace_id == wid);
            flags.push(keep);
            i = i + 1;
        }
        retain_flagged(&mut self.outbox, &flags, Ghost(email_kept(wid@)));
        let mut flags: Vec<bool> = Vec::new();
        let mut i: usize = 0;
        while i < self.billing.len()
            invariant
                self.classes == old_self.classes,
                i <= self.billing@.len(),
                flags@.len() == i,
                forall|j: int| 0 <= j < i ==> flags@[j] == (billing_kept(wid@))(#[trigger] self.billing@[j]),
            decreases self.billing@.len() - i,
        {
            let keep = !(self.billing[i].workspace_id == wid);
            flags.push(keep);
            i = i + 1;
        }
        retain_flagged(&mut self.billing, &flags, Ghost(billing_kept(wid@)));
        let mut flags: Vec<bool> = Vec::new();
        let mut i: usize = 0;
        while i < self.classes.len()
            invariant
                i <= self.classes@.len(),
                flags@.len() == i,
                forall|j: int| 0 <= j < i ==> flags@[j] == (class_kept(wid@))(#[trigger] self.classes@[j]),
            decreases self.classes@.len() - i,
        {
            let keep = !(self.classes[i].workspace_id == wid);
            flags.push(keep);
            i = i + 1;
        }
        retain_flagged(&mut self.classes, &flags, Ghost(class_kept(wid@)));
        proof {
            lemma_distinct_filter(old_self.classes@, class_key(), class_kept(wid@));
            lemma_distinct_filter(old_self.bookings@, booking_key(), booking_kept(old_self.classes@, wid@));
            lemma_distinct_filter(old_self.waitlist@, entry_key(), entry_kept(old_self.classes@, wid@));
            lemma_distinct_filter(old_self.offers@, offer_key(), offer_kept(old_self.classes@, wid@));
            assert forall|a: int| 0 <= a < self.classes@.len() implies class_seats_ok(#[trigger] self.classes@[a]) by {
                lemma_filter_member(old_self.classes@, class_kept(wid@), a);
            }
            assert forall|a: int| 0 <= a < self.calendars@.len() implies
                ((#[trigger] self.calendars@[a]).next_poll_at matches Some(t) ==> t >= i64::MIN + 7776000) by {
                lemma_filter_member(old_self.calendars@, calendar_kept(wid@), a);
            }
            assert forall|a: int| 0 <= a < self.outbox@.len() implies 0 <= #[trigger] self.outbox@[a].attempts by {
                lemma_filter_member(old_self.outbox@, email_kept(wid@), a);
            }
        }
        Ok(())
    }

    /// Scrubs every guardian contact whose ninety days have passed at `now`
    /// (bookings and waitlist entries alike) and returns how many were scrubbed.
    pub fn cleanup_retained_contacts(&mut self, now: i64) -> (count: u64)
        requires
            old(self).wf(),
            old(self).bookings@.len() + old(self).waitlist@.len() <= u64::MAX,
        ensures
            final(self).wf(),
            final(self).bookings@.len() == old(self).bookings@.len(),
            forall|i: int| 0 <= i < old(self).bookings@.len() ==> {
                let b = #[trigger] old(self).bookings@[i];
                let n = final(self).bookings@[i];
                if contact_due(b.contact_expires_at, b.guardian_name@, now) {
                    n.guardian_name@ == "[deleted]"@ && n.guardian_email@ == "[deleted]"@
                        && n.id == b.id && n.class_id == b.class_id && n.idempotency_key == b.idempotency_key
                        && n.status == b.status && n.created_at == b.created_at && n.contact_expires_at == b.contact_expires_at
                } else {
                    n == b
                }
            },
            final(self).waitlist@.len() == old(self).waitlist@.len(),
            forall|i: int| 0 <= i < old(self).waitlist@.len() ==> {
                let e = #[trigger] old(self).waitlist@[i];
                let n = final(self).waitlist@[i];
                if contact_due(e.contact_expires_at, e.guardian_name@, now) {
                    n.guardian_name@ == "[deleted]"@ && n.guardian_email@ == "[deleted]"@
                        && n.id == e.id && n.class_id == e.class_id && n.idempotency_key == e.idempotency_key
                        && n.status == e.status && n.created_at == e.created_at && n.consented_at == e.consented_at
                        && n.contact_expires_at == e.contact_expires_at
                } else {
                    n == e
                }
            },
            count == old(self).bookings@.filter(|b: SeatBooking| contact_due(b.contact_expires_at, b.guardian_name@, now)).len()
                + old(self).waitlist@.filter(|e: WaitlistEntry| contact_due(e.contact_expires_at, e.guardian_name@, now)).len(),
            final(self).workspaces == old(self).workspaces && final(self).members == old(self).members,
            final(self).classes == old(self).classes && final(self).offers == old(self).offers,
            final(self).runs == old(self).runs && final(self).calendars == old(self).calendars,
            final(self).outbox == old(self).outbox && final(self).billing == old(self).billing,
    {
        proof {
            reveal_strlit("[deleted]");
        }
        let ghost old_self = *self;
        let ghost pb = |b: SeatBooking| contact_due(b.contact_expires_at, b.guardian_name@, now);
        let ghost pe = |e: WaitlistEntry| contact_due(e.contact_expires_at, e.guardian_name@, now);
        let deleted = "[deleted]".to_owned();
        let mut count: u64 = 0;
        let mut i: usize = 0;
        proof {
            reveal_with_fuel(Seq::<_>::filter, 1);
            assert(old_self.bookings@.take(0) =~= Seq::<SeatBooking>::empty());
        }
        while i < self.bookings.len()
            invariant
                deleted@ == "[deleted]"@,
                self.workspaces == old_self.workspaces && self.members == old_self.members,
                self.classes == old_self.classes && self.offers == old_self.offers && self.waitlist == old_self.waitlist,
                self.runs == old_self.runs && self.calendars == old_self.calendars,
                self.outbox == old_self.outbox && self.billing == old_self.billing,
                pb == (|b: SeatBooking| contact_due(b.contact_expires_at, b.guardian_name@, now)),
                self.bookings@.len() == old_self.bookings@.len(),
                i <= self.bookings@.len(),
                count == old_self.bookings@.take(i as int).filter(pb).len(),
                forall|a: int| i <= a < self.bookings@.len() ==> #[trigger] self.bookings@[a] == old_self.bookings@[a],
                forall|a: int| 0 <= a < i ==> {
                    let b = #[trigger] old_self.bookings@[a];
                    let n = self.bookings@[a];
                    if contact_due(b.contact_expires_at, b.guardian_name@, now) {
                        n.guardian_name@ == "[deleted]"@ && n.guardian_email@ == "[deleted]"@
                            && n.id == b.id && n.class_id == b.class_id && n.idempotency_key == b.idempotency_key
                            && n.status == b.status && n.created_at == b.created_at && n.contact_expires_at == b.contact_expires_at
                    } else {
                        n == b
                    }
                },
            decreases self.bookings@.len() - i,
        {
            proof {
                reveal_with_fuel(Seq::<_>::filter, 1);
                assert(old_self.bookings@.take(i + 1).drop_last() =~= old_self.bookings@.take(i as int));
                assert(old_self.bookings@.take(i + 1).last() == old_self.bookings@[i as int]);
                old_self.bookings@.take(i as int).lemma_filter_len(pb);
            }
            let due = match self.bookings[i].contact_expires_at {
                Some(t) => t <= now,
                None => false,
            } && !(self.bookings[i].guardian_name == deleted);
            if due {
                self.bookings[i].guardian_name = deleted.clone();
                self.bookings[i].guardian_email = deleted.clone();
                count = count + 1;
            }
            i = i + 1;
        }
        proof {
            assert(old_self.bookings@.take(i as int) =~= old_self.bookings@);
            assert forall|a: int, b: int| 0 <= a < b < self.bookings@.len() implies
                (booking_key())(#[trigger] self.bookings@[a]) != (booking_key())(#[trigger] self.bookings@[b]) by {
                assert((booking_key())(old_self.bookings@[a]) != (booking_key())(old_self.bookings@[b]));
            }
            old_self.bookings@.lemma_filter_len(pb);
            reveal_with_fuel(Seq::<_>::filter, 1);
            assert(old_self.waitlist@.take(0) =~= Seq::<WaitlistEntry>::empty());
        }
        let ghost mid = *self;
        let mut i: usize = 0;
        while i < self.waitlist.len()
            invariant
                deleted@ == "[deleted]"@,
                self.workspaces == mid.workspaces && self.members == mid.members && self.bookings == mid.bookings,
                self.classes == mid.classes && self.offers == mid.offers,
                self.runs == mid.runs && self.calendars == mid.calendars,
                self.outbox == mid.outbox && self.billing == mid.billing,
                pe == (|e: WaitlistEntry| contact_due(e.contact_expires_at, e.guardian_name@, now)),
                self.waitlist@.len() == old_self.waitlist@.len(),
                old_self.waitlist == mid.waitlist,
                i <= self.waitlist@.len(),
                count == old_self.bookings@.filter(pb).len() + old_self.waitlist@.take(i as int).filter(pe).len(),
                old_self.bookings@.filter(pb).len() <= old_self.bookings@.len(),
                old_self.bookings@.len() + old_self.waitlist@.len() <= u64::MAX,
                forall|a: int| i <= a < self.waitlist@.len() ==> #[trigger] self.waitlist@[a] == old_self.waitlist@[a],
                forall|a: int| 0 <= a < i ==> {
                    let e = #[trigger] old_self.waitlist@[a];
                    let n = self.waitlist@[a];
                    if contact_due(e.contact_expires_at, e.guardian_name@, now) {
                        n.guardian_name@ == "[deleted]"@ && n.guardian_email@ == "[deleted]"@
                            && n.id == e.id && n.class_id == e.class_id && n.idempotency_key == e.idempotency_key
                            && n.status == e.status && n.created_at == e.created_at && n.consented_at == e.consented_at
                            && n.contact_expires_at == e.contact_expires_at
                    } else {
                        n == e
                    }
                },
            decreases self.waitlist@.len() - i,
        {
            proof {
                reveal_with_fuel(Seq::<_>::filter, 1);
                assert(old_self.waitlist@.take(i + 1).drop_last() =~= old_self.waitlist@.take(i as int));
                assert(old_self.waitlist@.take(i + 1).last() == old_self.waitlist@[i as int]);
                old_self.waitlist@.take(i as int).lemma_filter_len(pe);
            }
            proof {
                old_self.waitlist@.take(i as int).lemma_filter_len(pe);
            }
            let due = match self.waitlist[i].contact_expires_at {
                Some(t) => t <= now,
                None => false,
            } && !(self.waitlist[i].guardian_name == deleted);
            if due {
                self.waitlist[i].guardian_name = deleted.clone();
                self.waitlist[i].guardian_email = deleted.clone();
                count = count + 1;
            }
            i = i + 1;
        }
        proof {
            assert(old_self.waitlist@.take(i as int) =~= old_self.waitlist@);
            assert forall|a: int, b: int| 0 <= a < b < self.waitlist@.len() implies
                (entry_key())(#[trigger] self.waitlist@[a]) != (entry_key())(#[trigger] self.waitlist@[b]) by {
                assert((entry_key())(old_self.waitlist@[a]) != (entry_key())(old_self.waitlist@[b]));
            }
        }
        count
    }

    /// The operational figures of the workspace that `access_key` opens.
    pub fn workspace_operational_metrics(&self, access_key: &str, now: i64) -> (r: Result<WorkspaceMetrics, RealError>)
        requires
            self.wf(),
            crate::demo::valid_now(now),
            self.classes@.len() <= i64::MAX,
            self.offers@.len() <= i64::MAX,
        ensures
            match first_match(self.workspaces@, opened_by(access_key@)) {
                None => r == Err::<WorkspaceMetrics, RealError>(RealError::Forbidden),
                Some(w) => {
                    let wid = self.workspaces@[w].id@;
                    if calendar_lag(self.calendars@, wid, now) > i64::MAX {
                        r == Err::<WorkspaceMetrics, RealError>(RealError::Database)
                    } else {
                    r matches Ok(m) && {
                        &&& m.calendar_job_lag_seconds == calendar_lag(self.calendars@, wid, now)
                        &&& m.unresolved_discrepancies == self.classes@.filter(needs_attention(self.runs@, wid)).len()
                        &&& m.offers_created == self.offers@.filter(offer_in(self.classes@, wid)).len()
                        &&& m.offers_accepted == self.offers@.filter(accepted_offer_in(self.classes@, wid)).len()
                    }
                    }
                },
            },
    {
        let w = match self.find_workspace(access_key) {
            Some(w) => w,
            None => return Err(RealError::Forbidden),
        };
        let wid = self.workspaces[w].id.clone();
        let mut lag: i128 = 0;
        let mut i: usize = 0;
        while i < self.calendars.len()
            invariant
                self.wf(),
                crate::demo::valid_now(now),
                i <= self.calendars@.len(),
                lag == calendar_lag(self.calendars@.take(i as int), wid@, now),
                0 <= lag <= now - (i64::MIN + 7776000),
            decreases self.calendars@.len() - i,
        {
            proof {
                assert(self.calendars@.take(i + 1).drop_last() =~= self.calendars@.take(i as int));
                assert(self.calendars@.take(i + 1).last() == self.calendars@[i as int]);
            }
            let c = &self.calendars[i];
            if c.workspace_id == wid && c.enabled {
                if let Some(t) = c.next_poll_at {
                    if t <= now {
                        let d = (now as i128) - (t as i128);
                        if d > lag {
                            lag = d;
                        }
                    }
                }
            }
            i = i + 1;
        }
        proof {
            assert(self.calendars@.take(i as int) =~= self.calendars@);
        }
        if lag > i64::MAX as i128 {
            return Err(RealError::Database);
        }
        let lag = lag as i64;
        let ghost pa = needs_attention(self.runs@, wid@);
        let mut unresolved: i64 = 0;
        let mut i: usize = 0;
        proof {
            reveal_with_fuel(Seq::<_>::filter, 1);
            assert(self.classes@.take(0) =~= Seq::<ClassRow>::empty());
        }
        while i < self.classes.len()
            invariant
                pa == needs_attention(self.runs@, wid@),
                self.classes@.len() <= i64::MAX,
                i <= self.classes@.len(),
                unresolved == self.classes@.take(i as int).filter(pa).len(),
            decreases self.classes@.len() - i,
        {
            proof {
                reveal_with_fuel(Seq::<_>::filter, 1);
                assert(self.classes@.take(i + 1).drop_last() =~= self.classes@.take(i as int));
                assert(self.classes@.take(i + 1).last() == self.classes@[i as int]);
                self.classes@.take(i as int).lemma_filter_len(pa);
            }
            if self.classes[i].workspace_id == wid {
                if let Some(k) = self.find_latest_run(&self.classes[i].id) {
                    if self.runs[k].status == RunStatus::Attention {
                        unresolved = unresolved + 1;
                    }
                }
            }
            i = i + 1;
        }
        proof {
            assert(self.classes@.take(i as int) =~= self.classes@);
        }
        let ghost po = offer_in(self.classes@, wid@);
        let ghost pacc = accepted_offer_in(self.classes@, wid@);
        let mut created: i64 = 0;
        let mut accepted: i64 = 0;
        let mut i: usize = 0;
        proof {
            reveal_with_fuel(Seq::<_>::filter, 1);
            assert(self.offers@.take(0) =~= Seq::<SeatOffer>::empty());
        }
        while i < self.offers.len()
            invariant
                po == offer_in(self.classes@, wid@),
                pacc == accepted_offer_in(self.classes@, wid@),
                self.offers@.len() <= i64::MAX,
                i <= self.offers@.len(),
                created == self.offers@.take(i as int).filter(po).len(),
                accepted == self.offers@.take(i as int).filter(pacc).len(),
            decreases self.offers@.len() - i,
        {
            proof {
                reveal_with_fuel(Seq::<_>::filter, 1);
                assert(self.offers@.take(i + 1).drop_last() =~= self.offers@.take(i as int));
                assert(self.offers@.take(i + 1).last() == self.offers@[i as int]);
                self.offers@.take(i as int).lemma_filter_len(po);
                self.offers@.take(i as int).lemma_filter_len(pacc);
            }
            if self.class_in_workspace(&wid, &self.offers[i].class_id) {
                created = created + 1;
                if self.offers[i].status == OfferStatus::Accepted {
                    accepted = accepted + 1;
                }
            }
            i = i + 1;
        }
        proof {
            assert(self.offers@.take(i as int) =~= self.offers@);
        }
        Ok(WorkspaceMetrics {
            calendar_job_lag_seconds: lag,
            unresolved_discrepancies: unresolved,
            offers_created: created,
            offers_accepted: accepted,
        })
    }

    /// Activates the subscription of the workspace that `access_key` opens,
    /// recording billing reference `external_reference` by its digest under
    /// a new random id (a reference already recorded is not recorded again).
    pub fn activate_subscription(&mut self, access_key: &str, external_reference: &str, now: i64) -> (r: Result<Workspace, RealError>)
        requires
            old(self).wf(),
        ensures
            final(self).wf(),
            exists|id: Seq<char>| is_hyphenated_uuid_text(id)
                && #[trigger] activated(*old(self), *final(self), access_key@, external_reference@, now, id, r),
    {
        let id = fresh_id();
        let r = self.activate_subscription_with_id(access_key, external_reference, now, id);
        r
    }

    /// `activate_subscription` with the billing event's id `id` given. The
    /// event is left out when an event with the same reference, or with the
    /// same id, is already recorded.
    pub fn activate_subscription_with_id(&mut self, access_key: &str, external_reference: &str, now: i64, id: String) -> (r: Result<Workspace, RealError>)
        requires
            old(self).wf(),
        ensures
            final(self).wf(),
            activated(*old(self), *final(self), access_key@, external_reference@, now, id@, r),
    {
        proof {
            reveal_strlit("active");
        }
        let w = match self.find_workspace(access_key) {
            Some(w) => w,
            None => return Err(RealError::Forbidden),
        };
        let wid = self.workspaces[w].id.clone();
        let hash = digest(external_reference);
        let mut ignored = false;
        let mut j: usize = 0;
        while j < self.billing.len()
            invariant
                j <= self.billing@.len(),
                !ignored ==> forall|k: int| #![trigger self.billing@[k]] 0 <= k < j
                    ==> self.billing@[k].external_reference_hash@ != hash@ && self.billing@[k].id@ != id@,
                ignored ==> billing_ignored(self.billing@, hash@, id@),
            decreases self.billing@.len() - j,
        {
            if self.billing[j].external_reference_hash == hash || self.billing[j].id == id {
                ignored = true;
                proof {
                    assert(billing_ignored(self.billing@, hash@, id@) ) by {
                        let jj = j as int;
                        assert(0 <= jj < self.billing@.len());
                    }
                }
            }
            j = j + 1;
        }
        let ghost old_self = *self;
        if !ignored {
            self.billing.push(BillingEvent {
                id,
                workspace_id: wid.clone(),
                external_reference_hash: hash,
                status: "active".to_owned(),
                created_at: now,
            });
            proof {
                assert(self.billing@.subrange(0, old_self.billing@.len() as int) =~= old_self.billing@);
            }
        }
        let ghost mid = *self;
        let mut i: usize = 0;
        while i < self.workspaces.len()
            invariant
                self.members == mid.members && self.classes == mid.classes && self.bookings == mid.bookings,
                self.waitlist == mid.waitlist && self.offers == mid.offers && self.runs == mid.runs,
                self.calendars == mid.calendars && self.outbox == mid.outbox && self.billing == mid.billing,
                self.workspaces@.len() == old_self.workspaces@.len(),
                i <= self.workspaces@.len(),
                forall|a: int| i <= a < self.workspaces@.len() ==> #[trigger] self.workspaces@[a] == old_self.workspaces@[a],
                forall|a: int| 0 <= a < i ==> {
                    let o = #[trigger] old_self.workspaces@[a];
                    let n = self.workspaces@[a];
                    if o.id@ == wid@ {
                        n.subscription_status@ == "active"@ && n.id == o.id && n.school_name == o.school_name
                            && n.access_key_hash == o.access_key_hash && n.created_at == o.created_at
                            && n.trial_ends_at == o.trial_ends_at
                    } else {
                        n == o
                    }
                },
            decreases self.workspaces@.len() - i,
        {
            if self.workspaces[i].id == wid {
                self.workspaces[i].subscription_status = "active".to_owned();
            }
            i = i + 1;
        }
        self.workspace_from_key(access_key)
    }
}

impl SchoolLedger {
    /// `tables` as a ledger, when they are well formed; `None` when a seat
    /// count, an id, a poll time or an attempt count breaks the rules.
    pub fn restore(tables: SchoolLedger) -> (r: Option<SchoolLedger>)
        ensures
            match r {
                Some(l) => l.wf() && l == tables,
                None => !tables.wf(),
            },
    {
        let mut i: usize = 0;
        while i < tables.classes.len()
            invariant
                i <= tables.classes@.len(),
                forall|k: int| 0 <= k < i ==> class_seats_ok(#[trigger] tables.classes@[k]),
            decreases tables.classes@.len() - i,
        {
            let c = tables.classes[i].confirmed;
            if !(0 <= c && (c <= tables.classes[i].capacity || c == 0)) {
                proof {
                    if tables.wf() {
                        assert(class_seats_ok(tables.classes@[i as int]));
                    }
                }
                return None;
            }
            i = i + 1;
        }
        let mut i: usize = 0;
        while i < tables.calendars.len()
            invariant
                i <= tables.calendars@.len(),
                forall|k: int| 0 <= k < i ==> ((#[trigger] tables.calendars@[k]).next_poll_at matches Some(t) ==> t >= i64::MIN + 7776000),
            decreases tables.calendars@.len() - i,
        {
            if let Some(t) = tables.calendars[i].next_poll_at {
                if t < i64::MIN + 7776000 {
                    proof {
                        if tables.wf() {
                            assert(tables.calendars@[i as int].next_poll_at matches Some(t) ==> t >= i64::MIN + 7776000);
                        }
                    }
                    return None;
                }
            }
            i = i + 1;
        }
        let mut i: usize = 0;
        while i < tables.outbox.len()
            invariant
                i <= tables.outbox@.len(),
                forall|k: int| 0 <= k < i ==> 0 <= (#[trigger] tables.outbox@[k]).attempts,
            decreases tables.outbox@.len() - i,
        {
            if tables.outbox[i].attempts < 0 {
                proof {
                    if tables.wf() {
                        assert(0 <= tables.outbox@[i as int].attempts);
                    }
                }
                return None;
            }
            i = i + 1;
        }
        let mut ids: Vec<String> = Vec::new();
        let mut k: usize = 0;
        while k < tables.classes.len()
            invariant
                k <= tables.classes@.len(),
                ids@.len() == k,
                forall|a: int| 0 <= a < k ==> (#[trigger] ids@[a])@ == tables.classes@[a].id@,
            decreases tables.classes@.len() - k,
        {
            ids.push(tables.classes[k].id.clone());
            k = k + 1;
        }
        if !crate::seqs::distinct_texts(&ids) {
            proof {
                let (a, b) = choose|a: int, b: int| 0 <= a < b < ids@.len() && (#[trigger] ids@[a])@ == (#[trigger] ids@[b])@;
                if tables.wf() {
                    assert((class_key())(tables.classes@[a]) != (class_key())(tables.classes@[b]));
                }
            }
            return None;
        }
        proof {
            assert forall|a: int, b: int| 0 <= a < b < tables.classes@.len() implies
                (class_key())(#[trigger] tables.classes@[a]) != (class_key())(#[trigger] tables.classes@[b]) by {
                assert(ids@[a]@ != ids@[b]@);
            }
        }
        let mut ids: Vec<String> = Vec::new();
        let mut k: usize = 0;
        while k < tables.bookings.len()
            invariant
                k <= tables.bookings@.len(),
                ids@.len() == k,
                forall|a: int| 0 <= a < k ==> (#[trigger] ids@[a])@ == tables.bookings@[a].id@,
            decreases tables.bookings@.len() - k,
        {
            ids.push(tables.bookings[k].id.clone());
            k = k + 1;
        }
        if !crate::seqs::distinct_texts(&ids) {
            proof {
                let (a, b) = choose|a: int, b: int| 0 <= a < b < ids@.len() && (#[trigger] ids@[a])@ == (#[trigger] ids@[b])@;
                if tables.wf() {
                    assert((booking_key())(tables.bookings@[a]) != (booking_key())(tables.bookings@[b]));
                }
            }
            return None;
        }
        proof {
            assert forall|a: int, b: int| 0 <= a < b < tables.bookings@.len() implies
                (booking_key())(#[trigger] tables.bookings@[a]) != (booking_key())(#[trigger] tables.bookings@[b]) by {
                assert(ids@[a]@ != ids@[b]@);
            }
        }
        let mut ids: Vec<String> = Vec::new();
        let mut k: usize = 0;
        while k < tables.waitlist.len()
            invariant
                k <= tables.waitlist@.len(),
                ids@.len() == k,
                forall|a: int| 0 <= a < k ==> (#[trigger] ids@[a])@ == tables.waitlist@[a].id@,
            decreases tables.waitlist@.len() - k,
        {
            ids.push(tables.waitlist[k].id.clone());
            k = k + 1;
        }
        if !crate::seqs::distinct_texts(&ids) {
            proof {
                let (a, b) = choose|a: int, b: int| 0 <= a < b < ids@.len() && (#[trigger] ids@[a])@ == (#[trigger] ids@[b])@;
                if tables.wf() {
                    assert((entry_key())(tables.waitlist@[a]) != (entry_key())(tables.waitlist@[b]));
                }
            }
            return None;
        }
        proof {
            assert forall|a: int, b: int| 0 <= a < b < tables.waitlist@.len() implies
                (entry_key())(#[trigger] tables.waitlist@[a]) != (entry_key())(#[trigger] tables.waitlist@[b]) by {
                assert(ids@[a]@ != ids@[b]@);
            }
        }
        let mut ids: Vec<String> = Vec::new();
        let mut k: usize = 0;
        while k < tables.offers.len()
            invariant
                k <= tables.offers@.len(),
                ids@.len() == k,
                forall|a: int| 0 <= a < k ==> (#[trigger] ids@[a])@ == tables.offers@[a].id@,
            decreases tables.offers@.len() - k,
        {
            ids.push(tables.offers[k].id.clone());
            k = k + 1;
        }
        if !crate::seqs::distinct_texts(&ids) {
            proof {
                let (a, b) = choose|a: int, b: int| 0 <= a < b < ids@.len() && (#[trigger] ids@[a])@ == (#[trigger] ids@[b])@;
                if tables.wf() {
                    assert((offer_key())(tables.offers@[a]) != (offer_key())(tables.offers@[b]));
                }
            }
            return None;
        }
        proof {
            assert forall|a: int, b: int| 0 <= a < b < tables.offers@.len() implies
                (offer_key())(#[trigger] tables.offers@[a]) != (offer_key())(#[trigger] tables.offers@[b]) by {
                assert(ids@[a]@ != ids@[b]@);
            }
        }
        Some(tables)
    }
}

} // verus!
