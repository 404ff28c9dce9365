//! What the listings, counters, receipts and seat offers show, stated over
//! all inputs in terms of the stored rows.
use vstd::prelude::*;
use crate::demo::{shows_session, DemoSession};
use crate::feeds::{receipt_delivery, shows_receipt};
use crate::metrics::{bumped, RouteMetrics};
use crate::records::{availability_spec, Availability, ClassSession, OfferReceipt, RealClass, ReleaseResult, RealError};
use crate::school::{
    booking_earlier, calendar_lag, confirmed_in, BookingStatus, CalendarFeed, SeatBooking, entry_earlier, latest_run, needs_attention, not_older, released, released_oldest, run_of, shows_class, waiting_in,
    ClassRow, DeliveryStatus, OfferStatus, ReconciliationRun, RunStatus, SchoolLedger, SeatOffer, WaitlistEntry, WaitlistStatus,
};
use crate::seqs::{lemma_pick_greatest, lemma_pick_least, pick};

verus! {

/// A class is full exactly when its confirmed seats reach its capacity;
/// otherwise it is open for booking before its cutoff and closed from the
/// cutoff on.
pub proof fn lemma_availability_rules(capacity: i64, confirmed: i64, cutoff: i64, now: i64)
    ensures
        (availability_spec(capacity, confirmed, cutoff, now) == Availability::Full) == (confirmed >= capacity),
        confirmed < capacity && now < cutoff ==> availability_spec(capacity, confirmed, cutoff, now) == Availability::Available,
        confirmed < capacity && cutoff <= now ==> availability_spec(capacity, confirmed, cutoff, now) == Availability::Cutoff,
{
}

/// In every listing of a sample class, the class shows as full exactly
/// when it shows no open seat, and as available when it shows an open seat
/// and its cutoff is still ahead.
pub proof fn lemma_sample_listing_agrees(c: ClassSession, s: DemoSession, now: i64)
    requires
        shows_session(c, s, now),
    ensures
        (c.availability == Availability::Full) == (c.open_seats <= 0),
        c.open_seats > 0 && now < c.booking_cutoff ==> c.availability == Availability::Available,
{
    lemma_availability_rules(s.capacity, s.confirmed, s.booking_cutoff, now);
}

/// Likewise in every listing of a school class.
pub proof fn lemma_school_listing_agrees(c: RealClass, row: ClassRow, run: Option<ReconciliationRun>, now: i64)
    requires
        shows_class(c, row, run, now),
    ensures
        (c.availability == Availability::Full) == (c.open_seats <= 0),
        c.open_seats > 0 && now < c.booking_cutoff ==> c.availability == Availability::Available,
{
    lemma_availability_rules(row.capacity, row.confirmed, row.booking_cutoff, now);
}

/// A request answered with any status from 500 to 599 raises its route's
/// server-error count by one (held at the largest count); any other status
/// leaves it. Every request raises the request count the same way.
pub proof fn lemma_server_errors_counted(m: RouteMetrics, status: u16, ms: u64)
    ensures
        500 <= status <= 599 ==> bumped(m, status, ms).server_errors
            == (if m.server_errors == u64::MAX { u64::MAX } else { (m.server_errors + 1) as u64 }),
        !(500 <= status <= 599) ==> bumped(m, status, ms).server_errors == m.server_errors,
        bumped(m, status, ms).requests == (if m.requests == u64::MAX { u64::MAX } else { (m.requests + 1) as u64 }),
        bumped(m, status, ms).total_latency_ms
            == (if m.total_latency_ms + ms > u64::MAX { u64::MAX } else { (m.total_latency_ms + ms) as u64 }),
        bumped(m, status, ms).max_latency_ms == (if ms > m.max_latency_ms { ms } else { m.max_latency_ms }),
{
}

/// Run `i` is the one that class `class_id` shows: a run of the class whose
/// `created_at` is the latest, with no later-stored run of the class created
/// at the same instant.
pub open spec fn is_latest_run(runs: Seq<ReconciliationRun>, class_id: Seq<char>, i: int) -> bool {
    &&& 0 <= i < runs.len() && runs[i].class_id@ == class_id
    &&& forall|j: int| 0 <= j < runs.len() && #[trigger] runs[j].class_id@ == class_id ==> runs[j].created_at <= runs[i].created_at
    &&& forall|j: int| i < j < runs.len() && #[trigger] runs[j].class_id@ == class_id ==> runs[j].created_at < runs[i].created_at
}

/// The run a class shows is its latest run, and there is at most one.
pub proof fn lemma_latest_run_is_latest(runs: Seq<ReconciliationRun>, class_id: Seq<char>)
    ensures
        match latest_run(runs, class_id) {
            Some(r) => exists|i: int| is_latest_run(runs, class_id, i) && r == runs[i],
            None => forall|j: int| 0 <= j < runs.len() ==> (#[trigger] runs[j]).class_id@ != class_id,
        },
        forall|i: int, k: int| is_latest_run(runs, class_id, i) && is_latest_run(runs, class_id, k) ==> i == k,
{
    let key = |r: ReconciliationRun| r.created_at as int;
    assert forall|a: ReconciliationRun, b: ReconciliationRun| #[trigger] (not_older())(a, b) == (key(a) >= key(b)) by {}
    lemma_pick_greatest(runs, run_of(class_id), not_older(), key);
    match pick(runs, run_of(class_id), not_older()) {
        Some(p) => {
            assert(is_latest_run(runs, class_id, p)) by {
                assert forall|j: int| 0 <= j < runs.len() && #[trigger] runs[j].class_id@ == class_id implies
                    runs[j].created_at <= runs[p].created_at by {
                    assert((run_of(class_id))(runs[j]));
                }
                assert forall|j: int| p < j < runs.len() && #[trigger] runs[j].class_id@ == class_id implies
                    runs[j].created_at < runs[p].created_at by {
                    assert((run_of(class_id))(runs[j]));
                }
            }
        },
        None => {
            assert forall|j: int| 0 <= j < runs.len() implies (#[trigger] runs[j]).class_id@ != class_id by {
                assert(!(run_of(class_id))(runs[j]));
            }
        },
    }
    assert forall|i: int, k: int| is_latest_run(runs, class_id, i) && is_latest_run(runs, class_id, k) implies i == k by {
        if i < k {
            assert(runs[k].class_id@ == class_id);
        } else if k < i {
            assert(runs[i].class_id@ == class_id);
        }
    }
}

/// The classes of workspace `wid` counted as unresolved discrepancies: those
/// whose latest reconciliation run needs attention.
pub open spec fn latest_needs_attention(runs: Seq<ReconciliationRun>, wid: Seq<char>) -> spec_fn(ClassRow) -> bool {
    |c: ClassRow| c.workspace_id@ == wid
        && exists|i: int| is_latest_run(runs, c.id@, i) && #[trigger] runs[i].status == RunStatus::Attention
}

/// Unresolved discrepancies (as `workspace_operational_metrics` counts
/// them) are exactly the workspace's classes whose latest run needs
/// attention: a class whose latest run matched is not counted, nor one never
/// reconciled.
pub proof fn lemma_unresolved_means_latest_attention(runs: Seq<ReconciliationRun>, wid: Seq<char>)
    ensures
        needs_attention(runs, wid) == latest_needs_attention(runs, wid),
{
    assert forall|c: ClassRow| #[trigger] (needs_attention(runs, wid))(c) == (latest_needs_attention(runs, wid))(c) by {
        lemma_latest_run_is_latest(runs, c.id@);
        if (latest_needs_attention(runs, wid))(c) {
            let i = choose|i: int| is_latest_run(runs, c.id@, i) && #[trigger] runs[i].status == RunStatus::Attention;
            match latest_run(runs, c.id@) {
                Some(r) => {
                    let k = choose|k: int| is_latest_run(runs, c.id@, k) && r == runs[k];
                    assert(i == k);
                },
                None => {
                    assert(runs[i].class_id@ == c.id@);
                },
            }
        }
        if (needs_attention(runs, wid))(c) {
            let r = latest_run(runs, c.id@)->0;
            let k = choose|k: int| is_latest_run(runs, c.id@, k) && r == runs[k];
            assert(runs[k].status == RunStatus::Attention);
        }
    }
    assert(needs_attention(runs, wid) =~= latest_needs_attention(runs, wid));
}

/// A receipt of an accepted offer shows `accepted`; of any other offer
/// whose expiry has come, `expired`; otherwise the stored delivery.
pub proof fn lemma_receipt_delivery_rules(o: SeatOffer, now: i64)
    ensures
        o.status == OfferStatus::Accepted ==> receipt_delivery(o, now) == "accepted"@,
        o.status != OfferStatus::Accepted && o.expires_at <= now ==> receipt_delivery(o, now) == "expired"@,
        o.status != OfferStatus::Accepted && now < o.expires_at ==> receipt_delivery(o, now)
            == (if o.delivery_status == DeliveryStatus::EmailQueued { "email_queued"@ } else { "ready_to_copy"@ }),
{
}

/// Every listed receipt of an offer that was not accepted and whose expiry
/// has come shows `expired`.
pub proof fn lemma_expired_receipt(rc: OfferReceipt, o: SeatOffer, l: SchoolLedger, cipher_key: Seq<u8>, base: Seq<char>, now: i64)
    requires
        shows_receipt(rc, o, l, cipher_key, base, now),
        o.status != OfferStatus::Accepted,
        o.expires_at <= now,
    ensures
        rc.delivery_status@ == "expired"@,
{
    lemma_receipt_delivery_rules(o, now);
}

/// The guardian offered a released seat has waited longest: the new offer
/// goes to a waiting entry of the class whose `created_at` is the least
/// among the class's waiting entries (the first stored of those on a tie).
pub proof fn lemma_offer_goes_to_longest_waiting(old: SchoolLedger, new: SchoolLedger, cipher_key: Seq<u8>, base: Seq<char>,
    email_configured: bool, key: Seq<char>, class_id: Seq<char>, booking_id: Seq<char>, now: i64, token: Seq<char>,
    offer_id: Seq<char>, email_id: Seq<char>, r: Result<ReleaseResult, RealError>)
    requires
        released(old, new, cipher_key, base, email_configured, key, class_id, booking_id, now, token, offer_id, email_id, r),
        r matches Ok(res) && res.offer_token is Some,
    ensures
        exists|e: int| #[trigger] longest_waiting(old.waitlist@, class_id, e)
            && new.offers@.last().waitlist_entry_id@ == old.waitlist@[e].id@,
{
    lemma_offer_follows_pick(old, new, cipher_key, base, email_configured, key, class_id, booking_id, now, token, offer_id, email_id, r);
    lemma_longest_waiting_is_picked(old.waitlist@, class_id);
    let e = pick(old.waitlist@, waiting_in(class_id), entry_earlier())->0;
    assert(longest_waiting(old.waitlist@, class_id, e));
}

/// An offer made on release goes to the entry `released` picks.
#[verifier::spinoff_prover]
proof fn lemma_offer_follows_pick(old: SchoolLedger, new: SchoolLedger, cipher_key: Seq<u8>, base: Seq<char>,
    email_configured: bool, key: Seq<char>, class_id: Seq<char>, booking_id: Seq<char>, now: i64, token: Seq<char>,
    offer_id: Seq<char>, email_id: Seq<char>, r: Result<ReleaseResult, RealError>)
    requires
        released(old, new, cipher_key, base, email_configured, key, class_id, booking_id, now, token, offer_id, email_id, r),
        r matches Ok(res) && res.offer_token is Some,
    ensures
        pick(old.waitlist@, waiting_in(class_id), entry_earlier()) matches Some(e)
            && new.offers@.last().waitlist_entry_id@ == old.waitlist@[e].id@,
{
}

/// Entry `e` of `w` has waited longest for class `class_id`: it is waiting
/// for the class, no waiting entry of the class was created before it, and
/// it is the first stored of those created at its instant.
#[verifier::opaque]
pub open spec fn longest_waiting(w: Seq<WaitlistEntry>, class_id: Seq<char>, e: int) -> bool {
    &&& 0 <= e < w.len()
    &&& w[e].class_id@ == class_id && w[e].status == WaitlistStatus::Waiting
    &&& forall|j: int| 0 <= j < w.len() && (#[trigger] w[j]).class_id@ == class_id
        && w[j].status == WaitlistStatus::Waiting ==> w[e].created_at <= w[j].created_at
    &&& forall|j: int| 0 <= j < e && (#[trigger] w[j]).class_id@ == class_id
        && w[j].status == WaitlistStatus::Waiting ==> w[e].created_at < w[j].created_at
}

/// The waiting entry that a released seat goes to, as `released` picks it:
/// a waiting entry of the class with the least `created_at`, the first
/// stored of those on a tie.
pub proof fn lemma_longest_waiting_is_picked(w: Seq<WaitlistEntry>, class_id: Seq<char>)
    ensures
        match pick(w, waiting_in(class_id), entry_earlier()) {
            Some(e) => longest_waiting(w, class_id, e),
            None => forall|j: int| 0 <= j < w.len() ==>
                !((#[trigger] w[j]).class_id@ == class_id && w[j].status == WaitlistStatus::Waiting),
        },
{
    reveal(longest_waiting);
    let k = |x: WaitlistEntry| x.created_at as int;
    assert forall|a: WaitlistEntry, b: WaitlistEntry| #[trigger] (entry_earlier())(a, b) == (k(a) < k(b)) by {}
    lemma_pick_least(w, waiting_in(class_id), entry_earlier(), k);
    match pick(w, waiting_in(class_id), entry_earlier()) {
        Some(e) => {
            assert forall|j: int| 0 <= j < w.len() && (#[trigger] w[j]).class_id@ == class_id
                && w[j].status == WaitlistStatus::Waiting implies w[e].created_at <= w[j].created_at by {
                assert((waiting_in(class_id))(w[j]));
            }
            assert forall|j: int| 0 <= j < e && (#[trigger] w[j]).class_id@ == class_id
                && w[j].status == WaitlistStatus::Waiting implies w[e].created_at < w[j].created_at by {
                assert((waiting_in(class_id))(w[j]));
            }
        },
        None => {
            assert forall|j: int| 0 <= j < w.len() implies
                !((#[trigger] w[j]).class_id@ == class_id && w[j].status == WaitlistStatus::Waiting) by {
                assert(!(waiting_in(class_id))(w[j]));
            }
        },
    }
}

/// Releasing the oldest booking offers the seat the same way.
pub proof fn lemma_oldest_release_goes_to_longest_waiting(old: SchoolLedger, new: SchoolLedger, cipher_key: Seq<u8>, base: Seq<char>,
    email_configured: bool, key: Seq<char>, class_id: Seq<char>, now: i64, token: Seq<char>,
    offer_id: Seq<char>, email_id: Seq<char>, r: Result<ReleaseResult, RealError>)
    requires
        released_oldest(old, new, cipher_key, base, email_configured, key, class_id, now, token, offer_id, email_id, r),
        r matches Ok(res) && res.offer_token is Some,
    ensures
        exists|e: int| #[trigger] longest_waiting(old.waitlist@, class_id, e)
            && new.offers@.last().waitlist_entry_id@ == old.waitlist@[e].id@,
{
    let b = pick(old.bookings@, crate::school::confirmed_in(class_id), crate::school::booking_earlier())->0;
    lemma_offer_goes_to_longest_waiting(old, new, cipher_key, base, email_configured, key, class_id,
        old.bookings@[b].id@, now, token, offer_id, email_id, r);
}

/// The booking that releasing the oldest booking of a class cancels is a
/// confirmed booking of the class with the least `created_at` (the first
/// stored of those on a tie); there is none only when the class has no
/// confirmed booking.
pub proof fn lemma_oldest_booking_is_oldest(bookings: Seq<SeatBooking>, class_id: Seq<char>)
    ensures
        match pick(bookings, confirmed_in(class_id), booking_earlier()) {
            Some(b) => {
                &&& 0 <= b < bookings.len()
                &&& bookings[b].class_id@ == class_id && bookings[b].status == BookingStatus::Confirmed
                &&& forall|j: int| 0 <= j < bookings.len() && (#[trigger] bookings[j]).class_id@ == class_id
                    && bookings[j].status == BookingStatus::Confirmed ==> bookings[b].created_at <= bookings[j].created_at
                &&& forall|j: int| 0 <= j < b && (#[trigger] bookings[j]).class_id@ == class_id
                    && bookings[j].status == BookingStatus::Confirmed ==> bookings[b].created_at < bookings[j].created_at
            },
            None => forall|j: int| 0 <= j < bookings.len() ==>
                !((#[trigger] bookings[j]).class_id@ == class_id && bookings[j].status == BookingStatus::Confirmed),
        },
{
    let k = |x: SeatBooking| x.created_at as int;
    assert forall|a: SeatBooking, c: SeatBooking| #[trigger] (booking_earlier())(a, c) == (k(a) < k(c)) by {}
    lemma_pick_least(bookings, confirmed_in(class_id), booking_earlier(), k);
    match pick(bookings, confirmed_in(class_id), booking_earlier()) {
        Some(b) => {
            assert forall|j: int| 0 <= j < bookings.len() && (#[trigger] bookings[j]).class_id@ == class_id
                && bookings[j].status == BookingStatus::Confirmed implies bookings[b].created_at <= bookings[j].created_at by {
                assert((confirmed_in(class_id))(bookings[j]));
            }
            assert forall|j: int| 0 <= j < b && (#[trigger] bookings[j]).class_id@ == class_id
                && bookings[j].status == BookingStatus::Confirmed implies bookings[b].created_at < bookings[j].created_at by {
                assert((confirmed_in(class_id))(bookings[j]));
            }
        },
        None => {
            assert forall|j: int| 0 <= j < bookings.len() implies
                !((#[trigger] bookings[j]).class_id@ == class_id && bookings[j].status == BookingStatus::Confirmed) by {
                assert(!(confirmed_in(class_id))(bookings[j]));
            }
        },
    }
}

/// How late the workspace's calendar checks are: never negative, at least
/// how late each due enabled feed of the workspace is, and, when positive,
/// exactly how late one of them is.
pub proof fn lemma_calendar_lag_is_largest(cals: Seq<CalendarFeed>, wid: Seq<char>, now: i64)
    ensures
        calendar_lag(cals, wid, now) >= 0,
        forall|j: int| 0 <= j < cals.len() && (#[trigger] cals[j]).workspace_id@ == wid && cals[j].enabled
            && (cals[j].next_poll_at matches Some(t) && t <= now) ==> calendar_lag(cals, wid, now) >= now - cals[j].next_poll_at->0,
        calendar_lag(cals, wid, now) > 0 ==> exists|j: int| 0 <= j < cals.len() && (#[trigger] cals[j]).workspace_id@ == wid
            && cals[j].enabled && (cals[j].next_poll_at matches Some(t) && t <= now)
            && calendar_lag(cals, wid, now) == now - cals[j].next_poll_at->0,
    decreases cals.len(),
{
    if cals.len() > 0 {
        let d = cals.drop_last();
        lemma_calendar_lag_is_largest(d, wid, now);
        assert forall|j: int| 0 <= j < cals.len() - 1 implies #[trigger] cals[j] == d[j] by {}
        if calendar_lag(cals, wid, now) > 0 && calendar_lag(cals, wid, now) == calendar_lag(d, wid, now) {
            let j = choose|j: int| 0 <= j < d.len() && (#[trigger] d[j]).workspace_id@ == wid
                && d[j].enabled && (d[j].next_poll_at matches Some(t) && t <= now)
                && calendar_lag(d, wid, now) == now - d[j].next_poll_at->0;
            assert(cals[j] == d[j]);
        }
    }
}

} // verus!
