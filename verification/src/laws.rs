//! Properties of the ledgers that span operations.
use vstd::prelude::*;
use crate::demo::{class_of, seat_booked, lemma_repeat_finds_booking, live_at, DemoSession, records_booking, repeats, DemoLedger, DemoTenant, DEMO_TTL_SECONDS};
use crate::school::{open_offer, records_seat, OfferStatus, SchoolLedger, SeatOffer, ClassRow};
use crate::seqs::{first_match, lemma_first_match, lemma_first_match_at, lemma_first_match_none};
use crate::records::{BookingError, BookingResult};

verus! {

/// No class is ever overbooked: in every well-formed school ledger each
/// class has no negative count and no more confirmed seats than capacity
/// (a class without seats has none confirmed).
pub proof fn lemma_school_seats_within_capacity(l: SchoolLedger, i: int)
    requires
        l.wf(),
        0 <= i < l.classes@.len(),
    ensures
        0 <= l.classes@[i].confirmed,
        l.classes@[i].confirmed <= l.classes@[i].capacity || l.classes@[i].confirmed == 0,
{
}

/// No sample class is ever overbooked either.
pub proof fn lemma_demo_seats_within_capacity(l: DemoLedger, i: int)
    requires
        l.wf(),
        0 <= i < l.sessions@.len(),
    ensures
        0 <= l.sessions@[i].confirmed,
        l.sessions@[i].confirmed <= l.sessions@[i].capacity || l.sessions@[i].confirmed == 0,
{
    assert(crate::demo::seats_ok(l.sessions@[i].capacity, l.sessions@[i].confirmed));
}

/// A demo booking, once recorded under idempotency key `key` for tenant `t`,
/// is what any later request of `t` with the same key gets back: in a
/// well-formed ledger the repeat that `book_seat` looks for is this very
/// booking, so repeating the request books nothing more.
pub proof fn lemma_booking_is_repeat(l: DemoLedger, id: Seq<char>, t: Seq<char>, session: Seq<char>, key: Seq<char>, now: i64)
    requires
        l.wf(),
        l.bookings@.len() > 0,
        records_booking(l.bookings@.last(), id, t, session, key, now),
    ensures
        first_match(l.bookings@, repeats(l.sessions@, t, key)) == Some(l.bookings@.len() - 1),
{
    lemma_repeat_finds_booking(l, l.bookings@.len() - 1);
}

/// The last seat goes once: when a sample class of tenant `t` has exactly
/// one open seat and its cutoff is still ahead, two bookings in turn under
/// two different keys not used before give one booking and one `Full`, and
/// the class ends full.
pub proof fn lemma_last_seat_goes_once(l0: DemoLedger, l1: DemoLedger, l2: DemoLedger, t: Seq<char>, p: Seq<char>,
    k1: Seq<char>, k2: Seq<char>, now: i64, r1: Result<BookingResult, BookingError>, r2: Result<BookingResult, BookingError>)
    requires
        l0.wf(),
        seat_booked(l0, l1, t, p, k1, now, r1),
        seat_booked(l1, l2, t, p, k2, now, r2),
        k1 != k2,
        first_match(l0.bookings@, crate::demo::repeats(l0.sessions@, t, k1)) is None,
        first_match(l0.bookings@, crate::demo::repeats(l0.sessions@, t, k2)) is None,
        first_match(l0.sessions@, class_of(t, p)) matches Some(i)
            && l0.sessions@[i].confirmed + 1 == l0.sessions@[i].capacity
            && l0.sessions@[i].booking_cutoff > now,
    ensures
        r1 matches Ok(res) && !res.repeated,
        r2 == Err::<BookingResult, BookingError>(BookingError::Full),
        l2 == l1,
        first_match(l1.sessions@, class_of(t, p)) matches Some(j)
            && l1.sessions@[j].confirmed == l1.sessions@[j].capacity,
{
    let i = first_match(l0.sessions@, class_of(t, p))->0;
    let n = l0.bookings@.len();
    lemma_first_match(l0.sessions@, class_of(t, p));
    assert forall|j: int| 0 <= j < i implies !(class_of(t, p))(#[trigger] l1.sessions@[j]) by {
        assert(l1.sessions@[j] == l0.sessions@[j]);
    }
    assert((class_of(t, p))(l1.sessions@[i]));
    lemma_first_match_at(l1.sessions@, class_of(t, p), i);
    lemma_first_match(l0.bookings@, crate::demo::repeats(l0.sessions@, t, k2));
    assert forall|j: int| 0 <= j < l1.bookings@.len() implies !(crate::demo::repeats(l1.sessions@, t, k2))(#[trigger] l1.bookings@[j]) by {
        if j < n {
            assert(l1.bookings@[j] == l0.bookings@.subrange(0, n as int)[j]);
            crate::demo::lemma_stored_class_found(l0.sessions@, l0.bookings@[j]);
            assert(!(crate::demo::repeats(l0.sessions@, t, k2))(l0.bookings@[j]));
        } else {
            assert(l1.bookings@[j] == l1.bookings@.last());
        }
    }
    lemma_first_match_none(l1.bookings@, crate::demo::repeats(l1.sessions@, t, k2));
}

/// Two sample classes that differ at most in their random ids.
pub open spec fn same_but_ids(a: DemoSession, b: DemoSession) -> bool {
    &&& a.demo_tenant_id@ == b.demo_tenant_id@
    &&& a.name@ == b.name@
    &&& a.starts_at == b.starts_at
    &&& a.booking_cutoff == b.booking_cutoff
    &&& a.timezone@ == b.timezone@
    &&& a.capacity == b.capacity
    &&& a.confirmed == b.confirmed
    &&& a.sort_order == b.sort_order
}

/// Resetting a demo gives what opening it gives when the tenant is absent
/// or expired (`create_or_refresh_demo` reseeds exactly then, `reset_demo`
/// always): any two ledgers reseeded from one ledger for one tenant at one
/// instant hold the same tenants and bookings, and the same classes but for
/// their random ids.
pub proof fn lemma_reset_matches_create(old: DemoLedger, a: DemoLedger, b: DemoLedger, t: Seq<char>, now: i64)
    requires
        a.reseeded(&old, t, now),
        b.reseeded(&old, t, now),
    ensures
        a.tenants@.len() == b.tenants@.len(),
        forall|i: int| 0 <= i < a.tenants@.len() ==> #[trigger] a.tenants@[i].id@ == b.tenants@[i].id@
            && a.tenants@[i].created_at == b.tenants@[i].created_at && a.tenants@[i].expires_at == b.tenants@[i].expires_at,
        a.bookings@ == b.bookings@,
        a.sessions@.len() == b.sessions@.len(),
        forall|i: int| 0 <= i < a.sessions@.len() ==> same_but_ids(#[trigger] a.sessions@[i], b.sessions@[i]),
{
    let kept = old.tenants@.filter(crate::demo::not_tenant(t));
    let ks = old.sessions@.filter(crate::demo::not_tenant_session(t));
    assert forall|i: int| 0 <= i < a.tenants@.len() implies #[trigger] a.tenants@[i].id@ == b.tenants@[i].id@
        && a.tenants@[i].created_at == b.tenants@[i].created_at && a.tenants@[i].expires_at == b.tenants@[i].expires_at by {
        if i < kept.len() {
            assert(a.tenants@.subrange(0, kept.len() as int)[i] == b.tenants@.subrange(0, kept.len() as int)[i]);
        }
    }
    assert forall|i: int| 0 <= i < a.sessions@.len() implies same_but_ids(#[trigger] a.sessions@[i], b.sessions@[i]) by {
        if i < ks.len() {
            assert(a.sessions@.subrange(0, ks.len() as int)[i] == b.sessions@.subrange(0, ks.len() as int)[i]);
        } else {
            let k = i - ks.len();
            assert(crate::demo::seeded(a.sessions@[ks.len() + k], t, now, k));
            assert(crate::demo::seeded(b.sessions@[ks.len() + k], t, now, k));
        }
    }
}

/// Resetting a demo, whatever state its tenant is in, gives what opening
/// the demo gives once the tenant is gone: a ledger reseeded from `old` and
/// one reseeded from `old` with tenant `t` removed (where
/// `create_or_refresh_demo` reseeds, the tenant being absent) hold the same
/// tenants and bookings, and the same classes but for their random ids.
pub proof fn lemma_reset_matches_fresh_create(old: DemoLedger, gone: DemoLedger, a: DemoLedger, b: DemoLedger, t: Seq<char>, now: i64)
    requires
        gone.without_tenant(&old, t),
        a.reseeded(&old, t, now),
        b.reseeded(&gone, t, now),
    ensures
        a.tenants@.len() == b.tenants@.len(),
        forall|i: int| 0 <= i < a.tenants@.len() ==> #[trigger] a.tenants@[i].id@ == b.tenants@[i].id@
            && a.tenants@[i].created_at == b.tenants@[i].created_at && a.tenants@[i].expires_at == b.tenants@[i].expires_at,
        a.bookings@ == b.bookings@,
        a.sessions@.len() == b.sessions@.len(),
        forall|i: int| 0 <= i < a.sessions@.len() ==> same_but_ids(#[trigger] a.sessions@[i], b.sessions@[i]),
{
    crate::seqs::lemma_filter_twice(old.tenants@, crate::demo::not_tenant(t));
    crate::seqs::lemma_filter_twice(old.sessions@, crate::demo::not_tenant_session(t));
    crate::seqs::lemma_filter_twice(old.bookings@, crate::demo::not_tenant_booking(t));
    assert(b.reseeded(&old, t, now));
    lemma_reset_matches_create(old, a, b, t, now);
}

/// An accepted released-seat offer is spent: once offer `oi` is marked
/// accepted, it never again counts as the open offer for any token, whatever
/// the classes, so accepting the same link twice cannot take a second seat.
pub proof fn lemma_accepted_offer_is_spent(offers: Seq<SeatOffer>, classes: Seq<ClassRow>, hash: Seq<char>, oi: int)
    requires
        0 <= oi < offers.len(),
    ensures
        first_match(offers.update(oi, SeatOffer { status: OfferStatus::Accepted, ..offers[oi] }), open_offer(hash, classes)) != Some(oi),
{
    let after = offers.update(oi, SeatOffer { status: OfferStatus::Accepted, ..offers[oi] });
    lemma_first_match(after, open_offer(hash, classes));
    assert(!(open_offer(hash, classes))(after[oi]));
}

/// A school booking, once recorded under idempotency key `key` for class
/// `class_id`, is what any later request with the same key finds: the
/// repeated request takes no second seat.
pub proof fn lemma_real_booking_is_repeat(l: SchoolLedger, cipher_key: Seq<u8>, class_id: Seq<char>, key: Seq<char>, name: Seq<char>, email: Seq<char>, now: i64)
    requires
        l.bookings@.len() > 0,
        records_seat(l.bookings@.last(), cipher_key, class_id, key, name, email, now),
    ensures
        exists|j: int| 0 <= j < l.bookings@.len() && #[trigger] l.bookings@[j].class_id@ == class_id
            && l.bookings@[j].idempotency_key@ == key,
{
    let j = l.bookings@.len() - 1;
    assert(l.bookings@[j].class_id@ == class_id);
}

/// A demo workspace lives exactly one day: a tenant created at `t` is still
/// live a second before `t + 86400` and expired from that instant on.
pub proof fn lemma_demo_lives_one_day(d: DemoTenant, t: i64)
    requires
        d.created_at == t,
        d.expires_at == t + DEMO_TTL_SECONDS,
        crate::demo::seedable_at(t),
    ensures
        (live_at((t + 86399) as i64))(d),
        !(live_at((t + 86400) as i64))(d),
{
}

} // verus!
