//! The cookie-scoped sample ledger: each visitor's demo tenant owns three
//! seeded classes and their one-seat bookings.
use vstd::prelude::*;
use crate::ids::{fresh_id, opaque_id};
use crate::records::{availability_at, availability_spec, BookingError, BookingResult, ClassSession};
use crate::seqs::{first_match, lemma_first_match_at, lemma_first_match_none, lemma_filter_pairwise, retain_flagged};

verus! {

/// Seconds a demo tenant lives.
pub const DEMO_TTL_SECONDS: i64 = 86400;

/// Instants (Unix seconds) that the ledger's date arithmetic can take
/// without overflow.
pub open spec fn valid_now(now: i64) -> bool {
    i64::MIN + 7776000 <= now && now <= i64::MAX - 7776000
}

/// Instants at which sample classes can be seeded: the seeds reach from an
/// hour before `now` to a week after it.
pub open spec fn seedable_at(now: i64) -> bool {
    i64::MIN + 3600 <= now && now <= i64::MAX - 604800
}

/// A demo tenant (one per cookie).
pub struct DemoTenant {
    pub id: String,
    pub created_at: i64,
    pub expires_at: i64,
}

/// A seeded sample class of a demo tenant.
pub struct DemoSession {
    pub id: String,
    pub demo_tenant_id: String,
    pub public_id: String,
    pub name: String,
    pub starts_at: i64,
    pub booking_cutoff: i64,
    pub timezone: String,
    pub capacity: i64,
    pub confirmed: i64,
    pub sort_order: i64,
}

/// A demo booking. Guardian input is never retained.
pub struct DemoBooking {
    pub id: String,
    pub demo_tenant_id: String,
    pub class_session_id: String,
    pub idempotency_key: String,
    pub guardian_name: String,
    pub guardian_email: String,
    pub created_at: i64,
}

/// The demo tables.
pub struct DemoLedger {
    pub tenants: Vec<DemoTenant>,
    pub sessions: Vec<DemoSession>,
    pub bookings: Vec<DemoBooking>,
}

/// A seat count that is never negative and never above a non-negative capacity.
pub open spec fn seats_ok(capacity: i64, confirmed: i64) -> bool {
    0 <= confirmed && (confirmed <= capacity || confirmed == 0)
}

pub open spec fn of_tenant(t: Seq<char>) -> spec_fn(DemoSession) -> bool {
    |s: DemoSession| s.demo_tenant_id@ == t
}

pub open spec fn not_tenant_session(t: Seq<char>) -> spec_fn(DemoSession) -> bool {
    |s: DemoSession| s.demo_tenant_id@ != t
}

pub open spec fn not_tenant_booking(t: Seq<char>) -> spec_fn(DemoBooking) -> bool {
    |b: DemoBooking| b.demo_tenant_id@ != t
}

pub open spec fn not_tenant(t: Seq<char>) -> spec_fn(DemoTenant) -> bool {
    |d: DemoTenant| d.id@ != t
}

pub open spec fn sort_related() -> spec_fn(DemoSession, DemoSession) -> bool {
    |a: DemoSession, b: DemoSession| a.demo_tenant_id@ == b.demo_tenant_id@ ==> a.sort_order < b.sort_order
}

/// The name, start offset, cutoff offset, capacity and confirmed seats of
/// each seeded sample class (start and cutoff relative to the seeding instant).
pub open spec fn seed_plan(i: int) -> (Seq<char>, int, int, i64, i64) {
    if i == 0 {
        ("Level check: upper primary"@, 172800int, 86400int, 8, 6)
    } else if i == 1 {
        ("Friday conversation group"@, 259200int, 172800int, 6, 6)
    } else {
        ("Saturday assessment"@, 604800int, -3600int, 10, 4)
    }
}

/// `s` is the `i`-th seeded class of tenant `t`, seeded at `now`.
pub open spec fn seeded(s: DemoSession, t: Seq<char>, now: i64, i: int) -> bool {
    let (name, start, cutoff, capacity, confirmed) = seed_plan(i);
    &&& s.demo_tenant_id@ == t
    &&& s.name@ == name
    &&& s.starts_at == now + start
    &&& s.booking_cutoff == now + cutoff
    &&& s.timezone@ == "Europe/London"@
    &&& s.capacity == capacity
    &&& s.confirmed == confirmed
    &&& s.sort_order == i
    &&& s.public_id@.len() == 37
    &&& s.public_id@.subrange(0, 5) == "demo-"@
}

/// `c` shows sample class `s` at instant `now`.
pub open spec fn shows_session(c: ClassSession, s: DemoSession, now: i64) -> bool {
    &&& c.public_id@ == s.public_id@
    &&& c.name@ == s.name@
    &&& c.starts_at == s.starts_at
    &&& c.booking_cutoff == s.booking_cutoff
    &&& c.timezone@ == s.timezone@
    &&& c.capacity == s.capacity
    &&& c.confirmed == s.confirmed
    &&& c.open_seats == s.capacity - s.confirmed
    &&& c.availability == availability_spec(s.capacity, s.confirmed, s.booking_cutoff, now)
}

/// Tenants still live at `now`.
pub open spec fn live_at(now: i64) -> spec_fn(DemoTenant) -> bool {
    |d: DemoTenant| d.expires_at > now
}

/// Some tenant with id `id` has expired at `now`.
pub open spec fn expired_id(tenants: Seq<DemoTenant>, id: Seq<char>, now: i64) -> bool {
    exists|i: int| 0 <= i < tenants.len() && #[trigger] tenants[i].id@ == id && tenants[i].expires_at <= now
}

pub open spec fn session_survives(tenants: Seq<DemoTenant>, now: i64) -> spec_fn(DemoSession) -> bool {
    |s: DemoSession| !expired_id(tenants, s.demo_tenant_id@, now)
}

pub open spec fn booking_survives(tenants: Seq<DemoTenant>, now: i64) -> spec_fn(DemoBooking) -> bool {
    |b: DemoBooking| !expired_id(tenants, b.demo_tenant_id@, now)
}

/// The sample class `p` of tenant `t`.
pub open spec fn class_of(t: Seq<char>, p: Seq<char>) -> spec_fn(DemoSession) -> bool {
    |s: DemoSession| s.demo_tenant_id@ == t && s.public_id@ == p
}

/// The view of sample class `s` at `now`.
fn session_from_row(s: &DemoSession, now: i64) -> (c: ClassSession)
    requires
        seats_ok(s.capacity, s.confirmed),
    ensures
        shows_session(c, *s, now),
{
    ClassSession {
        public_id: s.public_id.clone(),
        name: s.name.clone(),
        starts_at: s.starts_at,
        booking_cutoff: s.booking_cutoff,
        timezone: s.timezone.clone(),
        capacity: s.capacity,
        confirmed: s.confirmed,
        open_seats: s.capacity - s.confirmed,
        availability: availability_at(s.capacity, s.confirmed, s.booking_cutoff, now),
    }
}

pub open spec fn has_session_id(id: Seq<char>) -> spec_fn(DemoSession) -> bool {
    |s: DemoSession| s.id@ == id
}

/// Position of the class with id `id`.
pub open spec fn session_with_id(sessions: Seq<DemoSession>, id: Seq<char>) -> Option<int> {
    first_match(sessions, has_session_id(id))
}

/// A booking of tenant `t` under idempotency key `key` whose class exists.
pub open spec fn repeats(sessions: Seq<DemoSession>, t: Seq<char>, key: Seq<char>) -> spec_fn(DemoBooking) -> bool {
    |b: DemoBooking| b.demo_tenant_id@ == t && b.idempotency_key@ == key && session_with_id(sessions, b.class_session_id@) is Some
}

/// `b` records booking `id` of tenant `t` in class `session` under `key`,
/// made at `now`, with the guardian's name and email discarded.
pub open spec fn records_booking(b: DemoBooking, id: Seq<char>, t: Seq<char>, session: Seq<char>, key: Seq<char>, now: i64) -> bool {
    &&& b.id@ == id
    &&& b.demo_tenant_id@ == t
    &&& b.class_session_id@ == session
    &&& b.idempotency_key@ == key
    &&& b.guardian_name@ == "[demo input not retained]"@
    &&& b.guardian_email@ == "[demo input not retained]"@
    &&& b.created_at == now
}

/// Booking `b`'s class is stored, under `b`'s own tenant.
pub open spec fn class_stored(sessions: Seq<DemoSession>, b: DemoBooking) -> bool {
    exists|j: int| 0 <= j < sessions.len() && #[trigger] sessions[j].id@ == b.class_session_id@
        && sessions[j].demo_tenant_id@ == b.demo_tenant_id@
}

/// Two bookings of one tenant carry different idempotency keys.
pub open spec fn keys_differ() -> spec_fn(DemoBooking, DemoBooking) -> bool {
    |a: DemoBooking, b: DemoBooking| a.demo_tenant_id@ == b.demo_tenant_id@ ==> a.idempotency_key@ != b.idempotency_key@
}

/// Classes that keep the ids and tenants of `before`'s classes, in the same
/// places, still hold every class that a booking names.
proof fn lemma_classes_extended(before: Seq<DemoSession>, after: Seq<DemoSession>, bs: Seq<DemoBooking>)
    requires
        before.len() <= after.len(),
        forall|j: int| 0 <= j < before.len() ==> #[trigger] after[j].id@ == before[j].id@
            && after[j].demo_tenant_id@ == before[j].demo_tenant_id@,
        forall|i: int| 0 <= i < bs.len() ==> class_stored(before, #[trigger] bs[i]),
    ensures
        forall|i: int| 0 <= i < bs.len() ==> class_stored(after, #[trigger] bs[i]),
{
    assert forall|i: int| 0 <= i < bs.len() implies class_stored(after, #[trigger] bs[i]) by {
        let b = bs[i];
        assert(class_stored(before, b));
        let j = choose|j: int| 0 <= j < before.len() && #[trigger] before[j].id@ == b.class_session_id@
            && before[j].demo_tenant_id@ == b.demo_tenant_id@;
        assert(after[j].id@ == b.class_session_id@);
    }
}

/// Dropping classes and bookings by one rule on their tenant keeps every
/// remaining booking's class.
proof fn lemma_classes_kept(ss: Seq<DemoSession>, bs: Seq<DemoBooking>, ps: spec_fn(DemoSession) -> bool, pb: spec_fn(DemoBooking) -> bool)
    requires
        forall|i: int| 0 <= i < bs.len() ==> class_stored(ss, #[trigger] bs[i]),
        forall|x: DemoSession, b: DemoBooking| #![trigger ps(x), pb(b)]
            x.demo_tenant_id@ == b.demo_tenant_id@ && pb(b) ==> ps(x),
    ensures
        forall|i: int| 0 <= i < bs.filter(pb).len() ==> class_stored(ss.filter(ps), #[trigger] bs.filter(pb)[i]),
{
    assert forall|i: int| 0 <= i < bs.filter(pb).len() implies class_stored(ss.filter(ps), #[trigger] bs.filter(pb)[i]) by {
        crate::seqs::lemma_filter_member(bs, pb, i);
        let b = bs.filter(pb)[i];
        let k = choose|k: int| 0 <= k < bs.len() && bs[k] == b;
        assert(class_stored(ss, bs[k]));
        let j = choose|j: int| 0 <= j < ss.len() && #[trigger] ss[j].id@ == b.class_session_id@
            && ss[j].demo_tenant_id@ == b.demo_tenant_id@;
        assert(ps(ss[j]));
        ss.lemma_filter_contains(ps, j);
        let m = choose|m: int| 0 <= m < ss.filter(ps).len() && ss.filter(ps)[m] == ss[j];
        assert(ss.filter(ps)[m].id@ == b.class_session_id@);
    }
}

/// What booking a seat of sample class `public_id` for tenant `tenant_id`
/// under `idempotency_key` at `now` does: `old` becomes `new` and `r` is
/// returned.
pub open spec fn seat_booked(old: DemoLedger, new: DemoLedger, tenant_id: Seq<char>, public_id: Seq<char>,
    idempotency_key: Seq<char>, now: i64, r: Result<BookingResult, BookingError>) -> bool {
    match first_match(old.bookings@, repeats(old.sessions@, tenant_id, idempotency_key)) {
        Some(b) => {
            let s = session_with_id(old.sessions@, old.bookings@[b].class_session_id@)->0;
            &&& new == old
            &&& r matches Ok(res) && res.repeated && res.booking_id@ == old.bookings@[b].id@
                && shows_session(res.class, old.sessions@[s], now)
        },
        None => match first_match(old.sessions@, class_of(tenant_id, public_id)) {
            None => new == old && r == Err::<BookingResult, BookingError>(BookingError::NotFound),
            Some(i) => {
                let s = old.sessions@[i];
                if s.confirmed >= s.capacity {
                    new == old && r == Err::<BookingResult, BookingError>(BookingError::Full)
                } else if s.booking_cutoff <= now {
                    new == old && r == Err::<BookingResult, BookingError>(BookingError::Cutoff)
                } else {
                    &&& new.tenants == old.tenants
                    &&& new.sessions@ == old.sessions@.update(i, DemoSession { confirmed: (s.confirmed + 1) as i64, ..s })
                    &&& new.bookings@.len() == old.bookings@.len() + 1
                    &&& new.bookings@.subrange(0, old.bookings@.len() as int) == old.bookings@
                    &&& r matches Ok(res) && !res.repeated
                        && shows_session(res.class, new.sessions@[i], now)
                        && records_booking(new.bookings@.last(), res.booking_id@, tenant_id, s.id@, idempotency_key, now)
                    &&& first_match(new.bookings@, repeats(new.sessions@, tenant_id, idempotency_key))
                        == Some(old.bookings@.len() as int)
                }
            },
        },
    }
}

/// A stored class is found by its id.
pub proof fn lemma_stored_class_found(ss: Seq<DemoSession>, b: DemoBooking)
    requires
        class_stored(ss, b),
    ensures
        session_with_id(ss, b.class_session_id@) is Some,
{
    crate::seqs::lemma_first_match(ss, has_session_id(b.class_session_id@));
    let j = choose|j: int| 0 <= j < ss.len() && #[trigger] ss[j].id@ == b.class_session_id@
        && ss[j].demo_tenant_id@ == b.demo_tenant_id@;
    assert((has_session_id(b.class_session_id@))(ss[j]));
}

/// In a well-formed ledger, a booking is the first (and only) booking that
/// a request of its tenant under its idempotency key finds as a repeat.
pub proof fn lemma_repeat_finds_booking(l: DemoLedger, b: int)
    requires
        l.wf(),
        0 <= b < l.bookings@.len(),
    ensures
        first_match(l.bookings@, repeats(l.sessions@, l.bookings@[b].demo_tenant_id@, l.bookings@[b].idempotency_key@)) == Some(b),
{
    let x = l.bookings@[b];
    let p = repeats(l.sessions@, x.demo_tenant_id@, x.idempotency_key@);
    lemma_stored_class_found(l.sessions@, x);
    assert forall|j: int| 0 <= j < b implies !p(#[trigger] l.bookings@[j]) by {
        assert((keys_differ())(l.bookings@[j], l.bookings@[b]));
    }
    lemma_first_match_at(l.bookings@, p, b);
}

impl DemoLedger {
    /// Seat counts stay in range, tenant ids are distinct, each tenant's
    /// classes are stored in their display order, every booking's class is
    /// stored under the booking's tenant, and no two bookings of a tenant
    /// share an idempotency key.
    pub open spec fn wf(&self) -> bool {
        &&& forall|i: int| 0 <= i < self.sessions@.len() ==>
            seats_ok(#[trigger] self.sessions@[i].capacity, self.sessions@[i].confirmed)
        &&& forall|i: int, j: int| 0 <= i < j < self.sessions@.len() ==>
            (sort_related())(#[trigger] self.sessions@[i], #[trigger] self.sessions@[j])
        &&& forall|i: int, j: int| 0 <= i < j < self.tenants@.len() ==>
            #[trigger] self.tenants@[i].id@ != #[trigger] self.tenants@[j].id@
        &&& forall|i: int| 0 <= i < self.bookings@.len() ==> class_stored(self.sessions@, #[trigger] self.bookings@[i])
        &&& forall|i: int, j: int| 0 <= i < j < self.bookings@.len() ==>
            (keys_differ())(#[trigger] self.bookings@[i], #[trigger] self.bookings@[j])
    }

    /// Whether tenant `t` exists and has not expired at `now`.
    pub open spec fn active(&self, t: Seq<char>, now: i64) -> bool {
        exists|i: int| 0 <= i < self.tenants@.len() && #[trigger] self.tenants@[i].id@ == t && self.tenants@[i].expires_at > now
    }

    /// `self` is `old` with tenant `t`, its classes and bookings removed.
    pub open spec fn without_tenant(&self, old: &DemoLedger, t: Seq<char>) -> bool {
        &&& self.tenants@ == old.tenants@.filter(not_tenant(t))
        &&& self.sessions@ == old.sessions@.filter(not_tenant_session(t))
        &&& self.bookings@ == old.bookings@.filter(not_tenant_booking(t))
    }

    /// `self` is `old` with tenant `t` replaced by a fresh one created at
    /// `now`, expiring a day later, with the three seeded classes and no bookings.
    pub open spec fn reseeded(&self, old: &DemoLedger, t: Seq<char>, now: i64) -> bool {
        let tenants = old.tenants@.filter(not_tenant(t));
        let sessions = old.sessions@.filter(not_tenant_session(t));
        &&& self.tenants@.len() == tenants.len() + 1
        &&& self.tenants@.subrange(0, tenants.len() as int) == tenants
        &&& self.tenants@.last().id@ == t
        &&& self.tenants@.last().created_at == now
        &&& self.tenants@.last().expires_at == now + DEMO_TTL_SECONDS
        &&& self.sessions@.len() == sessions.len() + 3
        &&& self.sessions@.subrange(0, sessions.len() as int) == sessions
        &&& forall|i: int| 0 <= i < 3 ==> seeded(#[trigger] self.sessions@[sessions.len() + i], t, now, i)
        &&& self.bookings@ == old.bookings@.filter(not_tenant_booking(t))
    }

    pub fn new() -> (l: DemoLedger)
        ensures
            l.wf(),
            l.tenants@.len() == 0,
            l.sessions@.len() == 0,
            l.bookings@.len() == 0,
    {
        DemoLedger { tenants: Vec::new(), sessions: Vec::new(), bookings: Vec::new() }
    }

    /// Removes tenant `t` with its classes and bookings.
    fn remove_tenant(&mut self, t: &String)
        requires
            old(self).wf(),
        ensures
            final(self).wf(),
            final(self).without_tenant(old(self), t@),
    {
        let ghost old_self = *self;
        let mut flags: Vec<bool> = Vec::new();
        let mut i: usize = 0;
        while i < self.tenants.len()
            invariant
                i <= self.tenants@.len(),
                flags@.len() == i,
                forall|j: int| 0 <= j < i ==> flags@[j] == (not_tenant(t@))(#[trigger] self.tenants@[j]),
            decreases self.tenants@.len() - i,
        {
            flags.push(!(self.tenants[i].id == *t));
            i = i + 1;
        }
        retain_flagged(&mut self.tenants, &flags, Ghost(not_tenant(t@)));
        let mut flags: Vec<bool> = Vec::new();
        let mut i: usize = 0;
        while i < self.sessions.len()
            invariant
                i <= self.sessions@.len(),
                flags@.len() == i,
                forall|j: int| 0 <= j < i ==> flags@[j] == (not_tenant_session(t@))(#[trigger] self.sessions@[j]),
            decreases self.sessions@.len() - i,
        {
            flags.push(!(self.sessions[i].demo_tenant_id == *t));
            i = i + 1;
        }
        retain_flagged(&mut self.sessions, &flags, Ghost(not_tenant_session(t@)));
        let mut flags: Vec<bool> = Vec::new();
        let mut i: usize = 0;
        while i < self.bookings.len()
            invariant
                i <= self.bookings@.len(),
                flags@.len() == i,
                forall|j: int| 0 <= j < i ==> flags@[j] == (not_tenant_booking(t@))(#[trigger] self.bookings@[j]),
            decreases self.bookings@.len() - i,
        {
            flags.push(!(self.bookings[i].demo_tenant_id == *t));
            i = i + 1;
        }
        retain_flagged(&mut self.bookings, &flags, Ghost(not_tenant_booking(t@)));
        proof {
            let ss = old_self.sessions@;
            let seats = |a: DemoSession, b: DemoSession| seats_ok(b.capacity, b.confirmed);
            lemma_filter_pairwise(ss, not_tenant_session(t@), sort_related());
            assert forall|i: int, j: int| 0 <= i < j < ss.len() implies seats(#[trigger] ss[i], #[trigger] ss[j]) by {
                assert(seats_ok(ss[j].capacity, ss[j].confirmed));
            }
            assert forall|i: int| 0 <= i < self.sessions@.len() implies
                seats_ok(#[trigger] self.sessions@[i].capacity, self.sessions@[i].confirmed) by {
                crate::seqs::lemma_filter_member(ss, not_tenant_session(t@), i);
            }
            let ts = old_self.tenants@;
            let distinct = |a: DemoTenant, b: DemoTenant| a.id@ != b.id@;
            assert forall|i: int, j: int| 0 <= i < j < ts.len() implies distinct(#[trigger] ts[i], #[trigger] ts[j]) by {}
            lemma_filter_pairwise(ts, not_tenant(t@), distinct);
            lemma_filter_pairwise(old_self.bookings@, not_tenant_booking(t@), keys_differ());
            lemma_classes_kept(ss, old_self.bookings@, not_tenant_session(t@), not_tenant_booking(t@));
        }
    }

    /// Appends the `i`-th seeded class of tenant `t`.
    fn push_seed(&mut self, t: &String, now: i64, i: i64, name: &str, start: i64, cutoff: i64, capacity: i64, confirmed: i64)
        requires
            old(self).wf(),
            seedable_at(now),
            0 <= i < 3,
            name@ == seed_plan(i as int).0,
            start == seed_plan(i as int).1,
            cutoff == seed_plan(i as int).2,
            capacity == seed_plan(i as int).3,
            confirmed == seed_plan(i as int).4,
            forall|j: int| 0 <= j < old(self).sessions@.len() ==>
                (#[trigger] old(self).sessions@[j]).demo_tenant_id@ != t@ || old(self).sessions@[j].sort_order < i,
        ensures
            final(self).wf(),
            final(self).tenants == old(self).tenants,
            final(self).bookings == old(self).bookings,
            final(self).sessions@.len() == old(self).sessions@.len() + 1,
            final(self).sessions@.subrange(0, old(self).sessions@.len() as int) == old(self).sessions@,
            seeded(final(self).sessions@.last(), t@, now, i as int),
    {
        let public_id = opaque_id("demo-");
        proof {
            reveal_strlit("demo-");
            reveal_strlit("Europe/London");
        }
        let row = DemoSession {
            id: fresh_id(),
            demo_tenant_id: t.clone(),
            public_id,
            name: name.to_owned(),
            starts_at: now + start,
            booking_cutoff: now + cutoff,
            timezone: "Europe/London".to_owned(),
            capacity,
            confirmed,
            sort_order: i,
        };
        let ghost before = self.sessions@;
        self.sessions.push(row);
        proof {
            assert(self.sessions@.subrange(0, before.len() as int) =~= before);
            lemma_classes_extended(before, self.sessions@, self.bookings@);
            assert forall|a: int, b: int| 0 <= a < b < self.sessions@.len() implies
                (sort_related())(#[trigger] self.sessions@[a], #[trigger] self.sessions@[b]) by {
                if b < before.len() {
                    assert(self.sessions@[a] == before[a] && self.sessions@[b] == before[b]);
                } else {
                    assert(self.sessions@[a] == before[a]);
                }
            }
        }
    }

    /// Seeds the three sample classes of tenant `t`, which has none.
    fn seed_sessions(&mut self, t: &String, now: i64)
        requires
            old(self).wf(),
            seedable_at(now),
            forall|j: int| 0 <= j < old(self).sessions@.len() ==> (#[trigger] old(self).sessions@[j]).demo_tenant_id@ != t@,
        ensures
            final(self).wf(),
            final(self).tenants == old(self).tenants,
            final(self).bookings == old(self).bookings,
            final(self).sessions@.len() == old(self).sessions@.len() + 3,
            final(self).sessions@.subrange(0, old(self).sessions@.len() as int) == old(self).sessions@,
            forall|i: int| 0 <= i < 3 ==> seeded(#[trigger] final(self).sessions@[old(self).sessions@.len() + i], t@, now, i),
    {
        let ghost s0 = self.sessions@;
        let n = self.sessions.len();
        self.push_seed(t, now, 0, "Level check: upper primary", 2 * 86400, 86400, 8, 6);
        let ghost s1 = self.sessions@;
        proof {
            assert(self.sessions@[n as int] == s1.last());
        }
        self.push_seed(t, now, 1, "Friday conversation group", 3 * 86400, 2 * 86400, 6, 6);
        let ghost s2 = self.sessions@;
        proof {
            assert(s2[n as int] == s1[n as int]);
        }
        self.push_seed(t, now, 2, "Saturday assessment", 7 * 86400, -3600, 10, 4);
        proof {
            let s3 = self.sessions@;
            assert(s3[n as int] == s2[n as int]);
            assert(s3[n + 1] == s2[n + 1]);
            assert(s3.subrange(0, n as int) =~= s0);
        }
    }

    /// Replaces tenant `t` by a fresh one with freshly seeded classes.
    fn recreate(&mut self, t: &String, now: i64)
        requires
            old(self).wf(),
            seedable_at(now),
        ensures
            final(self).wf(),
            final(self).reseeded(old(self), t@, now),
    {
        let ghost old_self = *self;
        self.remove_tenant(t);
        let ghost removed = *self;
        proof {
            assert forall|j: int| 0 <= j < removed.tenants@.len() implies #[trigger] removed.tenants@[j].id@ != t@ by {
                crate::seqs::lemma_filter_member(old_self.tenants@, not_tenant(t@), j);
            }
            assert forall|j: int| 0 <= j < removed.sessions@.len() implies
                (#[trigger] removed.sessions@[j]).demo_tenant_id@ != t@ by {
                crate::seqs::lemma_filter_member(old_self.sessions@, not_tenant_session(t@), j);
            }
        }
        self.tenants.push(DemoTenant { id: t.clone(), created_at: now, expires_at: now + DEMO_TTL_SECONDS });
        proof {
            assert(self.tenants@.subrange(0, removed.tenants@.len() as int) =~= removed.tenants@);
            assert forall|i: int, j: int| 0 <= i < j < self.tenants@.len() implies
                #[trigger] self.tenants@[i].id@ != #[trigger] self.tenants@[j].id@ by {
                if j < removed.tenants@.len() {
                    assert(self.tenants@[i] == removed.tenants@[i]);
                    assert(self.tenants@[j] == removed.tenants@[j]);
                } else {
                    assert(self.tenants@[i] == removed.tenants@[i]);
                }
            }
        }
        self.seed_sessions(t, now);
    }

    /// Opens the demo of tenant `tenant_id`: an active tenant is left as it
    /// is; an unknown or expired one is (re)created with fresh sample classes.
    pub fn create_or_refresh_demo(&mut self, tenant_id: &str, now: i64)
        requires
            old(self).wf(),
            seedable_at(now),
        ensures
            final(self).wf(),
            old(self).active(tenant_id@, now) ==> *final(self) == *old(self),
            !old(self).active(tenant_id@, now) ==> final(self).reseeded(old(self), tenant_id@, now),
    {
        let t = tenant_id.to_owned();
        let mut i: usize = 0;
        while i < self.tenants.len()
            invariant
                i <= self.tenants@.len(),
                t@ == tenant_id@,
                self.wf(),
                *self == *old(self),
                forall|j: int| 0 <= j < i ==> !(#[trigger] self.tenants@[j].id@ == t@ && self.tenants@[j].expires_at > now),
            decreases self.tenants@.len() - i,
        {
            if self.tenants[i].id == t && self.tenants[i].expires_at > now {
                return;
            }
            i = i + 1;
        }
        self.recreate(&t, now);
    }

    /// Resets the demo of tenant `tenant_id` to fresh sample classes.
    pub fn reset_demo(&mut self, tenant_id: &str, now: i64)
        requires
            old(self).wf(),
            seedable_at(now),
        ensures
            final(self).wf(),
            final(self).reseeded(old(self), tenant_id@, now),
    {
        let t = tenant_id.to_owned();
        self.recreate(&t, now);
    }

    /// Deletes the demo of tenant `tenant_id` with its classes and bookings.
    pub fn destroy_demo(&mut self, tenant_id: &str)
        requires
            old(self).wf(),
        ensures
            final(self).wf(),
            final(self).without_tenant(old(self), tenant_id@),
    {
        let t = tenant_id.to_owned();
        self.remove_tenant(&t);
    }

    /// Deletes every tenant that has expired at `now` (expiry instant
    /// included), with its classes and bookings, and returns how many tenants
    /// were deleted.
    pub fn cleanup_expired(&mut self, now: i64) -> (count: u64)
        requires
            old(self).wf(),
        ensures
            final(self).wf(),
            final(self).tenants@ == old(self).tenants@.filter(live_at(now)),
            final(self).sessions@ == old(self).sessions@.filter(session_survives(old(self).tenants@, now)),
            final(self).bookings@ == old(self).bookings@.filter(booking_survives(old(self).tenants@, now)),
            count == old(self).tenants@.len() - final(self).tenants@.len(),
    {
        let ghost old_self = *self;
        let mut flags: Vec<bool> = Vec::new();
        let mut i: usize = 0;
        while i < self.sessions.len()
            invariant
                *self == old_self,
                i <= self.sessions@.len(),
                flags@.len() == i,
                forall|j: int| 0 <= j < i ==>
                    flags@[j] == (session_survives(old_self.tenants@, now))(#[trigger] self.sessions@[j]),
            decreases self.sessions@.len() - i,
        {
            let expired = self.tenant_expired(&self.sessions[i].demo_tenant_id, now);
            flags.push(!expired);
            i = i + 1;
        }
        retain_flagged(&mut self.sessions, &flags, Ghost(session_survives(old_self.tenants@, now)));
        let mut flags: Vec<bool> = Vec::new();
        let mut i: usize = 0;
        while i < self.bookings.len()
            invariant
                self.tenants == old_self.tenants,
                i <= self.bookings@.len(),
                flags@.len() == i,
                forall|j: int| 0 <= j < i ==>
                    flags@[j] == (booking_survives(old_self.tenants@, now))(#[trigger] self.bookings@[j]),
            decreases self.bookings@.len() - i,
        {
            let expired = self.tenant_expired(&self.bookings[i].demo_tenant_id, now);
            flags.push(!expired);
            i = i + 1;
        }
        retain_flagged(&mut self.bookings, &flags, Ghost(booking_survives(old_self.tenants@, now)));
        let mut flags: Vec<bool> = Vec::new();
        let mut i: usize = 0;
        while i < self.tenants.len()
            invariant
                self.tenants == old_self.tenants,
                i <= self.tenants@.len(),
                flags@.len() == i,
                forall|j: int| 0 <= j < i ==> flags@[j] == (live_at(now))(#[trigger] self.tenants@[j]),
            decreases self.tenants@.len() - i,
        {
            flags.push(self.tenants[i].expires_at > now);
            i = i + 1;
        }
        let before = self.tenants.len();
        retain_flagged(&mut self.tenants, &flags, Ghost(live_at(now)));
        proof {
            old_self.tenants@.lemma_filter_len(live_at(now));
            let ss = old_self.sessions@;
            let p = session_survives(old_self.tenants@, now);
            lemma_filter_pairwise(ss, p, sort_related());
            assert forall|i: int| 0 <= i < self.sessions@.len() implies
                seats_ok(#[trigger] self.sessions@[i].capacity, self.sessions@[i].confirmed) by {
                crate::seqs::lemma_filter_member(ss, p, i);
            }
            let ts = old_self.tenants@;
            let distinct = |a: DemoTenant, b: DemoTenant| a.id@ != b.id@;
            assert forall|i: int, j: int| 0 <= i < j < ts.len() implies distinct(#[trigger] ts[i], #[trigger] ts[j]) by {}
            lemma_filter_pairwise(ts, live_at(now), distinct);
            lemma_filter_pairwise(old_self.bookings@, booking_survives(old_self.tenants@, now), keys_differ());
            lemma_classes_kept(ss, old_self.bookings@, p, booking_survives(old_self.tenants@, now));
        }
        (before - self.tenants.len()) as u64
    }

    /// Whether some tenant with id `t` has expired at `now`.
    fn tenant_expired(&self, t: &String, now: i64) -> (e: bool)
        ensures
            e == expired_id(self.tenants@, t@, now),
    {
        let mut i: usize = 0;
        while i < self.tenants.len()
            invariant
                i <= self.tenants@.len(),
                forall|j: int| 0 <= j < i ==> !(#[trigger] self.tenants@[j].id@ == t@ && self.tenants@[j].expires_at <= now),
            decreases self.tenants@.len() - i,
        {
            if self.tenants[i].id == *t && self.tenants[i].expires_at <= now {
                return true;
            }
            i = i + 1;
        }
        false
    }

    /// The sample classes of tenant `tenant_id` in display order, as seen at `now`.
    pub fn list_sessions(&self, tenant_id: &str, now: i64) -> (r: Vec<ClassSession>)
        requires
            self.wf(),
        ensures
            r@.len() == self.sessions@.filter(of_tenant(tenant_id@)).len(),
            forall|i: int| 0 <= i < r@.len() ==>
                shows_session(#[trigger] r@[i], self.sessions@.filter(of_tenant(tenant_id@))[i], now),
            forall|i: int, j: int| 0 <= i < j < r@.len() ==>
                #[trigger] self.sessions@.filter(of_tenant(tenant_id@))[i].sort_order
                    < #[trigger] self.sessions@.filter(of_tenant(tenant_id@))[j].sort_order,
    {
        let t = tenant_id.to_owned();
        let ghost p = of_tenant(tenant_id@);
        let mut r: Vec<ClassSession> = Vec::new();
        let mut i: usize = 0;
        proof {
            reveal_with_fuel(Seq::<_>::filter, 1);
            assert(self.sessions@.take(0) =~= Seq::<DemoSession>::empty());
        }
        while i < self.sessions.len()
            invariant
                self.wf(),
                t@ == tenant_id@,
                p == of_tenant(tenant_id@),
                i <= self.sessions@.len(),
                r@.len() == self.sessions@.take(i as int).filter(p).len(),
                forall|k: int| 0 <= k < r@.len() ==>
                    shows_session(#[trigger] r@[k], self.sessions@.take(i as int).filter(p)[k], now),
            decreases self.sessions@.len() - i,
        {
            proof {
                reveal_with_fuel(Seq::<_>::filter, 1);
                assert(self.sessions@.take(i + 1).drop_last() =~= self.sessions@.take(i as int));
            }
            let ghost before = r@;
            proof {
                assert(self.sessions@.take(i + 1).last() == self.sessions@[i as int]);
            }
            let same = self.sessions[i].demo_tenant_id == t;
            if same {
                let c = session_from_row(&self.sessions[i], now);
                r.push(c);
                proof {
                    reveal_with_fuel(Seq::<_>::filter, 1);
                    assert(self.sessions@.take(i + 1).drop_last() =~= self.sessions@.take(i as int));
                    assert(p(self.sessions@[i as int]));
                    assert(self.sessions@.take(i + 1).filter(p) == self.sessions@.take(i as int).filter(p).push(self.sessions@[i as int]));
                    assert forall|k: int| 0 <= k < r@.len() implies
                        shows_session(#[trigger] r@[k], self.sessions@.take(i + 1).filter(p)[k], now) by {
                        if k < before.len() {
                            assert(r@[k] == before[k]);
                        }
                    }
                }
            } else {
                proof {
                    reveal_with_fuel(Seq::<_>::filter, 1);
                    assert(self.sessions@.take(i + 1).drop_last() =~= self.sessions@.take(i as int));
                    assert(!p(self.sessions@[i as int]));
                    assert(self.sessions@.take(i + 1).filter(p) == self.sessions@.take(i as int).filter(p));
                }
            }
            i = i + 1;
        }
        proof {
            assert(self.sessions@.take(i as int) =~= self.sessions@);
            let ss = self.sessions@;
            lemma_filter_pairwise(ss, p, sort_related());
            assert forall|a: int, b: int| 0 <= a < b < r@.len() implies
                #[trigger] ss.filter(p)[a].sort_order < #[trigger] ss.filter(p)[b].sort_order by {
                crate::seqs::lemma_filter_member(ss, p, a);
                crate::seqs::lemma_filter_member(ss, p, b);
                assert((sort_related())(ss.filter(p)[a], ss.filter(p)[b]));
            }
        }
        r
    }

    /// The sample class `public_id` of tenant `tenant_id`, as seen at `now`.
    pub fn get_session(&self, tenant_id: &str, public_id: &str, now: i64) -> (r: Option<ClassSession>)
        requires
            self.wf(),
        ensures
            match first_match(self.sessions@, class_of(tenant_id@, public_id@)) {
                Some(i) => r matches Some(c) && shows_session(c, self.sessions@[i], now),
                None => r is None,
            },
    {
        let found = self.find_class(tenant_id, public_id);
        match found {
            Some(i) => {
                let c = session_from_row(&self.sessions[i], now);
                Some(c)
            },
            None => None,
        }
    }

    /// Position of the sample class `public_id` of tenant `tenant_id`.
    fn find_class(&self, tenant_id: &str, public_id: &str) -> (r: Option<usize>)
        ensures
            match r {
                Some(i) => i < self.sessions@.len() && first_match(self.sessions@, class_of(tenant_id@, public_id@)) == Some(i as int),
                None => first_match(self.sessions@, class_of(tenant_id@, public_id@)) is None,
            },
    {
        let t = tenant_id.to_owned();
        let p = public_id.to_owned();
        let mut i: usize = 0;
        while i < self.sessions.len()
            invariant
                t@ == tenant_id@,
                p@ == public_id@,
                i <= self.sessions@.len(),
                forall|j: int| 0 <= j < i ==> !(class_of(tenant_id@, public_id@))(#[trigger] self.sessions@[j]),
            decreases self.sessions@.len() - i,
        {
            if self.sessions[i].demo_tenant_id == t && self.sessions[i].public_id == p {
                proof {
                    lemma_first_match_at(self.sessions@, class_of(tenant_id@, public_id@), i as int);
                }
                return Some(i);
            }
            i = i + 1;
        }
        proof {
            lemma_first_match_none(self.sessions@, class_of(tenant_id@, public_id@));
        }
        None
    }

    /// Position of the first booking of tenant `t` under idempotency key
    /// `key` whose class still exists.
    fn find_repeat(&self, t: &String, key: &String) -> (r: Option<usize>)
        ensures
            match r {
                Some(i) => i < self.bookings@.len() && first_match(self.bookings@, repeats(self.sessions@, t@, key@)) == Some(i as int),
                None => first_match(self.bookings@, repeats(self.sessions@, t@, key@)) is None,
            },
    {
        let ghost p = repeats(self.sessions@, t@, key@);
        let mut i: usize = 0;
        while i < self.bookings.len()
            invariant
                p == repeats(self.sessions@, t@, key@),
                i <= self.bookings@.len(),
                forall|j: int| 0 <= j < i ==> !p(#[trigger] self.bookings@[j]),
            decreases self.bookings@.len() - i,
        {
            let b = &self.bookings[i];
            if b.demo_tenant_id == *t && b.idempotency_key == *key && self.find_session(&b.class_session_id).is_some() {
                proof {
                    lemma_first_match_at(self.bookings@, p, i as int);
                }
                return Some(i);
            }
            i = i + 1;
        }
        proof {
            lemma_first_match_none(self.bookings@, p);
        }
        None
    }

    /// Position of the first class with id `id`.
    fn find_session(&self, id: &String) -> (r: Option<usize>)
        ensures
            match r {
                Some(i) => i < self.sessions@.len() && session_with_id(self.sessions@, id@) == Some(i as int),
                None => session_with_id(self.sessions@, id@) is None,
            },
    {
        let mut i: usize = 0;
        while i < self.sessions.len()
            invariant
                i <= self.sessions@.len(),
                forall|j: int| 0 <= j < i ==> !(has_session_id(id@))(#[trigger] self.sessions@[j]),
            decreases self.sessions@.len() - i,
        {
            if self.sessions[i].id == *id {
                proof {
                    lemma_first_match_at(self.sessions@, has_session_id(id@), i as int);
                }
                return Some(i);
            }
            i = i + 1;
        }
        proof {
            lemma_first_match_none(self.sessions@, has_session_id(id@));
        }
        None
    }

    /// Books one seat of sample class `public_id` for tenant `tenant_id`.
    /// A repeated idempotency key gives back the first booking made under it.
    /// Otherwise a full class is refused before a passed cutoff; a booking
    /// takes exactly one seat and keeps none of the guardian's input.
    pub fn book_seat(
        &mut self,
        tenant_id: &str,
        public_id: &str,
        idempotency_key: &str,
        guardian_name: &str,
        guardian_email: &str,
        now: i64,
    ) -> (r: Result<BookingResult, BookingError>)
        requires
            old(self).wf(),
        ensures
            final(self).wf(),
            seat_booked(*old(self), *final(self), tenant_id@, public_id@, idempotency_key@, now, r),
    {
        let t = tenant_id.to_owned();
        let key = idempotency_key.to_owned();
        if let Some(b) = self.find_repeat(&t, &key) {
            let booking_id = self.bookings[b].id.clone();
            let s = self.find_session(&self.bookings[b].class_session_id);
            proof {
                crate::seqs::lemma_first_match(self.bookings@, repeats(self.sessions@, t@, key@));
            }
            let s = s.unwrap();
            let class = session_from_row(&self.sessions[s], now);
            return Ok(BookingResult { booking_id, class, repeated: true });
        }
        let i = match self.find_class(tenant_id, public_id) {
            Some(i) => i,
            None => return Err(BookingError::NotFound),
        };
        if self.sessions[i].confirmed >= self.sessions[i].capacity {
            return Err(BookingError::Full);
        }
        if self.sessions[i].booking_cutoff <= now {
            return Err(BookingError::Cutoff);
        }
        let ghost old_self = *self;
        let session_id = self.sessions[i].id.clone();
        let confirmed = self.sessions[i].confirmed + 1;
        self.sessions[i].confirmed = confirmed;
        let booking_id = fresh_id();
        proof {
            reveal_strlit("[demo input not retained]");
        }
        self.bookings.push(DemoBooking {
            id: booking_id.clone(),
            demo_tenant_id: t,
            class_session_id: session_id,
            idempotency_key: key,
            guardian_name: "[demo input not retained]".to_owned(),
            guardian_email: "[demo input not retained]".to_owned(),
            created_at: now,
        });
        proof {
            let ob = old_self.bookings@;
            let n = ob.len();
            assert(self.bookings@.subrange(0, n as int) =~= ob);
            lemma_classes_extended(old_self.sessions@, self.sessions@, ob);
            assert forall|k: int| 0 <= k < self.bookings@.len() implies class_stored(self.sessions@, #[trigger] self.bookings@[k]) by {
                if k < n {
                    assert(self.bookings@[k] == ob[k]);
                } else {
                    crate::seqs::lemma_first_match(old_self.sessions@, class_of(tenant_id@, public_id@));
                    assert(self.sessions@[i as int].id@ == self.bookings@[k].class_session_id@);
                }
            }
            crate::seqs::lemma_first_match(ob, repeats(old_self.sessions@, tenant_id@, idempotency_key@));
            assert forall|a: int| 0 <= a < n implies !(ob[a].demo_tenant_id@ == tenant_id@
                && #[trigger] ob[a].idempotency_key@ == idempotency_key@) by {
                lemma_stored_class_found(old_self.sessions@, ob[a]);
                assert(!(repeats(old_self.sessions@, tenant_id@, idempotency_key@))(ob[a]));
            }
            assert forall|a: int, b: int| 0 <= a < b < self.bookings@.len() implies
                (keys_differ())(#[trigger] self.bookings@[a], #[trigger] self.bookings@[b]) by {
                assert(self.bookings@[a] == ob[a]);
                if b < n {
                    assert(self.bookings@[b] == ob[b]);
                    assert((keys_differ())(ob[a], ob[b]));
                } else {
                    assert(ob[a].idempotency_key@ == ob[a].idempotency_key@);
                }
            }
            assert forall|a: int, b: int| 0 <= a < b < self.sessions@.len() implies
                (sort_related())(#[trigger] self.sessions@[a], #[trigger] self.sessions@[b]) by {
                assert((sort_related())(old_self.sessions@[a], old_self.sessions@[b]));
            }
            assert forall|a: int| 0 <= a < self.sessions@.len() implies
                seats_ok(#[trigger] self.sessions@[a].capacity, self.sessions@[a].confirmed) by {
                assert(seats_ok(old_self.sessions@[a].capacity, old_self.sessions@[a].confirmed));
            }
            lemma_repeat_finds_booking(*self, n as int);
        }
        let class = session_from_row(&self.sessions[i], now);
        Ok(BookingResult { booking_id, class, repeated: false })
    }
}

impl DemoLedger {
    /// The ledger made of stored tables, when they are well formed; `None`
    /// when a seat count, a class order or a tenant id breaks the rules.
    pub fn restore(tenants: Vec<DemoTenant>, sessions: Vec<DemoSession>, bookings: Vec<DemoBooking>) -> (r: Option<DemoLedger>)
        ensures
            match r {
                Some(l) => l.wf() && l.tenants@ == tenants@ && l.sessions@ == sessions@ && l.bookings@ == bookings@,
                None => !(DemoLedger { tenants, sessions, bookings }).wf(),
            },
    {
        let ghost candidate = DemoLedger { tenants, sessions, bookings };
        let mut i: usize = 0;
        while i < sessions.len()
            invariant
                candidate == (DemoLedger { tenants, sessions, bookings }),
                i <= sessions@.len(),
                forall|k: int| 0 <= k < i ==> seats_ok(#[trigger] sessions@[k].capacity, sessions@[k].confirmed),
            decreases sessions@.len() - i,
        {
            let c = sessions[i].confirmed;
            if !(0 <= c && (c <= sessions[i].capacity || c == 0)) {
                proof {
                    if candidate.wf() {
                        assert(seats_ok(candidate.sessions@[i as int].capacity, candidate.sessions@[i as int].confirmed));
                    }
                }
                return None;
            }
            i = i + 1;
        }
        let mut i: usize = 0;
        while i < sessions.len()
            invariant
                candidate == (DemoLedger { tenants, sessions, bookings }),
                i <= sessions@.len(),
                forall|k: int| 0 <= k < sessions@.len() ==> seats_ok(#[trigger] sessions@[k].capacity, sessions@[k].confirmed),
                forall|a: int, b: int| 0 <= a < i && a < b < sessions@.len() ==> (sort_related())(#[trigger] sessions@[a], #[trigger] sessions@[b]),
            decreases sessions@.len() - i,
        {
            let mut j: usize = i + 1;
            while j < sessions.len()
                invariant
                    candidate == (DemoLedger { tenants, sessions, bookings }),
                    i < sessions@.len(),
                    i + 1 <= j <= sessions@.len(),
                    forall|a: int, b: int| 0 <= a < i && a < b < sessions@.len() ==> (sort_related())(#[trigger] sessions@[a], #[trigger] sessions@[b]),
                    forall|b: int| i < b < j ==> (sort_related())(sessions@[i as int], #[trigger] sessions@[b]),
                decreases sessions@.len() - j,
            {
                if sessions[i].demo_tenant_id == sessions[j].demo_tenant_id && !(sessions[i].sort_order < sessions[j].sort_order) {
                    proof {
                        if candidate.wf() {
                            assert((sort_related())(candidate.sessions@[i as int], candidate.sessions@[j as int]));
                        }
                    }
                    return None;
                }
                j = j + 1;
            }
            i = i + 1;
        }
        let mut ids: Vec<String> = Vec::new();
        let mut k: usize = 0;
        while k < tenants.len()
            invariant
                candidate == (DemoLedger { tenants, sessions, bookings }),
                forall|k: int| 0 <= k < sessions@.len() ==> seats_ok(#[trigger] sessions@[k].capacity, sessions@[k].confirmed),
                forall|a: int, b: int| 0 <= a < b < sessions@.len() ==> (sort_related())(#[trigger] sessions@[a], #[trigger] sessions@[b]),
                k <= tenants@.len(),
                ids@.len() == k,
                forall|a: int| 0 <= a < k ==> (#[trigger] ids@[a])@ == tenants@[a].id@,
            decreases tenants@.len() - k,
        {
            ids.push(tenants[k].id.clone());
            k = k + 1;
        }
        if !crate::seqs::distinct_texts(&ids) {
            proof {
                let (a, b) = choose|a: int, b: int| 0 <= a < b < ids@.len() && (#[trigger] ids@[a])@ == (#[trigger] ids@[b])@;
                if candidate.wf() {
                    assert(candidate.tenants@[a].id@ != candidate.tenants@[b].id@);
                }
            }
            return None;
        }
        proof {
            assert forall|a: int, b: int| 0 <= a < b < tenants@.len() implies #[trigger] tenants@[a].id@ != #[trigger] tenants@[b].id@ by {
                assert(ids@[a]@ != ids@[b]@);
            }
        }
        let mut k: usize = 0;
        while k < bookings.len()
            invariant
                candidate == (DemoLedger { tenants, sessions, bookings }),
                k <= bookings@.len(),
                forall|a: int| 0 <= a < k ==> class_stored(sessions@, #[trigger] bookings@[a]),
            decreases bookings@.len() - k,
        {
            let mut found = false;
            let mut j: usize = 0;
            while j < sessions.len()
                invariant
                    k < bookings@.len(),
                    j <= sessions@.len(),
                    found ==> class_stored(sessions@, bookings@[k as int]),
                    !found ==> forall|m: int| 0 <= m < j ==> !(#[trigger] sessions@[m].id@ == bookings@[k as int].class_session_id@
                        && sessions@[m].demo_tenant_id@ == bookings@[k as int].demo_tenant_id@),
                decreases sessions@.len() - j,
            {
                if sessions[j].id == bookings[k].class_session_id && sessions[j].demo_tenant_id == bookings[k].demo_tenant_id {
                    found = true;
                }
                j = j + 1;
            }
            if !found {
                proof {
                    if candidate.wf() {
                        assert(class_stored(candidate.sessions@, candidate.bookings@[k as int]));
                    }
                }
                return None;
            }
            k = k + 1;
        }
        let mut a: usize = 0;
        while a < bookings.len()
            invariant
                candidate == (DemoLedger { tenants, sessions, bookings }),
                a <= bookings@.len(),
                forall|x: int, y: int| 0 <= x < a && x < y < bookings@.len() ==> (keys_differ())(#[trigger] bookings@[x], #[trigger] bookings@[y]),
            decreases bookings@.len() - a,
        {
            let mut b: usize = a + 1;
            while b < bookings.len()
                invariant
                    candidate == (DemoLedger { tenants, sessions, bookings }),
                    a < bookings@.len(),
                    a + 1 <= b <= bookings@.len(),
                    forall|x: int, y: int| 0 <= x < a && x < y < bookings@.len() ==> (keys_differ())(#[trigger] bookings@[x], #[trigger] bookings@[y]),
                    forall|y: int| a < y < b ==> (keys_differ())(bookings@[a as int], #[trigger] bookings@[y]),
                decreases bookings@.len() - b,
            {
                if bookings[a].demo_tenant_id == bookings[b].demo_tenant_id && bookings[a].idempotency_key == bookings[b].idempotency_key {
                    proof {
                        if candidate.wf() {
                            assert((keys_differ())(candidate.bookings@[a as int], candidate.bookings@[b as int]));
                        }
                    }
                    return None;
                }
                b = b + 1;
            }
            a = a + 1;
        }
        Some(DemoLedger { tenants, sessions, bookings })
    }
}

} // verus!
