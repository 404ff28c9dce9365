//! Reading the school ledger for staff (confirmed bookings, offer receipts)
//! and the calendar feed connection.
use vstd::prelude::*;
use vstd::utf8::encode_utf8;
use crate::crypto::{ContactCipher, open_spec, seal_limit, CipherError};
use crate::demo::valid_now;
use crate::ids::fresh_id;
use crate::records::{BookingSummary, CalendarConnection, OfferReceipt, RealClass, RealError, Workspace};
use crate::school::{lists_classes, shows_workspace, class_of_workspace, confirmed_in, has_class_id, offer_url_spec, opened_by, BookingStatus, CalendarFeed, ClassRow, DeliveryStatus, OfferStatus, SchoolLedger, SeatBooking, SeatOffer, WaitlistEntry};
use crate::text::trim_end_matches_char;
use vstd::string::StringExecFns;
use crate::seqs::{first_match, is_permutation, lemma_first_match_at, lemma_first_match_none, ordered_by, sort_by_key};

verus! {

/// The calendar feed of workspace `wid`.
pub open spec fn feed_of(wid: Seq<char>) -> spec_fn(CalendarFeed) -> bool {
    |c: CalendarFeed| c.workspace_id@ == wid
}

/// Feed `n` is feed `o` reconnected: new label and sealed address, enabled,
/// due at `now`, error cleared; its id, workspace, creation time and last
/// poll stay.
pub open spec fn reconnected(n: CalendarFeed, o: CalendarFeed, cipher_key: Seq<u8>, label: Seq<char>, url: Seq<char>, now: i64) -> bool {
    &&& n.id == o.id
    &&& n.workspace_id == o.workspace_id
    &&& n.label@ == label
    &&& n.provider@ == "ical_feed"@
    &&& n.enabled
    &&& n.created_at == o.created_at
    &&& n.feed_url_encrypted matches Some(e) && open_spec(cipher_key, e@) == Ok::<Seq<char>, CipherError>(url)
    &&& n.next_poll_at == Some(now)
    &&& n.last_polled_at == o.last_polled_at
    &&& n.last_error is None
}

/// Feed `n` is a new connection of workspace `wid`.
pub open spec fn connected(n: CalendarFeed, wid: Seq<char>, cipher_key: Seq<u8>, label: Seq<char>, url: Seq<char>, now: i64) -> bool {
    &&& n.workspace_id@ == wid
    &&& n.label@ == label
    &&& n.provider@ == "ical_feed"@
    &&& n.enabled
    &&& n.created_at == now
    &&& n.feed_url_encrypted matches Some(e) && open_spec(cipher_key, e@) == Ok::<Seq<char>, CipherError>(url)
    &&& n.next_poll_at == Some(now)
    &&& n.last_polled_at is None
    &&& n.last_error is None
}

/// Summary `s` shows confirmed booking `b` with its contact opened under `cipher_key`.
pub open spec fn shows_summary(s: BookingSummary, b: SeatBooking, cipher_key: Seq<u8>) -> bool {
    &&& s.id@ == b.id@
    &&& open_spec(cipher_key, b.guardian_name@) == Ok::<Seq<char>, CipherError>(s.guardian_name@)
    &&& open_spec(cipher_key, b.guardian_email@) == Ok::<Seq<char>, CipherError>(s.guardian_email@)
    &&& s.created_at == b.created_at
}

/// Whether booking `b`'s contact cannot be opened under `cipher_key`.
pub open spec fn contact_unreadable(b: SeatBooking, cipher_key: Seq<u8>) -> bool {
    open_spec(cipher_key, b.guardian_name@) is Err || open_spec(cipher_key, b.guardian_email@) is Err
}

/// `v` shows bookings `rows`, oldest first, with contacts opened under `cipher_key`.
pub open spec fn summaries_of(v: Seq<BookingSummary>, rows: Seq<SeatBooking>, cipher_key: Seq<u8>) -> bool {
    exists|perm: Seq<int>| {
        &&& is_permutation(perm, rows.len() as int)
        &&& ordered_by(rows.map_values(|b: SeatBooking| b.created_at), perm, false)
        &&& v.len() == rows.len()
        &&& forall|k: int| 0 <= k < v.len() ==> shows_summary(#[trigger] v[k], rows[perm[k]], cipher_key)
    }
}

/// The confirmed bookings of class `class_id`, when it belongs to workspace `wid`.
pub open spec fn listed_bookings(l: SchoolLedger, wid: Seq<char>, class_id: Seq<char>) -> Seq<SeatBooking> {
    if class_of_workspace(l.classes@, wid, class_id) {
        l.bookings@.filter(confirmed_in(class_id))
    } else {
        Seq::<SeatBooking>::empty()
    }
}

impl SchoolLedger {
    /// Position of the calendar feed of workspace `wid`.
    fn find_feed(&self, wid: &String) -> (r: Option<usize>)
        ensures
            match r {
                Some(i) => i < self.calendars@.len() && first_match(self.calendars@, feed_of(wid@)) == Some(i as int),
                None => first_match(self.calendars@, feed_of(wid@)) is None,
            },
    {
        let mut i: usize = 0;
        while i < self.calendars.len()
            invariant
                i <= self.calendars@.len(),
                forall|j: int| 0 <= j < i ==> !(feed_of(wid@))(#[trigger] self.calendars@[j]),
            decreases self.calendars@.len() - i,
        {
            if self.calendars[i].workspace_id == *wid {
                proof {
                    lemma_first_match_at(self.calendars@, feed_of(wid@), i as int);
                }
                return Some(i);
            }
            i = i + 1;
        }
        proof {
            lemma_first_match_none(self.calendars@, feed_of(wid@));
        }
        None
    }

    /// Connects the iCalendar feed at `feed_url`, sealed by `cipher`, as the
    /// calendar of the workspace that `access_key` opens, replacing its
    /// earlier feed. The feed is due for a check at once.
    pub fn connect_calendar(&mut self, cipher: &ContactCipher, access_key: &str, label: &str, feed_url: &str, now: i64) -> (r: Result<CalendarConnection, RealError>)
        requires
            old(self).wf(),
            valid_now(now),
        ensures
            final(self).wf(),
            final(self).workspaces == old(self).workspaces,
            final(self).members == old(self).members,
            final(self).classes == old(self).classes,
            final(self).bookings == old(self).bookings,
            final(self).waitlist == old(self).waitlist,
            final(self).offers == old(self).offers,
            final(self).runs == old(self).runs,
            final(self).outbox == old(self).outbox,
            final(self).billing == old(self).billing,
            match first_match(old(self).workspaces@, opened_by(access_key@)) {
                None => *final(self) == *old(self) && r == Err::<CalendarConnection, RealError>(RealError::Forbidden),
                Some(w) => if encode_utf8(feed_url@).len() >= seal_limit() {
                    *final(self) == *old(self) && r == Err::<CalendarConnection, RealError>(RealError::Database)
                } else {
                    let wid = old(self).workspaces@[w].id@;
                    &&& r matches Ok(c) && c.label@ == label@ && c.provider@ == "ical_feed"@ && c.enabled
                        && c.last_polled_at is None && c.last_error is None
                    &&& match first_match(old(self).calendars@, feed_of(wid)) {
                        Some(k) => final(self).calendars@.len() == old(self).calendars@.len()
                            && (forall|j: int| 0 <= j < old(self).calendars@.len() && j != k ==> #[trigger] final(self).calendars@[j] == old(self).calendars@[j])
                            && reconnected(final(self).calendars@[k], old(self).calendars@[k], cipher.key(), label@, feed_url@, now),
                        None => final(self).calendars@.len() == old(self).calendars@.len() + 1
                            && final(self).calendars@.drop_last() == old(self).calendars@
                            && connected(final(self).calendars@.last(), wid, cipher.key(), label@, feed_url@, now),
                    }
                },
            },
    {
        proof {
            reveal_strlit("ical_feed");
        }
        let w = match self.find_workspace(access_key) {
            Some(w) => w,
            None => return Err(RealError::Forbidden),
        };
        let wid = self.workspaces[w].id.clone();
        let sealed = match cipher.encrypt(feed_url) {
            Ok(s) => s,
            Err(_) => return Err(RealError::Database),
        };
        let ghost before = self.calendars@;
        match self.find_feed(&wid) {
            Some(k) => {
                self.calendars[k].label = label.to_owned();
                self.calendars[k].provider = "ical_feed".to_owned();
                self.calendars[k].enabled = true;
                self.calendars[k].feed_url_encrypted = Some(sealed);
                self.calendars[k].next_poll_at = Some(now);
                self.calendars[k].last_error = None;
                proof {
                    assert forall|j: int| 0 <= j < before.len() && j != k implies #[trigger] self.calendars@[j] == before[j] by {}
                }
            },
            None => {
                self.calendars.push(CalendarFeed {
                    id: fresh_id(),
                    workspace_id: wid,
                    label: label.to_owned(),
                    provider: "ical_feed".to_owned(),
                    enabled: true,
                    created_at: now,
                    feed_url_encrypted: Some(sealed),
                    next_poll_at: Some(now),
                    last_polled_at: None,
                    last_error: None,
                });
                proof {
                    assert(self.calendars@.drop_last() =~= before);
                }
            },
        }
        Ok(CalendarConnection {
            label: label.to_owned(),
            provider: "ical_feed".to_owned(),
            enabled: true,
            last_polled_at: None,
            last_error: None,
        })
    }

    /// The confirmed bookings of class `class_id` in the workspace that
    /// `access_key` opens, oldest first, with contacts opened by `cipher`.
    /// A class of another workspace lists nothing; a contact that cannot be
    /// opened fails the whole list.
    pub fn list_confirmed_bookings(&self, cipher: &ContactCipher, access_key: &str, class_id: &str) -> (r: Result<Vec<BookingSummary>, RealError>)
        requires
            self.wf(),
        ensures
            match first_match(self.workspaces@, opened_by(access_key@)) {
                None => r == Err::<Vec<BookingSummary>, RealError>(RealError::Forbidden),
                Some(w) => {
                    let rows = listed_bookings(*self, self.workspaces@[w].id@, class_id@);
                    match r {
                        Ok(v) => summaries_of(v@, rows, cipher.key()),
                        Err(e) => e == RealError::Database && exists|k: int| 0 <= k < rows.len() && contact_unreadable(#[trigger] rows[k], cipher.key()),
                    }
                },
            },
    {
        let w = match self.find_workspace(access_key) {
            Some(w) => w,
            None => return Err(RealError::Forbidden),
        };
        let wid = self.workspaces[w].id.clone();
        let cid = class_id.to_owned();
        let in_ws = self.class_in_workspace(&wid, &cid);
        let ghost rows = listed_bookings(*self, wid@, class_id@);
        let ghost p = confirmed_in(class_id@);
        let mut positions: Vec<usize> = Vec::new();
        let mut keys: Vec<i64> = Vec::new();
        if in_ws {
            let mut i: usize = 0;
            proof {
                reveal_with_fuel(Seq::<_>::filter, 1);
                assert(self.bookings@.take(0) =~= Seq::<SeatBooking>::empty());
            }
            while i < self.bookings.len()
                invariant
                    p == confirmed_in(class_id@),
                    cid@ == class_id@,
                    i <= self.bookings@.len(),
                    positions@.len() == keys@.len(),
                    positions@.len() == self.bookings@.take(i as int).filter(p).len(),
                    forall|k: int| 0 <= k < positions@.len() ==> #[trigger] positions@[k] < i
                        && self.bookings@[positions@[k] as int] == self.bookings@.take(i as int).filter(p)[k]
                        && keys@[k] == self.bookings@[positions@[k] as int].created_at,
                decreases self.bookings@.len() - i,
            {
                proof {
                    reveal_with_fuel(Seq::<_>::filter, 1);
                    assert(self.bookings@.take(i + 1).drop_last() =~= self.bookings@.take(i as int));
                    assert(self.bookings@.take(i + 1).last() == self.bookings@[i as int]);
                }
                if self.bookings[i].class_id == cid && self.bookings[i].status == BookingStatus::Confirmed {
                    positions.push(i);
                    keys.push(self.bookings[i].created_at);
                }
                i = i + 1;
            }
            proof {
                assert(self.bookings@.take(i as int) =~= self.bookings@);
                assert(rows == self.bookings@.filter(p));
                assert forall|a: int| 0 <= a < keys@.len() implies keys@[a] == #[trigger] rows[a].created_at
                    && positions@[a] < self.bookings@.len()
                    && self.bookings@[positions@[a] as int] == rows[a] by {
                    assert(self.bookings@[positions@[a] as int] == self.bookings@.take(i as int).filter(p)[a]);
                }
            }
        }
        proof {
            if !in_ws {
                assert(rows.len() == 0);
            }
            assert(keys@ =~= rows.map_values(|b: SeatBooking| b.created_at));
        }
        let order = sort_by_key(&keys, false);
        let ghost perm = order@.map_values(|x: usize| x as int);
        let mut v: Vec<BookingSummary> = Vec::new();
        let mut k: usize = 0;
        while k < order.len()
            invariant
                first_match(self.workspaces@, opened_by(access_key@)) == Some(w as int),
                w < self.workspaces@.len(),
                wid@ == self.workspaces@[w as int].id@,
                rows == listed_bookings(*self, wid@, class_id@),
                perm == order@.map_values(|x: usize| x as int),
                is_permutation(perm, keys@.len() as int),
                ordered_by(keys@, perm, false),
                keys@ == rows.map_values(|b: SeatBooking| b.created_at),
                keys@.len() == rows.len(),
                positions@.len() == rows.len(),
                forall|a: int| 0 <= a < positions@.len() ==> #[trigger] positions@[a] < self.bookings@.len()
                    && self.bookings@[positions@[a] as int] == rows[a],
                k <= order@.len(),
                v@.len() == k,
                forall|a: int| 0 <= a < k ==> shows_summary(#[trigger] v@[a], rows[perm[a]], cipher.key()),
            decreases order@.len() - k,
        {
            proof {
                assert(perm[k as int] == order@[k as int] as int);
            }
            let pos = positions[order[k]];
            let b = &self.bookings[pos];
            let name = match cipher.decrypt(b.guardian_name.as_str()) {
                Ok(n) => n,
                Err(_) => {
                    proof {
                        assert(contact_unreadable(rows[perm[k as int]], cipher.key()));
                    }
                    return Err(RealError::Database);
                },
            };
            let email = match cipher.decrypt(b.guardian_email.as_str()) {
                Ok(m) => m,
                Err(_) => {
                    proof {
                        assert(contact_unreadable(rows[perm[k as int]], cipher.key()));
                    }
                    return Err(RealError::Database);
                },
            };
            v.push(BookingSummary { id: b.id.clone(), guardian_name: name, guardian_email: email, created_at: b.created_at });
            k = k + 1;
        }
        Ok(v)
    }
}

} // verus!

verus! {

/// The waitlist entry with id `id`.
pub open spec fn has_entry_id(id: Seq<char>) -> spec_fn(WaitlistEntry) -> bool {
    |e: WaitlistEntry| e.id@ == id
}

/// Offers that a receipt lists for workspace `wid`: the token was kept, the
/// class belongs to `wid` and the waitlist entry exists.
pub open spec fn receipt_row(classes: Seq<ClassRow>, waitlist: Seq<WaitlistEntry>, wid: Seq<char>) -> spec_fn(SeatOffer) -> bool {
    |o: SeatOffer| o.token_encrypted is Some
        && (match first_match(classes, has_class_id(o.class_id@)) {
            Some(ci) => classes[ci].workspace_id@ == wid,
            None => false,
        })
        && first_match(waitlist, has_entry_id(o.waitlist_entry_id@)) is Some
}

pub open spec fn offer_status_text(s: OfferStatus) -> Seq<char> {
    match s {
        OfferStatus::Open => "open"@,
        OfferStatus::Accepted => "accepted"@,
    }
}

pub open spec fn delivery_status_text(d: DeliveryStatus) -> Seq<char> {
    match d {
        DeliveryStatus::EmailQueued => "email_queued"@,
        DeliveryStatus::ReadyToCopy => "ready_to_copy"@,
    }
}

/// The delivery shown on a receipt at `now`: accepted, expired, or as stored.
pub open spec fn receipt_delivery(o: SeatOffer, now: i64) -> Seq<char> {
    if o.status == OfferStatus::Accepted {
        "accepted"@
    } else if o.expires_at <= now {
        "expired"@
    } else {
        delivery_status_text(o.delivery_status)
    }
}

/// The class of offer `o`.
pub open spec fn offer_class(l: SchoolLedger, o: SeatOffer) -> ClassRow {
    l.classes@[first_match(l.classes@, has_class_id(o.class_id@))->0]
}

/// The waitlist entry of offer `o`.
pub open spec fn offer_entry(l: SchoolLedger, o: SeatOffer) -> WaitlistEntry {
    l.waitlist@[first_match(l.waitlist@, has_entry_id(o.waitlist_entry_id@))->0]
}

/// Receipt `rc` shows offer `o` at `now`, with the token and the guardian's
/// name opened under `cipher_key` and the offer page under `base`.
pub open spec fn shows_receipt(rc: OfferReceipt, o: SeatOffer, l: SchoolLedger, cipher_key: Seq<u8>, base: Seq<char>, now: i64) -> bool {
    &&& rc.id@ == o.id@
    &&& rc.class_id@ == o.class_id@
    &&& rc.class_name@ == offer_class(l, o).name@
    &&& open_spec(cipher_key, offer_entry(l, o).guardian_name@) == Ok::<Seq<char>, CipherError>(rc.recipient_name@)
    &&& open_spec(cipher_key, (o.token_encrypted->0)@) matches Ok(t) && rc.offer_url@ == offer_url_spec(base, t)
    &&& rc.expires_at == o.expires_at
    &&& rc.offer_status@ == offer_status_text(o.status)
    &&& rc.delivery_status@ == receipt_delivery(o, now)
    &&& rc.created_at == o.created_at
}

/// Whether offer `o`'s token or guardian name cannot be opened.
pub open spec fn receipt_unreadable(o: SeatOffer, l: SchoolLedger, cipher_key: Seq<u8>) -> bool {
    open_spec(cipher_key, (o.token_encrypted->0)@) is Err || open_spec(cipher_key, offer_entry(l, o).guardian_name@) is Err
}

/// The most receipts listed at once.
pub open spec fn receipt_limit(n: int) -> int {
    if n < 50 { n } else { 50 }
}

fn offer_status_string(s: OfferStatus) -> (t: String)
    ensures
        t@ == offer_status_text(s),
{
    match s {
        OfferStatus::Open => "open".to_owned(),
        OfferStatus::Accepted => "accepted".to_owned(),
    }
}

fn receipt_delivery_string(o: &SeatOffer, now: i64) -> (t: String)
    ensures
        t@ == receipt_delivery(*o, now),
{
    if o.status == OfferStatus::Accepted {
        "accepted".to_owned()
    } else if o.expires_at <= now {
        "expired".to_owned()
    } else {
        match o.delivery_status {
            DeliveryStatus::EmailQueued => "email_queued".to_owned(),
            DeliveryStatus::ReadyToCopy => "ready_to_copy".to_owned(),
        }
    }
}

impl SchoolLedger {
    /// Position of the first waitlist entry with id `id`.
    fn find_entry_id(&self, id: &String) -> (r: Option<usize>)
        ensures
            match r {
                Some(i) => i < self.waitlist@.len() && first_match(self.waitlist@, has_entry_id(id@)) == Some(i as int),
                None => first_match(self.waitlist@, has_entry_id(id@)) is None,
            },
    {
        let mut i: usize = 0;
        while i < self.waitlist.len()
            invariant
                i <= self.waitlist@.len(),
                forall|j: int| 0 <= j < i ==> !(has_entry_id(id@))(#[trigger] self.waitlist@[j]),
            decreases self.waitlist@.len() - i,
        {
            if self.waitlist[i].id == *id {
                proof {
                    lemma_first_match_at(self.waitlist@, has_entry_id(id@), i as int);
                }
                return Some(i);
            }
            i = i + 1;
        }
        proof {
            lemma_first_match_none(self.waitlist@, has_entry_id(id@));
        }
        None
    }

    /// The receipts of the released-seat offers of the workspace that
    /// `access_key` opens, newest first and at most fifty, with tokens and
    /// names opened by `cipher` and offer pages under `offer_base_url`. A
    /// token or name that cannot be opened fails the whole list.
    pub fn list_offer_receipts(&self, cipher: &ContactCipher, access_key: &str, offer_base_url: &str, now: i64) -> (r: Result<Vec<OfferReceipt>, RealError>)
        requires
            self.wf(),
        ensures
            match first_match(self.workspaces@, opened_by(access_key@)) {
                None => r == Err::<Vec<OfferReceipt>, RealError>(RealError::Forbidden),
                Some(w) => {
                    let rows = self.offers@.filter(receipt_row(self.classes@, self.waitlist@, self.workspaces@[w].id@));
                    let n = receipt_limit(rows.len() as int);
                    exists|perm: Seq<int>| {
                        &&& is_permutation(perm, rows.len() as int)
                        &&& ordered_by(rows.map_values(|o: SeatOffer| o.created_at), perm, true)
                        &&& match r {
                            Ok(v) => v@.len() == n && forall|k: int| 0 <= k < n ==>
                                shows_receipt(#[trigger] v@[k], rows[perm[k]], *self, cipher.key(), offer_base_url@, now),
                            Err(e) => e == RealError::Database && exists|k: int| 0 <= k < n
                                && receipt_unreadable(#[trigger] rows[perm[k]], *self, cipher.key()),
                        }
                    }
                },
            },
    {
        proof {
            reveal_strlit("/offer/");
        }
        let w = match self.find_workspace(access_key) {
            Some(w) => w,
            None => return Err(RealError::Forbidden),
        };
        let wid = self.workspaces[w].id.clone();
        let ghost p = receipt_row(self.classes@, self.waitlist@, wid@);
        let ghost rows = self.offers@.filter(p);
        let mut positions: Vec<usize> = Vec::new();
        let mut class_pos: Vec<usize> = Vec::new();
        let mut entry_pos: Vec<usize> = Vec::new();
        let mut keys: Vec<i64> = Vec::new();
        let mut i: usize = 0;
        proof {
            reveal_with_fuel(Seq::<_>::filter, 1);
            assert(self.offers@.take(0) =~= Seq::<SeatOffer>::empty());
        }
        while i < self.offers.len()
            invariant
                p == receipt_row(self.classes@, self.waitlist@, wid@),
                i <= self.offers@.len(),
                positions@.len() == keys@.len(),
                class_pos@.len() == keys@.len(),
                entry_pos@.len() == keys@.len(),
                positions@.len() == self.offers@.take(i as int).filter(p).len(),
                forall|k: int| 0 <= k < positions@.len() ==> #[trigger] positions@[k] < i
                    && self.offers@[positions@[k] as int] == self.offers@.take(i as int).filter(p)[k]
                    && keys@[k] == self.offers@[positions@[k] as int].created_at
                    && first_match(self.classes@, has_class_id(self.offers@[positions@[k] as int].class_id@)) == Some(class_pos@[k] as int)
                    && class_pos@[k] < self.classes@.len()
                    && first_match(self.waitlist@, has_entry_id(self.offers@[positions@[k] as int].waitlist_entry_id@)) == Some(entry_pos@[k] as int)
                    && entry_pos@[k] < self.waitlist@.len(),
            decreases self.offers@.len() - i,
        {
            proof {
                reveal_with_fuel(Seq::<_>::filter, 1);
                assert(self.offers@.take(i + 1).drop_last() =~= self.offers@.take(i as int));
                assert(self.offers@.take(i + 1).last() == self.offers@[i as int]);
            }
            if self.offers[i].token_encrypted.is_some() {
                if let Some(ci) = self.find_class_id(&self.offers[i].class_id) {
                    if self.classes[ci].workspace_id == wid {
                        if let Some(ei) = self.find_entry_id(&self.offers[i].waitlist_entry_id) {
                            positions.push(i);
                            class_pos.push(ci);
                            entry_pos.push(ei);
                            keys.push(self.offers[i].created_at);
                        }
                    }
                }
            }
            i = i + 1;
        }
        proof {
            assert(self.offers@.take(i as int) =~= self.offers@);
            assert forall|a: int| 0 <= a < keys@.len() implies keys@[a] == #[trigger] rows[a].created_at
                && self.offers@[positions@[a] as int] == rows[a] by {
                assert(self.offers@[positions@[a] as int] == self.offers@.take(i as int).filter(p)[a]);
            }
            assert(keys@ =~= rows.map_values(|o: SeatOffer| o.created_at));
        }
        let order = sort_by_key(&keys, true);
        let ghost perm = order@.map_values(|x: usize| x as int);
        let limit: usize = if order.len() < 50 { order.len() } else { 50 };
        let base = trim_end_matches_char(offer_base_url, '/');
        let mut v: Vec<OfferReceipt> = Vec::new();
        let mut k: usize = 0;
        while k < limit
            invariant
                first_match(self.workspaces@, opened_by(access_key@)) == Some(w as int),
                w < self.workspaces@.len(),
                wid@ == self.workspaces@[w as int].id@,
                p == receipt_row(self.classes@, self.waitlist@, wid@),
                rows == self.offers@.filter(p),
                base@ == crate::text::trim_end_char(offer_base_url@, '/'),
                perm == order@.map_values(|x: usize| x as int),
                is_permutation(perm, keys@.len() as int),
                ordered_by(keys@, perm, true),
                keys@ == rows.map_values(|o: SeatOffer| o.created_at),
                keys@.len() == rows.len(),
                positions@.len() == rows.len(),
                class_pos@.len() == rows.len(),
                entry_pos@.len() == rows.len(),
                limit == receipt_limit(rows.len() as int),
                forall|a: int| 0 <= a < positions@.len() ==> #[trigger] positions@[a] < self.offers@.len()
                    && self.offers@[positions@[a] as int] == rows[a]
                    && first_match(self.classes@, has_class_id(rows[a].class_id@)) == Some(class_pos@[a] as int)
                    && class_pos@[a] < self.classes@.len()
                    && first_match(self.waitlist@, has_entry_id(rows[a].waitlist_entry_id@)) == Some(entry_pos@[a] as int)
                    && entry_pos@[a] < self.waitlist@.len(),
                k <= limit,
                v@.len() == k,
                forall|a: int| 0 <= a < k ==> shows_receipt(#[trigger] v@[a], rows[perm[a]], *self, cipher.key(), offer_base_url@, now),
            decreases limit - k,
        {
            proof {
                assert(perm[k as int] == order@[k as int] as int);
            }
            let j = order[k];
            let o = &self.offers[positions[j]];
            let sealed_token = match &o.token_encrypted {
                Some(t) => t,
                None => {
                    proof {
                        assert(p(rows[j as int]));
                    }
                    return Err(RealError::Database);
                },
            };
            let token = match cipher.decrypt(sealed_token.as_str()) {
                Ok(t) => t,
                Err(_) => {
                    proof {
                        assert(receipt_unreadable(rows[perm[k as int]], *self, cipher.key()));
                    }
                    return Err(RealError::Database);
                },
            };
            let recipient = match cipher.decrypt(self.waitlist[entry_pos[j]].guardian_name.as_str()) {
                Ok(n) => n,
                Err(_) => {
                    proof {
                        assert(receipt_unreadable(rows[perm[k as int]], *self, cipher.key()));
                    }
                    return Err(RealError::Database);
                },
            };
            let mut url = base.clone();
            url.append("/offer/");
            url.append(token.as_str());
            v.push(OfferReceipt {
                id: o.id.clone(),
                class_id: o.class_id.clone(),
                class_name: self.classes[class_pos[j]].name.clone(),
                recipient_name: recipient,
                offer_url: url,
                expires_at: o.expires_at,
                offer_status: offer_status_string(o.status),
                delivery_status: receipt_delivery_string(o, now),
                created_at: o.created_at,
            });
            k = k + 1;
        }
        Ok(v)
    }
}

/// Everything a workspace holds, for its owner: the workspace, its classes
/// and each class's confirmed bookings (by class id).
#[derive(Debug)]
pub struct WorkspaceExport {
    pub workspace: Workspace,
    pub classes: Vec<RealClass>,
    pub confirmed_bookings: Vec<(String, Vec<BookingSummary>)>,
}

/// The instant at which an export reads the classes: far enough ahead that
/// every class shows as past its cutoff.
pub open spec fn export_instant() -> i64 {
    2305843009213693951
}

impl SchoolLedger {
    /// The export of the workspace that `access_key` opens, with contacts
    /// opened by `cipher`. A contact that cannot be opened fails the export.
    pub fn export_workspace(&self, cipher: &ContactCipher, access_key: &str) -> (r: Result<WorkspaceExport, RealError>)
        requires
            self.wf(),
        ensures
            match first_match(self.workspaces@, opened_by(access_key@)) {
                None => r == Err::<WorkspaceExport, RealError>(RealError::Forbidden),
                Some(w) => {
                    let wid = self.workspaces@[w].id@;
                    match r {
                        Ok(e) => {
                            &&& shows_workspace(e.workspace, self.workspaces@[w])
                            &&& lists_classes(e.classes@, *self, wid, export_instant())
                            &&& e.confirmed_bookings@.len() == e.classes@.len()
                            &&& forall|k: int| 0 <= k < e.classes@.len() ==> {
                                let (id, list) = #[trigger] e.confirmed_bookings@[k];
                                &&& id@ == e.classes@[k].id@
                                &&& summaries_of(list@, listed_bookings(*self, wid, id@), cipher.key())
                            }
                        },
                        Err(e) => e == RealError::Database && exists|c: Seq<char>, j: int|
                            0 <= j < listed_bookings(*self, wid, c).len()
                                && contact_unreadable(#[trigger] listed_bookings(*self, wid, c)[j], cipher.key()),
                    }
                },
            },
    {
        let workspace = match self.workspace_from_key(access_key) {
            Ok(w) => w,
            Err(e) => return Err(e),
        };
        let classes = match self.list_real_classes(access_key, 2305843009213693951) {
            Ok(v) => v,
            Err(e) => return Err(e),
        };
        let ghost w = first_match(self.workspaces@, opened_by(access_key@))->0;
        proof {
            crate::seqs::lemma_first_match(self.workspaces@, opened_by(access_key@));
        }
        let mut all: Vec<(String, Vec<BookingSummary>)> = Vec::new();
        let mut k: usize = 0;
        while k < classes.len()
            invariant
                self.wf(),
                first_match(self.workspaces@, opened_by(access_key@)) == Some(w),
                0 <= w < self.workspaces@.len(),
                k <= classes@.len(),
                all@.len() == k,
                forall|a: int| 0 <= a < k ==> {
                    let (id, list) = #[trigger] all@[a];
                    &&& id@ == classes@[a].id@
                    &&& summaries_of(list@, listed_bookings(*self, self.workspaces@[w].id@, id@), cipher.key())
                },
            decreases classes@.len() - k,
        {
            let id = classes[k].id.clone();
            let list = match self.list_confirmed_bookings(cipher, access_key, id.as_str()) {
                Ok(v) => v,
                Err(e) => return Err(e),
            };
            all.push((id, list));
            k = k + 1;
        }
        Ok(WorkspaceExport { workspace, classes, confirmed_bookings: all })
    }
}

} // verus!
