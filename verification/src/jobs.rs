//! Background work on the school ledger: checking connected calendar feeds
//! against local seat counts, and delivering the email outbox. The server
//! fetches feeds and talks to the mail relay; these functions choose what is
//! due and record each outcome.
use vstd::prelude::*;
use crate::crypto::{ContactCipher, open_spec, CipherError};
use crate::demo::valid_now;
use crate::ical::{count_ical_events_by_summary, feed_summaries, occurrences};
use crate::ids::fresh_id;
use crate::school::{in_workspace, ClassRow, CalendarFeed, EmailStatus, OutboxEmail, ReconciliationRun, RunStatus, SchoolLedger};
use crate::text::{chars_of, string_of};

verus! {

/// The most feeds or emails handled in one round.
pub open spec fn batch(n: int) -> int {
    if n < 20 { n } else { 20 }
}

/// Whether feed `c` is due at `now`: enabled, with an address, and its next
/// check (none counts as the epoch) not later than `now`.
pub open spec fn feed_due(now: i64) -> spec_fn(CalendarFeed) -> bool {
    |c: CalendarFeed| c.enabled && c.feed_url_encrypted is Some
        && (match c.next_poll_at { Some(t) => t, None => 0 }) <= now
}

/// A calendar feed due for a check, with its address opened (or why not).
pub struct CalendarCheck {
    pub connection_id: String,
    pub workspace_id: String,
    pub feed_url: Result<String, CipherError>,
}

/// Check `k` is the one for feed `c`, its address opened under `cipher_key`.
pub open spec fn check_for(k: CalendarCheck, c: CalendarFeed, cipher_key: Seq<u8>) -> bool {
    &&& k.connection_id@ == c.id@
    &&& k.workspace_id@ == c.workspace_id@
    &&& match k.feed_url {
        Ok(u) => open_spec(cipher_key, (c.feed_url_encrypted->0)@) == Ok::<Seq<char>, CipherError>(u@),
        Err(e) => open_spec(cipher_key, (c.feed_url_encrypted->0)@) == Err::<Seq<char>, CipherError>(e),
    }
}

/// The calendar count of class `c` in feed text `body`: the events named
/// exactly as the class (saturated at `i64::MAX`).
pub open spec fn calendar_count(body: Seq<char>, c: ClassRow) -> int {
    let n = occurrences(feed_summaries(body), c.name@);
    if n <= i64::MAX { n as int } else { i64::MAX as int }
}

/// Run `r` reconciles class `c` against feed text `body` at `now`.
pub open spec fn reconciles(r: ReconciliationRun, c: ClassRow, body: Seq<char>, now: i64) -> bool {
    &&& r.class_id@ == c.id@
    &&& r.calendar_confirmed == calendar_count(body, c)
    &&& r.local_confirmed == c.confirmed
    &&& r.status == (if calendar_count(body, c) == c.confirmed { RunStatus::Matched } else { RunStatus::Attention })
    &&& r.created_at == now
}

/// Feed `c` after a successful check at `now`: checked now, next in five
/// minutes, error cleared.
pub open spec fn polled(c: CalendarFeed, now: i64) -> CalendarFeed {
    CalendarFeed {
        last_polled_at: Some(now),
        next_poll_at: Some((now + 300) as i64),
        last_error: None,
        ..c
    }
}

/// The first 240 characters of `s`.
pub open spec fn first_240(s: Seq<char>) -> Seq<char> {
    if s.len() <= 240 { s } else { s.take(240) }
}

/// The first 240 characters of `s`.
fn clip_240(s: &str) -> (r: String)
    ensures
        r@ == first_240(s@),
{
    let cs = chars_of(s);
    if cs.len() <= 240 {
        return string_of(cs.as_slice());
    }
    let mut out: Vec<char> = Vec::new();
    let mut i: usize = 0;
    while i < 240
        invariant
            cs@.len() > 240,
            i <= 240,
            out@ == cs@.take(i as int),
        decreases 240 - i,
    {
        out.push(cs[i]);
        proof {
            assert(cs@.take(i + 1) =~= cs@.take(i as int).push(cs@[i as int]));
        }
        i = i + 1;
    }
    string_of(out.as_slice())
}

/// Whether email `m` is due at `now`: pending or failed, its next attempt
/// not later than `now`, and fewer than five attempts made.
pub open spec fn email_due(now: i64) -> spec_fn(OutboxEmail) -> bool {
    |m: OutboxEmail| (m.status == EmailStatus::Pending || m.status == EmailStatus::Failed)
        && m.next_attempt_at <= now && m.attempts < 5
}

/// An email due for delivery.
pub struct DueEmail {
    pub id: String,
    pub recipient_encrypted: String,
    pub subject: String,
    pub text_body: String,
    pub attempts: i64,
}

pub open spec fn shows_email(d: DueEmail, m: OutboxEmail) -> bool {
    &&& d.id@ == m.id@
    &&& d.recipient_encrypted@ == m.recipient_encrypted@
    &&& d.subject@ == m.subject@
    &&& d.text_body@ == m.text_body@
    &&& d.attempts == m.attempts
}

/// `a + 1`, saturated at `i64::MAX`.
pub open spec fn one_more(a: i64) -> i64 {
    if a == i64::MAX { a } else { (a + 1) as i64 }
}

/// `a + 1`, saturated at `i64::MAX`.
fn add_one(a: i64) -> (b: i64)
    ensures
        b == one_more(a),
{
    if a == i64::MAX { a } else { a + 1 }
}

/// Email `m` captured at `now` (no relay configured).
pub open spec fn captured(m: OutboxEmail, now: i64) -> OutboxEmail {
    OutboxEmail { status: EmailStatus::Captured, attempts: one_more(m.attempts), sent_at: Some(now), ..m }
}

/// Whether email `n` is email `m` sent at `now`.
pub open spec fn sent(n: OutboxEmail, m: OutboxEmail, now: i64) -> bool {
    n == OutboxEmail { status: EmailStatus::Sent, attempts: one_more(m.attempts), sent_at: Some(now), last_error: None, ..m }
}

/// Whether email `n` is email `m` after a failed attempt at `now` with error
/// text `message`: retried a minute later.
pub open spec fn failed_attempt(n: OutboxEmail, m: OutboxEmail, message: Seq<char>, now: i64) -> bool {
    &&& n.status == EmailStatus::Failed
    &&& n.attempts == one_more(m.attempts)
    &&& n.next_attempt_at == now + 60
    &&& n.last_error matches Some(e) && e@ == first_240(message)
    &&& n.id == m.id && n.workspace_id == m.workspace_id && n.recipient_encrypted == m.recipient_encrypted
    &&& n.subject == m.subject && n.text_body == m.text_body && n.created_at == m.created_at
    &&& n.seat_offer_id == m.seat_offer_id && n.sent_at == m.sent_at
}

/// What checking one feed came to: the feed's text, or the error text.
pub struct CalendarOutcome {
    pub connection_id: String,
    pub workspace_id: String,
    pub body: Result<String, String>,
}

/// An outcome without an error.
pub open spec fn passed() -> spec_fn(CalendarOutcome) -> bool {
    |o: CalendarOutcome| o.body is Ok
}

/// Whether feed `n` is feed `c` after a failed check at `now` with error
/// text `message`: retried five minutes later.
pub open spec fn poll_failed(n: CalendarFeed, c: CalendarFeed, message: Seq<char>, now: i64) -> bool {
    &&& n.next_poll_at == Some((now + 300) as i64)
    &&& n.last_error matches Some(e) && e@ == first_240(message)
    &&& n.id == c.id && n.workspace_id == c.workspace_id && n.label == c.label && n.provider == c.provider
    &&& n.enabled == c.enabled && n.created_at == c.created_at && n.feed_url_encrypted == c.feed_url_encrypted
    &&& n.last_polled_at == c.last_polled_at
}

impl SchoolLedger {
    /// The feeds due for a check at `now`, at most twenty, in table order,
    /// with their addresses opened by `cipher`.
    pub fn due_calendar_checks(&self, cipher: &ContactCipher, now: i64) -> (r: Vec<CalendarCheck>)
        ensures
            r@.len() == batch(self.calendars@.filter(feed_due(now)).len() as int),
            forall|k: int| 0 <= k < r@.len() ==> check_for(#[trigger] r@[k], self.calendars@.filter(feed_due(now))[k], cipher.key()),
    {
        let ghost p = feed_due(now);
        let ghost rows = self.calendars@.filter(p);
        let mut r: Vec<CalendarCheck> = Vec::new();
        let mut i: usize = 0;
        proof {
            reveal_with_fuel(Seq::<_>::filter, 1);
            assert(self.calendars@.take(0) =~= Seq::<CalendarFeed>::empty());
        }
        while i < self.calendars.len() && r.len() < 20
            invariant
                p == feed_due(now),
                rows == self.calendars@.filter(p),
                i <= self.calendars@.len(),
                r@.len() == self.calendars@.take(i as int).filter(p).len(),
                r@.len() <= 20,
                forall|k: int| 0 <= k < r@.len() ==> check_for(#[trigger] r@[k], self.calendars@.take(i as int).filter(p)[k], cipher.key()),
            decreases self.calendars@.len() - i,
        {
            proof {
                reveal_with_fuel(Seq::<_>::filter, 1);
                assert(self.calendars@.take(i + 1).drop_last() =~= self.calendars@.take(i as int));
                assert(self.calendars@.take(i + 1).last() == self.calendars@[i as int]);
            }
            let c = &self.calendars[i];
            let next = match c.next_poll_at {
                Some(t) => t,
                None => 0,
            };
            if c.enabled && next <= now {
                if let Some(sealed) = &c.feed_url_encrypted {
                    r.push(CalendarCheck {
                        connection_id: c.id.clone(),
                        workspace_id: c.workspace_id.clone(),
                        feed_url: cipher.decrypt(sealed.as_str()),
                    });
                }
            }
            i = i + 1;
        }
        proof {
            crate::seqs::lemma_filter_prefix(self.calendars@, p, i as int);
        }
        r
    }

    /// Records a successful check of feed `connection_id` of workspace
    /// `workspace_id` whose text was `body`: one reconciliation run per
    /// class of the workspace, comparing the events named as the class with
    /// its confirmed seats; the feed is marked checked at `now` and due again
    /// five minutes later. Confirmed seats never change.
    pub fn record_calendar_check(&mut self, connection_id: &str, workspace_id: &str, body: &str, now: i64)
        requires
            old(self).wf(),
            valid_now(now),
        ensures
            final(self).wf(),
            final(self).workspaces == old(self).workspaces,
            final(self).members == old(self).members,
            final(self).classes == old(self).classes,
            final(self).bookings == old(self).bookings,
            final(self).waitlist == old(self).waitlist,
            final(self).offers == old(self).offers,
            final(self).outbox == old(self).outbox,
            final(self).billing == old(self).billing,
            ({
                let rows = old(self).classes@.filter(in_workspace(workspace_id@));
                &&& final(self).runs@.len() == old(self).runs@.len() + rows.len()
                &&& final(self).runs@.take(old(self).runs@.len() as int) == old(self).runs@
                &&& forall|k: int| 0 <= k < rows.len() ==> reconciles(#[trigger] final(self).runs@[old(self).runs@.len() + k], rows[k], body@, now)
            }),
            final(self).calendars@ == old(self).calendars@.map_values(|c: CalendarFeed| if c.id@ == connection_id@ { polled(c, now) } else { c }),
    {
        let counts = count_ical_events_by_summary(body);
        let wid = workspace_id.to_owned();
        let ghost p = in_workspace(workspace_id@);
        let ghost before = self.runs@;
        let mut i: usize = 0;
        proof {
            reveal_with_fuel(Seq::<_>::filter, 1);
            assert(self.classes@.take(0) =~= Seq::<ClassRow>::empty());
            assert(self.runs@.take(before.len() as int) =~= before);
        }
        while i < self.classes.len()
            invariant
                p == in_workspace(workspace_id@),
                wid@ == workspace_id@,
                counts@ == feed_summaries(body@),
                self.wf(),
                self.workspaces == old(self).workspaces,
                self.members == old(self).members,
                self.classes == old(self).classes,
                self.bookings == old(self).bookings,
                self.waitlist == old(self).waitlist,
                self.offers == old(self).offers,
                self.outbox == old(self).outbox,
                self.billing == old(self).billing,
                self.calendars == old(self).calendars,
                before == old(self).runs@,
                i <= self.classes@.len(),
                self.runs@.len() == before.len() + self.classes@.take(i as int).filter(p).len(),
                self.runs@.take(before.len() as int) == before,
                forall|k: int| 0 <= k < self.classes@.take(i as int).filter(p).len() ==>
                    reconciles(#[trigger] self.runs@[before.len() + k], self.classes@.take(i as int).filter(p)[k], body@, now),
            decreases self.classes@.len() - i,
        {
            proof {
                reveal_with_fuel(Seq::<_>::filter, 1);
                assert(self.classes@.take(i + 1).drop_last() =~= self.classes@.take(i as int));
                assert(self.classes@.take(i + 1).last() == self.classes@[i as int]);
            }
            if self.classes[i].workspace_id == wid {
                let calendar = counts.count(self.classes[i].name.as_str());
                let local = self.classes[i].confirmed;
                let status = if calendar == local { RunStatus::Matched } else { RunStatus::Attention };
                let ghost runs_before = self.runs@;
                self.runs.push(ReconciliationRun {
                    id: fresh_id(),
                    class_id: self.classes[i].id.clone(),
                    calendar_confirmed: calendar,
                    local_confirmed: local,
                    status,
                    created_at: now,
                });
                proof {
                    assert(self.runs@.take(before.len() as int) =~= runs_before.take(before.len() as int));
                }
            }
            i = i + 1;
        }
        proof {
            assert(self.classes@.take(i as int) =~= self.classes@);
        }
        let target = connection_id.to_owned();
        let ghost feeds = self.calendars@;
        let mut j: usize = 0;
        while j < self.calendars.len()
            invariant
                target@ == connection_id@,
                valid_now(now),
                self.wf(),
                self.workspaces == old(self).workspaces,
                self.members == old(self).members,
                self.classes == old(self).classes,
                self.bookings == old(self).bookings,
                self.waitlist == old(self).waitlist,
                self.offers == old(self).offers,
                self.outbox == old(self).outbox,
                self.billing == old(self).billing,
                self.runs@.len() == old(self).runs@.len() + old(self).classes@.filter(in_workspace(workspace_id@)).len(),
                self.runs@.take(old(self).runs@.len() as int) == old(self).runs@,
                forall|k: int| 0 <= k < old(self).classes@.filter(in_workspace(workspace_id@)).len() ==>
                    reconciles(#[trigger] self.runs@[old(self).runs@.len() + k], old(self).classes@.filter(in_workspace(workspace_id@))[k], body@, now),
                feeds == old(self).calendars@,
                self.calendars@.len() == feeds.len(),
                j <= feeds.len(),
                forall|k: int| 0 <= k < j ==> #[trigger] self.calendars@[k] == (if feeds[k].id@ == connection_id@ { polled(feeds[k], now) } else { feeds[k] }),
                forall|k: int| j <= k < feeds.len() ==> #[trigger] self.calendars@[k] == feeds[k],
                forall|k: int| 0 <= k < feeds.len() ==> ((#[trigger] feeds[k]).next_poll_at matches Some(t) ==> t >= i64::MIN + 7776000),
            decreases feeds.len() - j,
        {
            if self.calendars[j].id == target {
                self.calendars[j].last_polled_at = Some(now);
                self.calendars[j].next_poll_at = Some(now + 300);
                self.calendars[j].last_error = None;
            }
            j = j + 1;
        }
        proof {
            assert(self.calendars@ =~= feeds.map_values(|c: CalendarFeed| if c.id@ == connection_id@ { polled(c, now) } else { c }));
        }
    }

    /// Records a failed check of feed `connection_id` with error text
    /// `message` (its first 240 characters are kept): the feed is due again
    /// five minutes after `now`.
    pub fn record_calendar_failure(&mut self, connection_id: &str, message: &str, now: i64)
        requires
            old(self).wf(),
            valid_now(now),
        ensures
            final(self).wf(),
            final(self).workspaces == old(self).workspaces,
            final(self).members == old(self).members,
            final(self).classes == old(self).classes,
            final(self).bookings == old(self).bookings,
            final(self).waitlist == old(self).waitlist,
            final(self).offers == old(self).offers,
            final(self).runs == old(self).runs,
            final(self).outbox == old(self).outbox,
            final(self).billing == old(self).billing,
            final(self).calendars@.len() == old(self).calendars@.len(),
            forall|k: int| 0 <= k < old(self).calendars@.len() ==> if old(self).calendars@[k].id@ == connection_id@ {
                poll_failed(#[trigger] final(self).calendars@[k], old(self).calendars@[k], message@, now)
            } else {
                final(self).calendars@[k] == old(self).calendars@[k]
            },
    {
        let target = connection_id.to_owned();
        let clipped = clip_240(message);
        let ghost feeds = self.calendars@;
        let mut j: usize = 0;
        while j < self.calendars.len()
            invariant
                self.wf(),
                target@ == connection_id@,
                clipped@ == first_240(message@),
                valid_now(now),
                feeds == old(self).calendars@,
                self.workspaces == old(self).workspaces,
                self.members == old(self).members,
                self.classes == old(self).classes,
                self.bookings == old(self).bookings,
                self.waitlist == old(self).waitlist,
                self.offers == old(self).offers,
                self.runs == old(self).runs,
                self.outbox == old(self).outbox,
                self.billing == old(self).billing,
                self.calendars@.len() == feeds.len(),
                j <= feeds.len(),
                forall|k: int| 0 <= k < j ==> if feeds[k].id@ == connection_id@ {
                    poll_failed(#[trigger] self.calendars@[k], feeds[k], message@, now)
                } else {
                    self.calendars@[k] == feeds[k]
                },
                forall|k: int| j <= k < feeds.len() ==> #[trigger] self.calendars@[k] == feeds[k],
            decreases feeds.len() - j,
        {
            if self.calendars[j].id == target {
                self.calendars[j].next_poll_at = Some(now + 300);
                self.calendars[j].last_error = Some(clipped.clone());
            }
            j = j + 1;
        }
    }

    /// Records a round of feed checks, in order: each passed check as
    /// `record_calendar_check`, each failed one as `record_calendar_failure`.
    /// Returns how many feeds were checked without an error. Confirmed seats
    /// never change.
    pub fn record_calendar_round(&mut self, outcomes: Vec<CalendarOutcome>, now: i64) -> (checked: u64)
        requires
            old(self).wf(),
            valid_now(now),
        ensures
            final(self).wf(),
            checked == outcomes@.filter(passed()).len(),
            final(self).workspaces == old(self).workspaces,
            final(self).members == old(self).members,
            final(self).classes == old(self).classes,
            final(self).bookings == old(self).bookings,
            final(self).waitlist == old(self).waitlist,
            final(self).offers == old(self).offers,
            final(self).outbox == old(self).outbox,
            final(self).billing == old(self).billing,
            final(self).calendars@.len() == old(self).calendars@.len(),
    {
        let ghost p = passed();
        let mut checked: u64 = 0;
        let mut i: usize = 0;
        proof {
            reveal_with_fuel(Seq::<_>::filter, 1);
            assert(outcomes@.take(0) =~= Seq::<CalendarOutcome>::empty());
        }
        while i < outcomes.len()
            invariant
                p == passed(),
                valid_now(now),
                self.wf(),
                self.workspaces == old(self).workspaces,
                self.members == old(self).members,
                self.classes == old(self).classes,
                self.bookings == old(self).bookings,
                self.waitlist == old(self).waitlist,
                self.offers == old(self).offers,
                self.outbox == old(self).outbox,
                self.billing == old(self).billing,
                self.calendars@.len() == old(self).calendars@.len(),
                i <= outcomes@.len(),
                checked == outcomes@.take(i as int).filter(p).len(),
                checked <= i,
            decreases outcomes@.len() - i,
        {
            proof {
                reveal_with_fuel(Seq::<_>::filter, 1);
                assert(outcomes@.take(i + 1).drop_last() =~= outcomes@.take(i as int));
                assert(outcomes@.take(i + 1).last() == outcomes@[i as int]);
            }
            let o = &outcomes[i];
            match &o.body {
                Ok(body) => {
                    self.record_calendar_check(o.connection_id.as_str(), o.workspace_id.as_str(), body.as_str(), now);
                    proof {
                        assert(self.calendars@.len() == old(self).calendars@.len());
                    }
                    checked = checked + 1;
                },
                Err(message) => {
                    self.record_calendar_failure(o.connection_id.as_str(), message.as_str(), now);
                },
            }
            i = i + 1;
        }
        proof {
            assert(outcomes@.take(i as int) =~= outcomes@);
        }
        checked
    }

    /// The emails due for delivery at `now`, at most twenty, in table order.
    pub fn due_emails(&self, now: i64) -> (r: Vec<DueEmail>)
        ensures
            r@.len() == batch(self.outbox@.filter(email_due(now)).len() as int),
            forall|k: int| 0 <= k < r@.len() ==> shows_email(#[trigger] r@[k], self.outbox@.filter(email_due(now))[k]),
    {
        let ghost p = email_due(now);
        let mut r: Vec<DueEmail> = Vec::new();
        let mut i: usize = 0;
        proof {
            reveal_with_fuel(Seq::<_>::filter, 1);
            assert(self.outbox@.take(0) =~= Seq::<OutboxEmail>::empty());
        }
        while i < self.outbox.len() && r.len() < 20
            invariant
                p == email_due(now),
                i <= self.outbox@.len(),
                r@.len() == self.outbox@.take(i as int).filter(p).len(),
                r@.len() <= 20,
                forall|k: int| 0 <= k < r@.len() ==> shows_email(#[trigger] r@[k], self.outbox@.take(i as int).filter(p)[k]),
            decreases self.outbox@.len() - i,
        {
            proof {
                reveal_with_fuel(Seq::<_>::filter, 1);
                assert(self.outbox@.take(i + 1).drop_last() =~= self.outbox@.take(i as int));
                assert(self.outbox@.take(i + 1).last() == self.outbox@[i as int]);
            }
            let m = &self.outbox[i];
            if (m.status == EmailStatus::Pending || m.status == EmailStatus::Failed) && m.next_attempt_at <= now && m.attempts < 5 {
                r.push(DueEmail {
                    id: m.id.clone(),
                    recipient_encrypted: m.recipient_encrypted.clone(),
                    subject: m.subject.clone(),
                    text_body: m.text_body.clone(),
                    attempts: m.attempts,
                });
            }
            i = i + 1;
        }
        proof {
            crate::seqs::lemma_filter_prefix(self.outbox@, p, i as int);
        }
        r
    }

    /// Marks email `id` captured at `now`: no relay is configured, so the
    /// message is kept instead of sent.
    pub fn record_email_captured(&mut self, id: &str, now: i64)
        requires
            old(self).wf(),
        ensures
            final(self).wf(),
            final(self).workspaces == old(self).workspaces,
            final(self).members == old(self).members,
            final(self).classes == old(self).classes,
            final(self).bookings == old(self).bookings,
            final(self).waitlist == old(self).waitlist,
            final(self).offers == old(self).offers,
            final(self).runs == old(self).runs,
            final(self).calendars == old(self).calendars,
            final(self).billing == old(self).billing,
            final(self).outbox@ == old(self).outbox@.map_values(|m: OutboxEmail| if m.id@ == id@ { captured(m, now) } else { m }),
    {
        let target = id.to_owned();
        let ghost mails = self.outbox@;
        let mut j: usize = 0;
        while j < self.outbox.len()
            invariant
                target@ == id@,
                self.wf(),
                self.workspaces == old(self).workspaces,
                self.members == old(self).members,
                self.classes == old(self).classes,
                self.bookings == old(self).bookings,
                self.waitlist == old(self).waitlist,
                self.offers == old(self).offers,
                self.runs == old(self).runs,
                self.calendars == old(self).calendars,
                self.billing == old(self).billing,
                mails == old(self).outbox@,
                self.outbox@.len() == mails.len(),
                j <= mails.len(),
                forall|k: int| 0 <= k < j ==> #[trigger] self.outbox@[k] == (if mails[k].id@ == id@ { captured(mails[k], now) } else { mails[k] }),
                forall|k: int| j <= k < mails.len() ==> #[trigger] self.outbox@[k] == mails[k],
                forall|k: int| 0 <= k < mails.len() ==> 0 <= (#[trigger] mails[k]).attempts,
            decreases mails.len() - j,
        {
            if self.outbox[j].id == target {
                self.outbox[j].status = EmailStatus::Captured;
                self.outbox[j].attempts = add_one(self.outbox[j].attempts);
                self.outbox[j].sent_at = Some(now);
            }
            j = j + 1;
        }
        proof {
            assert(self.outbox@ =~= mails.map_values(|m: OutboxEmail| if m.id@ == id@ { captured(m, now) } else { m }));
        }
    }

    /// Marks email `id` sent at `now`.
    pub fn record_email_sent(&mut self, id: &str, now: i64)
        requires
            old(self).wf(),
        ensures
            final(self).wf(),
            final(self).workspaces == old(self).workspaces,
            final(self).members == old(self).members,
            final(self).classes == old(self).classes,
            final(self).bookings == old(self).bookings,
            final(self).waitlist == old(self).waitlist,
            final(self).offers == old(self).offers,
            final(self).runs == old(self).runs,
            final(self).calendars == old(self).calendars,
            final(self).billing == old(self).billing,
            final(self).outbox@.len() == old(self).outbox@.len(),
            forall|k: int| 0 <= k < old(self).outbox@.len() ==> if old(self).outbox@[k].id@ == id@ {
                sent(#[trigger] final(self).outbox@[k], old(self).outbox@[k], now)
            } else {
                final(self).outbox@[k] == old(self).outbox@[k]
            },
    {
        let target = id.to_owned();
        let ghost mails = self.outbox@;
        let mut j: usize = 0;
        while j < self.outbox.len()
            invariant
                target@ == id@,
                self.wf(),
                self.workspaces == old(self).workspaces,
                self.members == old(self).members,
                self.classes == old(self).classes,
                self.bookings == old(self).bookings,
                self.waitlist == old(self).waitlist,
                self.offers == old(self).offers,
                self.runs == old(self).runs,
                self.calendars == old(self).calendars,
                self.billing == old(self).billing,
                mails == old(self).outbox@,
                self.outbox@.len() == mails.len(),
                j <= mails.len(),
                forall|k: int| 0 <= k < j ==> if mails[k].id@ == id@ {
                    sent(#[trigger] self.outbox@[k], mails[k], now)
                } else {
                    self.outbox@[k] == mails[k]
                },
                forall|k: int| j <= k < mails.len() ==> #[trigger] self.outbox@[k] == mails[k],
                forall|k: int| 0 <= k < mails.len() ==> 0 <= (#[trigger] mails[k]).attempts,
            decreases mails.len() - j,
        {
            if self.outbox[j].id == target {
                self.outbox[j].status = EmailStatus::Sent;
                self.outbox[j].attempts = add_one(self.outbox[j].attempts);
                self.outbox[j].sent_at = Some(now);
                self.outbox[j].last_error = None;
            }
            j = j + 1;
        }
    }

    /// Records a failed delivery of email `id` at `now` with error text
    /// `message` (its first 240 characters are kept): retried a minute later.
    pub fn record_email_failed(&mut self, id: &str, message: &str, now: i64)
        requires
            old(self).wf(),
            valid_now(now),
        ensures
            final(self).wf(),
            final(self).workspaces == old(self).workspaces,
            final(self).members == old(self).members,
            final(self).classes == old(self).classes,
            final(self).bookings == old(self).bookings,
            final(self).waitlist == old(self).waitlist,
            final(self).offers == old(self).offers,
            final(self).runs == old(self).runs,
            final(self).calendars == old(self).calendars,
            final(self).billing == old(self).billing,
            final(self).outbox@.len() == old(self).outbox@.len(),
            forall|k: int| 0 <= k < old(self).outbox@.len() ==> if old(self).outbox@[k].id@ == id@ {
                failed_attempt(#[trigger] final(self).outbox@[k], old(self).outbox@[k], message@, now)
            } else {
                final(self).outbox@[k] == old(self).outbox@[k]
            },
    {
        let target = id.to_owned();
        let clipped = clip_240(message);
        let ghost mails = self.outbox@;
        let mut j: usize = 0;
        while j < self.outbox.len()
            invariant
                target@ == id@,
                clipped@ == first_240(message@),
                valid_now(now),
                self.wf(),
                self.workspaces == old(self).workspaces,
                self.members == old(self).members,
                self.classes == old(self).classes,
                self.bookings == old(self).bookings,
                self.waitlist == old(self).waitlist,
                self.offers == old(self).offers,
                self.runs == old(self).runs,
                self.calendars == old(self).calendars,
                self.billing == old(self).billing,
                mails == old(self).outbox@,
                self.outbox@.len() == mails.len(),
                j <= mails.len(),
                forall|k: int| 0 <= k < j ==> if mails[k].id@ == id@ {
                    failed_attempt(#[trigger] self.outbox@[k], mails[k], message@, now)
                } else {
                    self.outbox@[k] == mails[k]
                },
                forall|k: int| j <= k < mails.len() ==> #[trigger] self.outbox@[k] == mails[k],
                forall|k: int| 0 <= k < mails.len() ==> 0 <= (#[trigger] mails[k]).attempts,
            decreases mails.len() - j,
        {
            if self.outbox[j].id == target {
                self.outbox[j].status = EmailStatus::Failed;
                self.outbox[j].attempts = add_one(self.outbox[j].attempts);
                self.outbox[j].next_attempt_at = now + 60;
                self.outbox[j].last_error = Some(clipped.clone());
            }
            j = j + 1;
        }
    }
}

} // verus!