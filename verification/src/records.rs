//! Values that the ledger hands out: class views, bookings, workspaces,
//! offers and the errors of each operation.
use vstd::prelude::*;

verus! {

/// Whether a class can still take a booking.
#[derive(Clone, Copy, Debug, PartialEq, Eq, Structural)]
pub enum Availability {
    Available,
    Full,
    Cutoff,
}

/// A full class is full whatever its cutoff; otherwise booking closes at the
/// exact cutoff instant.
pub open spec fn availability_spec(capacity: i64, confirmed: i64, cutoff: i64, now: i64) -> Availability {
    if confirmed >= capacity {
        Availability::Full
    } else if cutoff <= now {
        Availability::Cutoff
    } else {
        Availability::Available
    }
}

/// The availability of a class at instant `now`.
pub fn availability_at(capacity: i64, confirmed: i64, cutoff: i64, now: i64) -> (a: Availability)
    ensures
        a == availability_spec(capacity, confirmed, cutoff, now),
{
    if confirmed >= capacity {
        Availability::Full
    } else if cutoff <= now {
        Availability::Cutoff
    } else {
        Availability::Available
    }
}

/// A sample class as shown to a demo visitor.
#[derive(Debug)]
pub struct ClassSession {
    pub public_id: String,
    pub name: String,
    pub starts_at: i64,
    pub booking_cutoff: i64,
    pub timezone: String,
    pub capacity: i64,
    pub confirmed: i64,
    pub open_seats: i64,
    pub availability: Availability,
}

/// Why a demo booking was refused.
#[derive(Debug, PartialEq, Eq, Structural)]
pub enum BookingError {
    NotFound,
    Full,
    Cutoff,
    Database,
}

/// A demo booking, new or repeated under the same idempotency key.
#[derive(Debug)]
pub struct BookingResult {
    pub booking_id: String,
    pub class: ClassSession,
    pub repeated: bool,
}

/// A school workspace.
#[derive(Debug)]
pub struct Workspace {
    pub id: String,
    pub school_name: String,
    pub subscription_status: String,
    pub trial_ends_at: Option<i64>,
}

/// A confirmed booking with its decrypted contact.
#[derive(Debug)]
pub struct BookingSummary {
    pub id: String,
    pub guardian_name: String,
    pub guardian_email: String,
    pub created_at: i64,
}

/// The fields of a school class to create.
pub struct NewRealClass<'a> {
    pub name: &'a str,
    pub starts_at: i64,
    pub cutoff: i64,
    pub timezone: &'a str,
    pub capacity: i64,
}

/// The outcome of releasing a seat: the offer made to the oldest waiting
/// guardian, if there was one.
#[derive(Debug)]
pub struct ReleaseResult {
    pub offer_token: Option<String>,
    pub offer_url: Option<String>,
    pub expires_at: Option<i64>,
    pub delivery_status: &'static str,
}

/// A saved receipt of a released-seat offer.
#[derive(Debug)]
pub struct OfferReceipt {
    pub id: String,
    pub class_id: String,
    pub class_name: String,
    pub recipient_name: String,
    pub offer_url: String,
    pub expires_at: i64,
    pub offer_status: String,
    pub delivery_status: String,
    pub created_at: i64,
}

/// A school class as shown to staff and guardians.
#[derive(Debug)]
pub struct RealClass {
    pub id: String,
    pub public_id: String,
    pub name: String,
    pub starts_at: i64,
    pub booking_cutoff: i64,
    pub timezone: String,
    pub capacity: i64,
    pub confirmed: i64,
    pub open_seats: i64,
    pub availability: Availability,
    pub published: bool,
    pub calendar_confirmed: Option<i64>,
    pub reconciliation_status: Option<String>,
}

/// A workspace's calendar feed connection.
#[derive(Debug)]
pub struct CalendarConnection {
    pub label: String,
    pub provider: String,
    pub enabled: bool,
    pub last_polled_at: Option<i64>,
    pub last_error: Option<String>,
}

/// An open released-seat offer, as shown to its guardian.
#[derive(Debug)]
pub struct WaitlistOffer {
    pub offer_token: String,
    pub class: RealClass,
    pub expires_at: i64,
}

/// Why a school operation was refused.
#[derive(Debug, PartialEq, Eq, Structural)]
pub enum RealError {
    NotFound,
    Forbidden,
    Full,
    Cutoff,
    OfferUnavailable,
    SubscriptionRequired,
    Database,
}

} // verus!
