//! The decisions of the HTTP API: request validation, the error each refusal
//! is answered with, and the response bodies. Reading requests and writing
//! responses is left to the server around the library.
use vstd::prelude::*;
use vstd::utf8::encode_utf8;
use crate::records::{BookingError, ClassSession, RealError};
use crate::text::{chars_of, has_prefix, split_char, split_on, str_eq, str_has_prefix, string_of, trim_chars, trim_str, trim_ws, utf8_len_at_most};

verus! {

/// An error answer: HTTP status, stable code and a message for people.
#[derive(Clone, Copy, Debug)]
pub struct ApiError {
    pub status: u16,
    pub code: &'static str,
    pub message: &'static str,
}

/// The body of the health check.
#[derive(Debug)]
pub struct HealthResponse {
    pub status: &'static str,
    pub build: &'static str,
    pub database: &'static str,
}

/// The body of a demo session: the sample school and its classes.
#[derive(Debug)]
pub struct DemoResponse {
    pub school_name: &'static str,
    pub expires_at: i64,
    pub classes: Vec<ClassSession>,
}

/// A guardian's booking request.
#[derive(Debug)]
pub struct BookingRequest {
    pub guardian_name: String,
    pub guardian_email: String,
}

/// A request to open a school workspace.
#[derive(Debug)]
pub struct WorkspaceRequest {
    pub school_name: String,
}

/// A request to create a class.
#[derive(Debug)]
pub struct ClassRequest {
    pub name: String,
    pub starts_at: i64,
    pub booking_cutoff: i64,
    pub timezone: String,
    pub capacity: i64,
}

/// A request to connect a calendar feed.
#[derive(Debug)]
pub struct CalendarRequest {
    pub label: String,
}

/// A calendar's count of confirmed seats, to reconcile against.
#[derive(Debug)]
pub struct ReconcileRequest {
    pub calendar_confirmed: i64,
}

/// A guardian's request to join a waitlist.
#[derive(Debug)]
pub struct WaitlistRequest {
    pub guardian_name: String,
    pub guardian_email: String,
    pub consent: bool,
}

/// The answer when a value carries this error.
pub open spec fn answers(e: ApiError, status: u16, code: Seq<char>, message: Seq<char>) -> bool {
    e.status == status && e.code@ == code && e.message@ == message
}

/// The answer to a refused school operation.
pub open spec fn real_error_answer(error: RealError, e: ApiError) -> bool {
    match error {
        RealError::NotFound => answers(e, 404, "not_found"@, "This class is not available."@),
        RealError::Forbidden => answers(e, 403, "workspace_access_denied"@, "This workspace key cannot change this school."@),
        RealError::Full => answers(e, 409, "class_full"@, "This class is full. Join the waitlist instead."@),
        RealError::Cutoff => answers(e, 409, "booking_closed"@, "The booking cutoff has passed."@),
        RealError::OfferUnavailable => answers(e, 409, "offer_unavailable"@, "This released-seat offer is no longer available."@),
        RealError::SubscriptionRequired => answers(e, 402, "subscription_required"@, "Start a subscription to keep changing this school."@),
        RealError::Database => answers(e, 503, "service_unavailable"@, "The change could not be saved. Try again."@),
    }
}

/// The answer to a refused school operation.
pub fn real_error(error: RealError) -> (e: ApiError)
    ensures
        real_error_answer(error, e),
{
    match error {
        RealError::NotFound => ApiError { status: 404, code: "not_found", message: "This class is not available." },
        RealError::Forbidden => ApiError { status: 403, code: "workspace_access_denied", message: "This workspace key cannot change this school." },
        RealError::Full => ApiError { status: 409, code: "class_full", message: "This class is full. Join the waitlist instead." },
        RealError::Cutoff => ApiError { status: 409, code: "booking_closed", message: "The booking cutoff has passed." },
        RealError::OfferUnavailable => ApiError { status: 409, code: "offer_unavailable", message: "This released-seat offer is no longer available." },
        RealError::SubscriptionRequired => ApiError { status: 402, code: "subscription_required", message: "Start a subscription to keep changing this school." },
        RealError::Database => ApiError { status: 503, code: "service_unavailable", message: "The change could not be saved. Try again." },
    }
}

/// The answer to a refused demo booking.
pub open spec fn booking_error_answer(error: BookingError, e: ApiError) -> bool {
    match error {
        BookingError::NotFound => answers(e, 404, "class_not_found"@, "This sample class is not available. Reset the demo."@),
        BookingError::Full => answers(e, 409, "class_full"@, "This class is full. Choose another sample class."@),
        BookingError::Cutoff => answers(e, 409, "booking_closed"@, "The booking cutoff has passed. Choose another sample class."@),
        BookingError::Database => answers(e, 503, "booking_unavailable"@, "The booking could not be saved. Try again."@),
    }
}

/// The answer to a refused demo booking.
pub fn booking_error(error: BookingError) -> (e: ApiError)
    ensures
        booking_error_answer(error, e),
{
    match error {
        BookingError::NotFound => ApiError { status: 404, code: "class_not_found", message: "This sample class is not available. Reset the demo." },
        BookingError::Full => ApiError { status: 409, code: "class_full", message: "This class is full. Choose another sample class." },
        BookingError::Cutoff => ApiError { status: 409, code: "booking_closed", message: "The booking cutoff has passed. Choose another sample class." },
        BookingError::Database => ApiError { status: 503, code: "booking_unavailable", message: "The booking could not be saved. Try again." },
    }
}

/// Whether `v` looks like an email address: one `@`, something before it,
/// and a domain with a dot that neither starts nor ends with a dot.
pub open spec fn reasonable_email(v: Seq<char>) -> bool {
    let parts = split_char(v, '@');
    &&& parts.len() == 2
    &&& parts[0].len() > 0
    &&& parts[1].contains('.')
    &&& parts[1][0] != '.'
    &&& parts[1].last() != '.'
}

/// Whether `value` looks like an email address.
pub fn is_reasonable_email(value: &str) -> (b: bool)
    ensures
        b == reasonable_email(value@),
{
    let parts = split_on(value, '@');
    if parts.len() != 2 {
        return false;
    }
    let local = chars_of(parts[0].as_str());
    let domain = chars_of(parts[1].as_str());
    if local.len() == 0 || domain.len() == 0 {
        return false;
    }
    let mut has_dot = false;
    let mut i: usize = 0;
    while i < domain.len()
        invariant
            i <= domain@.len(),
            has_dot == (exists|j: int| 0 <= j < i && domain@[j] == '.'),
        decreases domain@.len() - i,
    {
        if domain[i] == '.' {
            has_dot = true;
        }
        i = i + 1;
    }
    has_dot && domain[0] != '.' && domain[domain.len() - 1] != '.'
}

/// `c` with ASCII capitals made small.
pub open spec fn ascii_lower(c: char) -> char {
    if 'A' <= c && c <= 'Z' { ((c as u32) + 32) as char } else { c }
}

/// `s` with ASCII capitals made small (as `str::to_ascii_lowercase`).
pub open spec fn ascii_lowercase(s: Seq<char>) -> Seq<char> {
    s.map_values(|c: char| ascii_lower(c))
}

/// `cs` with ASCII capitals made small.
fn lower_chars(cs: &Vec<char>) -> (r: Vec<char>)
    ensures
        r@ == ascii_lowercase(cs@),
{
    let mut r: Vec<char> = Vec::new();
    let mut i: usize = 0;
    while i < cs.len()
        invariant
            i <= cs@.len(),
            r@ == ascii_lowercase(cs@.take(i as int)),
        decreases cs@.len() - i,
    {
        let c = cs[i];
        let l = if 'A' <= c && c <= 'Z' { ((c as u32) + 32) as u8 as char } else { c };
        proof {
            if 'A' <= c && c <= 'Z' {
                assert(((c as u32) + 32) as u8 as char == ((c as u32) + 32) as char);
            }
        }
        r.push(l);
        proof {
            assert(ascii_lowercase(cs@.take(i + 1)) =~= ascii_lowercase(cs@.take(i as int)).push(ascii_lower(cs@[i as int])));
        }
        i = i + 1;
    }
    proof {
        assert(cs@.take(i as int) =~= cs@);
    }
    r
}

/// The answer to a guardian name that is not 2 to 80 characters long.
pub open spec fn invalid_name(e: ApiError) -> bool {
    answers(e, 422, "invalid_name"@, "Enter a guardian name between 2 and 80 characters."@)
}

/// The answer to an email address that is too long or malformed.
pub open spec fn invalid_email(e: ApiError) -> bool {
    answers(e, 422, "invalid_email"@, "Enter an email address such as name@example.org."@)
}

/// The contact a booking stores: the trimmed name and the trimmed, ASCII
/// lowercased email.
pub open spec fn normal_email(email: Seq<char>) -> Seq<char> {
    ascii_lowercase(trim_ws(email))
}

/// Whether a normalised email passes: at most 254 bytes, and reasonable.
pub open spec fn email_ok(email: Seq<char>) -> bool {
    encode_utf8(normal_email(email)).len() <= 254 && reasonable_email(normal_email(email))
}

/// Whether a trimmed guardian name is 2 to 80 characters long.
pub open spec fn name_ok(name: Seq<char>) -> bool {
    2 <= trim_ws(name).len() <= 80
}

/// Checks a guardian's name and email: the trimmed name must be 2 to 80
/// characters and the trimmed, lowercased email at most 254 bytes and
/// reasonable. Gives them back normalised.
pub fn valid_booking(name: &str, email: &str) -> (r: Result<(String, String), ApiError>)
    ensures
        match r {
            Ok((n, m)) => name_ok(name@) && email_ok(email@) && n@ == trim_ws(name@) && m@ == normal_email(email@),
            Err(e) => if !name_ok(name@) { invalid_name(e) } else { !email_ok(email@) && invalid_email(e) },
        },
{
    let n = trim_str(name);
    let e_chars = trim_chars(email);
    let lowered = lower_chars(&e_chars);
    let m = string_of(lowered.as_slice());
    let count = chars_of(n.as_str()).len();
    if !(2 <= count && count <= 80) {
        return Err(ApiError { status: 422, code: "invalid_name", message: "Enter a guardian name between 2 and 80 characters." });
    }
    if !utf8_len_at_most(m.as_str(), 254) || !is_reasonable_email(m.as_str()) {
        return Err(ApiError { status: 422, code: "invalid_email", message: "Enter an email address such as name@example.org." });
    }
    Ok((n, m))
}

/// Whether an `Idempotency-Key` header value is usable: 8 to 100 bytes.
pub open spec fn idempotency_key_ok(key: Seq<char>) -> bool {
    8 <= encode_utf8(key).len() <= 100
}

/// The answer to a missing or unusable idempotency key.
pub open spec fn idempotency_key_required(e: ApiError) -> bool {
    answers(e, 400, "idempotency_key_required"@, "Reload the form, then book again."@)
}

/// The idempotency key from its header value, when present and usable.
pub fn idempotency_key<'a>(header: Option<&'a str>) -> (r: Result<&'a str, ApiError>)
    ensures
        match header {
            Some(h) if idempotency_key_ok(h@) => r == Ok::<&str, ApiError>(h),
            _ => r matches Err(e) && idempotency_key_required(e),
        },
{
    match header {
        Some(h) if !utf8_len_at_most(h, 7) && utf8_len_at_most(h, 100) => Ok(h),
        _ => Err(ApiError { status: 400, code: "idempotency_key_required", message: "Reload the form, then book again." }),
    }
}

/// The answer to a missing or short workspace key.
pub open spec fn workspace_key_required(e: ApiError) -> bool {
    answers(e, 401, "workspace_key_required"@, "Open your school workspace before changing classes."@)
}

/// The workspace access key from its header value: present and at least 24
/// bytes long.
pub fn access_key<'a>(header: Option<&'a str>) -> (r: Result<&'a str, ApiError>)
    ensures
        match header {
            Some(h) if encode_utf8(h@).len() >= 24 => r == Ok::<&str, ApiError>(h),
            _ => r matches Err(e) && workspace_key_required(e),
        },
{
    match header {
        Some(h) if !utf8_len_at_most(h, 23) => Ok(h),
        _ => Err(ApiError { status: 401, code: "workspace_key_required", message: "Open your school workspace before changing classes." }),
    }
}

/// The answer to a request without a usable bearer token.
pub open spec fn sign_in_required(e: ApiError) -> bool {
    answers(e, 401, "sign_in_required"@, "Sign in with your school account."@)
}

/// The bearer token of an `Authorization` header value: the text after
/// `Bearer `. Without that scheme, sign-in is required.
pub fn bearer_token(header: Option<&str>) -> (r: Result<String, ApiError>)
    ensures
        match header {
            Some(h) if has_prefix(h@, "Bearer "@) => r matches Ok(t) && t@ == h@.skip(7),
            _ => r matches Err(e) && sign_in_required(e),
        },
{
    proof {
        reveal_strlit("Bearer ");
    }
    let refusal = ApiError { status: 401, code: "sign_in_required", message: "Sign in with your school account." };
    let h = match header {
        Some(h) => h,
        None => return Err(refusal),
    };
    if !str_has_prefix(h, "Bearer ") {
        return Err(refusal);
    }
    let cs = chars_of(h);
    let mut rest: Vec<char> = Vec::new();
    let mut i: usize = 7;
    while i < cs.len()
        invariant
            7 <= i <= cs@.len(),
            rest@ == cs@.subrange(7, i as int),
        decreases cs@.len() - i,
    {
        rest.push(cs[i]);
        proof {
            assert(cs@.subrange(7, i + 1) =~= cs@.subrange(7, i as int).push(cs@[i as int]));
        }
        i = i + 1;
    }
    proof {
        assert(rest@ =~= h@.skip(7));
    }
    Ok(string_of(rest.as_slice()))
}

/// A demo booking request that passed every check.
#[derive(Debug)]
pub struct DemoBooking {
    pub tenant_id: String,
    pub idempotency_key: String,
    pub guardian_name: String,
    pub guardian_email: String,
}

/// Checks a demo booking in the order the API answers: the demo cookie must
/// have proved a tenant (`tenant`), then the idempotency key, the name and
/// the email must pass.
pub fn demo_booking(tenant: Option<String>, idempotency_header: Option<&str>, request: &BookingRequest) -> (r: Result<DemoBooking, ApiError>)
    ensures
        match tenant {
            None => r matches Err(e) && answers(e, 401, "demo_cookie_missing"@, "Reload the sample before booking."@),
            Some(t) => match idempotency_header {
                Some(h) if idempotency_key_ok(h@) => match r {
                    Ok(b) => b.tenant_id@ == t@ && b.idempotency_key@ == h@
                        && name_ok(request.guardian_name@) && email_ok(request.guardian_email@)
                        && b.guardian_name@ == trim_ws(request.guardian_name@)
                        && b.guardian_email@ == normal_email(request.guardian_email@),
                    Err(e) => if !name_ok(request.guardian_name@) { invalid_name(e) } else { !email_ok(request.guardian_email@) && invalid_email(e) },
                },
                _ => r matches Err(e) && idempotency_key_required(e),
            },
        },
{
    let tenant_id = match tenant {
        Some(t) => t,
        None => return Err(ApiError { status: 401, code: "demo_cookie_missing", message: "Reload the sample before booking." }),
    };
    let key = match idempotency_key(idempotency_header) {
        Ok(k) => k,
        Err(e) => return Err(e),
    };
    match valid_booking(request.guardian_name.as_str(), request.guardian_email.as_str()) {
        Ok((name, email)) => Ok(DemoBooking {
            tenant_id,
            idempotency_key: key.to_owned(),
            guardian_name: name,
            guardian_email: email,
        }),
        Err(e) => Err(e),
    }
}

/// Checks a school booking: the idempotency key, then the name and email.
/// Gives back the key, the trimmed name and the normalised email.
pub fn real_booking(idempotency_header: Option<&str>, request: &BookingRequest) -> (r: Result<(String, String, String), ApiError>)
    ensures
        match idempotency_header {
            Some(h) if idempotency_key_ok(h@) => match r {
                Ok((k, n, m)) => k@ == h@ && name_ok(request.guardian_name@) && email_ok(request.guardian_email@)
                    && n@ == trim_ws(request.guardian_name@) && m@ == normal_email(request.guardian_email@),
                Err(e) => if !name_ok(request.guardian_name@) { invalid_name(e) } else { !email_ok(request.guardian_email@) && invalid_email(e) },
            },
            _ => r matches Err(e) && idempotency_key_required(e),
        },
{
    let key = match idempotency_key(idempotency_header) {
        Ok(k) => k,
        Err(e) => return Err(e),
    };
    match valid_booking(request.guardian_name.as_str(), request.guardian_email.as_str()) {
        Ok((name, email)) => Ok((key.to_owned(), name, email)),
        Err(e) => Err(e),
    }
}

/// Checks a waitlist request: the name and email, then the guardian's
/// consent to be emailed an offer.
pub fn waitlist_request(request: &WaitlistRequest) -> (r: Result<(String, String), ApiError>)
    ensures
        match r {
            Ok((n, m)) => name_ok(request.guardian_name@) && email_ok(request.guardian_email@) && request.consent
                && n@ == trim_ws(request.guardian_name@) && m@ == normal_email(request.guardian_email@),
            Err(e) => if !name_ok(request.guardian_name@) {
                invalid_name(e)
            } else if !email_ok(request.guardian_email@) {
                invalid_email(e)
            } else {
                !request.consent && answers(e, 422, "consent_required"@, "Agree to receive this released-seat offer by email."@)
            },
        },
{
    let (name, email) = match valid_booking(request.guardian_name.as_str(), request.guardian_email.as_str()) {
        Ok(v) => v,
        Err(e) => return Err(e),
    };
    if !request.consent {
        return Err(ApiError { status: 422, code: "consent_required", message: "Agree to receive this released-seat offer by email." });
    }
    Ok((name, email))
}

/// Checks a school name: 2 to 100 characters once trimmed. Gives it back trimmed.
pub fn school_name(request: &WorkspaceRequest) -> (r: Result<String, ApiError>)
    ensures
        match r {
            Ok(n) => 2 <= trim_ws(request.school_name@).len() <= 100 && n@ == trim_ws(request.school_name@),
            Err(e) => !(2 <= trim_ws(request.school_name@).len() <= 100)
                && answers(e, 422, "invalid_school_name"@, "Enter a school name between 2 and 100 characters."@),
        },
{
    let n = trim_str(request.school_name.as_str());
    let count = chars_of(n.as_str()).len();
    if !(2 <= count && count <= 100) {
        return Err(ApiError { status: 422, code: "invalid_school_name", message: "Enter a school name between 2 and 100 characters." });
    }
    Ok(n)
}

/// Whether a class request can be accepted at `now`: a name of 2 to 120
/// characters once trimmed, 1 to 500 seats, a cutoff before the start and
/// after `now`, and a time zone.
pub open spec fn class_request_ok(request: ClassRequest, now: i64) -> bool {
    &&& 2 <= trim_ws(request.name@).len() <= 120
    &&& 1 <= request.capacity <= 500
    &&& request.booking_cutoff < request.starts_at
    &&& request.booking_cutoff > now
    &&& trim_ws(request.timezone@).len() > 0
}

/// A class request that passed: trimmed name and time zone.
#[derive(Debug)]
pub struct ValidClass {
    pub name: String,
    pub starts_at: i64,
    pub booking_cutoff: i64,
    pub timezone: String,
    pub capacity: i64,
}

/// Checks a class request at `now`.
pub fn class_request(request: &ClassRequest, now: i64) -> (r: Result<ValidClass, ApiError>)
    ensures
        match r {
            Ok(c) => class_request_ok(*request, now) && c.name@ == trim_ws(request.name@)
                && c.timezone@ == trim_ws(request.timezone@) && c.starts_at == request.starts_at
                && c.booking_cutoff == request.booking_cutoff && c.capacity == request.capacity,
            Err(e) => !class_request_ok(*request, now)
                && answers(e, 422, "invalid_class"@, "Set a class name, capacity, future cutoff before its start, and time zone."@),
        },
{
    let name = trim_str(request.name.as_str());
    let timezone = trim_str(request.timezone.as_str());
    let count = chars_of(name.as_str()).len();
    let zone_len = chars_of(timezone.as_str()).len();
    if !(2 <= count && count <= 120) || !(1 <= request.capacity && request.capacity <= 500)
        || request.booking_cutoff >= request.starts_at || request.booking_cutoff <= now || zone_len == 0 {
        return Err(ApiError {
            status: 422,
            code: "invalid_class",
            message: "Set a class name, capacity, future cutoff before its start, and time zone.",
        });
    }
    Ok(ValidClass {
        name,
        starts_at: request.starts_at,
        booking_cutoff: request.booking_cutoff,
        timezone,
        capacity: request.capacity,
    })
}

/// Checks a calendar label: 2 to 100 characters once trimmed. Gives it back trimmed.
pub fn calendar_label(request: &CalendarRequest) -> (r: Result<String, ApiError>)
    ensures
        match r {
            Ok(l) => 2 <= trim_ws(request.label@).len() <= 100 && l@ == trim_ws(request.label@),
            Err(e) => !(2 <= trim_ws(request.label@).len() <= 100)
                && answers(e, 422, "invalid_calendar"@, "Name the calendar source before connecting it."@),
        },
{
    let l = trim_str(request.label.as_str());
    let count = chars_of(l.as_str()).len();
    if !(2 <= count && count <= 100) {
        return Err(ApiError { status: 422, code: "invalid_calendar", message: "Name the calendar source before connecting it." });
    }
    Ok(l)
}

/// Checks a calendar count: zero or more.
pub fn reconcile_count(request: &ReconcileRequest) -> (r: Result<i64, ApiError>)
    ensures
        match r {
            Ok(n) => request.calendar_confirmed >= 0 && n == request.calendar_confirmed,
            Err(e) => request.calendar_confirmed < 0
                && answers(e, 422, "invalid_calendar_count"@, "Calendar bookings must be zero or more."@),
        },
{
    if request.calendar_confirmed < 0 {
        return Err(ApiError { status: 422, code: "invalid_calendar_count", message: "Calendar bookings must be zero or more." });
    }
    Ok(request.calendar_confirmed)
}

/// The health answer: 200 and "ok" when the database answered, else 503
/// and "error".
pub fn health_response(database_ready: bool, build: &'static str) -> (r: (u16, HealthResponse))
    ensures
        database_ready ==> r.0 == 200 && r.1.status@ == "ok"@ && r.1.database@ == "ready"@,
        !database_ready ==> r.0 == 503 && r.1.status@ == "error"@ && r.1.database@ == "unavailable"@,
        r.1.build == build,
{
    if database_ready {
        (200, HealthResponse { status: "ok", build, database: "ready" })
    } else {
        (503, HealthResponse { status: "error", build, database: "unavailable" })
    }
}

/// The demo session body at `now`: the sample school, expiring a day later.
pub fn demo_payload(classes: Vec<ClassSession>, now: i64) -> (r: DemoResponse)
    requires
        now <= i64::MAX - 86400,
    ensures
        r.school_name@ == "Bright Path Languages"@,
        r.expires_at == now + 86400,
        r.classes@ == classes@,
{
    DemoResponse { school_name: "Bright Path Languages", expires_at: now + 86400, classes }
}

/// The `Cache-Control` value of a response with `status` to a request for
/// `path`: built assets are cached for a year, everything else revalidated;
/// unsuccessful responses get none.
pub fn cache_control(path: &str, status: u16) -> (r: Option<&'static str>)
    ensures
        !(200 <= status <= 299) ==> r is None,
        200 <= status <= 299 && has_prefix(path@, "/assets/"@) ==> (r matches Some(v) && v@ == "public, max-age=31536000, immutable"@),
        200 <= status <= 299 && !has_prefix(path@, "/assets/"@) ==> (r matches Some(v) && v@ == "no-cache, max-age=0"@),
{
    if !(200 <= status && status <= 299) {
        return None;
    }
    if str_has_prefix(path, "/assets/") {
        Some("public, max-age=31536000, immutable")
    } else {
        Some("no-cache, max-age=0")
    }
}

/// Whether a successful request with HTTP method `method` changed state and
/// must be persisted: anything but GET, HEAD and OPTIONS.
pub fn persists_mutation(method: &str) -> (b: bool)
    ensures
        b == !(method@ == "GET"@ || method@ == "HEAD"@ || method@ == "OPTIONS"@),
{
    !(str_eq(method, "GET") || str_eq(method, "HEAD") || str_eq(method, "OPTIONS"))
}

/// Whether a byte sequence ends with `suffix`.
pub open spec fn has_suffix(s: Seq<u8>, suffix: Seq<u8>) -> bool {
    suffix.len() <= s.len() && s.skip(s.len() - suffix.len()) == suffix
}

/// Whether browsers from `origin` may call the API: the product's own
/// origin or any `.sociobot.in` origin.
pub fn origin_allowed(origin: &[u8]) -> (b: bool)
    ensures
        b == (has_suffix(origin@, encode_utf8(".sociobot.in"@)) || origin@ == encode_utf8("https://class-capacity-truth.sociobot.in"@)),
{
    let suffix = ".sociobot.in".as_bytes();
    let own = "https://class-capacity-truth.sociobot.in".as_bytes();
    bytes_end_with(origin, suffix) || bytes_equal(origin, own)
}

fn bytes_end_with(s: &[u8], suffix: &[u8]) -> (b: bool)
    ensures
        b == has_suffix(s@, suffix@),
{
    if suffix.len() > s.len() {
        return false;
    }
    let start = s.len() - suffix.len();
    let mut k: usize = 0;
    while k < suffix.len()
        invariant
            start + suffix@.len() == s@.len(),
            s@.len() <= usize::MAX,
            k <= suffix@.len(),
            forall|j: int| 0 <= j < k ==> s@[start + j] == suffix@[j],
        decreases suffix@.len() - k,
    {
        if s[start + k] != suffix[k] {
            proof {
                assert(s@.skip(start as int)[k as int] != suffix@[k as int]);
            }
            return false;
        }
        k = k + 1;
    }
    proof {
        assert(s@.skip(start as int) =~= suffix@);
    }
    true
}

fn bytes_equal(a: &[u8], b: &[u8]) -> (r: bool)
    ensures
        r == (a@ == b@),
{
    if a.len() != b.len() {
        return false;
    }
    let mut k: usize = 0;
    while k < a.len()
        invariant
            a@.len() == b@.len(),
            k <= a@.len(),
            forall|j: int| 0 <= j < k ==> a@[j] == b@[j],
        decreases a@.len() - k,
    {
        if a[k] != b[k] {
            return false;
        }
        k = k + 1;
    }
    proof {
        assert(a@ =~= b@);
    }
    true
}

/// Whether a new demo cookie is marked secure: the request reached the
/// proxy over HTTPS.
pub fn secure_cookie(forwarded_proto: Option<&str>) -> (b: bool)
    ensures
        b == (forwarded_proto matches Some(p) && p@ == "https"@),
{
    match forwarded_proto {
        Some(p) => str_eq(p, "https"),
        None => false,
    }
}

} // verus!
