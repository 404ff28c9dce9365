//! Operational metrics: fixed route groups, per-route request counters and
//! their Prometheus rendering. Labels come from a fixed list, so no request
//! can put a guardian, class, offer token or other user value into a metric.
use vstd::prelude::*;
use vstd::utf8::encode_utf8;
use crate::seqs::first_match;
use crate::text::{has_prefix, push_char, str_eq, str_has_prefix};
use vstd::string::StringExecFns;

verus! {

/// Per-workspace operational figures.
#[derive(Clone, Copy, Debug)]
pub struct WorkspaceMetrics {
    pub calendar_job_lag_seconds: i64,
    pub unresolved_discrepancies: i64,
    pub offers_created: i64,
    pub offers_accepted: i64,
}

/// The route group of request path `path`.
pub open spec fn route_group_spec(path: Seq<char>) -> Seq<char> {
    if path == "/health"@ {
        "health"@
    } else if path == "/api/metrics"@ || path == "/api/workspaces/metrics"@ {
        "metrics"@
    } else if has_prefix(path, "/api/demo/"@) {
        "demo_api"@
    } else if has_prefix(path, "/api/workspaces/"@) || path == "/api/workspaces"@ {
        "workspace_api"@
    } else if has_prefix(path, "/api/classes/"@) {
        "public_booking_api"@
    } else if has_prefix(path, "/api/offers/"@) {
        "offer_api"@
    } else if has_prefix(path, "/api/"@) {
        "api_other"@
    } else if has_prefix(path, "/assets/"@) {
        "assets"@
    } else {
        "web"@
    }
}

/// The fixed labels that a route group can be.
pub open spec fn is_route_label(l: Seq<char>) -> bool {
    l == "health"@ || l == "metrics"@ || l == "demo_api"@ || l == "workspace_api"@
        || l == "public_booking_api"@ || l == "offer_api"@ || l == "api_other"@ || l == "assets"@
        || l == "web"@
}

/// Every route group is one of the fixed labels, whatever the path holds.
pub proof fn lemma_route_group_is_fixed(path: Seq<char>)
    ensures
        is_route_label(route_group_spec(path)),
{
}

/// The path prefixes under which path values (ids, tokens, file names) sit.
pub open spec fn value_prefix(p: Seq<char>) -> bool {
    p == "/api/demo/"@ || p == "/api/classes/"@ || p == "/api/offers/"@ || p == "/assets/"@
}

/// No path value reaches a metric label: below each prefix that carries
/// values, every path falls in the same route group, whatever follows.
pub proof fn lemma_route_group_ignores_values(p: Seq<char>, a: Seq<char>, b: Seq<char>)
    requires
        value_prefix(p),
    ensures
        route_group_spec(p + a) == route_group_spec(p + b),
{
    lemma_prefix_group(p, a);
    lemma_prefix_group(p, b);
}

/// A text that differs from `q` at position `k` does not begin with `q`.
proof fn lemma_differs_at(x: Seq<char>, q: Seq<char>, k: int)
    requires
        0 <= k < q.len(),
        k < x.len(),
        x[k] != q[k],
    ensures
        !has_prefix(x, q),
{
    if has_prefix(x, q) {
        assert(x.take(q.len() as int)[k] == q[k]);
    }
}

/// The route group of a path below a value prefix.
proof fn lemma_prefix_group(p: Seq<char>, a: Seq<char>)
    requires
        value_prefix(p),
    ensures
        route_group_spec(p + a) == (if p == "/api/demo/"@ {
            "demo_api"@
        } else if p == "/api/classes/"@ {
            "public_booking_api"@
        } else if p == "/api/offers/"@ {
            "offer_api"@
        } else {
            "assets"@
        }),
{
    reveal_strlit("/api/demo/");
    reveal_strlit("/api/classes/");
    reveal_strlit("/api/offers/");
    reveal_strlit("/assets/");
    reveal_strlit("/health");
    reveal_strlit("/api/metrics");
    reveal_strlit("/api/workspaces/metrics");
    reveal_strlit("/api/workspaces/");
    reveal_strlit("/api/workspaces");
    reveal_strlit("/api/");
    let x = p + a;
    assert(x.take(p.len() as int) =~= p);
    assert(has_prefix(x, p));
    // Each earlier test fails on a character of the prefix.
    if p == "/api/demo/"@ {
        assert(x[1] == 'a' && x[5] == 'd');
        assert(x != "/health"@);
        assert(x != "/api/metrics"@);
        assert(x != "/api/workspaces/metrics"@);
    } else if p == "/api/classes/"@ {
        assert(x[1] == 'a' && x[5] == 'c');
        assert(x != "/health"@);
        assert(x != "/api/metrics"@);
        assert(x != "/api/workspaces/metrics"@);
        assert(x != "/api/workspaces"@);
        lemma_differs_at(x, "/api/demo/"@, 5);
        lemma_differs_at(x, "/api/workspaces/"@, 5);
    } else if p == "/api/offers/"@ {
        assert(x[1] == 'a' && x[5] == 'o');
        assert(x != "/health"@);
        assert(x != "/api/metrics"@);
        assert(x != "/api/workspaces/metrics"@);
        assert(x != "/api/workspaces"@);
        lemma_differs_at(x, "/api/demo/"@, 5);
        lemma_differs_at(x, "/api/workspaces/"@, 5);
        lemma_differs_at(x, "/api/classes/"@, 5);
    } else {
        assert(x[2] == 's');
        assert(x != "/health"@);
        assert(x != "/api/metrics"@);
        assert(x != "/api/workspaces/metrics"@);
        assert(x != "/api/workspaces"@);
        lemma_differs_at(x, "/api/demo/"@, 2);
        lemma_differs_at(x, "/api/workspaces/"@, 2);
        lemma_differs_at(x, "/api/classes/"@, 2);
        lemma_differs_at(x, "/api/offers/"@, 2);
        lemma_differs_at(x, "/api/"@, 2);
    }
}

/// The route group of `path`, from a fixed list.
pub fn route_group(path: &str) -> (g: &'static str)
    ensures
        g@ == route_group_spec(path@),
{
    if str_eq(path, "/health") {
        "health"
    } else if str_eq(path, "/api/metrics") || str_eq(path, "/api/workspaces/metrics") {
        "metrics"
    } else if str_has_prefix(path, "/api/demo/") {
        "demo_api"
    } else if str_has_prefix(path, "/api/workspaces/") || str_eq(path, "/api/workspaces") {
        "workspace_api"
    } else if str_has_prefix(path, "/api/classes/") {
        "public_booking_api"
    } else if str_has_prefix(path, "/api/offers/") {
        "offer_api"
    } else if str_has_prefix(path, "/api/") {
        "api_other"
    } else if str_has_prefix(path, "/assets/") {
        "assets"
    } else {
        "web"
    }
}

/// Counters of one route group.
#[derive(Clone, Copy, Debug)]
pub struct RouteMetrics {
    pub requests: u64,
    pub server_errors: u64,
    pub total_latency_ms: u64,
    pub max_latency_ms: u64,
}

/// `a + b`, saturated at `u64::MAX`.
pub open spec fn sat_add(a: u64, b: u64) -> u64 {
    if a + b > u64::MAX { u64::MAX } else { (a + b) as u64 }
}

/// Whether `status` is a server error (500 to 599).
pub open spec fn is_server_error(status: u16) -> bool {
    500 <= status <= 599
}

/// Milliseconds, saturated at `u64::MAX`.
pub open spec fn clamp_ms(elapsed_ms: u128) -> u64 {
    if elapsed_ms > u64::MAX { u64::MAX } else { elapsed_ms as u64 }
}

/// `m` after one more request answered with `status` after `ms` milliseconds.
pub open spec fn bumped(m: RouteMetrics, status: u16, ms: u64) -> RouteMetrics {
    RouteMetrics {
        requests: sat_add(m.requests, 1),
        server_errors: if is_server_error(status) { sat_add(m.server_errors, 1) } else { m.server_errors },
        total_latency_ms: sat_add(m.total_latency_ms, ms),
        max_latency_ms: if ms > m.max_latency_ms { ms } else { m.max_latency_ms },
    }
}

pub open spec fn zero_metrics() -> RouteMetrics {
    RouteMetrics { requests: 0, server_errors: 0, total_latency_ms: 0, max_latency_ms: 0 }
}

/// Byte-wise lexicographic order (the order of `str`).
pub open spec fn lex_less(a: Seq<u8>, b: Seq<u8>) -> bool
    decreases a.len(),
{
    if a.len() == 0 {
        b.len() > 0
    } else if b.len() == 0 {
        false
    } else if a[0] != b[0] {
        a[0] < b[0]
    } else {
        lex_less(a.skip(1), b.skip(1))
    }
}

pub proof fn lemma_lex_transitive(a: Seq<u8>, b: Seq<u8>, c: Seq<u8>)
    requires
        lex_less(a, b),
        lex_less(b, c),
    ensures
        lex_less(a, c),
    decreases a.len(),
{
    if a.len() > 0 && b.len() > 0 && c.len() > 0 && a[0] == b[0] && b[0] == c[0] {
        lemma_lex_transitive(a.skip(1), b.skip(1), c.skip(1));
    }
}

pub proof fn lemma_lex_total(a: Seq<u8>, b: Seq<u8>)
    ensures
        a == b || lex_less(a, b) || lex_less(b, a),
        !(lex_less(a, b) && lex_less(b, a)),
        !lex_less(a, a),
    decreases a.len(),
{
    if a.len() > 0 && b.len() > 0 {
        lemma_lex_total(a.skip(1), b.skip(1));
        if a[0] == b[0] && a.skip(1) == b.skip(1) {
            assert(a =~= seq![a[0]] + a.skip(1));
            assert(b =~= seq![b[0]] + b.skip(1));
        }
    }
    if a.len() > 0 {
        lemma_lex_total(a.skip(1), a.skip(1));
    }
}

/// Whether `a` comes before `b` in byte order.
fn bytes_less(a: &[u8], b: &[u8]) -> (r: bool)
    ensures
        r == lex_less(a@, b@),
{
    let mut i: usize = 0;
    proof {
        assert(a@.skip(0) =~= a@);
        assert(b@.skip(0) =~= b@);
    }
    while i < a.len() && i < b.len() && a[i] == b[i]
        invariant
            i <= a@.len(),
            i <= b@.len(),
            lex_less(a@.skip(i as int), b@.skip(i as int)) == lex_less(a@, b@),
        decreases a@.len() - i,
    {
        proof {
            assert(a@.skip(i as int).skip(1) =~= a@.skip(i + 1));
            assert(b@.skip(i as int).skip(1) =~= b@.skip(i + 1));
        }
        i = i + 1;
    }
    if i == a.len() {
        i < b.len()
    } else if i == b.len() {
        false
    } else {
        a[i] < b[i]
    }
}

/// The counters of one route group, with its label.
struct RouteEntry {
    route: &'static str,
    values: RouteMetrics,
}

/// Request counters by route group, kept in byte order of the labels.
pub struct AppMetrics {
    routes: Vec<RouteEntry>,
}

pub open spec fn label_bytes(e: (Seq<char>, RouteMetrics)) -> Seq<u8> {
    encode_utf8(e.0)
}

/// Labels strictly increasing in byte order.
pub open spec fn sorted_labels(s: Seq<(Seq<char>, RouteMetrics)>) -> bool {
    forall|i: int, j: int| 0 <= i < j < s.len() ==> lex_less(label_bytes(#[trigger] s[i]), label_bytes(#[trigger] s[j]))
}

/// The entry whose label is `route`.
pub open spec fn labelled(route: Seq<char>) -> spec_fn((Seq<char>, RouteMetrics)) -> bool {
    |e: (Seq<char>, RouteMetrics)| e.0 == route
}

impl View for AppMetrics {
    type V = Seq<(Seq<char>, RouteMetrics)>;

    /// Each route group's label and counters, in byte order of the labels.
    closed spec fn view(&self) -> Seq<(Seq<char>, RouteMetrics)> {
        self.routes@.map_values(|e: RouteEntry| (e.route@, e.values))
    }
}

impl Default for AppMetrics {
    /// No counters yet.
    fn default() -> (m: AppMetrics)
        ensures
            m.wf(),
            m@ == Seq::<(Seq<char>, RouteMetrics)>::empty(),
    {
        AppMetrics::new()
    }
}

impl AppMetrics {
    /// The labels are in strictly increasing byte order.
    pub open spec fn wf(&self) -> bool {
        sorted_labels(self@)
    }

    /// No counters yet.
    pub fn new() -> (m: AppMetrics)
        ensures
            m.wf(),
            m@ == Seq::<(Seq<char>, RouteMetrics)>::empty(),
    {
        let m = AppMetrics { routes: Vec::new() };
        proof {
            assert(m@ =~= Seq::<(Seq<char>, RouteMetrics)>::empty());
        }
        m
    }

    /// Counts a request of route group `route` answered with HTTP `status`
    /// after `elapsed_ms` milliseconds. Counters saturate instead of wrapping.
    pub fn record(&mut self, route: &'static str, status: u16, elapsed_ms: u128)
        requires
            old(self).wf(),
        ensures
            final(self).wf(),
            match first_match(old(self)@, labelled(route@)) {
                Some(j) => final(self)@ == old(self)@.update(j, (route@, bumped(old(self)@[j].1, status, clamp_ms(elapsed_ms)))),
                None => exists|j: int| 0 <= j <= old(self)@.len()
                    && final(self)@ == old(self)@.insert(j, (route@, bumped(zero_metrics(), status, clamp_ms(elapsed_ms)))),
            },
    {
        let ms: u64 = if elapsed_ms > u64::MAX as u128 { u64::MAX } else { elapsed_ms as u64 };
        let key = route.as_bytes();
        let ghost old_view = self@;
        let mut i: usize = 0;
        while i < self.routes.len() && bytes_less(self.routes[i].route.as_bytes(), key)
            invariant
                old_view == self@,
                sorted_labels(old_view),
                key@ == encode_utf8(route@),
                i <= self.routes@.len(),
                forall|k: int| 0 <= k < i ==> lex_less(label_bytes(#[trigger] old_view[k]), key@),
            decreases self.routes@.len() - i,
        {
            i = i + 1;
        }
        proof {
            vstd::utf8::encode_utf8_decode_utf8(route@);
            assert forall|k: int| 0 <= k < i implies #[trigger] old_view[k].0 != route@ by {
                lemma_lex_total(key@, key@);
            }
        }
        let found = i < self.routes.len() && str_eq(self.routes[i].route, route);
        if found {
            let old_values = self.routes[i].values;
            let new_values = RouteMetrics {
                requests: self.routes[i].values.requests.saturating_add(1),
                server_errors: if 500 <= status && status <= 599 {
                    old_values.server_errors.saturating_add(1)
                } else {
                    old_values.server_errors
                },
                total_latency_ms: old_values.total_latency_ms.saturating_add(ms),
                max_latency_ms: if ms > old_values.max_latency_ms { ms } else { old_values.max_latency_ms },
            };
            self.routes.set(i, RouteEntry { route, values: new_values });
            proof {
                assert(old_view[i as int].0 == route@);
                crate::seqs::lemma_first_match_at(old_view, labelled(route@), i as int);
                assert(self@ =~= old_view.update(i as int, (route@, bumped(old_view[i as int].1, status, clamp_ms(elapsed_ms)))));
            }
        } else {
            let values = RouteMetrics {
                requests: 1,
                server_errors: if 500 <= status && status <= 599 { 1 } else { 0 },
                total_latency_ms: ms,
                max_latency_ms: ms,
            };
            proof {
                if i < old_view.len() {
                    lemma_lex_total(key@, label_bytes(old_view[i as int]));
                    assert(old_view[i as int].0 != route@);
                    vstd::utf8::encode_utf8_decode_utf8(old_view[i as int].0);
                    assert(lex_less(key@, label_bytes(old_view[i as int])));
                }
                assert forall|k: int| i <= k < old_view.len() implies lex_less(key@, label_bytes(#[trigger] old_view[k])) by {
                    if k > i {
                        lemma_lex_transitive(key@, label_bytes(old_view[i as int]), label_bytes(old_view[k]));
                    }
                }
                assert forall|k: int| 0 <= k < old_view.len() implies #[trigger] old_view[k].0 != route@ by {
                    if k >= i {
                        lemma_lex_total(key@, key@);
                    }
                }
                crate::seqs::lemma_first_match_none(old_view, labelled(route@));
            }
            self.routes.insert(i, RouteEntry { route, values });
            proof {
                assert(self@ =~= old_view.insert(i as int, (route@, bumped(zero_metrics(), status, clamp_ms(elapsed_ms)))));
            }
        }
        proof {
            assert forall|a: int, b: int| 0 <= a < b < self@.len() implies
                lex_less(label_bytes(#[trigger] self@[a]), label_bytes(#[trigger] self@[b])) by {
                if !found {
                    if a < i && b > i {
                        lemma_lex_transitive(label_bytes(self@[a]), key@, label_bytes(self@[b]));
                    }
                }
            }
        }
    }
}

} // verus!

verus! {

/// The decimal digit for `d < 10`.
pub open spec fn digit_char(d: int) -> char {
    (48 + d) as char
}

/// `n` in decimal, without leading zeros.
pub open spec fn decimal(n: nat) -> Seq<char>
    decreases n,
{
    if n < 10 {
        seq![digit_char(n as int)]
    } else {
        decimal(n / 10).push(digit_char((n % 10) as int))
    }
}

/// Appends `n` in decimal to `out`.
pub fn push_decimal(out: &mut String, n: u64)
    ensures
        final(out)@ == old(out)@ + decimal(n as nat),
    decreases n,
{
    if n >= 10 {
        push_decimal(out, n / 10);
    }
    let d: u8 = (n % 10) as u8;
    push_char(out, (48u8 + d) as char);
    proof {
        if n >= 10 {
            assert(old(out)@ + decimal(n as nat) =~= old(out)@ + decimal((n / 10) as nat) + seq![digit_char((n % 10) as int)]);
        } else {
            assert(old(out)@ + decimal(n as nat) =~= old(out)@.push(digit_char(n as int)));
        }
    }
}

/// A figure that is never shown below zero.
pub open spec fn at_least_zero(x: i64) -> nat {
    if x < 0 { 0 } else { x as nat }
}

/// Appends `max(x, 0)` in decimal to `out`.
fn push_gauge(out: &mut String, x: i64)
    ensures
        final(out)@ == old(out)@ + decimal(at_least_zero(x)),
{
    let v: u64 = if x < 0 { 0 } else { x as u64 };
    push_decimal(out, v);
}

pub open spec fn prometheus_head() -> Seq<char> {
    "# HELP cct_http_requests_total Completed HTTP requests by fixed route group.\n# TYPE cct_http_requests_total counter\n# HELP cct_http_server_errors_total Completed 5xx HTTP responses by fixed route group.\n# TYPE cct_http_server_errors_total counter\n# HELP cct_http_request_duration_milliseconds Request duration totals by fixed route group.\n# TYPE cct_http_request_duration_milliseconds summary\n"@
}

/// The five lines of one route group.
pub open spec fn route_block(route: Seq<char>, m: RouteMetrics) -> Seq<char> {
    "cct_http_requests_total{route=\""@ + route + "\"} "@ + decimal(m.requests as nat) + "\n"@
        + "cct_http_server_errors_total{route=\""@ + route + "\"} "@ + decimal(m.server_errors as nat) + "\n"@
        + "cct_http_request_duration_milliseconds_sum{route=\""@ + route + "\"} "@ + decimal(m.total_latency_ms as nat) + "\n"@
        + "cct_http_request_duration_milliseconds_count{route=\""@ + route + "\"} "@ + decimal(m.requests as nat) + "\n"@
        + "cct_http_request_duration_milliseconds_max{route=\""@ + route + "\"} "@ + decimal(m.max_latency_ms as nat) + "\n"@
}

/// The route blocks of `entries`, in order.
pub open spec fn route_blocks(entries: Seq<(Seq<char>, RouteMetrics)>) -> Seq<char>
    decreases entries.len(),
{
    if entries.len() == 0 {
        Seq::<char>::empty()
    } else {
        route_blocks(entries.drop_last()) + route_block(entries.last().0, entries.last().1)
    }
}

/// The route blocks of two runs of entries, one after the other.
proof fn lemma_route_blocks_append(a: Seq<(Seq<char>, RouteMetrics)>, b: Seq<(Seq<char>, RouteMetrics)>)
    ensures
        route_blocks(a + b) == route_blocks(a) + route_blocks(b),
    decreases b.len(),
{
    if b.len() == 0 {
        assert(a + b =~= a);
        assert(route_blocks(a) + Seq::<char>::empty() =~= route_blocks(a));
    } else {
        lemma_route_blocks_append(a, b.drop_last());
        assert((a + b).drop_last() =~= a + b.drop_last());
        assert((a + b).last() == b.last());
        assert(route_blocks(a) + route_blocks(b.drop_last()) + route_block(b.last().0, b.last().1)
            =~= route_blocks(a) + (route_blocks(b.drop_last()) + route_block(b.last().0, b.last().1)));
    }
}

/// In the exposition of well-formed counters, each recorded route group
/// gives its five lines in one piece, after the groups whose labels come
/// before it in byte order and before those that come after.
pub proof fn lemma_route_lines(m: AppMetrics, i: int)
    requires
        m.wf(),
        0 <= i < m@.len(),
    ensures
        route_blocks(m@) == route_blocks(m@.take(i)) + route_block(m@[i].0, m@[i].1) + route_blocks(m@.skip(i + 1)),
        forall|j: int| 0 <= j < i ==> lex_less(label_bytes(#[trigger] m@[j]), label_bytes(m@[i])),
        forall|j: int| i < j < m@.len() ==> lex_less(label_bytes(m@[i]), label_bytes(#[trigger] m@[j])),
{
    let e = m@;
    assert(e =~= e.take(i + 1) + e.skip(i + 1));
    lemma_route_blocks_append(e.take(i + 1), e.skip(i + 1));
    assert(e.take(i + 1).drop_last() =~= e.take(i));
    assert(e.take(i + 1).last() == e[i]);
}

/// The workspace gauges, with the offer conversion ratio as rendered text.
pub open spec fn workspace_block(w: WorkspaceMetrics, ratio: Seq<char>) -> Seq<char> {
    "# HELP cct_calendar_job_lag_seconds Seconds that the oldest due calendar check is late for this workspace.\n# TYPE cct_calendar_job_lag_seconds gauge\ncct_calendar_job_lag_seconds "@
        + decimal(at_least_zero(w.calendar_job_lag_seconds))
        + "\n# HELP cct_unresolved_capacity_discrepancies Current class counts that need attention in this workspace.\n# TYPE cct_unresolved_capacity_discrepancies gauge\ncct_unresolved_capacity_discrepancies "@
        + decimal(at_least_zero(w.unresolved_discrepancies))
        + "\n# HELP cct_released_seat_offers_total Released-seat offers in this workspace by outcome.\n# TYPE cct_released_seat_offers_total gauge\ncct_released_seat_offers_total{status=\"created\"} "@
        + decimal(at_least_zero(w.offers_created))
        + "\ncct_released_seat_offers_total{status=\"accepted\"} "@
        + decimal(at_least_zero(w.offers_accepted))
        + "\n# HELP cct_released_seat_offer_conversion_ratio Accepted released-seat offers divided by created offers.\n# TYPE cct_released_seat_offer_conversion_ratio gauge\ncct_released_seat_offer_conversion_ratio "@
        + ratio + "\n"@
}

/// The whole exposition text.
pub open spec fn prometheus_text(entries: Seq<(Seq<char>, RouteMetrics)>, w: WorkspaceMetrics, ratio: Seq<char>) -> Seq<char> {
    prometheus_head() + route_blocks(entries) + workspace_block(w, ratio)
}

/// Appends one route group's lines to `out`.
fn push_route_block(out: &mut String, route: &str, m: RouteMetrics)
    ensures
        final(out)@ == old(out)@ + route_block(route@, m),
{
    out.append("cct_http_requests_total{route=\"");
    out.append(route);
    out.append("\"} ");
    push_decimal(out, m.requests);
    out.append("\n");
    out.append("cct_http_server_errors_total{route=\"");
    out.append(route);
    out.append("\"} ");
    push_decimal(out, m.server_errors);
    out.append("\n");
    out.append("cct_http_request_duration_milliseconds_sum{route=\"");
    out.append(route);
    out.append("\"} ");
    push_decimal(out, m.total_latency_ms);
    out.append("\n");
    out.append("cct_http_request_duration_milliseconds_count{route=\"");
    out.append(route);
    out.append("\"} ");
    push_decimal(out, m.requests);
    out.append("\n");
    out.append("cct_http_request_duration_milliseconds_max{route=\"");
    out.append(route);
    out.append("\"} ");
    push_decimal(out, m.max_latency_ms);
    out.append("\n");
    proof {
        assert(final(out)@ =~= old(out)@ + route_block(route@, m));
    }
}

impl AppMetrics {
    /// The Prometheus exposition of the route counters, in byte order of
    /// their labels, and of workspace figures `workspace` (negative figures
    /// shown as zero). `conversion_ratio` is the accepted/created offer ratio
    /// already rendered with six decimals.
    pub fn prometheus(&self, workspace: WorkspaceMetrics, conversion_ratio: &str) -> (s: String)
        ensures
            s@ == prometheus_text(self@, workspace, conversion_ratio@),
    {
        let mut out = String::new();
        out.append("# HELP cct_http_requests_total Completed HTTP requests by fixed route group.\n# TYPE cct_http_requests_total counter\n# HELP cct_http_server_errors_total Completed 5xx HTTP responses by fixed route group.\n# TYPE cct_http_server_errors_total counter\n# HELP cct_http_request_duration_milliseconds Request duration totals by fixed route group.\n# TYPE cct_http_request_duration_milliseconds summary\n");
        let ghost entries = self@;
        let mut i: usize = 0;
        proof {
            assert(entries.take(0) =~= Seq::<(Seq<char>, RouteMetrics)>::empty());
            assert(out@ =~= prometheus_head() + route_blocks(entries.take(0)));
        }
        while i < self.routes.len()
            invariant
                entries == self@,
                entries.len() == self.routes@.len(),
                i <= self.routes@.len(),
                out@ == prometheus_head() + route_blocks(entries.take(i as int)),
            decreases self.routes@.len() - i,
        {
            proof {
                assert(entries.take(i + 1).drop_last() =~= entries.take(i as int));
                assert(entries.take(i + 1).last() == entries[i as int]);
            }
            push_route_block(&mut out, self.routes[i].route, self.routes[i].values);
            proof {
                assert(out@ =~= prometheus_head() + route_blocks(entries.take(i + 1)));
            }
            i = i + 1;
        }
        proof {
            assert(entries.take(i as int) =~= entries);
        }
        let ghost before = out@;
        out.append("# HELP cct_calendar_job_lag_seconds Seconds that the oldest due calendar check is late for this workspace.\n# TYPE cct_calendar_job_lag_seconds gauge\ncct_calendar_job_lag_seconds ");
        push_gauge(&mut out, workspace.calendar_job_lag_seconds);
        out.append("\n# HELP cct_unresolved_capacity_discrepancies Current class counts that need attention in this workspace.\n# TYPE cct_unresolved_capacity_discrepancies gauge\ncct_unresolved_capacity_discrepancies ");
        push_gauge(&mut out, workspace.unresolved_discrepancies);
        out.append("\n# HELP cct_released_seat_offers_total Released-seat offers in this workspace by outcome.\n# TYPE cct_released_seat_offers_total gauge\ncct_released_seat_offers_total{status=\"created\"} ");
        push_gauge(&mut out, workspace.offers_created);
        out.append("\ncct_released_seat_offers_total{status=\"accepted\"} ");
        push_gauge(&mut out, workspace.offers_accepted);
        out.append("\n# HELP cct_released_seat_offer_conversion_ratio Accepted released-seat offers divided by created offers.\n# TYPE cct_released_seat_offer_conversion_ratio gauge\ncct_released_seat_offer_conversion_ratio ");
        out.append(conversion_ratio);
        out.append("\n");
        proof {
            assert(out@ =~= before + workspace_block(workspace, conversion_ratio@));
        }
        out
    }
}

} // verus!
