use class_capacity_truth::metrics::{route_group, AppMetrics, WorkspaceMetrics};

#[test]
fn uses_fixed_route_groups_and_never_echoes_path_values() {
    assert_eq!(
        route_group("/api/classes/class_secret/book"),
        "public_booking_api"
    );
    assert_eq!(route_group("/offer/offer_secret"), "web");

    let mut metrics = AppMetrics::default();
    metrics.record("public_booking_api", 201, 14);
    let rendered = metrics.prometheus(
        WorkspaceMetrics {
            calendar_job_lag_seconds: 0,
            unresolved_discrepancies: 1,
            offers_created: 2,
            offers_accepted: 1,
        },
        &format!("{:.6}", 1_f64 / 2_f64),
    );
    assert!(rendered.contains("cct_http_requests_total{route=\"public_booking_api\"} 1"));
    assert!(!rendered.contains("class_secret"));
    assert!(!rendered.contains("offer_secret"));
}

#[test]
fn every_route_group_is_from_the_fixed_list() {
    assert_eq!(route_group("/health"), "health");
    assert_eq!(route_group("/api/metrics"), "metrics");
    assert_eq!(route_group("/api/workspaces/metrics"), "metrics");
    assert_eq!(route_group("/api/demo/session"), "demo_api");
    assert_eq!(route_group("/api/workspaces"), "workspace_api");
    assert_eq!(route_group("/api/workspaces/classes"), "workspace_api");
    assert_eq!(route_group("/api/offers/token/accept"), "offer_api");
    assert_eq!(route_group("/api/runtime"), "api_other");
    assert_eq!(route_group("/assets/app.js"), "assets");
    assert_eq!(route_group("/"), "web");
    assert_eq!(route_group("/api"), "web");
}

#[test]
fn counters_saturate_and_keep_the_slowest_request() {
    let mut metrics = AppMetrics::new();
    metrics.record("web", 200, 5);
    metrics.record("web", 503, 40);
    metrics.record("health", 500, u128::MAX);
    metrics.record("health", 200, 1);
    let rendered = metrics.prometheus(
        WorkspaceMetrics {
            calendar_job_lag_seconds: -5,
            unresolved_discrepancies: 0,
            offers_created: 0,
            offers_accepted: 0,
        },
        "0.000000",
    );
    let health = rendered.find("route=\"health\"").unwrap();
    let web = rendered.find("route=\"web\"").unwrap();
    assert!(health < web);
    assert!(rendered.contains("cct_http_requests_total{route=\"web\"} 2\n"));
    assert!(rendered.contains("cct_http_server_errors_total{route=\"web\"} 1\n"));
    assert!(rendered.contains("cct_http_request_duration_milliseconds_sum{route=\"web\"} 45\n"));
    assert!(rendered.contains("cct_http_request_duration_milliseconds_max{route=\"web\"} 40\n"));
    assert!(rendered.contains("cct_http_request_duration_milliseconds_sum{route=\"health\"} 18446744073709551615\n"));
    assert!(rendered.contains("cct_http_request_duration_milliseconds_max{route=\"health\"} 18446744073709551615\n"));
    assert!(rendered.contains("cct_calendar_job_lag_seconds 0\n"));
    assert!(rendered.ends_with("cct_released_seat_offer_conversion_ratio 0.000000\n"));
}

#[test]
fn an_empty_exposition_has_headers_and_workspace_gauges() {
    let metrics = AppMetrics::new();
    let rendered = metrics.prometheus(
        WorkspaceMetrics {
            calendar_job_lag_seconds: 620,
            unresolved_discrepancies: 3,
            offers_created: 4,
            offers_accepted: 2,
        },
        "0.500000",
    );
    assert!(rendered.starts_with("# HELP cct_http_requests_total Completed HTTP requests by fixed route group.\n"));
    assert!(rendered.contains("cct_calendar_job_lag_seconds 620\n"));
    assert!(rendered.contains("cct_unresolved_capacity_discrepancies 3\n"));
    assert!(rendered.contains("cct_released_seat_offers_total{status=\"created\"} 4\n"));
    assert!(rendered.contains("cct_released_seat_offers_total{status=\"accepted\"} 2\n"));
    assert!(!rendered.contains("route="));
}

#[test]
fn paths_below_a_value_prefix_share_their_group() {
    for (prefix, group) in [("/api/demo/", "demo_api"), ("/api/classes/", "public_booking_api"), ("/api/offers/", "offer_api"), ("/assets/", "assets")] {
        for tail in ["", "x", "health", "123/book", "../api/metrics"] {
            assert_eq!(route_group(&format!("{prefix}{tail}")), group);
        }
    }
}

#[test]
fn the_clock_reads_no_negative_seconds() {
    assert!(class_capacity_truth::clock::unix_now() >= 0);
    assert!(class_capacity_truth::clock::unix_now() > 1_600_000_000);
}
