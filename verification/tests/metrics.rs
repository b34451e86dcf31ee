use ambient_proxy_manager::app::AppState;
use ambient_proxy_manager::routes::metrics::get_metrics;
use ambient_proxy_manager::routes::proxy::route_with_geo;
use ambient_proxy_manager::telemetry::Metrics;

const HEADER: &str =
    "# HELP proxy_requests Count of /proxy requests.\n# TYPE proxy_requests counter\n";

fn some(code: &str) -> Option<String> {
    Some(code.to_string())
}

#[test]
fn empty_registry_renders_header_and_eof_only() {
    let metrics = Metrics::new_registery();
    assert_eq!(metrics.render(), format!("{}# EOF\n", HEADER));
}

#[test]
fn one_counter_renders_one_exact_line() {
    let mut metrics = Metrics::new_registery();
    metrics.inc_proxy_requests("US".to_string(), "1.0.0".to_string());
    assert_eq!(
        metrics.render(),
        format!(
            "{}proxy_requests_total{{country=\"US\",ambient_version=\"1.0.0\"}} 1\n# EOF\n",
            HEADER
        )
    );
}

#[test]
fn repeated_requests_count_up() {
    let mut metrics = Metrics::new_registery();
    for _ in 0..12 {
        metrics.inc_proxy_requests("US".to_string(), "1.0.0".to_string());
    }
    let body = metrics.render();
    assert!(body.contains("proxy_requests_total{country=\"US\",ambient_version=\"1.0.0\"} 12\n"));
}

#[test]
fn distinct_label_pairs_get_distinct_counters() {
    let mut metrics = Metrics::new_registery();
    metrics.inc_proxy_requests("US".to_string(), "1.0.0".to_string());
    metrics.inc_proxy_requests("DE".to_string(), "1.0.0".to_string());
    metrics.inc_proxy_requests("US".to_string(), "2.0.0".to_string());
    metrics.inc_proxy_requests("US".to_string(), "1.0.0".to_string());
    let body = metrics.render();
    assert!(body.contains("proxy_requests_total{country=\"US\",ambient_version=\"1.0.0\"} 2\n"));
    assert!(body.contains("proxy_requests_total{country=\"DE\",ambient_version=\"1.0.0\"} 1\n"));
    assert!(body.contains("proxy_requests_total{country=\"US\",ambient_version=\"2.0.0\"} 1\n"));
}

#[test]
fn n_requests_under_one_label_pair_read_exactly_n() {
    let mut state = AppState::new(None);
    let n = 7;
    for _ in 0..n {
        route_with_geo(
            &mut state.metrics,
            &some("NA"),
            &some("US"),
            "ambient_network/1.0.0",
        );
    }
    let body = get_metrics(&state);
    assert!(body.contains(&format!(
        "proxy_requests_total{{country=\"US\",ambient_version=\"1.0.0\"}} {}\n",
        n
    )));
}

#[test]
fn proxy_request_then_scrape_shows_the_label_pair() {
    let mut state = AppState::new(None);
    let proxy = route_with_geo(
        &mut state.metrics,
        &some("NA"),
        &some("US"),
        "ambient_network/9.9.9",
    );
    assert_eq!(proxy, "proxy-us.ambient.run:7000");
    let body = get_metrics(&state);
    assert!(body.contains("proxy_requests_total{country=\"US\",ambient_version=\"9.9.9\"} 1\n"));
}

#[test]
fn requests_without_geo_count_under_the_unknown_country() {
    let mut state = AppState::new(None);
    ambient_proxy_manager::routes::proxy::get_proxy(&mut state, "8.8.8.8", "ambient_network/1.2.3");
    let body = get_metrics(&state);
    assert!(body.contains("proxy_requests_total{country=\"ZZ\",ambient_version=\"1.2.3\"} 1\n"));
}

#[test]
fn counter_family_sums_to_total_requests() {
    let mut state = AppState::new(None);
    let requests = [
        ("NA", "US", "ambient_network/1.0.0"),
        ("NA", "US", "ambient_network/1.0.0"),
        ("EU", "DE", "ambient_network/1.0.0"),
        ("EU", "FR", "ambient_network/2.0.0"),
        ("AS", "JP", "Mozilla/5.0"),
        ("NA", "US", "ambient_network/2.0.0"),
        ("SA", "BR", "ambient_network/1.0.0"),
    ];
    for (continent, country, user_agent) in requests {
        route_with_geo(&mut state.metrics, &some(continent), &some(country), user_agent);
    }
    let body = get_metrics(&state);
    let sum: u64 = body
        .lines()
        .filter(|line| line.starts_with("proxy_requests_total{"))
        .map(|line| line.rsplit(' ').next().unwrap().parse::<u64>().unwrap())
        .sum();
    assert_eq!(sum, requests.len() as u64);
}

#[test]
fn label_values_are_escaped_in_the_exposition_text() {
    let mut metrics = Metrics::new_registery();
    metrics.inc_proxy_requests("U\"S".to_string(), "a\\b\nc".to_string());
    let body = metrics.render();
    assert!(body.contains("proxy_requests_total{country=\"U\\\"S\",ambient_version=\"a\\\\b\\nc\"} 1\n"));
}

#[test]
fn multi_digit_counts_render_in_decimal() {
    let mut metrics = Metrics::new_registery();
    for _ in 0..105 {
        metrics.inc_proxy_requests("FR".to_string(), "3.1.4".to_string());
    }
    let body = metrics.render();
    assert!(body.contains("proxy_requests_total{country=\"FR\",ambient_version=\"3.1.4\"} 105\n"));
}
