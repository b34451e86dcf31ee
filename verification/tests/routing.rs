use ambient_proxy_manager::app::AppState;
use ambient_proxy_manager::routes::proxy::{
    classify, extract_version, get_proxy, route_with_geo, select, RegionBucket,
};

const US_ADDR: &str = "proxy-us.ambient.run:7000";
const EU_ADDR: &str = "proxy-eu.ambient.run:7000";

fn some(code: &str) -> Option<String> {
    Some(code.to_string())
}

#[test]
fn classify_na_and_sa_are_us() {
    assert_eq!(classify(&some("NA")), RegionBucket::US);
    assert_eq!(classify(&some("SA")), RegionBucket::US);
}

#[test]
fn classify_everything_else_is_eu() {
    assert_eq!(classify(&some("EU")), RegionBucket::EU);
    assert_eq!(classify(&some("AS")), RegionBucket::EU);
    assert_eq!(classify(&some("AF")), RegionBucket::EU);
    assert_eq!(classify(&some("OC")), RegionBucket::EU);
    assert_eq!(classify(&some("AN")), RegionBucket::EU);
    assert_eq!(classify(&some("ZZ")), RegionBucket::EU);
    assert_eq!(classify(&some("")), RegionBucket::EU);
    assert_eq!(classify(&some("na")), RegionBucket::EU);
    assert_eq!(classify(&None), RegionBucket::EU);
}

#[test]
fn select_is_total_and_deterministic() {
    assert_eq!(select(RegionBucket::US), US_ADDR);
    assert_eq!(select(RegionBucket::EU), EU_ADDR);
    assert_eq!(select(RegionBucket::US), US_ADDR);
}

#[test]
fn extract_version_strips_the_client_prefix() {
    assert_eq!(extract_version("ambient_network/1.2.3"), "1.2.3");
}

#[test]
fn extract_version_of_empty_is_empty() {
    assert_eq!(extract_version(""), "");
}

#[test]
fn extract_version_of_foreign_agent_is_empty() {
    assert_eq!(extract_version("Mozilla/5.0"), "");
}

#[test]
fn extract_version_trims_whitespace() {
    assert_eq!(extract_version("ambient_network/  9.9.9\t "), "9.9.9");
    assert_eq!(extract_version("ambient_network/ "), "");
}

#[test]
fn extract_version_needs_the_exact_prefix() {
    assert_eq!(extract_version("ambient_network"), "");
    assert_eq!(extract_version("AMBIENT_NETWORK/1.0.0"), "");
    assert_eq!(extract_version("xambient_network/1.0.0"), "");
}

#[test]
fn us_continent_routes_to_us_proxy() {
    let mut state = AppState::new(None);
    let proxy = route_with_geo(
        &mut state.metrics,
        &some("NA"),
        &some("US"),
        "ambient_network/1.0.0",
    );
    assert_eq!(proxy, US_ADDR);
}

#[test]
fn eu_continent_routes_to_eu_proxy() {
    let mut state = AppState::new(None);
    let proxy = route_with_geo(
        &mut state.metrics,
        &some("EU"),
        &some("DE"),
        "ambient_network/1.0.0",
    );
    assert_eq!(proxy, EU_ADDR);
}

#[test]
fn without_resolver_every_request_gets_the_eu_proxy() {
    let mut state = AppState::new(None);
    assert_eq!(get_proxy(&mut state, "8.8.8.8", "ambient_network/1.0.0"), EU_ADDR);
    assert_eq!(get_proxy(&mut state, "203.0.113.7", "Mozilla/5.0"), EU_ADDR);
    assert_eq!(get_proxy(&mut state, "not an address", ""), EU_ADDR);
}
