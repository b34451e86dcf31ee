use ambient_proxy_manager::utils::IPReader;

#[test]
fn absent_database_file_yields_no_reader() {
    assert!(IPReader::new("no-such-database.mmdb").is_none());
}

#[test]
fn discovery_without_a_database_yields_no_reader() {
    // No database file sits at the well-known path in the test directory.
    assert!(IPReader::discover().is_none());
}
