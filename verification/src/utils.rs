//! The GeoIP resolver: wraps a read-only geographic database and maps an IP
//! address to an optional (continent code, country code) pair. Resolution is
//! failure-transparent: a parse error, a missing record or a malformed record
//! degrades to an unknown pair, never to an error the caller must handle.

use vstd::prelude::*;

verus! {

/// A handle to an open GeoIP database, immutable after construction and safe
/// to share across concurrently handled requests. The handle is opaque to
/// the verifier, which reaches it only through the wrappers below.
#[verifier::external_body]
pub struct IPReader {
    reader: maxminddb::Reader<Vec<u8>>,
}

impl IPReader {
    /// Relies on maxminddb::Reader::open_readfile to load the database at
    /// the given path into memory. Whether a handle comes back depends on
    /// what is on disk, so nothing is promised of the result; an absent or
    /// unreadable database yields `None`, never a panic.
    #[verifier::external_body]
    pub fn new(path: &str) -> Option<IPReader> {
        match maxminddb::Reader::open_readfile(path) {
            Ok(reader) => Some(IPReader { reader }),
            Err(_) => None,
        }
    }

    /// Opens the database at its well-known path, when one is present and
    /// readable; otherwise the process runs without a resolver and requests
    /// degrade to unknown-geo mode.
    pub fn discover() -> Option<IPReader> {
        IPReader::new("country.mmdb")
    }

    /// Relies on maxminddb::Reader::lookup for the geographic record of an
    /// address. Which codes come back depends on the database contents, so
    /// nothing is promised of the result; callers are verified for every
    /// outcome. Any lookup error yields `(None, None)`.
    #[verifier::external_body]
    pub fn lookup_continent_and_country_code(&self, ip: &str) -> (Option<String>, Option<String>) {
        let addr = match ip.parse() {
            Ok(a) => a,
            Err(_) => return (None, None),
        };
        match self.reader.lookup::<maxminddb::geoip2::Country>(addr) {
            Ok(record) => (
                record.continent.and_then(|c| c.code).map(|s| s.to_string()),
                record.country.and_then(|c| c.iso_code).map(|s| s.to_string()),
            ),
            Err(_) => (None, None),
        }
    }
}

} // verus!
