//! The application state: the metrics registry and the optional GeoIP
//! resolver handle, constructed once at startup and shared by every
//! request-handling path.

use vstd::prelude::*;

use crate::telemetry::{CounterEntry, Metrics};
use crate::utils::IPReader;

verus! {

/// Owns the process-wide metrics registry and the optional resolver handle.
/// The resolver is read-only after construction; the registry accumulates
/// counters across requests.
pub struct AppState {
    pub metrics: Metrics,
    pub ip_reader: Option<IPReader>,
}

impl AppState {
    /// A fresh state with an empty registry. The resolver handle is handed
    /// in by the caller, absent when no usable database was found: requests
    /// then degrade to unknown-geo mode rather than failing.
    pub fn new(ip_reader: Option<IPReader>) -> (state: Self)
        ensures
            state.metrics@ == Seq::<CounterEntry>::empty(),
            state.metrics.wf(),
            state.ip_reader == ip_reader,
    {
        AppState { metrics: Metrics::new_registery(), ip_reader }
    }
}

impl Default for AppState {
    /// The startup state: an empty registry, and whatever resolver
    /// discovery finds at the well-known database path.
    fn default() -> (state: Self)
        ensures
            state.metrics@ == Seq::<CounterEntry>::empty(),
            state.metrics.wf(),
    {
        AppState { metrics: Metrics::new_registery(), ip_reader: IPReader::discover() }
    }
}

} // verus!
