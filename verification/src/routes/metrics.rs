//! The `/metrics` endpoint's body: the registry serialized in the
//! OpenMetrics exposition text format.

use vstd::prelude::*;

use crate::app::AppState;
use crate::telemetry::render_spec;

verus! {

/// The exposition text for a `/metrics` scrape of the current registry.
pub fn get_metrics(app_state: &AppState) -> (body: String)
    ensures
        body@ == render_spec(app_state.metrics@),
{
    app_state.metrics.render()
}

} // verus!
