//! The observability dashboard's HTTP service.

use vstd::prelude::*;

verus! {

/// The dashboard's HTTP service: a page and JSON endpoints over the
/// metrics, servers, events and configuration. Serving it is I/O, done by
/// the application around the library.
pub struct DashboardServer;

/// How many recent events the dashboard's event feed shows.
pub const DASHBOARD_EVENT_LIMIT: usize = 100;

/// How many recent events the dashboard's summary includes.
pub const SUMMARY_EVENT_LIMIT: usize = 50;

} // verus!
