//! The service metrics: request, websocket and pipeline counters, and timers
//! recorded into histograms.

use vstd::prelude::*;
use std::time::{Duration, Instant};

verus! {

/// `std::time::Instant`, carried through unopened.
#[verifier::external_type_specification]
#[verifier::external_body]
pub struct ExInstant(Instant);

/// An update of a counter: the counter's name and how much to add.
pub struct CounterUpdate {
    pub name: &'static str,
    pub delta: u64,
}

/// An update of a gauge: the gauge's name, whether it is raised or lowered,
/// and by how much.
pub struct GaugeUpdate {
    pub name: &'static str,
    pub raise: bool,
    pub delta: u8,
}

/// Registers the counter `update.name` (as `metrics::counter!(name)` does, at
/// level INFO) with the current recorder and adds `update.delta` to it.
/// Trusted: the call returns; nothing is stated of the recorder, an outside
/// service.
#[verifier::external_body]
fn counter_increment(update: CounterUpdate) {
    let (name, value) = (update.name, update.delta);
    let key = ::metrics::Key::from_static_name(name);
    let metadata = ::metrics::Metadata::new("blockchain_intelligence::metrics", ::metrics::Level::INFO, Some("blockchain_intelligence::metrics"));
    ::metrics::with_recorder(|recorder| recorder.register_counter(&key, &metadata)).increment(value);
}

/// Registers the gauge `name` (as `metrics::gauge!(name)` does) and raises it
/// by `value`. Trusted: the call returns; nothing is stated of the recorder.
#[verifier::external_body]
fn gauge_increment(name: &'static str, value: u8) {
    let key = ::metrics::Key::from_static_name(name);
    let metadata = ::metrics::Metadata::new("blockchain_intelligence::metrics", ::metrics::Level::INFO, Some("blockchain_intelligence::metrics"));
    ::metrics::with_recorder(|recorder| recorder.register_gauge(&key, &metadata)).increment(value);
}

/// Registers the gauge `name` (as `metrics::gauge!(name)` does) and lowers it
/// by `value`. Trusted: the call returns; nothing is stated of the recorder.
#[verifier::external_body]
fn gauge_decrement(name: &'static str, value: u8) {
    let key = ::metrics::Key::from_static_name(name);
    let metadata = ::metrics::Metadata::new("blockchain_intelligence::metrics", ::metrics::Level::INFO, Some("blockchain_intelligence::metrics"));
    ::metrics::with_recorder(|recorder| recorder.register_gauge(&key, &metadata)).decrement(value);
}

/// Registers the histogram `name` (as `metrics::histogram!(name)` does) and
/// records `elapsed` into it, in seconds. Trusted: the call returns; nothing
/// is stated of the recorder.
#[verifier::external_body]
fn histogram_record(name: &'static str, elapsed: Duration) {
    let key = ::metrics::Key::from_static_name(name);
    let metadata = ::metrics::Metadata::new("blockchain_intelligence::metrics", ::metrics::Level::INFO, Some("blockchain_intelligence::metrics"));
    ::metrics::with_recorder(|recorder| recorder.register_histogram(&key, &metadata)).record(elapsed);
}

/// `Instant::elapsed`: the time since `start`. Trusted: the call returns;
/// nothing is stated of the duration, which depends on the time.
#[verifier::external_body]
fn elapsed_since(start: &Instant) -> Duration {
    start.elapsed()
}

/// `std::time::Instant::now()`. Trusted: the call returns; nothing is stated
/// of the instant, which is the time.
#[verifier::external_body]
fn instant_now() -> Instant {
    Instant::now()
}

/// Hands a gauge update to the recorder: raises or lowers the gauge as the
/// update says.
fn apply_gauge(update: GaugeUpdate) {
    if update.raise {
        gauge_increment(update.name, update.delta);
    } else {
        gauge_decrement(update.name, update.delta);
    }
}

/// The update for one HTTP request: `blockchain_http_requests_total` plus one.
pub fn http_request_update() -> (r: CounterUpdate)
    ensures
        r.name@ == "blockchain_http_requests_total"@,
        r.delta == 1,
{
    CounterUpdate { name: "blockchain_http_requests_total", delta: 1 }
}

/// The update for one websocket message sent:
/// `blockchain_websocket_messages_sent_total` plus one.
pub fn ws_message_sent_update() -> (r: CounterUpdate)
    ensures
        r.name@ == "blockchain_websocket_messages_sent_total"@,
        r.delta == 1,
{
    CounterUpdate { name: "blockchain_websocket_messages_sent_total", delta: 1 }
}

/// The update for a websocket client connecting: `blockchain_websocket_clients`
/// raised by one.
pub fn ws_client_connected_update() -> (r: GaugeUpdate)
    ensures
        r.name@ == "blockchain_websocket_clients"@,
        r.raise,
        r.delta == 1,
{
    GaugeUpdate { name: "blockchain_websocket_clients", raise: true, delta: 1 }
}

/// The update for a websocket client disconnecting:
/// `blockchain_websocket_clients` lowered by one.
pub fn ws_client_disconnected_update() -> (r: GaugeUpdate)
    ensures
        r.name@ == "blockchain_websocket_clients"@,
        !r.raise,
        r.delta == 1,
{
    GaugeUpdate { name: "blockchain_websocket_clients", raise: false, delta: 1 }
}

/// The update for one transaction processed by ingestion:
/// `blockchain_transaction_processed_total` plus one.
pub fn transaction_processed_update() -> (r: CounterUpdate)
    ensures
        r.name@ == "blockchain_transaction_processed_total"@,
        r.delta == 1,
{
    CounterUpdate { name: "blockchain_transaction_processed_total", delta: 1 }
}

/// Counts one HTTP request (see `http_request_update`).
pub fn record_http_request() {
    counter_increment(http_request_update());
}

/// Counts one websocket message sent (see `ws_message_sent_update`).
pub fn record_ws_message_sent() {
    counter_increment(ws_message_sent_update());
}

/// Raises the gauge of connected websocket clients by one (see
/// `ws_client_connected_update`).
pub fn record_ws_client_connected() {
    apply_gauge(ws_client_connected_update());
}

/// Lowers the gauge of connected websocket clients by one (see
/// `ws_client_disconnected_update`).
pub fn record_ws_client_disconnected() {
    apply_gauge(ws_client_disconnected_update());
}

/// Counts one transaction processed by ingestion (see
/// `transaction_processed_update`).
pub fn record_transaction_processed() {
    counter_increment(transaction_processed_update());
}

/// Measures the time from its start to its observation into a histogram.
pub struct HistogramTimer {
    start: Instant,
    metric_name: &'static str,
}

impl HistogramTimer {
    /// The histogram this timer records into.
    pub closed spec fn name(&self) -> &'static str {
        self.metric_name
    }

    /// The name of the histogram this timer records into.
    pub fn histogram_key(&self) -> (r: &'static str)
        ensures
            r == self.name(),
    {
        self.metric_name
    }

    /// Starts a timer for the histogram `metric_name`, now.
    pub fn start(metric_name: &'static str) -> (r: Self)
        ensures
            r.name() == metric_name,
    {
        Self { start: instant_now(), metric_name: metric_name }
    }

    /// Records the seconds elapsed since the timer started into its histogram.
    pub fn observe(self) {
        let name = self.histogram_key();
        let elapsed = elapsed_since(&self.start);
        histogram_record(name, elapsed);
    }
}

} // verus!
