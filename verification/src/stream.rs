//! Streaming vocabulary: time units, window triggers, and the stable names
//! of the streaming extension payloads.
use vstd::prelude::*;

verus! {

/// Stable name of the windowing extension payload.
pub const WINDOW_NAME: &'static str = "dol.stream/window";

/// Stable name of the time-series extension payload.
pub const TIMESERIES_NAME: &'static str = "dol.stream/timeseries";

/// Stable name of the IoT-sample extension payload.
pub const IOT_SAMPLE_NAME: &'static str = "dol.stream/iot.sample";

/// Wire-format version shared by all streaming extension payloads.
pub const EXTENSION_VERSION: u32 = 1;

/// Calendar / wall-clock time unit.
#[derive(Debug, Clone, Copy, PartialEq, Eq, Structural)]
pub enum TimeUnit {
    /// Milliseconds.
    Millisecond,
    /// Seconds.
    Second,
    /// Minutes.
    Minute,
    /// Hours.
    Hour,
    /// Days.
    Day,
    /// Weeks.
    Week,
    /// Months.
    Month,
    /// Years.
    Year,
}

/// When window results are emitted.
#[derive(Debug, Clone, Copy, PartialEq, Eq, Structural)]
pub enum Trigger {
    /// Fire once when the watermark passes the window's end.
    AfterWatermark,
    /// Fire after every record.
    PerRecord,
    /// Fire periodically while the window is open.
    Periodic {
        /// Inter-fire period in milliseconds.
        period_ms: u64,
    },
    /// Fire when an explicit signal is received from the runtime.
    OnSignal,
}

} // verus!
