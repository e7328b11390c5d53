//! Progress reporting for the cooperative driver.
//!
//! Events are delivered to a caller-supplied sink, one way and
//! fire-and-forget: nothing is promised of the sink's behaviour and nothing
//! in the conversion depends on it.  The sink also provides the cooperative
//! checkpoint: a voluntary suspension point at which the driver offers
//! control back to the host environment; what suspending means — a thread
//! yield, a timer, nothing at all — is the host's adapter detail.

use vstd::prelude::*;

verus! {

/// One stage-labeled progress event.  The stages progress monotonically:
/// the page count is reported once, then each page as it is converted,
/// then assembly in small batches, then saving, then completion.
#[derive(Debug, Clone, Copy, PartialEq, Eq, Structural)]
pub enum Stage {
    /// The source was parsed and holds this many pages.
    Loaded { pages: usize },
    /// Page `page` of `total` (1-based) is being converted.
    RenderingPage { page: usize, total: usize },
    /// Page `page` of `total` (1-based) is being assembled into the output.
    Assembling { page: usize, total: usize },
    /// The output document is being serialized.
    Saving,
    /// The conversion finished and the output bytes exist.
    Done,
}

/// A caller-supplied progress sink.  It must not block and cannot fail the
/// conversion; the driver calls `checkpoint` at defined points to yield
/// control cooperatively.
pub trait ProgressSink {
    /// Receive one stage-labeled event.
    fn report(&mut self, stage: Stage);

    /// A voluntary suspension point after a unit of work.
    fn checkpoint(&mut self);
}

/// The sink of the batch driver: it ignores every event and never
/// suspends.
pub struct SilentSink;

impl ProgressSink for SilentSink {
    fn report(&mut self, _stage: Stage) {
    }

    fn checkpoint(&mut self) {
    }
}

} // verus!
