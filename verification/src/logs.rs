use vstd::prelude::*;

verus! {

/// Diagnostic sink with three severity levels. Logging is observability only:
/// no implementation may affect control flow, and a no-op implementation is
/// valid (there is no output sink on a bare-metal target).
pub trait Logger {
    fn error(&self, msg: &str);

    fn warn(&self, msg: &str);

    fn info(&self, msg: &str);
}

/// Logger for targets without an output sink: every message is discarded.
pub struct NoStdLogger;

impl Logger for NoStdLogger {
    fn error(&self, msg: &str) {
    }

    fn warn(&self, msg: &str) {
    }

    fn info(&self, msg: &str) {
    }
}

/// The sink used by the decoding core; discards every message.
pub const LOG: NoStdLogger = NoStdLogger;

} // verus!
