//! Run-wide flags (quiet output, shutdown requested), held in a small record
//! that callers pass down instead of process-wide globals.
use vstd::prelude::*;
use crate::store::ErrorKind;

verus! {

/// Flags that long-running operations consult between units of work.
#[derive(Debug, Clone, Copy)]
pub struct RunFlags {
    pub quiet: bool,
    pub shutdown: bool,
}

impl RunFlags {
    /// Flags with quiet mode off and no shutdown requested.
    pub fn new() -> (r: RunFlags)
        ensures
            !r.quiet,
            !r.shutdown,
    {
        RunFlags { quiet: false, shutdown: false }
    }
}

/// Turns quiet mode on or off.
pub fn set_quiet(flags: &mut RunFlags, quiet: bool)
    ensures
        final(flags).quiet == quiet,
        final(flags).shutdown == old(flags).shutdown,
{
    flags.quiet = quiet;
}

/// Whether quiet mode is on.
pub fn is_quiet(flags: &RunFlags) -> (r: bool)
    ensures
        r == flags.quiet,
{
    flags.quiet
}

/// Records that a graceful shutdown was requested.
pub fn request_shutdown(flags: &mut RunFlags)
    ensures
        final(flags).shutdown,
        final(flags).quiet == old(flags).quiet,
{
    flags.shutdown = true;
}

/// Whether a graceful shutdown was requested.
pub fn is_shutdown_requested(flags: &RunFlags) -> (r: bool)
    ensures
        r == flags.shutdown,
{
    flags.shutdown
}

/// Whether work should stop: a shutdown was requested or the caller's
/// cancellation token (`cancelled`) has tripped.
pub fn check_shutdown(flags: &RunFlags, cancelled: bool) -> (r: bool)
    ensures
        r == (flags.shutdown || cancelled),
{
    flags.shutdown || cancelled
}

/// Checked between files and between embedding batches: `Cancelled` once a
/// shutdown was requested or the cancellation token tripped.
pub fn ensure_running(flags: &RunFlags, cancelled: bool) -> (r: Result<(), ErrorKind>)
    ensures
        (flags.shutdown || cancelled) ==> r == Err::<(), ErrorKind>(ErrorKind::Cancelled),
        !(flags.shutdown || cancelled) ==> r is Ok,
{
    if check_shutdown(flags, cancelled) {
        Err(ErrorKind::Cancelled)
    } else {
        Ok(())
    }
}

} // verus!
