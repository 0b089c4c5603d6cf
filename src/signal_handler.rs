//! Graceful or hard interrupts: while a grace token is held, an interrupt
//! only sets a flag for the crawl loop to see; otherwise it ends the
//! process.

use std::sync::atomic::{AtomicBool, Ordering};
use std::sync::Arc;

use vstd::prelude::*;

verus! {

/// Relies on `Arc::clone`: a second handle to the same flag.
#[verifier::external_body]
fn share_flag(a: &Arc<AtomicBool>) -> (r: Arc<AtomicBool>)
    ensures
        r == *a,
{
    Arc::clone(a)
}

/// Relies on `AtomicBool::store` with `Ordering::Relaxed`, which the
/// documentation says panics only for `Acquire` and `AcqRel`: lowers the
/// flag without unwinding.
#[verifier::external_body]
fn lower_flag(a: &AtomicBool)
    opens_invariants none
    no_unwind
{
    a.store(false, Ordering::Relaxed)
}

/// What an interrupt does: with a grace token held it only raises the
/// interrupt flag and the process goes on; without one the process ends
/// with status 1.
#[derive(Clone, Copy, Debug, PartialEq, Eq, Structural)]
pub enum InterruptAction {
    Continue,
    Exit,
}

/// The action for an interrupt, given whether a grace token is held.
pub fn interrupt_action(graceful: bool) -> (r: InterruptAction)
    ensures
        graceful ==> r == InterruptAction::Continue,
        !graceful ==> r == InterruptAction::Exit,
{
    if graceful {
        InterruptAction::Continue
    } else {
        InterruptAction::Exit
    }
}

/// The two flags shared between the crawl loop and the interrupt callback.
pub struct SignalHandler {
    graceful: Arc<AtomicBool>,
    interrupt: Arc<AtomicBool>,
}

impl SignalHandler {
    /// Both flags down.
    pub fn new() -> (r: SignalHandler) {
        SignalHandler {
            graceful: Arc::new(AtomicBool::new(false)),
            interrupt: Arc::new(AtomicBool::new(false)),
        }
    }

    /// A second handle to the same flags, for the interrupt callback.
    pub fn share(&self) -> (r: SignalHandler) {
        SignalHandler { graceful: share_flag(&self.graceful), interrupt: share_flag(&self.interrupt) }
    }

    /// Handles an interrupt: with a grace token held, raises the interrupt
    /// flag and returns `Continue`; otherwise returns `Exit`, and the caller
    /// ends the process with status 1.
    pub fn on_interrupt(&self) -> (r: InterruptAction) {
        let graceful = self.graceful.load(Ordering::Relaxed);
        let action = interrupt_action(graceful);
        if graceful {
            self.interrupt.store(true, Ordering::Relaxed);
        }
        action
    }

    /// A grace token, if none is held: the only one until it is dropped.
    pub fn grace(&self) -> (r: Option<Grace>) {
        match self.graceful.compare_exchange(false, true, Ordering::Relaxed, Ordering::Relaxed) {
            Ok(_) => Some(Grace { signal_handler: self.share() }),
            Err(_) => None,
        }
    }
}

impl Default for SignalHandler {
    fn default() -> (r: SignalHandler) {
        SignalHandler::new()
    }
}

/// Permission for the current iteration of the crawl loop to finish before
/// an interrupt takes effect; dropping it takes the permission back.
pub struct Grace {
    signal_handler: SignalHandler,
}

impl Grace {
    /// Whether an interrupt arrived.
    pub fn is_interrupted(&self) -> (r: bool) {
        self.signal_handler.interrupt.load(Ordering::Relaxed)
    }
}

impl Drop for Grace {
    fn drop(&mut self)
        opens_invariants none
        no_unwind
    {
        lower_flag(&self.signal_handler.graceful);
    }
}

} // verus!
