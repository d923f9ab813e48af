//! The shutdown signal as one task sees it: armed at first, fired once the
//! notification has come, and never armed again.
use vstd::prelude::*;

verus! {

/// One subscription to the shutdown signal.
#[derive(Debug)]
pub struct Shutdown {
    shutdown: bool,
}

impl View for Shutdown {
    type V = bool;

    /// Whether the signal has fired for this subscription.
    closed spec fn view(&self) -> bool {
        self.shutdown
    }
}

impl Shutdown {
    /// A subscription for which the signal has not fired.
    pub fn new() -> (shutdown: Shutdown)
        ensures
            !shutdown@,
    {
        Shutdown { shutdown: false }
    }

    /// Whether the signal has fired.
    pub fn is_shutdown(&self) -> (fired: bool)
        ensures
            fired == self@,
    {
        self.shutdown
    }

    /// Receives the signal, if it is there.
    ///
    /// `notified` says whether the notification has come. The result says
    /// whether the signal has fired; while it has not, the caller waits for
    /// the notification and calls again. A signal that has fired stays
    /// fired.
    pub fn recv(&mut self, notified: bool) -> (fired: bool)
        ensures
            final(self)@ == (old(self)@ || notified),
            fired == final(self)@,
    {
        if self.shutdown {
            return true;
        }
        if notified {
            self.shutdown = true;
        }
        self.shutdown
    }
}

} // verus!
