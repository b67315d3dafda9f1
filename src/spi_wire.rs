//! The SPI wire medium: shared signal lines and a clock that wakes a waiter
//! on every tick.
use rsevents::{AutoResetEvent, Awaitable, EventState};
use std::sync::atomic::{AtomicBool, Ordering};
use vstd::prelude::*;

verus! {

/// A signal line that both participants may read and drive at any time.
/// What a read sees depends on the other threads, so no contract states it.
pub struct LiveWire {
    signal: AtomicBool,
}

impl LiveWire {
    pub fn new() -> Self {
        LiveWire { signal: AtomicBool::new(false) }
    }

    /// Inverts the line.
    pub fn flip(&self) {
        self.signal.fetch_xor(true, Ordering::Relaxed);
    }

    /// Drives the line to `signal`.
    pub fn pull(&self, signal: bool) {
        self.signal.store(signal, Ordering::Relaxed);
    }

    pub fn read(&self) -> bool {
        self.signal.load(Ordering::Relaxed)
    }
}

impl Default for LiveWire {
    fn default() -> Self {
        Self::new()
    }
}

#[verifier::external_type_specification]
#[verifier::external_body]
pub struct ExAutoResetEvent(AutoResetEvent);

/// Relies on `AutoResetEvent::new(EventState::Unset)`: an event that is not
/// signalled.
#[verifier::external_body]
pub(crate) fn unset_event() -> AutoResetEvent {
    AutoResetEvent::new(EventState::Unset)
}

/// Relies on `AutoResetEvent::set`: releases one waiter, now or later.
#[verifier::external_body]
pub(crate) fn signal_event(e: &AutoResetEvent) {
    e.set()
}

/// Relies on `Awaitable::wait` of `AutoResetEvent`: blocks until the event
/// is signalled, then unsets it.
#[verifier::external_body]
pub(crate) fn wait_event(e: &AutoResetEvent) {
    e.wait()
}

/// The clock line, with a wakeup for a thread that waits on the next tick.
pub struct Clock {
    mechanism: AutoResetEvent,
    line: LiveWire,
}

impl Clock {
    pub fn new() -> Self {
        Clock { mechanism: unset_event(), line: LiveWire::new() }
    }

    /// The line value, without waiting.
    pub fn get_line_value(&self) -> bool {
        self.line.read()
    }

    /// Waits for the next tick, then reads the line.
    pub fn get_clock(&self) -> bool {
        wait_event(&self.mechanism);
        self.get_line_value()
    }

    /// Flips the clock line and releases one waiter.
    pub fn tick(&self) {
        self.line.flip();
        signal_event(&self.mechanism);
    }
}

impl Default for Clock {
    fn default() -> Self {
        Self::new()
    }
}

/// The lines shared by an SPI master and its slave.
pub struct SpiMedium {
    pub mosi: LiveWire,
    pub miso: LiveWire,
    pub cs_select: LiveWire,
    pub kill: LiveWire,
    pub clock: Clock,
}

impl SpiMedium {
    /// Fresh lines, with chip select high (deselected) until the master
    /// starts a transfer.
    pub fn new() -> Self {
        let medium = SpiMedium {
            mosi: LiveWire::new(),
            miso: LiveWire::new(),
            cs_select: LiveWire::new(),
            kill: LiveWire::new(),
            clock: Clock::new(),
        };
        medium.cs_select.pull(true);
        medium
    }
}

} // verus!
