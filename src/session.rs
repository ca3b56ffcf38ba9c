//! The peripheral's advertising session: `Stopped -> Advertising -> Stopped`,
//! with `start` and `stop` doing nothing when already in their target state.
use vstd::prelude::*;

verus! {

/// The 128-bit UUID of the advertised GATT service.
pub const SERVICE_UUID: u128 = 0xf7826da64fa24e988024bc5b71e0893e;

/// The 128-bit UUID of the command characteristic (write and notify).
pub const CMD_CHAR_UUID: u128 = 0x6e400002b5a3f393e0a9e50e24dcca9e;

/// How long `stop` waits after releasing the advertisement, in milliseconds,
/// so that the adapter has finished before a later `start`.
pub const BLE_SHUTDOWN_DELAY_MS: u64 = 1_000;

/// Whether the peripheral is advertising.
pub struct Session {
    pub advertising: bool,
}

impl Session {
    /// A stopped session.
    pub fn new() -> (r: Self)
        ensures
            !r.advertising,
    {
        Session { advertising: false }
    }

    /// Whether `start` has work to do: only a stopped session starts.
    pub fn needs_start(&self) -> (r: bool)
        ensures
            r == !self.advertising,
    {
        !self.advertising
    }

    /// Records that every registration step of `start` succeeded.
    pub fn mark_started(&mut self)
        ensures
            final(self).advertising,
    {
        self.advertising = true;
    }

    /// Begins `stop`: says whether there is anything to release, and leaves
    /// the session stopped either way.
    pub fn begin_stop(&mut self) -> (r: bool)
        ensures
            r == old(self).advertising,
            !final(self).advertising,
    {
        let was = self.advertising;
        self.advertising = false;
        was
    }
}

} // verus!
