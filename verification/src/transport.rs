//! Transport-level types shared with the shell that owns the USB handle.
//!
//! The bulk pipe itself (write, read, timeouts) is I/O and lives outside
//! the crate; what belongs here is the device identification table and the
//! error taxonomy that the engines and their callers speak.

use vstd::prelude::*;

verus! {

/// Failures of the bulk transport.  `UsbNoFound` and `Denied` arise while
/// binding the device; `Tx` / `Rx` cover a failed or timed-out bulk
/// transfer.  All are fatal to the current session: the caller must
/// reinitialize rather than retry.
#[derive(Debug, Clone, Copy, PartialEq, Eq, Structural)]
pub enum Error {
    UsbNoFound,
    Denied,
    Tx,
    Rx,
}

/// True exactly for the vendor/product pairs under which the bridge
/// enumerates.
pub open spec fn is_ch34x_id_spec(vendor: u16, product: u16) -> bool {
    vendor == 0x1A86 && (product == 0x55DE || product == 0x55DD || product == 0x55E8)
}

/// Whether a USB vendor/product id pair is one of the bridge's.
pub fn is_ch34x_id(vendor: u16, product: u16) -> (r: bool)
    ensures
        r == is_ch34x_id_spec(vendor, product),
{
    vendor == 0x1A86 && (product == 0x55DE || product == 0x55DD || product == 0x55E8)
}

} // verus!
