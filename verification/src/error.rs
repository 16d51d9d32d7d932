//! What a driver call answers when it fails.
use vstd::prelude::*;

verus! {

/// Why a driver call failed.
#[derive(Clone, Copy, PartialEq, Eq, Structural, Debug)]
pub enum CuError {
    InvalidValue,
    NotSupported,
    /// The image holds nothing that can be translated.
    NoBinaryForGpu,
    Unknown,
    /// A failure that the device driver reports, by its number.
    Driver(i32),
}

} // verus!
