use vstd::prelude::*;

verus! {

/// Fault reported by a bus pin driver.
#[derive(Debug, Copy, Clone, PartialEq, Eq)]
pub struct PinFault;

/// Errors surfaced by the 1-Wire protocol layers.
///
/// All variants are local, typed, non-fatal conditions returned to the
/// caller; none of them panics the process.
#[derive(Debug, Copy, Clone, PartialEq, Eq)]
pub enum Error<E> {
    /// The bus was expected to be pulled high by the pull-up resistor, but it
    /// was not.
    BusNotHigh,
    /// Underlying pin driver fault.
    Pin(E),
    /// An unexpected response was received from a command: no presence pulse,
    /// or an unrecognized configuration byte.
    UnexpectedResponse,
    FamilyCodeMismatch,
    /// Data received over the line failed its CRC-8 check; the caller must
    /// discard the data. No retry is performed at this layer.
    CrcMismatch,
    /// No sensors were present to aggregate.
    Timeout,
}

impl<E> Error<E> {
    pub fn as_str(&self) -> (r: &'static str)
        ensures
            self is BusNotHigh ==> r@ == "Bus not high"@,
            self is Pin ==> r@ == "Pin error"@,
            self is UnexpectedResponse ==> r@ == "Unexpected response"@,
            self is FamilyCodeMismatch ==> r@ == "Family code mismatch"@,
            self is CrcMismatch ==> r@ == "CRC mismatch"@,
            self is Timeout ==> r@ == "Timeout"@,
    {
        match self {
            Self::BusNotHigh => "Bus not high",
            Self::Pin(_) => "Pin error",
            Self::UnexpectedResponse => "Unexpected response",
            Self::FamilyCodeMismatch => "Family code mismatch",
            Self::CrcMismatch => "CRC mismatch",
            Self::Timeout => "Timeout",
        }
    }
}

} // verus!
