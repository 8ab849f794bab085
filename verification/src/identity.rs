use vstd::prelude::*;

verus! {

/// An opaque 32-byte principal, held as four little-endian 64-bit words.
/// Equality is the only operation the engines ever perform on one; the
/// word form lets `==` carry its structural meaning in contracts.
#[derive(Clone, Copy, Debug, PartialEq, Eq, Structural)]
pub struct Identity {
    pub w0: u64,
    pub w1: u64,
    pub w2: u64,
    pub w3: u64,
}

} // verus!
