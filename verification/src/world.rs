//! What a step sees of the world: the wall clock, which the host reads, and a
//! random number, which is drawn here.

use vstd::prelude::*;

verus! {

/// The local date and time, field by field, as the host reads it from its
/// clock.
#[derive(Debug, Clone, Copy, PartialEq, Eq, Structural)]
pub struct ClockReading {
    pub year: i64,
    /// 1 to 12.
    pub month: i64,
    /// 1 to 31.
    pub day: i64,
    /// Days since Monday: 0 to 6.
    pub weekday: i64,
    pub hour: i64,
    pub minute: i64,
    pub second: i64,
}

impl ClockReading {
    /// The start of the first of January 1970, a Thursday.
    pub fn epoch() -> (reading: ClockReading)
        ensures
            reading == (ClockReading {
                year: 1970,
                month: 1,
                day: 1,
                weekday: 3,
                hour: 0,
                minute: 0,
                second: 0,
            }),
    {
        ClockReading { year: 1970, month: 1, day: 1, weekday: 3, hour: 0, minute: 0, second: 0 }
    }
}

/// What the outside world shows during one step.
#[derive(Debug, Clone, Copy, PartialEq, Eq, Structural)]
pub struct World {
    pub clock: ClockReading,
    /// A random number, unless the system's source of randomness failed.
    pub entropy: Option<u32>,
}

/// `getrandom::Error`, the failure of the system's source of randomness. It is
/// carried through as it comes; nothing is read from it.
#[verifier::external_type_specification]
#[verifier::external_body]
pub struct ExEntropyError(getrandom::Error);

/// Asks the system for four random bytes, through `getrandom::getrandom`.
/// Nothing is claimed of the bytes, nor of whether the call succeeds.
#[verifier::external_body]
pub(crate) fn random_bytes() -> (r: Result<[u8; 4], getrandom::Error>) {
    let mut buffer: [u8; 4] = [0; 4];
    match getrandom::getrandom(&mut buffer) {
        Ok(()) => Ok(buffer),
        Err(error) => Err(error),
    }
}

/// The number that four bytes spell, the lowest byte first.
pub open spec fn number_of(bytes: Seq<u8>) -> int {
    bytes[0] + 0x100 * bytes[1] + 0x1_0000 * bytes[2] + 0x100_0000 * bytes[3]
}

/// Puts four bytes together to a number, the lowest byte first.
pub fn assemble(bytes: [u8; 4]) -> (n: u32)
    ensures
        n == number_of(bytes@),
{
    let b0: u32 = bytes[0] as u32;
    let b1: u32 = bytes[1] as u32;
    let b2: u32 = bytes[2] as u32;
    let b3: u32 = bytes[3] as u32;
    assert(b0 | b1 << 8 | b2 << 16 | b3 << 24 == b0 + 0x100 * b1 + 0x1_0000 * b2 + 0x100_0000 * b3)
        by (bit_vector)
        requires
            b0 < 0x100,
            b1 < 0x100,
            b2 < 0x100,
            b3 < 0x100,
    ;
    b0 | b1 << 8 | b2 << 16 | b3 << 24
}

/// A random number of 32 bits, if the system gives one.
pub fn draw_number() -> (r: Option<u32>) {
    number_drawn(random_bytes())
}

/// What a draw comes to: the number that the four bytes spell, or nothing
/// where the system's source of randomness failed.
pub fn number_drawn(drawn: Result<[u8; 4], getrandom::Error>) -> (r: Option<u32>)
    ensures
        r == match drawn {
            Ok(bytes) => Some(number_of(bytes@) as u32),
            Err(_) => None,
        },
{
    match drawn {
        Ok(bytes) => Some(assemble(bytes)),
        Err(_) => None,
    }
}

} // verus!
