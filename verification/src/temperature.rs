//! Temperatures are carried as the IEEE-754 binary64 encoding of a value in
//! degrees Celsius, so that nothing is lost between the configuration file
//! and the library, and so that the library can order them with integers.

use vstd::prelude::*;

verus! {

/// 2^63: the sign bit of a binary64 encoding.
pub const SIGN_BIT: u64 = 0x8000_0000_0000_0000u64;

/// The encoding of positive infinity; every magnitude above it is a NaN.
pub const INFINITY_BITS: u64 = 0x7FF0_0000_0000_0000u64;

/// A temperature in degrees Celsius, held as its IEEE-754 binary64 bits.
#[derive(Clone, Copy, Debug, PartialEq, Eq, Structural)]
pub struct Celsius(pub u64);

impl Celsius {
    /// Whether the sign bit is set.
    pub open spec fn negative(self) -> bool {
        self.0 >= SIGN_BIT
    }

    /// The encoding with the sign bit cleared.
    pub open spec fn magnitude(self) -> int {
        if self.negative() { self.0 - SIGN_BIT } else { self.0 as int }
    }

    /// Whether the encoding is a NaN (all exponent bits set, fraction non-zero).
    pub open spec fn nan(self) -> bool {
        self.magnitude() > INFINITY_BITS
    }

    /// The order key of the encoding: for two encodings that are not NaN,
    /// the binary64 comparison `a < b` holds exactly when `a.key() < b.key()`
    /// and `a == b` exactly when the keys are equal (so -0.0 equals +0.0).
    pub open spec fn key(self) -> int {
        if self.negative() { -self.magnitude() } else { self.magnitude() }
    }

    /// Whether this temperature is NaN.
    pub fn is_nan(&self) -> (r: bool)
        ensures
            r == self.nan(),
    {
        let magnitude: u64 = if self.0 >= SIGN_BIT { self.0 - SIGN_BIT } else { self.0 };
        magnitude > INFINITY_BITS
    }

    /// The order key of this temperature (see [`Celsius::key`]).
    pub fn order_key(&self) -> (k: i64)
        ensures
            k == self.key(),
    {
        if self.0 >= SIGN_BIT {
            let magnitude: u64 = self.0 - SIGN_BIT;
            -(magnitude as i64)
        } else {
            self.0 as i64
        }
    }
}

} // verus!
