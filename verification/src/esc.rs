//! Motor data for the electronic-speed-controller bank.
//!
//! Only the pure data lives here: driving the PWM peripheral is hardware
//! work outside this library, and it consumes these values unchanged.

use vstd::prelude::*;

verus! {

/// Strength of the four rotors in whole percentages (0 to 100, no
/// fractions).  Construction rejects anything above 100.
pub struct RotorStrength {
    m1: u8,
    m2: u8,
    m3: u8,
    m4: u8,
}

impl View for RotorStrength {
    type V = (u8, u8, u8, u8);

    closed spec fn view(&self) -> (u8, u8, u8, u8) {
        (self.m1, self.m2, self.m3, self.m4)
    }
}

impl RotorStrength {
    /// All four strengths stay within 100 percent.
    pub open spec fn valid(self) -> bool {
        self@.0 <= 100 && self@.1 <= 100 && self@.2 <= 100 && self@.3 <= 100
    }

    /// Strength for the four rotors in order.  A strength above 100
    /// percent halts the firmware, so it is excluded here.
    pub fn new(m1: u8, m2: u8, m3: u8, m4: u8) -> (r: Self)
        requires
            m1 <= 100,
            m2 <= 100,
            m3 <= 100,
            m4 <= 100,
        ensures
            r@ == (m1, m2, m3, m4),
            r.valid(),
    {
        Self { m1, m2, m3, m4 }
    }

    /// Strength of the first rotor.
    pub fn m1(&self) -> (r: u8)
        ensures
            r == self@.0,
    {
        self.m1
    }

    /// Strength of the second rotor.
    pub fn m2(&self) -> (r: u8)
        ensures
            r == self@.1,
    {
        self.m2
    }

    /// Strength of the third rotor.
    pub fn m3(&self) -> (r: u8)
        ensures
            r == self@.2,
    {
        self.m3
    }

    /// Strength of the fourth rotor.
    pub fn m4(&self) -> (r: u8)
        ensures
            r == self@.3,
    {
        self.m4
    }
}

} // verus!
