use vstd::prelude::*;

verus! {

/// Bit positions of the status register.
pub const ERR: u8 = 0;
pub const DRQ: u8 = 3;
pub const RDY: u8 = 6;
pub const BSY: u8 = 7;

/// Whether bit `i` of `v` is set.
pub open spec fn bit_set(v: u8, i: u8) -> bool {
    (v >> i) & 1u8 == 1u8
}

pub open spec fn busy_bit(v: u8) -> bool {
    bit_set(v, BSY)
}

pub open spec fn error_bit(v: u8) -> bool {
    bit_set(v, ERR)
}

pub open spec fn ready_bit(v: u8) -> bool {
    bit_set(v, RDY)
}

/// One reading of the status register, with a predicate per named flag.
#[derive(Clone, Copy, Debug, PartialEq, Eq)]
pub struct Status {
    pub bits: u8,
}

impl Status {
    pub fn new(bits: u8) -> (s: Status)
        ensures
            s.bits == bits,
    {
        Status { bits }
    }

    /// BSY: the device is busy.
    pub fn is_busy(&self) -> (r: bool)
        ensures
            r == busy_bit(self.bits),
    {
        (self.bits >> BSY) & 1u8 == 1u8
    }

    /// ERR: the last command ended in error.
    pub fn is_error(&self) -> (r: bool)
        ensures
            r == error_bit(self.bits),
    {
        (self.bits >> ERR) & 1u8 == 1u8
    }

    /// RDY: the device is ready.
    pub fn is_ready(&self) -> (r: bool)
        ensures
            r == ready_bit(self.bits),
    {
        (self.bits >> RDY) & 1u8 == 1u8
    }

    /// DRQ: the device has data to transfer.
    pub fn has_data_request(&self) -> (r: bool)
        ensures
            r == bit_set(self.bits, DRQ),
    {
        (self.bits >> DRQ) & 1u8 == 1u8
    }
}

} // verus!
