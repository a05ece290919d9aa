use vstd::prelude::*;

verus! {

/// Registers that may be read. The data register is 16 bits wide and is
/// reached through `Access::ReadData` / `Access::WriteData` instead.
#[derive(Clone, Copy, Debug, PartialEq, Eq, Structural)]
pub enum ReadReg {
    Error,
    SectorCount,
    Lba0,
    Lba1,
    Lba2,
    Drive,
    Status,
    AltStatus,
    DriveAddress,
}

/// Registers that may be written.
#[derive(Clone, Copy, Debug, PartialEq, Eq, Structural)]
pub enum WriteReg {
    Features,
    SectorCount,
    Lba0,
    Lba1,
    Lba2,
    Drive,
    Command,
    Control,
}

/// One register access, as the driver performed it; reads carry the value
/// that came back.
#[derive(Clone, Copy, Debug, PartialEq, Eq, Structural)]
pub enum Access {
    Read(ReadReg, u8),
    Write(WriteReg, u8),
    ReadData(u16),
    WriteData(u16),
}

/// Byte-wide and word-wide port I/O. Implemented over the CPU's I/O ports
/// for real hardware and over an in-memory device for tests.
pub trait PortIo {
    fn read_byte(&mut self, port: u16) -> u8;

    fn write_byte(&mut self, port: u16, value: u8);

    fn read_word(&mut self, port: u16) -> u16;

    fn write_word(&mut self, port: u16, value: u16);
}

/// Where the registers of a read register live: true for the control block.
pub open spec fn read_in_control_block(r: ReadReg) -> bool {
    r == ReadReg::AltStatus || r == ReadReg::DriveAddress
}

pub open spec fn read_offset(r: ReadReg) -> u16 {
    match r {
        ReadReg::Error => 1,
        ReadReg::SectorCount => 2,
        ReadReg::Lba0 => 3,
        ReadReg::Lba1 => 4,
        ReadReg::Lba2 => 5,
        ReadReg::Drive => 6,
        ReadReg::Status => 7,
        ReadReg::AltStatus => 0,
        ReadReg::DriveAddress => 1,
    }
}

pub open spec fn write_in_control_block(r: WriteReg) -> bool {
    r == WriteReg::Control
}

pub open spec fn write_offset(r: WriteReg) -> u16 {
    match r {
        WriteReg::Features => 1,
        WriteReg::SectorCount => 2,
        WriteReg::Lba0 => 3,
        WriteReg::Lba1 => 4,
        WriteReg::Lba2 => 5,
        WriteReg::Drive => 6,
        WriteReg::Command => 7,
        WriteReg::Control => 0,
    }
}

/// The two I/O base addresses of one channel: eight command-block registers
/// at `io_base`, the control block at `ctrl_base`.
#[derive(Clone, Copy, Debug, PartialEq, Eq)]
pub struct RegisterSet {
    pub io_base: u16,
    pub ctrl_base: u16,
}

impl RegisterSet {
    /// Every register address fits in 16 bits.
    pub open spec fn wf(&self) -> bool {
        self.io_base <= 0xFFF8 && self.ctrl_base <= 0xFFFE
    }

    pub open spec fn spec_read_port(&self, r: ReadReg) -> u16 {
        if read_in_control_block(r) {
            (self.ctrl_base + read_offset(r)) as u16
        } else {
            (self.io_base + read_offset(r)) as u16
        }
    }

    pub open spec fn spec_write_port(&self, r: WriteReg) -> u16 {
        if write_in_control_block(r) {
            (self.ctrl_base + write_offset(r)) as u16
        } else {
            (self.io_base + write_offset(r)) as u16
        }
    }

    pub fn new(io_base: u16, ctrl_base: u16) -> (s: RegisterSet)
        requires
            io_base <= 0xFFF8,
            ctrl_base <= 0xFFFE,
        ensures
            s.io_base == io_base,
            s.ctrl_base == ctrl_base,
            s.wf(),
    {
        RegisterSet { io_base, ctrl_base }
    }

    /// The address of the data register.
    pub fn data_port(&self) -> (p: u16)
        ensures
            p == self.io_base,
    {
        self.io_base
    }

    pub fn read_port(&self, r: ReadReg) -> (p: u16)
        requires
            self.wf(),
        ensures
            p == self.spec_read_port(r),
    {
        match r {
            ReadReg::Error => self.io_base + 1,
            ReadReg::SectorCount => self.io_base + 2,
            ReadReg::Lba0 => self.io_base + 3,
            ReadReg::Lba1 => self.io_base + 4,
            ReadReg::Lba2 => self.io_base + 5,
            ReadReg::Drive => self.io_base + 6,
            ReadReg::Status => self.io_base + 7,
            ReadReg::AltStatus => self.ctrl_base,
            ReadReg::DriveAddress => self.ctrl_base + 1,
        }
    }

    pub fn write_port(&self, r: WriteReg) -> (p: u16)
        requires
            self.wf(),
        ensures
            p == self.spec_write_port(r),
    {
        match r {
            WriteReg::Features => self.io_base + 1,
            WriteReg::SectorCount => self.io_base + 2,
            WriteReg::Lba0 => self.io_base + 3,
            WriteReg::Lba1 => self.io_base + 4,
            WriteReg::Lba2 => self.io_base + 5,
            WriteReg::Drive => self.io_base + 6,
            WriteReg::Command => self.io_base + 7,
            WriteReg::Control => self.ctrl_base,
        }
    }
}

} // verus!
