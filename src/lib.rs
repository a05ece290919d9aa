//! Polling PATA/IDE disk driver: register map, status flags, the command
//! protocol for IDENTIFY / READ SECTOR / WRITE SECTOR, identify-data decoding
//! and a registry of channels; plus the pure parts of the shell's network and
//! search tools (DNS messages, HTTP URLs, search output state).

pub mod channel;
pub mod dns;
pub mod find;
pub mod identify;
pub mod regs;
pub mod registry;
pub mod status;
pub mod url;

pub use channel::Bus;
pub use identify::{decode_identify, disk_size, IdentifyInfo};
pub use regs::{Access, PortIo, ReadReg, RegisterSet, WriteReg};
pub use registry::Registry;
pub use registry::{read as read_sector, write as write_sector};
pub use status::Status;
