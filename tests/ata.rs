use ata_disk::registry;
use ata_disk::{decode_identify, disk_size, Bus, PortIo, ReadReg, RegisterSet, Registry, Status, WriteReg};
use std::cell::RefCell;
use std::collections::{HashMap, VecDeque};
use std::rc::Rc;

/// One port access seen by a simulated channel: channel id, port, value,
/// and whether it was a write.
type Event = (u8, u16, u16, bool);

/// An in-memory channel with one drive per drive bit: remembers what is
/// written to its sectors and answers IDENTIFY with a fixed buffer.
struct FakeChannel {
    chan: u8,
    io: u16,
    ctrl: u16,
    regs: [u8; 8],
    present: bool,
    status_script: VecDeque<u8>,
    signature: (u8, u8),
    identify: Vec<u16>,
    sectors: HashMap<(u8, u32), Vec<u16>>,
    outgoing: VecDeque<u16>,
    incoming: Vec<u16>,
    target: (u8, u32),
    events: Rc<RefCell<Vec<Event>>>,
}

impl FakeChannel {
    fn new(chan: u8, io: u16, ctrl: u16, events: Rc<RefCell<Vec<Event>>>) -> Self {
        FakeChannel {
            chan,
            io,
            ctrl,
            regs: [0; 8],
            present: true,
            status_script: VecDeque::new(),
            signature: (0, 0),
            identify: vec![0; 256],
            sectors: HashMap::new(),
            outgoing: VecDeque::new(),
            incoming: Vec::new(),
            target: (0, 0),
            events,
        }
    }

    fn addressed(&self) -> (u8, u32) {
        let drive = (self.regs[6] >> 4) & 1;
        let lba = ((self.regs[6] as u32 & 0x0F) << 24)
            | ((self.regs[5] as u32) << 16)
            | ((self.regs[4] as u32) << 8)
            | (self.regs[3] as u32);
        (drive, lba)
    }
}

impl PortIo for FakeChannel {
    fn read_byte(&mut self, port: u16) -> u8 {
        let v = if port == self.io + 7 || port == self.ctrl {
            if !self.present {
                0
            } else if let Some(s) = self.status_script.pop_front() {
                s
            } else {
                0x40
            }
        } else if port == self.io + 4 {
            self.signature.0
        } else if port == self.io + 5 {
            self.signature.1
        } else {
            self.regs[(port - self.io) as usize]
        };
        self.events.borrow_mut().push((self.chan, port, v as u16, false));
        v
    }

    fn write_byte(&mut self, port: u16, value: u8) {
        self.events.borrow_mut().push((self.chan, port, value as u16, true));
        if port == self.io + 7 {
            let (drive, lba) = self.addressed();
            match value {
                0x20 => {
                    let words = self.sectors.get(&(drive, lba)).cloned().unwrap_or(vec![0; 256]);
                    self.outgoing = words.into_iter().collect();
                }
                0x30 => {
                    self.target = (drive, lba);
                    self.incoming.clear();
                }
                0xEC => {
                    self.outgoing = self.identify.iter().copied().collect();
                }
                _ => {}
            }
        } else if port >= self.io && port < self.io + 7 {
            self.regs[(port - self.io) as usize] = value;
        }
    }

    fn read_word(&mut self, port: u16) -> u16 {
        let v = self.outgoing.pop_front().unwrap_or(0);
        self.events.borrow_mut().push((self.chan, port, v, false));
        v
    }

    fn write_word(&mut self, port: u16, value: u16) {
        self.events.borrow_mut().push((self.chan, port, value, true));
        self.incoming.push(value);
        if self.incoming.len() == 256 {
            self.sectors.insert(self.target, self.incoming.clone());
            self.incoming.clear();
        }
    }
}

fn registry() -> (Registry<FakeChannel>, Rc<RefCell<Vec<Event>>>) {
    let events = Rc::new(RefCell::new(Vec::new()));
    let p = FakeChannel::new(0, 0x1F0, 0x3F6, events.clone());
    let s = FakeChannel::new(1, 0x170, 0x376, events.clone());
    (ata_disk::registry::init(p, s), events)
}

fn bus() -> Bus<FakeChannel> {
    let events = Rc::new(RefCell::new(Vec::new()));
    Bus::new(1, 0x170, 0x376, 15, FakeChannel::new(1, 0x170, 0x376, events))
}

/// Packs text into identify words, two characters per word, first in the
/// high byte.
fn put_text(words: &mut [u16], from: usize, text: &str) {
    let b = text.as_bytes();
    for i in 0..b.len() / 2 {
        words[from + i] = ((b[2 * i] as u16) << 8) | b[2 * i + 1] as u16;
    }
}

fn sample_identify() -> [u16; 256] {
    let mut w = [0u16; 256];
    put_text(&mut w, 10, "  WD-DRIVE00000000  ");
    put_text(&mut w, 27, "QEMU HARDDISK                           ");
    w[60] = 0x0000;
    w[61] = 0x0001;
    w
}

#[test]
fn write_then_read_returns_the_same_sector() {
    let (mut reg, _) = registry();
    for &(bus, drive, lba) in &[(0u8, 0u8, 0u32), (0, 1, 7), (1, 0, 0x0FFF_FFFF), (1, 1, 12345)] {
        let mut data = [0u8; 512];
        for (i, b) in data.iter_mut().enumerate() {
            *b = (i as u32 * 7 + lba + bus as u32 * 3 + drive as u32) as u8;
        }
        assert!(registry::write(&mut reg, bus, drive, lba, &data));
        let mut out = [0u8; 512];
        assert!(registry::read(&mut reg, bus, drive, lba, &mut out));
        assert_eq!(out.to_vec(), data.to_vec());
    }
}

#[test]
fn sector_bytes_travel_low_byte_first() {
    let (mut reg, events) = registry();
    let mut data = [0u8; 512];
    data[0] = 0x34;
    data[1] = 0x12;
    assert!(registry::write(&mut reg, 0, 0, 3, &data));
    let first_word = events
        .borrow()
        .iter()
        .find(|e| e.1 == 0x1F0 && e.3)
        .copied()
        .unwrap();
    assert_eq!(first_word.2, 0x1234);
}

#[test]
fn identify_decodes_serial_model_and_count() {
    let info = decode_identify(&sample_identify());
    assert_eq!(info.serial, "WD-DRIVE00000000");
    assert_eq!(info.model, "QEMU HARDDISK");
    assert_eq!(info.sector_count, 65536);
}

#[test]
fn sector_count_low_word_only() {
    let mut w = [0u16; 256];
    w[60] = 0xFFFF;
    w[61] = 0x0000;
    assert_eq!(decode_identify(&w).sector_count, 65535);
    w[60] = 0x0000;
    w[61] = 0x0001;
    assert_eq!(decode_identify(&w).sector_count, 0x0001_0000);
    w[60] = 0x5678;
    w[61] = 0x1234;
    assert_eq!(decode_identify(&w).sector_count, 0x1234_5678);
}

#[test]
fn identify_through_registry() {
    let (mut reg, _) = registry();
    let blank = reg.identify(1, 0).unwrap();
    assert_eq!(blank.serial, "\0".repeat(20));
    assert_eq!(blank.model, "\0".repeat(40));
    assert_eq!(blank.sector_count, 0);
    let events = Rc::new(RefCell::new(Vec::new()));
    let mut p = FakeChannel::new(0, 0x1F0, 0x3F6, events.clone());
    p.identify = sample_identify().to_vec();
    let s = FakeChannel::new(1, 0x170, 0x376, events);
    let mut reg = ata_disk::registry::init(p, s);
    let info = reg.identify(0, 0).unwrap();
    assert_eq!(info.serial, "WD-DRIVE00000000");
    assert_eq!(info.model, "QEMU HARDDISK");
    assert_eq!(info.sector_count, 65536);
}

#[test]
fn capacity_in_megabytes_below_a_thousand() {
    let (size, unit) = disk_size(2_000_000);
    assert_eq!((size, unit.as_str()), (976, "MB"));
    let (size, unit) = disk_size(0);
    assert_eq!((size, unit.as_str()), (0, "MB"));
}

#[test]
fn capacity_in_gigabytes_from_a_thousand() {
    let (size, unit) = disk_size(3_000_000_000);
    assert_eq!((size, unit.as_str()), (1430, "GB"));
    let (size, unit) = disk_size(5_859_375);
    assert_eq!((size, unit.as_str()), (2, "GB"));
    let (size, unit) = disk_size(2_048_000);
    assert_eq!((size, unit.as_str()), (0, "GB"));
    let (size, unit) = disk_size(2_047_999);
    assert_eq!((size, unit.as_str()), (999, "MB"));
    let (size, unit) = disk_size(u32::MAX);
    assert_eq!((size, unit.as_str()), (2047, "GB"));
}

#[test]
fn setup_splits_lba_into_registers() {
    let (mut reg, events) = registry();
    let mut out = [0u8; 512];
    assert!(registry::read(&mut reg, 1, 1, 0x0ABCDEF, &mut out));
    let writes: Vec<(u16, u16)> = events
        .borrow()
        .iter()
        .filter(|e| e.3)
        .map(|e| (e.1, e.2))
        .collect();
    assert_eq!(
        writes,
        vec![(0x176, 0xF0), (0x172, 1), (0x173, 0xEF), (0x174, 0xCD), (0x175, 0xAB), (0x177, 0x20)]
    );
    let (mut reg, events) = registry();
    assert!(registry::read(&mut reg, 0, 0, 0x0ABCDEF1, &mut out));
    let writes: Vec<(u16, u16)> = events
        .borrow()
        .iter()
        .filter(|e| e.3)
        .map(|e| (e.1, e.2))
        .collect();
    assert_eq!(
        writes,
        vec![(0x1F6, 0xE0 | 0x0A), (0x1F2, 1), (0x1F3, 0xF1), (0x1F4, 0xDE), (0x1F5, 0xBC), (0x1F7, 0x20)]
    );
}

#[test]
fn no_device_returns_none_without_polling() {
    let events = Rc::new(RefCell::new(Vec::new()));
    let mut ch = FakeChannel::new(1, 0x170, 0x376, events.clone());
    ch.present = false;
    let mut b = Bus::new(1, 0x170, 0x376, 15, ch);
    assert!(b.identify_drive(0).is_none());
    let ev = events.borrow();
    let cmd = ev.iter().position(|e| e.1 == 0x177 && e.3 && e.2 == 0xEC).unwrap();
    assert_eq!(ev.len(), cmd + 2);
    assert_eq!(ev[cmd + 1], (1, 0x177, 0, false));
}

#[test]
fn identify_rejects_non_ata_signature() {
    let mut ch = FakeChannel::new(1, 0x170, 0x376, Rc::new(RefCell::new(Vec::new())));
    ch.signature = (0x14, 0xEB);
    let mut b = Bus::new(1, 0x170, 0x376, 15, ch);
    assert!(b.identify_drive(0).is_none());
    let mut ch = FakeChannel::new(1, 0x170, 0x376, Rc::new(RefCell::new(Vec::new())));
    ch.signature = (0, 0xEB);
    let mut b = Bus::new(1, 0x170, 0x376, 15, ch);
    assert!(b.identify_drive(0).is_none());
    assert!(bus().identify_drive(0).is_some());
}

#[test]
fn identify_stops_on_error_bit() {
    let mut ch = FakeChannel::new(1, 0x170, 0x376, Rc::new(RefCell::new(Vec::new())));
    // four settle reads, the first read after the command, the busy poll,
    // then the error poll
    ch.status_script = vec![0, 0, 0, 0, 0x50, 0x50, 0x41].into_iter().collect();
    let mut b = Bus::new(1, 0x170, 0x376, 15, ch);
    assert!(b.identify_drive(0).is_none());
}

#[test]
fn identify_gives_up_after_256_polls_with_reset() {
    let events = Rc::new(RefCell::new(Vec::new()));
    let mut ch = FakeChannel::new(1, 0x170, 0x376, events.clone());
    let mut script = vec![0u8, 0, 0, 0, 0x10, 0x10];
    script.extend(std::iter::repeat(0x10u8).take(512));
    ch.status_script = script.into_iter().collect();
    let mut b = Bus::new(1, 0x170, 0x376, 15, ch);
    assert!(b.identify_drive(0).is_none());
    let ev = events.borrow();
    let n = ev.len();
    assert_eq!(ev[n - 2], (1, 0x376, 4, true));
    assert_eq!(ev[n - 1], (1, 0x376, 0, true));
}

#[test]
fn identify_returns_the_words_read() {
    let mut ch = FakeChannel::new(1, 0x170, 0x376, Rc::new(RefCell::new(Vec::new())));
    ch.identify = (0..256u16).map(|i| i * 3).collect();
    let mut b = Bus::new(1, 0x170, 0x376, 15, ch);
    let words = b.identify_drive(1).unwrap();
    for i in 0..256 {
        assert_eq!(words[i], i as u16 * 3);
    }
}

#[test]
fn bounded_wait_reports_timeout() {
    let mut ch = FakeChannel::new(0, 0x1F0, 0x3F6, Rc::new(RefCell::new(Vec::new())));
    ch.status_script = std::iter::repeat(0x80u8).take(100).collect();
    let mut b = Bus::new(0, 0x1F0, 0x3F6, 14, ch).with_poll_limit(10);
    let mut out = [9u8; 512];
    assert!(!b.read(0, 1, &mut out));
    assert!(out.iter().all(|&x| x == 9));
    assert!(!b.write(0, 1, &[1u8; 512]));
    assert_eq!(b.poll_limit(), 10);
}

#[test]
fn reads_on_two_channels_do_not_interleave() {
    let (mut reg, events) = registry();
    let mut out = [0u8; 512];
    assert!(registry::read(&mut reg, 0, 0, 5, &mut out));
    let first = events.borrow().len();
    assert!(registry::read(&mut reg, 1, 0, 6, &mut out));
    let ev = events.borrow();
    assert!(ev[..first].iter().all(|e| e.0 == 0));
    assert!(ev[first..].iter().all(|e| e.0 == 1));
    assert!(first > 256 && ev.len() - first > 256);
}

#[test]
fn registry_channels_at_standard_addresses() {
    let (reg, _) = registry();
    assert_eq!(reg.len(), 2);
    assert_eq!(reg.bus(0).registers(), RegisterSet { io_base: 0x1F0, ctrl_base: 0x3F6 });
    assert_eq!(reg.bus(0).irq(), 14);
    assert_eq!(reg.bus(1).registers(), RegisterSet { io_base: 0x170, ctrl_base: 0x376 });
    assert_eq!(reg.bus(1).irq(), 15);
    assert_eq!(reg.bus(1).id(), 1);
}

#[test]
fn register_addresses() {
    let r = RegisterSet::new(0x1F0, 0x3F6);
    assert_eq!(r.data_port(), 0x1F0);
    assert_eq!(r.read_port(ReadReg::Error), 0x1F1);
    assert_eq!(r.read_port(ReadReg::Status), 0x1F7);
    assert_eq!(r.read_port(ReadReg::AltStatus), 0x3F6);
    assert_eq!(r.read_port(ReadReg::DriveAddress), 0x3F7);
    assert_eq!(r.write_port(WriteReg::Features), 0x1F1);
    assert_eq!(r.write_port(WriteReg::Command), 0x1F7);
    assert_eq!(r.write_port(WriteReg::Control), 0x3F6);
    assert_eq!(r.write_port(WriteReg::Lba2), 0x1F5);
}

#[test]
fn status_flags() {
    let s = Status::new(0x80);
    assert!(s.is_busy() && !s.is_ready() && !s.is_error() && !s.has_data_request());
    let s = Status::new(0x49);
    assert!(!s.is_busy() && s.is_ready() && s.is_error() && s.has_data_request());
}
