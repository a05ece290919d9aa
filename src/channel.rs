use vstd::prelude::*;
use crate::regs::{Access, PortIo, ReadReg, RegisterSet, WriteReg};
use crate::status::{busy_bit, error_bit, ready_bit, Status};

verus! {

/// Command codes (single sector, PIO, with retries).
pub const CMD_READ: u8 = 0x20;
pub const CMD_WRITE: u8 = 0x30;
pub const CMD_IDENTIFY: u8 = 0xEC;

/// Bit 2 of the device-control register: software reset.
pub const CONTROL_RESET: u8 = 4;

/// The poll bound a channel starts with: for any real drive, no bound at all.
pub const NO_POLL_LIMIT: u64 = 0xFFFF_FFFF_FFFF_FFFF;

pub open spec fn is_status_read(a: Access) -> bool {
    a matches Access::Read(ReadReg::Status, _)
}

pub open spec fn value_read(a: Access) -> u8 {
    match a {
        Access::Read(_, v) => v,
        _ => 0,
    }
}

/// `t1` is `t0` with accesses added at the end.
pub open spec fn grows(t0: Seq<Access>, t1: Seq<Access>) -> bool {
    &&& t0.len() <= t1.len()
    &&& forall|i: int| 0 <= i < t0.len() ==> #[trigger] t1[i] == t0[i]
}

pub proof fn lemma_grows_split(t0: Seq<Access>, t1: Seq<Access>)
    requires
        grows(t0, t1),
    ensures
        t1 == t0 + since(t0, t1),
{
    assert(t1 =~= t0 + since(t0, t1));
}

pub proof fn lemma_grows_append(t0: Seq<Access>, x: Seq<Access>)
    ensures
        grows(t0, t0 + x),
        since(t0, t0 + x) == x,
{
    assert forall|i: int| 0 <= i < t0.len() implies #[trigger] (t0 + x)[i] == t0[i] by {}
    assert(since(t0, t0 + x) =~= x);
}

pub proof fn lemma_since_chain(t0: Seq<Access>, t1: Seq<Access>, t2: Seq<Access>)
    requires
        grows(t0, t1),
        grows(t1, t2),
    ensures
        grows(t0, t2),
        since(t0, t2) == since(t0, t1) + since(t1, t2),
{
    assert(since(t0, t2) =~= since(t0, t1) + since(t1, t2));
}

pub proof fn lemma_identify_head(pre: Seq<Access>, rest: Seq<Access>, drive: u8)
    requires
        identify_preamble(pre, drive),
        pre.len() == 13,
    ensures
        identify_preamble(pre + rest, drive),
        (pre + rest)[12] == pre[12],
        (pre + rest).skip(13) == rest,
{
    let t = pre + rest;
    assert(t.subrange(0, 2) =~= pre.subrange(0, 2));
    assert(t.subrange(6, 12) =~= pre.subrange(6, 12));
    assert(forall|i: int| 0 <= i < 13 ==> t[i] == pre[i]);
    assert(t.skip(13) =~= rest);
}

/// The accesses of `t1` that came after `t0`.
pub open spec fn since(t0: Seq<Access>, t1: Seq<Access>) -> Seq<Access> {
    t1.skip(t0.len() as int)
}

/// The drive/head value that selects `drive` for IDENTIFY.
pub open spec fn select_value(drive: u8) -> u8 {
    0xA0u8 | (drive << 4u8)
}

/// The drive/head value for an LBA28 transfer: LBA mode, the drive bit and
/// bits 24..28 of the address.
pub open spec fn lba_drive_value(drive: u8, lba: u32) -> u8 {
    (0xE0u8 | (drive << 4u8)) | (((lba >> 24u32) as u8) & 0x0Fu8)
}

pub open spec fn lba_byte(lba: u32, shift: u32) -> u8 {
    ((lba >> shift) & 0xFFu32) as u8
}

/// The five writes that address one sector, in the order the device needs.
pub open spec fn setup_accesses(drive: u8, lba: u32) -> Seq<Access> {
    seq![
        Access::Write(WriteReg::Drive, lba_drive_value(drive, lba)),
        Access::Write(WriteReg::SectorCount, 1u8),
        Access::Write(WriteReg::Lba0, (lba & 0xFFu32) as u8),
        Access::Write(WriteReg::Lba1, lba_byte(lba, 8)),
        Access::Write(WriteReg::Lba2, lba_byte(lba, 16)),
    ]
}

pub open spec fn reset_accesses() -> Seq<Access> {
    seq![Access::Write(WriteReg::Control, CONTROL_RESET), Access::Write(WriteReg::Control, 0u8)]
}

/// A run of status polls that waits for BSY to clear, giving up after
/// `limit` polls: `done` when the last poll found the device not busy.
pub open spec fn busy_polls(p: Seq<Access>, limit: u64, done: bool) -> bool {
    &&& forall|i: int| 0 <= i < p.len() ==> #[trigger] is_status_read(p[i])
    &&& forall|i: int| 0 <= i < p.len() - 1 ==> busy_bit(value_read(#[trigger] p[i]))
    &&& if done {
        1 <= p.len() <= limit && !busy_bit(value_read(p.last()))
    } else {
        p.len() == limit && (p.len() > 0 ==> busy_bit(value_read(p.last())))
    }
}

pub open spec fn is_data_read(a: Access) -> bool {
    a is ReadData
}

pub open spec fn data_reads(t: Seq<Access>) -> bool {
    forall|i: int| 0 <= i < t.len() ==> #[trigger] is_data_read(t[i])
}

pub open spec fn words_of(t: Seq<Access>) -> Seq<u16> {
    t.map_values(|a: Access| a->ReadData_0)
}

pub open spec fn data_writes(w: Seq<u16>) -> Seq<Access> {
    w.map_values(|x: u16| Access::WriteData(x))
}

/// Words split into bytes, low byte first.
pub open spec fn bytes_le(w: Seq<u16>) -> Seq<u8> {
    Seq::new(
        2 * w.len(),
        |i: int|
            if i % 2 == 0 {
                (w[i / 2] & 0xFFu16) as u8
            } else {
                (w[i / 2] >> 8u16) as u8
            },
    )
}

/// Byte pairs joined into words, low byte first.
pub open spec fn words_le(b: Seq<u8>) -> Seq<u16> {
    Seq::new(b.len() / 2, |i: int| ((b[2 * i] as u16) | ((b[2 * i + 1] as u16) << 8u16)) as u16)
}

/// The accesses of one READ SECTOR exchange, and what it leaves in the buffer.
pub open spec fn read_exchange(
    t: Seq<Access>,
    drive: u8,
    lba: u32,
    limit: u64,
    done: bool,
    out: Seq<u8>,
) -> bool {
    &&& t.len() >= 6
    &&& t.subrange(0, 6) == setup_accesses(drive, lba).push(Access::Write(WriteReg::Command, CMD_READ))
    &&& if done {
        &&& t.len() >= 6 + 256
        &&& busy_polls(t.subrange(6, t.len() - 256), limit, true)
        &&& data_reads(t.skip(t.len() - 256))
        &&& out == bytes_le(words_of(t.skip(t.len() - 256)))
    } else {
        busy_polls(t.skip(6), limit, false)
    }
}

/// The accesses of one WRITE SECTOR exchange: setup, command, wait, the 256
/// data words, wait; `k` is where the data words start.
pub open spec fn write_exchange(
    t: Seq<Access>,
    drive: u8,
    lba: u32,
    limit: u64,
    data: Seq<u8>,
    k: int,
    done: bool,
) -> bool {
    &&& t.len() >= 6
    &&& t.subrange(0, 6) == setup_accesses(drive, lba).push(Access::Write(WriteReg::Command, CMD_WRITE))
    &&& 6 <= k <= t.len()
    &&& if k == t.len() {
        !done && busy_polls(t.skip(6), limit, false)
    } else {
        &&& k + 256 <= t.len()
        &&& busy_polls(t.subrange(6, k), limit, true)
        &&& t.subrange(k, k + 256) == data_writes(words_le(data))
        &&& busy_polls(t.skip(k + 256), limit, done)
    }
}

/// The IDENTIFY preamble: reset, four settle reads, drive select, zeroed
/// sector count and address, the command.
pub open spec fn identify_preamble(t: Seq<Access>, drive: u8) -> bool {
    &&& t.len() >= 12
    &&& t.subrange(0, 2) == reset_accesses()
    &&& forall|i: int| 2 <= i < 6 ==> #[trigger] is_status_read(t[i])
    &&& t.subrange(6, 12) == seq![
        Access::Write(WriteReg::Drive, select_value(drive)),
        Access::Write(WriteReg::SectorCount, 0u8),
        Access::Write(WriteReg::Lba0, 0u8),
        Access::Write(WriteReg::Lba1, 0u8),
        Access::Write(WriteReg::Lba2, 0u8),
        Access::Write(WriteReg::Command, CMD_IDENTIFY),
    ]
}

/// Ready poll `j` (an ERR read, then a RDY read) found neither flag.
pub open spec fn poll_pair_clear(t: Seq<Access>, j: int) -> bool {
    &&& is_status_read(t[2 * j])
    &&& !error_bit(value_read(t[2 * j]))
    &&& is_status_read(t[2 * j + 1])
    &&& !ready_bit(value_read(t[2 * j + 1]))
}

pub open spec fn pairs_clear(t: Seq<Access>, n: int) -> bool {
    forall|j: int| 0 <= j < n ==> #[trigger] poll_pair_clear(t, j)
}

/// The ready phase of IDENTIFY and its outcome: at most 256 polls, each
/// reading ERR and then RDY. ERR ends it with nothing; RDY is followed by
/// the 256 identify words; 256 polls with neither end it with a reset.
pub open spec fn ready_phase(t: Seq<Access>, r: Option<Seq<u16>>) -> bool {
    match r {
        Some(w) => {
            let n = (t.len() - 256) / 2;
            &&& t.len() >= 258
            &&& t.len() % 2 == 0
            &&& n <= 256
            &&& pairs_clear(t, n - 1)
            &&& is_status_read(t[2 * n - 2])
            &&& !error_bit(value_read(t[2 * n - 2]))
            &&& is_status_read(t[2 * n - 1])
            &&& ready_bit(value_read(t[2 * n - 1]))
            &&& data_reads(t.skip(2 * n))
            &&& w == words_of(t.skip(2 * n))
        },
        None => {
            ||| {
                let n = (t.len() + 1) / 2;
                &&& t.len() % 2 == 1
                &&& n <= 256
                &&& pairs_clear(t, n - 1)
                &&& is_status_read(t[2 * n - 2])
                &&& error_bit(value_read(t[2 * n - 2]))
            }
            ||| {
                &&& t.len() == 514
                &&& pairs_clear(t, 256)
                &&& t.skip(512) == reset_accesses()
            }
        },
    }
}

/// What follows a completed busy wait: the two high address bytes must read
/// zero (an ATA device), then the ready phase.
pub open spec fn after_busy(t: Seq<Access>, r: Option<Seq<u16>>) -> bool {
    &&& t.len() >= 1
    &&& t[0] matches Access::Read(ReadReg::Lba1, _)
    &&& if value_read(t[0]) != 0 {
        t.len() == 1 && r is None
    } else {
        &&& t.len() >= 2
        &&& t[1] matches Access::Read(ReadReg::Lba2, _)
        &&& if value_read(t[1]) != 0 {
            t.len() == 2 && r is None
        } else {
            ready_phase(t.skip(2), r)
        }
    }
}

/// One IDENTIFY exchange and its outcome; `k` is where the busy wait ends.
/// A status of zero right after the command means no device: nothing more
/// is read.
pub open spec fn identify_exchange(
    t: Seq<Access>,
    drive: u8,
    limit: u64,
    r: Option<Seq<u16>>,
    k: int,
) -> bool {
    &&& identify_preamble(t, drive)
    &&& t.len() >= 13
    &&& is_status_read(t[12])
    &&& if value_read(t[12]) == 0 {
        t.len() == 13 && r is None
    } else {
        &&& 13 <= k <= t.len()
        &&& busy_polls(t.subrange(13, k), limit, k < t.len())
        &&& if k == t.len() {
            r is None
        } else {
            after_busy(t.skip(k), r)
        }
    }
}

pub open spec fn words_view(r: Option<[u16; 256]>) -> Option<Seq<u16>> {
    match r {
        Some(a) => Some(a@),
        None => None,
    }
}


pub open spec fn written_words(t: Seq<Access>) -> Seq<u16> {
    t.map_values(|a: Access| a->WriteData_0)
}

proof fn lemma_byte_pair(x: u8, y: u8)
    ensures
        ((((x as u16) | ((y as u16) << 8u16)) as u16) & 0xFFu16) as u8 == x,
        ((((x as u16) | ((y as u16) << 8u16)) as u16) >> 8u16) as u8 == y,
{
    assert(((((x as u16) | ((y as u16) << 8u16)) as u16) & 0xFFu16) as u8 == x) by (bit_vector);
    assert(((((x as u16) | ((y as u16) << 8u16)) as u16) >> 8u16) as u8 == y) by (bit_vector);
}

/// Joining byte pairs into words and splitting them again gives back the
/// bytes.
pub proof fn lemma_bytes_words(data: Seq<u8>)
    requires
        data.len() % 2 == 0,
    ensures
        bytes_le(words_le(data)) == data,
{
    let r = bytes_le(words_le(data));
    assert forall|i: int| 0 <= i < data.len() implies #[trigger] r[i] == data[i] by {
        let j = i / 2;
        lemma_byte_pair(data[2 * j], data[2 * j + 1]);
    }
    assert(r =~= data);
}

/// Round trip: after a completed WRITE SECTOR of `data` and a completed
/// READ SECTOR of the same drive and address, on a device whose data
/// register hands back the words it was given, the buffer read holds
/// exactly `data`.
pub proof fn lemma_write_then_read(
    tw: Seq<Access>,
    tr: Seq<Access>,
    drive: u8,
    lba: u32,
    limit: u64,
    data: Seq<u8>,
    k: int,
    out: Seq<u8>,
)
    requires
        data.len() == 512,
        write_exchange(tw, drive, lba, limit, data, k, true),
        read_exchange(tr, drive, lba, limit, true, out),
        words_of(tr.skip(tr.len() - 256)) == written_words(tw.subrange(k, k + 256)),
    ensures
        out == data,
{
    assert(written_words(data_writes(words_le(data))) =~= words_le(data));
    lemma_bytes_words(data);
}

/// One channel: its identity, its register set, the port I/O it goes
/// through, the bound on each wait for BSY to clear, and the trace of every
/// register access made through it.
pub struct Bus<P: PortIo> {
    id: u8,
    irq: u8,
    regs: RegisterSet,
    ports: P,
    poll_limit: u64,
    log: Ghost<Seq<Access>>,
}

impl<P: PortIo> Bus<P> {
    pub closed spec fn wf(&self) -> bool {
        self.regs.wf()
    }

    /// Every register access made through this channel, oldest first.
    pub closed spec fn trace(&self) -> Seq<Access> {
        self.log@
    }

    pub closed spec fn spec_id(&self) -> u8 {
        self.id
    }

    pub closed spec fn spec_irq(&self) -> u8 {
        self.irq
    }

    pub closed spec fn spec_regs(&self) -> RegisterSet {
        self.regs
    }

    pub closed spec fn limit(&self) -> u64 {
        self.poll_limit
    }

    /// Same channel, same configuration; only the ports and trace moved on.
    pub open spec fn same_setup(&self, other: &Self) -> bool {
        &&& self.wf() == other.wf()
        &&& self.spec_id() == other.spec_id()
        &&& self.spec_irq() == other.spec_irq()
        &&& self.spec_regs() == other.spec_regs()
        &&& self.limit() == other.limit()
    }

    pub fn new(id: u8, io_base: u16, ctrl_base: u16, irq: u8, ports: P) -> (b: Self)
        requires
            io_base <= 0xFFF8,
            ctrl_base <= 0xFFFE,
        ensures
            b.wf(),
            b.spec_id() == id,
            b.spec_irq() == irq,
            b.spec_regs() == (RegisterSet { io_base, ctrl_base }),
            b.limit() == NO_POLL_LIMIT,
            b.trace() == Seq::<Access>::empty(),
    {
        Bus {
            id,
            irq,
            regs: RegisterSet::new(io_base, ctrl_base),
            ports,
            poll_limit: NO_POLL_LIMIT,
            log: Ghost(Seq::empty()),
        }
    }

    /// The same channel with each wait for BSY bounded by `limit` polls.
    pub fn with_poll_limit(self, limit: u64) -> (b: Self)
        ensures
            b.wf() == self.wf(),
            b.spec_id() == self.spec_id(),
            b.spec_irq() == self.spec_irq(),
            b.spec_regs() == self.spec_regs(),
            b.limit() == limit,
            b.trace() == self.trace(),
    {
        Bus { poll_limit: limit, ..self }
    }

    pub fn id(&self) -> (r: u8)
        ensures
            r == self.spec_id(),
    {
        self.id
    }

    pub fn irq(&self) -> (r: u8)
        ensures
            r == self.spec_irq(),
    {
        self.irq
    }

    pub fn registers(&self) -> (r: RegisterSet)
        ensures
            r == self.spec_regs(),
    {
        self.regs
    }

    pub fn poll_limit(&self) -> (r: u64)
        ensures
            r == self.limit(),
    {
        self.poll_limit
    }

    fn read_reg(&mut self, r: ReadReg) -> (v: u8)
        requires
            old(self).wf(),
        ensures
            final(self).same_setup(old(self)),
            final(self).trace() == old(self).trace().push(Access::Read(r, v)),
    {
        let port = self.regs.read_port(r);
        let v = self.ports.read_byte(port);
        self.log = Ghost(self.log@.push(Access::Read(r, v)));
        v
    }

    fn write_reg(&mut self, r: WriteReg, v: u8)
        requires
            old(self).wf(),
        ensures
            final(self).same_setup(old(self)),
            final(self).trace() == old(self).trace().push(Access::Write(r, v)),
    {
        let port = self.regs.write_port(r);
        self.ports.write_byte(port, v);
        self.log = Ghost(self.log@.push(Access::Write(r, v)));
    }

    fn read_data(&mut self) -> (v: u16)
        requires
            old(self).wf(),
        ensures
            final(self).same_setup(old(self)),
            final(self).trace() == old(self).trace().push(Access::ReadData(v)),
    {
        let port = self.regs.data_port();
        let v = self.ports.read_word(port);
        self.log = Ghost(self.log@.push(Access::ReadData(v)));
        v
    }

    fn write_data(&mut self, v: u16)
        requires
            old(self).wf(),
        ensures
            final(self).same_setup(old(self)),
            final(self).trace() == old(self).trace().push(Access::WriteData(v)),
    {
        let port = self.regs.data_port();
        self.ports.write_word(port, v);
        self.log = Ghost(self.log@.push(Access::WriteData(v)));
    }

    /// Pulses the reset bit of the device-control register.
    fn reset(&mut self)
        requires
            old(self).wf(),
        ensures
            final(self).same_setup(old(self)),
            final(self).trace() == old(self).trace() + reset_accesses(),
    {
        self.write_reg(WriteReg::Control, CONTROL_RESET);
        self.write_reg(WriteReg::Control, 0);
        assert(self.trace() =~= old(self).trace() + reset_accesses());
    }

    /// Four status reads whose values are dropped: the settle delay.
    fn wait(&mut self)
        requires
            old(self).wf(),
        ensures
            final(self).same_setup(old(self)),
            grows(old(self).trace(), final(self).trace()),
            since(old(self).trace(), final(self).trace()).len() == 4,
            forall|i: int|
                0 <= i < 4 ==> #[trigger] is_status_read(
                    since(old(self).trace(), final(self).trace())[i],
                ),
    {
        self.read_reg(ReadReg::Status);
        self.read_reg(ReadReg::Status);
        self.read_reg(ReadReg::Status);
        self.read_reg(ReadReg::Status);
    }

    fn status(&mut self) -> (s: Status)
        requires
            old(self).wf(),
        ensures
            final(self).same_setup(old(self)),
            final(self).trace() == old(self).trace().push(Access::Read(ReadReg::Status, s.bits)),
    {
        Status::new(self.read_reg(ReadReg::Status))
    }

    fn write_command(&mut self, cmd: u8)
        requires
            old(self).wf(),
        ensures
            final(self).same_setup(old(self)),
            final(self).trace() == old(self).trace().push(Access::Write(WriteReg::Command, cmd)),
    {
        self.write_reg(WriteReg::Command, cmd);
    }

    fn select_drive(&mut self, drive: u8)
        requires
            old(self).wf(),
        ensures
            final(self).same_setup(old(self)),
            final(self).trace() == old(self).trace().push(
                Access::Write(WriteReg::Drive, select_value(drive)),
            ),
    {
        let drive_id: u8 = 0xA0u8 | (drive << 4u8);
        self.write_reg(WriteReg::Drive, drive_id);
    }

    /// Addresses one sector of `drive` in LBA28 mode.
    fn setup(&mut self, drive: u8, lba: u32)
        requires
            old(self).wf(),
        ensures
            final(self).same_setup(old(self)),
            final(self).trace() == old(self).trace() + setup_accesses(drive, lba),
    {
        let drive_id: u8 = 0xE0u8 | (drive << 4u8);
        self.write_reg(WriteReg::Drive, drive_id | (((lba >> 24u32) as u8) & 0x0Fu8));
        self.write_reg(WriteReg::SectorCount, 1);
        self.write_reg(WriteReg::Lba0, (lba & 0xFFu32) as u8);
        self.write_reg(WriteReg::Lba1, ((lba >> 8u32) & 0xFFu32) as u8);
        self.write_reg(WriteReg::Lba2, ((lba >> 16u32) & 0xFFu32) as u8);
        assert(self.trace() =~= old(self).trace() + setup_accesses(drive, lba));
    }

    /// Polls the status register until BSY clears, at most `limit` times.
    fn wait_while_busy(&mut self) -> (done: bool)
        requires
            old(self).wf(),
        ensures
            final(self).same_setup(old(self)),
            grows(old(self).trace(), final(self).trace()),
            busy_polls(since(old(self).trace(), final(self).trace()), old(self).limit(), done),
    {
        let ghost t0 = self.trace();
        let limit = self.poll_limit;
        let mut n: u64 = 0;
        while n < limit
            invariant
                self.wf(),
                self.same_setup(old(self)),
                t0 == old(self).trace(),
                limit == old(self).limit(),
                n <= limit,
                grows(t0, self.trace()),
                since(t0, self.trace()).len() == n,
                forall|i: int|
                    0 <= i < n ==> #[trigger] is_status_read(since(t0, self.trace())[i]),
                forall|i: int|
                    0 <= i < n ==> busy_bit(value_read(#[trigger] since(t0, self.trace())[i])),
            decreases limit - n,
        {
            let ghost before = self.trace();
            let s = self.status();
            assert(since(t0, self.trace()) =~= since(t0, before).push(
                Access::Read(ReadReg::Status, s.bits),
            ));
            if !s.is_busy() {
                return true;
            }
            n = n + 1;
        }
        false
    }

    /// READ SECTOR: addresses the sector, issues the command, waits for BSY
    /// to clear and moves the 256 data words into `buf`, low byte first.
    /// `false` when the wait ran out of polls; `buf` is then untouched.
    pub fn read(&mut self, drive: u8, block: u32, buf: &mut [u8; 512]) -> (done: bool)
        requires
            old(self).wf(),
        ensures
            final(self).same_setup(old(self)),
            grows(old(self).trace(), final(self).trace()),
            read_exchange(
                since(old(self).trace(), final(self).trace()),
                drive,
                block,
                old(self).limit(),
                done,
                final(buf)@,
            ),
            !done ==> final(buf)@ == old(buf)@,
    {
        let ghost t0 = self.trace();
        self.setup(drive, block);
        self.write_command(CMD_READ);
        let ghost t1 = self.trace();
        let done = self.wait_while_busy();
        let ghost t2 = self.trace();
        proof {
            lemma_grows_split(t1, t2);
        }
        let ghost head = setup_accesses(drive, block).push(Access::Write(WriteReg::Command, CMD_READ));
        assert(t1 =~= t0 + head);
        if !done {
            assert(since(t0, t2) =~= head + since(t1, t2));
            assert(since(t0, t2).subrange(0, 6) =~= head);
            assert(since(t0, t2).skip(6) =~= since(t1, t2));
            return false;
        }
        let mut i: usize = 0;
        while i < 256
            invariant
                self.wf(),
                self.same_setup(old(self)),
                i <= 256,
                grows(t2, self.trace()),
                since(t2, self.trace()).len() == i,
                data_reads(since(t2, self.trace())),
                forall|j: int|
                    0 <= j < 2 * i ==> buf[j] == #[trigger] bytes_le(
                        words_of(since(t2, self.trace())),
                    )[j],
            decreases 256 - i,
        {
            let ghost before = self.trace();
            let data = self.read_data();
            assert(since(t2, self.trace()) =~= since(t2, before).push(Access::ReadData(data)));
            buf[2 * i] = (data & 0xFFu16) as u8;
            buf[2 * i + 1] = (data >> 8u16) as u8;
            i = i + 1;
            proof {
                let w = words_of(since(t2, self.trace()));
                assert forall|j: int| 0 <= j < 2 * i implies buf[j] == #[trigger] bytes_le(w)[j] by {
                    if j < 2 * i - 2 {
                        assert(bytes_le(w)[j] == bytes_le(words_of(since(t2, before)))[j]);
                    }
                }
            }
        }
        let ghost t3 = self.trace();
        proof {
            lemma_grows_split(t2, t3);
            let t = since(t0, t3);
            assert(t =~= head + since(t1, t2) + since(t2, t3));
            assert(t.subrange(0, 6) =~= head);
            assert(t.subrange(6, t.len() - 256) =~= since(t1, t2));
            assert(t.skip(t.len() - 256) =~= since(t2, t3));
            assert(buf@ =~= bytes_le(words_of(since(t2, t3))));
        }
        true
    }

    /// WRITE SECTOR: addresses the sector, issues the command, waits for BSY
    /// to clear, sends the 256 words of `buf` (low byte first) and waits
    /// again. `false` when either wait ran out of polls.
    pub fn write(&mut self, drive: u8, block: u32, buf: &[u8; 512]) -> (done: bool)
        requires
            old(self).wf(),
        ensures
            final(self).same_setup(old(self)),
            grows(old(self).trace(), final(self).trace()),
            exists|k: int|
                #[trigger] write_exchange(
                    since(old(self).trace(), final(self).trace()),
                    drive,
                    block,
                    old(self).limit(),
                    buf@,
                    k,
                    done,
                ),
    {
        let ghost t0 = self.trace();
        self.setup(drive, block);
        self.write_command(CMD_WRITE);
        let ghost t1 = self.trace();
        let first = self.wait_while_busy();
        let ghost t2 = self.trace();
        proof {
            lemma_grows_split(t1, t2);
        }
        let ghost head = setup_accesses(drive, block).push(Access::Write(WriteReg::Command, CMD_WRITE));
        assert(t1 =~= t0 + head);
        if !first {
            let ghost t = since(t0, t2);
            assert(t =~= head + since(t1, t2));
            assert(t.subrange(0, 6) =~= head);
            assert(t.skip(6) =~= since(t1, t2));
            assert(write_exchange(t, drive, block, old(self).limit(), buf@, t.len() as int, false));
            return false;
        }
        let ghost words = words_le(buf@);
        let mut i: usize = 0;
        while i < 256
            invariant
                self.wf(),
                self.same_setup(old(self)),
                i <= 256,
                words == words_le(buf@),
                buf@.len() == 512,
                grows(t2, self.trace()),
                since(t2, self.trace()) =~= data_writes(words).subrange(0, i as int),
            decreases 256 - i,
        {
            let ghost before = self.trace();
            let data: u16 = (buf[2 * i] as u16) | ((buf[2 * i + 1] as u16) << 8u16);
            self.write_data(data);
            assert(since(t2, self.trace()) =~= since(t2, before).push(Access::WriteData(data)));
            i = i + 1;
        }
        let ghost t3 = self.trace();
        let second = self.wait_while_busy();
        let ghost t4 = self.trace();
        proof {
            lemma_grows_split(t2, t3);
            lemma_grows_split(t3, t4);
            let t = since(t0, t4);
            let k: int = 6 + since(t1, t2).len() as int;
            assert(t =~= head + since(t1, t2) + since(t2, t3) + since(t3, t4));
            assert(t.subrange(0, 6) =~= head);
            assert(t.subrange(6, k) =~= since(t1, t2));
            assert(t.subrange(k, k + 256) =~= data_writes(words));
            assert(t.skip(k + 256) =~= since(t3, t4));
            assert(write_exchange(t, drive, block, old(self).limit(), buf@, k, second));
        }
        second
    }

    /// IDENTIFY: resets the channel, selects `drive`, issues the command and
    /// returns the 256 identify words, or `None` when no ATA device answers.
    pub fn identify_drive(&mut self, drive: u8) -> (r: Option<[u16; 256]>)
        requires
            old(self).wf(),
        ensures
            final(self).same_setup(old(self)),
            grows(old(self).trace(), final(self).trace()),
            exists|k: int|
                #[trigger] identify_exchange(
                    since(old(self).trace(), final(self).trace()),
                    drive,
                    old(self).limit(),
                    words_view(r),
                    k,
                ),
    {
        let ghost t0 = self.trace();
        self.reset();
        let ghost ta = self.trace();
        self.wait();
        let ghost tb = self.trace();
        self.select_drive(drive);
        self.write_reg(WriteReg::SectorCount, 0);
        self.write_reg(WriteReg::Lba0, 0);
        self.write_reg(WriteReg::Lba1, 0);
        self.write_reg(WriteReg::Lba2, 0);
        self.write_command(CMD_IDENTIFY);
        let s0 = self.status();
        let ghost t1 = self.trace();
        proof {
            lemma_grows_split(ta, tb);
            let six = seq![
                Access::Write(WriteReg::Drive, select_value(drive)),
                Access::Write(WriteReg::SectorCount, 0u8),
                Access::Write(WriteReg::Lba0, 0u8),
                Access::Write(WriteReg::Lba1, 0u8),
                Access::Write(WriteReg::Lba2, 0u8),
                Access::Write(WriteReg::Command, CMD_IDENTIFY),
            ];
            let tail = reset_accesses() + since(ta, tb) + six + seq![Access::Read(ReadReg::Status, s0.bits)];
            assert(t1 =~= t0 + tail);
            lemma_grows_append(t0, tail);
            let t = since(t0, t1);
            assert(t.subrange(0, 2) =~= reset_accesses());
            assert(t.subrange(6, 12) =~= six);
            assert(forall|i: int| 2 <= i < 6 ==> t[i] == since(ta, tb)[i - 2]);
            assert(identify_preamble(t, drive));
        }
        if s0.bits == 0 {
            assert(identify_exchange(since(t0, t1), drive, old(self).limit(), None, 13));
            return None;
        }
        let done = self.wait_while_busy();
        let ghost t2 = self.trace();
        let ghost k: int = since(t0, t2).len() as int;
        proof {
            lemma_since_chain(t0, t1, t2);
            lemma_identify_head(since(t0, t1), since(t1, t2), drive);
            assert(since(t0, t2).subrange(13, k) =~= since(t1, t2));
        }
        if !done {
            assert(identify_exchange(since(t0, t2), drive, old(self).limit(), None, k));
            return None;
        }
        let a = self.read_reg(ReadReg::Lba1);
        let mut b: u8 = 0;
        if a == 0 {
            b = self.read_reg(ReadReg::Lba2);
        }
        let ghost t3 = self.trace();
        proof {
            let x = if a == 0 {
                seq![Access::Read(ReadReg::Lba1, a), Access::Read(ReadReg::Lba2, b)]
            } else {
                seq![Access::Read(ReadReg::Lba1, a)]
            };
            assert(t3 =~= t2 + x);
            lemma_grows_append(t2, x);
            lemma_since_chain(t0, t2, t3);
            lemma_since_chain(t0, t1, t2);
            let t = since(t0, t3);
            lemma_identify_head(since(t0, t1), since(t1, t2) + x, drive);
            assert(t =~= since(t0, t1) + (since(t1, t2) + x));
            assert(t.subrange(13, k) =~= since(t1, t2));
            assert(t.skip(k) =~= x);
        }
        if a != 0 || b != 0 {
            assert(identify_exchange(since(t0, t3), drive, old(self).limit(), None, k));
            return None;
        }
        let r = self.poll_ready();
        proof {
            self.lemma_identify_tail(t0, t1, t2, t3, drive, k, words_view(r));
        }
        r
    }

    /// The ready phase of IDENTIFY: up to 256 polls for ERR or RDY, then the
    /// 256 identify words once RDY is seen; a reset when neither came.
    fn poll_ready(&mut self) -> (r: Option<[u16; 256]>)
        requires
            old(self).wf(),
        ensures
            final(self).same_setup(old(self)),
            grows(old(self).trace(), final(self).trace()),
            ready_phase(since(old(self).trace(), final(self).trace()), words_view(r)),
    {
        let ghost t3 = self.trace();
        let mut i: u32 = 0;
        while i < 256
            invariant
                self.wf(),
                self.same_setup(old(self)),
                t3 == old(self).trace(),
                i <= 256,
                grows(t3, self.trace()),
                since(t3, self.trace()).len() == 2 * i,
                pairs_clear(since(t3, self.trace()), i as int),
            decreases 256 - i,
        {
            let ghost before = self.trace();
            let e = self.status();
            let ghost mid = self.trace();
            proof {
                lemma_grows_append(before, seq![Access::Read(ReadReg::Status, e.bits)]);
                assert(mid =~= before + seq![Access::Read(ReadReg::Status, e.bits)]);
                lemma_since_chain(t3, before, mid);
                assert forall|j: int| 0 <= j < i implies #[trigger] poll_pair_clear(since(t3, mid), j) by {
                    assert(poll_pair_clear(since(t3, before), j));
                }
            }
            if e.is_error() {
                return None;
            }
            let d = self.status();
            let ghost t4 = self.trace();
            proof {
                lemma_grows_append(mid, seq![Access::Read(ReadReg::Status, d.bits)]);
                assert(t4 =~= mid + seq![Access::Read(ReadReg::Status, d.bits)]);
                lemma_since_chain(t3, mid, t4);
                assert forall|j: int| 0 <= j < i implies #[trigger] poll_pair_clear(since(t3, t4), j) by {
                    assert(poll_pair_clear(since(t3, mid), j));
                }
            }
            if d.is_ready() {
                let res = self.read_identify_words();
                proof {
                    let tf = self.trace();
                    lemma_since_chain(t3, t4, tf);
                    let p = since(t3, tf);
                    assert forall|j: int| 0 <= j < i implies #[trigger] poll_pair_clear(p, j) by {
                        assert(poll_pair_clear(since(t3, t4), j));
                    }
                    assert(p.skip(2 * i + 2) =~= since(t4, tf));
                }
                return Some(res);
            }
            i = i + 1;
        }
        let ghost before = self.trace();
        self.reset();
        proof {
            let tf = self.trace();
            lemma_grows_append(before, reset_accesses());
            lemma_since_chain(t3, before, tf);
            let p = since(t3, tf);
            assert(p.skip(512) =~= reset_accesses());
            assert forall|j: int| 0 <= j < 256 implies #[trigger] poll_pair_clear(p, j) by {
                assert(poll_pair_clear(since(t3, before), j));
            }
        }
        None
    }

    /// Reads the 256 identify words from the data register.
    fn read_identify_words(&mut self) -> (res: [u16; 256])
        requires
            old(self).wf(),
        ensures
            final(self).same_setup(old(self)),
            grows(old(self).trace(), final(self).trace()),
            since(old(self).trace(), final(self).trace()).len() == 256,
            data_reads(since(old(self).trace(), final(self).trace())),
            res@ == words_of(since(old(self).trace(), final(self).trace())),
    {
        let ghost t4 = self.trace();
        let mut res = [0u16; 256];
        let mut j: usize = 0;
        while j < 256
            invariant
                self.wf(),
                self.same_setup(old(self)),
                t4 == old(self).trace(),
                j <= 256,
                grows(t4, self.trace()),
                since(t4, self.trace()).len() == j,
                data_reads(since(t4, self.trace())),
                forall|m: int| 0 <= m < j ==> res[m] == #[trigger] words_of(since(t4, self.trace()))[m],
            decreases 256 - j,
        {
            let ghost prev = self.trace();
            let w = self.read_data();
            assert(since(t4, self.trace()) =~= since(t4, prev).push(Access::ReadData(w)));
            res[j] = w;
            j = j + 1;
            proof {
                assert forall|m: int| 0 <= m < j implies res[m] == #[trigger] words_of(since(t4, self.trace()))[m] by {
                    if m < j - 1 {
                        assert(words_of(since(t4, self.trace()))[m] == words_of(since(t4, prev))[m]);
                    }
                }
            }
        }
        assert(res@ =~= words_of(since(t4, self.trace())));
        res
    }

    /// Puts an IDENTIFY exchange together from its parts: preamble and first
    /// status read (`t0..t1`), busy wait (`t1..t2`), the two address reads
    /// (`t2..t3`) and the ready phase (after `t3`).
    proof fn lemma_identify_tail(
        &self,
        t0: Seq<Access>,
        t1: Seq<Access>,
        t2: Seq<Access>,
        t3: Seq<Access>,
        drive: u8,
        k: int,
        r: Option<Seq<u16>>,
    )
        requires
            grows(t0, t1),
            grows(t1, t2),
            grows(t2, t3),
            grows(t3, self.trace()),
            identify_preamble(since(t0, t1), drive),
            since(t0, t1).len() == 13,
            is_status_read(since(t0, t1)[12]),
            value_read(since(t0, t1)[12]) != 0,
            k == since(t0, t2).len(),
            busy_polls(since(t1, t2), self.limit(), true),
            since(t2, t3) == seq![Access::Read(ReadReg::Lba1, 0u8), Access::Read(ReadReg::Lba2, 0u8)],
            ready_phase(since(t3, self.trace()), r),
        ensures
            identify_exchange(since(t0, self.trace()), drive, self.limit(), r, k),
    {
        let tf = self.trace();
        lemma_since_chain(t2, t3, tf);
        lemma_since_chain(t1, t2, tf);
        lemma_since_chain(t0, t1, tf);
        let rest = since(t1, t2) + (since(t2, t3) + since(t3, tf));
        lemma_identify_head(since(t0, t1), rest, drive);
        let t = since(t0, tf);
        assert(t =~= since(t0, t1) + rest);
        assert(t.subrange(13, k) =~= since(t1, t2));
        assert(t.skip(k) =~= since(t2, t3) + since(t3, tf));
        assert(t.skip(k).skip(2) =~= since(t3, tf));
    }
}

} // verus!
