use vstd::prelude::*;
use crate::channel::{
    grows, identify_exchange, lemma_grows_append, read_exchange, since, words_view,
    write_exchange, Bus,
};
use crate::identify::{decode_identify, model_of, sector_count_of, serial_of, IdentifyInfo};
use crate::regs::{Access, PortIo};

verus! {

/// Standard addresses and interrupt lines of the two channels.
pub const PRIMARY_IO_BASE: u16 = 0x1F0;
pub const PRIMARY_CTRL_BASE: u16 = 0x3F6;
pub const PRIMARY_IRQ: u8 = 14;
pub const SECONDARY_IO_BASE: u16 = 0x170;
pub const SECONDARY_CTRL_BASE: u16 = 0x376;
pub const SECONDARY_IRQ: u8 = 15;

/// Accesses of one channel, each marked with the channel's index.
pub open spec fn tagged(ch: u8, t: Seq<Access>) -> Seq<(u8, Access)> {
    t.map_values(|a: Access| (ch, a))
}

/// The decoded identify data agrees with the words an exchange returned.
pub open spec fn info_matches(w: Option<Seq<u16>>, r: Option<IdentifyInfo>) -> bool {
    match (w, r) {
        (Some(w), Some(info)) => {
            &&& info.serial@ == serial_of(w)
            &&& info.model@ == model_of(w)
            &&& info.sector_count == sector_count_of(w)
        },
        (None, None) => true,
        _ => false,
    }
}

/// The two channels of the storage subsystem. Every operation takes the
/// registry by `&mut`, so no two of them ever overlap; `log` records, in
/// order, every register access made through either channel.
pub struct Registry<P: PortIo> {
    primary: Bus<P>,
    secondary: Bus<P>,
    log: Ghost<Seq<(u8, Access)>>,
}

impl<P: PortIo> Registry<P> {
    pub closed spec fn wf(&self) -> bool {
        &&& self.primary.wf()
        &&& self.secondary.wf()
    }

    /// Channel `ch`: 0 is the primary channel, any other index the secondary.
    pub closed spec fn channel(&self, ch: u8) -> Bus<P> {
        if ch == 0 {
            self.primary
        } else {
            self.secondary
        }
    }

    /// Every register access made through the registry, oldest first.
    pub closed spec fn log(&self) -> Seq<(u8, Access)> {
        self.log@
    }

    /// `next` is `self` after an operation on channel `ch` that made the
    /// accesses `since(...)` on it, and nothing on the other channel.
    pub open spec fn step_on(&self, next: &Self, ch: u8) -> bool {
        &&& next.wf()
        &&& next.channel(ch).same_setup(&self.channel(ch))
        &&& grows(self.channel(ch).trace(), next.channel(ch).trace())
        &&& next.channel((1 - ch) as u8) == self.channel((1 - ch) as u8)
        &&& next.log() == self.log() + tagged(ch, self.accesses(next, ch))
    }

    /// The accesses that channel `ch` made between `self` and `next`.
    pub open spec fn accesses(&self, next: &Self, ch: u8) -> Seq<Access> {
        since(self.channel(ch).trace(), next.channel(ch).trace())
    }

    pub open spec fn read_step(
        &self,
        next: &Self,
        ch: u8,
        drive: u8,
        lba: u32,
        done: bool,
        out: Seq<u8>,
    ) -> bool {
        &&& self.step_on(next, ch)
        &&& read_exchange(self.accesses(next, ch), drive, lba, self.channel(ch).limit(), done, out)
    }

    pub open spec fn write_step(
        &self,
        next: &Self,
        ch: u8,
        drive: u8,
        lba: u32,
        done: bool,
        data: Seq<u8>,
    ) -> bool {
        &&& self.step_on(next, ch)
        &&& exists|k: int|
            #[trigger] write_exchange(
                self.accesses(next, ch),
                drive,
                lba,
                self.channel(ch).limit(),
                data,
                k,
                done,
            )
    }

    pub open spec fn identify_step(
        &self,
        next: &Self,
        ch: u8,
        drive: u8,
        r: Option<IdentifyInfo>,
        w: Option<Seq<u16>>,
        k: int,
    ) -> bool {
        &&& identify_exchange(self.accesses(next, ch), drive, self.channel(ch).limit(), w, k)
        &&& info_matches(w, r)
    }

    /// The number of channels.
    pub fn len(&self) -> (n: usize)
        ensures
            n == 2,
    {
        2
    }

    /// Channel `ch`, read-only.
    pub fn bus(&self, ch: u8) -> (b: &Bus<P>)
        requires
            ch < 2,
        ensures
            *b == self.channel(ch),
    {
        if ch == 0 {
            &self.primary
        } else {
            &self.secondary
        }
    }

    /// Bounds each wait for BSY on both channels by `limit` polls.
    pub fn with_poll_limit(self, limit: u64) -> (r: Self)
        ensures
            r.wf() == self.wf(),
            r.log() == self.log(),
            forall|ch: u8| #![auto] ch < 2 ==> r.channel(ch).limit() == limit
                && r.channel(ch).trace() == self.channel(ch).trace()
                && r.channel(ch).spec_regs() == self.channel(ch).spec_regs()
                && r.channel(ch).spec_id() == self.channel(ch).spec_id()
                && r.channel(ch).spec_irq() == self.channel(ch).spec_irq(),
    {
        Registry {
            primary: self.primary.with_poll_limit(limit),
            secondary: self.secondary.with_poll_limit(limit),
            log: self.log,
        }
    }

    /// Records the accesses channel `ch` made since its trace was `t0`.
    fn record(&mut self, ch: u8, t0: Ghost<Seq<Access>>)
        requires
            ch < 2,
        ensures
            final(self).primary == old(self).primary,
            final(self).secondary == old(self).secondary,
            final(self).log() == old(self).log() + tagged(ch, since(t0@, old(self).channel(ch).trace())),
    {
        let ghost t1 = if ch == 0 { self.primary.trace() } else { self.secondary.trace() };
        self.log = Ghost(self.log@ + tagged(ch, since(t0@, t1)));
    }

    /// IDENTIFY on `drive` of channel `ch`, decoded.
    pub fn identify(&mut self, ch: u8, drive: u8) -> (r: Option<IdentifyInfo>)
        requires
            old(self).wf(),
            ch < 2,
        ensures
            old(self).step_on(final(self), ch),
            exists|w: Option<Seq<u16>>, k: int|
                #[trigger] old(self).identify_step(final(self), ch, drive, r, w, k),
    {
        let ghost t0 = self.channel(ch).trace();
        let words = if ch == 0 {
            self.primary.identify_drive(drive)
        } else {
            self.secondary.identify_drive(drive)
        };
        self.record(ch, Ghost(t0));
        let ghost acc = since(t0, self.channel(ch).trace());
        let ghost k = choose|k: int| identify_exchange(acc, drive, old(self).channel(ch).limit(), words_view(words), k);
        let r = match words {
            Some(w) => Some(decode_identify(&w)),
            None => None,
        };
        assert(old(self).identify_step(self, ch, drive, r, words_view(words), k));
        r
    }
}

/// Builds the two channels at their standard addresses and interrupt
/// lines, over the given port I/O.
pub fn init<P: PortIo>(primary: P, secondary: P) -> (r: Registry<P>)
    ensures
        r.wf(),
        r.channel(0).spec_id() == 0,
        r.channel(0).spec_irq() == PRIMARY_IRQ,
        r.channel(0).spec_regs().io_base == PRIMARY_IO_BASE,
        r.channel(0).spec_regs().ctrl_base == PRIMARY_CTRL_BASE,
        r.channel(1).spec_id() == 1,
        r.channel(1).spec_irq() == SECONDARY_IRQ,
        r.channel(1).spec_regs().io_base == SECONDARY_IO_BASE,
        r.channel(1).spec_regs().ctrl_base == SECONDARY_CTRL_BASE,
        r.channel(0).trace() == Seq::<Access>::empty(),
        r.channel(1).trace() == Seq::<Access>::empty(),
        r.log() == Seq::<(u8, Access)>::empty(),
{
    Registry {
        primary: Bus::new(0, PRIMARY_IO_BASE, PRIMARY_CTRL_BASE, PRIMARY_IRQ, primary),
        secondary: Bus::new(1, SECONDARY_IO_BASE, SECONDARY_CTRL_BASE, SECONDARY_IRQ, secondary),
        log: Ghost(Seq::empty()),
    }
}

/// READ SECTOR on `drive` of channel `bus`, into `buf`.
pub fn read<P: PortIo>(
    reg: &mut Registry<P>,
    bus: u8,
    drive: u8,
    block: u32,
    buf: &mut [u8; 512],
) -> (done: bool)
    requires
        old(reg).wf(),
        bus < 2,
    ensures
        old(reg).read_step(final(reg), bus, drive, block, done, final(buf)@),
        !done ==> final(buf)@ == old(buf)@,
{
    let ghost t0 = reg.channel(bus).trace();
    let done = if bus == 0 {
        reg.primary.read(drive, block, buf)
    } else {
        reg.secondary.read(drive, block, buf)
    };
    reg.record(bus, Ghost(t0));
    done
}

/// WRITE SECTOR of `buf` to `drive` of channel `bus`.
pub fn write<P: PortIo>(reg: &mut Registry<P>, bus: u8, drive: u8, block: u32, buf: &[u8; 512]) -> (done: bool)
    requires
        old(reg).wf(),
        bus < 2,
    ensures
        old(reg).write_step(final(reg), bus, drive, block, done, buf@),
{
    let ghost t0 = reg.channel(bus).trace();
    let done = if bus == 0 {
        reg.primary.write(drive, block, buf)
    } else {
        reg.secondary.write(drive, block, buf)
    };
    reg.record(bus, Ghost(t0));
    let ghost acc = since(t0, reg.channel(bus).trace());
    let ghost k = choose|k: int| write_exchange(acc, drive, block, old(reg).channel(bus).limit(), buf@, k, done);
    assert(write_exchange(old(reg).accesses(reg, bus), drive, block, old(reg).channel(bus).limit(), buf@, k, done));
    done
}

/// Two reads in a row on different channels: the registry's log holds all
/// of the first read's accesses, then all of the second's, never one
/// channel's accesses inside the other's exchange.
pub proof fn lemma_reads_do_not_interleave<P: PortIo>(
    r0: Registry<P>,
    r1: Registry<P>,
    r2: Registry<P>,
    a: u8,
    b: u8,
    drive_a: u8,
    drive_b: u8,
    lba_a: u32,
    lba_b: u32,
    done_a: bool,
    done_b: bool,
    out_a: Seq<u8>,
    out_b: Seq<u8>,
)
    requires
        a < 2,
        b < 2,
        a != b,
        r0.read_step(&r1, a, drive_a, lba_a, done_a, out_a),
        r1.read_step(&r2, b, drive_b, lba_b, done_b, out_b),
    ensures
        r2.log() == r0.log() + tagged(a, r0.accesses(&r1, a)) + tagged(b, r1.accesses(&r2, b)),
        forall|i: int|
            r0.log().len() <= i < r0.log().len() + r0.accesses(&r1, a).len() ==> (
            #[trigger] r2.log()[i]).0 == a,
        forall|i: int|
            r0.log().len() + r0.accesses(&r1, a).len() <= i < r2.log().len() ==> (
            #[trigger] r2.log()[i]).0 == b,
{
    let n0 = r0.log().len() as int;
    let n1 = n0 + r0.accesses(&r1, a).len();
    assert forall|i: int| n0 <= i < n1 implies (#[trigger] r2.log()[i]).0 == a by {
        assert(r2.log()[i] == tagged(a, r0.accesses(&r1, a))[i - n0]);
    }
    assert forall|i: int| n1 <= i < r2.log().len() implies (#[trigger] r2.log()[i]).0 == b by {
        assert(r2.log()[i] == tagged(b, r1.accesses(&r2, b))[i - n1]);
    }
}

} // verus!
