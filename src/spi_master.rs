//! The SPI master's side of the link: a FIFO of instructions that callers
//! submit, and the decision taken on each low clock phase.
use crate::register::{drained, drained_rest};
use crate::port::{lsb_bits, with_bit, Port};
use vstd::prelude::*;

verus! {

/// An SPI participant that is not connected.
pub struct Disconnected;

/// An SPI participant that is connected.
pub struct Connected;

/// An instruction for the master's driver; `W` is what a wake signals.
pub enum Instr<W> {
    /// Shift these bits out on MOSI, the one written first first.
    Write(Port),
    /// Capture `size` bits from MISO, skipping one tick first if
    /// `first_clear`.
    Read { size: usize, first_clear: bool },
    /// Signal the caller that submitted the instructions before it.
    Wake(W),
}

/// The mathematical content of an instruction.
pub enum InstrView<W> {
    Write(Seq<bool>),
    Read(usize, bool),
    Wake(W),
}

impl<W> View for Instr<W> {
    type V = InstrView<W>;

    open spec fn view(&self) -> InstrView<W> {
        match self {
            Instr::Write(p) => InstrView::Write(p@),
            Instr::Read { size, first_clear } => InstrView::Read(*size, *first_clear),
            Instr::Wake(w) => InstrView::Wake(*w),
        }
    }
}

/// What the driver does to the lines in one step.
pub struct MasterAction<W> {
    /// The level chip select is left at, if it was driven.
    pub cs: Option<bool>,
    /// The bit driven on MOSI, if any.
    pub mosi: Option<bool>,
    /// The wake signal to fire, if any.
    pub wake: Option<W>,
}

/// The instruction in progress once a finished write is dropped and, if
/// none is left, the next one taken from the queue; with the queue after.
pub open spec fn current<W>(ctx: Option<InstrView<W>>, queue: Seq<InstrView<W>>) -> (Option<InstrView<W>>, Seq<InstrView<W>>) {
    let c = match ctx {
        Some(InstrView::Write(b)) => if b.len() == 0 {
            None
        } else {
            ctx
        },
        _ => ctx,
    };
    if c is None && queue.len() > 0 {
        (Some(queue[0]), queue.drop_first())
    } else {
        (c, queue)
    }
}

/// One step on the instruction `c`: the instruction left in progress, the
/// read buffer, chip select if pulled low, the MOSI bit, the wake fired.
pub open spec fn advance<W>(c: Option<InstrView<W>>, buf: Seq<bool>, miso: bool) -> (Option<InstrView<W>>, Seq<bool>, Option<bool>, Option<bool>, Option<W>) {
    match c {
        None => (None, buf, None, None, None),
        Some(InstrView::Read(size, first_clear)) => if first_clear {
            (Some(InstrView::Read(size, false)), buf, None, None, None)
        } else if size != 0 {
            (
                if size - 1 != 0 {
                    Some(InstrView::Read((size - 1) as usize, false))
                } else {
                    None
                },
                with_bit(buf, miso),
                Some(false),
                None,
                None,
            )
        } else {
            (None, buf, Some(false), None, None)
        },
        Some(InstrView::Write(b)) => if b.len() == 0 {
            (None, buf, None, None, None)
        } else {
            (Some(InstrView::Write(b.drop_last())), buf, Some(false), Some(b.last()), None)
        },
        Some(InstrView::Wake(w)) => (None, buf, None, None, Some(w)),
    }
}

/// The master's state: the instructions waiting, the one in progress, and
/// the bits read so far.
pub struct MasterCore<W> {
    queue: Vec<Instr<W>>,
    ctx: Option<Instr<W>>,
    read_buf: Port,
}

impl<W> MasterCore<W> {
    pub closed spec fn queue_view(&self) -> Seq<InstrView<W>> {
        self.queue@.map_values(|i: Instr<W>| i@)
    }

    pub closed spec fn ctx_view(&self) -> Option<InstrView<W>> {
        match self.ctx {
            Some(i) => Some(i@),
            None => None,
        }
    }

    pub closed spec fn read_bits(&self) -> Seq<bool> {
        self.read_buf@
    }

    pub fn new() -> (r: Self)
        ensures
            r.queue_view() == Seq::<InstrView<W>>::empty(),
            r.ctx_view() == None::<InstrView<W>>,
            r.read_bits() == Seq::<bool>::empty(),
    {
        let r = MasterCore { queue: Vec::new(), ctx: None, read_buf: Port::new() };
        assert(r.queue_view() =~= Seq::<InstrView<W>>::empty());
        r
    }

    fn push(&mut self, i: Instr<W>)
        ensures
            final(self).queue_view() == old(self).queue_view().push(i@),
            final(self).ctx_view() == old(self).ctx_view(),
            final(self).read_bits() == old(self).read_bits(),
    {
        self.queue.push(i);
        assert(self.queue_view() =~= old(self).queue_view().push(i@));
    }

    /// Queues a write frame: the command byte for register `reg` with the
    /// R/W bit clear, the payload last byte first, then a wake. The register
    /// keeps the byte written last in front, so reads give the payload back
    /// in its own order.
    pub fn enqueue_write(&mut self, reg: u8, bytes: &Vec<u8>, waker: W)
        ensures
            final(self).queue_view() == old(self).queue_view() + seq![InstrView::Write(lsb_bits(reg & 0x7f))]
                + Seq::new(bytes@.len(), |i: int| InstrView::<W>::Write(lsb_bits(bytes@[bytes@.len() - 1 - i])))
                + seq![InstrView::Wake(waker)],
            final(self).ctx_view() == old(self).ctx_view(),
            final(self).read_bits() == old(self).read_bits(),
    {
        self.push(Instr::Write(Port::from_byte(reg & 0x7f)));
        let ghost q0 = self.queue_view();
        let n = bytes.len();
        let mut i: usize = 0;
        while i < n
            invariant
                n == bytes@.len(),
                i <= n,
                self.queue_view() == q0 + Seq::new(i as nat, |j: int| InstrView::<W>::Write(lsb_bits(bytes@[n - 1 - j]))),
                self.ctx_view() == old(self).ctx_view(),
                self.read_bits() == old(self).read_bits(),
            decreases n - i,
        {
            self.push(Instr::Write(Port::from_byte(bytes[n - 1 - i])));
            i = i + 1;
            assert(self.queue_view() =~= q0 + Seq::new(i as nat, |j: int| InstrView::<W>::Write(lsb_bits(bytes@[n - 1 - j]))));
        }
        self.push(Instr::Wake(waker));
    }

    /// Queues a read frame: the command byte for register `reg` with the
    /// R/W bit set, a read of `count` bytes after one skipped tick, then a
    /// wake.
    pub fn enqueue_read(&mut self, reg: u8, count: usize, waker: W)
        requires
            count <= usize::MAX / 8,
        ensures
            final(self).queue_view() == old(self).queue_view() + seq![
                InstrView::Write(lsb_bits(reg | 0x80)),
                InstrView::Read((count * 8) as usize, true),
                InstrView::Wake(waker),
            ],
            final(self).ctx_view() == old(self).ctx_view(),
            final(self).read_bits() == old(self).read_bits(),
    {
        self.push(Instr::Write(Port::from_byte(reg | 0x80)));
        self.push(Instr::Read { size: count * 8, first_clear: true });
        self.push(Instr::Wake(waker));
        assert(self.queue_view() =~= old(self).queue_view() + seq![
            InstrView::Write(lsb_bits(reg | 0x80)),
            InstrView::Read((count * 8) as usize, true),
            InstrView::Wake(waker),
        ]);
    }

    /// Takes up to `count` completed bytes from the read buffer.
    pub fn take_bytes(&mut self, count: usize) -> (r: Vec<u8>)
        ensures
            r@ == drained(old(self).read_bits(), count as nat),
            final(self).read_bits() == drained_rest(old(self).read_bits(), count as nat),
            final(self).queue_view() == old(self).queue_view(),
            final(self).ctx_view() == old(self).ctx_view(),
    {
        let mut buf: Vec<u8> = Vec::new();
        let mut left: usize = count;
        while left > 0 && self.read_buf.bits_read() > 0
            invariant
                left <= count,
                buf@ + drained(self.read_bits(), left as nat) == drained(old(self).read_bits(), count as nat),
                drained_rest(self.read_bits(), left as nat) == drained_rest(old(self).read_bits(), count as nat),
                self.queue_view() == old(self).queue_view(),
                self.ctx_view() == old(self).ctx_view(),
            decreases left,
        {
            let b = self.read_buf.read_byte().unwrap();
            buf.push(b);
            left = left - 1;
        }
        assert(buf@ =~= buf@ + drained(self.read_bits(), left as nat));
        buf
    }
}

impl<W> MasterCore<W> {
    /// One step of the driver on a low clock phase, from `pre` to `post`.
    pub open spec fn low_level_step(pre: MasterCore<W>, post: MasterCore<W>, miso: bool, r: MasterAction<W>) -> bool {
        let (c, q) = current(pre.ctx_view(), pre.queue_view());
        let (next, buf, cs_low, mosi, wake) = advance(c, pre.read_bits(), miso);
        &&& post.queue_view() == q
        &&& post.ctx_view() == next
        &&& post.read_bits() == buf
        &&& r.mosi == mosi
        &&& r.wake == wake
        &&& r.cs == if next is None {
            Some(true)
        } else {
            cs_low
        }
    }

    /// The driver's work after a tick: with the clock line high nothing
    /// happens; with it low the master takes one step.
    pub fn on_tick(&mut self, clock_line: bool, miso: bool) -> (r: MasterAction<W>)
        ensures
            clock_line ==> r.cs.is_none() && r.mosi.is_none() && r.wake.is_none()
                && final(self).queue_view() == old(self).queue_view()
                && final(self).ctx_view() == old(self).ctx_view()
                && final(self).read_bits() == old(self).read_bits(),
            !clock_line ==> Self::low_level_step(*old(self), *final(self), miso, r),
    {
        if clock_line {
            MasterAction { cs: None, mosi: None, wake: None }
        } else {
            self.handle_low_level(miso)
        }
    }

    /// The driver's work on a low clock phase: at most one step of one
    /// instruction. `miso` is the level of MISO now; the result says what
    /// to drive on the lines and which wake to fire. Chip select goes high
    /// whenever no instruction is left in progress.
    pub fn handle_low_level(&mut self, miso: bool) -> (r: MasterAction<W>)
        ensures
            Self::low_level_step(*old(self), *final(self), miso, r),
    {
        let finished = match &self.ctx {
            Some(Instr::Write(p)) => p.bits_read() == 0,
            _ => false,
        };
        if finished {
            self.ctx = None;
        }
        if self.ctx.is_none() && self.queue.len() > 0 {
            let ghost q = self.queue_view();
            let first = self.queue.remove(0);
            assert(self.queue_view() =~= q.drop_first());
            self.ctx = Some(first);
        }
        let mut cs: Option<bool> = None;
        let mut mosi: Option<bool> = None;
        let mut wake: Option<W> = None;
        match self.ctx.take() {
            None => {},
            Some(Instr::Read { size, first_clear }) => {
                if first_clear {
                    self.ctx = Some(Instr::Read { size, first_clear: false });
                } else {
                    cs = Some(false);
                    if size != 0 {
                        self.read_buf.write(miso);
                        if size - 1 != 0 {
                            self.ctx = Some(Instr::Read { size: size - 1, first_clear: false });
                        }
                    }
                }
            },
            Some(Instr::Write(mut p)) => {
                if p.bits_read() != 0 {
                    cs = Some(false);
                    mosi = p.read();
                    self.ctx = Some(Instr::Write(p));
                }
            },
            Some(Instr::Wake(w)) => {
                wake = Some(w);
            },
        }
        if self.ctx.is_none() {
            cs = Some(true);
        }
        MasterAction { cs, mosi, wake }
    }
}

} // verus!
