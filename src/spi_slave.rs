//! The SPI slave's reaction to the clock: bits in on MOSI, bits out on
//! MISO, and the register access that a received byte asks for.
use crate::device::received;
use crate::port::{with_bit, with_byte, Port};
use crate::register::{with_bytes, Register};
use std::collections::HashMap;
use vstd::prelude::*;

verus! {

broadcast use vstd::std_specs::hash::group_hash_axioms;

#[derive(Clone, Copy, PartialEq, Eq, Structural, Debug)]
pub enum SpiSlaveState {
    Idle,
    /// Later bytes of the frame go to this register.
    Writing(u8),
}

/// The output bits after the bits of `f` are moved over one at a time,
/// the last of `f` first.
pub open spec fn transfer(out: Seq<bool>, f: Seq<bool>) -> Seq<bool>
    decreases f.len(),
{
    if f.len() == 0 {
        out
    } else {
        transfer(with_bit(out, f.last()), f.drop_last())
    }
}

/// The register a command byte names: its low seven bits.
pub open spec fn command_register(value: u8) -> u8 {
    value & 0x7fu8
}

/// Whether a command byte asks for a read: its top bit.
pub open spec fn command_is_read(value: u8) -> bool {
    value & 0x80u8 != 0
}

/// The slave's side of the link: its registers, the byte being received,
/// the bits waiting to go out, and where the frame stands.
pub struct SlaveCore {
    registers: HashMap<u8, Register>,
    port: Port,
    output: Port,
    state: SpiSlaveState,
    previous: bool,
}

impl SlaveCore {
    pub closed spec fn regs(&self) -> Map<u8, Register> {
        self.registers@
    }

    pub closed spec fn in_bits(&self) -> Seq<bool> {
        self.port@
    }

    pub closed spec fn out_bits(&self) -> Seq<bool> {
        self.output@
    }

    pub closed spec fn slave_state(&self) -> SpiSlaveState {
        self.state
    }

    /// The clock level seen last.
    pub closed spec fn previous_clock(&self) -> bool {
        self.previous
    }

    pub open spec fn wf(&self) -> bool {
        self.in_bits().len() < 8
    }

    pub fn new(registers: HashMap<u8, Register>) -> (r: Self)
        ensures
            r.wf(),
            r.regs() == registers@,
            r.in_bits() == Seq::<bool>::empty(),
            r.out_bits() == Seq::<bool>::empty(),
            r.slave_state() == SpiSlaveState::Idle,
            !r.previous_clock(),
    {
        SlaveCore {
            registers,
            port: Port::new(),
            output: Port::new(),
            state: SpiSlaveState::Idle,
            previous: false,
        }
    }

    /// `post` is `pre` after the command or data byte `value` was handled.
    pub open spec fn byte_handled(pre: SlaveCore, post: SlaveCore, value: u8) -> bool {
        &&& post.in_bits() == pre.in_bits()
        &&& post.regs().dom() == pre.regs().dom()
        &&& match pre.slave_state() {
            SpiSlaveState::Idle => {
                let k = command_register(value);
                if !pre.regs().contains_key(k) {
                    post.regs() == pre.regs() && post.out_bits() == pre.out_bits()
                        && post.slave_state() == SpiSlaveState::Idle
                } else if command_is_read(value) {
                    let old_r = pre.regs()[k];
                    let new_r = post.regs()[k];
                    &&& post.regs() == pre.regs().insert(k, new_r)
                    &&& post.slave_state() == SpiSlaveState::Idle
                    &&& new_r.is_read_only() == old_r.is_read_only()
                    &&& new_r.backing() == old_r.backing()
                    &&& new_r.front() == old_r.backing()
                    &&& exists|v: Seq<u8>| {
                        &&& #[trigger] transfer(pre.out_bits(), with_bytes(old_r.front(), v))
                            == post.out_bits()
                        &&& !old_r.is_read_only() ==> v.len() == 0
                    }
                } else {
                    let old_r = pre.regs()[k];
                    let new_r = post.regs()[k];
                    &&& post.regs() == pre.regs().insert(k, new_r)
                    &&& post.out_bits() == pre.out_bits()
                    &&& post.slave_state() == SpiSlaveState::Writing(k)
                    &&& new_r.is_read_only() == old_r.is_read_only()
                    &&& old_r.is_read_only() ==> new_r.front() == old_r.front() && new_r.backing()
                        == old_r.backing()
                    &&& !old_r.is_read_only() ==> new_r.front() == Seq::<bool>::empty()
                        && new_r.backing() == Seq::<bool>::empty()
                }
            },
            SpiSlaveState::Writing(k) => {
                &&& post.out_bits() == pre.out_bits()
                &&& post.slave_state() == pre.slave_state()
                &&& if !pre.regs().contains_key(k) {
                    post.regs() == pre.regs()
                } else {
                    let old_r = pre.regs()[k];
                    let new_r = post.regs()[k];
                    &&& post.regs() == pre.regs().insert(k, new_r)
                    &&& new_r.is_read_only() == old_r.is_read_only()
                    &&& old_r.is_read_only() ==> new_r.front() == old_r.front() && new_r.backing()
                        == old_r.backing()
                    &&& !old_r.is_read_only() ==> new_r.front() == with_byte(old_r.front(), value)
                        && new_r.backing() == with_byte(old_r.backing(), value)
                }
            },
        }
    }

    /// Handles a complete byte: a command in the idle state, data while
    /// writing. An unknown register is ignored.
    pub fn handle_byte_read(&mut self, value: u8)
        ensures
            Self::byte_handled(*old(self), *final(self), value),
            final(self).previous_clock() == old(self).previous_clock(),
    {
        match self.state {
            SpiSlaveState::Idle => {
                let k = value & 0x7f;
                if !self.registers.contains_key(&k) {
                    return ;
                }
                let mut register = self.registers.remove(&k).unwrap();
                if value & 0x80 != 0 {
                    let ghost f0 = register.front();
                    register.start_read();
                    let ghost f = register.front();
                    let ghost loaded = register.last_loaded();
                    let ghost out0 = self.output@;
                    while !register.is_done()
                        invariant
                            transfer(self.output@, register.front()) == transfer(out0, f),
                            old(self).regs().contains_key(k),
                            self.regs() == old(self).regs().remove(k),
                            self.state == old(self).state,
                            self.port@ == old(self).port@,
                            self.previous == old(self).previous,
                            register.backing() == old(self).regs()[k].backing(),
                            register.is_read_only() == old(self).regs()[k].is_read_only(),
                        decreases register.front().len(),
                    {
                        let rb = register.read_bit().unwrap();
                        self.output.write(rb);
                    }
                    register.finish_read();
                    let ghost v: Seq<u8> = if old(self).regs()[k].is_read_only() {
                        loaded
                    } else {
                        Seq::<u8>::empty()
                    };
                    assert(with_bytes(f0, v) == f);
                    self.registers.insert(k, register);
                    assert(self.regs() =~= old(self).regs().insert(k, self.regs()[k]));
                    assert(transfer(old(self).out_bits(), with_bytes(old(self).regs()[k].front(), v))
                        == self.out_bits());
                    return ;
                } else {
                    register.start_write();
                    self.state = SpiSlaveState::Writing(k);
                }
                self.registers.insert(k, register);
                assert(self.regs() =~= old(self).regs().insert(k, self.regs()[k]));
            },
            SpiSlaveState::Writing(k) => {
                if !self.registers.contains_key(&k) {
                    return ;
                }
                let mut register = self.registers.remove(&k).unwrap();
                register.write_byte(value);
                self.registers.insert(k, register);
                assert(self.regs() =~= old(self).regs().insert(k, self.regs()[k]));
            },
        }
    }
}

impl SlaveCore {
    /// `post` differs from `pre` only in its output bits.
    pub open spec fn same_but_output(pre: SlaveCore, post: SlaveCore) -> bool {
        &&& post.regs() == pre.regs()
        &&& post.in_bits() == pre.in_bits()
        &&& post.slave_state() == pre.slave_state()
    }

    /// Taking one MOSI bit: once eight have come, the byte is handled.
    pub open spec fn mosi_taken(pre: SlaveCore, post: SlaveCore, mosi: bool) -> bool {
        if pre.in_bits().len() < 7 {
            &&& post.in_bits() == seq![mosi] + pre.in_bits()
            &&& post.regs() == pre.regs()
            &&& post.out_bits() == pre.out_bits()
            &&& post.slave_state() == pre.slave_state()
        } else {
            exists|mid: SlaveCore| {
                &&& mid.in_bits() == Seq::<bool>::empty()
                &&& mid.regs() == pre.regs()
                &&& mid.out_bits() == pre.out_bits()
                &&& mid.slave_state() == pre.slave_state()
                &&& #[trigger] Self::byte_handled(mid, post, received(pre.in_bits(), mosi))
            }
        }
    }

    /// Takes the MOSI bit into the byte being received.
    pub fn read_mosi(&mut self, mosi: bool)
        requires
            old(self).wf(),
        ensures
            final(self).wf(),
            Self::mosi_taken(*old(self), *final(self), mosi),
            final(self).previous_clock() == old(self).previous_clock(),
    {
        self.port.write(mosi);
        if self.port.bits_read() == 8 {
            assert(self.port@.take(8) =~= self.port@);
            let value = self.port.read_byte().unwrap();
            assert(self.port@ =~= Seq::<bool>::empty());
            let ghost mid = *self;
            self.handle_byte_read(value);
            assert(Self::byte_handled(mid, *self, received(old(self).in_bits(), mosi)));
        }
    }

    /// What a rising clock edge does, given chip select and MOSI.
    pub open spec fn edge_step(pre: SlaveCore, post: SlaveCore, cs: bool, mosi: bool, r: Option<bool>) -> bool {
        if cs {
            &&& r.is_none()
            &&& post.slave_state() == SpiSlaveState::Idle
            &&& post.regs() == pre.regs()
            &&& post.in_bits() == pre.in_bits()
            &&& post.out_bits() == pre.out_bits()
        } else if pre.out_bits().len() > 0 {
            &&& r == Some(pre.out_bits().last())
            &&& post.out_bits() == pre.out_bits().drop_last()
            &&& Self::same_but_output(pre, post)
        } else {
            r.is_none() && Self::mosi_taken(pre, post, mosi)
        }
    }

    /// A rising clock edge: with chip select high the frame is abandoned;
    /// otherwise a waiting output bit goes out on MISO, or a MOSI bit comes
    /// in. Returns the bit to drive on MISO, if any.
    pub fn on_rising_edge(&mut self, cs: bool, mosi: bool) -> (r: Option<bool>)
        requires
            old(self).wf(),
        ensures
            final(self).wf(),
            final(self).previous_clock() == old(self).previous_clock(),
            Self::edge_step(*old(self), *final(self), cs, mosi, r),
    {
        if cs {
            self.state = SpiSlaveState::Idle;
            return None;
        }
        if self.output.bits_read() > 0 {
            self.output.read()
        } else {
            self.read_mosi(mosi);
            None
        }
    }

    /// One look at the lines after a tick: only a rising clock edge does
    /// anything. Returns the bit to drive on MISO, if any.
    pub fn observe(&mut self, clock: bool, cs: bool, mosi: bool) -> (r: Option<bool>)
        requires
            old(self).wf(),
        ensures
            final(self).wf(),
            final(self).previous_clock() == clock,
            clock && !old(self).previous_clock() ==> Self::edge_step(*old(self), *final(self), cs, mosi, r),
            !(clock && !old(self).previous_clock()) ==> r.is_none() && final(self).regs() == old(self).regs()
                && final(self).in_bits() == old(self).in_bits() && final(self).out_bits() == old(self).out_bits()
                && final(self).slave_state() == old(self).slave_state(),
    {
        let rising = clock && !self.previous;
        self.previous = clock;
        if rising {
            self.on_rising_edge(cs, mosi)
        } else {
            None
        }
    }
}

} // verus!
