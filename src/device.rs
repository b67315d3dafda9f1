//! The I2C slave: a bit-at-a-time protocol state machine over a set of
//! registers.
use crate::port::{lemma_capacity, lemma_lsb_bits_value, lsb_bits, lsb_value, msb_bits, with_bit, with_byte, Port};
use crate::register::{front_byte, front_rest, with_bytes, Register};
use std::collections::HashMap;
use vstd::prelude::*;

verus! {

broadcast use vstd::std_specs::hash::group_hash_axioms;

/// Marks transaction boundaries in the I2C bit stream.
#[derive(Clone, Copy, PartialEq, Eq, Structural, Debug)]
pub enum LineCondition {
    Start,
    InProgress,
    Stop,
}

#[derive(Clone, Copy, PartialEq, Eq, Structural, Debug)]
pub enum SlaveState {
    Idle,
    ReadingAddress,
    WaitingForRegisterAddress,
    WaitingForContinuation,
    StartRead,
    StartWrite,
    WaitingAckRead,
}

/// The faults of a simulated bus.
#[derive(Clone, Copy, PartialEq, Eq, Structural, Debug)]
pub enum BusError {
    /// Configuration: an address with the high bit set; only 7-bit
    /// addressing is supported.
    UnsupportedAddress,
    /// Configuration: the register named does not exist on the device.
    UnknownRegister,
    /// Protocol: the R/W bit was set where it must be zero.
    ReadWriteBitSet,
    /// Protocol: a repeated address did not name the device.
    AddressMismatch,
    /// Protocol: a byte was not acknowledged.
    MissingAck,
    /// Protocol: no device put data on the line for a byte being read.
    NoResponse,
    /// Caller: a block write was given no bytes to write.
    EmptyWrite,
    /// Bus integrity: more than one device drove the line at once.
    MultipleDrivers,
}

pub struct I2CSlave {
    address: u8,
    registers: HashMap<u8, Register>,
    state: SlaveState,
    output: Port,
    input_buffer: Port,
    reg_select: Option<u8>,
    /// Set when a Start addressed to another device was seen: the device
    /// ignores the bus until the next Start.
    disengaged: bool,
}

/// The byte that the bits `s` make once `bit` joins them.
pub open spec fn received(s: Seq<bool>, bit: bool) -> u8 {
    lsb_value(seq![bit] + s) as u8
}

/// Whether the state works on a selected register.
pub open spec fn uses_register(s: SlaveState) -> bool {
    s == SlaveState::WaitingForContinuation || s == SlaveState::StartRead || s
        == SlaveState::StartWrite || s == SlaveState::WaitingAckRead
}

impl I2CSlave {
    pub closed spec fn slave_state(&self) -> SlaveState {
        self.state
    }

    /// The current protocol state.
    pub fn state(&self) -> (r: SlaveState)
        ensures
            r == self.slave_state(),
    {
        self.state
    }

    pub closed spec fn addr(&self) -> u8 {
        self.address
    }

    pub closed spec fn regs(&self) -> Map<u8, Register> {
        self.registers@
    }

    /// The bits the device has put out and the bus has not taken yet.
    pub closed spec fn output_bits(&self) -> Seq<bool> {
        self.output@
    }

    /// The bits of the byte being received.
    pub closed spec fn input_bits(&self) -> Seq<bool> {
        self.input_buffer@
    }

    pub closed spec fn selected(&self) -> Option<u8> {
        self.reg_select
    }

    pub closed spec fn is_disengaged(&self) -> bool {
        self.disengaged
    }

    pub open spec fn wf(&self) -> bool {
        &&& self.addr() < 0x80
        &&& self.input_bits().len() < 8
        &&& self.slave_state() != SlaveState::Idle ==> !self.is_disengaged()
        &&& (self.slave_state() == SlaveState::Idle || self.slave_state() == SlaveState::StartRead
            || self.slave_state() == SlaveState::WaitingAckRead) ==> self.input_bits().len() == 0
        &&& forall|k: u8| #[trigger] self.regs().contains_key(k) ==> self.regs()[k].wf()
        &&& uses_register(self.slave_state()) ==> self.selected().is_some() && self.regs().contains_key(
            self.selected().unwrap(),
        )
    }

    /// A device at a 7-bit address with no registers.
    pub fn new(address: u8) -> (r: Result<Self, BusError>)
        ensures
            address >= 0x80 <==> r == Err::<Self, BusError>(BusError::UnsupportedAddress),
            address < 0x80 ==> r is Ok,
            r matches Ok(d) ==> {
                &&& d.wf()
                &&& d.addr() == address
                &&& d.regs() == Map::<u8, Register>::empty()
                &&& d.slave_state() == SlaveState::Idle
                &&& d.output_bits() == Seq::<bool>::empty()
                &&& d.input_bits() == Seq::<bool>::empty()
                &&& d.selected() == None::<u8>
                &&& !d.is_disengaged()
            },
    {
        if address & 0x80 != 0 {
            assert(address >= 0x80) by (bit_vector)
                requires
                    address & 0x80 != 0,
            ;
            return Err(BusError::UnsupportedAddress);
        }
        assert(address < 0x80) by (bit_vector)
            requires
                address & 0x80 == 0,
        ;
        Ok(
            I2CSlave {
                address,
                registers: HashMap::new(),
                state: SlaveState::Idle,
                output: Port::new(),
                input_buffer: Port::new(),
                reg_select: None,
                disengaged: false,
            },
        )
    }

    /// Adds (or replaces) the register at `address`.
    pub fn create_register(&mut self, address: u8, register: Register)
        requires
            old(self).wf(),
            register.wf(),
        ensures
            final(self).wf(),
            final(self).regs() == old(self).regs().insert(address, register),
            final(self).addr() == old(self).addr(),
            final(self).slave_state() == old(self).slave_state(),
            final(self).output_bits() == old(self).output_bits(),
            final(self).input_bits() == old(self).input_bits(),
            final(self).selected() == old(self).selected(),
            final(self).is_disengaged() == old(self).is_disengaged(),
    {
        self.registers.insert(address, register);
        assert forall|k: u8| #[trigger] self.regs().contains_key(k) implies self.regs()[k].wf() by {
            if k != address {
                assert(old(self).regs().contains_key(k));
            }
        }
    }

    /// Takes the next bit the device put out.
    pub fn read_bit(&mut self) -> (r: Option<bool>)
        ensures
            old(self).output_bits().len() == 0 ==> r.is_none() && final(self).output_bits() == old(
                self,
            ).output_bits(),
            old(self).output_bits().len() > 0 ==> r == Some(old(self).output_bits().last())
                && final(self).output_bits() == old(self).output_bits().drop_last(),
            final(self).same_but_output(*old(self)),
    {
        self.output.read()
    }

    /// Takes the (up to) eight bits the device put out last, as a byte.
    pub fn read_byte(&mut self) -> (r: Option<u8>)
        ensures
            old(self).output_bits().len() == 0 ==> r.is_none() && final(self).output_bits() == old(
                self,
            ).output_bits(),
            old(self).output_bits().len() > 0 ==> r == Some(front_byte(old(self).output_bits()))
                && final(self).output_bits() == front_rest(old(self).output_bits()),
            final(self).same_but_output(*old(self)),
    {
        self.output.read_byte()
    }

    /// Everything but the output bits is as in `o`.
    pub open spec fn same_but_output(&self, o: I2CSlave) -> bool {
        &&& self.addr() == o.addr()
        &&& self.regs() == o.regs()
        &&& self.slave_state() == o.slave_state()
        &&& self.input_bits() == o.input_bits()
        &&& self.selected() == o.selected()
        &&& self.is_disengaged() == o.is_disengaged()
    }
}

impl I2CSlave {
    /// `post` has the registers of `pre`, the one at `k` replaced.
    pub open spec fn regs_but(pre: I2CSlave, post: I2CSlave, k: u8) -> bool {
        &&& pre.regs().contains_key(k)
        &&& post.regs() == pre.regs().insert(k, post.regs()[k])
        &&& post.regs()[k].is_read_only() == pre.regs()[k].is_read_only()
    }

    /// Only the input bits changed: `bit` joined them.
    pub open spec fn gathered(pre: I2CSlave, post: I2CSlave, bit: bool, st: SlaveState) -> bool {
        &&& post.input_bits() == seq![bit] + pre.input_bits()
        &&& post.slave_state() == st
        &&& post.output_bits() == pre.output_bits()
        &&& post.regs() == pre.regs()
        &&& post.selected() == pre.selected()
    }

    /// Receiving the address byte of a transaction.
    pub open spec fn address_step(pre: I2CSlave, post: I2CSlave, bit: bool, r: Result<(), BusError>) -> bool {
        let v = received(pre.input_bits(), bit);
        if pre.input_bits().len() < 7 {
            r is Ok && !post.is_disengaged() && Self::gathered(pre, post, bit, SlaveState::ReadingAddress)
        } else if v >> 1u8 == pre.addr() && v & 1u8 == 1u8 {
            r == Err::<(), BusError>(BusError::ReadWriteBitSet)
        } else {
            &&& r is Ok
            &&& post.input_bits() == Seq::<bool>::empty()
            &&& post.regs() == pre.regs()
            &&& post.selected() == pre.selected()
            &&& if v >> 1u8 == pre.addr() {
                &&& post.slave_state() == SlaveState::WaitingForRegisterAddress
                &&& post.output_bits() == with_bit(pre.output_bits(), false)
                &&& !post.is_disengaged()
            } else {
                &&& post.slave_state() == SlaveState::Idle
                &&& post.output_bits() == pre.output_bits()
                &&& post.is_disengaged()
            }
        }
    }

    /// Receiving the register address.
    pub open spec fn register_step(pre: I2CSlave, post: I2CSlave, bit: bool, r: Result<(), BusError>) -> bool {
        let v = received(pre.input_bits(), bit);
        if pre.input_bits().len() < 7 {
            r is Ok && Self::gathered(pre, post, bit, SlaveState::WaitingForRegisterAddress)
        } else if !pre.regs().contains_key(v) {
            r == Err::<(), BusError>(BusError::UnknownRegister)
        } else {
            &&& r is Ok
            &&& post.input_bits() == Seq::<bool>::empty()
            &&& post.slave_state() == SlaveState::WaitingForContinuation
            &&& post.output_bits() == with_bit(pre.output_bits(), false)
            &&& post.regs() == pre.regs()
            &&& post.selected() == Some(v)
        }
    }

    /// Putting out the next byte of the selected register.
    pub open spec fn send_step(pre: I2CSlave, post: I2CSlave, r: Result<(), BusError>) -> bool {
        let k = pre.selected().unwrap();
        let f = pre.regs()[k].front();
        &&& r is Ok
        &&& post.slave_state() == SlaveState::WaitingAckRead
        &&& post.input_bits() == pre.input_bits()
        &&& post.selected() == pre.selected()
        &&& Self::regs_but(pre, post, k)
        &&& post.regs()[k].backing() == pre.regs()[k].backing()
        &&& post.regs()[k].front() == front_rest(f)
        &&& post.output_bits() == with_byte(pre.output_bits(), front_byte(f))
    }

    /// Writing a data bit into the selected register.
    pub open spec fn write_step(pre: I2CSlave, post: I2CSlave, bit: bool, cond: LineCondition, r: Result<(), BusError>) -> bool {
        let k = pre.selected().unwrap();
        let old_r = pre.regs()[k];
        let new_r = post.regs()[k];
        &&& r is Ok
        &&& post.selected() == pre.selected()
        &&& Self::regs_but(pre, post, k)
        &&& (old_r.is_read_only() ==> new_r.front() == old_r.front() && new_r.backing() == old_r.backing())
        &&& (!old_r.is_read_only() ==> new_r.front() == with_bit(old_r.front(), bit)
            && new_r.backing() == with_bit(old_r.backing(), bit))
        &&& if pre.input_bits().len() < 7 {
            &&& post.input_bits() == seq![false] + pre.input_bits()
            &&& post.output_bits() == pre.output_bits()
            &&& post.slave_state() == SlaveState::StartWrite
        } else {
            &&& post.input_bits() == Seq::<bool>::empty()
            &&& post.output_bits() == with_bit(pre.output_bits(), false)
            &&& post.slave_state() == if cond == LineCondition::Stop {
                SlaveState::Idle
            } else {
                SlaveState::StartWrite
            }
        }
    }

    /// After a register was selected: a data write, or a repeated address.
    pub open spec fn continuation_step(pre: I2CSlave, post: I2CSlave, bit: bool, cond: LineCondition, r: Result<(), BusError>) -> bool {
        let v = received(pre.input_bits(), bit);
        let k = pre.selected().unwrap();
        if cond == LineCondition::InProgress {
            Self::write_step(pre, post, bit, cond, r)
        } else if pre.input_bits().len() < 7 {
            r is Ok && Self::gathered(pre, post, bit, SlaveState::WaitingForContinuation)
        } else if (v & 0xfeu8) >> 1u8 != pre.addr() {
            r == Err::<(), BusError>(BusError::AddressMismatch)
        } else if v & 1u8 == 0 {
            &&& r is Ok
            &&& post.input_bits() == Seq::<bool>::empty()
            &&& post.slave_state() == SlaveState::WaitingForContinuation
            &&& post.output_bits() == with_bit(pre.output_bits(), false)
            &&& post.regs() == pre.regs()
            &&& post.selected() == pre.selected()
        } else {
            &&& r is Ok
            &&& post.input_bits() == Seq::<bool>::empty()
            &&& post.slave_state() == SlaveState::WaitingAckRead
            &&& post.selected() == pre.selected()
            &&& Self::regs_but(pre, post, k)
            &&& post.regs()[k].backing() == pre.regs()[k].backing()
            &&& exists|v: Seq<u8>| {
                &&& front_rest(#[trigger] with_bytes(pre.regs()[k].front(), v)) == post.regs()[k].front()
                &&& post.output_bits() == with_byte(
                    with_bit(pre.output_bits(), false),
                    front_byte(with_bytes(pre.regs()[k].front(), v)),
                )
                &&& !pre.regs()[k].is_read_only() ==> v.len() == 0
            }
        }
    }

    /// What one bit on the bus does to the device.
    pub open spec fn bit_step(pre: I2CSlave, post: I2CSlave, bit: bool, cond: LineCondition, r: Result<(), BusError>) -> bool {
        &&& post.addr() == pre.addr()
        &&& post.regs().dom() == pre.regs().dom()
        &&& r is Ok ==> post.wf()
        &&& match pre.slave_state() {
            SlaveState::Idle => if pre.is_disengaged() && cond != LineCondition::Start {
                r is Ok && post == pre
            } else {
                Self::address_step(pre, post, bit, r)
            },
            SlaveState::ReadingAddress => Self::address_step(pre, post, bit, r),
            SlaveState::WaitingForRegisterAddress => Self::register_step(pre, post, bit, r),
            SlaveState::WaitingForContinuation => Self::continuation_step(pre, post, bit, cond, r),
            SlaveState::StartRead => Self::send_step(pre, post, r),
            SlaveState::StartWrite => Self::write_step(pre, post, bit, cond, r),
            SlaveState::WaitingAckRead => if bit {
                let k = pre.selected().unwrap();
                &&& r is Ok
                &&& post.slave_state() == SlaveState::Idle
                &&& post.input_bits() == pre.input_bits()
                &&& post.output_bits() == pre.output_bits()
                &&& post.selected() == pre.selected()
                &&& Self::regs_but(pre, post, k)
                &&& post.regs()[k].backing() == pre.regs()[k].backing()
                &&& post.regs()[k].front() == pre.regs()[k].backing()
            } else {
                Self::send_step(pre, post, r)
            },
        }
    }
}

impl I2CSlave {
    /// `post` is `pre` after the bits of `val` went through `bit_step`, most
    /// significant first, up to the first error.
    pub open spec fn byte_step(pre: I2CSlave, post: I2CSlave, val: u8, cond: LineCondition, r: Result<(), BusError>) -> bool {
        if pre.is_disengaged() && cond != LineCondition::Start {
            r is Ok && post == pre
        } else {
            exists|t: Seq<I2CSlave>, n: int| {
                &&& 1 <= n <= 8
                &&& t.len() == n + 1
                &&& t[0] == pre
                &&& #[trigger] t[n] == post
                &&& (r is Ok ==> n == 8)
                &&& forall|i: int|
                    0 <= i < n - 1 ==> #[trigger] Self::bit_step(
                        t[i],
                        t[i + 1],
                        msb_bits(val)[i],
                        cond,
                        Ok(()),
                    )
                &&& Self::bit_step(t[n - 1], t[n], msb_bits(val)[n - 1], cond, r)
            }
        }
    }

    /// Writes the bits of `val`, most significant first, under one line
    /// condition; a disengaged device ignores all but a Start.
    pub fn write_byte(&mut self, val: u8, condition: LineCondition) -> (r: Result<(), BusError>)
        requires
            old(self).wf(),
        ensures
            Self::byte_step(*old(self), *final(self), val, condition, r),
            r != Err::<(), BusError>(BusError::UnsupportedAddress),
            r != Err::<(), BusError>(BusError::EmptyWrite),
            r is Ok ==> final(self).wf(),
            final(self).addr() == old(self).addr(),
            final(self).regs().dom() == old(self).regs().dom(),
    {
        if self.disengaged && condition != LineCondition::Start {
            return Ok(());
        }
        let bits = crate::port::byte_to_bits(val);
        let ghost mut t: Seq<I2CSlave> = seq![*self];
        let mut i: usize = 0;
        while i < 8
            invariant
                self.wf(),
                bits@ == msb_bits(val),
                !(old(self).is_disengaged() && condition != LineCondition::Start),
                i <= 8,
                t.len() == i + 1,
                t[0] == *old(self),
                t[i as int] == *self,
                forall|j: int| 0 <= j < i ==> #[trigger] Self::bit_step(t[j], t[j + 1], msb_bits(val)[j], condition, Ok(())),
                self.addr() == old(self).addr(),
                self.regs().dom() == old(self).regs().dom(),
            decreases 8 - i,
        {
            let res = self.write_bit(bits[i], condition);
            proof {
                t = t.push(*self);
            }
            if res.is_err() {
                assert(t[i + 1] == *self);
                return res;
            }
            i = i + 1;
        }
        assert(t[8] == *self);
        Ok(())
    }

    /// Takes the register at `k` out of the map.
    fn take_register(&mut self, k: u8) -> (reg: Register)
        requires
            old(self).regs().contains_key(k),
        ensures
            reg == old(self).regs()[k],
            final(self).regs() == old(self).regs().remove(k),
            final(self).addr() == old(self).addr(),
            final(self).slave_state() == old(self).slave_state(),
            final(self).output_bits() == old(self).output_bits(),
            final(self).input_bits() == old(self).input_bits(),
            final(self).selected() == old(self).selected(),
            final(self).is_disengaged() == old(self).is_disengaged(),
    {
        self.registers.remove(&k).unwrap()
    }

    /// Feeds one bit of the bus to the protocol state machine.
    pub fn write_bit(&mut self, bit: bool, condition: LineCondition) -> (r: Result<(), BusError>)
        requires
            old(self).wf(),
        ensures
            Self::bit_step(*old(self), *final(self), bit, condition, r),
            r != Err::<(), BusError>(BusError::UnsupportedAddress),
            r != Err::<(), BusError>(BusError::EmptyWrite),
        decreases
            match old(self).slave_state() {
                SlaveState::Idle => 1int,
                SlaveState::WaitingForContinuation => 1int,
                SlaveState::WaitingAckRead => 1int,
                _ => 0int,
            },
    {
        proof {
            lemma_capacity();
        }
        match self.state {
            SlaveState::Idle => {
                if self.disengaged {
                    if condition == LineCondition::Start {
                        self.disengaged = false;
                    } else {
                        return Ok(());
                    }
                }
                self.state = SlaveState::ReadingAddress;
                assert(self.regs() == old(self).regs());
                assert(self.input_bits() == old(self).input_bits());
                self.write_bit(bit, condition)
            },
            SlaveState::ReadingAddress => {
                self.input_buffer.write(bit);
                if self.input_buffer.bits_read() == 8 {
                    assert(self.input_buffer@.take(8) =~= self.input_buffer@);
                    let addr = self.input_buffer.read_byte().unwrap();
                    assert(self.input_buffer@ =~= Seq::<bool>::empty());
                    if addr >> 1 == self.address {
                        if addr & 0x01 == 1 {
                            return Err(BusError::ReadWriteBitSet);
                        }
                        self.state = SlaveState::WaitingForRegisterAddress;
                        self.output.write(false);
                    } else {
                        self.disengaged = true;
                        self.state = SlaveState::Idle;
                    }
                }
                Ok(())
            },
            SlaveState::WaitingForRegisterAddress => {
                self.input_buffer.write(bit);
                if self.input_buffer.bits_read() == 8 {
                    assert(self.input_buffer@.take(8) =~= self.input_buffer@);
                    let register_address = self.input_buffer.read_byte().unwrap();
                    assert(self.input_buffer@ =~= Seq::<bool>::empty());
                    if !self.registers.contains_key(&register_address) {
                        return Err(BusError::UnknownRegister);
                    }
                    self.reg_select = Some(register_address);
                    self.output.write(false);
                    self.state = SlaveState::WaitingForContinuation;
                }
                assert(self.regs() == old(self).regs());
                assert(forall|k: u8| #[trigger] self.regs().contains_key(k) ==> self.regs()[k].wf());
                Ok(())
            },
            SlaveState::WaitingForContinuation => {
                if condition == LineCondition::InProgress {
                    self.state = SlaveState::StartWrite;
                    return self.write_bit(bit, condition);
                }
                self.input_buffer.write(bit);
                if self.input_buffer.bits_read() == 8 {
                    assert(self.input_buffer@.take(8) =~= self.input_buffer@);
                    let received = self.input_buffer.read_byte().unwrap();
                    assert(self.input_buffer@ =~= Seq::<bool>::empty());
                    assert(received & 1u8 == 0u8 || received & 1u8 == 1u8) by (bit_vector);
                    if (received & 0xfe) >> 1 != self.address {
                        return Err(BusError::AddressMismatch);
                    }
                    self.output.write(false);
                    if received & 0x01 == 1 {
                        let k = self.reg_select.unwrap();
                        let mut reg = self.take_register(k);
                        let ghost f0 = reg.front();
                        reg.start_read();
                        let ghost v: Seq<u8> = if reg.is_read_only() {
                            reg.last_loaded()
                        } else {
                            Seq::<u8>::empty()
                        };
                        assert(with_bytes(f0, v) == reg.front());
                        self.registers.insert(k, reg);
                        assert(self.regs() =~= old(self).regs().insert(k, self.regs()[k]));
                        self.state = SlaveState::StartRead;
                        let ghost f = self.registers@[k].front();
                        let res = self.write_bit(false, condition);
                        assert(front_rest(f) == self.regs()[k].front());
                        assert(self.regs() =~= old(self).regs().insert(k, self.regs()[k]));
                        assert(front_rest(with_bytes(old(self).regs()[k].front(), v)) == self.regs()[k].front());
                        return res;
                    }
                }
                Ok(())
            },
            SlaveState::StartRead => {
                let k = self.reg_select.unwrap();
                let mut reg = self.take_register(k);
                let byte = reg.read_byte();
                self.registers.insert(k, reg);
                        assert(self.regs() =~= old(self).regs().insert(k, self.regs()[k]));
                self.output.write_byte(byte.unwrap());
                self.state = SlaveState::WaitingAckRead;
                Ok(())
            },
            SlaveState::StartWrite => {
                let k = self.reg_select.unwrap();
                let mut reg = self.take_register(k);
                reg.write(bit);
                self.registers.insert(k, reg);
                        assert(self.regs() =~= old(self).regs().insert(k, self.regs()[k]));
                self.input_buffer.write(false);
                if self.input_buffer.bits_read() == 8 {
                    self.output.write(false);
                    self.input_buffer.clear();
                    if condition == LineCondition::Stop {
                        self.state = SlaveState::Idle;
                    }
                }
                Ok(())
            },
            SlaveState::WaitingAckRead => {
                let k = self.reg_select.unwrap();
                if bit {
                    let mut reg = self.take_register(k);
                    reg.finish_read();
                    self.registers.insert(k, reg);
                        assert(self.regs() =~= old(self).regs().insert(k, self.regs()[k]));
                    self.state = SlaveState::Idle;
                    Ok(())
                } else {
                    self.state = SlaveState::StartRead;
                    self.write_bit(false, condition)
                }
            },
        }
    }
}

/// The bits of the byte `val` that a device holds after `i` of them came
/// in, most significant first.
pub open spec fn address_prefix(val: u8, i: int) -> Seq<bool> {
    Seq::new(i as nat, |j: int| msb_bits(val)[i - 1 - j])
}

/// Along the bits of an address byte sent with Start, a device only
/// gathers them.
proof fn lemma_address_trace(pre: I2CSlave, t: Seq<I2CSlave>, val: u8, i: int)
    requires
        pre.slave_state() == SlaveState::Idle,
        pre.input_bits().len() == 0,
        t.len() == 9,
        t[0] == pre,
        forall|k: int|
            0 <= k < 8 ==> #[trigger] I2CSlave::bit_step(
                t[k],
                t[k + 1],
                msb_bits(val)[k],
                LineCondition::Start,
                Ok(()),
            ),
        0 <= i <= 7,
    ensures
        t[i].input_bits() == address_prefix(val, i),
        t[i].output_bits() == pre.output_bits(),
        t[i].addr() == pre.addr(),
        i > 0 ==> t[i].slave_state() == SlaveState::ReadingAddress && !t[i].is_disengaged(),
    decreases i,
{
    if i == 0 {
        assert(address_prefix(val, 0) =~= Seq::<bool>::empty());
    } else {
        lemma_address_trace(pre, t, val, i - 1);
        let k = i - 1;
        assert(I2CSlave::bit_step(t[k], t[k + 1], msb_bits(val)[k], LineCondition::Start, Ok(())));
        assert(t[k + 1] == t[i]);
        assert(address_prefix(val, i) =~= seq![msb_bits(val)[i - 1]] + address_prefix(val, i - 1));
    }
}

/// A device that a transaction does not address stays off the line: the
/// address byte, sent with Start, leaves it idle and disengaged with its
/// output untouched, and while disengaged it ignores every byte that does
/// not come with Start. So on a bus where one device is addressed, only that
/// device drives the line.
pub proof fn lemma_unaddressed_device_is_silent(pre: I2CSlave, post: I2CSlave, val: u8)
    requires
        pre.wf(),
        pre.slave_state() == SlaveState::Idle,
        val >> 1u8 != pre.addr(),
        I2CSlave::byte_step(pre, post, val, LineCondition::Start, Ok(())),
    ensures
        post.is_disengaged(),
        post.slave_state() == SlaveState::Idle,
        post.output_bits() == pre.output_bits(),
        forall|next: I2CSlave, b: u8, c: LineCondition|
            c != LineCondition::Start && #[trigger] I2CSlave::byte_step(post, next, b, c, Ok(()))
                ==> next == post,
{
    let (t, n) = choose|t: Seq<I2CSlave>, n: int| {
        &&& 1 <= n <= 8
        &&& t.len() == n + 1
        &&& t[0] == pre
        &&& #[trigger] t[n] == post
        &&& (Ok::<(), BusError>(()) is Ok ==> n == 8)
        &&& forall|i: int|
            0 <= i < n - 1 ==> #[trigger] I2CSlave::bit_step(
                t[i],
                t[i + 1],
                msb_bits(val)[i],
                LineCondition::Start,
                Ok(()),
            )
        &&& I2CSlave::bit_step(t[n - 1], t[n], msb_bits(val)[n - 1], LineCondition::Start, Ok(()))
    };
    assert(n == 8);
    assert forall|k: int|
        0 <= k < 8 implies #[trigger] I2CSlave::bit_step(
        t[k],
        t[k + 1],
        msb_bits(val)[k],
        LineCondition::Start,
        Ok(()),
    ) by {
        if k < 7 {
            assert(I2CSlave::bit_step(t[k], t[k + 1], msb_bits(val)[k], LineCondition::Start, Ok(())));
        }
    }
    lemma_address_trace(pre, t, val, 7);
    let s7 = t[7].input_bits();
    assert(seq![msb_bits(val)[7]] + s7 =~= lsb_bits(val));
    lemma_lsb_bits_value(val);
    assert(received(s7, msb_bits(val)[7]) == val);
    assert(I2CSlave::bit_step(t[7], t[8], msb_bits(val)[7], LineCondition::Start, Ok(())));
}

} // verus!
