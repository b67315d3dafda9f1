//! An emulated device register: a front buffer that reads and writes go
//! through, and a backing buffer that keeps the last committed value.
use crate::port::{
    byte_take, lemma_lsb_bits_value, lsb_bits, lsb_value, with_bit, with_byte, Port, BITS_CAPACITY,
};
use vstd::prelude::*;

verus! {

/// Produces the bytes a read-only register shows, once per read cycle.
/// Registers may be handed to another thread, so populators must be `Send`.
pub trait Populate: Send {
    fn populate(&self) -> Vec<u8>;
}

/// The bits of `s` after the bytes `v` are loaded for reading: `v` is
/// written last byte first, so that byte reads give it back in order.
pub open spec fn with_bytes(s: Seq<bool>, v: Seq<u8>) -> Seq<bool>
    decreases v.len(),
{
    if v.len() == 0 {
        s
    } else {
        with_byte(with_bytes(s, v.drop_first()), v[0])
    }
}

/// The byte a read of the front buffer `f` gives.
pub open spec fn front_byte(f: Seq<bool>) -> u8 {
    if f.len() == 0 {
        0
    } else {
        lsb_value(f.take(byte_take(f))) as u8
    }
}

/// What is left of the front buffer `f` after a byte read.
pub open spec fn front_rest(f: Seq<bool>) -> Seq<bool> {
    if f.len() == 0 {
        f
    } else {
        f.skip(byte_take(f))
    }
}

/// The bytes a drain of up to `k` bytes takes from `s`.
pub open spec fn drained(s: Seq<bool>, k: nat) -> Seq<u8>
    decreases k,
{
    if k == 0 || s.len() == 0 {
        Seq::<u8>::empty()
    } else {
        seq![front_byte(s)] + drained(front_rest(s), (k - 1) as nat)
    }
}

/// What is left of `s` after that drain.
pub open spec fn drained_rest(s: Seq<bool>, k: nat) -> Seq<bool>
    decreases k,
{
    if k == 0 || s.len() == 0 {
        s
    } else {
        drained_rest(front_rest(s), (k - 1) as nat)
    }
}

/// Loading bytes into a port with room for them puts eight bits per byte in
/// front of what was there.
pub proof fn lemma_with_bytes_len(s: Seq<bool>, v: Seq<u8>)
    requires
        s.len() + 8 * v.len() <= BITS_CAPACITY,
    ensures
        with_bytes(s, v).len() == s.len() + 8 * v.len(),
        v.len() > 0 ==> with_bytes(s, v) == lsb_bits(v[0]) + with_bytes(s, v.drop_first()),
    decreases v.len(),
{
    if v.len() > 0 {
        lemma_with_bytes_len(s, v.drop_first());
    }
}

/// Bytes loaded for reading come back out in order: after the bytes `v`
/// are loaded in front of any bits `s` (as a read-only register's read
/// cycle loads what its populator returned, and as writing `v` last byte
/// first into an emptied writeable register does), reading `v.len()` bytes
/// gives exactly `v` and leaves `s`.
pub proof fn lemma_loaded_bytes_read_back(s: Seq<bool>, v: Seq<u8>)
    requires
        s.len() + 8 * v.len() <= BITS_CAPACITY,
    ensures
        drained(with_bytes(s, v), v.len()) == v,
        drained_rest(with_bytes(s, v), v.len()) == s,
    decreases v.len(),
{
    if v.len() > 0 {
        let w = with_bytes(s, v);
        let rest = with_bytes(s, v.drop_first());
        lemma_with_bytes_len(s, v);
        lemma_lsb_bits_value(v[0]);
        assert(w.take(8) =~= lsb_bits(v[0]));
        assert(w.skip(8) =~= rest);
        assert(front_byte(w) == v[0]);
        assert(front_rest(w) == rest);
        lemma_loaded_bytes_read_back(s, v.drop_first());
        assert(drained(w, v.len()) =~= seq![v[0]] + v.drop_first());
        assert(seq![v[0]] + v.drop_first() =~= v);
    } else {
        assert(drained(with_bytes(s, v), 0) =~= v);
    }
}

/// Round trip of a writeable register: a value committed by writing `v`
/// last byte first reads back as `v`, leaving the front buffer exhausted.
/// `finish_read` puts the committed bits back in front, so each later read
/// cycle without a write in between starts from the same bits.
pub proof fn lemma_write_read_round_trip(v: Seq<u8>)
    requires
        8 * v.len() <= BITS_CAPACITY,
    ensures
        drained(with_bytes(Seq::<bool>::empty(), v), v.len()) == v,
        drained_rest(with_bytes(Seq::<bool>::empty(), v), v.len()) == Seq::<bool>::empty(),
{
    lemma_loaded_bytes_read_back(Seq::<bool>::empty(), v);
}

/// A read-only register's cycles reflect its populator: the backing buffer
/// of a read-only register stays empty, so each cycle starts from an empty
/// front and reads back exactly what the populator returned for it. Two
/// cycles read identical bytes when, and only when, the populator returned
/// identical bytes.
pub proof fn lemma_read_only_cycles(first: Seq<u8>, second: Seq<u8>)
    requires
        8 * first.len() <= BITS_CAPACITY,
        8 * second.len() <= BITS_CAPACITY,
    ensures
        drained(with_bytes(Seq::<bool>::empty(), first), first.len()) == first,
        drained(with_bytes(Seq::<bool>::empty(), second), second.len()) == second,
        (drained(with_bytes(Seq::<bool>::empty(), first), first.len()) == drained(
            with_bytes(Seq::<bool>::empty(), second),
            second.len(),
        )) <==> first == second,
{
    lemma_loaded_bytes_read_back(Seq::<bool>::empty(), first);
    lemma_loaded_bytes_read_back(Seq::<bool>::empty(), second);
}

/// A read cycle of a read-only register reflects its populator at that
/// moment: on a register whose last cycle was finished (`finish_read` leaves
/// the front equal to the backing buffer, which a read-only register keeps
/// empty), `start_read` loads what the populator returned, and reading that
/// many bytes gives exactly those bytes, in order, and exhausts the register.
pub proof fn lemma_read_cycle_reflects_populator(before: Register, after: Register)
    requires
        before.wf(),
        before.is_read_only(),
        before.front() == before.backing(),
        after.front() == with_bytes(before.front(), after.last_loaded()),
        8 * after.last_loaded().len() <= BITS_CAPACITY,
    ensures
        drained(after.front(), after.last_loaded().len()) == after.last_loaded(),
        drained_rest(after.front(), after.last_loaded().len()) == Seq::<bool>::empty(),
{
    lemma_loaded_bytes_read_back(Seq::<bool>::empty(), after.last_loaded());
}

pub struct Register {
    buffer: Port,
    populator: Option<Box<dyn Populate>>,
    backing: Port,
    /// What the populator returned when the last read cycle began.
    loaded: Ghost<Seq<u8>>,
}

impl Register {
    /// The bits that reads take, the one written last at index 0.
    pub closed spec fn front(&self) -> Seq<bool> {
        self.buffer@
    }

    /// The last committed value, as bits in the same order.
    pub closed spec fn backing(&self) -> Seq<bool> {
        self.backing@
    }

    pub closed spec fn is_read_only(&self) -> bool {
        self.populator.is_some()
    }

    /// The bytes the populator returned at the start of the last read
    /// cycle of a read-only register.
    pub closed spec fn last_loaded(&self) -> Seq<u8> {
        self.loaded@
    }

    /// Writes never reach a read-only register, so its backing buffer stays
    /// empty.
    pub open spec fn wf(&self) -> bool {
        self.is_read_only() ==> self.backing() == Seq::<bool>::empty()
    }

    pub fn new_read_only(populator: Box<dyn Populate>) -> (r: Self)
        ensures
            r.wf(),
            r.is_read_only(),
            r.front() == Seq::<bool>::empty(),
            r.backing() == Seq::<bool>::empty(),
    {
        Register {
            buffer: Port::new(),
            populator: Some(populator),
            backing: Port::new(),
            loaded: Ghost(Seq::<u8>::empty()),
        }
    }

    /// A writeable register that holds the byte `0x00`.
    pub fn new_writeable() -> (r: Self)
        ensures
            r.wf(),
            !r.is_read_only(),
            r.front() == with_byte(Seq::<bool>::empty(), 0),
            r.backing() == with_byte(Seq::<bool>::empty(), 0),
    {
        let mut value = Register {
            buffer: Port::new(),
            populator: None,
            backing: Port::new(),
            loaded: Ghost(Seq::<u8>::empty()),
        };
        value.backing.write_byte(0x00);
        value.refill_buffers();
        value
    }

    /// Begins a write: a writeable register drops its content.
    pub fn start_write(&mut self)
        ensures
            final(self).last_loaded() == old(self).last_loaded(),
            old(self).wf() ==> final(self).wf(),
            final(self).is_read_only() == old(self).is_read_only(),
            old(self).is_read_only() ==> final(self).front() == old(self).front()
                && final(self).backing() == old(self).backing(),
            !old(self).is_read_only() ==> final(self).front() == Seq::<bool>::empty()
                && final(self).backing() == Seq::<bool>::empty(),
    {
        if self.populator.is_some() {
            return ;
        }
        self.buffer.clear();
        self.backing.clear();
    }

    /// Whether the front buffer is exhausted.
    pub fn is_done(&self) -> (r: bool)
        ensures
            r == (self.front().len() == 0),
    {
        self.buffer.bits_read() == 0
    }

    /// Writes the bits of `value`, most significant first; a read-only
    /// register ignores it.
    pub fn write_byte(&mut self, value: u8)
        ensures
            final(self).last_loaded() == old(self).last_loaded(),
            old(self).wf() ==> final(self).wf(),
            final(self).is_read_only() == old(self).is_read_only(),
            old(self).is_read_only() ==> final(self).front() == old(self).front()
                && final(self).backing() == old(self).backing(),
            !old(self).is_read_only() ==> final(self).front() == with_byte(old(self).front(), value)
                && final(self).backing() == with_byte(old(self).backing(), value),
    {
        if self.populator.is_none() {
            self.backing.write_byte(value);
            self.buffer.write_byte(value);
        }
    }

    /// Writes one bit; a read-only register ignores it.
    pub fn write(&mut self, bit: bool)
        ensures
            final(self).last_loaded() == old(self).last_loaded(),
            old(self).wf() ==> final(self).wf(),
            final(self).is_read_only() == old(self).is_read_only(),
            old(self).is_read_only() ==> final(self).front() == old(self).front()
                && final(self).backing() == old(self).backing(),
            !old(self).is_read_only() ==> final(self).front() == with_bit(old(self).front(), bit)
                && final(self).backing() == with_bit(old(self).backing(), bit),
    {
        if self.populator.is_none() {
            self.backing.write(bit);
            self.buffer.write(bit);
        }
    }

    /// Begins a read cycle: a read-only register loads what its populator
    /// returns now; a writeable one already shows its content.
    pub fn start_read(&mut self)
        ensures
            old(self).wf() ==> final(self).wf(),
            final(self).is_read_only() == old(self).is_read_only(),
            final(self).backing() == old(self).backing(),
            old(self).is_read_only() ==> final(self).front() == with_bytes(
                old(self).front(),
                final(self).last_loaded(),
            ),
            !old(self).is_read_only() ==> final(self).front() == old(self).front(),
    {
        if let Some(p) = &self.populator {
            let values = p.populate();
            self.load_values(&values);
            self.loaded = Ghost(values@);
        }
    }

    /// Loads `values` into the front buffer as a read-only register's read
    /// cycle does with what its populator returned.
    pub fn load_values(&mut self, values: &Vec<u8>)
        ensures
            final(self).last_loaded() == old(self).last_loaded(),
            old(self).wf() ==> final(self).wf(),
            final(self).is_read_only() == old(self).is_read_only(),
            final(self).backing() == old(self).backing(),
            final(self).front() == with_bytes(old(self).front(), values@),
    {
        load_bytes(&mut self.buffer, values);
    }

    /// Takes the next bit; `None` when the front buffer is exhausted.
    pub fn read_bit(&mut self) -> (r: Option<bool>)
        ensures
            final(self).last_loaded() == old(self).last_loaded(),
            old(self).wf() ==> final(self).wf(),
            final(self).is_read_only() == old(self).is_read_only(),
            final(self).backing() == old(self).backing(),
            old(self).front().len() == 0 ==> r.is_none() && final(self).front() == old(
                self,
            ).front(),
            old(self).front().len() > 0 ==> r == Some(old(self).front().last())
                && final(self).front() == old(self).front().drop_last(),
    {
        if self.buffer.bits_read() == 0 {
            None
        } else {
            self.buffer.read()
        }
    }

    /// Takes the next byte; an exhausted front buffer reads as `0x00`, as
    /// undefined bus data.
    pub fn read_byte(&mut self) -> (r: Option<u8>)
        ensures
            final(self).last_loaded() == old(self).last_loaded(),
            old(self).wf() ==> final(self).wf(),
            final(self).is_read_only() == old(self).is_read_only(),
            final(self).backing() == old(self).backing(),
            old(self).front().len() == 0 ==> r == Some(0u8) && final(self).front() == old(
                self,
            ).front(),
            old(self).front().len() > 0 ==> r == Some(
                lsb_value(old(self).front().take(byte_take(old(self).front()))) as u8,
            ) && final(self).front() == old(self).front().skip(byte_take(old(self).front())),
    {
        if self.buffer.bits_read() == 0 {
            Some(0x00)
        } else {
            self.buffer.read_byte()
        }
    }

    /// Makes the front buffer a copy of the backing buffer again.
    fn refill_buffers(&mut self)
        ensures
            final(self).last_loaded() == old(self).last_loaded(),
            final(self).is_read_only() == old(self).is_read_only(),
            final(self).backing() == old(self).backing(),
            final(self).front() == old(self).backing(),
    {
        self.buffer.clear();
        let mut fresh = Port::new();
        let ghost b = self.backing@;
        let _ = self.backing.bits_read();
        while self.backing.bits_read() != 0
            invariant
                b.len() <= BITS_CAPACITY,
                self.backing@.len() <= b.len(),
                self.backing@ == b.take(self.backing@.len() as int),
                fresh@ == b.skip(self.backing@.len() as int),
                self.buffer@ == fresh@,
                self.populator == old(self).populator,
                self.loaded == old(self).loaded,
            decreases self.backing@.len(),
        {
            let ghost m = self.backing@.len() as int;
            let bit = self.backing.read().unwrap();
            fresh.write(bit);
            self.buffer.write(bit);
            assert(fresh@ =~= b.skip(m - 1));
            assert(self.backing@ =~= b.take(m - 1));
        }
        assert(fresh@ =~= b);
        self.backing = fresh;
    }

    /// Ends a read cycle: the front buffer shows the committed value again.
    pub fn finish_read(&mut self)
        ensures
            final(self).last_loaded() == old(self).last_loaded(),
            old(self).wf() ==> final(self).wf(),
            final(self).is_read_only() == old(self).is_read_only(),
            final(self).backing() == old(self).backing(),
            final(self).front() == old(self).backing(),
    {
        self.refill_buffers();
    }
}

/// Writes `values` into `port`, last byte first.
fn load_bytes(port: &mut Port, values: &Vec<u8>)
    ensures
        final(port)@ == with_bytes(old(port)@, values@),
{
    let n = values.len();
    let mut i: usize = n;
    while i > 0
        invariant
            n == values@.len(),
            i <= n,
            port@ == with_bytes(old(port)@, values@.subrange(i as int, n as int)),
        decreases i,
    {
        i = i - 1;
        port.write_byte(values[i]);
        assert(values@.subrange(i as int, n as int).drop_first() =~= values@.subrange(
            i + 1,
            n as int,
        ));
    }
    assert(values@.subrange(0, n as int) =~= values@);
}

} // verus!
