//! An ordered buffer of bits, stored in a `bitvec` bit-vector.
use bitvec::field::BitField;
use bitvec::vec::BitVec;
use vstd::prelude::*;

verus! {

/// Holds a `bitvec::vec::BitVec` (of `usize` elements, `Lsb0` order).
#[verifier::external_body]
pub struct Bits {
    inner: BitVec,
}

/// The bits a bit-vector holds, index 0 first.
pub uninterp spec fn bits_of(v: Bits) -> Seq<bool>;

/// The most bits a bit-vector can hold, `usize::MAX >> 3`
/// (`BitSpan::REGION_MAX_BITS` of `bitvec`): `push` and `insert` panic
/// when a length beyond it would result.
pub const BITS_CAPACITY: usize = usize::MAX / 8;

/// Every target has room for at least `0x1fff_ffff` bits.
pub proof fn lemma_capacity()
    ensures
        BITS_CAPACITY >= 0x1fff_ffff,
{
    assert(usize::MAX >= 0xffff_ffff);
}

/// Relies on `BitVec::new`: an empty bit-vector.
#[verifier::external_body]
fn bits_new() -> (r: Bits)
    ensures
        bits_of(r) == Seq::<bool>::empty(),
    no_unwind
{
    Bits { inner: BitVec::new() }
}

/// Relies on `BitVec::len`: the number of bits held.
#[verifier::external_body]
fn bits_len(v: &Bits) -> (r: usize)
    ensures
        r == bits_of(*v).len(),
    no_unwind
{
    v.inner.len()
}

/// Relies on `BitVec::insert`: the bit goes in at `index`, the later bits
/// move up by one.
#[verifier::external_body]
fn bits_insert(v: &mut Bits, index: usize, bit: bool)
    requires
        index <= bits_of(*old(v)).len(),
        bits_of(*old(v)).len() < BITS_CAPACITY,
    ensures
        bits_of(*final(v)) == bits_of(*old(v)).insert(index as int, bit),
    no_unwind
{
    v.inner.insert(index, bit)
}

/// Relies on `BitVec::pop`: removes and returns the last bit, `None` when
/// empty.
#[verifier::external_body]
fn bits_pop(v: &mut Bits) -> (r: Option<bool>)
    ensures
        bits_of(*old(v)).len() == 0 ==> r.is_none() && bits_of(*final(v)) == bits_of(*old(v)),
        bits_of(*old(v)).len() > 0 ==> r == Some(bits_of(*old(v)).last()) && bits_of(*final(v))
            == bits_of(*old(v)).drop_last(),
    no_unwind
{
    v.inner.pop()
}

/// Relies on `BitVec::clear`: no bit is left.
#[verifier::external_body]
fn bits_clear(v: &mut Bits)
    ensures
        bits_of(*final(v)) == Seq::<bool>::empty(),
    no_unwind
{
    v.inner.clear()
}

/// Relies on `BitVec::split_off`: the bits from `at` on move to the result.
#[verifier::external_body]
fn bits_split_off(v: &mut Bits, at: usize) -> (r: Bits)
    requires
        at <= bits_of(*old(v)).len(),
    ensures
        bits_of(*final(v)) == bits_of(*old(v)).take(at as int),
        bits_of(r) == bits_of(*old(v)).skip(at as int),
    no_unwind
{
    Bits { inner: v.inner.split_off(at) }
}

/// Relies on `BitField::load_le::<u8>` of an `Lsb0` bit-slice: bit `i` of
/// the result is the bit at index `i`, on every target.
#[verifier::external_body]
fn bits_load_u8(v: &Bits) -> (r: u8)
    requires
        1 <= bits_of(*v).len() <= 8,
    ensures
        r as nat == lsb_value(bits_of(*v)),
    no_unwind
{
    v.inner.load_le::<u8>()
}

/// The number whose bit `i` is `s[i]`.
pub open spec fn lsb_value(s: Seq<bool>) -> nat
    decreases s.len(),
{
    if s.len() == 0 {
        0
    } else {
        (if s[0] { 1nat } else { 0nat }) + 2 * lsb_value(s.drop_first())
    }
}

} // verus!

verus! {

/// Bit `i` of `b`, counting from the least significant bit.
pub open spec fn bit_of(b: u8, i: int) -> bool {
    (b >> (i as u8)) & 1u8 == 1u8
}

/// The eight bits of `b`, least significant first.
pub open spec fn lsb_bits(b: u8) -> Seq<bool> {
    Seq::new(8, |i: int| bit_of(b, i))
}

/// The eight bits of `b`, most significant first.
pub open spec fn msb_bits(b: u8) -> Seq<bool> {
    Seq::new(8, |i: int| bit_of(b, 7 - i))
}

/// Packing the eight bits of a byte gives the byte back.
pub proof fn lemma_lsb_bits_value(b: u8)
    ensures
        lsb_value(lsb_bits(b)) == b as nat,
{
    let s = lsb_bits(b);
    reveal_with_fuel(lsb_value, 9);
    assert(s.drop_first().drop_first().drop_first().drop_first().drop_first().drop_first()
        .drop_first().drop_first().len() == 0);
    assert(s.drop_first()[0] == s[1]);
    assert(s.drop_first().drop_first()[0] == s[2]);
    assert(s.drop_first().drop_first().drop_first()[0] == s[3]);
    assert(s.drop_first().drop_first().drop_first().drop_first()[0] == s[4]);
    assert(s.drop_first().drop_first().drop_first().drop_first().drop_first()[0] == s[5]);
    assert(s.drop_first().drop_first().drop_first().drop_first().drop_first().drop_first()[0]
        == s[6]);
    assert(s.drop_first().drop_first().drop_first().drop_first().drop_first().drop_first()
        .drop_first()[0] == s[7]);
    let v = |c: bool| if c { 1nat } else { 0nat };
    assert(b as nat == v(bit_of(b, 0)) + 2 * (v(bit_of(b, 1)) + 2 * (v(bit_of(b, 2)) + 2 * (v(
        bit_of(b, 3),
    ) + 2 * (v(bit_of(b, 4)) + 2 * (v(bit_of(b, 5)) + 2 * (v(bit_of(b, 6)) + 2 * (v(
        bit_of(b, 7),
    ) + 2 * 0)))))))) by {
        let b0 = (b >> 0u8) & 1u8;
        let b1 = (b >> 1u8) & 1u8;
        let b2 = (b >> 2u8) & 1u8;
        let b3 = (b >> 3u8) & 1u8;
        let b4 = (b >> 4u8) & 1u8;
        let b5 = (b >> 5u8) & 1u8;
        let b6 = (b >> 6u8) & 1u8;
        let b7 = (b >> 7u8) & 1u8;
        assert(b == b0 + 2 * (b1 + 2 * (b2 + 2 * (b3 + 2 * (b4 + 2 * (b5 + 2 * (b6 + 2 * b7)))))))
            by (bit_vector)
            requires
                b0 == (b >> 0u8) & 1u8,
                b1 == (b >> 1u8) & 1u8,
                b2 == (b >> 2u8) & 1u8,
                b3 == (b >> 3u8) & 1u8,
                b4 == (b >> 4u8) & 1u8,
                b5 == (b >> 5u8) & 1u8,
                b6 == (b >> 6u8) & 1u8,
                b7 == (b >> 7u8) & 1u8,
        ;
        assert(b0 == 0 || b0 == 1) by (bit_vector) requires b0 == (b >> 0u8) & 1u8;
        assert(b1 == 0 || b1 == 1) by (bit_vector) requires b1 == (b >> 1u8) & 1u8;
        assert(b2 == 0 || b2 == 1) by (bit_vector) requires b2 == (b >> 2u8) & 1u8;
        assert(b3 == 0 || b3 == 1) by (bit_vector) requires b3 == (b >> 3u8) & 1u8;
        assert(b4 == 0 || b4 == 1) by (bit_vector) requires b4 == (b >> 4u8) & 1u8;
        assert(b5 == 0 || b5 == 1) by (bit_vector) requires b5 == (b >> 5u8) & 1u8;
        assert(b6 == 0 || b6 == 1) by (bit_vector) requires b6 == (b >> 6u8) & 1u8;
        assert(b7 == 0 || b7 == 1) by (bit_vector) requires b7 == (b >> 7u8) & 1u8;
    }
}

/// The bits of a byte, most significant first.
pub fn byte_to_bits(val: u8) -> (r: Vec<bool>)
    ensures
        r@ == msb_bits(val),
{
    let mut r: Vec<bool> = Vec::new();
    let mut i: u8 = 0;
    while i < 8
        invariant
            i <= 8,
            r@ == msb_bits(val).take(i as int),
        decreases 8 - i,
    {
        let shift: u8 = 7 - i;
        r.push((val >> shift) & 1 == 1);
        i = i + 1;
        assert(r@ =~= msb_bits(val).take(i as int));
    }
    assert(r@ =~= msb_bits(val));
    r
}

/// A buffer of bits: bits go in one at a time and come out in the order they
/// went in; a byte read takes the bits written last.
///
/// Its view lists the bits held, the one written last at index 0.
pub struct Port {
    buffer: Bits,
}

impl Port {
    #[verifier::type_invariant]
    spec fn within_capacity(&self) -> bool {
        bits_of(self.buffer).len() <= BITS_CAPACITY
    }
}

impl View for Port {
    type V = Seq<bool>;

    closed spec fn view(&self) -> Seq<bool> {
        bits_of(self.buffer)
    }
}

/// The bits of `s` after `bit` is written: it goes in front, unless the port
/// is full, in which case it is dropped.
pub open spec fn with_bit(s: Seq<bool>, bit: bool) -> Seq<bool> {
    if s.len() < BITS_CAPACITY {
        seq![bit] + s
    } else {
        s
    }
}

/// The bits of `s` after byte `b` is written: its bits go in front, least
/// significant first, unless the port has no room for all eight.
pub open spec fn with_byte(s: Seq<bool>, b: u8) -> Seq<bool> {
    if s.len() + 8 <= BITS_CAPACITY {
        lsb_bits(b) + s
    } else {
        s
    }
}

/// How many bits a byte read takes from `s`.
pub open spec fn byte_take(s: Seq<bool>) -> int {
    if s.len() < 8 {
        s.len() as int
    } else {
        8
    }
}

impl Port {
    pub fn new() -> (r: Self)
        ensures
            r@ == Seq::<bool>::empty(),
        no_unwind
    {
        Port { buffer: bits_new() }
    }

    pub fn from_byte(value: u8) -> (r: Self)
        ensures
            r@ == lsb_bits(value),
    {
        let mut obj = Self::new();
        obj.write_byte(value);
        assert(obj@ =~= lsb_bits(value));
        obj
    }

    /// Takes the (up to) eight bits written last, the last one as the least
    /// significant bit; `None` when the port is empty.
    pub fn read_byte(&mut self) -> (r: Option<u8>)
        ensures
            old(self)@.len() == 0 ==> r.is_none() && final(self)@ == old(self)@,
            old(self)@.len() > 0 ==> r == Some(lsb_value(old(self)@.take(byte_take(old(self)@))) as u8)
                && final(self)@ == old(self)@.skip(byte_take(old(self)@)),
        no_unwind
    {
        proof {
            use_type_invariant(&*self);
        }
        let len = bits_len(&self.buffer);
        if len == 0 {
            return None;
        }
        let k: usize = if len < 8 { len } else { 8 };
        let rest = bits_split_off(&mut self.buffer, k);
        let value = bits_load_u8(&self.buffer);
        self.buffer = rest;
        Some(value)
    }

    /// Writes the bits of `b`, most significant first.
    pub fn write_byte(&mut self, b: u8)
        ensures
            final(self)@ == with_byte(old(self)@, b),
    {
        if bits_len(&self.buffer) > BITS_CAPACITY - 8 {
            return;
        }
        let bits = byte_to_bits(b);
        let ghost start = self@;
        let mut i: usize = 0;
        while i < 8
            invariant
                i <= 8,
                bits@ == msb_bits(b),
                start.len() + 8 <= BITS_CAPACITY,
                self@ == Seq::new(i as nat, |j: int| bit_of(b, 8 - i + j)) + start,
            decreases 8 - i,
        {
            self.write(bits[i]);
            i = i + 1;
            assert(self@ =~= Seq::new(i as nat, |j: int| bit_of(b, 8 - i + j)) + start);
        }
        assert(self@ =~= lsb_bits(b) + start);
    }

    /// Takes the bit written first; `None` when the port is empty.
    pub fn read(&mut self) -> (r: Option<bool>)
        ensures
            old(self)@.len() == 0 ==> r.is_none() && final(self)@ == old(self)@,
            old(self)@.len() > 0 ==> r == Some(old(self)@.last()) && final(self)@
                == old(self)@.drop_last(),
        no_unwind
    {
        proof {
            use_type_invariant(&*self);
        }
        bits_pop(&mut self.buffer)
    }

    /// Writes one bit; a full port drops it.
    pub fn write(&mut self, bit: bool)
        ensures
            final(self)@ == with_bit(old(self)@, bit),
        no_unwind
    {
        if bits_len(&self.buffer) < BITS_CAPACITY {
            bits_insert(&mut self.buffer, 0, bit);
            assert(final(self)@ =~= with_bit(old(self)@, bit));
        }
    }

    /// The number of bits held, which never exceeds `BITS_CAPACITY`.
    pub fn bits_read(&self) -> (r: usize)
        ensures
            r == self@.len(),
            r <= BITS_CAPACITY,
        no_unwind
    {
        proof {
            use_type_invariant(self);
        }
        bits_len(&self.buffer)
    }

    pub fn clear(&mut self)
        ensures
            final(self)@ == Seq::<bool>::empty(),
        no_unwind
    {
        bits_clear(&mut self.buffer)
    }
}

impl Default for Port {
    fn default() -> (r: Self)
        ensures
            r@ == Seq::<bool>::empty(),
    {
        Self::new()
    }
}

} // verus!
