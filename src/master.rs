//! The I2C master: block reads and writes as sequences of bus operations.
use crate::bus::{
    bit_write_failed, bit_written, byte_poll, byte_write_outcome, byte_written, I2CBus,
};
use crate::device::{BusError, I2CSlave, LineCondition};
use vstd::prelude::*;

verus! {

/// The bytes a block write puts on the bus, with their line conditions:
/// the address with R/W clear, the register, then the payload last byte
/// first, the final one (the payload's first) with Stop.
pub open spec fn write_frames(device_addr: u8, reg_addr: u8, bytes: Seq<u8>) -> Seq<(u8, LineCondition)> {
    let n = bytes.len() as int;
    seq![((device_addr << 1u8) as u8, LineCondition::Start), (reg_addr, LineCondition::InProgress)]
        + Seq::new(
        n as nat,
        |i: int|
            (bytes[n - 1 - i], if i == n - 1 {
                LineCondition::Stop
            } else {
                LineCondition::InProgress
            }),
    )
}

/// The three address bytes of a block read.
pub open spec fn read_frames(device_addr: u8, reg_addr: u8) -> Seq<(u8, LineCondition)> {
    seq![
        ((device_addr << 1u8) as u8, LineCondition::Start),
        (reg_addr, LineCondition::InProgress),
        (((device_addr << 1u8) | 1u8) as u8, LineCondition::Start),
    ]
}

/// `t` runs from one bus state to the next through the byte writes `f`.
pub open spec fn writes_chain(t: Seq<Seq<I2CSlave>>, f: Seq<(u8, LineCondition)>) -> bool {
    &&& t.len() == f.len() + 1
    &&& forall|i: int| 0 <= i < f.len() ==> #[trigger] byte_written(t[i], t[i + 1], f[i].0, f[i].1)
}

/// `t` ran through the first writes of `f` from `pre`, and the next one
/// ended in the error `r`, leaving `post`.
pub open spec fn failed_writing(t: Seq<Seq<I2CSlave>>, f: Seq<(u8, LineCondition)>, pre: Seq<I2CSlave>, post: Seq<I2CSlave>, r: Result<(), BusError>) -> bool {
    let k = t.len() - 1;
    &&& 0 <= k < f.len()
    &&& writes_chain(t, f.take(k))
    &&& t[0] == pre
    &&& byte_write_outcome(t.last(), post, f[k].0, f[k].1, r)
}

/// After the address bytes, `t` reads the bytes `v`, each followed by an
/// acknowledgement, or a NACK with Stop after the last.
pub open spec fn reads_chain(t: Seq<Seq<I2CSlave>>, v: Seq<u8>) -> bool {
    &&& t.len() == 4 + 2 * v.len()
    &&& forall|k: int| 0 <= k < v.len() ==> #[trigger] polled(t, k, v)
    &&& forall|k: int| 0 <= k < v.len() ==> #[trigger] acked(t, k, v.len() as int)
}

/// Step `k` of a read gave the byte `v[k]`.
pub open spec fn polled(t: Seq<Seq<I2CSlave>>, k: int, v: Seq<u8>) -> bool {
    byte_poll(t[3 + 2 * k], t[4 + 2 * k], Ok(Some(v[k])))
}

/// Byte `k` of `n` read was answered: ACK before the last, NACK with Stop
/// after it.
pub open spec fn acked(t: Seq<Seq<I2CSlave>>, k: int, n: int) -> bool {
    bit_written(
        t[4 + 2 * k],
        t[5 + 2 * k],
        k == n - 1,
        if k == n - 1 {
            LineCondition::Stop
        } else {
            LineCondition::InProgress
        },
    )
}

/// A block read of `n` bytes from `pre` that ended in the error `r`,
/// leaving `post`: `t` ran through the steps that succeeded, and the next
/// one failed. A poll with no driver is a missing response.
pub open spec fn failed_reading(t: Seq<Seq<I2CSlave>>, v: Seq<u8>, n: int, frames: Seq<(u8, LineCondition)>, pre: Seq<I2CSlave>, post: Seq<I2CSlave>, r: Result<Vec<u8>, BusError>) -> bool {
    let k = v.len() as int;
    ||| exists|e: Result<(), BusError>| {
        &&& #[trigger] failed_writing(t, frames, pre, post, e)
        &&& e is Err
        &&& r == Err::<Vec<u8>, BusError>(e->Err_0)
    }
    ||| {
        &&& 4 <= t.len()
        &&& t[0] == pre
        &&& writes_chain(t.take(4), frames)
        &&& k <= n
        &&& forall|i: int| 0 <= i < k ==> #[trigger] polled(t, i, v)
        &&& if t.len() == 4 + 2 * k {
            &&& k < n
            &&& forall|i: int| 0 <= i < k ==> #[trigger] acked(t, i, n)
            &&& exists|pr: Result<Option<u8>, BusError>| {
                &&& #[trigger] byte_poll(t.last(), post, pr)
                &&& match pr {
                    Ok(Some(_)) => false,
                    Ok(None) => r == Err::<Vec<u8>, BusError>(BusError::NoResponse),
                    Err(x) => r == Err::<Vec<u8>, BusError>(x),
                }
            }
        } else {
            &&& t.len() == 3 + 2 * k
            &&& 0 < k
            &&& forall|i: int| 0 <= i < k - 1 ==> #[trigger] acked(t, i, n)
            &&& r is Err
            &&& bit_write_failed(
                t.last(),
                post,
                k - 1 == n - 1,
                if k - 1 == n - 1 {
                    LineCondition::Stop
                } else {
                    LineCondition::InProgress
                },
                Err::<(), BusError>(r->Err_0),
            )
        }
    }
}

pub struct Master {
    bus: I2CBus,
}

impl Master {
    pub closed spec fn devs(&self) -> Seq<I2CSlave> {
        self.bus.devs()
    }

    pub closed spec fn wf(&self) -> bool {
        self.bus.wf()
    }

    pub fn new() -> (r: Self)
        ensures
            r.wf(),
            r.devs() == Seq::<I2CSlave>::empty(),
    {
        Master { bus: I2CBus::new() }
    }

    pub fn add_device(&mut self, device: I2CSlave)
        requires
            old(self).wf(),
            device.wf(),
        ensures
            final(self).wf(),
            final(self).devs() == old(self).devs().push(device),
    {
        self.bus.add_device(device);
    }

    /// Writes `bytes` to register `reg_addr` of device `device_addr`. Both
    /// addresses must be 7-bit and the payload non-empty; these caller errors
    /// are reported before any bus traffic.
    pub fn write_block(&mut self, device_addr: u8, reg_addr: u8, bytes: Vec<u8>) -> (r: Result<(), BusError>)
        requires
            old(self).wf(),
        ensures
            (device_addr >= 0x80 || reg_addr >= 0x80) ==> r == Err::<(), BusError>(BusError::UnsupportedAddress)
                && final(self).devs() == old(self).devs() && final(self).wf(),
            (device_addr < 0x80 && reg_addr < 0x80 && bytes@.len() == 0) ==> r == Err::<(), BusError>(BusError::EmptyWrite)
                && final(self).devs() == old(self).devs() && final(self).wf(),
            (device_addr < 0x80 && reg_addr < 0x80 && bytes@.len() > 0) ==> r != Err::<(), BusError>(BusError::UnsupportedAddress)
                && r != Err::<(), BusError>(BusError::EmptyWrite),
            r is Ok ==> final(self).wf() && exists|t: Seq<Seq<I2CSlave>>| {
                &&& #[trigger] writes_chain(t, write_frames(device_addr, reg_addr, bytes@))
                &&& t[0] == old(self).devs()
                &&& t.last() == final(self).devs()
            },
            (device_addr < 0x80 && reg_addr < 0x80 && bytes@.len() > 0 && r is Err) ==> exists|t: Seq<Seq<I2CSlave>>|
                #[trigger] failed_writing(t, write_frames(device_addr, reg_addr, bytes@), old(self).devs(), final(self).devs(), r),
    {
        if device_addr & 0x80 != 0 || reg_addr & 0x80 != 0 {
            assert(device_addr >= 0x80 || reg_addr >= 0x80) by (bit_vector)
                requires device_addr & 0x80 != 0 || reg_addr & 0x80 != 0;
            return Err(BusError::UnsupportedAddress);
        }
        assert(device_addr < 0x80 && reg_addr < 0x80) by (bit_vector)
            requires device_addr & 0x80 == 0 && reg_addr & 0x80 == 0;
        if bytes.len() == 0 {
            return Err(BusError::EmptyWrite);
        }
        let ghost f = write_frames(device_addr, reg_addr, bytes@);
        let ghost mut t: Seq<Seq<I2CSlave>> = seq![self.devs()];
        let res = self.bus.write_byte(device_addr << 1, LineCondition::Start);
        if res.is_err() {
            assert(writes_chain(t, f.take(0)));
            assert(failed_writing(t, f, old(self).devs(), self.devs(), res));
            return res;
        }
        proof { t = t.push(self.devs()); }
        let res = self.bus.write_byte(reg_addr, LineCondition::InProgress);
        if res.is_err() {
            assert(writes_chain(t, f.take(1)));
            assert(failed_writing(t, f, old(self).devs(), self.devs(), res));
            return res;
        }
        proof { t = t.push(self.devs()); }
        let n = bytes.len();
        let mut i: usize = n;
        while i > 0
            invariant
                n == bytes@.len(),
                n > 0,
                i <= n,
                device_addr < 0x80 && reg_addr < 0x80,
                f == write_frames(device_addr, reg_addr, bytes@),
                self.wf(),
                t.len() == 3 + n - i,
                t[0] == old(self).devs(),
                t.last() == self.devs(),
                forall|k: int| 0 <= k < t.len() - 1 ==> #[trigger] byte_written(t[k], t[k + 1], f[k].0, f[k].1),
            decreases i,
        {
            let res = if i == 1 {
                self.bus.write_byte(bytes[i - 1], LineCondition::Stop)
            } else {
                self.bus.write_byte(bytes[i - 1], LineCondition::InProgress)
            };
            proof {
                assert(f[2 + n - i].0 == bytes@[i - 1]);
            }
            if res.is_err() {
                assert(writes_chain(t, f.take(t.len() - 1)));
                assert(failed_writing(t, f, old(self).devs(), self.devs(), res));
                return res;
            }
            proof {
                t = t.push(self.devs());
            }
            i = i - 1;
        }
        assert(writes_chain(t, f));
        Ok(())
    }

    /// Reads `bytes` bytes from register `reg_addr` of device `device_addr`.
    pub fn read_block(&mut self, device_addr: u8, reg_addr: u8, bytes: u8) -> (r: Result<Vec<u8>, BusError>)
        requires
            old(self).wf(),
        ensures
            (device_addr >= 0x80 || reg_addr >= 0x80) ==> r == Err::<Vec<u8>, BusError>(BusError::UnsupportedAddress)
                && final(self).devs() == old(self).devs() && final(self).wf(),
            (device_addr < 0x80 && reg_addr < 0x80) ==> r != Err::<Vec<u8>, BusError>(BusError::UnsupportedAddress)
                && r != Err::<Vec<u8>, BusError>(BusError::EmptyWrite),
            r matches Ok(v) ==> final(self).wf() && v@.len() == bytes && exists|t: Seq<Seq<I2CSlave>>| {
                &&& #[trigger] reads_chain(t, v@)
                &&& writes_chain(t.take(4), read_frames(device_addr, reg_addr))
                &&& t[0] == old(self).devs()
                &&& t.last() == final(self).devs()
            },
            (device_addr < 0x80 && reg_addr < 0x80 && r is Err) ==> exists|t: Seq<Seq<I2CSlave>>, v: Seq<u8>|
                #[trigger] failed_reading(t, v, bytes as int, read_frames(device_addr, reg_addr), old(self).devs(), final(self).devs(), r),
    {
        if device_addr & 0x80 != 0 || reg_addr & 0x80 != 0 {
            assert(device_addr >= 0x80 || reg_addr >= 0x80) by (bit_vector)
                requires device_addr & 0x80 != 0 || reg_addr & 0x80 != 0;
            return Err(BusError::UnsupportedAddress);
        }
        assert(device_addr < 0x80 && reg_addr < 0x80) by (bit_vector)
            requires device_addr & 0x80 == 0 && reg_addr & 0x80 == 0;
        let ghost frames = read_frames(device_addr, reg_addr);
        let ghost mut t: Seq<Seq<I2CSlave>> = seq![self.devs()];
        let res = self.bus.write_byte(device_addr << 1, LineCondition::Start);
        if let Err(e) = res {
            assert(writes_chain(t, frames.take(0)));
            assert(failed_writing(t, frames, old(self).devs(), self.devs(), res));
            assert(failed_reading(t, Seq::<u8>::empty(), bytes as int, frames, old(self).devs(), self.devs(), Err(e)));
            return Err(e);
        }
        proof { t = t.push(self.devs()); }
        let res = self.bus.write_byte(reg_addr, LineCondition::InProgress);
        if let Err(e) = res {
            assert(writes_chain(t, frames.take(1)));
            assert(failed_writing(t, frames, old(self).devs(), self.devs(), res));
            assert(failed_reading(t, Seq::<u8>::empty(), bytes as int, frames, old(self).devs(), self.devs(), Err(e)));
            return Err(e);
        }
        proof { t = t.push(self.devs()); }
        let res = self.bus.write_byte((device_addr << 1) | 0x01, LineCondition::Start);
        if let Err(e) = res {
            assert(writes_chain(t, frames.take(2)));
            assert(failed_writing(t, frames, old(self).devs(), self.devs(), res));
            assert(failed_reading(t, Seq::<u8>::empty(), bytes as int, frames, old(self).devs(), self.devs(), Err(e)));
            return Err(e);
        }
        proof { t = t.push(self.devs()); }
        assert(writes_chain(t, read_frames(device_addr, reg_addr)));
        let ghost head = t;
        let mut result: Vec<u8> = Vec::new();
        let mut i: u8 = 0;
        while i < bytes
            invariant
                i <= bytes,
                self.wf(),
                device_addr < 0x80 && reg_addr < 0x80,
                result@.len() == i,
                t.len() == 4 + 2 * i,
                t.take(4) == head,
                frames == read_frames(device_addr, reg_addr),
                writes_chain(head, frames),
                t[0] == old(self).devs(),
                t.last() == self.devs(),
                forall|k: int| 0 <= k < i ==> #[trigger] polled(t, k, result@),
                forall|k: int| 0 <= k < i ==> #[trigger] acked(t, k, bytes as int),
            decreases bytes - i,
        {
            let ghost t0 = t;
            let ghost r0 = result@;
            let pr = self.bus.read_byte();
            let value = match pr {
                Ok(Some(v)) => v,
                Ok(None) => {
                    assert(byte_poll(t.last(), self.devs(), pr));
                    assert(failed_reading(t, result@, bytes as int, frames, old(self).devs(), self.devs(), Err(BusError::NoResponse)));
                    return Err(BusError::NoResponse);
                },
                Err(e) => {
                    assert(byte_poll(t.last(), self.devs(), pr));
                    assert(failed_reading(t, result@, bytes as int, frames, old(self).devs(), self.devs(), Err(e)));
                    return Err(e);
                },
            };
            result.push(value);
            proof { t = t.push(self.devs()); }
            let ghost t1 = t;
            let wr = if i >= bytes - 1 {
                self.bus.write_bit(true, LineCondition::Stop)
            } else {
                self.bus.write_bit(false, LineCondition::InProgress)
            };
            if let Err(e) = wr {
                proof {
                    assert(t1.take(4) =~= head);
                    assert forall|k: int| 0 <= k < i + 1 implies #[trigger] polled(t1, k, result@) by {
                        if k < i {
                            assert(polled(t0, k, r0));
                            assert(result@[k] == r0[k]);
                            assert(t1[3 + 2 * k] == t0[3 + 2 * k]);
                            assert(t1[4 + 2 * k] == t0[4 + 2 * k]);
                        }
                    }
                    assert forall|k: int| 0 <= k < i implies #[trigger] acked(t1, k, bytes as int) by {
                        assert(acked(t0, k, bytes as int));
                        assert(t1[4 + 2 * k] == t0[4 + 2 * k]);
                        assert(t1[5 + 2 * k] == t0[5 + 2 * k]);
                    }
                    assert(failed_reading(t1, result@, bytes as int, frames, old(self).devs(), self.devs(), Err(e)));
                }
                return Err(e);
            }
            proof {
                t = t.push(self.devs());
                assert(t.take(4) =~= head);
                assert(polled(t, i as int, result@));
                assert(acked(t, i as int, bytes as int));
                assert forall|k: int| 0 <= k < i + 1 implies #[trigger] polled(t, k, result@) by {
                    if k < i {
                        assert(polled(t0, k, r0));
                        assert(result@[k] == r0[k]);
                        assert(t[3 + 2 * k] == t0[3 + 2 * k]);
                        assert(t[4 + 2 * k] == t0[4 + 2 * k]);
                    }
                }
                assert forall|k: int| 0 <= k < i + 1 implies #[trigger] acked(t, k, bytes as int) by {
                    if k < i {
                        assert(acked(t0, k, bytes as int));
                        assert(t[4 + 2 * k] == t0[4 + 2 * k]);
                        assert(t[5 + 2 * k] == t0[5 + 2 * k]);
                    }
                }
            }
            i = i + 1;
        }
        assert(reads_chain(t, result@));
        Ok(result)
    }
}

} // verus!
