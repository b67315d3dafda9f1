//! The I2C bus: every device sees every bit, and at most one may drive the
//! shared line in a poll.
use crate::device::{BusError, I2CSlave, LineCondition};
use crate::register::{front_byte, front_rest};
use vstd::prelude::*;

verus! {

/// How many of `d` have output waiting, that is, would drive the line.
pub open spec fn drivers(d: Seq<I2CSlave>) -> nat
    decreases d.len(),
{
    if d.len() == 0 {
        0
    } else {
        drivers(d.drop_last()) + if d.last().output_bits().len() > 0 {
            1nat
        } else {
            0nat
        }
    }
}

/// A prefix has no more drivers than the whole.
pub proof fn lemma_drivers_prefix(d: Seq<I2CSlave>, k: int)
    requires
        0 <= k <= d.len(),
    ensures
        drivers(d.take(k)) <= drivers(d),
    decreases d.len() - k,
{
    if k < d.len() {
        lemma_drivers_prefix(d, k + 1);
        assert(d.take(k + 1).drop_last() =~= d.take(k));
    } else {
        assert(d.take(k) =~= d);
    }
}

/// One poll of the line: two or more drivers are a fault, none gives
/// `None`, and a single driver gives `value` of its output bits and keeps
/// `rest` of them; the other devices are untouched.
pub open spec fn poll<T>(pre: Seq<I2CSlave>, post: Seq<I2CSlave>, r: Result<Option<T>, BusError>, value: spec_fn(Seq<bool>) -> T, rest: spec_fn(Seq<bool>) -> Seq<bool>) -> bool {
    &&& drivers(pre) >= 2 <==> r == Err::<Option<T>, BusError>(BusError::MultipleDrivers)
    &&& drivers(pre) == 0 ==> r == Ok::<Option<T>, BusError>(None) && post.len() == pre.len()
        && forall|j: int| 0 <= j < pre.len() ==> #[trigger] post[j].same_but_output(pre[j])
            && post[j].output_bits() == pre[j].output_bits()
    &&& drivers(pre) == 1 ==> exists|d: int| {
        &&& 0 <= d < pre.len()
        &&& #[trigger] pre[d].output_bits().len() > 0
        &&& r == Ok::<Option<T>, BusError>(Some(value(pre[d].output_bits())))
        &&& post.len() == pre.len()
        &&& post[d].output_bits() == rest(pre[d].output_bits())
        &&& forall|j: int| 0 <= j < pre.len() ==> #[trigger] post[j].same_but_output(pre[j])
        &&& forall|j: int| 0 <= j < pre.len() && j != d ==> #[trigger] post[j].output_bits() == pre[j].output_bits()
    }
}

pub open spec fn last_bit(s: Seq<bool>) -> bool {
    s.last()
}

pub open spec fn all_but_last(s: Seq<bool>) -> Seq<bool> {
    s.drop_last()
}

/// A poll for one bit: the driver's bit written first comes off.
pub open spec fn bit_poll(pre: Seq<I2CSlave>, post: Seq<I2CSlave>, r: Result<Option<bool>, BusError>) -> bool {
    poll(pre, post, r, |s: Seq<bool>| last_bit(s), |s: Seq<bool>| all_but_last(s))
}

/// A poll for one byte: the driver's (up to) eight bits written last come off.
pub open spec fn byte_poll(pre: Seq<I2CSlave>, post: Seq<I2CSlave>, r: Result<Option<u8>, BusError>) -> bool {
    poll(pre, post, r, |s: Seq<bool>| front_byte(s), |s: Seq<bool>| front_rest(s))
}

/// Every device took `value` without error, and exactly one acknowledged it.
pub open spec fn byte_written(pre: Seq<I2CSlave>, post: Seq<I2CSlave>, value: u8, cond: LineCondition) -> bool {
    exists|mid: Seq<I2CSlave>| {
        &&& mid.len() == pre.len()
        &&& forall|j: int| 0 <= j < mid.len() ==> #[trigger] I2CSlave::byte_step(pre[j], mid[j], value, cond, Ok(()))
        &&& #[trigger] bit_poll(mid, post, Ok(Some(false)))
    }
}

/// The outcome of a byte write once the acknowledgement poll gave `pr`.
pub open spec fn ack_result(pr: Result<Option<bool>, BusError>) -> Result<(), BusError> {
    match pr {
        Ok(Some(false)) => Ok(()),
        Ok(_) => Err(BusError::MissingAck),
        Err(e) => Err(e),
    }
}

/// A byte write that ended in `r`: either device `e` failed on the byte
/// (those before it took it, those after it saw nothing), or every device
/// took it and the acknowledgement poll decided.
pub open spec fn byte_write_outcome(pre: Seq<I2CSlave>, post: Seq<I2CSlave>, value: u8, cond: LineCondition, r: Result<(), BusError>) -> bool {
    ||| exists|e: int| {
        &&& 0 <= e < pre.len()
        &&& post.len() == pre.len()
        &&& #[trigger] I2CSlave::byte_step(pre[e], post[e], value, cond, r)
        &&& r is Err
        &&& forall|j: int| 0 <= j < e ==> #[trigger] I2CSlave::byte_step(pre[j], post[j], value, cond, Ok(()))
        &&& forall|j: int| e < j < pre.len() ==> #[trigger] post[j] == pre[j]
    }
    ||| exists|mid: Seq<I2CSlave>, pr: Result<Option<bool>, BusError>| {
        &&& mid.len() == pre.len()
        &&& forall|j: int| 0 <= j < mid.len() ==> #[trigger] I2CSlave::byte_step(pre[j], mid[j], value, cond, Ok(()))
        &&& #[trigger] bit_poll(mid, post, pr)
        &&& r == ack_result(pr)
    }
}

/// Device `e` failed on `bit` with `r`: those before it took the bit,
/// those after it saw nothing.
pub open spec fn bit_write_failed(pre: Seq<I2CSlave>, post: Seq<I2CSlave>, bit: bool, cond: LineCondition, r: Result<(), BusError>) -> bool {
    exists|e: int| {
        &&& 0 <= e < pre.len()
        &&& #[trigger] I2CSlave::bit_step(pre[e], post[e], bit, cond, r)
        &&& forall|j: int| 0 <= j < e ==> #[trigger] I2CSlave::bit_step(pre[j], post[j], bit, cond, Ok(()))
        &&& forall|j: int| e < j < pre.len() ==> #[trigger] post[j] == pre[j]
    }
}

/// Every device took `bit` without error.
pub open spec fn bit_written(pre: Seq<I2CSlave>, post: Seq<I2CSlave>, bit: bool, cond: LineCondition) -> bool {
    &&& post.len() == pre.len()
    &&& forall|j: int| 0 <= j < pre.len() ==> #[trigger] I2CSlave::bit_step(pre[j], post[j], bit, cond, Ok(()))
}

pub struct I2CBus {
    devices: Vec<I2CSlave>,
}

impl I2CBus {
    pub closed spec fn devs(&self) -> Seq<I2CSlave> {
        self.devices@
    }

    pub open spec fn wf(&self) -> bool {
        forall|i: int| 0 <= i < self.devs().len() ==> #[trigger] self.devs()[i].wf()
    }

    pub fn new() -> (r: Self)
        ensures
            r.devs() == Seq::<I2CSlave>::empty(),
            r.wf(),
    {
        I2CBus { devices: Vec::new() }
    }

    pub fn add_device(&mut self, device: I2CSlave)
        requires
            old(self).wf(),
            device.wf(),
        ensures
            final(self).wf(),
            final(self).devs() == old(self).devs().push(device),
    {
        self.devices.push(device);
        proof {
            assert forall|i: int| 0 <= i < self.devs().len() implies #[trigger] self.devs()[i].wf() by {
                if i < old(self).devs().len() {
                    assert(self.devs()[i] == old(self).devs()[i]);
                }
            }
        }
    }

    /// Fans one bit out to every device, stopping at the first that fails.
    pub fn write_bit(&mut self, bit: bool, condition: LineCondition) -> (r: Result<(), BusError>)
        requires
            old(self).wf(),
        ensures
            final(self).devs().len() == old(self).devs().len(),
            !(r matches Err(BusError::UnsupportedAddress)),
            !(r matches Err(BusError::EmptyWrite)),
            r is Ok ==> final(self).wf() && forall|j: int| 0 <= j < old(self).devs().len()
                ==> #[trigger] I2CSlave::bit_step(old(self).devs()[j], final(self).devs()[j], bit, condition, Ok(())),
            r is Err ==> bit_write_failed(old(self).devs(), final(self).devs(), bit, condition, r),
    {
        let n = self.devices.len();
        let mut i: usize = 0;
        while i < n
            invariant
                n == old(self).devs().len(),
                self.devs().len() == n,
                i <= n,
                forall|j: int| 0 <= j < i ==> #[trigger] I2CSlave::bit_step(old(self).devs()[j], self.devs()[j], bit, condition, Ok(())),
                forall|j: int| i <= j < n ==> #[trigger] self.devs()[j] == old(self).devs()[j],
                forall|j: int| 0 <= j < n ==> #[trigger] old(self).devs()[j].wf(),
            decreases n - i,
        {
            let res = self.devices[i].write_bit(bit, condition);
            if res.is_err() {
                assert(I2CSlave::bit_step(old(self).devs()[i as int], self.devs()[i as int], bit, condition, res));
                return res;
            }
            i = i + 1;
        }
        proof {
            assert forall|j: int| 0 <= j < n implies #[trigger] self.devs()[j].wf() by {
                assert(I2CSlave::bit_step(old(self).devs()[j], self.devs()[j], bit, condition, Ok(())));
            }
        }
        Ok(())
    }

    /// Polls every device for one bit; two drivers at once are a fault.
    pub fn read_bit(&mut self) -> (r: Result<Option<bool>, BusError>)
        requires
            old(self).wf(),
        ensures
            bit_poll(old(self).devs(), final(self).devs(), r),
            final(self).devs().len() == old(self).devs().len(),
            !(r matches Err(BusError::UnsupportedAddress)),
            !(r matches Err(BusError::EmptyWrite)),
            r is Ok ==> final(self).wf(),
    {
        let n = self.devices.len();
        let mut line: Option<bool> = None;
        let ghost mut d: int = 0;
        let mut i: usize = 0;
        while i < n
            invariant
                n == old(self).devs().len(),
                self.devs().len() == n,
                i <= n,
                drivers(old(self).devs().take(i as int)) == if line.is_some() { 1nat } else { 0nat },
                line.is_some() ==> 0 <= d < i && old(self).devs()[d].output_bits().len() > 0
                    && line == Some(last_bit(old(self).devs()[d].output_bits()))
                    && self.devs()[d].output_bits() == all_but_last(old(self).devs()[d].output_bits()),
                forall|j: int| 0 <= j < n ==> #[trigger] self.devs()[j].same_but_output(old(self).devs()[j]),
                forall|j: int| 0 <= j < n && !(line.is_some() && j == d) ==> #[trigger] self.devs()[j].output_bits() == old(self).devs()[j].output_bits(),
                forall|j: int| 0 <= j < n ==> #[trigger] old(self).devs()[j].wf(),
            decreases n - i,
        {
            assert(old(self).devs().take(i + 1).drop_last() =~= old(self).devs().take(i as int));
            let ghost prev = self.devs();
            let read = self.devices[i].read_bit();
            proof {
                assert forall|j: int| 0 <= j < n implies #[trigger] self.devs()[j].same_but_output(
                    old(self).devs()[j],
                ) by {
                    assert(prev[j].same_but_output(old(self).devs()[j]));
                    if j == i {
                        assert(self.devs()[j].same_but_output(prev[j]));
                    } else {
                        assert(self.devs()[j] == prev[j]);
                    }
                }
            }
            if read.is_some() {
                if line.is_some() {
                    proof {
                        lemma_drivers_prefix(old(self).devs(), i + 1);
                    }
                    return Err(BusError::MultipleDrivers);
                }
                line = read;
                proof {
                    d = i as int;
                }
            }
            i = i + 1;
        }
        assert(old(self).devs().take(n as int) =~= old(self).devs());
        proof {
            assert forall|j: int| 0 <= j < n implies #[trigger] self.devs()[j].wf() by {
                assert(self.devs()[j].same_but_output(old(self).devs()[j]));
                assert(old(self).devs()[j].wf());
            }
        }
        Ok(line)
    }
    /// Polls every device for one byte; two drivers at once are a fault.
    pub fn read_byte(&mut self) -> (r: Result<Option<u8>, BusError>)
        requires
            old(self).wf(),
        ensures
            byte_poll(old(self).devs(), final(self).devs(), r),
            final(self).devs().len() == old(self).devs().len(),
            !(r matches Err(BusError::UnsupportedAddress)),
            !(r matches Err(BusError::EmptyWrite)),
            r is Ok ==> final(self).wf(),
    {
        let n = self.devices.len();
        let mut line: Option<u8> = None;
        let ghost mut d: int = 0;
        let mut i: usize = 0;
        while i < n
            invariant
                n == old(self).devs().len(),
                self.devs().len() == n,
                i <= n,
                drivers(old(self).devs().take(i as int)) == if line.is_some() { 1nat } else { 0nat },
                line.is_some() ==> 0 <= d < i && old(self).devs()[d].output_bits().len() > 0
                    && line == Some(front_byte(old(self).devs()[d].output_bits()))
                    && self.devs()[d].output_bits() == front_rest(old(self).devs()[d].output_bits()),
                forall|j: int| 0 <= j < n ==> #[trigger] self.devs()[j].same_but_output(old(self).devs()[j]),
                forall|j: int| 0 <= j < n && !(line.is_some() && j == d) ==> #[trigger] self.devs()[j].output_bits() == old(self).devs()[j].output_bits(),
                forall|j: int| 0 <= j < n ==> #[trigger] old(self).devs()[j].wf(),
            decreases n - i,
        {
            assert(old(self).devs().take(i + 1).drop_last() =~= old(self).devs().take(i as int));
            let ghost prev = self.devs();
            let read = self.devices[i].read_byte();
            proof {
                assert forall|j: int| 0 <= j < n implies #[trigger] self.devs()[j].same_but_output(
                    old(self).devs()[j],
                ) by {
                    assert(prev[j].same_but_output(old(self).devs()[j]));
                    if j == i {
                        assert(self.devs()[j].same_but_output(prev[j]));
                    } else {
                        assert(self.devs()[j] == prev[j]);
                    }
                }
            }
            if read.is_some() {
                if line.is_some() {
                    proof {
                        lemma_drivers_prefix(old(self).devs(), i + 1);
                    }
                    return Err(BusError::MultipleDrivers);
                }
                line = read;
                proof {
                    d = i as int;
                }
            }
            i = i + 1;
        }
        assert(old(self).devs().take(n as int) =~= old(self).devs());
        proof {
            assert forall|j: int| 0 <= j < n implies #[trigger] self.devs()[j].wf() by {
                assert(self.devs()[j].same_but_output(old(self).devs()[j]));
                assert(old(self).devs()[j].wf());
            }
        }
        Ok(line)
    }
    /// Fans one byte out to every device, then takes the acknowledgement:
    /// exactly one `0` bit must come back.
    pub fn write_byte(&mut self, value: u8, condition: LineCondition) -> (r: Result<(), BusError>)
        requires
            old(self).wf(),
        ensures
            final(self).devs().len() == old(self).devs().len(),
            !(r matches Err(BusError::UnsupportedAddress)),
            !(r matches Err(BusError::EmptyWrite)),
            r is Ok ==> final(self).wf() && byte_written(old(self).devs(), final(self).devs(), value, condition),
            byte_write_outcome(old(self).devs(), final(self).devs(), value, condition, r),
    {
        let n = self.devices.len();
        let mut i: usize = 0;
        while i < n
            invariant
                n == old(self).devs().len(),
                self.devs().len() == n,
                i <= n,
                forall|j: int| 0 <= j < i ==> #[trigger] I2CSlave::byte_step(old(self).devs()[j], self.devs()[j], value, condition, Ok(())),
                forall|j: int| 0 <= j < i ==> #[trigger] self.devs()[j].wf(),
                forall|j: int| i <= j < n ==> #[trigger] self.devs()[j] == old(self).devs()[j],
                forall|j: int| 0 <= j < n ==> #[trigger] old(self).devs()[j].wf(),
            decreases n - i,
        {
            let res = self.devices[i].write_byte(value, condition);
            if res.is_err() {
                assert(I2CSlave::byte_step(old(self).devs()[i as int], self.devs()[i as int], value, condition, res));
                return res;
            }
            i = i + 1;
        }
        let ghost mid = self.devs();
        assert(self.wf());
        let pr = self.read_bit();
        assert(bit_poll(mid, self.devs(), pr));
        match pr {
            Ok(Some(false)) => Ok(()),
            Ok(_) => Err(BusError::MissingAck),
            Err(e) => Err(e),
        }
    }

}

} // verus!
