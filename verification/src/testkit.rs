//! Deterministic helpers for conformance tests: a monotonic clock that only
//! moves when told, reproducible fixture bytes, and scripted hostile delivery.
//! Nothing here is suitable for production identifiers, clocks or transport.

use vstd::prelude::*;

verus! {

/// A monotonic test clock measured in nanoseconds.
#[derive(Debug, Clone, Copy, PartialEq, Eq)]
pub struct FakeMonotonicClock {
    now_ns: u64,
}

impl View for FakeMonotonicClock {
    type V = u64;

    closed spec fn view(&self) -> u64 {
        self.now_ns
    }
}

impl FakeMonotonicClock {
    pub fn at(now_ns: u64) -> (r: FakeMonotonicClock)
        ensures
            r@ == now_ns,
    {
        FakeMonotonicClock { now_ns }
    }

    pub fn now_ns(self) -> (r: u64)
        ensures
            r == self@,
    {
        self.now_ns
    }

    /// Moves the clock forward, stopping at the largest representable time.
    pub fn advance(&mut self, duration_ns: u64)
        ensures
            final(self)@ == (if old(self)@ + duration_ns > u64::MAX { u64::MAX as int } else { old(self)@ + duration_ns }),
    {
        self.now_ns = self.now_ns.saturating_add(duration_ns);
    }

    pub fn set(&mut self, now_ns: u64)
        ensures
            final(self)@ == now_ns,
    {
        self.now_ns = now_ns;
    }
}

/// Deterministic, non-cryptographic fixture bytes.
#[derive(Debug, Clone, Copy, PartialEq, Eq)]
pub struct FixtureBytes {
    state: u64,
}

impl View for FixtureBytes {
    type V = u64;

    closed spec fn view(&self) -> u64 {
        self.state
    }
}

/// One xorshift64* step.
pub open spec fn xorshift_step(s: u64) -> u64 {
    let a = s ^ (s >> 12u64);
    let b = a ^ (a << 25u64);
    let c = b ^ (b >> 27u64);
    c.wrapping_mul(0x2545_F491_4F6C_DD1Du64)
}

/// The state after `n` steps.
pub open spec fn xorshift_after(s: u64, n: nat) -> u64
    decreases n,
{
    if n == 0 { s } else { xorshift_step(xorshift_after(s, (n - 1) as nat)) }
}

impl FixtureBytes {
    pub fn seeded(seed: u64) -> (r: FixtureBytes)
        ensures
            r@ == seed,
    {
        FixtureBytes { state: seed }
    }

    /// `N` bytes: byte `i` is the low byte of the state after `i + 1` steps.
    pub fn next_array<const N: usize>(&mut self) -> (r: [u8; N])
        ensures
            final(self)@ == xorshift_after(old(self)@, N as nat),
            forall|i: int| 0 <= i < N ==> #[trigger] r@[i] == xorshift_after(old(self)@, (i + 1) as nat) as u8,
    {
        let ghost start = self.state;
        let mut result: [u8; N] = [0u8; N];
        let mut i: usize = 0;
        while i < N
            invariant
                i <= N,
                result@.len() == N,
                self.state == xorshift_after(start, i as nat),
                forall|j: int| 0 <= j < i ==> #[trigger] result@[j] == xorshift_after(start, (j + 1) as nat) as u8,
            decreases N - i,
        {
            let s = self.state;
            let a = s ^ (s >> 12u64);
            let b = a ^ (a << 25u64);
            let c = b ^ (b >> 27u64);
            self.state = c.wrapping_mul(0x2545_F491_4F6C_DD1Du64);
            result[i] = self.state as u8;
            i = i + 1;
        }
        result
    }
}

/// One step of a delivery script.
#[derive(Debug, Clone, Copy, PartialEq, Eq)]
pub enum DeliveryMutation {
    Deliver(usize),
    Duplicate(usize),
    Drop(usize),
}

/// The input positions a script delivers, in order: valid `Deliver` indices
/// once, valid `Duplicate` indices twice; drops and invalid indices nothing.
pub open spec fn delivered_indices(len: nat, script: Seq<DeliveryMutation>) -> Seq<int>
    decreases script.len(),
{
    if script.len() == 0 {
        Seq::empty()
    } else {
        let before = delivered_indices(len, script.drop_last());
        match script.last() {
            DeliveryMutation::Deliver(i) => if i < len { before.push(i as int) } else { before },
            DeliveryMutation::Duplicate(i) => if i < len { before.push(i as int).push(i as int) } else { before },
            DeliveryMutation::Drop(_) => before,
        }
    }
}

/// Applies a delivery script without changing any value: every output item
/// is a clone of the input item at the delivered position.
pub fn mutate_delivery<T: Clone>(input: &[T], script: &[DeliveryMutation]) -> (r: Vec<T>)
    ensures
        r@.len() == delivered_indices(input@.len(), script@).len(),
        forall|j: int| 0 <= j < r@.len() ==> {
            let k = #[trigger] delivered_indices(input@.len(), script@)[j];
            0 <= k < input@.len() && cloned(input@[k], r@[j])
        },
{
    let mut output: Vec<T> = Vec::new();
    let mut s: usize = 0;
    while s < script.len()
        invariant
            s <= script@.len(),
            output@.len() == delivered_indices(input@.len(), script@.subrange(0, s as int)).len(),
            forall|j: int| 0 <= j < output@.len() ==> {
                let k = #[trigger] delivered_indices(input@.len(), script@.subrange(0, s as int))[j];
                0 <= k < input@.len() && cloned(input@[k], output@[j])
            },
        decreases script@.len() - s,
    {
        let ghost prefix = script@.subrange(0, s as int);
        let ghost next = script@.subrange(0, s + 1);
        proof {
            assert(next.drop_last() =~= prefix);
            assert(next.last() == script@[s as int]);
        }
        let ghost before = output@;
        match script[s] {
            DeliveryMutation::Deliver(index) => {
                if index < input.len() {
                    output.push(input[index].clone());
                }
            },
            DeliveryMutation::Duplicate(index) => {
                if index < input.len() {
                    output.push(input[index].clone());
                    output.push(input[index].clone());
                }
            },
            DeliveryMutation::Drop(_) => {},
        }
        proof {
            let d = delivered_indices(input@.len(), next);
            let p = delivered_indices(input@.len(), prefix);
            assert forall|j: int| 0 <= j < output@.len() implies {
                let k = #[trigger] d[j];
                0 <= k < input@.len() && cloned(input@[k], output@[j])
            } by {
                if j < before.len() {
                    assert(d[j] == p[j]);
                    assert(output@[j] == before[j]);
                }
            }
        }
        s = s + 1;
    }
    proof {
        assert(script@.subrange(0, script@.len() as int) =~= script@);
    }
    output
}

} // verus!
