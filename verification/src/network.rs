use vstd::prelude::*;

verus! {

/// `s` extended with zeros up to length `n` (unchanged when already that long).
pub open spec fn pad_to(s: Seq<u64>, n: nat) -> Seq<u64> {
    if s.len() >= n {
        s
    } else {
        s + Seq::new((n - s.len()) as nat, |_i: int| 0u64)
    }
}

/// The clock vector that `Sequence::assign` leaves behind: when the other
/// vector is longer, ours is first padded with zeros to one more than its
/// length; then every entry the other vector has is raised to its value.
pub open spec fn join_clocks(mine: Seq<u64>, other: Seq<u64>) -> Seq<u64> {
    let padded = if other.len() > mine.len() {
        pad_to(mine, other.len() + 1)
    } else {
        mine
    };
    Seq::new(
        padded.len(),
        |i: int|
            if i < other.len() && padded[i] < other[i] {
                other[i]
            } else {
                padded[i]
            },
    )
}

/// A vector clock: one counter per process (index 0 is the server, index `k`
/// the client with network id `k`), and the index of our own counter.
#[derive(Debug, Clone)]
pub struct Sequence {
    pub nums: Vec<u64>,
    pub index: usize,
}

impl Sequence {
    /// The index of our own counter.
    pub open spec fn own(&self) -> usize {
        self.index
    }

    /// Our own counter exists.
    pub open spec fn wf(&self) -> bool {
        self.own() < self.nums@.len()
    }

    /// A clock for process `index`: `index + 1` counters, all zero.
    pub fn new(index: usize) -> (s: Sequence)
        requires
            index < usize::MAX,
        ensures
            s.nums@ == Seq::new((index + 1) as nat, |_i: int| 0u64),
            s.own() == index,
            s.wf(),
    {
        let mut vec: Vec<u64> = Vec::new();
        while vec.len() < index + 1
            invariant
                index < usize::MAX,
                vec.len() <= index + 1,
                forall|i: int| 0 <= i < vec.len() ==> vec@[i] == 0u64,
            decreases index + 1 - vec.len(),
        {
            vec.push(0);
        }
        assert(vec@ =~= Seq::new((index + 1) as nat, |_i: int| 0u64));
        Sequence { nums: vec, index: index }
    }

    /// A clock with the given counters and own index, as read off the wire.
    pub fn from_parts(nums: Vec<u64>, index: usize) -> (s: Sequence)
        ensures
            s.nums@ == nums@,
            s.own() == index,
    {
        Sequence { nums, index }
    }

    /// The index of our own counter.
    pub fn index(&self) -> (i: usize)
        ensures
            i == self.own(),
    {
        self.index
    }

    /// Counts one event: our own counter goes up by one, and its new value
    /// is returned.
    pub fn geti(&mut self) -> (n: u64)
        requires
            old(self).wf(),
            old(self).nums@[old(self).own() as int] < u64::MAX,
        ensures
            n == old(self).nums@[old(self).own() as int] + 1,
            final(self).nums@ == old(self).nums@.update(old(self).own() as int, n),
            final(self).own() == old(self).own(),
            final(self).wf(),
    {
        self.nums[self.index] += 1;
        self.nums[self.index]
    }

    /// Makes `index` our own counter, adding zero counters so that it exists.
    pub fn new_index(&mut self, index: usize)
        requires
            index < usize::MAX,
        ensures
            final(self).own() == index,
            final(self).nums@ == pad_to(old(self).nums@, (index + 1) as nat),
            final(self).wf(),
    {
        self.index = index;
        let ghost start = self.nums@;
        while index + 1 > self.nums.len()
            invariant
                index < usize::MAX,
                self.index == index,
                start.len() <= self.nums@.len(),
                self.nums@.len() <= index + 1 || self.nums@ == start,
                forall|i: int| 0 <= i < start.len() ==> self.nums@[i] == start[i],
                forall|i: int| start.len() <= i < self.nums@.len() ==> self.nums@[i] == 0u64,
            decreases index + 1 - self.nums.len(),
        {
            self.nums.push(0);
        }
        assert(self.nums@ =~= pad_to(start, (index + 1) as nat));
    }

    /// Our own counter.
    pub fn get(&self) -> (n: u64)
        requires
            self.wf(),
        ensures
            n == self.nums@[self.own() as int],
    {
        self.nums[self.index]
    }

    /// A copy of this clock.
    pub fn snapshot(&self) -> (s: Sequence)
        ensures
            s.nums@ == self.nums@,
            s.own() == self.own(),
    {
        let nums = self.nums.clone();
        assert(nums@ =~= self.nums@);
        Sequence { nums, index: self.index }
    }

    /// Merges in a clock received from another process: every counter becomes
    /// the larger of ours and theirs.
    pub fn assign(&mut self, other: &Sequence)
        requires
            other.nums@.len() < usize::MAX,
        ensures
            final(self).nums@ == join_clocks(old(self).nums@, other.nums@),
            final(self).own() == old(self).own(),
    {
        let ghost start = self.nums@;
        let other_len: usize = other.nums.len();
        let mut my_len: usize = self.nums.len();
        if other_len > my_len {
            while my_len < other_len + 1
                invariant
                    other_len < usize::MAX,
                    other_len == other.nums@.len(),
                    my_len == self.nums@.len(),
                    start.len() <= my_len <= other_len + 1,
                    self.index == old(self).index,
                    forall|i: int| 0 <= i < start.len() ==> self.nums@[i] == start[i],
                    forall|i: int| start.len() <= i < self.nums@.len() ==> self.nums@[i] == 0u64,
                decreases other_len + 1 - my_len,
            {
                self.nums.push(0);
                my_len += 1;
            }
        }
        let ghost padded = self.nums@;
        assert(padded =~= (if other.nums@.len() > start.len() {
            pad_to(start, other.nums@.len() + 1)
        } else {
            start
        }));
        let mut i: usize = 0;
        while i < other.nums.len()
            invariant
                other_len == other.nums@.len(),
                other_len <= self.nums@.len(),
                self.nums@.len() == padded.len(),
                self.index == old(self).index,
                i <= other_len,
                forall|j: int|
                    0 <= j < self.nums@.len() ==> self.nums@[j] == (if j < i && padded[j]
                        < other.nums@[j] {
                        other.nums@[j]
                    } else {
                        padded[j]
                    }),
            decreases other_len - i,
        {
            if self.nums[i] < other.nums[i] {
                self.nums[i] = other.nums[i];
            }
            i += 1;
        }
        assert(self.nums@ =~= join_clocks(start, other.nums@));
    }
}

/// A moment, counted in server ticks.
#[derive(Debug, Clone, Copy, PartialEq, Eq, Structural)]
pub struct Timestamp {
    pub time: u64,
}

impl Timestamp {
    /// The moment `time`.
    pub fn new(time: u64) -> (t: Timestamp)
        ensures
            t.time == time,
    {
        Timestamp { time }
    }
}

/// Tells clients to despawn everything they show.
#[derive(Debug, Clone, Copy, PartialEq, Eq, Structural)]
pub struct DespawnAllPacket {
    pub kill: bool,
}

impl DespawnAllPacket {
    /// A packet that asks for the despawn.
    pub fn new() -> (p: DespawnAllPacket)
        ensures
            p.kill,
    {
        DespawnAllPacket { kill: true }
    }
}

/// The header every packet carries: the sender's network id and its clock.
#[derive(Debug, Clone)]
pub struct Header {
    pub network_id: u8,
    pub sequence: Sequence,
}

impl Header {
    /// The header of a packet sent by `id` with clock `seq`.
    pub fn new(id: u8, seq: Sequence) -> (h: Header)
        ensures
            h.network_id == id,
            h.sequence.nums@ == seq.nums@,
            h.sequence.own() == seq.own(),
    {
        Header { network_id: id, sequence: seq }
    }
}

/// The packet by which a client asks for, and the server hands out, a
/// network id.
#[derive(Debug, Clone)]
pub struct IdPacket {
    pub head: Header,
}

/// Merging in the same clock twice changes nothing more than merging it once.
pub proof fn lemma_assign_idempotent(mine: Seq<u64>, other: Seq<u64>)
    ensures
        join_clocks(join_clocks(mine, other), other) == join_clocks(mine, other),
{
    let once = join_clocks(mine, other);
    assert(join_clocks(once, other) =~= once);
}

/// After a merge every counter is at least our old value and at least the
/// other clock's value, and each is one of the two; no counter is lost.
pub proof fn lemma_assign_dominates(mine: Seq<u64>, other: Seq<u64>)
    ensures
        join_clocks(mine, other).len() >= mine.len(),
        join_clocks(mine, other).len() >= other.len(),
        forall|i: int| 0 <= i < mine.len() ==> #[trigger] join_clocks(mine, other)[i] >= mine[i],
        forall|i: int| 0 <= i < other.len() ==> #[trigger] join_clocks(mine, other)[i] >= other[i],
        forall|i: int|
            0 <= i < join_clocks(mine, other).len() ==> {
                let v = #[trigger] join_clocks(mine, other)[i];
                (i < mine.len() && v == mine[i]) || (i < other.len() && v == other[i]) || v == 0
            },
{
}

/// Merging a clock that is nowhere ahead of ours, and no longer, leaves ours
/// as it is.
pub proof fn lemma_assign_behind_keeps(mine: Seq<u64>, other: Seq<u64>)
    requires
        other.len() <= mine.len(),
        forall|i: int| 0 <= i < other.len() ==> other[i] <= #[trigger] mine[i],
    ensures
        join_clocks(mine, other) == mine,
{
    assert(join_clocks(mine, other) =~= mine);
}

/// After counting an event, our own counter reads the number the count
/// returned, one more than before, and no other counter changed.
pub proof fn lemma_geti_then_get(nums: Seq<u64>, own: int)
    requires
        0 <= own < nums.len(),
        nums[own] < u64::MAX,
    ensures
        nums.update(own, (nums[own] + 1) as u64)[own] == nums[own] + 1,
        forall|i: int| 0 <= i < nums.len() && i != own ==> #[trigger] nums.update(own, (nums[own] + 1) as u64)[i]
            == nums[i],
{
}

/// A clock that merged in a received clock and then counted an event is
/// at least the received clock everywhere and strictly ahead of it at our
/// own counter: the receipt happened after the send.
pub proof fn lemma_receive_then_count_is_later(mine: Seq<u64>, other: Seq<u64>, own: int)
    requires
        0 <= own < join_clocks(mine, other).len(),
        join_clocks(mine, other)[own] < u64::MAX,
    ensures
        ({
            let merged = join_clocks(mine, other);
            let after = merged.update(own, (merged[own] + 1) as u64);
            &&& forall|i: int| 0 <= i < other.len() ==> #[trigger] after[i] >= other[i]
            &&& own < other.len() ==> after[own] > other[own]
            &&& own < mine.len() ==> after[own] > mine[own]
        }),
{
}

} // verus!
