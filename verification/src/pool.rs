//! Byte regions with counted holders.
//!
//! A pool owns every region. A region is reached through handles; making a
//! second handle to a region adds a holder and copies nothing, and the region
//! is given up when its last holder lets go. A slot is never handed out twice,
//! so a handle that outlived its region is always told apart from a live one.

use vstd::prelude::*;

verus! {

/// What a pool holds in one slot.
#[verifier::ext_equal]
pub struct Region {
    /// The bytes of the region; empty once the region is given up.
    pub bytes: Seq<u8>,
    /// How many handles hold the region; 0 once it is given up.
    pub holders: nat,
}

/// Why a pool turned a request down.
#[derive(Clone, Copy, Debug, PartialEq, Eq)]
pub enum PoolError {
    /// The handle's region is given up, or the handle is of another pool.
    Stale,
    /// The region has more than one holder and may not be replaced.
    Shared,
    /// The region has as many holders as can be counted.
    Saturated,
    /// The offset lies beyond the region.
    OutOfBounds,
}

/// `n` zero bytes.
pub open spec fn zeros(n: nat) -> Seq<u8> {
    Seq::new(n, |i: int| 0u8)
}

/// Whether `slot` holds a region that still has a holder.
pub open spec fn live(pool: Seq<Region>, slot: int) -> bool {
    0 <= slot < pool.len() && pool[slot].holders > 0
}

/// `pool` with the bytes of `slot` replaced.
pub open spec fn with_bytes(pool: Seq<Region>, slot: int, bytes: Seq<u8>) -> Seq<Region> {
    pool.update(slot, Region { bytes, holders: pool[slot].holders })
}

/// `pool` after a zero-filled region of `length` bytes is added, with one holder.
pub open spec fn allocated(pool: Seq<Region>, length: nat) -> Seq<Region> {
    pool.push(Region { bytes: zeros(length), holders: 1 })
}

/// `pool` after one more holder takes the region in `slot`.
pub open spec fn shared(pool: Seq<Region>, slot: int) -> Seq<Region> {
    pool.update(slot, Region { bytes: pool[slot].bytes, holders: pool[slot].holders + 1 })
}

/// `pool` after one holder lets go of the region in `slot`: the last one to
/// do so takes the bytes with it.
pub open spec fn released(pool: Seq<Region>, slot: int) -> Seq<Region> {
    if pool[slot].holders <= 1 {
        pool.update(slot, Region { bytes: Seq::empty(), holders: 0 })
    } else {
        pool.update(
            slot,
            Region { bytes: pool[slot].bytes, holders: (pool[slot].holders - 1) as nat },
        )
    }
}

/// `pool` after the region in `slot` is replaced by `length` zero bytes.
pub open spec fn resized(pool: Seq<Region>, slot: int, length: nat) -> Seq<Region> {
    with_bytes(pool, slot, zeros(length))
}

/// `pool` after the region in `slot` is zero-filled at its length.
pub open spec fn cleared(pool: Seq<Region>, slot: int) -> Seq<Region> {
    with_bytes(pool, slot, zeros(pool[slot].bytes.len()))
}

/// `bytes` with `chunk` laid over it from offset `at` on.
pub open spec fn overlaid(bytes: Seq<u8>, at: int, chunk: Seq<u8>) -> Seq<u8> {
    Seq::new(
        bytes.len(),
        |i: int|
            if at <= i < at + chunk.len() {
                chunk[i - at]
            } else {
                bytes[i]
            },
    )
}

/// `pool` after `chunk` is written into the region in `slot` from offset `at` on.
pub open spec fn written(pool: Seq<Region>, slot: int, at: int, chunk: Seq<u8>) -> Seq<Region> {
    with_bytes(pool, slot, overlaid(pool[slot].bytes, at, chunk))
}

/// Two handles on one region: when the first lets go, the second still has
/// the region, with the bytes as they were; when the second lets go too, the
/// region is given up, and stays so.
///
/// `pool` is the pool while one handle holds the region in `slot`; the
/// second handle comes from sharing the first.
pub proof fn law_shared_lifetime(pool: Seq<Region>, slot: int)
    requires
        live(pool, slot),
        pool[slot].holders == 1,
    ensures
        ({
            let both = shared(pool, slot);
            let one = released(both, slot);
            let none = released(one, slot);
            &&& both[slot].holders == 2
            &&& live(one, slot)
            &&& one[slot].holders == 1
            &&& one[slot].bytes == pool[slot].bytes
            &&& one == pool
            &&& !live(none, slot)
            &&& none[slot].bytes.len() == 0
            &&& released(none, slot) == none
            &&& forall|other: int| 0 <= other < pool.len() && other != slot ==> none[other] == pool[other]
        }),
{
    let both = shared(pool, slot);
    let one = released(both, slot);
    let none = released(one, slot);
    assert(one =~= pool);
    assert(released(none, slot) =~= none);
}

/// Whatever the number of holders, one more holder taking a region and one
/// holder letting go of it leave the pool as it was.
pub proof fn law_share_then_release(pool: Seq<Region>, slot: int)
    requires
        live(pool, slot),
    ensures
        released(shared(pool, slot), slot) == pool,
{
    assert(released(shared(pool, slot), slot) =~= pool);
}

/// A region that is given up stays so, whatever is done to another region,
/// and however often it is let go of again.
pub proof fn law_given_up_stays(pool: Seq<Region>, slot: int, other: int, length: nat)
    requires
        0 <= slot < pool.len(),
        0 <= other < pool.len(),
        other != slot,
        !live(pool, other),
    ensures
        !live(shared(pool, slot), other),
        !live(released(pool, slot), other),
        !live(resized(pool, slot, length), other),
        !live(cleared(pool, slot), other),
        !live(allocated(pool, length), other),
        !live(released(pool, other), other),
{
}

/// A handle to one region of a pool.
///
/// It cannot be copied: a second handle comes from [`BufferPool::share`], and
/// [`BufferPool::release`] takes the handle away.
#[derive(Debug)]
pub struct SharedByteBuffer {
    slot: usize,
}

impl SharedByteBuffer {
    /// The slot of the pool that the handle points at.
    pub closed spec fn index(&self) -> int {
        self.slot as int
    }
}

struct Slot {
    bytes: Vec<u8>,
    holders: u32,
}

/// The owner of all regions.
pub struct BufferPool {
    slots: Vec<Slot>,
}

impl View for BufferPool {
    type V = Seq<Region>;

    closed spec fn view(&self) -> Seq<Region> {
        Seq::new(
            self.slots@.len(),
            |i: int| Region { bytes: self.slots@[i].bytes@, holders: self.slots@[i].holders as nat },
        )
    }
}

impl BufferPool {
    /// A pool without regions.
    pub fn new() -> (pool: Self)
        ensures
            pool@ == Seq::<Region>::empty(),
    {
        BufferPool { slots: Vec::new() }
    }

    /// Adds a region of `length` zero bytes and returns the one handle to it.
    pub fn allocate(&mut self, length: usize) -> (handle: SharedByteBuffer)
        ensures
            final(self)@ == allocated(old(self)@, length as nat),
            handle.index() == old(self)@.len(),
    {
        let slot: usize = self.slots.len();
        let bytes: Vec<u8> = vec![0u8; length];
        assert(bytes@ =~= zeros(length as nat));
        self.slots.push(Slot { bytes, holders: 1 });
        assert(self@ =~= allocated(old(self)@, length as nat));
        SharedByteBuffer { slot }
    }

    /// How many handles hold the region of `handle`; 0 if it is given up.
    pub fn holders(&self, handle: &SharedByteBuffer) -> (count: u32)
        ensures
            count == if 0 <= handle.index() < self@.len() {
                self@[handle.index()].holders
            } else {
                0
            },
    {
        if handle.slot < self.slots.len() {
            self.slots[handle.slot].holders
        } else {
            0
        }
    }

    /// Makes a second handle to the region of `handle`. The two share the bytes.
    pub fn share(&mut self, handle: &SharedByteBuffer) -> (r: Result<SharedByteBuffer, PoolError>)
        ensures
            r.is_ok() <==> live(old(self)@, handle.index()) && old(self)@[handle.index()].holders
                < u32::MAX,
            r matches Ok(twin) ==> twin.index() == handle.index() && final(self)@ == shared(
                old(self)@,
                handle.index(),
            ),
            r is Err ==> final(self)@ == old(self)@,
            r matches Err(e) ==> e == if live(old(self)@, handle.index()) {
                PoolError::Saturated
            } else {
                PoolError::Stale
            },
    {
        if self.holders(handle) == 0 {
            return Err(PoolError::Stale);
        }
        if self.slots[handle.slot].holders == u32::MAX {
            return Err(PoolError::Saturated);
        }
        self.slots[handle.slot].holders = self.slots[handle.slot].holders + 1;
        assert(self@ =~= shared(old(self)@, handle.index()));
        Ok(SharedByteBuffer { slot: handle.slot })
    }

    /// Lets go of the region of `handle`. The last holder to do so gives the
    /// bytes up; the result tells whether this was the last one.
    pub fn release(&mut self, handle: SharedByteBuffer) -> (r: Result<bool, PoolError>)
        ensures
            r.is_ok() <==> live(old(self)@, handle.index()),
            r matches Ok(last) ==> final(self)@ == released(old(self)@, handle.index()) && last == (
            old(self)@[handle.index()].holders == 1),
            r matches Err(e) ==> e == PoolError::Stale && final(self)@ == old(self)@,
    {
        let count: u32 = self.holders(&handle);
        if count == 0 {
            return Err(PoolError::Stale);
        }
        if count == 1 {
            self.slots[handle.slot].bytes = Vec::new();
        }
        self.slots[handle.slot].holders = count - 1;
        assert(self@ =~= released(old(self)@, handle.index()));
        Ok(count == 1)
    }

    /// Replaces the region of `handle` by `length` zero bytes. What it held is
    /// lost. A region with more than one holder is left alone.
    pub fn resize(&mut self, handle: &SharedByteBuffer, length: usize) -> (r: Result<
        (),
        PoolError,
    >)
        ensures
            r.is_ok() <==> live(old(self)@, handle.index()) && old(self)@[handle.index()].holders
                == 1,
            r is Ok ==> final(self)@ == resized(old(self)@, handle.index(), length as nat),
            r is Err ==> final(self)@ == old(self)@,
            r matches Err(e) ==> e == if live(old(self)@, handle.index()) {
                PoolError::Shared
            } else {
                PoolError::Stale
            },
    {
        let count: u32 = self.holders(handle);
        if count == 0 {
            return Err(PoolError::Stale);
        }
        if count > 1 {
            return Err(PoolError::Shared);
        }
        let bytes: Vec<u8> = vec![0u8; length];
        assert(bytes@ =~= zeros(length as nat));
        self.slots[handle.slot].bytes = bytes;
        assert(self@ =~= resized(old(self)@, handle.index(), length as nat));
        Ok(())
    }

    /// Zero-fills the region of `handle`, for all its holders.
    pub fn clear(&mut self, handle: &SharedByteBuffer) -> (r: Result<(), PoolError>)
        ensures
            r.is_ok() <==> live(old(self)@, handle.index()),
            r is Ok ==> final(self)@ == cleared(old(self)@, handle.index()),
            r matches Err(e) ==> e == PoolError::Stale && final(self)@ == old(self)@,
    {
        if self.holders(handle) == 0 {
            return Err(PoolError::Stale);
        }
        let length: usize = self.slots[handle.slot].bytes.len();
        let bytes: Vec<u8> = vec![0u8; length];
        assert(bytes@ =~= zeros(length as nat));
        self.slots[handle.slot].bytes = bytes;
        assert(self@ =~= cleared(old(self)@, handle.index()));
        Ok(())
    }

    /// The length of the region of `handle`, if it is live.
    pub fn len(&self, handle: &SharedByteBuffer) -> (r: Option<usize>)
        ensures
            r.is_some() <==> live(self@, handle.index()),
            r matches Some(length) ==> length == self@[handle.index()].bytes.len(),
    {
        if self.holders(handle) == 0 {
            return None;
        }
        Some(self.slots[handle.slot].bytes.len())
    }

    /// The byte at offset `at` of the region of `handle`, if there is one.
    pub fn get(&self, handle: &SharedByteBuffer, at: usize) -> (r: Option<u8>)
        ensures
            r.is_some() <==> live(self@, handle.index()) && at < self@[handle.index()].bytes.len(),
            r matches Some(value) ==> value == self@[handle.index()].bytes[at as int],
    {
        if self.holders(handle) == 0 {
            return None;
        }
        if at >= self.slots[handle.slot].bytes.len() {
            return None;
        }
        Some(self.slots[handle.slot].bytes[at])
    }

    /// Puts `value` at offset `at` of the region of `handle`.
    pub fn set(&mut self, handle: &SharedByteBuffer, at: usize, value: u8) -> (r: Result<
        (),
        PoolError,
    >)
        ensures
            r.is_ok() <==> live(old(self)@, handle.index()) && at < old(
                self,
            )@[handle.index()].bytes.len(),
            r is Ok ==> final(self)@ == written(old(self)@, handle.index(), at as int, seq![value]),
            r is Err ==> final(self)@ == old(self)@,
            r matches Err(e) ==> e == if live(old(self)@, handle.index()) {
                PoolError::OutOfBounds
            } else {
                PoolError::Stale
            },
    {
        if self.holders(handle) == 0 {
            return Err(PoolError::Stale);
        }
        if at >= self.slots[handle.slot].bytes.len() {
            return Err(PoolError::OutOfBounds);
        }
        self.slots[handle.slot].bytes[at] = value;
        assert(self.slots@[handle.index()].bytes@ =~= overlaid(
            old(self)@[handle.index()].bytes,
            at as int,
            seq![value],
        ));
        assert(self@ =~= written(old(self)@, handle.index(), at as int, seq![value]));
        Ok(())
    }

    /// Copies `length` bytes out of the region of `handle`, from offset `at` on.
    pub fn read_at(&self, handle: &SharedByteBuffer, at: usize, length: usize) -> (r: Option<
        Vec<u8>,
    >)
        ensures
            r.is_some() <==> live(self@, handle.index()) && at + length
                <= self@[handle.index()].bytes.len(),
            r matches Some(chunk) ==> chunk@ == self@[handle.index()].bytes.subrange(
                at as int,
                at + length,
            ),
    {
        if self.holders(handle) == 0 {
            return None;
        }
        let total: usize = self.slots[handle.slot].bytes.len();
        if at > total || length > total - at {
            return None;
        }
        let mut chunk: Vec<u8> = Vec::new();
        let mut k: usize = 0;
        while k < length
            invariant
                handle.slot < self.slots@.len(),
                total == self.slots@[handle.index()].bytes@.len(),
                at + length <= total,
                k <= length,
                chunk@ == self.slots@[handle.index()].bytes@.subrange(at as int, at + k),
            decreases length - k,
        {
            chunk.push(self.slots[handle.slot].bytes[at + k]);
            k = k + 1;
        }
        Some(chunk)
    }

    /// Copies `chunk` into the region of `handle`, from offset `at` on.
    pub fn write_at(&mut self, handle: &SharedByteBuffer, at: usize, chunk: &[u8]) -> (r: Result<
        (),
        PoolError,
    >)
        ensures
            r.is_ok() <==> live(old(self)@, handle.index()) && at + chunk@.len() <= old(
                self,
            )@[handle.index()].bytes.len(),
            r is Ok ==> final(self)@ == written(old(self)@, handle.index(), at as int, chunk@),
            r is Err ==> final(self)@ == old(self)@,
            r matches Err(e) ==> e == if live(old(self)@, handle.index()) {
                PoolError::OutOfBounds
            } else {
                PoolError::Stale
            },
    {
        if self.holders(handle) == 0 {
            return Err(PoolError::Stale);
        }
        let total: usize = self.slots[handle.slot].bytes.len();
        let length: usize = chunk.len();
        if at > total || length > total - at {
            return Err(PoolError::OutOfBounds);
        }
        let mut k: usize = 0;
        assert(self.slots@[handle.index()].bytes@ =~= overlaid(
            old(self).slots@[handle.index()].bytes@,
            at as int,
            chunk@.subrange(0, 0),
        ));
        while k < length
            invariant
                handle.slot < self.slots@.len(),
                self.slots@.len() == old(self).slots@.len(),
                length == chunk@.len(),
                at + length <= total,
                k <= length,
                total == old(self).slots@[handle.index()].bytes@.len(),
                forall|i: int|
                    0 <= i < self.slots@.len() && i != handle.index() ==> self.slots@[i] == old(
                        self,
                    ).slots@[i],
                self.slots@[handle.index()].holders == old(self).slots@[handle.index()].holders,
                self.slots@[handle.index()].bytes@ == overlaid(
                    old(self).slots@[handle.index()].bytes@,
                    at as int,
                    chunk@.subrange(0, k as int),
                ),
            decreases length - k,
        {
            self.slots[handle.slot].bytes[at + k] = chunk[k];
            assert(self.slots@[handle.index()].bytes@ =~= overlaid(
                old(self).slots@[handle.index()].bytes@,
                at as int,
                chunk@.subrange(0, k + 1),
            ));
            k = k + 1;
        }
        assert(chunk@.subrange(0, length as int) =~= chunk@);
        assert(self@ =~= written(old(self)@, handle.index(), at as int, chunk@));
        Ok(())
    }
}

} // verus!
