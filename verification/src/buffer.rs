//! Audio buffers: a number of packed samples in a region of a pool.
//!
//! A buffer of `buffer_size` samples at `bit_depth` bits is backed by
//! `bit_depth / 8 * buffer_size` bytes; sample `i` takes the bytes from
//! `i * (bit_depth / 8)` on, least significant first.

use vstd::prelude::*;
use crate::codec::{be_value, decode, decoded, encode, encoded, handled, is_handled};
use crate::codec::{law_round_trip, lemma_le_bytes_shape, limit_of};
use crate::pool::{allocated, cleared, live, released, resized, shared, with_bytes, written};
use crate::pool::{BufferPool, PoolError, Region, SharedByteBuffer};

verus! {

/// The bytes that `count` samples take at `bit_depth`.
pub open spec fn byte_length(bit_depth: u32, count: u32) -> int {
    (bit_depth / 8) * count
}

/// `bytes`, cut off after `room` of them.
pub open spec fn fitting_prefix(bytes: Seq<u8>, room: nat) -> Seq<u8> {
    if bytes.len() <= room {
        bytes
    } else {
        bytes.take(room as int)
    }
}

/// Why a buffer could not be given another shape.
#[derive(Clone, Copy, Debug, PartialEq, Eq)]
pub enum BufferError {
    /// The backing has another holder; replacing it would pull it from under that one.
    Shared,
    /// The bytes asked for cannot be counted in 32 bits.
    TooLarge,
}

/// A number of samples of one bit depth, packed into a region of a pool.
///
/// The buffer itself holds the shape and the handle; the bytes are in the
/// pool, which every operation on them takes. A buffer made by
/// [`AudioBuffer::share`] has the same bytes as the one it was made from.
#[derive(Debug)]
pub struct AudioBuffer {
    channels: u32,
    bit_depth: u32,
    buffer_size: u32,
    data: Option<SharedByteBuffer>,
}

impl AudioBuffer {
    #[verifier::type_invariant]
    spec fn countable(&self) -> bool {
        byte_length(self.bit_depth, self.buffer_size) <= u32::MAX
    }

    /// The channel count.
    pub closed spec fn spec_channels(&self) -> u32 {
        self.channels
    }

    /// The bits per sample.
    pub closed spec fn spec_bit_depth(&self) -> u32 {
        self.bit_depth
    }

    /// The number of samples.
    pub closed spec fn spec_size(&self) -> u32 {
        self.buffer_size
    }

    /// The slot of the pool that backs the buffer, if it has one.
    pub closed spec fn backing(&self) -> Option<int> {
        match self.data {
            Some(handle) => Some(handle.index()),
            None => None,
        }
    }

    /// The bytes that the buffer takes.
    pub open spec fn spec_real_size(&self) -> int {
        byte_length(self.spec_bit_depth(), self.spec_size())
    }

    /// Whether the buffer is sound in `pool`: its backing is live there and
    /// has the length that the shape asks for. A buffer without backing is
    /// sound while it takes no bytes.
    pub open spec fn wf(&self, pool: Seq<Region>) -> bool {
        &&& self.spec_real_size() <= u32::MAX
        &&& match self.backing() {
            Some(slot) => live(pool, slot) && pool[slot].bytes.len() == self.spec_real_size(),
            None => self.spec_real_size() == 0,
        }
    }

    /// The bytes of the buffer in `pool`.
    pub open spec fn contents(&self, pool: Seq<Region>) -> Seq<u8> {
        match self.backing() {
            Some(slot) => pool[slot].bytes,
            None => Seq::empty(),
        }
    }

    /// The offset of the sample that `index` stands for: indices wrap around
    /// at the number of samples.
    pub open spec fn offset_of(&self, index: int) -> int {
        (index % (self.spec_size() as int)) * (self.spec_bit_depth() / 8)
    }

    /// Whether samples can be read and written: there is at least one, and
    /// the codec handles the depth.
    pub open spec fn readable(&self) -> bool {
        self.spec_size() > 0 && handled(self.spec_bit_depth()) && self.backing() is Some
    }

    /// The level of the sample that `index` stands for; 0 where no sample can be read.
    pub open spec fn level_at(&self, pool: Seq<Region>, index: int) -> int {
        if self.readable() {
            let at = self.offset_of(index);
            decoded(
                self.contents(pool).subrange(at, at + self.spec_bit_depth() / 8).reverse(),
                self.spec_bit_depth(),
            )
        } else {
            0
        }
    }

    /// `pool` after `level` is written to the sample that `index` stands for.
    pub open spec fn after_write(&self, pool: Seq<Region>, index: int, level: int) -> Seq<Region> {
        if self.readable() {
            written(
                pool,
                self.backing().unwrap(),
                self.offset_of(index),
                encoded(level, self.spec_bit_depth()),
            )
        } else {
            pool
        }
    }

    /// Whether the backing has a holder besides this buffer.
    pub open spec fn is_shared(&self, pool: Seq<Region>) -> bool {
        self.backing() matches Some(slot) && pool[slot].holders > 1
    }

    /// `pool` after every byte of the buffer is set to zero.
    pub open spec fn after_clear(&self, pool: Seq<Region>) -> Seq<Region> {
        match self.backing() {
            Some(slot) => cleared(pool, slot),
            None => pool,
        }
    }

    /// `pool` after the backing is replaced by `length` zero bytes. A buffer
    /// without backing gets a new region.
    pub open spec fn after_reback(&self, pool: Seq<Region>, length: nat) -> Seq<Region> {
        match self.backing() {
            Some(slot) => resized(pool, slot, length),
            None => allocated(pool, length),
        }
    }

    /// The slot that backs the buffer once its backing is replaced in `pool`.
    pub open spec fn slot_after_reback(&self, pool: Seq<Region>) -> int {
        match self.backing() {
            Some(slot) => slot,
            None => pool.len() as int,
        }
    }

    /// `pool` after `bytes` are copied over the start of the backing.
    pub open spec fn after_load(&self, pool: Seq<Region>, bytes: Seq<u8>) -> Seq<Region> {
        match self.backing() {
            Some(slot) => written(pool, slot, 0, fitting_prefix(bytes, pool[slot].bytes.len())),
            None => pool,
        }
    }

    /// Whether `other` has the shape of this buffer.
    pub open spec fn same_shape(&self, other: &AudioBuffer) -> bool {
        &&& self.spec_channels() == other.spec_channels()
        &&& self.spec_bit_depth() == other.spec_bit_depth()
        &&& self.spec_size() == other.spec_size()
    }

    /// Whether every sample of the buffer reads as level 0.
    pub open spec fn silent(&self, pool: Seq<Region>) -> bool {
        forall|index: int| self.level_at(pool, index) == 0
    }

    /// Makes a buffer of the given shape, backed by a new zero-filled region of `pool`.
    pub fn init(pool: &mut BufferPool, channels: u32, bit_depth: u32, buffer_size: u32) -> (buffer:
        Self)
        requires
            byte_length(bit_depth, buffer_size) <= u32::MAX,
        ensures
            buffer.spec_channels() == channels,
            buffer.spec_bit_depth() == bit_depth,
            buffer.spec_size() == buffer_size,
            buffer.backing() == Some(old(pool)@.len() as int),
            final(pool)@ == allocated(old(pool)@, byte_length(bit_depth, buffer_size) as nat),
            buffer.wf(final(pool)@),
            buffer.silent(final(pool)@),
    {
        let size: u32 = bit_depth / 8 * buffer_size;
        let handle = pool.allocate(size as usize);
        let buffer = AudioBuffer { channels, bit_depth, buffer_size, data: Some(handle) };
        proof {
            lemma_zeros_are_silent(&buffer, pool@);
        }
        buffer
    }

    /// The number of samples.
    #[verifier::when_used_as_spec(spec_size)]
    pub fn size(&self) -> (r: u32)
        ensures
            r == self.spec_size(),
    {
        self.buffer_size
    }

    /// The number of bytes that the samples take.
    pub fn real_size(&self) -> (r: u32)
        ensures
            r == self.spec_real_size(),
    {
        proof {
            use_type_invariant(self);
        }
        self.bit_depth / 8 * self.buffer_size
    }

    /// The channel count.
    #[verifier::when_used_as_spec(spec_channels)]
    pub fn channels(&self) -> (r: u32)
        ensures
            r == self.spec_channels(),
    {
        self.channels
    }

    /// The bits per sample.
    #[verifier::when_used_as_spec(spec_bit_depth)]
    pub fn bit_depth(&self) -> (r: u32)
        ensures
            r == self.spec_bit_depth(),
    {
        self.bit_depth
    }
}

impl AudioBuffer {
    /// Reads the sample at `index`, as its level. The index wraps
    /// around at the number of samples. Where no sample can be read (no
    /// samples, or a depth that the codec does not handle) the level is 0.
    pub fn read(&self, pool: &BufferPool, index: u32) -> (level: i32)
        requires
            self.wf(pool@),
        ensures
            level == self.level_at(pool@, index as int),
    {
        proof {
            use_type_invariant(self);
        }
        if self.buffer_size == 0 || !is_handled(self.bit_depth) {
            return 0;
        }
        match &self.data {
            None => 0,
            Some(handle) => {
                let width: usize = (self.bit_depth / 8) as usize;
                let wrapped: usize = (index % self.buffer_size) as usize;
                proof {
                    lemma_sample_in_bounds(wrapped as int, self.buffer_size as int, width as int);
                }
                let at: usize = wrapped * width;
                match pool.read_at(handle, at, width) {
                    None => 0,
                    Some(chunk) => {
                        let turned = back_to_front(&chunk);
                        match decode(turned.as_slice(), self.bit_depth) {
                            None => 0,
                            Some(level) => level,
                        }
                    },
                }
            },
        }
    }

    /// Writes `level` to the sample at `index`. The index
    /// wraps around at the number of samples. The bytes of the sample are
    /// replaced, not added to. Where no sample can be read, nothing is written.
    pub fn write(&self, pool: &mut BufferPool, index: u32, level: i32)
        requires
            self.wf(old(pool)@),
        ensures
            final(pool)@ == self.after_write(old(pool)@, index as int, level as int),
            self.wf(final(pool)@),
    {
        proof {
            use_type_invariant(self);
        }
        if self.buffer_size == 0 {
            return ;
        }
        match &self.data {
            None => {},
            Some(handle) => {
                let width: usize = (self.bit_depth / 8) as usize;
                let wrapped: usize = (index % self.buffer_size) as usize;
                proof {
                    lemma_sample_in_bounds(wrapped as int, self.buffer_size as int, width as int);
                }
                let at: usize = wrapped * width;
                match encode(level, self.bit_depth) {
                    None => {},
                    Some(bytes) => {
                        proof {
                            lemma_le_bytes_shape(level as int, width as nat);
                        }
                        let _ = pool.write_at(handle, at, bytes.as_slice());
                    },
                }
            },
        }
    }
}

impl AudioBuffer {
    /// Reads every sample into `buffer`, as levels. A slice whose
    /// length is not the number of samples is left as it is.
    pub fn read_slice(&self, pool: &BufferPool, buffer: &mut [i32])
        requires
            self.wf(pool@),
        ensures
            final(buffer)@.len() == old(buffer)@.len(),
            old(buffer)@.len() != self.spec_size() ==> final(buffer)@ == old(buffer)@,
            old(buffer)@.len() == self.spec_size() ==> forall|i: int|
                0 <= i < self.spec_size() ==> final(buffer)@[i] == self.level_at(pool@, i),
    {
        if buffer.len() != self.buffer_size as usize {
            return ;
        }
        let mut index: u32 = 0;
        while index < self.buffer_size
            invariant
                self.wf(pool@),
                buffer@.len() == self.spec_size(),
                index <= self.spec_size(),
                forall|i: int| 0 <= i < index ==> buffer@[i] == self.level_at(pool@, i),
            decreases self.spec_size() - index,
        {
            buffer[index as usize] = self.read(pool, index);
            index = index + 1;
        }
    }
}

/// The bytes of `levels` at `bit_depth`, one sample after the other.
pub open spec fn packed(levels: Seq<i32>, bit_depth: u32) -> Seq<u8> {
    let width = (bit_depth / 8) as int;
    Seq::new(
        (width * levels.len()) as nat,
        |j: int| encoded(levels[j / width] as int, bit_depth)[j % width],
    )
}

/// `bytes` with its first `count` samples replaced by those of `levels`.
spec fn partly_packed(bytes: Seq<u8>, levels: Seq<i32>, bit_depth: u32, count: int) -> Seq<u8> {
    let width = (bit_depth / 8) as int;
    Seq::new(
        bytes.len(),
        |j: int|
            if j < width * count {
                packed(levels, bit_depth)[j]
            } else {
                bytes[j]
            },
    )
}

impl AudioBuffer {
    /// Writes every sample from `buffer`. A slice whose
    /// length is not the number of samples is ignored.
    pub fn write_slice(&self, pool: &mut BufferPool, buffer: &[i32])
        requires
            self.wf(old(pool)@),
        ensures
            final(pool)@ == if buffer@.len() == self.spec_size() && self.readable() {
                with_bytes(
                    old(pool)@,
                    self.backing().unwrap(),
                    packed(buffer@, self.spec_bit_depth()),
                )
            } else {
                old(pool)@
            },
            self.wf(final(pool)@),
    {
        proof {
            use_type_invariant(self);
        }
        if buffer.len() != self.buffer_size as usize {
            return ;
        }
        if self.buffer_size == 0 || !is_handled(self.bit_depth) || self.data.is_none() {
            return ;
        }
        let ghost slot = self.backing().unwrap();
        let ghost start = old(pool)@[slot].bytes;
        let ghost width = (self.bit_depth / 8) as int;
        let mut index: u32 = 0;
        assert(pool@ =~= with_bytes(
            old(pool)@,
            slot,
            partly_packed(start, buffer@, self.bit_depth, 0),
        )) by {
            assert(partly_packed(start, buffer@, self.bit_depth, 0) =~= start);
        }
        while index < self.buffer_size
            invariant
                self.readable(),
                self.backing() == Some(slot),
                self.wf(old(pool)@),
                self.wf(pool@),
                start == old(pool)@[slot].bytes,
                width == self.spec_bit_depth() / 8,
                buffer@.len() == self.spec_size(),
                index <= self.spec_size(),
                pool@ == with_bytes(
                    old(pool)@,
                    slot,
                    partly_packed(start, buffer@, self.spec_bit_depth(), index as int),
                ),
            decreases self.spec_size() - index,
        {
            let ghost before = pool@;
            let level: i32 = buffer[index as usize];
            self.write(pool, index, level);
            proof {
                let depth = self.spec_bit_depth();
                let count = self.spec_size() as int;
                let i = index as int;
                lemma_sample_in_bounds(i, count, width);
                lemma_le_bytes_shape(level as int, width as nat);
                assert(width * (i + 1) == width * i + width && i * width == width * i)
                    by (nonlinear_arith);
                vstd::arithmetic::div_mod::lemma_small_mod(i as nat, count as nat);
                let had = partly_packed(start, buffer@, depth, i);
                let got = pool@[slot].bytes;
                let want = partly_packed(start, buffer@, depth, i + 1);
                assert(got.len() == want.len());
                assert forall|j: int| 0 <= j < got.len() implies got[j] == want[j] by {
                    if width * i <= j < width * i + width {
                        lemma_within_sample(j, i, width);
                    }
                }
                assert(got =~= want);
                assert(pool@ =~= with_bytes(old(pool)@, slot, want));
            }
            index = index + 1;
        }
        proof {
            let depth = self.spec_bit_depth();
            assert(partly_packed(start, buffer@, depth, index as int) =~= packed(buffer@, depth));
        }
    }

    /// Sets the number of samples. The backing is replaced by a zero-filled
    /// one of the length that the new shape asks for, so what the buffer held
    /// is lost. A buffer whose backing has another holder is left as it is.
    pub fn resize(&mut self, pool: &mut BufferPool, buffer_size: u32) -> (r: Result<
        (),
        BufferError,
    >)
        requires
            old(self).wf(old(pool)@),
        ensures
            r.is_ok() <==> byte_length(old(self).spec_bit_depth(), buffer_size) <= u32::MAX && !old(
                self,
            ).is_shared(old(pool)@),
            r matches Err(e) ==> e == if byte_length(old(self).spec_bit_depth(), buffer_size)
                > u32::MAX {
                BufferError::TooLarge
            } else {
                BufferError::Shared
            },
            r is Err ==> *final(self) == *old(self) && final(pool)@ == old(pool)@,
            r is Ok ==> {
                &&& final(self).spec_channels() == old(self).spec_channels()
                &&& final(self).spec_bit_depth() == old(self).spec_bit_depth()
                &&& final(self).spec_size() == buffer_size
                &&& final(self).backing() == Some(old(self).slot_after_reback(old(pool)@))
                &&& final(pool)@ == old(self).after_reback(
                    old(pool)@,
                    byte_length(old(self).spec_bit_depth(), buffer_size) as nat,
                )
                &&& final(self).silent(final(pool)@)
            },
            final(self).wf(final(pool)@),
    {
        proof {
            use_type_invariant(&*self);
        }
        assert((self.bit_depth / 8) * buffer_size <= 0x2000_0000 * 0x1_0000_0000)
            by (nonlinear_arith)
            requires
                self.bit_depth / 8 <= 0x2000_0000,
                buffer_size <= 0x1_0000_0000,
        ;
        let length: u64 = (self.bit_depth / 8) as u64 * buffer_size as u64;
        if length > u32::MAX as u64 {
            return Err(BufferError::TooLarge);
        }
        match self.reback(pool, length as usize) {
            Err(e) => Err(e),
            Ok(()) => {
                self.buffer_size = buffer_size;
                proof {
                    lemma_zeros_are_silent(self, pool@);
                }
                Ok(())
            },
        }
    }

    /// Replaces the backing by `length` zero bytes; the shape stays, so the
    /// caller has to set it to match.
    fn reback(&mut self, pool: &mut BufferPool, length: usize) -> (r: Result<(), BufferError>)
        requires
            old(self).wf(old(pool)@),
        ensures
            r.is_ok() <==> !old(self).is_shared(old(pool)@),
            r matches Err(e) ==> e == BufferError::Shared,
            r is Err ==> *final(self) == *old(self) && final(pool)@ == old(pool)@,
            final(self).same_shape(old(self)),
            r is Ok ==> {
                &&& final(self).backing() == Some(old(self).slot_after_reback(old(pool)@))
                &&& final(pool)@ == old(self).after_reback(old(pool)@, length as nat)
            },
    {
        proof {
            use_type_invariant(&*self);
        }
        match &self.data {
            Some(handle) => {
                match pool.resize(handle, length) {
                    Err(_) => Err(BufferError::Shared),
                    Ok(()) => Ok(()),
                }
            },
            None => {
                let handle = pool.allocate(length);
                self.data = Some(handle);
                Ok(())
            },
        }
    }

    /// Clears the buffer: every byte of the backing is set to zero, for all its holders.
    pub fn clear(&self, pool: &mut BufferPool)
        requires
            self.wf(old(pool)@),
        ensures
            final(pool)@ == self.after_clear(old(pool)@),
            self.wf(final(pool)@),
            self.silent(final(pool)@),
    {
        match &self.data {
            Some(handle) => {
                let _ = pool.clear(handle);
            },
            None => {},
        }
        proof {
            lemma_zeros_are_silent(self, pool@);
        }
    }

    /// Sets the channel count, and clears the buffer.
    pub fn set_channels(&mut self, pool: &mut BufferPool, channels: u32)
        requires
            old(self).wf(old(pool)@),
        ensures
            final(self).spec_channels() == channels,
            final(self).spec_bit_depth() == old(self).spec_bit_depth(),
            final(self).spec_size() == old(self).spec_size(),
            final(self).backing() == old(self).backing(),
            final(pool)@ == old(self).after_clear(old(pool)@),
            final(self).wf(final(pool)@),
            final(self).silent(final(pool)@),
    {
        proof {
            use_type_invariant(&*self);
        }
        self.channels = channels;
        self.clear(pool);
    }

    /// Sets the bits per sample. Where the new depth takes as many bytes as
    /// the old one the buffer is cleared; else the backing is replaced by a
    /// zero-filled one of the new length, unless it has another holder.
    pub fn set_bit_depth(&mut self, pool: &mut BufferPool, bit_depth: u32) -> (r: Result<
        (),
        BufferError,
    >)
        requires
            old(self).wf(old(pool)@),
        ensures
            r.is_ok() <==> byte_length(bit_depth, old(self).spec_size()) <= u32::MAX && (
            byte_length(bit_depth, old(self).spec_size()) == old(self).spec_real_size() || !old(
                self,
            ).is_shared(old(pool)@)),
            r matches Err(e) ==> e == if byte_length(bit_depth, old(self).spec_size()) > u32::MAX {
                BufferError::TooLarge
            } else {
                BufferError::Shared
            },
            r is Err ==> *final(self) == *old(self) && final(pool)@ == old(pool)@,
            r is Ok ==> {
                &&& final(self).spec_channels() == old(self).spec_channels()
                &&& final(self).spec_bit_depth() == bit_depth
                &&& final(self).spec_size() == old(self).spec_size()
                &&& final(self).silent(final(pool)@)
                &&& if byte_length(bit_depth, old(self).spec_size()) == old(self).spec_real_size() {
                    &&& final(self).backing() == old(self).backing()
                    &&& final(pool)@ == old(self).after_clear(old(pool)@)
                } else {
                    &&& final(self).backing() == Some(old(self).slot_after_reback(old(pool)@))
                    &&& final(pool)@ == old(self).after_reback(
                        old(pool)@,
                        byte_length(bit_depth, old(self).spec_size()) as nat,
                    )
                }
            },
            final(self).wf(final(pool)@),
    {
        proof {
            use_type_invariant(&*self);
        }
        assert((bit_depth / 8) * self.buffer_size <= 0x2000_0000 * 0x1_0000_0000)
            by (nonlinear_arith)
            requires
                bit_depth / 8 <= 0x2000_0000,
                self.buffer_size <= 0x1_0000_0000,
        ;
        let length: u64 = (bit_depth / 8) as u64 * self.buffer_size as u64;
        if length > u32::MAX as u64 {
            return Err(BufferError::TooLarge);
        }
        if length == self.real_size() as u64 {
            self.bit_depth = bit_depth;
            self.clear(pool);
            return Ok(());
        }
        match self.reback(pool, length as usize) {
            Err(e) => Err(e),
            Ok(()) => {
                self.bit_depth = bit_depth;
                proof {
                    lemma_zeros_are_silent(self, pool@);
                }
                Ok(())
            },
        }
    }

    /// Copies `bytes` over the start of the backing, as they are and as far
    /// as the backing goes.
    pub fn load(&self, pool: &mut BufferPool, bytes: &[u8])
        requires
            self.wf(old(pool)@),
        ensures
            final(pool)@ == self.after_load(old(pool)@, bytes@),
            self.wf(final(pool)@),
    {
        proof {
            use_type_invariant(self);
        }
        match &self.data {
            Some(handle) => {
                let room: usize = self.real_size() as usize;
                let fitting = if bytes.len() <= room {
                    bytes
                } else {
                    vstd::slice::slice_subrange(bytes, 0, room)
                };
                assert(fitting@ =~= fitting_prefix(bytes@, room as nat));
                let _ = pool.write_at(handle, 0, fitting);
            },
            None => {},
        }
    }

    /// Copies the bytes of the backing out, in their order.
    pub fn bytes(&self, pool: &BufferPool) -> (bytes: Vec<u8>)
        requires
            self.wf(pool@),
        ensures
            bytes@ == self.contents(pool@),
    {
        proof {
            use_type_invariant(self);
        }
        match &self.data {
            Some(handle) => match pool.read_at(handle, 0, self.real_size() as usize) {
                Some(bytes) => {
                    assert(bytes@ =~= self.contents(pool@));
                    bytes
                },
                None => Vec::new(),
            },
            None => Vec::new(),
        }
    }

    /// Makes a second buffer of the same shape on the same backing. Nothing
    /// is copied: what is written through one is read through the other.
    pub fn share(&self, pool: &mut BufferPool) -> (r: Result<AudioBuffer, PoolError>)
        requires
            self.wf(old(pool)@),
        ensures
            r.is_ok() <==> (self.backing() matches Some(slot) ==> old(pool)@[slot].holders
                < u32::MAX),
            r matches Err(e) ==> e == PoolError::Saturated && final(pool)@ == old(pool)@,
            r matches Ok(twin) ==> {
                &&& twin.same_shape(self)
                &&& twin.backing() == self.backing()
                &&& final(pool)@ == match self.backing() {
                    Some(slot) => shared(old(pool)@, slot),
                    None => old(pool)@,
                }
                &&& twin.wf(final(pool)@)
            },
            self.wf(final(pool)@),
    {
        proof {
            use_type_invariant(self);
        }
        match &self.data {
            None => Ok(
                AudioBuffer {
                    channels: self.channels,
                    bit_depth: self.bit_depth,
                    buffer_size: self.buffer_size,
                    data: None,
                },
            ),
            Some(handle) => match pool.share(handle) {
                Err(e) => Err(e),
                Ok(twin) => Ok(
                    AudioBuffer {
                        channels: self.channels,
                        bit_depth: self.bit_depth,
                        buffer_size: self.buffer_size,
                        data: Some(twin),
                    },
                ),
            },
        }
    }

    /// Gives the buffer up. The backing goes with its last holder; the
    /// result tells whether it went with this one.
    pub fn release(self, pool: &mut BufferPool) -> (freed: bool)
        requires
            self.wf(old(pool)@),
        ensures
            final(pool)@ == match self.backing() {
                Some(slot) => released(old(pool)@, slot),
                None => old(pool)@,
            },
            freed == (self.backing() matches Some(slot) && old(pool)@[slot].holders == 1),
    {
        match self.data {
            None => false,
            Some(handle) => match pool.release(handle) {
                Ok(last) => last,
                Err(_) => false,
            },
        }
    }
}

/// An index stands for the sample at its remainder by the number of
/// samples: reading and writing at `index` are reading and writing there.
pub proof fn law_wrap_around(buffer: &AudioBuffer, pool: Seq<Region>, index: int, level: int)
    ensures
        buffer.spec_size() > 0 ==> buffer.level_at(pool, index) == buffer.level_at(
            pool,
            index % (buffer.spec_size() as int),
        ),
        buffer.spec_size() > 0 ==> buffer.after_write(pool, index, level) == buffer.after_write(
            pool,
            index % (buffer.spec_size() as int),
            level,
        ),
        buffer.spec_size() > 0 ==> buffer.level_at(pool, index) == buffer.level_at(
            pool,
            index + buffer.spec_size(),
        ),
{
    if buffer.spec_size() > 0 {
        let count = buffer.spec_size() as int;
        vstd::arithmetic::div_mod::lemma_mod_twice(index, count);
        vstd::arithmetic::div_mod::lemma_mod_add_multiples_vanish(index, count);
    }
}

/// A level from 0 to the limit that is written to a sample is read from it,
/// and every other sample reads as before.
pub proof fn law_write_then_read(
    buffer: &AudioBuffer,
    pool: Seq<Region>,
    index: int,
    level: int,
    other: int,
)
    requires
        buffer.wf(pool),
        buffer.readable(),
        0 <= level <= limit_of(buffer.spec_bit_depth()),
    ensures
        buffer.wf(buffer.after_write(pool, index, level)),
        buffer.level_at(buffer.after_write(pool, index, level), index) == level,
        other % (buffer.spec_size() as int) != index % (buffer.spec_size() as int)
            ==> buffer.level_at(buffer.after_write(pool, index, level), other) == buffer.level_at(
            pool,
            other,
        ),
{
    let depth = buffer.spec_bit_depth();
    let count = buffer.spec_size() as int;
    let width = (depth / 8) as int;
    let at = buffer.offset_of(index);
    let after = buffer.after_write(pool, index, level);
    lemma_sample_in_bounds(index % count, count, width);
    lemma_le_bytes_shape(level, width as nat);
    assert(buffer.contents(after).subrange(at, at + width) =~= encoded(level, depth));
    law_round_trip(level, depth);
    let i = index % count;
    let o = other % count;
    if o != i {
        let there = buffer.offset_of(other);
        lemma_sample_in_bounds(o, count, width);
        assert(there + width <= at || at + width <= there) by (nonlinear_arith)
            requires
                there == o * width,
                at == i * width,
                o != i,
                width >= 0,
        ;
        assert(buffer.contents(after).subrange(there, there + width) =~= buffer.contents(
            pool,
        ).subrange(there, there + width));
    }
}

/// Of two buffers on one backing, the one that stays is sound and reads as
/// before once the other is given up. It is the last holder then, if there
/// were two.
pub proof fn law_release_keeps_twin(
    gone: &AudioBuffer,
    kept: &AudioBuffer,
    pool: Seq<Region>,
    index: int,
)
    requires
        gone.wf(pool),
        kept.wf(pool),
        gone.backing() is Some,
        gone.backing() == kept.backing(),
        pool[gone.backing().unwrap()].holders >= 2,
    ensures
        ({
            let slot = gone.backing().unwrap();
            let after = released(pool, slot);
            &&& kept.wf(after)
            &&& kept.contents(after) == kept.contents(pool)
            &&& kept.level_at(after, index) == kept.level_at(pool, index)
            &&& after[slot].holders == pool[slot].holders - 1
            &&& !live(released(after, slot), slot) <==> pool[slot].holders == 2
        }),
{
}

/// Two buffers of one shape on one backing: a level from 0 to the limit
/// that is written through one is read through the other.
pub proof fn law_twin_reads_what_is_written(
    writer: &AudioBuffer,
    reader: &AudioBuffer,
    pool: Seq<Region>,
    index: int,
    level: int,
)
    requires
        writer.wf(pool),
        writer.readable(),
        reader.same_shape(writer),
        reader.backing() == writer.backing(),
        0 <= level <= limit_of(writer.spec_bit_depth()),
    ensures
        reader.wf(writer.after_write(pool, index, level)),
        reader.level_at(writer.after_write(pool, index, level), index) == level,
{
    law_write_then_read(writer, pool, index, level, index);
}

/// What is done to the bytes of one buffer leaves a buffer on another
/// backing as it is: sound, and with the bytes it had.
pub proof fn law_other_backing_untouched(
    changed: &AudioBuffer,
    other: &AudioBuffer,
    pool: Seq<Region>,
    index: int,
    level: int,
    bytes: Seq<u8>,
    length: nat,
)
    requires
        changed.wf(pool),
        other.wf(pool),
        changed.backing() != other.backing(),
    ensures
        other.wf(changed.after_write(pool, index, level)),
        other.contents(changed.after_write(pool, index, level)) == other.contents(pool),
        other.wf(changed.after_load(pool, bytes)),
        other.contents(changed.after_load(pool, bytes)) == other.contents(pool),
        other.wf(changed.after_clear(pool)),
        other.contents(changed.after_clear(pool)) == other.contents(pool),
        other.wf(changed.after_reback(pool, length)),
        other.contents(changed.after_reback(pool, length)) == other.contents(pool),
        changed.backing() matches Some(slot) ==> other.wf(released(pool, slot)) && other.contents(
            released(pool, slot),
        ) == other.contents(pool),
{
}

/// Within one sample, the quotient of an offset by the width is the sample's
/// index and the remainder is the place within it.
proof fn lemma_within_sample(j: int, i: int, width: int)
    requires
        0 <= i,
        width * i <= j < width * i + width,
    ensures
        j / width == i,
        j % width == j - width * i,
{
    assert(i * width == width * i) by (nonlinear_arith);
    vstd::arithmetic::div_mod::lemma_fundamental_div_mod_converse(j, width, i, j - width * i);
}

/// Zero bytes hold the value 0.
proof fn lemma_zero_bytes_value(bytes: Seq<u8>)
    requires
        forall|i: int| 0 <= i < bytes.len() ==> bytes[i] == 0,
    ensures
        be_value(bytes) == 0,
    decreases bytes.len(),
{
    if bytes.len() > 0 {
        lemma_zero_bytes_value(bytes.drop_last());
    }
}

/// A buffer whose bytes are all zero is silent.
proof fn lemma_zeros_are_silent(buffer: &AudioBuffer, pool: Seq<Region>)
    requires
        buffer.wf(pool),
        forall|i: int| 0 <= i < buffer.contents(pool).len() ==> buffer.contents(pool)[i] == 0,
    ensures
        buffer.silent(pool),
{
    assert forall|index: int| buffer.level_at(pool, index) == 0 by {
        if buffer.readable() {
            let width = (buffer.spec_bit_depth() / 8) as int;
            let at = buffer.offset_of(index);
            lemma_sample_in_bounds(
                index % (buffer.spec_size() as int),
                buffer.spec_size() as int,
                width,
            );
            lemma_zero_bytes_value(buffer.contents(pool).subrange(at, at + width).reverse());
        }
    }
}

/// A sample that lies within the count ends within the bytes.
proof fn lemma_sample_in_bounds(i: int, count: int, width: int)
    requires
        0 <= i < count,
        0 <= width,
    ensures
        0 <= i * width,
        i * width + width <= width * count,
{
    assert(0 <= i * width && i * width + width <= width * count) by (nonlinear_arith)
        requires
            0 <= i < count,
            0 <= width,
    ;
}

/// The bytes of `bytes` from the last to the first.
fn back_to_front(bytes: &Vec<u8>) -> (turned: Vec<u8>)
    ensures
        turned@ == bytes@.reverse(),
{
    let n: usize = bytes.len();
    let mut turned: Vec<u8> = Vec::new();
    let mut k: usize = 0;
    while k < n
        invariant
            n == bytes@.len(),
            k <= n,
            turned@.len() == k,
            forall|i: int| 0 <= i < k ==> turned@[i] == bytes@[n - 1 - i],
        decreases n - k,
    {
        turned.push(bytes[n - 1 - k]);
        k = k + 1;
    }
    assert(turned@ =~= bytes@.reverse());
    turned
}

impl Default for AudioBuffer {
    /// A buffer of no samples, with zeroed shape and no backing.
    fn default() -> (buffer: Self)
        ensures
            buffer.spec_channels() == 0,
            buffer.spec_bit_depth() == 0,
            buffer.spec_size() == 0,
            buffer.backing() is None,
    {
        AudioBuffer { channels: 0, bit_depth: 0, buffer_size: 0, data: None }
    }
}

} // verus!
