//! The streaming device: two audio buffers, the settings that frames
//! announce, and the steps of the streaming loop.
//!
//! The device holds no transport and no clock. Whoever runs the loop hands it
//! the bytes that came in, sends the frames that it makes, and tells it how
//! long a round took.

use vstd::prelude::*;
use crate::buffer::{byte_length, fitting_prefix, AudioBuffer};
use crate::codec::{decoded, encoded, handled};
use crate::frame::{buffer_size_frame, channels_frame, decode_tag, sample_rate_frame};
use crate::frame::{announced_channels, announced_rate, announced_size};
use crate::frame::{channels_value, frame_tag, frame_value, framed, rate_value, size_value};
use crate::frame::{value_channels, value_rate, value_size, ConfigError, Tag};
use crate::pool::{overlaid, zeros, BufferPool, Region};

verus! {

/// One direction of a device: the shape of its buffer and the bytes in it.
#[verifier::ext_equal]
pub struct Side {
    /// The channel count.
    pub channels: u32,
    /// The bits per sample.
    pub bit_depth: u32,
    /// The number of samples.
    pub size: u32,
    /// The packed samples.
    pub bytes: Seq<u8>,
}

/// Whether a device streams, and in which directions.
#[derive(Clone, Copy, Debug, PartialEq, Eq)]
pub enum Mode {
    /// The loop does not run.
    Idle,
    /// The loop runs; each round takes a frame in, sends one out, or both.
    Streaming { ingress: bool, egress: bool },
}

/// What a device is, as a mathematical value.
#[verifier::ext_equal]
pub struct DeviceState {
    /// The name.
    pub name: Seq<char>,
    /// The samples per second; 0 until a rate is set or announced.
    pub sample_rate: u32,
    /// The receiving direction.
    pub input: Side,
    /// The sending direction.
    pub output: Side,
    /// Whether the loop runs.
    pub mode: Mode,
}

/// A direction with nothing set.
pub open spec fn blank_side() -> Side {
    Side { channels: 0, bit_depth: 0, size: 0, bytes: Seq::empty() }
}

/// What `buffer` amounts to in `pool`.
pub open spec fn side_of(buffer: &AudioBuffer, pool: Seq<Region>) -> Side {
    Side {
        channels: buffer.spec_channels(),
        bit_depth: buffer.spec_bit_depth(),
        size: buffer.spec_size(),
        bytes: buffer.contents(pool),
    }
}

/// `side` with `size` samples, all zero. A size whose bytes cannot be
/// counted in 32 bits leaves the side as it is.
pub open spec fn side_resized(side: Side, size: u32) -> Side {
    if byte_length(side.bit_depth, size) <= u32::MAX {
        Side { size, bytes: zeros(byte_length(side.bit_depth, size) as nat), ..side }
    } else {
        side
    }
}

/// `side` with `channels` channels, its bytes set to zero.
pub open spec fn side_with_channels(side: Side, channels: u32) -> Side {
    Side { channels, bytes: zeros(side.bytes.len()), ..side }
}

/// `side` at `bit_depth`, all zero. A depth whose bytes cannot be counted in
/// 32 bits leaves the side as it is.
pub open spec fn side_with_depth(side: Side, bit_depth: u32) -> Side {
    if byte_length(bit_depth, side.size) <= u32::MAX {
        Side { bit_depth, bytes: zeros(byte_length(bit_depth, side.size) as nat), ..side }
    } else {
        side
    }
}

/// `side` with its bytes set to zero.
pub open spec fn side_cleared(side: Side) -> Side {
    Side { bytes: zeros(side.bytes.len()), ..side }
}

/// The bit depth that a payload of `length` bytes stands for on `side`:
/// its bits shared out among the samples of all channels. There is none
/// where the side has no samples or no channels, or where it is too large
/// for 32 bits.
pub open spec fn implied_depth(side: Side, length: nat) -> Option<u32> {
    let cells: int = side.size * side.channels;
    let bits: int = 8 * (length as int);
    if cells > 0 && bits / cells <= u32::MAX {
        Some((bits / cells) as u32)
    } else {
        None
    }
}

/// `side` after a payload came in: where the payload stands for another bit
/// depth the side takes it, and the payload is laid over the bytes from the
/// start, as far as they go.
pub open spec fn side_loaded(side: Side, payload: Seq<u8>) -> Side {
    let shaped = match implied_depth(side, payload.len()) {
        Some(bit_depth) => side_with_depth(side, bit_depth),
        None => side,
    };
    Side {
        bytes: overlaid(shaped.bytes, 0, fitting_prefix(payload, shaped.bytes.len())),
        ..shaped
    }
}

/// `state` after the setting in a control byte is taken. What is announced
/// is for the input; the rate is for the whole device.
pub open spec fn announced(state: DeviceState, tag: Tag, value: u8) -> DeviceState {
    match tag {
        Tag::Data => state,
        Tag::SampleRate => DeviceState { sample_rate: value_rate(value), ..state },
        Tag::BufferSize => DeviceState {
            input: side_resized(state.input, value_size(value)),
            ..state
        },
        Tag::Channels => DeviceState {
            input: side_with_channels(state.input, value_channels(value)),
            ..state
        },
    }
}

/// `state` after `frame` came in. Nothing changes on an empty frame. The
/// first byte is a control byte; what follows it is the payload.
pub open spec fn ingested(state: DeviceState, frame: Seq<u8>) -> DeviceState {
    if frame.len() == 0 {
        state
    } else {
        let set = announced(state, frame_tag(frame[0]), frame_value(frame[0]));
        if frame.len() == 1 {
            set
        } else {
            DeviceState { input: side_loaded(set.input, frame.skip(1)), ..set }
        }
    }
}

/// What came of taking a frame in.
#[derive(Clone, Copy, Debug, PartialEq, Eq)]
pub enum Ingress {
    /// Nothing had come in.
    Underrun,
    /// A frame was taken.
    Frame {
        /// The tag of its control byte.
        tag: Tag,
        /// The value of its control byte.
        value: u8,
        /// Whether its payload changed the bit depth of the input.
        depth_changed: bool,
    },
}

/// What [`AudioDevice::receive`] reports of `frame` on `state`.
pub open spec fn ingress_of(state: DeviceState, frame: Seq<u8>) -> Ingress {
    if frame.len() == 0 {
        Ingress::Underrun
    } else {
        Ingress::Frame {
            tag: frame_tag(frame[0]),
            value: frame_value(frame[0]),
            depth_changed: ingested(state, frame).input.bit_depth != announced(
                state,
                frame_tag(frame[0]),
                frame_value(frame[0]),
            ).input.bit_depth,
        }
    }
}

/// The nanoseconds that `sample_count` samples last at `sample_rate`.
pub open spec fn period_nanos(sample_count: u32, sample_rate: u32) -> int {
    sample_count * 1_000_000_000 / (sample_rate as int)
}

/// The nanoseconds left of a period once `elapsed` of them are spent.
pub open spec fn nanos_left(period: int, elapsed: u64) -> int {
    if elapsed >= period {
        0
    } else {
        period - elapsed
    }
}

/// How long to wait at the end of a round that took `elapsed_nanos`, so that
/// the round lasts as long as `sample_count` samples do at `sample_rate`:
/// the rest of that period, or nothing if the round overran it. Without a
/// rate there is no period.
pub fn pacing_delay(sample_count: u32, sample_rate: u32, elapsed_nanos: u64) -> (delay: Option<u64>)
    ensures
        delay.is_some() <==> sample_rate > 0,
        delay matches Some(nanos) ==> nanos == nanos_left(
            period_nanos(sample_count, sample_rate),
            elapsed_nanos,
        ),
{
    if sample_rate == 0 {
        return None;
    }
    let period: u64 = sample_count as u64 * 1_000_000_000 / sample_rate as u64;
    if elapsed_nanos >= period {
        Some(0)
    } else {
        Some(period - elapsed_nanos)
    }
}

/// What one round of the loop does.
#[derive(Clone, Copy, Debug, PartialEq, Eq)]
pub struct Round {
    /// Whether a frame is taken in.
    pub ingress: bool,
    /// Whether a frame is sent out.
    pub egress: bool,
}

/// The level of the sample of `side` that `index` stands for; 0 where the
/// side has no samples or the codec does not handle its depth.
pub open spec fn side_level(side: Side, index: int) -> int {
    if side.size > 0 && handled(side.bit_depth) {
        let width = (side.bit_depth / 8) as int;
        let at = (index % (side.size as int)) * width;
        decoded(side.bytes.subrange(at, at + width).reverse(), side.bit_depth)
    } else {
        0
    }
}

/// `side` after `level` is written to the sample that `index` stands for.
pub open spec fn side_written(side: Side, index: int, level: int) -> Side {
    if side.size > 0 && handled(side.bit_depth) {
        let width = (side.bit_depth / 8) as int;
        let at = (index % (side.size as int)) * width;
        Side { bytes: overlaid(side.bytes, at, encoded(level, side.bit_depth)), ..side }
    } else {
        side
    }
}

/// A streaming audio device: its name, its sample rate, the buffer it
/// receives into and the buffer it sends from.
pub struct AudioDevice {
    name: String,
    sample_rate: u32,
    in_buffer: AudioBuffer,
    out_buffer: AudioBuffer,
    pool: BufferPool,
    mode: Mode,
}

impl View for AudioDevice {
    type V = DeviceState;

    closed spec fn view(&self) -> DeviceState {
        DeviceState {
            name: self.name@,
            sample_rate: self.sample_rate,
            input: side_of(&self.in_buffer, self.pool@),
            output: side_of(&self.out_buffer, self.pool@),
            mode: self.mode,
        }
    }
}

impl AudioDevice {
    /// Whether the device is sound: each buffer has a region of its own, of
    /// the length that its shape asks for. Every device made by [`Self::init`]
    /// is, and stays so.
    pub closed spec fn wf(&self) -> bool {
        &&& self.pool@.len() == 2
        &&& self.in_buffer.backing() == Some(0int)
        &&& self.out_buffer.backing() == Some(1int)
        &&& self.pool@[0].holders == 1
        &&& self.pool@[1].holders == 1
        &&& self.in_buffer.wf(self.pool@)
        &&& self.out_buffer.wf(self.pool@)
    }

    /// Each buffer of a sound device has as many bytes as its shape asks
    /// for, and these can be counted in 32 bits.
    pub proof fn law_backing_length(&self)
        requires
            self.wf(),
        ensures
            self@.input.bytes.len() == byte_length(self@.input.bit_depth, self@.input.size),
            self@.output.bytes.len() == byte_length(self@.output.bit_depth, self@.output.size),
            self@.input.bytes.len() <= u32::MAX,
            self@.output.bytes.len() <= u32::MAX,
    {
    }

    /// Makes a device: idle, with no rate and two empty buffers.
    pub fn init(name: &str) -> (device: Self)
        ensures
            device.wf(),
            device@ == (DeviceState {
                name: name@,
                sample_rate: 0,
                input: blank_side(),
                output: blank_side(),
                mode: Mode::Idle,
            }),
    {
        let mut pool = BufferPool::new();
        let in_buffer = AudioBuffer::init(&mut pool, 0, 0, 0);
        let out_buffer = AudioBuffer::init(&mut pool, 0, 0, 0);
        let device = AudioDevice {
            name: name.to_owned(),
            sample_rate: 0,
            in_buffer,
            out_buffer,
            pool,
            mode: Mode::Idle,
        };
        assert(device@.input =~= blank_side());
        assert(device@.output =~= blank_side());
        device
    }

    /// The name of the device.
    pub fn name(&self) -> (name: String)
        ensures
            name@ == self@.name,
    {
        self.name.clone()
    }

    /// The sample rate of the device.
    pub fn get_sample_rate(&self) -> (rate: u32)
        ensures
            rate == self@.sample_rate,
    {
        self.sample_rate
    }

    /// Sets the sample rate of the device. A rate that a control byte can announce
    /// is taken, and that byte is returned for sending. Any other rate is
    /// turned down and the device stays as it is.
    pub fn set_sample_rate(&mut self, sample_rate: u32) -> (r: Result<u8, ConfigError>)
        requires
            old(self).wf(),
        ensures
            final(self).wf(),
            r == match rate_value(sample_rate) {
                Some(value) => Ok::<u8, ConfigError>(framed(Tag::SampleRate, value)),
                None => Err::<u8, ConfigError>(ConfigError::SampleRate),
            },
            final(self)@ == if r is Ok {
                DeviceState { sample_rate, ..old(self)@ }
            } else {
                old(self)@
            },
    {
        match sample_rate_frame(sample_rate) {
            Ok(byte) => {
                self.sample_rate = sample_rate;
                Ok(byte)
            },
            Err(e) => Err(e),
        }
    }

    /// The number of samples of the input.
    pub fn get_in_buffer_size(&self) -> (size: u32)
        ensures
            size == self@.input.size,
    {
        self.in_buffer.size()
    }

    /// The number of samples of the output.
    pub fn get_out_buffer_size(&self) -> (size: u32)
        ensures
            size == self@.output.size,
    {
        self.out_buffer.size()
    }

    /// The channel count of the input.
    pub fn get_in_channels(&self) -> (channels: u32)
        ensures
            channels == self@.input.channels,
    {
        self.in_buffer.channels()
    }

    /// The channel count of the output.
    pub fn get_out_channels(&self) -> (channels: u32)
        ensures
            channels == self@.output.channels,
    {
        self.out_buffer.channels()
    }

    /// The bit depth of the input.
    pub fn get_in_bit_depth(&self) -> (bit_depth: u32)
        ensures
            bit_depth == self@.input.bit_depth,
    {
        self.in_buffer.bit_depth()
    }

    /// The bit depth of the output.
    pub fn get_out_bit_depth(&self) -> (bit_depth: u32)
        ensures
            bit_depth == self@.output.bit_depth,
    {
        self.out_buffer.bit_depth()
    }

    /// Sets the number of samples of the output. A size that a control byte
    /// can announce is taken: the output is replaced by a silent one of that
    /// size, and the byte is returned for sending. Any other size is turned
    /// down and the device stays as it is.
    pub fn set_buffer_size(&mut self, size: u32) -> (r: Result<u8, ConfigError>)
        requires
            old(self).wf(),
        ensures
            final(self).wf(),
            r == match size_value(size) {
                Some(value) if byte_length(old(self)@.output.bit_depth, size) <= u32::MAX => Ok::<
                    u8,
                    ConfigError,
                >(framed(Tag::BufferSize, value)),
                _ => Err::<u8, ConfigError>(ConfigError::BufferSize),
            },
            final(self)@ == if r is Ok {
                DeviceState { output: side_resized(old(self)@.output, size), ..old(self)@ }
            } else {
                old(self)@
            },
    {
        match buffer_size_frame(size) {
            Err(e) => Err(e),
            Ok(byte) => match self.out_buffer.resize(&mut self.pool, size) {
                Err(_) => Err(ConfigError::BufferSize),
                Ok(()) => {
                    assert(self@.output =~= side_resized(old(self)@.output, size));
                    assert(self@.input =~= old(self)@.input);
                    Ok(byte)
                },
            },
        }
    }

    /// Sets the channel count of the output. A count that a control byte can
    /// announce is taken: the output is cleared, and the byte is returned for
    /// sending. Any other count is turned down and the device stays as it is.
    pub fn set_channels(&mut self, channels: u32) -> (r: Result<u8, ConfigError>)
        requires
            old(self).wf(),
        ensures
            final(self).wf(),
            r == match channels_value(channels) {
                Some(value) => Ok::<u8, ConfigError>(framed(Tag::Channels, value)),
                None => Err::<u8, ConfigError>(ConfigError::Channels),
            },
            final(self)@ == if r is Ok {
                DeviceState {
                    output: side_with_channels(old(self)@.output, channels),
                    ..old(self)@
                }
            } else {
                old(self)@
            },
    {
        match channels_frame(channels) {
            Err(e) => Err(e),
            Ok(byte) => {
                self.out_buffer.set_channels(&mut self.pool, channels);
                assert(self@.output =~= side_with_channels(old(self)@.output, channels));
                assert(self@.input =~= old(self)@.input);
                Ok(byte)
            },
        }
    }

    /// Sets the bit depth of the output. No frame announces it: the other end
    /// reads it off the length of the data frames. The output is replaced by
    /// a silent one at that depth; a depth whose bytes cannot be counted in
    /// 32 bits is turned down and the device stays as it is.
    pub fn set_bit_depth(&mut self, bit_depth: u32) -> (r: Result<(), ConfigError>)
        requires
            old(self).wf(),
        ensures
            final(self).wf(),
            r == if byte_length(bit_depth, old(self)@.output.size) <= u32::MAX {
                Ok::<(), ConfigError>(())
            } else {
                Err::<(), ConfigError>(ConfigError::BitDepth)
            },
            final(self)@ == (DeviceState {
                output: side_with_depth(old(self)@.output, bit_depth),
                ..old(self)@
            }),
    {
        match self.out_buffer.set_bit_depth(&mut self.pool, bit_depth) {
            Err(_) => Err(ConfigError::BitDepth),
            Ok(()) => {
                assert(self@.output =~= side_with_depth(old(self)@.output, bit_depth));
                assert(self@.input =~= old(self)@.input);
                Ok(())
            },
        }
    }

    /// Takes in what the transport had: nothing, or one frame.
    ///
    /// The setting in the control byte is taken first. A payload then sets
    /// the bit depth of the input to the one it stands for, and is copied
    /// into the input as it is.
    pub fn receive(&mut self, frame: &[u8]) -> (outcome: Ingress)
        requires
            old(self).wf(),
        ensures
            final(self).wf(),
            final(self)@ == ingested(old(self)@, frame@),
            outcome == ingress_of(old(self)@, frame@),
    {
        if frame.len() == 0 {
            return Ingress::Underrun;
        }
        let (tag, value) = decode_tag(frame[0]);
        self.announce(tag, value);
        if frame.len() == 1 {
            return Ingress::Frame { tag, value, depth_changed: false };
        }
        let before: u32 = self.in_buffer.bit_depth();
        let payload = vstd::slice::slice_subrange(frame, 1, frame.len());
        assert(payload@ =~= frame@.skip(1));
        self.take_payload(payload);
        Ingress::Frame { tag, value, depth_changed: self.in_buffer.bit_depth() != before }
    }

    /// Takes the setting of a control byte.
    fn announce(&mut self, tag: Tag, value: u8)
        requires
            old(self).wf(),
        ensures
            final(self).wf(),
            final(self)@ == announced(old(self)@, tag, value),
    {
        match tag {
            Tag::Data => {},
            Tag::SampleRate => {
                self.sample_rate = announced_rate(value);
            },
            Tag::BufferSize => {
                let _ = self.in_buffer.resize(&mut self.pool, announced_size(value));
                assert(self@.input =~= side_resized(old(self)@.input, value_size(value)));
                assert(self@.output =~= old(self)@.output);
            },
            Tag::Channels => {
                self.in_buffer.set_channels(&mut self.pool, announced_channels(value));
                assert(self@.input =~= side_with_channels(
                    old(self)@.input,
                    value_channels(value),
                ));
                assert(self@.output =~= old(self)@.output);
            },
        }
    }

    /// Sets the bit depth of the input to the one that a payload of `length`
    /// bytes stands for.
    fn take_depth(&mut self, length: usize)
        requires
            old(self).wf(),
        ensures
            final(self).wf(),
            final(self)@ == (DeviceState {
                input: match implied_depth(old(self)@.input, length as nat) {
                    Some(bit_depth) => side_with_depth(old(self)@.input, bit_depth),
                    None => old(self)@.input,
                },
                ..old(self)@
            }),
    {
        let size: u32 = self.in_buffer.size();
        let channels: u32 = self.in_buffer.channels();
        assert(size * channels <= 0xffff_ffff * 0xffff_ffff) by (nonlinear_arith)
            requires
                size <= 0xffff_ffff,
                channels <= 0xffff_ffff,
        ;
        let cells: u64 = size as u64 * channels as u64;
        if cells > 0 {
            let implied: u128 = 8 * (length as u128) / (cells as u128);
            if implied <= u32::MAX as u128 {
                let _ = self.in_buffer.set_bit_depth(&mut self.pool, implied as u32);
                assert(self@.input =~= side_with_depth(old(self)@.input, implied as u32));
                assert(self@.output =~= old(self)@.output);
            }
        }
    }

    /// Takes a payload: its bit depth first, then its bytes.
    fn take_payload(&mut self, payload: &[u8])
        requires
            old(self).wf(),
        ensures
            final(self).wf(),
            final(self)@ == (DeviceState {
                input: side_loaded(old(self)@.input, payload@),
                ..old(self)@
            }),
    {
        self.take_depth(payload.len());
        let ghost shaped = self@;
        self.in_buffer.load(&mut self.pool, payload);
        assert(self@.input =~= side_loaded(old(self)@.input, payload@));
        assert(self@.output =~= shaped.output);
    }

    /// Makes the data frame of the output: the data tag, then the bytes of
    /// the output in their order. The output is cleared, so that nothing is
    /// sent twice.
    pub fn emit(&mut self) -> (frame: Vec<u8>)
        requires
            old(self).wf(),
        ensures
            final(self).wf(),
            frame@ == seq![framed(Tag::Data, 0)] + old(self)@.output.bytes,
            final(self)@ == (DeviceState { output: side_cleared(old(self)@.output), ..old(self)@ }),
    {
        let payload = self.out_buffer.bytes(&self.pool);
        let mut frame: Vec<u8> = Vec::new();
        frame.push(0);
        let mut k: usize = 0;
        while k < payload.len()
            invariant
                k <= payload@.len(),
                frame@ == seq![0u8] + payload@.take(k as int),
            decreases payload@.len() - k,
        {
            frame.push(payload[k]);
            assert(payload@.take(k + 1) =~= payload@.take(k as int).push(payload@[k as int]));
            k = k + 1;
        }
        assert(payload@.take(k as int) =~= payload@);
        self.out_buffer.clear(&mut self.pool);
        assert(self@.output =~= side_cleared(old(self)@.output));
        assert(self@.input =~= old(self)@.input);
        frame
    }

    /// How long to wait at the end of a round that took `elapsed_nanos`: see
    /// [`pacing_delay`]. The period is that of the input.
    pub fn pace(&self, elapsed_nanos: u64) -> (delay: Option<u64>)
        ensures
            delay.is_some() <==> self@.sample_rate > 0,
            delay matches Some(nanos) ==> nanos == nanos_left(
                period_nanos(self@.input.size, self@.sample_rate),
                elapsed_nanos,
            ),
    {
        pacing_delay(self.in_buffer.size(), self.sample_rate, elapsed_nanos)
    }

    /// Whether the loop runs.
    pub fn is_streaming(&self) -> (streaming: bool)
        ensures
            streaming == (self@.mode != Mode::Idle),
    {
        match self.mode {
            Mode::Idle => false,
            Mode::Streaming { .. } => true,
        }
    }

    /// Starts the loop on an idle device. A device that streams stays as it is.
    fn start(&mut self, ingress: bool, egress: bool) -> (started: bool)
        requires
            old(self).wf(),
        ensures
            final(self).wf(),
            started == (old(self)@.mode == Mode::Idle),
            final(self)@ == if started {
                DeviceState { mode: Mode::Streaming { ingress, egress }, ..old(self)@ }
            } else {
                old(self)@
            },
    {
        match self.mode {
            Mode::Idle => {
                self.mode = Mode::Streaming { ingress, egress };
                true
            },
            Mode::Streaming { .. } => false,
        }
    }

    /// Starts streaming in: each round takes a frame in. Tells whether the
    /// device was idle; one that streams already stays as it is.
    pub fn start_read(&mut self) -> (started: bool)
        requires
            old(self).wf(),
        ensures
            final(self).wf(),
            started == (old(self)@.mode == Mode::Idle),
            final(self)@ == if started {
                DeviceState {
                    mode: Mode::Streaming { ingress: true, egress: false },
                    ..old(self)@
                }
            } else {
                old(self)@
            },
    {
        self.start(true, false)
    }

    /// Starts streaming out: each round sends a frame out. Tells whether the
    /// device was idle; one that streams already stays as it is.
    pub fn start_write(&mut self) -> (started: bool)
        requires
            old(self).wf(),
        ensures
            final(self).wf(),
            started == (old(self)@.mode == Mode::Idle),
            final(self)@ == if started {
                DeviceState {
                    mode: Mode::Streaming { ingress: false, egress: true },
                    ..old(self)@
                }
            } else {
                old(self)@
            },
    {
        self.start(false, true)
    }

    /// Starts streaming both ways: each round takes a frame in and sends one
    /// out. Tells whether the device was idle; one that streams already stays
    /// as it is.
    pub fn play(&mut self) -> (started: bool)
        requires
            old(self).wf(),
        ensures
            final(self).wf(),
            started == (old(self)@.mode == Mode::Idle),
            final(self)@ == if started {
                DeviceState { mode: Mode::Streaming { ingress: true, egress: true }, ..old(self)@ }
            } else {
                old(self)@
            },
    {
        self.start(true, true)
    }

    /// Stops the loop. It ends where it next comes round.
    pub fn stop(&mut self)
        requires
            old(self).wf(),
        ensures
            final(self).wf(),
            final(self)@ == (DeviceState { mode: Mode::Idle, ..old(self)@ }),
    {
        self.mode = Mode::Idle;
    }

    /// The top of the loop: says what the round that begins does, or that
    /// the loop ends. It ends if the device is idle, or if `keep_going` is
    /// false, which stops the device.
    pub fn begin_round(&mut self, keep_going: bool) -> (round: Option<Round>)
        requires
            old(self).wf(),
        ensures
            final(self).wf(),
            round == match old(self)@.mode {
                Mode::Streaming { ingress, egress } if keep_going => Some(
                    Round { ingress, egress },
                ),
                _ => None::<Round>,
            },
            final(self)@ == if keep_going {
                old(self)@
            } else {
                DeviceState { mode: Mode::Idle, ..old(self)@ }
            },
    {
        if !keep_going {
            self.stop();
            return None;
        }
        match self.mode {
            Mode::Idle => None,
            Mode::Streaming { ingress, egress } => Some(Round { ingress, egress }),
        }
    }

    /// Reads a sample of the input, as [`AudioBuffer::read`] does.
    pub fn read_input(&self, index: u32) -> (level: i32)
        requires
            self.wf(),
        ensures
            level == side_level(self@.input, index as int),
    {
        self.in_buffer.read(&self.pool, index)
    }

    /// Writes a sample of the output, as [`AudioBuffer::write`] does.
    pub fn write_output(&mut self, index: u32, level: i32)
        requires
            old(self).wf(),
        ensures
            final(self).wf(),
            final(self)@ == (DeviceState {
                output: side_written(old(self)@.output, index as int, level as int),
                ..old(self)@
            }),
    {
        self.out_buffer.write(&mut self.pool, index, level);
        assert(self@.output =~= side_written(old(self)@.output, index as int, level as int));
        assert(self@.input =~= old(self)@.input);
    }
}

} // verus!
