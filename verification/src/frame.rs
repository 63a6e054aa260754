//! The control byte that opens every frame.
//!
//! Its two low bits are the tag, its six high bits the value. A byte with the
//! data tag is followed by packed samples; a byte with one of the other tags
//! announces a setting and may stand alone.

use vstd::prelude::*;

verus! {

/// The kind of a frame.
#[derive(Clone, Copy, Debug, PartialEq, Eq)]
pub enum Tag {
    /// `00`: samples follow; the value says nothing.
    Data,
    /// `01`: the value announces the sample rate.
    SampleRate,
    /// `10`: the value announces the number of samples in a buffer.
    BufferSize,
    /// `11`: the value announces the channel count.
    Channels,
}

/// A setting that has no place in a control byte.
#[derive(Clone, Copy, Debug, PartialEq, Eq)]
pub enum ConfigError {
    /// The rate is not 1 to 32 times 22050, nor 1 to 32 times 24000.
    SampleRate,
    /// The size is not 1 to 64 times 32.
    BufferSize,
    /// The channel count is not 1 to 64.
    Channels,
    /// The bit depth asks for more bytes than 32 bits count.
    BitDepth,
}

/// The two bits that stand for `tag`.
pub open spec fn tag_bits(tag: Tag) -> u8 {
    match tag {
        Tag::Data => 0,
        Tag::SampleRate => 1,
        Tag::BufferSize => 2,
        Tag::Channels => 3,
    }
}

/// The control byte of `tag` and a `value` below 64.
pub open spec fn framed(tag: Tag, value: u8) -> u8 {
    (4 * value + tag_bits(tag)) as u8
}

/// The tag in the two low bits of `byte`.
pub open spec fn frame_tag(byte: u8) -> Tag {
    if byte % 4 == 0 {
        Tag::Data
    } else if byte % 4 == 1 {
        Tag::SampleRate
    } else if byte % 4 == 2 {
        Tag::BufferSize
    } else {
        Tag::Channels
    }
}

/// The value in the six high bits of `byte`.
pub open spec fn frame_value(byte: u8) -> u8 {
    byte / 4
}

/// The value that announces `rate`: one less than its multiple of 22050, or
/// 31 more than its multiple of 24000. Each family has 32 rates.
pub open spec fn rate_value(rate: u32) -> Option<u8> {
    if rate % 22050 == 0 && 1 <= rate / 22050 <= 32 {
        Some((rate / 22050 - 1) as u8)
    } else if rate % 24000 == 0 && 1 <= rate / 24000 <= 32 {
        Some((rate / 24000 + 31) as u8)
    } else {
        None
    }
}

/// The rate that `value` announces.
pub open spec fn value_rate(value: u8) -> u32 {
    if value < 32 {
        ((value + 1) * 22050) as u32
    } else {
        ((value - 31) * 24000) as u32
    }
}

/// The value that announces a buffer of `size` samples: one less than its multiple of 32.
pub open spec fn size_value(size: u32) -> Option<u8> {
    if size % 32 == 0 && 1 <= size / 32 <= 64 {
        Some((size / 32 - 1) as u8)
    } else {
        None
    }
}

/// The number of samples that `value` announces.
pub open spec fn value_size(value: u8) -> u32 {
    ((value + 1) * 32) as u32
}

/// The value that announces `channels` channels: one less than the count.
pub open spec fn channels_value(channels: u32) -> Option<u8> {
    if 1 <= channels <= 64 {
        Some((channels - 1) as u8)
    } else {
        None
    }
}

/// The channel count that `value` announces.
pub open spec fn value_channels(value: u8) -> u32 {
    (value + 1) as u32
}

/// Puts `tag` and `value` into one control byte. A value of more than six
/// bits has no control byte.
pub fn encode(tag: Tag, value: u8) -> (r: Option<u8>)
    ensures
        r == if value < 64 {
            Some(framed(tag, value))
        } else {
            None::<u8>
        },
{
    if value >= 64 {
        return None;
    }
    let bits: u8 = match tag {
        Tag::Data => 0b00,
        Tag::SampleRate => 0b01,
        Tag::BufferSize => 0b10,
        Tag::Channels => 0b11,
    };
    assert(((value << 2) | bits) == 4 * value + bits) by (bit_vector)
        requires
            value < 64,
            bits < 4,
    ;
    Some((value << 2) | bits)
}

/// Takes a control byte apart into its tag and its value.
pub fn decode_tag(byte: u8) -> (r: (Tag, u8))
    ensures
        r.0 == frame_tag(byte),
        r.1 == frame_value(byte),
{
    let bits: u8 = byte & 0b11;
    let value: u8 = byte >> 2;
    assert(byte & 0b11 == byte % 4) by (bit_vector);
    assert(byte >> 2 == byte / 4) by (bit_vector);
    let tag = if bits == 0b00 {
        Tag::Data
    } else if bits == 0b01 {
        Tag::SampleRate
    } else if bits == 0b10 {
        Tag::BufferSize
    } else {
        Tag::Channels
    };
    (tag, value)
}

/// The control byte that announces `rate`, for the rates that have one.
pub fn sample_rate_frame(rate: u32) -> (r: Result<u8, ConfigError>)
    ensures
        r == match rate_value(rate) {
            Some(value) => Ok::<u8, ConfigError>(framed(Tag::SampleRate, value)),
            None => Err::<u8, ConfigError>(ConfigError::SampleRate),
        },
{
    let value: u8 = if rate % 22050 == 0 && 1 <= rate / 22050 && rate / 22050 <= 32 {
        (rate / 22050 - 1) as u8
    } else if rate % 24000 == 0 && 1 <= rate / 24000 && rate / 24000 <= 32 {
        (rate / 24000 + 31) as u8
    } else {
        return Err(ConfigError::SampleRate);
    };
    match encode(Tag::SampleRate, value) {
        Some(byte) => Ok(byte),
        None => Err(ConfigError::SampleRate),
    }
}

/// The control byte that announces a buffer of `size` samples, for the sizes that have one.
pub fn buffer_size_frame(size: u32) -> (r: Result<u8, ConfigError>)
    ensures
        r == match size_value(size) {
            Some(value) => Ok::<u8, ConfigError>(framed(Tag::BufferSize, value)),
            None => Err::<u8, ConfigError>(ConfigError::BufferSize),
        },
{
    if size % 32 != 0 || size / 32 < 1 || size / 32 > 64 {
        return Err(ConfigError::BufferSize);
    }
    match encode(Tag::BufferSize, (size / 32 - 1) as u8) {
        Some(byte) => Ok(byte),
        None => Err(ConfigError::BufferSize),
    }
}

/// The control byte that announces `channels` channels, for the counts that have one.
pub fn channels_frame(channels: u32) -> (r: Result<u8, ConfigError>)
    ensures
        r == match channels_value(channels) {
            Some(value) => Ok::<u8, ConfigError>(framed(Tag::Channels, value)),
            None => Err::<u8, ConfigError>(ConfigError::Channels),
        },
{
    if channels < 1 || channels > 64 {
        return Err(ConfigError::Channels);
    }
    match encode(Tag::Channels, (channels - 1) as u8) {
        Some(byte) => Ok(byte),
        None => Err(ConfigError::Channels),
    }
}

/// The rate that `value` announces.
#[verifier::when_used_as_spec(value_rate)]
pub fn announced_rate(value: u8) -> (rate: u32)
    ensures
        rate == value_rate(value),
{
    if value < 32 {
        (value as u32 + 1) * 22050
    } else {
        (value as u32 - 31) * 24000
    }
}

/// The number of samples that `value` announces.
#[verifier::when_used_as_spec(value_size)]
pub fn announced_size(value: u8) -> (size: u32)
    ensures
        size == value_size(value),
{
    (value as u32 + 1) * 32
}

/// The channel count that `value` announces.
#[verifier::when_used_as_spec(value_channels)]
pub fn announced_channels(value: u8) -> (channels: u32)
    ensures
        channels == value_channels(value),
{
    value as u32 + 1
}

/// A tag and a value of six bits come back out of their control byte.
pub proof fn law_frame_round_trip(tag: Tag, value: u8)
    requires
        value < 64,
    ensures
        frame_tag(framed(tag, value)) == tag,
        frame_value(framed(tag, value)) == value,
{
}

/// Every byte is the control byte of its own tag and value.
pub proof fn law_byte_round_trip(byte: u8)
    ensures
        frame_value(byte) < 64,
        framed(frame_tag(byte), frame_value(byte)) == byte,
{
}

/// A setting that has a value is the one that its value announces.
pub proof fn law_settings_round_trip(rate: u32, size: u32, channels: u32)
    ensures
        rate_value(rate) matches Some(value) ==> value < 64 && value_rate(value) == rate,
        size_value(size) matches Some(value) ==> value < 64 && value_size(value) == size,
        channels_value(channels) matches Some(value) ==> value < 64 && value_channels(value)
            == channels,
{
}

/// Every value of six bits announces a rate, a size and a channel count,
/// and each of these has that value.
pub proof fn law_values_round_trip(value: u8)
    requires
        value < 64,
    ensures
        rate_value(value_rate(value)) == Some(value),
        size_value(value_size(value)) == Some(value),
        channels_value(value_channels(value)) == Some(value),
{
}

} // verus!
