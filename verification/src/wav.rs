//! The waveform container: a fixed 44-byte header followed by raw
//! little-endian 16-bit samples.

use vstd::prelude::*;
use crate::bytes::{u16_le, u32_le, push_u16_le, push_u32_le};

verus! {

/// Largest positive value of a signed 16-bit sample.
pub const MAX_AMPLITUDE: i16 = 32767;

/// The one sample width the encoder emits, regardless of the configured
/// options.
const BITS_PER_SAMPLE: u16 = 16;

/// Requested audio parameters.  Only 16-bit mono encoding is implemented;
/// the channel count and sample rate flow into the header as given.
#[derive(Clone, Copy, PartialEq, Eq, Structural, Debug)]
pub struct WavOptions {
    pub sample_rate: u32,
    pub num_channels: u16,
    pub bits_per_sample: u16,
}

impl WavOptions {
    pub fn new(sample_rate: u32, num_channels: u16, bits_per_sample: u16) -> (r: WavOptions)
        ensures
            r == (WavOptions { sample_rate, num_channels, bits_per_sample }),
    {
        WavOptions { sample_rate, num_channels, bits_per_sample }
    }
}

impl Default for WavOptions {
    /// Compact-disc-free defaults: 44100 samples per second, one channel,
    /// sixteen bits per sample.
    fn default() -> (r: WavOptions)
        ensures
            r == (WavOptions { sample_rate: 44100u32, num_channels: 1u16, bits_per_sample: 16u16 }),
    {
        WavOptions { sample_rate: 44100, num_channels: 1, bits_per_sample: 16 }
    }
}

/// The fixed-layout header of a waveform file.
#[derive(Clone, Copy, PartialEq, Eq, Structural, Debug)]
pub struct WavHeader {
    pub chunk_id: u32,
    pub chunk_size: u32,
    pub format: u32,
    pub subchunk1_id: u32,
    pub subchunk1_size: u32,
    pub audio_format: u16,
    pub num_channels: u16,
    pub sample_rate: u32,
    pub byte_rate: u32,
    pub block_align: u16,
    pub bits_per_sample: u16,
    pub subchunk2_id: u32,
    pub subchunk2_size: u32,
}

/// The literal chunk tags, read as little-endian 32-bit values: "RIFF",
/// "WAVE", "fmt " and "data".
pub const RIFF_TAG: u32 = 0x4646_4952;

pub const WAVE_TAG: u32 = 0x4556_4157;

pub const FMT_TAG: u32 = 0x2074_6d66;

pub const DATA_TAG: u32 = 0x6174_6164;

/// The 44 header bytes, laid out field by field, all little-endian.
pub open spec fn wav_header_bytes(h: WavHeader) -> Seq<u8> {
    u32_le(h.chunk_id) + u32_le(h.chunk_size) + u32_le(h.format) + u32_le(h.subchunk1_id) + u32_le(
        h.subchunk1_size,
    ) + u16_le(h.audio_format) + u16_le(h.num_channels) + u32_le(h.sample_rate) + u32_le(
        h.byte_rate,
    ) + u16_le(h.block_align) + u16_le(h.bits_per_sample) + u32_le(h.subchunk2_id) + u32_le(
        h.subchunk2_size,
    )
}

/// The header `WavHeader::new` builds for `data_size` bytes of samples.
pub open spec fn spec_wav_header(data_size: u32, o: WavOptions) -> WavHeader {
    WavHeader {
        chunk_id: RIFF_TAG,
        chunk_size: (data_size + 36) as u32,
        format: WAVE_TAG,
        subchunk1_id: FMT_TAG,
        subchunk1_size: 16u32,
        audio_format: 1u16,
        num_channels: o.num_channels,
        sample_rate: o.sample_rate,
        byte_rate: (o.sample_rate * o.num_channels * 16 / 8) as u32,
        block_align: (o.num_channels * 16 / 8) as u16,
        bits_per_sample: 16u16,
        subchunk2_id: DATA_TAG,
        subchunk2_size: data_size,
    }
}

impl WavHeader {
    /// A header sized for `data_size` bytes of samples.  The bounds keep
    /// the chunk-size, byte-rate and block-align products inside their
    /// fields, as the layout demands.
    pub fn new(data_size: u32, options: &WavOptions) -> (r: WavHeader)
        requires
            data_size + 36 <= u32::MAX,
            options.sample_rate * options.num_channels * 16 <= u32::MAX,
            options.num_channels * 16 <= u16::MAX,
        ensures
            r.chunk_id == RIFF_TAG,
            r.chunk_size == data_size + 36,
            r.format == WAVE_TAG,
            r.subchunk1_id == FMT_TAG,
            r.subchunk1_size == 16,
            r.audio_format == 1,
            r.num_channels == options.num_channels,
            r.sample_rate == options.sample_rate,
            r.byte_rate == options.sample_rate * options.num_channels * 16 / 8,
            r.block_align == options.num_channels * 16 / 8,
            r.bits_per_sample == 16,
            r.subchunk2_id == DATA_TAG,
            r.subchunk2_size == data_size,
    {
        WavHeader {
            chunk_id: RIFF_TAG,
            chunk_size: data_size + 36,
            format: WAVE_TAG,
            subchunk1_id: FMT_TAG,
            subchunk1_size: 16,
            audio_format: 1,
            num_channels: options.num_channels,
            sample_rate: options.sample_rate,
            byte_rate: options.sample_rate * options.num_channels as u32 * BITS_PER_SAMPLE as u32
                / 8,
            block_align: options.num_channels * BITS_PER_SAMPLE / 8,
            bits_per_sample: BITS_PER_SAMPLE,
            subchunk2_id: DATA_TAG,
            subchunk2_size: data_size,
        }
    }

    /// The header as the 44 bytes that open a waveform file.
    pub fn as_bytes(&self) -> (r: Vec<u8>)
        ensures
            r@ == wav_header_bytes(*self),
            r@.len() == 44,
    {
        let mut v: Vec<u8> = Vec::new();
        push_u32_le(&mut v, self.chunk_id);
        push_u32_le(&mut v, self.chunk_size);
        push_u32_le(&mut v, self.format);
        push_u32_le(&mut v, self.subchunk1_id);
        push_u32_le(&mut v, self.subchunk1_size);
        push_u16_le(&mut v, self.audio_format);
        push_u16_le(&mut v, self.num_channels);
        push_u32_le(&mut v, self.sample_rate);
        push_u32_le(&mut v, self.byte_rate);
        push_u16_le(&mut v, self.block_align);
        push_u16_le(&mut v, self.bits_per_sample);
        push_u32_le(&mut v, self.subchunk2_id);
        push_u32_le(&mut v, self.subchunk2_size);
        proof {
            assert(v@ =~= wav_header_bytes(*self));
        }
        v
    }
}

} // verus!
