//! The integer PCM mixer of the native audio output: every clip instance of
//! a block is scaled by its quantized gain and added into a signed 32-bit
//! accumulator, wrapping around on overflow; saturation to
//! the output format happens once, after every instance has contributed.
use vstd::prelude::*;
use vstd::wrapping::i32_specs;

verus! {

/// The output format the script side publishes.
#[derive(Clone, Copy, Debug, PartialEq, Eq, Structural)]
pub struct AudioOutputFormat {
    pub channels: u16,
    pub bits_per_sample: u16,
    pub sample_rate: u32,
    pub buffer_bytes: u32,
}

/// A validated native output configuration.
#[derive(Clone, Copy, Debug, PartialEq, Eq, Structural)]
pub struct NativeMixerConfiguration {
    pub channels: u16,
    pub bits_per_sample: u16,
    pub sample_rate: u32,
    pub buffer_bytes: u32,
}

/// Mono or stereo, 8 or 16 bits, a positive rate, and a buffer of whole
/// frames (at least one).
pub open spec fn valid_format(f: AudioOutputFormat) -> bool {
    let frame = f.channels * (f.bits_per_sample / 8);
    &&& (f.channels == 1 || f.channels == 2)
    &&& (f.bits_per_sample == 8 || f.bits_per_sample == 16)
    &&& f.sample_rate > 0
    &&& frame > 0
    &&& f.buffer_bytes >= frame
    &&& (f.buffer_bytes as int) % frame == 0
}

impl NativeMixerConfiguration {
    /// The mixer configuration of a published output format, if the native
    /// mixer supports it.
    pub fn from_state(state: &AudioOutputFormat) -> (configuration: Option<Self>)
        ensures
            valid_format(*state) ==> configuration == Some(
                NativeMixerConfiguration {
                    channels: state.channels,
                    bits_per_sample: state.bits_per_sample,
                    sample_rate: state.sample_rate,
                    buffer_bytes: state.buffer_bytes,
                },
            ),
            !valid_format(*state) ==> configuration.is_none(),
    {
        let channels = state.channels;
        let bits = state.bits_per_sample;
        let valid = match (channels as u32).checked_mul((bits / 8) as u32) {
            Some(frame) => (channels == 1 || channels == 2) && (bits == 8 || bits == 16)
                && state.sample_rate > 0 && frame > 0 && state.buffer_bytes >= frame
                && state.buffer_bytes % frame == 0,
            None => false,
        };
        if valid {
            Some(
                NativeMixerConfiguration {
                    channels,
                    bits_per_sample: bits,
                    sample_rate: state.sample_rate,
                    buffer_bytes: state.buffer_bytes,
                },
            )
        } else {
            None
        }
    }

    /// Samples in one output block.
    pub fn block_samples(&self) -> (samples: usize)
        requires
            self.bits_per_sample == 8 || self.bits_per_sample == 16,
        ensures
            samples == self.buffer_bytes / ((self.bits_per_sample / 8) as u32),
    {
        (self.buffer_bytes / ((self.bits_per_sample / 8) as u32)) as usize
    }
}

/// Bytes to read from a source with `source_channels` to fill
/// `output_bytes` of output: the same amount for matching layouts, half for
/// mono into stereo, twice for stereo into mono; other layouts are not mixed.
pub open spec fn read_size(output_bytes: usize, output_channels: u16, source_channels: u16) -> Option<
    usize,
> {
    if output_channels == source_channels {
        Some(output_bytes)
    } else if output_channels == 2 && source_channels == 1 {
        Some((output_bytes / 2) as usize)
    } else if output_channels == 1 && source_channels == 2 {
        if output_bytes * 2 > usize::MAX {
            None
        } else {
            Some((output_bytes * 2) as usize)
        }
    } else {
        None
    }
}

pub fn converted_read_size(output_bytes: usize, output_channels: u16, source_channels: u16) -> (size:
    Option<usize>)
    ensures
        size == read_size(output_bytes, output_channels, source_channels),
{
    if output_channels == source_channels {
        Some(output_bytes)
    } else if output_channels == 2 && source_channels == 1 {
        Some(output_bytes / 2)
    } else if output_channels == 1 && source_channels == 2 {
        output_bytes.checked_mul(2)
    } else {
        None
    }
}

/// A sample times the quantized gain (32-bit wrap-around), arithmetically
/// shifted right.
pub open spec fn scaled(sample: i32, gain: i32, shift: u32) -> i32 {
    i32_specs::wrapping_mul(sample, gain) >> shift
}

pub fn scale(sample: i32, gain: i32, shift: u32) -> (scaled_sample: i32)
    requires
        shift < 32,
    ensures
        scaled_sample == scaled(sample, gain, shift),
{
    sample.wrapping_mul(gain) >> shift
}

/// The branchless byte expression that turns an accumulated sample
/// into unsigned 8-bit PCM: it follows `sample + 128` below the top, gives
/// 254 at 127 and saturates to 255 only above.
pub open spec fn u8_saturated(sample: i32) -> u8 {
    let low = i32_specs::wrapping_add(sample, 128) as u32;
    let high = i32_specs::wrapping_sub(127, sample) as u32;
    ((low & !(low >> 7u32)) | (high >> 7u32)) as u8
}

pub fn native_u8_saturate(sample: i32) -> (byte: u8)
    ensures
        byte == u8_saturated(sample),
{
    let low = sample.wrapping_add(128) as u32;
    let high = 127_i32.wrapping_sub(sample) as u32;
    ((low & !(low >> 7)) | (high >> 7)) as u8
}

/// Saturation of an accumulated sample to signed 16-bit PCM.
pub open spec fn i16_saturated(sample: i32) -> i16 {
    if sample < i16::MIN {
        i16::MIN
    } else if sample > i16::MAX {
        i16::MAX
    } else {
        sample as i16
    }
}

pub fn saturate_i16(sample: i32) -> (pcm: i16)
    ensures
        pcm == i16_saturated(sample),
{
    if sample < -32768 {
        -32768
    } else if sample > 32767 {
        32767
    } else {
        sample as i16
    }
}

/// The `k`-th little-endian signed 16-bit sample of a byte stream.
pub open spec fn le_i16(bytes: Seq<u8>, k: int) -> i32 {
    ((bytes[2 * k] as int + bytes[2 * k + 1] as int * 256) as i16) as i32
}

/// Accumulator after one 16-bit instance with quantized gain `gain`; an
/// instance whose gain quantizes below one contributes nothing.
///   mono into stereo: each source sample, shifted by 12, goes to both
///   channels of a frame; stereo into mono: both samples of a source frame,
///   shifted by 13, go to one output sample; otherwise sample for sample,
///   shifted by 12. Mixing stops at the end of the source or of the block.
pub open spec fn mixed_i16(
    acc: Seq<i32>,
    bytes: Seq<u8>,
    gain: i32,
    output_channels: u16,
    source_channels: u16,
) -> Seq<i32> {
    let count = bytes.len() / 2;
    if gain < 1 {
        acc
    } else {
        Seq::new(
            acc.len(),
            |j: int|
                if output_channels == 2 && source_channels == 1 {
                    if j / 2 < count && j / 2 < acc.len() / 2 {
                        i32_specs::wrapping_add(acc[j], scaled(le_i16(bytes, j / 2), gain, 12))
                    } else {
                        acc[j]
                    }
                } else if output_channels == 1 && source_channels == 2 {
                    if j < count / 2 {
                        i32_specs::wrapping_add(
                            i32_specs::wrapping_add(acc[j], scaled(le_i16(bytes, 2 * j), gain, 13)),
                            scaled(le_i16(bytes, 2 * j + 1), gain, 13),
                        )
                    } else {
                        acc[j]
                    }
                } else {
                    if j < count {
                        i32_specs::wrapping_add(acc[j], scaled(le_i16(bytes, j), gain, 12))
                    } else {
                        acc[j]
                    }
                },
        )
    }
}

/// Accumulator after one 8-bit instance. The two layout conversions do
/// not center unsigned PCM (the raw byte is
/// scaled, by 8 into stereo and by 9 into mono); matching layouts center
/// the byte on 128 and shift by 8.
pub open spec fn mixed_u8(
    acc: Seq<i32>,
    bytes: Seq<u8>,
    gain: i32,
    output_channels: u16,
    source_channels: u16,
) -> Seq<i32> {
    let count = bytes.len();
    if gain < 1 {
        acc
    } else {
        Seq::new(
            acc.len(),
            |j: int|
                if output_channels == 2 && source_channels == 1 {
                    if j / 2 < count && j / 2 < acc.len() / 2 {
                        i32_specs::wrapping_add(acc[j], scaled(bytes[j / 2] as i32, gain, 8))
                    } else {
                        acc[j]
                    }
                } else if output_channels == 1 && source_channels == 2 {
                    if j < count / 2 {
                        i32_specs::wrapping_add(
                            i32_specs::wrapping_add(acc[j], scaled(bytes[2 * j] as i32, gain, 9)),
                            scaled(bytes[2 * j + 1] as i32, gain, 9),
                        )
                    } else {
                        acc[j]
                    }
                } else {
                    if j < count {
                        i32_specs::wrapping_add(acc[j], scaled((bytes[j] - 128) as i32, gain, 8))
                    } else {
                        acc[j]
                    }
                },
        )
    }
}

fn read_le_i16(bytes: &[u8], k: usize) -> (sample: i32)
    requires
        2 * k + 1 < bytes@.len(),
    ensures
        sample == le_i16(bytes@, k as int),
{
    let n = bytes.len();
    assert(n == bytes@.len());
    let low = bytes[2 * k] as u16;
    let high = bytes[2 * k + 1] as u16;
    let unsigned: u16 = low + high * 256;
    #[verifier::truncate]
    let sample = unsigned as i16;
    sample as i32
}

/// Mono into stereo: source sample `p` goes to output frame `p`.
fn widen_into(acc: &mut Vec<i32>, bytes: &[u8], gain: i32, sixteen: bool)
    requires
        gain >= 1,
    ensures
        final(acc)@.len() == old(acc)@.len(),
        forall|j: int|
            0 <= j < old(acc)@.len() ==> #[trigger] final(acc)@[j] == if sixteen {
                mixed_i16(old(acc)@, bytes@, gain, 2, 1)[j]
            } else {
                mixed_u8(old(acc)@, bytes@, gain, 2, 1)[j]
            },
{
    let count = if sixteen {
        bytes.len() / 2
    } else {
        bytes.len()
    };
    let n = acc.len();
    let frames = n / 2;
    let mut p: usize = 0;
    while p < count && p < frames
        invariant
            acc@.len() == old(acc)@.len(),
            n == old(acc)@.len(),
            frames == old(acc)@.len() / 2,
            count == if sixteen {
                bytes@.len() / 2
            } else {
                bytes@.len()
            },
            gain >= 1,
            0 <= p <= frames,
            forall|j: int|
                0 <= j < old(acc)@.len() ==> #[trigger] acc@[j] == if j / 2 < p {
                    if sixteen {
                        mixed_i16(old(acc)@, bytes@, gain, 2, 1)[j]
                    } else {
                        mixed_u8(old(acc)@, bytes@, gain, 2, 1)[j]
                    }
                } else {
                    old(acc)@[j]
                },
        decreases frames - p,
    {
        let sample = if sixteen {
            read_le_i16(bytes, p)
        } else {
            bytes[p] as i32
        };
        let shift: u32 = if sixteen {
            12
        } else {
            8
        };
        let scaled_sample = scale(sample, gain, shift);
        let left = acc[2 * p].wrapping_add(scaled_sample);
        acc.set(2 * p, left);
        let right = acc[2 * p + 1].wrapping_add(scaled_sample);
        acc.set(2 * p + 1, right);
        p = p + 1;
    }
}

/// Stereo into mono: both samples of source frame `j` go to output `j`.
fn narrow_into(acc: &mut Vec<i32>, bytes: &[u8], gain: i32, sixteen: bool)
    requires
        gain >= 1,
    ensures
        final(acc)@.len() == old(acc)@.len(),
        forall|j: int|
            0 <= j < old(acc)@.len() ==> #[trigger] final(acc)@[j] == if sixteen {
                mixed_i16(old(acc)@, bytes@, gain, 1, 2)[j]
            } else {
                mixed_u8(old(acc)@, bytes@, gain, 1, 2)[j]
            },
{
    let n = bytes.len();
    let pairs = if sixteen {
        n / 2 / 2
    } else {
        n / 2
    };
    let mut j: usize = 0;
    while j < pairs && j < acc.len()
        invariant
            acc@.len() == old(acc)@.len(),
            n == bytes@.len(),
            pairs == if sixteen {
                bytes@.len() / 2 / 2
            } else {
                bytes@.len() / 2
            },
            gain >= 1,
            0 <= j <= old(acc)@.len(),
            forall|i: int|
                0 <= i < old(acc)@.len() ==> #[trigger] acc@[i] == if i < j {
                    if sixteen {
                        mixed_i16(old(acc)@, bytes@, gain, 1, 2)[i]
                    } else {
                        mixed_u8(old(acc)@, bytes@, gain, 1, 2)[i]
                    }
                } else {
                    old(acc)@[i]
                },
        decreases old(acc)@.len() - j,
    {
        let (first, second, shift) = if sixteen {
            (read_le_i16(bytes, 2 * j), read_le_i16(bytes, 2 * j + 1), 13u32)
        } else {
            (bytes[2 * j] as i32, bytes[2 * j + 1] as i32, 9u32)
        };
        let first_scaled = scale(first, gain, shift);
        let second_scaled = scale(second, gain, shift);
        let mixed = acc[j].wrapping_add(first_scaled).wrapping_add(second_scaled);
        acc.set(j, mixed);
        j = j + 1;
    }
}

/// Matching layouts: sample for sample.
fn add_into(acc: &mut Vec<i32>, bytes: &[u8], gain: i32, sixteen: bool, output_channels: u16, source_channels: u16)
    requires
        gain >= 1,
        !(output_channels == 2 && source_channels == 1),
        !(output_channels == 1 && source_channels == 2),
    ensures
        final(acc)@.len() == old(acc)@.len(),
        forall|j: int|
            0 <= j < old(acc)@.len() ==> #[trigger] final(acc)@[j] == if sixteen {
                mixed_i16(old(acc)@, bytes@, gain, output_channels, source_channels)[j]
            } else {
                mixed_u8(old(acc)@, bytes@, gain, output_channels, source_channels)[j]
            },
{
    let count = if sixteen {
        bytes.len() / 2
    } else {
        bytes.len()
    };
    let mut j: usize = 0;
    while j < count && j < acc.len()
        invariant
            acc@.len() == old(acc)@.len(),
            count == if sixteen {
                bytes@.len() / 2
            } else {
                bytes@.len()
            },
            gain >= 1,
            !(output_channels == 2 && source_channels == 1),
            !(output_channels == 1 && source_channels == 2),
            0 <= j <= old(acc)@.len(),
            forall|i: int|
                0 <= i < old(acc)@.len() ==> #[trigger] acc@[i] == if i < j {
                    if sixteen {
                        mixed_i16(old(acc)@, bytes@, gain, output_channels, source_channels)[i]
                    } else {
                        mixed_u8(old(acc)@, bytes@, gain, output_channels, source_channels)[i]
                    }
                } else {
                    old(acc)@[i]
                },
        decreases old(acc)@.len() - j,
    {
        let sample = if sixteen {
            read_le_i16(bytes, j)
        } else {
            (bytes[j] as i32) - 128
        };
        let shift: u32 = if sixteen {
            12
        } else {
            8
        };
        let scaled_sample = scale(sample, gain, shift);
        let mixed = acc[j].wrapping_add(scaled_sample);
        acc.set(j, mixed);
        j = j + 1;
    }
}

/// Adds one 16-bit instance's bytes into the block accumulator.
pub fn accumulate_i16(
    acc: &mut Vec<i32>,
    bytes: &[u8],
    gain: i32,
    output_channels: u16,
    source_channels: u16,
)
    ensures
        final(acc)@ == mixed_i16(old(acc)@, bytes@, gain, output_channels, source_channels),
{
    if gain < 1 {
        return;
    }
    if output_channels == 2 && source_channels == 1 {
        widen_into(acc, bytes, gain, true);
    } else if output_channels == 1 && source_channels == 2 {
        narrow_into(acc, bytes, gain, true);
    } else {
        add_into(acc, bytes, gain, true, output_channels, source_channels);
    }
    assert(acc@ =~= mixed_i16(old(acc)@, bytes@, gain, output_channels, source_channels));
}

/// Adds one 8-bit instance's bytes into the block accumulator.
pub fn accumulate_u8(
    acc: &mut Vec<i32>,
    bytes: &[u8],
    gain: i32,
    output_channels: u16,
    source_channels: u16,
)
    ensures
        final(acc)@ == mixed_u8(old(acc)@, bytes@, gain, output_channels, source_channels),
{
    if gain < 1 {
        return;
    }
    if output_channels == 2 && source_channels == 1 {
        widen_into(acc, bytes, gain, false);
    } else if output_channels == 1 && source_channels == 2 {
        narrow_into(acc, bytes, gain, false);
    } else {
        add_into(acc, bytes, gain, false, output_channels, source_channels);
    }
    assert(acc@ =~= mixed_u8(old(acc)@, bytes@, gain, output_channels, source_channels));
}

/// Mixing an instance never changes the block's length, and an instance
/// whose gain quantizes below one leaves the block untouched.
pub proof fn law_mixing_keeps_the_block(
    acc: Seq<i32>,
    bytes: Seq<u8>,
    gain: i32,
    output_channels: u16,
    source_channels: u16,
)
    ensures
        mixed_i16(acc, bytes, gain, output_channels, source_channels).len() == acc.len(),
        mixed_u8(acc, bytes, gain, output_channels, source_channels).len() == acc.len(),
        gain < 1 ==> mixed_i16(acc, bytes, gain, output_channels, source_channels) == acc,
        gain < 1 ==> mixed_u8(acc, bytes, gain, output_channels, source_channels) == acc,
{
}

/// Saturated output stays within its format.
pub proof fn law_saturation_stays_in_range(sample: i32)
    ensures
        i16::MIN <= i16_saturated(sample) <= i16::MAX,
        -32768 <= sample <= 32767 ==> i16_saturated(sample) == sample,
{
}

/// A stream with the two channels of every whole stereo frame traded:
/// samples of `width` bytes, frames of two samples; a trailing partial
/// frame stays as it is.
pub open spec fn channels_swapped(bytes: Seq<u8>, width: int) -> Seq<u8> {
    Seq::new(
        bytes.len(),
        |i: int|
            if (i / (2 * width) + 1) * (2 * width) <= bytes.len() {
                if i % (2 * width) < width {
                    bytes[i + width]
                } else {
                    bytes[i - width]
                }
            } else {
                bytes[i]
            },
    )
}

proof fn lemma_wrapping_add_swap(x: i32, a: i32, b: i32)
    ensures
        i32_specs::wrapping_add(i32_specs::wrapping_add(x, a), b) == i32_specs::wrapping_add(
            i32_specs::wrapping_add(x, b),
            a,
        ),
{
}

/// Stereo into mono takes both channels of a frame alike: trading left and
/// right in every frame leaves the mixed block unchanged, in 16 and in 8
/// bits. A mix that dropped or doubled one channel would tell them apart.
pub proof fn law_stereo_to_mono_weighs_both_channels_alike(acc: Seq<i32>, bytes: Seq<u8>, gain: i32)
    ensures
        mixed_i16(acc, channels_swapped(bytes, 2), gain, 1, 2) == mixed_i16(acc, bytes, gain, 1, 2),
        mixed_u8(acc, channels_swapped(bytes, 1), gain, 1, 2) == mixed_u8(acc, bytes, gain, 1, 2),
{
    let w = channels_swapped(bytes, 2);
    let n = channels_swapped(bytes, 1);
    let count = bytes.len() / 2;
    if gain >= 1 {
        assert forall|j: int| 0 <= j < acc.len() implies #[trigger] mixed_i16(acc, w, gain, 1, 2)[j]
            == mixed_i16(acc, bytes, gain, 1, 2)[j] by {
            if j < count / 2 {
                assert(4 * j + 4 <= bytes.len());
                assert((4 * j) / 4 == j && (4 * j + 1) / 4 == j && (4 * j + 2) / 4 == j && (4 * j
                    + 3) / 4 == j);
                assert(w[4 * j] == bytes[4 * j + 2]);
                assert(w[4 * j + 1] == bytes[4 * j + 3]);
                assert(w[4 * j + 2] == bytes[4 * j]);
                assert(w[4 * j + 3] == bytes[4 * j + 1]);
                assert(le_i16(w, 2 * j) == le_i16(bytes, 2 * j + 1));
                assert(le_i16(w, 2 * j + 1) == le_i16(bytes, 2 * j));
                lemma_wrapping_add_swap(
                    acc[j],
                    scaled(le_i16(bytes, 2 * j), gain, 13),
                    scaled(le_i16(bytes, 2 * j + 1), gain, 13),
                );
            }
        }
        assert(mixed_i16(acc, w, gain, 1, 2) =~= mixed_i16(acc, bytes, gain, 1, 2));
        assert forall|j: int| 0 <= j < acc.len() implies #[trigger] mixed_u8(acc, n, gain, 1, 2)[j]
            == mixed_u8(acc, bytes, gain, 1, 2)[j] by {
            if j < bytes.len() / 2 {
                assert((2 * j) / 2 == j && (2 * j + 1) / 2 == j);
                assert(n[2 * j] == bytes[2 * j + 1]);
                assert(n[2 * j + 1] == bytes[2 * j]);
                lemma_wrapping_add_swap(
                    acc[j],
                    scaled(bytes[2 * j] as i32, gain, 9),
                    scaled(bytes[2 * j + 1] as i32, gain, 9),
                );
            }
        }
        assert(mixed_u8(acc, n, gain, 1, 2) =~= mixed_u8(acc, bytes, gain, 1, 2));
    }
}

/// Mono into stereo gives both channels of an output frame the same
/// sample: a frame whose channels were equal stays balanced.
pub proof fn law_mono_to_stereo_feeds_both_channels_alike(
    acc: Seq<i32>,
    bytes: Seq<u8>,
    gain: i32,
    frame: int,
)
    requires
        0 <= frame,
        2 * frame + 1 < acc.len(),
        acc[2 * frame] == acc[2 * frame + 1],
    ensures
        mixed_i16(acc, bytes, gain, 2, 1)[2 * frame] == mixed_i16(acc, bytes, gain, 2, 1)[2 * frame
            + 1],
        mixed_u8(acc, bytes, gain, 2, 1)[2 * frame] == mixed_u8(acc, bytes, gain, 2, 1)[2 * frame
            + 1],
{
    assert((2 * frame) / 2 == frame && (2 * frame + 1) / 2 == frame);
}

} // verus!
