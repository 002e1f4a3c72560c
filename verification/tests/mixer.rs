use stella_app::mixer::{
    accumulate_i16, accumulate_u8, converted_read_size, native_u8_saturate, saturate_i16, scale,
    AudioOutputFormat, NativeMixerConfiguration,
};

fn format(channels: u16, bits_per_sample: u16, buffer_bytes: u32) -> AudioOutputFormat {
    AudioOutputFormat {
        channels,
        bits_per_sample,
        sample_rate: 44_100,
        buffer_bytes,
    }
}

fn le(samples: &[i16]) -> Vec<u8> {
    samples.iter().flat_map(|s| s.to_le_bytes()).collect()
}

#[test]
fn configuration_accepts_only_whole_native_frames() {
    let valid = format(2, 16, 4096);
    assert_eq!(
        NativeMixerConfiguration::from_state(&valid),
        Some(NativeMixerConfiguration {
            channels: 2,
            bits_per_sample: 16,
            sample_rate: 44_100,
            buffer_bytes: 4096,
        })
    );
    assert!(NativeMixerConfiguration::from_state(&format(3, 16, 4096)).is_none());
    assert!(NativeMixerConfiguration::from_state(&format(2, 24, 4096)).is_none());
    assert!(NativeMixerConfiguration::from_state(&format(2, 16, 4094)).is_none());
    assert!(NativeMixerConfiguration::from_state(&format(2, 16, 2)).is_none());
    let mut silent = format(1, 8, 1);
    assert!(NativeMixerConfiguration::from_state(&silent).is_some());
    silent.sample_rate = 0;
    assert!(NativeMixerConfiguration::from_state(&silent).is_none());
    let configuration = NativeMixerConfiguration::from_state(&format(1, 16, 4)).unwrap();
    assert_eq!(configuration.block_samples(), 2);
}

#[test]
fn read_sizes_follow_channel_conversion() {
    assert_eq!(converted_read_size(8, 2, 2), Some(8));
    assert_eq!(converted_read_size(8, 2, 1), Some(4));
    assert_eq!(converted_read_size(8, 1, 2), Some(16));
    assert_eq!(converted_read_size(usize::MAX, 1, 2), None);
    assert_eq!(converted_read_size(8, 1, 3), None);
}

#[test]
fn sixteen_bit_instances_quantize_gain_accumulate_and_saturate_once() {
    // Two looping instances of i16::MAX at gains 4096 (1.0) and 2048 (0.5).
    let bytes = le(&[i16::MAX, i16::MAX]);
    let mut block = vec![0; 2];
    accumulate_i16(&mut block, &bytes, 4096, 1, 1);
    accumulate_i16(&mut block, &bytes, 2048, 1, 1);
    assert_eq!(block, [49_150, 49_150]);
    let pcm: Vec<i16> = block.iter().map(|&s| saturate_i16(s)).collect();
    assert_eq!(pcm, [i16::MAX, i16::MAX]);
}

#[test]
fn mono_and_stereo_conversion_use_integer_shifts() {
    let mut stereo = vec![0; 4];
    accumulate_i16(&mut stereo, &le(&[4096]), 4096, 2, 1);
    assert_eq!(stereo, [4096, 4096, 0, 0]);
    let mut mono = vec![0; 2];
    accumulate_i16(&mut mono, &le(&[4096, 4096]), 4096, 1, 2);
    assert_eq!(mono, [4096, 0]);
    assert_eq!(f32::from(saturate_i16(mono[0])) / 32_768.0, 0.125);
}

#[test]
fn instances_below_unit_gain_are_silent() {
    let mut block = vec![5, 6];
    accumulate_i16(&mut block, &le(&[1000, 1000]), 0, 1, 1);
    accumulate_u8(&mut block, &[200, 200], -3, 1, 1);
    assert_eq!(block, [5, 6]);
}

#[test]
fn eight_bit_conversion_preserves_target_unsigned_centering_bug() {
    let mut stereo = vec![0; 2];
    accumulate_u8(&mut stereo, &[128], 256, 2, 1);
    assert_eq!(stereo, [128, 128]);
    let bytes: Vec<u8> = stereo.iter().map(|&s| native_u8_saturate(s)).collect();
    assert_eq!(bytes, [255, 255]);
    let mut mono = vec![0; 1];
    accumulate_u8(&mut mono, &[128], 256, 1, 1);
    assert_eq!(mono, [0]);
    assert_eq!(native_u8_saturate(127), 254);
    assert_eq!(native_u8_saturate(128), 255);
    assert_eq!(native_u8_saturate(0), 128);
    assert_eq!(native_u8_saturate(1), 128);
    assert_eq!(native_u8_saturate(-1), 127);
    assert_eq!(native_u8_saturate(-128), 1);
    assert_eq!(native_u8_saturate(-1000), 8);
}

#[test]
fn scaling_wraps_then_shifts_arithmetically() {
    assert_eq!(scale(-4096, 4096, 12), -4096);
    assert_eq!(scale(-1, 1, 1), -1);
    assert_eq!(scale(i32::MAX, 2, 0), -2);
}

#[test]
fn accumulation_wraps_on_overflow() {
    let mut block = vec![i32::MAX];
    accumulate_i16(&mut block, &le(&[4096]), 4096, 1, 1);
    assert_eq!(block, [i32::MAX.wrapping_add(4096)]);
}
