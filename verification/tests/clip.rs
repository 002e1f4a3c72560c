use stella_app::clip::{NativeClip, PcmReader};

fn clip(reader: PcmReader) -> NativeClip {
    NativeClip {
        reader,
        channels: 1,
        bits_per_sample: 16,
        sample_rate: 16_000,
    }
}

#[test]
fn composite_child_end_returns_short_before_next_child_on_non_looping_read() {
    let mut playback = clip(PcmReader::sequence(vec![
        1_i16.to_le_bytes().to_vec(),
        2_i16.to_le_bytes().to_vec(),
    ]));
    let (bytes, finished) = playback.read_playback(false, 4);
    assert_eq!(bytes, 1_i16.to_le_bytes());
    assert!(!finished);
    let (bytes, finished) = playback.read_playback(false, 4);
    assert_eq!(bytes, 2_i16.to_le_bytes());
    assert!(!finished);
    let (bytes, finished) = playback.read_playback(false, 4);
    assert!(bytes.is_empty());
    assert!(finished);
}

#[test]
fn looping_reader_retries_short_reads_and_wraps_inside_one_request() {
    let mut playback = clip(PcmReader::memory(7_i16.to_le_bytes().to_vec()));
    let (bytes, finished) = playback.read_playback(true, 6);
    assert_eq!(
        bytes,
        [
            7_i16.to_le_bytes(),
            7_i16.to_le_bytes(),
            7_i16.to_le_bytes()
        ]
        .concat()
    );
    assert!(!finished);
}

#[test]
fn memory_reads_advance_the_cursor_and_stop_at_the_end() {
    let mut reader = PcmReader::memory(vec![1, 2, 3, 4, 5]);
    let mut output = Vec::new();
    assert_eq!(reader.read_into(&mut output, 3), 3);
    assert_eq!(output, [1, 2, 3]);
    assert_eq!(reader.read_into(&mut output, 3), 2);
    assert_eq!(output, [1, 2, 3, 4, 5]);
    assert_eq!(reader.read_into(&mut output, 3), 0);
    assert_eq!(output, [1, 2, 3, 4, 5]);
    assert!(reader.reset());
    assert_eq!(reader.read_into(&mut output, 1), 1);
    assert_eq!(output, [1, 2, 3, 4, 5, 1]);
}

#[test]
fn a_read_never_crosses_into_the_next_part() {
    let mut reader = PcmReader::sequence(vec![vec![1, 2], vec![3, 4, 5]]);
    let mut output = Vec::new();
    assert_eq!(reader.read_into(&mut output, 3), 2);
    assert_eq!(reader.read_into(&mut output, 3), 3);
    assert_eq!(output, [1, 2, 3, 4, 5]);
}

#[test]
fn an_exactly_filled_part_hands_over_on_the_next_read() {
    let mut reader = PcmReader::sequence(vec![vec![1, 2], vec![3]]);
    let mut output = Vec::new();
    assert_eq!(reader.read_into(&mut output, 2), 2);
    assert_eq!(reader.read_into(&mut output, 2), 0);
    assert_eq!(reader.read_into(&mut output, 2), 1);
    assert_eq!(output, [1, 2, 3]);
}

#[test]
fn a_looping_composite_rewinds_on_an_empty_read() {
    let mut playback = clip(PcmReader::sequence(vec![vec![1, 2], vec![3]]));
    assert_eq!(playback.read_playback(true, 2), (vec![1, 2], false));
    assert_eq!(playback.read_playback(true, 2), (vec![1, 2], false));
}

#[test]
fn a_looping_read_wraps_through_every_part() {
    let mut playback = clip(PcmReader::sequence(vec![vec![1, 2], vec![3]]));
    assert_eq!(playback.read_playback(true, 7), (vec![1, 2, 3, 1, 2, 3, 1], false));
}

#[test]
fn reset_reports_whether_the_first_part_holds_data() {
    assert!(PcmReader::sequence(vec![vec![9], vec![]]).reset());
    assert!(!PcmReader::sequence(vec![vec![], vec![9]]).reset());
    assert!(!PcmReader::sequence(Vec::new()).reset());
    assert!(!PcmReader::memory(Vec::new()).reset());
}

#[test]
fn a_non_looping_instance_reads_once_per_block() {
    let mut playback = clip(PcmReader::memory(vec![1, 2, 3]));
    assert_eq!(playback.read_playback(false, 2), (vec![1, 2], false));
    assert_eq!(playback.read_playback(false, 2), (vec![3], false));
    assert_eq!(playback.read_playback(false, 2), (Vec::new(), true));
}

#[test]
fn an_empty_looping_clip_gives_nothing_and_does_not_finish() {
    let mut playback = NativeClip::empty();
    assert_eq!(playback.read_playback(true, 4), (Vec::new(), false));
    assert_eq!(playback.channels, 0);
    assert_eq!(playback.bits_per_sample, 0);
}

#[test]
fn an_empty_request_finishes_a_non_looping_instance() {
    let mut playback = clip(PcmReader::memory(vec![1, 2, 3]));
    assert_eq!(playback.read_playback(false, 0), (Vec::new(), true));
    assert_eq!(playback.read_playback(true, 0), (Vec::new(), false));
    assert_eq!(playback.read_playback(false, 3), (vec![1, 2, 3], false));
}
