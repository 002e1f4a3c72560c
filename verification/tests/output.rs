use stella_app::mixer::NativeMixerConfiguration;
use stella_app::output::{BlockSwitch, OutputSchedule, SampleStep};

fn configuration(
    channels: u16,
    sample_rate: u32,
    buffer_bytes: u32,
) -> NativeMixerConfiguration {
    NativeMixerConfiguration {
        channels,
        bits_per_sample: 16,
        sample_rate,
        buffer_bytes,
    }
}

fn step(switch: BlockSwitch, index: usize, refill: usize) -> SampleStep {
    SampleStep {
        switch,
        index,
        refill,
    }
}

#[test]
fn the_output_mixes_its_prefill_before_the_first_sample() {
    let (schedule, mixed) = OutputSchedule::start(&configuration(1, 44_100, 4), 6);
    assert_eq!(mixed, 6);
    assert_eq!(schedule.block_samples, 2);
    assert_eq!(schedule.current_len, 2);
    assert_eq!(mixed * schedule.block_samples, 12);
    let (_, mixed) = OutputSchedule::start(&configuration(1, 44_100, 4), 0);
    assert_eq!(mixed, 1);
}

#[test]
fn the_worker_refills_only_after_two_played_blocks_at_a_poll() {
    let (mut schedule, mixed) = OutputSchedule::start(&configuration(1, 100, 2), 6);
    assert_eq!(mixed, 6);
    assert_eq!(schedule.next_sample(true), step(BlockSwitch::Keep, 0, 0));
    assert_eq!(schedule.processed_blocks, 1);
    assert_eq!(schedule.next_sample(true), step(BlockSwitch::Queued, 0, 2));
    assert_eq!(schedule.processed_blocks, 0);
}

#[test]
fn an_empty_queue_plays_one_silent_frame_at_a_time() {
    let (mut schedule, _) = OutputSchedule::start(&configuration(2, 44_100, 8), 1);
    for index in 0..4 {
        assert_eq!(schedule.next_sample(false), step(BlockSwitch::Keep, index, 0));
    }
    assert_eq!(schedule.next_sample(false), step(BlockSwitch::Silence, 0, 0));
    assert_eq!(schedule.next_sample(false), step(BlockSwitch::Keep, 1, 0));
    assert_eq!(schedule.current_len, 2);
    assert_eq!(schedule.next_sample(true), step(BlockSwitch::Queued, 0, 0));
    assert_eq!(schedule.current_len, 4);
}

#[test]
fn the_worker_polls_every_ten_milliseconds_of_frames() {
    let (mut schedule, _) = OutputSchedule::start(&configuration(1, 44_100, 2), 6);
    let mut refills = Vec::new();
    for frame in 0..882 {
        let step = schedule.next_sample(true);
        if step.refill > 0 {
            refills.push((frame, step.refill));
        }
    }
    assert_eq!(refills, vec![(440, 441), (881, 441)]);
    assert_eq!(schedule.worker_poll_frame_nanos, 0);
}
