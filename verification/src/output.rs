//! Scheduling of the native output stream. The output plays mixed blocks one
//! sample at a time; a worker polls every 10 ms of output frames and, once
//! at least two blocks have been played since its last refill, mixes as
//! many new blocks as were played. At the start the output mixes all of its
//! prefill blocks before the first sample. An empty queue plays a silent
//! block of one frame.
use vstd::prelude::*;
use crate::mixer::NativeMixerConfiguration;

verus! {

/// The worker's poll interval, in nanoseconds.
pub const WORKER_POLL_NANOS: u128 = 10_000_000;

/// Nanoseconds in a second.
pub const NANOS_PER_SECOND: u128 = 1_000_000_000;

/// Which block the next sample comes from.
#[derive(Clone, Copy, Debug, PartialEq, Eq, Structural)]
pub enum BlockSwitch {
    /// The block being played.
    Keep,
    /// The next queued block, which becomes the block being played.
    Queued,
    /// A silent block of one frame, because the queue is empty.
    Silence,
}

/// What the output does for one sample: where the sample comes from, and
/// how many new blocks the worker mixes and queues after it.
#[derive(Clone, Copy, Debug, PartialEq, Eq, Structural)]
pub struct SampleStep {
    pub switch: BlockSwitch,
    pub index: usize,
    pub refill: usize,
}

/// Where the output stands.
#[derive(Clone, Copy, Debug, PartialEq, Eq, Structural)]
pub struct OutputSchedule {
    pub channels: u16,
    pub sample_rate: u32,
    pub block_samples: usize,
    pub current_len: usize,
    pub cursor: usize,
    pub processed_blocks: usize,
    pub channel_cursor: u16,
    pub worker_poll_frame_nanos: u128,
}

/// The poll interval measured in frame-nanoseconds: one output frame adds a
/// second's worth of nanoseconds, so `sample_rate` frames make one second.
pub open spec fn poll_period(sample_rate: u32) -> int {
    sample_rate * WORKER_POLL_NANOS
}

impl OutputSchedule {
    /// The block being played is not empty and not overrun, the frame
    /// position is inside a frame, and the poll clock is inside a period;
    /// blocks played since the last refill are bounded by the frames since
    /// the last poll.
    pub open spec fn wf(self) -> bool {
        &&& self.channels > 0
        &&& self.sample_rate > 0
        &&& self.block_samples > 0
        &&& 0 < self.current_len
        &&& self.cursor <= self.current_len
        &&& self.channel_cursor < self.channels
        &&& self.worker_poll_frame_nanos < poll_period(self.sample_rate)
        &&& self.processed_blocks * NANOS_PER_SECOND <= self.worker_poll_frame_nanos
            + NANOS_PER_SECOND
    }

    /// The output after one sample, and what it did.
    pub open spec fn stepped(self, queued: bool) -> (OutputSchedule, SampleStep) {
        let switching = self.cursor == self.current_len;
        let switch = if !switching {
            BlockSwitch::Keep
        } else if queued {
            BlockSwitch::Queued
        } else {
            BlockSwitch::Silence
        };
        let len = if !switching {
            self.current_len
        } else if queued {
            self.block_samples
        } else {
            self.channels as usize
        };
        let index = if switching { 0 } else { self.cursor };
        let cursor = (index + 1) as usize;
        if self.channel_cursor + 1 == self.channels {
            let processed = if cursor == len {
                self.processed_blocks + 1
            } else {
                self.processed_blocks as int
            };
            let total = self.worker_poll_frame_nanos + NANOS_PER_SECOND;
            let period = poll_period(self.sample_rate);
            let refill = if total >= period && processed >= 2 {
                processed
            } else {
                0
            };
            (
                OutputSchedule {
                    current_len: len,
                    cursor,
                    processed_blocks: (processed - refill) as usize,
                    channel_cursor: 0,
                    worker_poll_frame_nanos: (total % period) as u128,
                    ..self
                },
                SampleStep { switch, index, refill: refill as usize },
            )
        } else {
            (
                OutputSchedule {
                    current_len: len,
                    cursor,
                    channel_cursor: (self.channel_cursor + 1) as u16,
                    ..self
                },
                SampleStep { switch, index, refill: 0 },
            )
        }
    }

    /// The output of `configuration` when it starts, and how many blocks
    /// it mixes before the first sample: its prefill, and at least the one
    /// it starts playing.
    pub fn start(configuration: &NativeMixerConfiguration, prefill_blocks: usize) -> (out: (
        Self,
        usize,
    ))
        requires
            configuration.bits_per_sample == 8 || configuration.bits_per_sample == 16,
            configuration.channels > 0,
            configuration.sample_rate > 0,
            configuration.buffer_bytes / ((configuration.bits_per_sample / 8) as u32) > 0,
        ensures
            out.0.wf(),
            out.0 == (OutputSchedule {
                channels: configuration.channels,
                sample_rate: configuration.sample_rate,
                block_samples: (configuration.buffer_bytes / ((configuration.bits_per_sample
                    / 8) as u32)) as usize,
                current_len: (configuration.buffer_bytes / ((configuration.bits_per_sample
                    / 8) as u32)) as usize,
                cursor: 0,
                processed_blocks: 0,
                channel_cursor: 0,
                worker_poll_frame_nanos: 0,
            }),
            out.1 == if prefill_blocks == 0 {
                1
            } else {
                prefill_blocks
            },
    {
        let samples = configuration.block_samples();
        let schedule = OutputSchedule {
            channels: configuration.channels,
            sample_rate: configuration.sample_rate,
            block_samples: samples,
            current_len: samples,
            cursor: 0,
            processed_blocks: 0,
            channel_cursor: 0,
            worker_poll_frame_nanos: 0,
        };
        let mixed = if prefill_blocks == 0 {
            1
        } else {
            prefill_blocks
        };
        (schedule, mixed)
    }

    /// Plays one sample; `queued` says whether a mixed block waits in the
    /// queue.
    pub fn next_sample(&mut self, queued: bool) -> (step: SampleStep)
        requires
            old(self).wf(),
        ensures
            final(self).wf(),
            (*final(self), step) == old(self).stepped(queued),
    {
        let ghost start = *self;
        let switch = if self.cursor == self.current_len {
            let switch = if queued {
                self.current_len = self.block_samples;
                BlockSwitch::Queued
            } else {
                self.current_len = self.channels as usize;
                BlockSwitch::Silence
            };
            self.cursor = 0;
            switch
        } else {
            BlockSwitch::Keep
        };
        let index = self.cursor;
        self.cursor = self.cursor + 1;
        self.channel_cursor = self.channel_cursor + 1;
        let mut refill: usize = 0;
        if self.channel_cursor == self.channels {
            self.channel_cursor = 0;
            if self.cursor == self.current_len {
                self.processed_blocks = self.processed_blocks + 1;
            }
            let ghost processed = self.processed_blocks;
            self.worker_poll_frame_nanos = self.worker_poll_frame_nanos + NANOS_PER_SECOND;
            let ghost total = self.worker_poll_frame_nanos;
            let period = (self.sample_rate as u128) * WORKER_POLL_NANOS;
            while self.worker_poll_frame_nanos >= period
                invariant
                    period == poll_period(self.sample_rate),
                    period > 0,
                    self.worker_poll_frame_nanos <= total,
                    self.worker_poll_frame_nanos < total ==> total >= period,
                    self.worker_poll_frame_nanos % period == total % period,
                    self.worker_poll_frame_nanos == total ==> refill == 0
                        && self.processed_blocks == processed,
                    self.worker_poll_frame_nanos < total ==> (if processed >= 2 {
                        refill == processed && self.processed_blocks == 0
                    } else {
                        refill == 0 && self.processed_blocks == processed
                    }),
                    self.channels == start.channels,
                    self.sample_rate == start.sample_rate,
                    self.block_samples == start.block_samples,
                    self.current_len == old(self).stepped(queued).0.current_len,
                    self.cursor == old(self).stepped(queued).0.cursor,
                    self.channel_cursor == 0,
                decreases self.worker_poll_frame_nanos,
            {
                proof {
                    vstd::arithmetic::div_mod::lemma_mod_sub_multiples_vanish(
                        self.worker_poll_frame_nanos as int,
                        period as int,
                    );
                }
                self.worker_poll_frame_nanos = self.worker_poll_frame_nanos - period;
                refill = refill + self.refill_processed_blocks();
            }
            proof {
                vstd::arithmetic::div_mod::lemma_small_mod(
                    self.worker_poll_frame_nanos as nat,
                    period as nat,
                );
            }
        }
        SampleStep { switch, index, refill }
    }

    /// At a worker poll: the number of blocks to mix, which is every block
    /// played since the last refill once there are at least two.
    fn refill_processed_blocks(&mut self) -> (refill: usize)
        ensures
            *final(self) == (OutputSchedule {
                processed_blocks: if old(self).processed_blocks < 2 {
                    old(self).processed_blocks
                } else {
                    0
                },
                ..*old(self)
            }),
            refill == if old(self).processed_blocks < 2 {
                0
            } else {
                old(self).processed_blocks
            },
    {
        if self.processed_blocks < 2 {
            return 0;
        }
        let refill = self.processed_blocks;
        self.processed_blocks = 0;
        refill
    }
}

/// The worker mixes only at a poll and only once two blocks have played;
/// after it mixes, no played block is left waiting for a refill.
pub proof fn law_refills_come_in_twos(schedule: OutputSchedule, queued: bool)
    requires
        schedule.wf(),
    ensures
        schedule.stepped(queued).1.refill == 0 || (schedule.stepped(queued).1.refill >= 2
            && schedule.stepped(queued).0.processed_blocks == 0),
{
}

/// Every sample is taken from inside the block it is played from, and a
/// queued block is played from its first sample.
pub proof fn law_samples_come_from_inside_the_block(schedule: OutputSchedule, queued: bool)
    requires
        schedule.wf(),
    ensures
        schedule.stepped(queued).1.index < schedule.stepped(queued).0.current_len,
        schedule.stepped(queued).1.switch != BlockSwitch::Keep ==> schedule.stepped(
            queued,
        ).1.index == 0,
{
}

} // verus!
