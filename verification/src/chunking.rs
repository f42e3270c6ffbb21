//! Chunking decisions of the session loop: when the accumulated microphone
//! audio is cut and transcribed, when pending speaker audio is flushed, and
//! the bound this keeps on accumulation.

use vstd::prelude::*;

verus! {

/// One second of samples at 16 kHz: the least worth transcribing.
pub const MIN_CHUNK_SAMPLES: usize = 16000;

/// Fifteen seconds of samples: the force-flush safety net.
pub const MAX_CHUNK_SAMPLES: usize = 16000 * 15;

/// 200 ms of samples kept between chunks for context continuity.
pub const OVERLAP_SAMPLES: usize = 3200;

/// Polls of speaker silence (about two seconds) before a speaker flush.
pub const SPK_SILENCE_FLUSH_POLLS: u32 = 8;

/// The microphone is transcribed when audio has arrived and either the
/// buffer reached the force-flush bound or speech ended after at least the
/// minimum chunk.
pub open spec fn spec_mic_should_transcribe(acc: int, has_samples: bool, speech_ended: bool,
) -> bool {
    has_samples && (acc >= MAX_CHUNK_SAMPLES || (acc >= MIN_CHUNK_SAMPLES && speech_ended))
}

/// The speaker is transcribed when its pending audio reached the force-flush
/// bound, or at least a minimum chunk has gone silent for enough polls.
pub open spec fn spec_spk_should_transcribe(pending: int, silent_polls: int) -> bool {
    pending >= MAX_CHUNK_SAMPLES || (pending >= MIN_CHUNK_SAMPLES && silent_polls
        >= SPK_SILENCE_FLUSH_POLLS)
}

/// Before a microphone chunk is transcribed, pending speaker audio of at
/// least a quarter chunk is flushed first, so deduplication can see it.
pub open spec fn spec_spk_should_preflush(pending: int) -> bool {
    pending >= MIN_CHUNK_SAMPLES / 4
}

pub fn mic_should_transcribe(acc: usize, has_samples: bool, speech_ended: bool) -> (r: bool)
    ensures
        r == spec_mic_should_transcribe(acc as int, has_samples, speech_ended),
{
    has_samples && (acc >= MAX_CHUNK_SAMPLES || (acc >= MIN_CHUNK_SAMPLES && speech_ended))
}

pub fn spk_should_transcribe(pending: usize, silent_polls: u32) -> (r: bool)
    ensures
        r == spec_spk_should_transcribe(pending as int, silent_polls as int),
{
    pending >= MAX_CHUNK_SAMPLES || (pending >= MIN_CHUNK_SAMPLES && silent_polls
        >= SPK_SILENCE_FLUSH_POLLS)
}

pub fn spk_should_preflush(pending: usize) -> (r: bool)
    ensures
        r == spec_spk_should_preflush(pending as int),
{
    pending >= MIN_CHUNK_SAMPLES / 4
}

/// The length the microphone buffer keeps after a tick: what arrived stays
/// unless a transcription was cut, which leaves at most the overlap.
pub open spec fn spec_tick_acc(acc: int, pushed: int, cut: bool) -> int {
    if cut {
        if acc + pushed > OVERLAP_SAMPLES {
            OVERLAP_SAMPLES as int
        } else {
            0
        }
    } else {
        acc + pushed
    }
}

/// The model of one session-loop tick on the microphone buffer.
pub struct MicChunkState {
    pub accumulated: usize,
    pub has_samples: bool,
}

impl MicChunkState {
    /// The inductive bound: between ticks the buffer stays below the
    /// force-flush limit.
    pub open spec fn wf(self) -> bool {
        self.accumulated < MAX_CHUNK_SAMPLES
    }

    pub fn new() -> (r: MicChunkState)
        ensures
            r.wf(),
            r.accumulated == 0,
            !r.has_samples,
    {
        MicChunkState { accumulated: 0, has_samples: false }
    }

    /// One tick: `pushed` new samples arrive, then the cut decision is taken
    /// and, on a cut, the buffer is drained down to the overlap. Returns
    /// whether a chunk was cut.
    pub fn tick(&mut self, pushed: usize, speech_ended: bool) -> (cut: bool)
        requires
            old(self).wf(),
            pushed <= usize::MAX - MAX_CHUNK_SAMPLES,
        ensures
            final(self).wf(),
            cut == spec_mic_should_transcribe(
                old(self).accumulated + pushed,
                old(self).has_samples || pushed > 0,
                speech_ended,
            ),
            final(self).accumulated == spec_tick_acc(
                old(self).accumulated as int,
                pushed as int,
                cut,
            ),
            final(self).has_samples == (!cut && (old(self).has_samples || pushed > 0)),
    {
        if pushed > 0 {
            self.has_samples = true;
        }
        self.accumulated = self.accumulated + pushed;
        let cut = mic_should_transcribe(self.accumulated, self.has_samples, speech_ended);
        if cut {
            if self.accumulated > OVERLAP_SAMPLES {
                self.accumulated = OVERLAP_SAMPLES;
            } else {
                self.accumulated = 0;
            }
            self.has_samples = false;
        }
        cut
    }
}

/// What one tick of the session loop decides to do, in order: flush pending
/// speaker audio ahead of a microphone cut (so deduplication has speaker
/// segments to compare against), cut and transcribe the microphone chunk,
/// and flush the speaker buffer on its own triggers.
pub struct TickPlan {
    pub preflush_speaker: bool,
    pub transcribe_mic: bool,
    pub transcribe_speaker: bool,
}

/// The decision state the session loop carries across ticks.
pub struct SessionTick {
    pub mic: MicChunkState,
    pub spk: SpkChunkState,
}

impl SessionTick {
    pub open spec fn wf(self) -> bool {
        self.mic.wf() && self.spk.wf()
    }

    pub fn new() -> (r: SessionTick)
        ensures
            r.wf(),
            r.mic.accumulated == 0,
            !r.mic.has_samples,
            r.spk.pending == 0,
            r.spk.silent_polls == 0,
    {
        SessionTick { mic: MicChunkState::new(), spk: SpkChunkState::new() }
    }

    /// One tick after ingesting `new_mic` and `new_spk` samples: the
    /// microphone is cut on its two triggers; a cut first flushes pending
    /// speaker audio of at least a quarter chunk; and the speaker buffer
    /// otherwise flushes on its own size and silence triggers. Buffers and
    /// counters are drained exactly by what the plan transcribes.
    pub fn tick(
        &mut self,
        new_mic: usize,
        new_spk: usize,
        spk_batch_silent: bool,
        speech_ended: bool,
    ) -> (plan: TickPlan)
        requires
            old(self).wf(),
            new_mic <= usize::MAX - MAX_CHUNK_SAMPLES,
            new_spk <= usize::MAX - MAX_CHUNK_SAMPLES,
            old(self).spk.silent_polls < 0xffff_ffffu32,
        ensures
            final(self).wf(),
            ({
                let acc = old(self).mic.accumulated + new_mic;
                let pend = old(self).spk.pending + new_spk;
                let polls: int = if new_spk == 0 || spk_batch_silent {
                    old(self).spk.silent_polls + 1
                } else {
                    0
                };
                &&& plan.transcribe_mic == spec_mic_should_transcribe(
                    acc,
                    old(self).mic.has_samples || new_mic > 0,
                    speech_ended,
                )
                &&& plan.preflush_speaker == (plan.transcribe_mic && spec_spk_should_preflush(
                    pend,
                ))
                &&& plan.transcribe_speaker == (!plan.preflush_speaker
                    && spec_spk_should_transcribe(pend, polls))
                &&& final(self).mic.accumulated == spec_tick_acc(
                    old(self).mic.accumulated as int,
                    new_mic as int,
                    plan.transcribe_mic,
                )
                &&& final(self).mic.has_samples == (!plan.transcribe_mic && (old(
                    self,
                ).mic.has_samples || new_mic > 0))
                &&& final(self).spk.pending == (if plan.preflush_speaker
                    || plan.transcribe_speaker {
                    0int
                } else {
                    pend
                })
                &&& final(self).spk.silent_polls == (if plan.preflush_speaker
                    || plan.transcribe_speaker {
                    0int
                } else {
                    polls
                })
            }),
    {
        // ingest
        if new_mic > 0 {
            self.mic.has_samples = true;
        }
        self.mic.accumulated = self.mic.accumulated + new_mic;
        if new_spk == 0 {
            self.spk.silent_polls = self.spk.silent_polls + 1;
        } else {
            self.spk.pending = self.spk.pending + new_spk;
            if spk_batch_silent {
                self.spk.silent_polls = self.spk.silent_polls + 1;
            } else {
                self.spk.silent_polls = 0;
            }
        }
        // the microphone cut, with the speaker pre-flush it forces
        let transcribe_mic = mic_should_transcribe(
            self.mic.accumulated,
            self.mic.has_samples,
            speech_ended,
        );
        let preflush_speaker = transcribe_mic && spk_should_preflush(self.spk.pending);
        if preflush_speaker {
            self.spk.pending = 0;
            self.spk.silent_polls = 0;
        }
        if transcribe_mic {
            if self.mic.accumulated > OVERLAP_SAMPLES {
                self.mic.accumulated = OVERLAP_SAMPLES;
            } else {
                self.mic.accumulated = 0;
            }
            self.mic.has_samples = false;
        }
        // the speaker's own flush triggers
        let transcribe_speaker = spk_should_transcribe(self.spk.pending, self.spk.silent_polls);
        if transcribe_speaker {
            self.spk.pending = 0;
            self.spk.silent_polls = 0;
        }
        proof {
            if preflush_speaker {
                assert(!spec_spk_should_transcribe(0, 0));
            }
        }
        TickPlan { preflush_speaker, transcribe_mic, transcribe_speaker }
    }
}

/// Bounded accumulation: starting a tick under the force-flush limit, the
/// buffer peaks at less than the limit plus that tick's audio and ends the
/// tick under the limit again — so it never exceeds the limit by more than
/// one tick of audio.
pub proof fn lemma_bounded_accumulation(acc: int, pushed: int, has: bool, ended: bool)
    requires
        0 <= acc < MAX_CHUNK_SAMPLES,
        0 <= pushed,
    ensures
        acc + pushed < MAX_CHUNK_SAMPLES + pushed,
        spec_tick_acc(
            acc,
            pushed,
            spec_mic_should_transcribe(acc + pushed, has || pushed > 0, ended),
        ) < MAX_CHUNK_SAMPLES,
{
}

/// How many windows of `window_samples` cover a buffer of `len` samples (a
/// final partial window counts; an empty buffer still counts as one).
pub open spec fn spec_num_windows(len: int, window_samples: int) -> int {
    (if len >= 1 {
        len - 1
    } else {
        0
    }) / window_samples + 1
}

pub fn num_windows(len: usize, window_samples: usize) -> (r: usize)
    requires
        window_samples >= 1,
    ensures
        r as int == spec_num_windows(len as int, window_samples as int),
{
    let base = if len >= 1 {
        len - 1
    } else {
        0
    };
    base / window_samples + 1
}

/// After windowed speaker-energy filtering, the microphone chunk is skipped
/// entirely exactly when every window was zeroed and there was more than one.
pub fn should_skip_filtered_mic(windows_zeroed: usize, total_windows: usize) -> (r: bool)
    ensures
        r == (windows_zeroed == total_windows && total_windows > 1),
{
    windows_zeroed == total_windows && total_windows > 1
}

/// The model of the pending speaker buffer across ticks.
pub struct SpkChunkState {
    pub pending: usize,
    pub silent_polls: u32,
}

impl SpkChunkState {
    pub open spec fn wf(self) -> bool {
        self.pending < MAX_CHUNK_SAMPLES
    }

    pub fn new() -> (r: SpkChunkState)
        ensures
            r.wf(),
            r.pending == 0,
            r.silent_polls == 0,
    {
        SpkChunkState { pending: 0, silent_polls: 0 }
    }

    /// One tick: a batch arrives (empty or not, silent or not), the silence
    /// counter is maintained, and the flush decision is taken; a flush
    /// empties the buffer and resets the counter. Returns whether the
    /// pending audio is handed to transcription.
    pub fn tick(&mut self, pushed: usize, batch_silent: bool) -> (flush: bool)
        requires
            old(self).wf(),
            pushed <= usize::MAX - MAX_CHUNK_SAMPLES,
            old(self).silent_polls < 0xffff_ffffu32,
        ensures
            final(self).wf(),
            flush == spec_spk_should_transcribe(
                old(self).pending + pushed,
                (if pushed == 0 || batch_silent {
                    old(self).silent_polls + 1
                } else {
                    0
                }) as int,
            ),
            flush ==> final(self).pending == 0 && final(self).silent_polls == 0,
            !flush ==> final(self).pending == old(self).pending + pushed,
    {
        if pushed == 0 {
            self.silent_polls = self.silent_polls + 1;
        } else {
            self.pending = self.pending + pushed;
            if batch_silent {
                self.silent_polls = self.silent_polls + 1;
            } else {
                self.silent_polls = 0;
            }
        }
        let flush = spk_should_transcribe(self.pending, self.silent_polls);
        if flush {
            self.pending = 0;
            self.silent_polls = 0;
        }
        flush
    }
}

} // verus!
