//! The pipeline's event bookkeeping: the speech-ended flag is level-triggered
//! and cleared by the poll that reads it; amplitude smoothing is applied only
//! to channels that received fresh samples since the previous poll (speaker
//! batches arrive in bursts, and decaying between them would misreport the
//! level); and amplitude publication is throttled.

use vstd::prelude::*;
use crate::chat::PipelineEvent;

verus! {

/// Milliseconds that must pass between two amplitude publications.
pub const AMPLITUDE_THROTTLE_MS: u64 = 100;

/// The pipeline state that drives events, with the audio itself left to the
/// signal path: which channels have fresh samples, whether mic speech ended
/// since the last poll, and what the VAD currently reports.
pub struct PipelineFlags {
    pub speech_ended_flag: bool,
    pub mic_has_new_samples: bool,
    pub spk_has_new_samples: bool,
    pub mic_is_speaking: bool,
    pub mic_vad_prob_permille: u16,
}

impl PipelineFlags {
    pub fn new() -> (r: PipelineFlags)
        ensures
            !r.speech_ended_flag,
            !r.mic_has_new_samples,
            !r.spk_has_new_samples,
            !r.mic_is_speaking,
            r.mic_vad_prob_permille == 0,
    {
        PipelineFlags {
            speech_ended_flag: false,
            mic_has_new_samples: false,
            spk_has_new_samples: false,
            mic_is_speaking: false,
            mic_vad_prob_permille: 0,
        }
    }

    /// Record a microphone push: a nonempty batch marks the channel fresh,
    /// a speech end reported by the VAD latches the flag, and the VAD's
    /// current state and probability are mirrored.
    pub fn on_mic_push(
        &mut self,
        samples: usize,
        saw_speech_end: bool,
        is_speaking: bool,
        prob_permille: u16,
    )
        ensures
            final(self).mic_has_new_samples == (old(self).mic_has_new_samples || samples > 0),
            final(self).speech_ended_flag == (old(self).speech_ended_flag || (samples > 0
                && saw_speech_end)),
            samples > 0 ==> final(self).mic_is_speaking == is_speaking
                && final(self).mic_vad_prob_permille == prob_permille,
            samples == 0 ==> final(self).mic_is_speaking == old(self).mic_is_speaking
                && final(self).mic_vad_prob_permille == old(self).mic_vad_prob_permille,
            final(self).spk_has_new_samples == old(self).spk_has_new_samples,
    {
        if samples > 0 {
            self.mic_has_new_samples = true;
            if saw_speech_end {
                self.speech_ended_flag = true;
            }
            self.mic_is_speaking = is_speaking;
            self.mic_vad_prob_permille = prob_permille;
        }
    }

    /// Record a speaker push: a nonempty batch marks the channel fresh.
    pub fn on_spk_push(&mut self, samples: usize)
        ensures
            final(self).spk_has_new_samples == (old(self).spk_has_new_samples || samples > 0),
            final(self).mic_has_new_samples == old(self).mic_has_new_samples,
            final(self).speech_ended_flag == old(self).speech_ended_flag,
            final(self).mic_is_speaking == old(self).mic_is_speaking,
            final(self).mic_vad_prob_permille == old(self).mic_vad_prob_permille,
    {
        if samples > 0 {
            self.spk_has_new_samples = true;
        }
    }

    /// One poll: the event carries the latched speech-ended flag, which the
    /// read clears; the result also says which channels should have their
    /// amplitude smoothed this tick (exactly the fresh ones), and both
    /// freshness marks are consumed.
    pub fn poll_event(&mut self) -> (r: (PipelineEvent, bool, bool))
        ensures
            r.0.mic_speech_ended == old(self).speech_ended_flag,
            r.0.mic_is_speaking == old(self).mic_is_speaking,
            r.0.mic_vad_prob_permille == old(self).mic_vad_prob_permille,
            r.1 == old(self).mic_has_new_samples,
            r.2 == old(self).spk_has_new_samples,
            !final(self).speech_ended_flag,
            !final(self).mic_has_new_samples,
            !final(self).spk_has_new_samples,
            final(self).mic_is_speaking == old(self).mic_is_speaking,
            final(self).mic_vad_prob_permille == old(self).mic_vad_prob_permille,
    {
        let event = PipelineEvent {
            mic_speech_ended: self.speech_ended_flag,
            mic_is_speaking: self.mic_is_speaking,
            mic_vad_prob_permille: self.mic_vad_prob_permille,
        };
        let smooth_mic = self.mic_has_new_samples;
        let smooth_spk = self.spk_has_new_samples;
        self.speech_ended_flag = false;
        self.mic_has_new_samples = false;
        self.spk_has_new_samples = false;
        (event, smooth_mic, smooth_spk)
    }

    /// Reset between sessions: all flags return to their initial state.
    pub fn reset(&mut self)
        ensures
            !final(self).speech_ended_flag,
            !final(self).mic_has_new_samples,
            !final(self).spk_has_new_samples,
            !final(self).mic_is_speaking,
            final(self).mic_vad_prob_permille == 0,
    {
        self.speech_ended_flag = false;
        self.mic_has_new_samples = false;
        self.spk_has_new_samples = false;
        self.mic_is_speaking = false;
        self.mic_vad_prob_permille = 0;
    }
}

/// Whether an amplitude snapshot may be published now: at least the throttle
/// interval has passed since the previous publication.
pub fn should_emit_amplitude(now_ms: u64, last_emit_ms: u64) -> (r: bool)
    ensures
        r == ((if now_ms >= last_emit_ms {
            now_ms - last_emit_ms
        } else {
            0
        }) >= AMPLITUDE_THROTTLE_MS),
{
    let elapsed: u64 = if now_ms >= last_emit_ms {
        now_ms - last_emit_ms
    } else {
        0
    };
    elapsed >= AMPLITUDE_THROTTLE_MS
}

} // verus!
