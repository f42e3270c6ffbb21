//! Voice-activity segmentation: a per-frame speech probability is compared
//! against a threshold, and onset/hangover counters smooth the decisions into
//! `SpeechStart` / `SpeechEnd` transitions, each reported exactly once.

use vstd::prelude::*;

verus! {

/// Samples per VAD frame: 30 ms at 16 kHz.
pub const VAD_CHUNK_SIZE: usize = 480;

#[derive(Clone, Copy, Debug, PartialEq, Eq, Structural)]
pub enum VadState {
    Silence,
    Speech,
}

#[derive(Clone, Copy, Debug, PartialEq, Eq, Structural)]
pub enum VadTransition {
    SpeechStart,
    SpeechEnd,
    NoChange,
}

/// The smoothing state machine around a frame-level speech probability,
/// given in thousandths.
pub struct VadSegmenter {
    pub state: VadState,
    pub threshold_permille: u16,
    pub onset_frames: u32,
    pub hangover_frames: u32,
    pub onset_counter: u32,
    pub hangover_counter: u32,
    pub current_prob_permille: u16,
}

impl VadSegmenter {
    /// Counters stay below their bounds, so one more frame never overflows.
    pub open spec fn wf(self) -> bool {
        self.onset_counter <= self.onset_frames && self.hangover_counter
            <= self.hangover_frames && self.onset_frames < 0xffff_ffffu32
            && self.hangover_frames < 0xffff_ffffu32
    }

    /// Whether a frame of this probability counts as speech.
    pub open spec fn spec_is_speech(self, prob_permille: u16) -> bool {
        prob_permille > self.threshold_permille
    }

    /// The machine after one frame (probability recorded separately).
    pub open spec fn step_state(pre: VadSegmenter, speech: bool) -> VadSegmenter {
        match (pre.state, speech) {
            (VadState::Silence, true) => {
                if pre.onset_counter + 1 >= pre.onset_frames {
                    VadSegmenter {
                        state: VadState::Speech,
                        onset_counter: 0,
                        hangover_counter: 0,
                        ..pre
                    }
                } else {
                    VadSegmenter {
                        onset_counter: (pre.onset_counter + 1) as u32,
                        hangover_counter: 0,
                        ..pre
                    }
                }
            },
            (VadState::Silence, false) => VadSegmenter { onset_counter: 0, ..pre },
            (VadState::Speech, true) => VadSegmenter { hangover_counter: 0, ..pre },
            (VadState::Speech, false) => {
                if pre.hangover_counter + 1 >= pre.hangover_frames {
                    VadSegmenter {
                        state: VadState::Silence,
                        hangover_counter: 0,
                        ..pre
                    }
                } else {
                    VadSegmenter {
                        hangover_counter: (pre.hangover_counter + 1) as u32,
                        ..pre
                    }
                }
            },
        }
    }

    /// The transition one frame reports.
    pub open spec fn step_transition(pre: VadSegmenter, speech: bool) -> VadTransition {
        match (pre.state, speech) {
            (VadState::Silence, true) => {
                if pre.onset_counter + 1 >= pre.onset_frames {
                    VadTransition::SpeechStart
                } else {
                    VadTransition::NoChange
                }
            },
            (VadState::Silence, false) => VadTransition::NoChange,
            (VadState::Speech, true) => VadTransition::NoChange,
            (VadState::Speech, false) => {
                if pre.hangover_counter + 1 >= pre.hangover_frames {
                    VadTransition::SpeechEnd
                } else {
                    VadTransition::NoChange
                }
            },
        }
    }

    /// A fresh segmenter in silence, with the default smoothing: two frames
    /// of speech to start, five frames of silence to end.
    pub fn new(threshold_permille: u16) -> (r: VadSegmenter)
        ensures
            r.wf(),
            r.state == VadState::Silence,
            r.threshold_permille == threshold_permille,
            r.onset_frames == 2u32,
            r.hangover_frames == 5u32,
            r.onset_counter == 0u32,
            r.hangover_counter == 0u32,
            r.current_prob_permille == 0u16,
    {
        VadSegmenter {
            state: VadState::Silence,
            threshold_permille,
            onset_frames: 2,
            hangover_frames: 5,
            onset_counter: 0,
            hangover_counter: 0,
            current_prob_permille: 0,
        }
    }

    /// The same segmenter with custom onset and hangover frame counts.
    pub fn with_smoothing(self, onset_frames: u32, hangover_frames: u32) -> (r: VadSegmenter)
        requires
            onset_frames < 0xffff_ffffu32,
            hangover_frames < 0xffff_ffffu32,
        ensures
            r == (VadSegmenter {
                onset_frames,
                hangover_frames,
                onset_counter: 0u32,
                hangover_counter: 0u32,
                ..self
            }),
            r.wf(),
    {
        VadSegmenter {
            onset_frames,
            hangover_frames,
            onset_counter: 0,
            hangover_counter: 0,
            ..self
        }
    }

    /// Feed one frame's speech probability (in thousandths); the reported
    /// transition and the new state follow the onset/hangover machine, and
    /// the probability is recorded.
    pub fn process_frame(&mut self, prob_permille: u16) -> (t: VadTransition)
        requires
            old(self).wf(),
        ensures
            final(self).wf(),
            t == VadSegmenter::step_transition(
                *old(self),
                old(self).spec_is_speech(prob_permille),
            ),
            *final(self) == (VadSegmenter {
                current_prob_permille: prob_permille,
                ..VadSegmenter::step_state(
                    *old(self),
                    old(self).spec_is_speech(prob_permille),
                )
            }),
    {
        let speech = prob_permille > self.threshold_permille;
        self.current_prob_permille = prob_permille;
        match (self.state, speech) {
            (VadState::Silence, true) => {
                self.onset_counter = self.onset_counter + 1;
                self.hangover_counter = 0;
                if self.onset_counter >= self.onset_frames {
                    self.state = VadState::Speech;
                    self.onset_counter = 0;
                    VadTransition::SpeechStart
                } else {
                    VadTransition::NoChange
                }
            },
            (VadState::Silence, false) => {
                self.onset_counter = 0;
                VadTransition::NoChange
            },
            (VadState::Speech, true) => {
                self.hangover_counter = 0;
                VadTransition::NoChange
            },
            (VadState::Speech, false) => {
                self.hangover_counter = self.hangover_counter + 1;
                if self.hangover_counter >= self.hangover_frames {
                    self.state = VadState::Silence;
                    self.hangover_counter = 0;
                    VadTransition::SpeechEnd
                } else {
                    VadTransition::NoChange
                }
            },
        }
    }

    /// Back to silence with cleared counters and zero probability.
    pub fn reset(&mut self)
        requires
            old(self).wf(),
        ensures
            *final(self) == (VadSegmenter {
                state: VadState::Silence,
                onset_counter: 0u32,
                hangover_counter: 0u32,
                current_prob_permille: 0u16,
                ..*old(self)
            }),
            final(self).wf(),
    {
        self.state = VadState::Silence;
        self.onset_counter = 0;
        self.hangover_counter = 0;
        self.current_prob_permille = 0;
    }

    pub fn is_speaking(&self) -> (r: bool)
        ensures
            r == (self.state == VadState::Speech),
    {
        match self.state {
            VadState::Speech => true,
            VadState::Silence => false,
        }
    }

    pub fn probability_permille(&self) -> (r: u16)
        ensures
            r == self.current_prob_permille,
    {
        self.current_prob_permille
    }
}

/// The transitions a segmenter reports over a sequence of frame
/// probabilities.
pub open spec fn run_transitions(init: VadSegmenter, probs: Seq<u16>) -> Seq<VadTransition>
    decreases probs.len(),
{
    if probs.len() == 0 {
        Seq::empty()
    } else {
        let speech = init.spec_is_speech(probs[0]);
        seq![VadSegmenter::step_transition(init, speech)] + run_transitions(
            VadSegmenter::step_state(init, speech),
            probs.subrange(1, probs.len() as int),
        )
    }
}

pub proof fn lemma_run_transitions_len(init: VadSegmenter, probs: Seq<u16>)
    ensures
        run_transitions(init, probs).len() == probs.len(),
    decreases probs.len(),
{
    if probs.len() > 0 {
        let speech = init.spec_is_speech(probs[0]);
        lemma_run_transitions_len(
            VadSegmenter::step_state(init, speech),
            probs.subrange(1, probs.len() as int),
        );
    }
}

pub open spec fn count_starts(ts: Seq<VadTransition>) -> int
    decreases ts.len(),
{
    if ts.len() == 0 {
        0
    } else {
        (if ts[0] == VadTransition::SpeechStart {
            1int
        } else {
            0int
        }) + count_starts(ts.subrange(1, ts.len() as int))
    }
}

pub open spec fn count_ends(ts: Seq<VadTransition>) -> int
    decreases ts.len(),
{
    if ts.len() == 0 {
        0
    } else {
        (if ts[0] == VadTransition::SpeechEnd {
            1int
        } else {
            0int
        }) + count_ends(ts.subrange(1, ts.len() as int))
    }
}

pub open spec fn state_bit(s: VadState) -> int {
    if s == VadState::Speech {
        1
    } else {
        0
    }
}

/// Transitions alternate: over every prefix of the reported transitions, the
/// number of `SpeechStart`s exceeds the number of `SpeechEnd`s by at most
/// one (counting the initial state), and never falls below it. So there is
/// never a second `SpeechStart` without an intervening `SpeechEnd`, nor a
/// `SpeechEnd` without a preceding `SpeechStart`.
pub proof fn lemma_vad_alternation(init: VadSegmenter, probs: Seq<u16>)
    ensures
        forall|k: int|
            0 <= k <= probs.len() ==> 0 <= state_bit(init.state) + count_starts(
                #[trigger] run_transitions(init, probs).subrange(0, k),
            ) - count_ends(run_transitions(init, probs).subrange(0, k)) <= 1,
    decreases probs.len(),
{
    let ts = run_transitions(init, probs);
    if probs.len() == 0 {
        assert forall|k: int| 0 <= k <= probs.len() implies 0 <= state_bit(init.state)
            + count_starts(#[trigger] ts.subrange(0, k)) - count_ends(ts.subrange(0, k))
            <= 1 by {
            assert(ts.subrange(0, k).len() == 0);
        }
    } else {
        let speech = init.spec_is_speech(probs[0]);
        let t0 = VadSegmenter::step_transition(init, speech);
        let next = VadSegmenter::step_state(init, speech);
        let rest = run_transitions(next, probs.subrange(1, probs.len() as int));
        assert(ts == seq![t0] + rest);
        lemma_run_transitions_len(init, probs);
        lemma_run_transitions_len(next, probs.subrange(1, probs.len() as int));
        // one step moves the running balance exactly with the state bit
        assert(state_bit(next.state) == state_bit(init.state) + (if t0
            == VadTransition::SpeechStart {
            1int
        } else {
            0int
        }) - (if t0 == VadTransition::SpeechEnd {
            1int
        } else {
            0int
        }));
        lemma_vad_alternation(next, probs.subrange(1, probs.len() as int));
        assert forall|k: int| 0 <= k <= probs.len() implies 0 <= state_bit(init.state)
            + count_starts(#[trigger] ts.subrange(0, k)) - count_ends(ts.subrange(0, k))
            <= 1 by {
            if k == 0 {
                assert(ts.subrange(0, 0).len() == 0);
            } else {
                let p = ts.subrange(0, k);
                assert(p[0] == t0);
                assert(p.subrange(1, p.len() as int) =~= rest.subrange(0, k - 1));
                assert(count_starts(p) == (if t0 == VadTransition::SpeechStart {
                    1int
                } else {
                    0int
                }) + count_starts(rest.subrange(0, k - 1)));
                assert(count_ends(p) == (if t0 == VadTransition::SpeechEnd {
                    1int
                } else {
                    0int
                }) + count_ends(rest.subrange(0, k - 1)));
                assert(0 <= state_bit(next.state) + count_starts(
                    rest.subrange(0, k - 1),
                ) - count_ends(rest.subrange(0, k - 1)) <= 1);
            }
        }
    }
}

} // verus!
