use talky_core::chunking::{
    mic_should_transcribe, num_windows, should_skip_filtered_mic, spk_should_preflush,
    spk_should_transcribe, MicChunkState, SessionTick, SpkChunkState, MAX_CHUNK_SAMPLES,
    MIN_CHUNK_SAMPLES, OVERLAP_SAMPLES,
};
use talky_core::engine::{
    should_unload, EngineLifecycle, EngineState, ModelStateEvent, ModelUnloadTimeout,
    TranscribeGate, whisper_language,
};
use talky_core::pipeline::{should_emit_amplitude, PipelineFlags};
use talky_core::segments::{max_end_ms, transition_allowed, RecordingState, SegmentLog};
use talky_core::vad::{VadSegmenter, VadState, VadTransition};

#[test]
fn test_vad_start_and_end_transitions() {
    // 5 frames silence, then speech: start after the 2nd speech frame;
    // 5 frames silence after speech: end after the 5th
    let mut vad = VadSegmenter::new(150);
    let mut transitions: Vec<VadTransition> = Vec::new();
    let mut probs: Vec<u16> = vec![50, 50, 50, 50, 50];
    probs.extend(std::iter::repeat(800).take(12));
    probs.extend(std::iter::repeat(50).take(5));
    for p in probs {
        transitions.push(vad.process_frame(p));
    }
    let starts: Vec<usize> = transitions
        .iter()
        .enumerate()
        .filter(|(_, t)| **t == VadTransition::SpeechStart)
        .map(|(i, _)| i)
        .collect();
    let ends: Vec<usize> = transitions
        .iter()
        .enumerate()
        .filter(|(_, t)| **t == VadTransition::SpeechEnd)
        .map(|(i, _)| i)
        .collect();
    assert_eq!(starts, vec![6]); // second speech frame (frames 5 and 6)
    assert_eq!(ends, vec![21]); // fifth silence frame after speech
    assert_eq!(vad.probability_permille(), 50);
    assert!(!vad.is_speaking());
}

#[test]
fn test_vad_no_spurious_transitions() {
    // a single speech frame does not reach the onset count
    let mut vad = VadSegmenter::new(150);
    assert_eq!(vad.process_frame(900), VadTransition::NoChange);
    assert_eq!(vad.process_frame(100), VadTransition::NoChange);
    assert_eq!(vad.process_frame(900), VadTransition::NoChange);
    assert!(!vad.is_speaking());
}

#[test]
fn test_vad_reset_returns_to_silence() {
    let mut vad = VadSegmenter::new(150).with_smoothing(1, 1);
    assert_eq!(vad.process_frame(999), VadTransition::SpeechStart);
    assert!(vad.is_speaking());
    vad.reset();
    assert!(!vad.is_speaking());
    assert_eq!(vad.probability_permille(), 0);
    assert_eq!(vad.state, VadState::Silence);
}

#[test]
fn test_mic_trigger_conditions() {
    assert!(!mic_should_transcribe(MAX_CHUNK_SAMPLES, false, false));
    assert!(mic_should_transcribe(MAX_CHUNK_SAMPLES, true, false));
    assert!(!mic_should_transcribe(MIN_CHUNK_SAMPLES - 1, true, true));
    assert!(mic_should_transcribe(MIN_CHUNK_SAMPLES, true, true));
    assert!(!mic_should_transcribe(MIN_CHUNK_SAMPLES, true, false));
}

#[test]
fn test_spk_trigger_conditions() {
    assert!(spk_should_transcribe(MAX_CHUNK_SAMPLES, 0));
    assert!(!spk_should_transcribe(MIN_CHUNK_SAMPLES, 7));
    assert!(spk_should_transcribe(MIN_CHUNK_SAMPLES, 8));
    assert!(!spk_should_preflush(MIN_CHUNK_SAMPLES / 4 - 1));
    assert!(spk_should_preflush(MIN_CHUNK_SAMPLES / 4));
}

#[test]
fn test_mic_accumulation_stays_bounded() {
    // feed a quarter second per tick with no speech end: the buffer grows to
    // the force-flush bound, is cut there, and never exceeds bound + one tick
    let tick_audio = 4000;
    let mut state = MicChunkState::new();
    let mut cuts = 0;
    for _ in 0..200 {
        let before = state.accumulated;
        let cut = state.tick(tick_audio, false);
        assert!(before + tick_audio <= MAX_CHUNK_SAMPLES + tick_audio);
        assert!(state.accumulated < MAX_CHUNK_SAMPLES);
        if cut {
            cuts += 1;
            assert!(state.accumulated <= OVERLAP_SAMPLES);
        }
    }
    assert!(cuts > 0);
}

#[test]
fn test_mic_vad_trigger_cuts_early() {
    let mut state = MicChunkState::new();
    assert!(!state.tick(MIN_CHUNK_SAMPLES - 1, true));
    assert!(state.tick(1, true));
    assert!(state.accumulated <= OVERLAP_SAMPLES);
}

#[test]
fn test_spk_silence_flush() {
    let mut state = SpkChunkState::new();
    assert!(!state.tick(MIN_CHUNK_SAMPLES, false));
    // seven silent polls: not yet
    for _ in 0..7 {
        assert!(!state.tick(0, true));
    }
    // the eighth reaches the silence count
    assert!(state.tick(0, true));
    assert_eq!(state.pending, 0);
    assert_eq!(state.silent_polls, 0);
}

#[test]
fn test_session_tick_preflushes_speaker_before_mic_cut() {
    let mut s = SessionTick::new();
    // speaker audio below its own trigger but above a quarter chunk
    let plan = s.tick(0, MIN_CHUNK_SAMPLES / 2, false, false);
    assert!(!plan.transcribe_speaker && !plan.preflush_speaker && !plan.transcribe_mic);
    // enough mic audio plus a speech end: the cut flushes the speaker first
    let plan = s.tick(MIN_CHUNK_SAMPLES, 0, false, true);
    assert!(plan.transcribe_mic);
    assert!(plan.preflush_speaker);
    assert!(!plan.transcribe_speaker);
    assert_eq!(s.spk.pending, 0);
    assert!(s.mic.accumulated <= OVERLAP_SAMPLES);
}

#[test]
fn test_windowed_filtering_decisions() {
    // 400 ms windows at 16 kHz are 6400 samples
    assert_eq!(num_windows(0, 6400), 1);
    assert_eq!(num_windows(6400, 6400), 1);
    assert_eq!(num_windows(6401, 6400), 2);
    assert_eq!(num_windows(19200, 6400), 3);
    assert!(should_skip_filtered_mic(3, 3));
    assert!(!should_skip_filtered_mic(2, 3));
    assert!(!should_skip_filtered_mic(1, 1)); // a single window never skips
}

#[test]
fn test_segment_log_monotone_per_source() {
    let mut log = SegmentLog::new();
    log.add_segment("s", "one".to_string(), true, 0, 500, 10);
    log.add_segment("s", "two".to_string(), false, 200, 900, 11);
    log.add_segment("s", "three".to_string(), true, 600, 1500, 12);
    log.add_segment("s", "four".to_string(), false, 900, 2000, 13);
    let mut last_mic = -1;
    let mut last_spk = -1;
    for seg in &log.segments {
        if seg.source == "mic" {
            assert!(seg.start_ms >= last_mic);
            last_mic = seg.start_ms;
        } else {
            assert!(seg.start_ms >= last_spk);
            last_spk = seg.start_ms;
        }
    }
    assert_eq!(log.segments.len(), 4);
}

#[test]
fn test_mic_echo_segment_dropped() {
    // identical speech transcribed on both channels: the speaker segment is
    // written first, so the mic copy is recognised and dropped
    let mut log = SegmentLog::new();
    log.add_segment("s", "It sounds like we're in a good spot".to_string(), false, 1000, 4000, 10);
    let r = log.add_mic_segment_deduped(
        "s",
        "It sounds like we're in a good spot, right?".to_string(),
        1050,
        4050,
        11,
    );
    assert!(r.is_none());
    assert_eq!(log.segments.len(), 1);
    // a different utterance is kept
    let r = log.add_mic_segment_deduped("s", "Now for something else entirely".to_string(), 4100, 6000, 12);
    assert!(r.is_some());
    assert_eq!(log.segments.len(), 2);
    assert_eq!(log.segments[1].source, "mic");
}

#[test]
fn test_mic_segment_outside_window_kept() {
    // the duplicate text lies outside the five-second window
    let mut log = SegmentLog::new();
    log.add_segment("s", "hello world".to_string(), false, 0, 1000, 10);
    let r = log.add_mic_segment_deduped("s", "hello world".to_string(), 7000, 8000, 11);
    assert!(r.is_some());
}

#[test]
fn test_max_end_ms() {
    let mut log = SegmentLog::new();
    assert_eq!(max_end_ms(&log.segments), 0);
    log.add_segment("s", "a".to_string(), true, 0, 1500, 10);
    log.add_segment("s", "b".to_string(), false, 100, 900, 11);
    assert_eq!(max_end_ms(&log.segments), 1500);
}

#[test]
fn test_recording_state_transitions() {
    assert!(transition_allowed(RecordingState::Created, RecordingState::Recording));
    assert!(transition_allowed(RecordingState::Recording, RecordingState::Paused));
    assert!(transition_allowed(RecordingState::Paused, RecordingState::Recording));
    assert!(transition_allowed(RecordingState::Recording, RecordingState::Ended));
    assert!(transition_allowed(RecordingState::Paused, RecordingState::Ended));
    assert!(transition_allowed(RecordingState::Ended, RecordingState::Recording));
    assert!(!transition_allowed(RecordingState::Created, RecordingState::Ended));
    assert!(!transition_allowed(RecordingState::Ended, RecordingState::Paused));
}

#[test]
fn test_engine_lifecycle() {
    let mut e = EngineLifecycle::new(0);
    assert_eq!(e.transcribe_gate(), TranscribeGate::FailUnloaded);
    assert!(e.initiate_load());
    assert!(!e.initiate_load()); // idempotent while loading
    assert_eq!(e.transcribe_gate(), TranscribeGate::WaitForLoad);
    e.load_finished(true);
    assert_eq!(e.state, EngineState::Loaded);
    assert_eq!(e.transcribe_gate(), TranscribeGate::Proceed);
    e.unload();
    assert_eq!(e.state, EngineState::Unloaded);
    // a failed load ends unloaded
    assert!(e.initiate_load());
    e.load_finished(false);
    assert_eq!(e.state, EngineState::Unloaded);
}

#[test]
fn test_idle_unload_decision() {
    assert!(!should_unload(100_000, 0, &ModelUnloadTimeout::Never));
    assert!(!should_unload(100_000, 0, &ModelUnloadTimeout::Immediately));
    assert!(should_unload(61_000, 0, &ModelUnloadTimeout::AfterSeconds(60)));
    assert!(!should_unload(60_000, 0, &ModelUnloadTimeout::AfterSeconds(60)));
    // the clock going backwards counts as no idle time
    assert!(!should_unload(0, 100_000, &ModelUnloadTimeout::AfterSeconds(1)));
    let mut e = EngineLifecycle::new(0);
    assert!(e.initiate_load());
    e.load_finished(true);
    assert!(e.idle_check(61_000, &ModelUnloadTimeout::AfterSeconds(60)));
    e.touch(61_000);
    assert!(!e.idle_check(61_500, &ModelUnloadTimeout::AfterSeconds(60)));
}

#[test]
fn test_immediate_unload_after_use() {
    let mut e = EngineLifecycle::new(0);
    assert!(e.initiate_load());
    e.load_finished(true);
    assert!(e.maybe_unload_immediately(&ModelUnloadTimeout::Immediately));
    assert_eq!(e.state, EngineState::Unloaded);
    assert!(!e.maybe_unload_immediately(&ModelUnloadTimeout::Immediately));
}

#[test]
fn test_model_state_events() {
    let e = ModelStateEvent::loading_started("base".to_string());
    assert_eq!(e.event_type, "loading_started");
    assert_eq!(e.model_id.as_deref(), Some("base"));
    let e = ModelStateEvent::loading_completed("base".to_string(), "Base".to_string());
    assert_eq!(e.event_type, "loading_completed");
    assert_eq!(e.model_name.as_deref(), Some("Base"));
    let e = ModelStateEvent::loading_failed("base".to_string(), None, "missing".to_string());
    assert_eq!(e.event_type, "loading_failed");
    assert_eq!(e.error.as_deref(), Some("missing"));
    let e = ModelStateEvent::unloaded();
    assert_eq!(e.event_type, "unloaded");
    assert!(e.model_id.is_none());
}

#[test]
fn test_speech_ended_flag_cleared_by_poll() {
    let mut flags = PipelineFlags::new();
    flags.on_mic_push(480, true, false, 300);
    let (event, _, _) = flags.poll_event();
    assert!(event.mic_speech_ended);
    // the read cleared the level-triggered flag
    let (event, _, _) = flags.poll_event();
    assert!(!event.mic_speech_ended);
}

#[test]
fn test_amplitude_smoothing_gated_on_fresh_samples() {
    let mut flags = PipelineFlags::new();
    flags.on_mic_push(480, false, true, 700);
    let (_, smooth_mic, smooth_spk) = flags.poll_event();
    assert!(smooth_mic);
    assert!(!smooth_spk); // no speaker batch arrived: its level must not decay
    flags.on_spk_push(1600);
    let (_, smooth_mic, smooth_spk) = flags.poll_event();
    assert!(!smooth_mic);
    assert!(smooth_spk);
    // an empty batch does not count as fresh samples
    flags.on_spk_push(0);
    let (_, _, smooth_spk) = flags.poll_event();
    assert!(!smooth_spk);
}

#[test]
fn test_amplitude_throttle() {
    assert!(should_emit_amplitude(100, 0));
    assert!(!should_emit_amplitude(99, 0));
    assert!(should_emit_amplitude(350, 200));
    assert!(!should_emit_amplitude(50, 200));
}

#[test]
fn test_whisper_language_normalisation() {
    assert_eq!(whisper_language("auto"), None);
    assert_eq!(whisper_language("zh-Hans").as_deref(), Some("zh"));
    assert_eq!(whisper_language("zh-Hant").as_deref(), Some("zh"));
    assert_eq!(whisper_language("de").as_deref(), Some("de"));
}
