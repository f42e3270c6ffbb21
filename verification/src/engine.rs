//! The transcription engine's lifecycle model: a single model moves between
//! unloaded, loading and loaded; concurrent transcriptions wait while a load
//! is in flight and fail while nothing is loaded; an idle watchdog unloads
//! after a configured timeout.

use vstd::prelude::*;

verus! {

#[derive(Clone, Copy, Debug, PartialEq, Eq, Structural)]
pub enum EngineState {
    Unloaded,
    Loading,
    Loaded,
}

/// When the loaded model is dropped again: right after each use, after a
/// number of idle seconds, or never.
#[derive(Clone, Copy, Debug, PartialEq, Eq, Structural)]
pub enum ModelUnloadTimeout {
    Immediately,
    AfterSeconds(u64),
    Never,
}

impl ModelUnloadTimeout {
    /// The idle limit in seconds, when there is one.
    pub fn to_seconds(&self) -> (r: Option<u64>)
        ensures
            r == match *self {
                ModelUnloadTimeout::Immediately => Option::Some(0u64),
                ModelUnloadTimeout::AfterSeconds(n) => Option::Some(n),
                ModelUnloadTimeout::Never => Option::<u64>::None,
            },
    {
        match *self {
            ModelUnloadTimeout::Immediately => Option::Some(0),
            ModelUnloadTimeout::AfterSeconds(n) => Option::Some(n),
            ModelUnloadTimeout::Never => Option::None,
        }
    }
}

/// Whether the idle watchdog should unload now: only a seconds timeout
/// counts there (the immediate mode is handled right after each
/// transcription), and only once the idle time exceeds it.
pub open spec fn spec_should_unload(
    now_ms: int,
    last_activity_ms: int,
    timeout: ModelUnloadTimeout,
) -> bool {
    match timeout {
        ModelUnloadTimeout::AfterSeconds(n) => (if now_ms >= last_activity_ms {
            now_ms - last_activity_ms
        } else {
            0
        }) > n * 1000,
        _ => false,
    }
}

pub fn should_unload(now_ms: u64, last_activity_ms: u64, timeout: &ModelUnloadTimeout) -> (r:
    bool)
    ensures
        r == spec_should_unload(now_ms as int, last_activity_ms as int, *timeout),
{
    match *timeout {
        ModelUnloadTimeout::AfterSeconds(n) => {
            let idle: u64 = if now_ms >= last_activity_ms {
                now_ms - last_activity_ms
            } else {
                0
            };
            let limit: u128 = (n as u128) * 1000;
            proof {
                assert((n as u128) * 1000 == (n as int) * 1000);
            }
            (idle as u128) > limit
        },
        _ => false,
    }
}

/// What a transcription request may do in the current state.
#[derive(Clone, Copy, Debug, PartialEq, Eq, Structural)]
pub enum TranscribeGate {
    Proceed,
    WaitForLoad,
    FailUnloaded,
}

/// The lifecycle state machine of the process-wide engine.
pub struct EngineLifecycle {
    pub state: EngineState,
    pub last_activity_ms: u64,
}

impl EngineLifecycle {
    pub fn new(now_ms: u64) -> (r: EngineLifecycle)
        ensures
            r.state == EngineState::Unloaded,
            r.last_activity_ms == now_ms,
    {
        EngineLifecycle { state: EngineState::Unloaded, last_activity_ms: now_ms }
    }

    /// Begin loading. Idempotent: only an unloaded engine starts a load,
    /// and the result says whether one was started.
    pub fn initiate_load(&mut self) -> (started: bool)
        ensures
            started == (old(self).state == EngineState::Unloaded),
            started ==> final(self).state == EngineState::Loading,
            !started ==> *final(self) == *old(self),
            final(self).last_activity_ms == old(self).last_activity_ms,
    {
        match self.state {
            EngineState::Unloaded => {
                self.state = EngineState::Loading;
                true
            },
            _ => false,
        }
    }

    /// A load ended: loaded on success, unloaded on failure.
    pub fn load_finished(&mut self, ok: bool)
        requires
            old(self).state == EngineState::Loading,
        ensures
            ok ==> final(self).state == EngineState::Loaded,
            !ok ==> final(self).state == EngineState::Unloaded,
            final(self).last_activity_ms == old(self).last_activity_ms,
    {
        if ok {
            self.state = EngineState::Loaded;
        } else {
            self.state = EngineState::Unloaded;
        }
    }

    /// Drop the model, whatever held it.
    pub fn unload(&mut self)
        ensures
            final(self).state == EngineState::Unloaded,
            final(self).last_activity_ms == old(self).last_activity_ms,
    {
        self.state = EngineState::Unloaded;
    }

    /// What a transcription call does now: proceed when loaded, wait while
    /// loading, fail while unloaded.
    pub fn transcribe_gate(&self) -> (r: TranscribeGate)
        ensures
            r == match self.state {
                EngineState::Loaded => TranscribeGate::Proceed,
                EngineState::Loading => TranscribeGate::WaitForLoad,
                EngineState::Unloaded => TranscribeGate::FailUnloaded,
            },
    {
        match self.state {
            EngineState::Loaded => TranscribeGate::Proceed,
            EngineState::Loading => TranscribeGate::WaitForLoad,
            EngineState::Unloaded => TranscribeGate::FailUnloaded,
        }
    }

    /// Record activity, for the idle watchdog.
    pub fn touch(&mut self, now_ms: u64)
        ensures
            final(self).state == old(self).state,
            final(self).last_activity_ms == now_ms,
    {
        self.last_activity_ms = now_ms;
    }

    /// After a transcription, unload at once when so configured. Returns
    /// whether the model was dropped.
    pub fn maybe_unload_immediately(&mut self, timeout: &ModelUnloadTimeout) -> (dropped: bool)
        ensures
            dropped == (*timeout == ModelUnloadTimeout::Immediately && old(self).state
                == EngineState::Loaded),
            dropped ==> final(self).state == EngineState::Unloaded,
            !dropped ==> *final(self) == *old(self),
    {
        match *timeout {
            ModelUnloadTimeout::Immediately => {
                match self.state {
                    EngineState::Loaded => {
                        self.state = EngineState::Unloaded;
                        true
                    },
                    _ => false,
                }
            },
            _ => false,
        }
    }

    /// The idle watchdog's decision for this engine.
    pub fn idle_check(&self, now_ms: u64, timeout: &ModelUnloadTimeout) -> (r: bool)
        ensures
            r == (self.state == EngineState::Loaded && spec_should_unload(
                now_ms as int,
                self.last_activity_ms as int,
                *timeout,
            )),
    {
        let loaded = match self.state {
            EngineState::Loaded => true,
            _ => false,
        };
        loaded && should_unload(now_ms, self.last_activity_ms, timeout)
    }
}

/// A lifecycle event as it is published to observers.
pub struct ModelStateEvent {
    pub event_type: String,
    pub model_id: Option<String>,
    pub model_name: Option<String>,
    pub error: Option<String>,
}

impl ModelStateEvent {
    pub fn loading_started(model_id: String) -> (r: ModelStateEvent)
        ensures
            r.event_type@ == "loading_started"@,
            r.model_id == Option::Some(model_id),
            r.model_name is None,
            r.error is None,
    {
        ModelStateEvent {
            event_type: "loading_started".to_owned(),
            model_id: Option::Some(model_id),
            model_name: Option::None,
            error: Option::None,
        }
    }

    pub fn loading_completed(model_id: String, model_name: String) -> (r: ModelStateEvent)
        ensures
            r.event_type@ == "loading_completed"@,
            r.model_id == Option::Some(model_id),
            r.model_name == Option::Some(model_name),
            r.error is None,
    {
        ModelStateEvent {
            event_type: "loading_completed".to_owned(),
            model_id: Option::Some(model_id),
            model_name: Option::Some(model_name),
            error: Option::None,
        }
    }

    pub fn loading_failed(model_id: String, model_name: Option<String>, error: String) -> (r:
        ModelStateEvent)
        ensures
            r.event_type@ == "loading_failed"@,
            r.model_id == Option::Some(model_id),
            r.model_name == model_name,
            r.error == Option::Some(error),
    {
        ModelStateEvent {
            event_type: "loading_failed".to_owned(),
            model_id: Option::Some(model_id),
            model_name,
            error: Option::Some(error),
        }
    }

    pub fn unloaded() -> (r: ModelStateEvent)
        ensures
            r.event_type@ == "unloaded"@,
            r.model_id is None,
            r.model_name is None,
            r.error is None,
    {
        ModelStateEvent {
            event_type: "unloaded".to_owned(),
            model_id: Option::None,
            model_name: Option::None,
            error: Option::None,
        }
    }
}

/// The language code handed to the model: `auto` selects detection, the two
/// region-tagged Chinese codes collapse to `zh`, anything else passes
/// through.
pub open spec fn spec_whisper_language(code: Seq<char>) -> Option<Seq<char>> {
    if code == "auto"@ {
        Option::None
    } else if code == "zh-Hans"@ || code == "zh-Hant"@ {
        Option::Some("zh"@)
    } else {
        Option::Some(code)
    }
}

/// Normalise the user's language selection for the model.
pub fn whisper_language(code: &str) -> (r: Option<String>)
    ensures
        match r {
            Option::None => spec_whisper_language(code@) is None,
            Option::Some(s) => spec_whisper_language(code@) == Option::Some(s@),
        },
{
    if crate::chars::str_chars_eq(code, "auto") {
        Option::None
    } else if crate::chars::str_chars_eq(code, "zh-Hans") || crate::chars::str_chars_eq(
        code,
        "zh-Hant",
    ) {
        Option::Some("zh".to_owned())
    } else {
        Option::Some(code.to_owned())
    }
}

} // verus!
