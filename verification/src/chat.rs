//! Message types for the summarisation client: chat messages carry either
//! plain text or multimodal content parts, and streamed note enhancement is
//! delivered in chunks.

use vstd::prelude::*;

verus! {

pub struct ImageUrl {
    pub url: String,
}

pub enum ContentPart {
    Text { text: String },
    ImageUrl { image_url: ImageUrl },
}

pub enum MessageContent {
    Text(String),
    Parts(Vec<ContentPart>),
}

pub struct ChatMessage {
    pub role: String,
    pub content: MessageContent,
}

impl ChatMessage {
    /// A simple text message.
    pub fn text(role: String, content: String) -> (r: ChatMessage)
        ensures
            r.role == role,
            r.content == MessageContent::Text(content),
    {
        ChatMessage { role, content: MessageContent::Text(content) }
    }

    /// A multimodal message of text and image parts.
    pub fn multimodal(role: String, parts: Vec<ContentPart>) -> (r: ChatMessage)
        ensures
            r.role == role,
            r.content == MessageContent::Parts(parts),
    {
        ChatMessage { role, content: MessageContent::Parts(parts) }
    }
}

/// One streamed piece of enhanced notes.
pub struct EnhanceNotesChunk {
    pub session_id: String,
    pub chunk: String,
    pub done: bool,
}

/// A named audio device as shown to the user.
pub struct AudioDevice {
    pub index: String,
    pub name: String,
    pub is_default: bool,
}

/// Which channels a pipeline instance consumes.
#[derive(Clone, Copy, Debug, PartialEq, Eq, Structural)]
pub enum ChannelMode {
    MicOnly,
    SpeakerOnly,
    MicAndSpeaker,
}

/// What one poll of the pipeline reports: whether mic speech just ended
/// (cleared by the read), whether the mic is speaking, and the current
/// speech probability in thousandths.
pub struct PipelineEvent {
    pub mic_speech_ended: bool,
    pub mic_is_speaking: bool,
    pub mic_vad_prob_permille: u16,
}

} // verus!
