//! The transcript data model: segments, sessions, folders, tags and the
//! events the engine emits; the per-session segment log with its timestamp
//! monotonicity invariant; the duplicate gate that keeps echoed microphone
//! segments out; and the session recording state machine.

use vstd::prelude::*;
use crate::chars::str_chars_eq;
use crate::dedup::{spec_is_duplicate, is_duplicate_segment};

verus! {

/// Similarity (in thousandths) above which a mic segment counts as an echo
/// of a speaker segment.
pub const DEDUP_SIMILARITY_PERMILLE: u32 = 800;

/// Time overlap below which two segments are never duplicates.
pub const DEDUP_OVERLAP_MS: i64 = 300;

/// How far back speaker segments are searched when deduplicating.
pub const DEDUP_WINDOW_MS: i64 = 5000;

pub struct TranscriptSegment {
    pub id: i64,
    pub session_id: String,
    pub text: String,
    pub source: String,
    pub start_ms: i64,
    pub end_ms: i64,
    pub created_at: i64,
}

pub struct Session {
    pub id: String,
    pub title: String,
    pub started_at: i64,
    pub ended_at: Option<i64>,
    pub status: String,
    pub folder_id: Option<String>,
}

pub struct Folder {
    pub id: String,
    pub name: String,
    pub color: Option<String>,
    pub sort_order: i32,
    pub created_at: i64,
}

pub struct Tag {
    pub id: String,
    pub name: String,
    pub color: Option<String>,
}

pub struct SessionWithTags {
    pub session: Session,
    pub tags: Vec<Tag>,
}

pub struct MeetingNotes {
    pub id: i64,
    pub session_id: String,
    pub summary: Option<String>,
    pub action_items: Option<String>,
    pub decisions: Option<String>,
    pub user_notes: Option<String>,
    pub enhanced_notes: Option<String>,
    pub enhanced_notes_edited: bool,
    pub created_at: i64,
    pub updated_at: i64,
}

pub struct TranscriptSegmentEvent {
    pub session_id: String,
    pub segment: TranscriptSegment,
}

pub struct SessionAmplitudeEvent {
    pub session_id: String,
    pub mic: u16,
    pub speaker: u16,
}

/// A segment is well formed when its text is nonempty, its time span is
/// ordered and nonnegative and its source is one of the two channels.
pub open spec fn seg_wf(seg: TranscriptSegment) -> bool {
    seg.text@.len() > 0 && 0 <= seg.start_ms <= seg.end_ms && (seg.source@ == "mic"@
        || seg.source@ == "speaker"@)
}

/// A new mic segment duplicates the log when some speaker segment whose end
/// lies within the dedup window before it overlaps it in time and carries
/// similar text.
pub open spec fn spec_has_speaker_duplicate(
    segs: Seq<TranscriptSegment>,
    text: Seq<char>,
    start_ms: int,
    end_ms: int,
) -> bool {
    exists|i: int|
        0 <= i < segs.len() && (#[trigger] segs[i]).source@ == "speaker"@ && segs[i].end_ms
            >= start_ms - DEDUP_WINDOW_MS && spec_is_duplicate(
            text,
            start_ms,
            end_ms,
            segs[i].text@,
            segs[i].start_ms as int,
            segs[i].end_ms as int,
            DEDUP_SIMILARITY_PERMILLE as int,
            DEDUP_OVERLAP_MS as int,
        )
}

/// The per-session log of written segments.
pub struct SegmentLog {
    pub segments: Vec<TranscriptSegment>,
    pub last_mic_start: i64,
    pub last_spk_start: i64,
    pub next_id: i64,
}

impl SegmentLog {
    /// Every stored segment is well formed, its start does not exceed its
    /// channel's high-water mark, and per channel the starts never decrease.
    pub open spec fn wf(self) -> bool {
        &&& 0 <= self.last_mic_start
        &&& 0 <= self.last_spk_start
        &&& forall|i: int|
            0 <= i < self.segments@.len() ==> seg_wf(#[trigger] self.segments@[i])
        &&& forall|i: int|
            0 <= i < self.segments@.len() && (#[trigger] self.segments@[i]).source@ == "mic"@
                ==> self.segments@[i].start_ms <= self.last_mic_start
        &&& forall|i: int|
            0 <= i < self.segments@.len() && (#[trigger] self.segments@[i]).source@
                == "speaker"@ ==> self.segments@[i].start_ms <= self.last_spk_start
        &&& forall|i: int, j: int|
            0 <= i < j < self.segments@.len() && (#[trigger] self.segments@[i]).source@ == (
            #[trigger] self.segments@[j]).source@ ==> self.segments@[i].start_ms
                <= self.segments@[j].start_ms
    }

    pub fn new() -> (r: SegmentLog)
        ensures
            r.wf(),
            r.segments@.len() == 0,
            r.last_mic_start == 0,
            r.last_spk_start == 0,
    {
        SegmentLog { segments: Vec::new(), last_mic_start: 0, last_spk_start: 0, next_id: 0 }
    }

    /// Append a segment. Each channel's starts must not go backwards, which
    /// the high-water marks enforce; the log stays well formed.
    pub fn add_segment(
        &mut self,
        session_id: &str,
        text: String,
        source_is_mic: bool,
        start_ms: i64,
        end_ms: i64,
        created_at: i64,
    ) -> (seg: TranscriptSegment)
        requires
            old(self).wf(),
            text@.len() > 0,
            0 <= start_ms <= end_ms,
            source_is_mic ==> start_ms >= old(self).last_mic_start,
            !source_is_mic ==> start_ms >= old(self).last_spk_start,
            old(self).next_id < 0x7fff_ffff_ffff_ffffi64,
        ensures
            final(self).wf(),
            final(self).segments@.len() == old(self).segments@.len() + 1,
            forall|i: int| 0 <= i < old(self).segments@.len() ==> final(self).segments@[i]
                == #[trigger] old(self).segments@[i],
            final(self).segments@.last() == seg,
            seg.text == text,
            seg.start_ms == start_ms,
            seg.end_ms == end_ms,
            seg.created_at == created_at,
            seg.session_id@ == session_id@,
            source_is_mic ==> seg.source@ == "mic"@,
            !source_is_mic ==> seg.source@ == "speaker"@,
    {
        let source: &str = if source_is_mic {
            "mic"
        } else {
            "speaker"
        };
        let seg = TranscriptSegment {
            id: self.next_id,
            session_id: session_id.to_owned(),
            text,
            source: source.to_owned(),
            start_ms,
            end_ms,
            created_at,
        };
        proof {
            if source_is_mic {
                assert(seg.source@ == "mic"@);
                assert(seg.source@ != "speaker"@) by {
                    reveal_strlit("mic");
                    reveal_strlit("speaker");
                }
            } else {
                assert(seg.source@ == "speaker"@);
                assert(seg.source@ != "mic"@) by {
                    reveal_strlit("mic");
                    reveal_strlit("speaker");
                }
            }
        }
        let copy = TranscriptSegment {
            id: seg.id,
            session_id: seg.session_id.clone(),
            text: seg.text.clone(),
            source: seg.source.clone(),
            start_ms,
            end_ms,
            created_at,
        };
        self.next_id = self.next_id + 1;
        if source_is_mic {
            self.last_mic_start = start_ms;
        } else {
            self.last_spk_start = start_ms;
        }
        self.segments.push(seg);
        proof {
            assert(self.segments@.last() == self.segments@[self.segments@.len() - 1]);
        }
        copy
    }

    /// Whether a mic segment about to be written duplicates a recent
    /// speaker segment already in the log.
    pub fn has_speaker_duplicate(&self, text: &str, start_ms: i64, end_ms: i64) -> (r: bool)
        requires
            self.wf(),
            0 <= start_ms <= end_ms,
        ensures
            r == spec_has_speaker_duplicate(
                self.segments@,
                text@,
                start_ms as int,
                end_ms as int,
            ),
    {
        let n = self.segments.len();
        let mut i: usize = 0;
        while i < n
            invariant
                self.wf(),
                0 <= start_ms <= end_ms,
                n == self.segments@.len(),
                i <= n,
                forall|t: int|
                    0 <= t < i ==> !((#[trigger] self.segments@[t]).source@ == "speaker"@
                        && self.segments@[t].end_ms >= start_ms - DEDUP_WINDOW_MS
                        && spec_is_duplicate(
                        text@,
                        start_ms as int,
                        end_ms as int,
                        self.segments@[t].text@,
                        self.segments@[t].start_ms as int,
                        self.segments@[t].end_ms as int,
                        DEDUP_SIMILARITY_PERMILLE as int,
                        DEDUP_OVERLAP_MS as int,
                    )),
            decreases n - i,
        {
            let seg = &self.segments[i];
            proof {
                assert(seg_wf(self.segments@[i as int]));
            }
            if str_chars_eq(seg.source.as_str(), "speaker") && seg.end_ms >= start_ms
                - DEDUP_WINDOW_MS {
                if is_duplicate_segment(
                    text,
                    start_ms,
                    end_ms,
                    seg.text.as_str(),
                    seg.start_ms,
                    seg.end_ms,
                    DEDUP_SIMILARITY_PERMILLE,
                    DEDUP_OVERLAP_MS,
                ) {
                    return true;
                }
            }
            i = i + 1;
        }
        false
    }

    /// Write a mic segment unless it duplicates a recent speaker segment.
    /// The speaker channel is authoritative: an echoed mic segment is
    /// dropped, and that is exactly when nothing is written.
    pub fn add_mic_segment_deduped(
        &mut self,
        session_id: &str,
        text: String,
        start_ms: i64,
        end_ms: i64,
        created_at: i64,
    ) -> (r: Option<TranscriptSegment>)
        requires
            old(self).wf(),
            text@.len() > 0,
            0 <= start_ms <= end_ms,
            start_ms >= old(self).last_mic_start,
            old(self).next_id < 0x7fff_ffff_ffff_ffffi64,
        ensures
            final(self).wf(),
            r is Some <==> !spec_has_speaker_duplicate(
                old(self).segments@,
                text@,
                start_ms as int,
                end_ms as int,
            ),
            r is None ==> *final(self) == *old(self),
            r is Some ==> final(self).segments@.len() == old(self).segments@.len() + 1
                && final(self).segments@.last().text == text
                && final(self).segments@.last().source@ == "mic"@,
    {
        if self.has_speaker_duplicate(text.as_str(), start_ms, end_ms) {
            return Option::None;
        }
        let seg = self.add_segment(session_id, text, true, start_ms, end_ms, created_at);
        Option::Some(seg)
    }
}

/// Per channel, the written starts never decrease: the log's invariant says
/// so of every pair of same-source segments.
pub proof fn lemma_log_monotone(log: SegmentLog)
    requires
        log.wf(),
    ensures
        forall|i: int, j: int|
            0 <= i < j < log.segments@.len() && (#[trigger] log.segments@[i]).source@ == (
            #[trigger] log.segments@[j]).source@ ==> log.segments@[i].start_ms
                <= log.segments@[j].start_ms,
{
}

/// `COALESCE(MAX(end_ms), 0)`: the largest stored end time, or zero.
pub fn max_end_ms(segments: &Vec<TranscriptSegment>) -> (r: i64)
    requires
        forall|i: int| 0 <= i < segments@.len() ==> (#[trigger] segments@[i]).end_ms >= 0,
    ensures
        r >= 0,
        forall|i: int| 0 <= i < segments@.len() ==> (#[trigger] segments@[i]).end_ms <= r,
        r == 0 || exists|i: int|
            0 <= i < segments@.len() && (#[trigger] segments@[i]).end_ms == r,
{
    let mut r: i64 = 0;
    let mut i: usize = 0;
    while i < segments.len()
        invariant
            forall|t: int| 0 <= t < segments@.len() ==> (#[trigger] segments@[t]).end_ms >= 0,
            i <= segments@.len(),
            r >= 0,
            forall|t: int| 0 <= t < i ==> (#[trigger] segments@[t]).end_ms <= r,
            r == 0 || exists|t: int|
                0 <= t < i && (#[trigger] segments@[t]).end_ms == r,
        decreases segments@.len() - i,
    {
        if segments[i].end_ms > r {
            r = segments[i].end_ms;
        }
        i = i + 1;
    }
    r
}

/// The recording lifecycle of a session.
#[derive(Clone, Copy, Debug, PartialEq, Eq, Structural)]
pub enum RecordingState {
    Created,
    Recording,
    Paused,
    Ended,
}

/// Whether a recording transition is allowed by the session lifecycle:
/// start from created or paused or a reactivated end, pause only while
/// recording, end any live session, reactivate only an ended one.
pub open spec fn spec_transition_allowed(from: RecordingState, to: RecordingState) -> bool {
    match (from, to) {
        (RecordingState::Created, RecordingState::Recording) => true,
        (RecordingState::Recording, RecordingState::Paused) => true,
        (RecordingState::Paused, RecordingState::Recording) => true,
        (RecordingState::Recording, RecordingState::Ended) => true,
        (RecordingState::Paused, RecordingState::Ended) => true,
        (RecordingState::Ended, RecordingState::Recording) => true,
        _ => false,
    }
}

pub fn transition_allowed(from: RecordingState, to: RecordingState) -> (r: bool)
    ensures
        r == spec_transition_allowed(from, to),
{
    match (from, to) {
        (RecordingState::Created, RecordingState::Recording) => true,
        (RecordingState::Recording, RecordingState::Paused) => true,
        (RecordingState::Paused, RecordingState::Recording) => true,
        (RecordingState::Recording, RecordingState::Ended) => true,
        (RecordingState::Paused, RecordingState::Ended) => true,
        (RecordingState::Ended, RecordingState::Recording) => true,
        _ => false,
    }
}

} // verus!
