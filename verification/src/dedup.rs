//! Cross-channel duplicate detection: the same audio transcribed on both the
//! microphone and the speaker channel is recognised by time overlap plus text
//! similarity, and the speaker channel is treated as authoritative.

use vstd::prelude::*;
use crate::chars::lower_of;
use crate::words::trim_of;
use crate::editdist::similarity_at_least;

verus! {

/// `max(0, min(e1, e2) - max(s1, s2))`: how long two segments overlap.
pub open spec fn time_overlap_ms(s1: int, e1: int, s2: int, e2: int) -> int {
    let lo = if s1 >= s2 {
        s1
    } else {
        s2
    };
    let hi = if e1 <= e2 {
        e1
    } else {
        e2
    };
    if hi - lo >= 0 {
        hi - lo
    } else {
        0
    }
}

/// Two segments are duplicates when they overlap in time by at least
/// `overlap_thr_ms` and their trimmed, lowercased texts are both nonempty
/// and similar to at least `thr_permille` thousandths.
pub open spec fn spec_is_duplicate(
    new_text: Seq<char>,
    new_start_ms: int,
    new_end_ms: int,
    existing_text: Seq<char>,
    existing_start_ms: int,
    existing_end_ms: int,
    thr_permille: int,
    overlap_thr_ms: int,
) -> bool {
    let ov = time_overlap_ms(new_start_ms, new_end_ms, existing_start_ms, existing_end_ms);
    if ov < overlap_thr_ms {
        false
    } else {
        let a = lower_of(trim_of(new_text));
        let b = lower_of(trim_of(existing_text));
        if a.len() == 0 || b.len() == 0 {
            false
        } else {
            similarity_at_least(a, b, thr_permille)
        }
    }
}

/// Whether a new segment duplicates an existing one: enough time overlap and
/// similar enough text. The similarity threshold is in thousandths (a typical
/// value is 800).
pub fn is_duplicate_segment(
    new_text: &str,
    new_start_ms: i64,
    new_end_ms: i64,
    existing_text: &str,
    existing_start_ms: i64,
    existing_end_ms: i64,
    similarity_threshold_permille: u32,
    time_overlap_threshold_ms: i64,
) -> (r: bool)
    requires
        0 <= new_start_ms <= new_end_ms,
        0 <= existing_start_ms <= existing_end_ms,
    ensures
        r == spec_is_duplicate(
            new_text@,
            new_start_ms as int,
            new_end_ms as int,
            existing_text@,
            existing_start_ms as int,
            existing_end_ms as int,
            similarity_threshold_permille as int,
            time_overlap_threshold_ms as int,
        ),
{
    let lo = if new_start_ms >= existing_start_ms {
        new_start_ms
    } else {
        existing_start_ms
    };
    let hi = if new_end_ms <= existing_end_ms {
        new_end_ms
    } else {
        existing_end_ms
    };
    let overlap = if hi - lo >= 0 {
        hi - lo
    } else {
        0
    };
    if overlap < time_overlap_threshold_ms {
        return false;
    }
    let new_trimmed = crate::words::trim_str(new_text);
    let existing_trimmed = crate::words::trim_str(existing_text);
    let new_normalized = crate::chars::to_lower(new_trimmed.as_str());
    let existing_normalized = crate::chars::to_lower(existing_trimmed.as_str());
    if new_normalized.as_str().unicode_len() == 0 || existing_normalized.as_str().unicode_len()
        == 0 {
        return false;
    }
    crate::editdist::check_similarity(
        new_normalized.as_str(),
        existing_normalized.as_str(),
        similarity_threshold_permille,
    )
}

} // verus!
