//! Prefix-overlap trimming: consecutive chunks share 200 ms of audio for
//! context, so the start of a new transcription may repeat the end of the
//! previous one. The longest case-insensitive word overlap within bounds is
//! found and stripped.

use vstd::prelude::*;
use crate::chars::{lower_of, to_lower, str_chars_eq};
use crate::words::{words_of, join_of, split_words, join_words};

verus! {

/// Case-insensitive word views of a word sequence.
pub open spec fn lower_words(ws: Seq<Seq<char>>) -> Seq<Seq<char>> {
    Seq::new(ws.len(), |i: int| lower_of(ws[i]))
}

/// The last `k` words of `pw` equal the first `k` words of `nw`,
/// case-insensitively.
pub open spec fn overlap_matches(nw: Seq<Seq<char>>, pw: Seq<Seq<char>>, k: int) -> bool {
    0 <= k <= nw.len() && k <= pw.len() && forall|j: int|
        0 <= j < k ==> lower_of(pw[pw.len() - k + j]) == lower_of(nw[j])
}

/// The largest `k` in `[min_k, k]` whose overlap matches, or `-1`.
pub open spec fn find_overlap_down(
    nw: Seq<Seq<char>>,
    pw: Seq<Seq<char>>,
    min_k: int,
    k: int,
) -> int
    decreases k - min_k + 1,
{
    if k < min_k || k < 0 {
        -1
    } else if overlap_matches(nw, pw, k) {
        k
    } else {
        find_overlap_down(nw, pw, min_k, k - 1)
    }
}

/// The word-overlap bound: at most ten words, and no more than either text has.
pub open spec fn max_overlap_of(nw: Seq<Seq<char>>, pw: Seq<Seq<char>>) -> int {
    let m = if nw.len() <= pw.len() {
        nw.len() as int
    } else {
        pw.len() as int
    };
    if m <= 10 {
        m
    } else {
        10
    }
}

/// What overlap removal returns: the new text unchanged when either side has
/// no words or no overlap in `[min_k, max]` matches; otherwise the new text's
/// words past the longest matched overlap, joined by single spaces.
pub open spec fn spec_remove_prefix_overlap(
    new_text: Seq<char>,
    previous_text: Seq<char>,
    min_k: int,
) -> Seq<char> {
    let nw = words_of(new_text);
    let pw = words_of(previous_text);
    if nw.len() == 0 || pw.len() == 0 {
        new_text
    } else {
        let k = find_overlap_down(nw, pw, min_k, max_overlap_of(nw, pw));
        if k < 0 {
            new_text
        } else {
            join_of(nw.subrange(k, nw.len() as int))
        }
    }
}

/// Remove from `new_text` the longest word prefix (between `min_overlap_words`
/// and ten words) that case-insensitively equals a word suffix of
/// `previous_text`; return `new_text` unchanged when there is none.
pub fn remove_prefix_overlap(new_text: &str, previous_text: &str, min_overlap_words: usize) -> (r:
    String)
    ensures
        r@ == spec_remove_prefix_overlap(new_text@, previous_text@, min_overlap_words as int),
{
    let nw = split_words(new_text);
    let pw = split_words(previous_text);
    if nw.len() == 0 || pw.len() == 0 {
        return new_text.to_owned();
    }
    // lowercase forms of both word lists
    let mut nlow: Vec<String> = Vec::new();
    let mut i: usize = 0;
    while i < nw.len()
        invariant
            i <= nw.len(),
            nlow@.len() == i,
            forall|j: int| 0 <= j < i ==> nlow@[j]@ == lower_of(nw.deep_view()[j]),
        decreases nw.len() - i,
    {
        nlow.push(to_lower(nw[i].as_str()));
        i = i + 1;
    }
    let mut plow: Vec<String> = Vec::new();
    let mut q: usize = 0;
    while q < pw.len()
        invariant
            q <= pw.len(),
            plow@.len() == q,
            forall|j: int| 0 <= j < q ==> plow@[j]@ == lower_of(pw.deep_view()[j]),
        decreases pw.len() - q,
    {
        plow.push(to_lower(pw[q].as_str()));
        q = q + 1;
    }
    let ghost nwv = nw.deep_view();
    let ghost pwv = pw.deep_view();
    let m: usize = if nw.len() <= pw.len() {
        nw.len()
    } else {
        pw.len()
    };
    let maxk: usize = if m <= 10 {
        m
    } else {
        10
    };
    proof {
        assert(maxk as int == max_overlap_of(nwv, pwv));
    }
    let mut k: usize = maxk;
    loop
        invariant
            nwv == nw.deep_view(),
            pwv == pw.deep_view(),
            nwv == words_of(new_text@),
            pwv == words_of(previous_text@),
            nwv.len() > 0,
            pwv.len() > 0,
            nw.len() == nwv.len(),
            pw.len() == pwv.len(),
            k <= maxk,
            maxk <= nw.len(),
            maxk <= pw.len(),
            maxk as int == max_overlap_of(nwv, pwv),
            nlow@.len() == nw.len(),
            plow@.len() == pw.len(),
            forall|j: int| 0 <= j < nw.len() ==> nlow@[j]@ == lower_of(nwv[j]),
            forall|j: int| 0 <= j < pw.len() ==> plow@[j]@ == lower_of(pwv[j]),
            find_overlap_down(nwv, pwv, min_overlap_words as int, maxk as int)
                == find_overlap_down(nwv, pwv, min_overlap_words as int, k as int),
        decreases k,
    {
        if k < min_overlap_words {
            proof {
                assert(find_overlap_down(nwv, pwv, min_overlap_words as int, k as int) == -1);
            }
            return new_text.to_owned();
        }
        // check whether the last k words of pw match the first k words of nw
        let mut j: usize = 0;
        let mut matched: bool = true;
        while j < k && matched
            invariant
                k <= maxk,
                maxk <= nw.len(),
                maxk <= pw.len(),
                nw.len() == nwv.len(),
                pw.len() == pwv.len(),
                nlow@.len() == nw.len(),
                plow@.len() == pw.len(),
                nwv == nw.deep_view(),
                pwv == pw.deep_view(),
                forall|t: int| 0 <= t < nw.len() ==> nlow@[t]@ == lower_of(nwv[t]),
                forall|t: int| 0 <= t < pw.len() ==> plow@[t]@ == lower_of(pwv[t]),
                j <= k,
                matched ==> forall|t: int|
                    0 <= t < j ==> lower_of(pwv[pwv.len() - k + t]) == lower_of(nwv[t]),
                !matched ==> j < k && lower_of(pwv[pwv.len() - k + j]) != lower_of(
                    nwv[j as int],
                ),
            decreases k - j + (if matched {
                1int
            } else {
                0int
            }),
        {
            let e = str_chars_eq(plow[pw.len() - k + j].as_str(), nlow[j].as_str());
            if !e {
                matched = false;
            } else {
                j = j + 1;
            }
        }
        if matched {
            proof {
                assert(overlap_matches(nwv, pwv, k as int));
                assert(find_overlap_down(nwv, pwv, min_overlap_words as int, k as int)
                    == k as int);
            }
            // join the words past the overlap
            let suffix = crate::words::tail_words(&nw, k);
            return join_words(&suffix);
        }
        proof {
            assert(!overlap_matches(nwv, pwv, k as int));
            assert(find_overlap_down(nwv, pwv, min_overlap_words as int, k as int)
                == find_overlap_down(nwv, pwv, min_overlap_words as int, k as int - 1));
        }
        if k == 0 {
            proof {
                assert(find_overlap_down(nwv, pwv, min_overlap_words as int, -1) == -1);
            }
            return new_text.to_owned();
        }
        k = k - 1;
    }
}

/// The overlap that removal strips is a real overlap, and what remains is
/// exactly the new text's words past it; with no matching overlap the new
/// text comes back unchanged.
pub proof fn lemma_remove_prefix_overlap_law(
    new_text: Seq<char>,
    previous_text: Seq<char>,
    min_k: int,
)
    ensures
        ({
            let nw = words_of(new_text);
            let pw = words_of(previous_text);
            let k = find_overlap_down(nw, pw, min_k, max_overlap_of(nw, pw));
            let r = spec_remove_prefix_overlap(new_text, previous_text, min_k);
            if nw.len() == 0 || pw.len() == 0 || k < 0 {
                r == new_text
            } else {
                overlap_matches(nw, pw, k) && words_of(r) == nw.subrange(k, nw.len() as int)
            }
        }),
{
    let nw = words_of(new_text);
    let pw = words_of(previous_text);
    let k = find_overlap_down(nw, pw, min_k, max_overlap_of(nw, pw));
    if nw.len() > 0 && pw.len() > 0 && k >= 0 {
        lemma_find_overlap_found(nw, pw, min_k, max_overlap_of(nw, pw));
        crate::words::lemma_words_of_plain(new_text);
        let suffix = nw.subrange(k, nw.len() as int);
        assert(crate::words::all_plain_words(suffix)) by {
            assert(forall|i: int|
                0 <= i < suffix.len() ==> suffix[i] == #[trigger] nw[k + i]);
        }
        crate::words::lemma_words_of_join(suffix);
    }
}

/// When the search returns a nonnegative `k`, that overlap matches.
pub proof fn lemma_find_overlap_found(
    nw: Seq<Seq<char>>,
    pw: Seq<Seq<char>>,
    min_k: int,
    k: int,
)
    ensures
        find_overlap_down(nw, pw, min_k, k) >= 0 ==> overlap_matches(
            nw,
            pw,
            find_overlap_down(nw, pw, min_k, k),
        ),
    decreases k - min_k + 1,
{
    if k < min_k || k < 0 {
    } else if overlap_matches(nw, pw, k) {
    } else {
        lemma_find_overlap_found(nw, pw, min_k, k - 1);
    }
}

} // verus!
