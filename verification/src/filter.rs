//! Transcription output cleanup: filler-word removal, stutter collapse,
//! whitespace normalisation and a final hallucination check. Cleaning an
//! already-cleaned text changes nothing, and that is proved here.

use vstd::prelude::*;
use crate::chars::{lower_of, to_lower, chars_of, char_is_alphabetic, alpha_char,
    str_chars_eq};
use crate::words::{words_of, join_of, split_words, join_words, lower_all, push_word,
    all_plain_words, is_plain_word, trim_of};
use crate::textmatch::chars_eq_str;
use crate::hallucination::{spec_is_hallucination, is_hallucination};

verus! {

/// The filler words that are removed from transcriptions.
pub open spec fn is_filler_word(w: Seq<char>) -> bool {
    w == "uh"@ || w == "um"@ || w == "uhm"@ || w == "umm"@ || w == "uhh"@ || w == "uhhh"@ || w
        == "ah"@ || w == "eh"@ || w == "hmm"@ || w == "hm"@ || w == "mmm"@ || w == "mm"@ || w
        == "mh"@ || w == "ha"@ || w == "ehh"@
}

/// A token is a filler when its lowercase form is a filler word, optionally
/// closed by a period or comma.
pub open spec fn is_filler_token(w: Seq<char>) -> bool {
    let wl = lower_of(w);
    is_filler_word(wl) || (wl.len() > 0 && (wl.last() == '.' || wl.last() == ',')
        && is_filler_word(wl.drop_last()))
}

/// The word sequence with filler tokens removed.
pub open spec fn remove_fillers(ws: Seq<Seq<char>>) -> Seq<Seq<char>>
    decreases ws.len(),
{
    if ws.len() == 0 {
        Seq::empty()
    } else {
        let rest = remove_fillers(ws.drop_last());
        if is_filler_token(ws.last()) {
            rest
        } else {
            rest.push(ws.last())
        }
    }
}

/// A word that stutter collapse applies to: at most four characters when
/// lowercased, all alphabetic.
pub open spec fn is_short_alpha(w: Seq<char>) -> bool {
    let wl = lower_of(w);
    wl.len() <= 4 && forall|q: int| 0 <= q < wl.len() ==> alpha_char(#[trigger] wl[q])
}

/// How many consecutive words from `j` on equal the word at `i`,
/// case-insensitively.
pub open spec fn count_eq(ws: Seq<Seq<char>>, i: int, j: int) -> int
    decreases ws.len() - j,
{
    if j < 0 || j >= ws.len() || lower_of(ws[j]) != lower_of(ws[i]) {
        0
    } else {
        1 + count_eq(ws, i, j + 1)
    }
}

pub proof fn lemma_count_eq(ws: Seq<Seq<char>>, i: int, j: int)
    requires
        0 <= j <= ws.len(),
    ensures
        0 <= count_eq(ws, i, j),
        j + count_eq(ws, i, j) <= ws.len(),
        forall|t: int| j <= t < j + count_eq(ws, i, j) ==> lower_of(#[trigger] ws[t])
            == lower_of(ws[i]),
        j + count_eq(ws, i, j) < ws.len() ==> lower_of(ws[j + count_eq(ws, i, j)])
            != lower_of(ws[i]),
    decreases ws.len() - j,
{
    if j < ws.len() && lower_of(ws[j]) == lower_of(ws[i]) {
        lemma_count_eq(ws, i, j + 1);
    }
}

/// Stutter collapse from position `i` on: a run of three or more identical
/// (case-insensitive) short alphabetic words keeps only its first word.
pub open spec fn collapse_from(ws: Seq<Seq<char>>, i: int) -> Seq<Seq<char>>
    decreases ws.len() - i,
    via collapse_from_decreases
{
    if i < 0 || i >= ws.len() {
        Seq::empty()
    } else if is_short_alpha(ws[i]) {
        let c = count_eq(ws, i, i);
        if c >= 3 {
            seq![ws[i]] + collapse_from(ws, i + c)
        } else {
            seq![ws[i]] + collapse_from(ws, i + 1)
        }
    } else {
        seq![ws[i]] + collapse_from(ws, i + 1)
    }
}

#[via_fn]
proof fn collapse_from_decreases(ws: Seq<Seq<char>>, i: int) {
    if 0 <= i < ws.len() {
        lemma_count_eq(ws, i, i);
    }
}

pub open spec fn collapse_of(ws: Seq<Seq<char>>) -> Seq<Seq<char>> {
    collapse_from(ws, 0)
}

/// What output filtering returns: the empty sequence for a hallucination,
/// otherwise the words with fillers removed and stutters collapsed, joined by
/// single spaces — unless that cleaned text is itself too short or a
/// hallucination.
pub open spec fn spec_filter_output(s: Seq<char>) -> Seq<char> {
    if spec_is_hallucination(s) {
        Seq::empty()
    } else {
        let cleaned = join_of(collapse_of(remove_fillers(words_of(s))));
        if cleaned.len() < 2 || spec_is_hallucination(cleaned) {
            Seq::empty()
        } else {
            cleaned
        }
    }
}

/// Whether the lowercase characters `lc` spell a filler word.
fn filler_word_check(lc: &Vec<char>) -> (r: bool)
    ensures
        r == is_filler_word(lc@),
{
    chars_eq_str(lc, "uh") || chars_eq_str(lc, "um") || chars_eq_str(lc, "uhm") || chars_eq_str(
        lc,
        "umm",
    ) || chars_eq_str(lc, "uhh") || chars_eq_str(lc, "uhhh") || chars_eq_str(lc, "ah")
        || chars_eq_str(lc, "eh") || chars_eq_str(lc, "hmm") || chars_eq_str(lc, "hm")
        || chars_eq_str(lc, "mmm") || chars_eq_str(lc, "mm") || chars_eq_str(lc, "mh")
        || chars_eq_str(lc, "ha") || chars_eq_str(lc, "ehh")
}

/// Whether the token `w` is a filler.
fn filler_token_check(w: &str) -> (r: bool)
    ensures
        r == is_filler_token(w@),
{
    let lw = to_lower(w);
    let lc = chars_of(lw.as_str());
    if filler_word_check(&lc) {
        return true;
    }
    let n = lc.len();
    if n == 0 {
        return false;
    }
    let last = lc[n - 1];
    if !(last == '.' || last == ',') {
        return false;
    }
    let mut stripped: Vec<char> = Vec::new();
    let mut q: usize = 0;
    while q < n - 1
        invariant
            n == lc@.len(),
            n >= 1,
            q <= n - 1,
            stripped@ == lc@.subrange(0, q as int),
        decreases n - q,
    {
        stripped.push(lc[q]);
        proof {
            assert(stripped@ =~= lc@.subrange(0, q as int + 1));
        }
        q = q + 1;
    }
    proof {
        assert(stripped@ =~= lc@.drop_last());
    }
    filler_word_check(&stripped)
}

/// The words with filler tokens removed.
fn remove_fillers_exec(ws: &Vec<String>) -> (r: Vec<String>)
    ensures
        r.deep_view() == remove_fillers(ws.deep_view()),
{
    let ghost wsv = ws.deep_view();
    let mut r: Vec<String> = Vec::new();
    let mut i: usize = 0;
    while i < ws.len()
        invariant
            wsv == ws.deep_view(),
            i <= ws.len(),
            r.deep_view() == remove_fillers(wsv.take(i as int)),
        decreases ws.len() - i,
    {
        let keep = !filler_token_check(ws[i].as_str());
        proof {
            assert(wsv.take(i as int + 1).drop_last() =~= wsv.take(i as int));
            assert(wsv.take(i as int + 1).last() == wsv[i as int]);
            assert(ws@[i as int]@ == wsv[i as int]);
        }
        if keep {
            push_word(&mut r, ws[i].clone());
        }
        i = i + 1;
    }
    proof {
        assert(wsv.take(ws@.len() as int) =~= wsv);
    }
    r
}

/// Whether the word whose lowercase form is `low` is short and alphabetic.
fn short_alpha_check(low: &str) -> (r: bool)
    ensures
        r == (low@.len() <= 4 && forall|q: int| 0 <= q < low@.len() ==> alpha_char(
            #[trigger] low@[q],
        )),
{
    let lc = chars_of(low);
    let n = lc.len();
    if n > 4 {
        return false;
    }
    let mut q: usize = 0;
    while q < n
        invariant
            n == low@.len(),
            lc@ == low@,
            q <= n,
            forall|t: int| 0 <= t < q ==> alpha_char(#[trigger] low@[t]),
        decreases n - q,
    {
        if !char_is_alphabetic(lc[q]) {
            return false;
        }
        q = q + 1;
    }
    true
}

/// The words with stutter runs collapsed.
fn collapse_exec(ws: &Vec<String>) -> (r: Vec<String>)
    ensures
        r.deep_view() == collapse_of(ws.deep_view()),
{
    let ghost wsv = ws.deep_view();
    let lows = lower_all(ws);
    let n = ws.len();
    let mut out: Vec<String> = Vec::new();
    let mut i: usize = 0;
    while i < n
        invariant
            wsv == ws.deep_view(),
            n == ws.len(),
            lows@.len() == n,
            forall|j: int| 0 <= j < n ==> #[trigger] lows@[j]@ == lower_of(wsv[j]),
            i <= n,
            collapse_from(wsv, 0) == out.deep_view() + collapse_from(wsv, i as int),
        decreases n - i,
    {
        let sa = short_alpha_check(lows[i].as_str());
        proof {
            assert(sa == is_short_alpha(wsv[i as int]));
        }
        let mut count: usize = 1;
        proof {
            assert(count_eq(wsv, i as int, i as int) == 1 + count_eq(
                wsv,
                i as int,
                i as int + 1,
            ));
        }
        while i + count < n && str_chars_eq(lows[i + count].as_str(), lows[i].as_str())
            invariant
                wsv == ws.deep_view(),
                n == ws.len(),
                lows@.len() == n,
                forall|j: int| 0 <= j < n ==> #[trigger] lows@[j]@ == lower_of(wsv[j]),
                i < n,
                1 <= count,
                i + count <= n,
                count_eq(wsv, i as int, i as int) == count + count_eq(
                    wsv,
                    i as int,
                    i as int + count as int,
                ),
            decreases n - (i + count),
        {
            proof {
                assert(lower_of(wsv[i as int + count as int]) == lower_of(wsv[i as int]));
                assert(count_eq(wsv, i as int, i as int + count as int) == 1 + count_eq(
                    wsv,
                    i as int,
                    i as int + count as int + 1,
                ));
            }
            count = count + 1;
        }
        proof {
            if i + count < n {
                assert(lower_of(wsv[i as int + count as int]) != lower_of(wsv[i as int]));
            }
            assert(count_eq(wsv, i as int, i as int + count as int) == 0);
            assert(count_eq(wsv, i as int, i as int) == count as int);
        }
        let ghost pre = out.deep_view();
        push_word(&mut out, ws[i].clone());
        proof {
            assert(ws@[i as int]@ == wsv[i as int]);
        }
        let ghost old_i = i as int;
        if sa && count >= 3 {
            i = i + count;
        } else {
            i = i + 1;
        }
        proof {
            assert(collapse_from(wsv, old_i) == seq![wsv[old_i]] + collapse_from(
                wsv,
                i as int,
            ));
            assert(out.deep_view() =~= pre.push(wsv[old_i]));
            assert(pre + seq![wsv[old_i]] =~= pre.push(wsv[old_i]));
            assert(out.deep_view() + collapse_from(wsv, i as int) =~= pre + (seq![wsv[old_i]]
                + collapse_from(wsv, i as int)));
        }
    }
    proof {
        assert(collapse_from(wsv, n as int) =~= Seq::<Seq<char>>::empty());
        assert(out.deep_view() + Seq::<Seq<char>>::empty() =~= out.deep_view());
    }
    out
}

/// What stutter collapse alone returns: text with no words comes back
/// unchanged, anything else as its collapsed words joined by single spaces.
pub open spec fn spec_collapse_stutters(s: Seq<char>) -> Seq<char> {
    if words_of(s).len() == 0 {
        s
    } else {
        join_of(collapse_of(words_of(s)))
    }
}

/// Collapse runs of three or more identical short alphabetic words
/// (case-insensitively) to a single occurrence.
pub fn collapse_stutters(text: &str) -> (r: String)
    ensures
        r@ == spec_collapse_stutters(text@),
{
    let ws = split_words(text);
    if ws.len() == 0 {
        return text.to_owned();
    }
    let collapsed = collapse_exec(&ws);
    join_words(&collapsed)
}

/// No element of the filtered sequence is a filler token.
pub proof fn lemma_remove_fillers_no_filler(ws: Seq<Seq<char>>)
    ensures
        forall|t: int| 0 <= t < remove_fillers(ws).len() ==> !is_filler_token(
            #[trigger] remove_fillers(ws)[t],
        ),
    decreases ws.len(),
{
    if ws.len() > 0 {
        lemma_remove_fillers_no_filler(ws.drop_last());
        let rest = remove_fillers(ws.drop_last());
        assert forall|t: int| 0 <= t < remove_fillers(ws).len() implies !is_filler_token(
            #[trigger] remove_fillers(ws)[t],
        ) by {
            if !is_filler_token(ws.last()) && t == rest.len() {
                assert(remove_fillers(ws)[t] == ws.last());
            } else {
                assert(remove_fillers(ws)[t] == rest[t]);
            }
        }
    }
}

/// Filtering keeps words plain.
pub proof fn lemma_remove_fillers_plain(ws: Seq<Seq<char>>)
    requires
        all_plain_words(ws),
    ensures
        all_plain_words(remove_fillers(ws)),
    decreases ws.len(),
{
    if ws.len() > 0 {
        assert(all_plain_words(ws.drop_last())) by {
            assert(forall|t: int|
                0 <= t < ws.len() - 1 ==> #[trigger] ws.drop_last()[t] == ws[t]);
        }
        lemma_remove_fillers_plain(ws.drop_last());
    }
}

/// With no filler tokens present, filtering changes nothing.
pub proof fn lemma_remove_fillers_identity(ws: Seq<Seq<char>>)
    requires
        forall|t: int| 0 <= t < ws.len() ==> !is_filler_token(#[trigger] ws[t]),
    ensures
        remove_fillers(ws) == ws,
    decreases ws.len(),
{
    if ws.len() > 0 {
        assert(forall|t: int|
            0 <= t < ws.drop_last().len() ==> !is_filler_token(#[trigger] ws.drop_last()[t]));
        lemma_remove_fillers_identity(ws.drop_last());
        assert(remove_fillers(ws) =~= ws);
    } else {
        assert(remove_fillers(ws) =~= ws);
    }
}

/// Collapse keeps the first word and never lengthens the tail.
pub proof fn lemma_collapse_first(ws: Seq<Seq<char>>, i: int)
    requires
        0 <= i < ws.len(),
    ensures
        collapse_from(ws, i).len() >= 1,
        collapse_from(ws, i)[0] == ws[i],
{
}

pub proof fn lemma_collapse_len_bound(ws: Seq<Seq<char>>, i: int)
    requires
        0 <= i,
    ensures
        collapse_from(ws, i).len() <= ws.len() - i || collapse_from(ws, i).len() == 0,
    decreases ws.len() - i,
{
    if i < ws.len() {
        if is_short_alpha(ws[i]) {
            let c = count_eq(ws, i, i);
            lemma_count_eq(ws, i, i);
            if c >= 3 {
                lemma_collapse_len_bound(ws, i + c);
            } else {
                lemma_collapse_len_bound(ws, i + 1);
            }
        } else {
            lemma_collapse_len_bound(ws, i + 1);
        }
    }
}

/// Every word the collapse keeps comes from the suffix it worked on.
pub proof fn lemma_collapse_subset(ws: Seq<Seq<char>>, i: int)
    requires
        0 <= i,
    ensures
        forall|t: int| 0 <= t < collapse_from(ws, i).len() ==> exists|j: int|
            i <= j < ws.len() && #[trigger] collapse_from(ws, i)[t] == ws[j],
    decreases ws.len() - i,
{
    if i < ws.len() {
        let res = collapse_from(ws, i);
        let next: int = if is_short_alpha(ws[i]) && count_eq(ws, i, i) >= 3 {
            i + count_eq(ws, i, i)
        } else {
            i + 1
        };
        lemma_count_eq(ws, i, i);
        lemma_collapse_subset(ws, next);
        let rest = collapse_from(ws, next);
        assert(res == seq![ws[i]] + rest);
        assert forall|t: int| 0 <= t < res.len() implies exists|j: int|
            i <= j < ws.len() && #[trigger] res[t] == ws[j] by {
            if t == 0 {
                assert(res[0] == ws[i]);
            } else {
                assert(res[t] == rest[t - 1]);
                let j0 = choose|j: int| next <= j < ws.len() && rest[t - 1] == ws[j];
                assert(i <= j0 < ws.len() && res[t] == ws[j0]);
            }
        }
    }
}

/// No stutter run of three at position `i`: either the word is not short and
/// alphabetic, or the two words after it do not both repeat it.
pub open spec fn no_triple_at(ws: Seq<Seq<char>>, i: int) -> bool {
    (0 <= i && i + 2 < ws.len()) ==> !(is_short_alpha(ws[i]) && lower_of(ws[i + 1]) == lower_of(
        ws[i],
    ) && lower_of(ws[i + 2]) == lower_of(ws[i]))
}

pub open spec fn no_triple(ws: Seq<Seq<char>>) -> bool {
    forall|i: int| #[trigger] no_triple_at(ws, i)
}

/// The collapse leaves no stutter run of three behind.
pub proof fn lemma_collapse_no_triple(ws: Seq<Seq<char>>, i: int)
    requires
        0 <= i,
    ensures
        no_triple(collapse_from(ws, i)),
    decreases ws.len() - i,
{
    if i >= ws.len() {
        assert(forall|t: int| #[trigger] no_triple_at(collapse_from(ws, i), t));
    } else {
        let res = collapse_from(ws, i);
        let c = count_eq(ws, i, i);
        lemma_count_eq(ws, i, i);
        let next: int = if is_short_alpha(ws[i]) && c >= 3 {
            i + c
        } else {
            i + 1
        };
        lemma_collapse_no_triple(ws, next);
        let rest = collapse_from(ws, next);
        assert(res == seq![ws[i]] + rest);
        assert forall|t: int| #[trigger] no_triple_at(res, t) by {
            if 0 <= t && t + 2 < res.len() {
                if t >= 1 {
                    assert(no_triple_at(rest, t - 1));
                    assert(res[t] == rest[t - 1]);
                    assert(res[t + 1] == rest[t]);
                    assert(res[t + 2] == rest[t + 1]);
                } else {
                    // a run of three starting at the kept word itself
                    assert(res[0] == ws[i]);
                    assert(res[1] == rest[0]);
                    assert(res[2] == rest[1]);
                    if is_short_alpha(ws[i]) {
                        if c >= 3 {
                            // everything equal to ws[i] was skipped
                            lemma_collapse_first(ws, next);
                            assert(rest[0] == ws[next]);
                            assert(lower_of(ws[next]) != lower_of(ws[i]));
                        } else if c == 2 {
                            // the next word repeats, but the one after differs
                            lemma_collapse_first(ws, i + 1);
                            assert(rest[0] == ws[i + 1]);
                            lemma_collapse_len_bound(ws, i + 1);
                            assert(ws.len() >= i + 3);
                            assert(lower_of(ws[i + 1]) == lower_of(ws[i]));
                            assert(lower_of(ws[i + 2]) != lower_of(ws[i]));
                            // unfold the collapse at i + 1
                            assert(is_short_alpha(ws[i + 1])) by {
                                assert(lower_of(ws[i + 1]) == lower_of(ws[i]));
                            }
                            lemma_count_eq(ws, i + 1, i + 1);
                            assert(lower_of(ws[i + 2]) != lower_of(ws[i + 1]));
                            assert(count_eq(ws, i + 1, i + 2) == 0);
                            assert(count_eq(ws, i + 1, i + 1) == 1);
                            assert(rest == seq![ws[i + 1]] + collapse_from(ws, i + 2));
                            lemma_collapse_first(ws, i + 2);
                            assert(rest[1] == collapse_from(ws, i + 2)[0]);
                            assert(rest[1] == ws[i + 2]);
                        } else {
                            // c == 1: the very next word already differs
                            lemma_collapse_first(ws, i + 1);
                            assert(rest[0] == ws[i + 1]);
                            assert(lower_of(ws[i + 1]) != lower_of(ws[i]));
                        }
                    }
                }
            }
        }
    }
}

/// On a sequence with no stutter run of three, the collapse is the identity.
pub proof fn lemma_collapse_identity(ws: Seq<Seq<char>>, i: int)
    requires
        0 <= i <= ws.len(),
        no_triple(ws),
    ensures
        collapse_from(ws, i) == ws.skip(i),
    decreases ws.len() - i,
{
    if i >= ws.len() {
        assert(collapse_from(ws, i) =~= ws.skip(i));
    } else {
        let c = count_eq(ws, i, i);
        lemma_count_eq(ws, i, i);
        if is_short_alpha(ws[i]) && c >= 3 {
            assert(i + 2 < ws.len());
            assert(lower_of(ws[i + 1]) == lower_of(ws[i]));
            assert(lower_of(ws[i + 2]) == lower_of(ws[i]));
            assert(no_triple_at(ws, i));
            assert(false);
        }
        lemma_collapse_identity(ws, i + 1);
        assert(collapse_from(ws, i) == seq![ws[i]] + collapse_from(ws, i + 1));
        assert(collapse_from(ws, i) == seq![ws[i]] + ws.skip(i + 1));
        let lhs = seq![ws[i]] + ws.skip(i + 1);
        assert forall|t: int| 0 <= t < lhs.len() implies lhs[t] == ws.skip(i)[t] by {
            if t == 0 {
                assert(lhs[0] == ws[i]);
                assert(ws.skip(i)[0] == ws[i]);
            } else {
                assert(lhs[t] == ws.skip(i + 1)[t - 1]);
                assert(ws.skip(i + 1)[t - 1] == ws[i + t]);
                assert(ws.skip(i)[t] == ws[i + t]);
            }
        }
        assert(lhs.len() == ws.skip(i).len());
        assert(lhs =~= ws.skip(i));
        assert(collapse_from(ws, i) == ws.skip(i));
    }
}

/// Cleaning is idempotent: filtering an already-filtered output changes
/// nothing.
pub proof fn lemma_filter_idempotent(s: Seq<char>)
    ensures
        spec_filter_output(spec_filter_output(s)) == spec_filter_output(s),
{
    let r = spec_filter_output(s);
    if r.len() == 0 {
        assert(trim_of(Seq::<char>::empty()).len() == 0);
        assert(spec_is_hallucination(Seq::<char>::empty()));
        assert(spec_filter_output(Seq::<char>::empty()) =~= Seq::<char>::empty());
    } else {
        let ws0 = words_of(s);
        let kept = remove_fillers(ws0);
        let collapsed = collapse_of(kept);
        let cleaned = join_of(collapsed);
        assert(r == cleaned);
        assert(!spec_is_hallucination(cleaned));
        assert(cleaned.len() >= 2);
        // the cleaned text splits back into exactly the collapsed words
        crate::words::lemma_words_of_plain(s);
        lemma_remove_fillers_plain(ws0);
        lemma_collapse_subset(kept, 0);
        assert(all_plain_words(collapsed)) by {
            assert forall|t: int| 0 <= t < collapsed.len() implies is_plain_word(
                #[trigger] collapsed[t],
            ) by {
                let j0 = choose|j: int| 0 <= j < kept.len() && collapsed[t] == kept[j];
                assert(is_plain_word(kept[j0]));
            }
        }
        crate::words::lemma_words_of_join(collapsed);
        assert(words_of(cleaned) == collapsed);
        // its words hold no fillers, so filtering them again keeps them all
        lemma_remove_fillers_no_filler(ws0);
        assert(forall|t: int| 0 <= t < collapsed.len() ==> !is_filler_token(
            #[trigger] collapsed[t],
        )) by {
            assert forall|t: int| 0 <= t < collapsed.len() implies !is_filler_token(
                #[trigger] collapsed[t],
            ) by {
                let j0 = choose|j: int| 0 <= j < kept.len() && collapsed[t] == kept[j];
                assert(!is_filler_token(kept[j0]));
            }
        }
        lemma_remove_fillers_identity(collapsed);
        // and they hold no stutter run, so collapsing again keeps them too
        lemma_collapse_no_triple(kept, 0);
        lemma_collapse_identity(collapsed, 0);
        assert(collapsed.skip(0) =~= collapsed);
        assert(collapse_of(remove_fillers(words_of(cleaned))) == collapsed);
        assert(spec_filter_output(cleaned) == cleaned);
    }
}

/// Whatever filtering emits is substantial: a nonempty result has at least
/// two characters and is itself no hallucination.
pub proof fn lemma_filter_output_clean(s: Seq<char>)
    ensures
        spec_filter_output(s).len() > 0 ==> spec_filter_output(s).len() >= 2
            && !spec_is_hallucination(spec_filter_output(s)),
{
}

/// Clean raw transcription output: reject hallucinations, remove filler
/// words, collapse stutter runs, normalise whitespace, and reject the result
/// if it is itself too short or a hallucination.
pub fn filter_transcription_output(text: &str) -> (r: String)
    ensures
        r@ == spec_filter_output(text@),
{
    if is_hallucination(text) {
        return String::new();
    }
    let ws = split_words(text);
    let kept = remove_fillers_exec(&ws);
    let collapsed = collapse_exec(&kept);
    let joined = join_words(&collapsed);
    if joined.as_str().unicode_len() < 2 {
        return String::new();
    }
    if is_hallucination(joined.as_str()) {
        return String::new();
    }
    joined
}

} // verus!
