//! Custom-vocabulary correction: each token of the transcription is compared
//! with the user's vocabulary by normalised Levenshtein distance, with a
//! phonetic discount for Soundex-equivalent words of similar length; the
//! best-scoring word below the threshold replaces the token, keeping its
//! case pattern and surrounding punctuation.

use vstd::prelude::*;
use crate::chars::{
    lower_of, upper_of, upper_first_char, alpha_char, upper_char, to_lower, to_upper, chars_of,
    string_from_chars, char_is_alphabetic, char_is_uppercase, char_upper_first,
};
use crate::words::{words_of, join_of, split_words, join_words, lower_all, push_word};
use crate::editdist::{lev, max_nat, lemma_lev_le_max, levenshtein_distance};

verus! {

/// How many characters at the front are not alphabetic.
pub open spec fn lead_nonalpha(w: Seq<char>) -> int
    decreases w.len(),
{
    if w.len() > 0 && !alpha_char(w[0]) {
        1 + lead_nonalpha(w.subrange(1, w.len() as int))
    } else {
        0
    }
}

/// How many characters at the back are not alphabetic.
pub open spec fn trail_nonalpha(w: Seq<char>) -> int
    decreases w.len(),
{
    if w.len() > 0 && !alpha_char(w[w.len() - 1]) {
        1 + trail_nonalpha(w.subrange(0, w.len() - 1))
    } else {
        0
    }
}

pub proof fn lemma_lead_nonalpha(w: Seq<char>)
    ensures
        0 <= lead_nonalpha(w) <= w.len(),
        forall|j: int| 0 <= j < lead_nonalpha(w) ==> !alpha_char(#[trigger] w[j]),
        lead_nonalpha(w) < w.len() ==> alpha_char(w[lead_nonalpha(w)]),
    decreases w.len(),
{
    if w.len() > 0 && !alpha_char(w[0]) {
        let t = w.subrange(1, w.len() as int);
        lemma_lead_nonalpha(t);
        assert forall|j: int| 0 <= j < lead_nonalpha(w) implies !alpha_char(
            #[trigger] w[j],
        ) by {
            if j > 0 {
                assert(t[j - 1] == w[j]);
            }
        }
        if lead_nonalpha(w) < w.len() {
            assert(t[lead_nonalpha(t)] == w[lead_nonalpha(w)]);
        }
    }
}

pub proof fn lemma_trail_nonalpha(w: Seq<char>)
    ensures
        0 <= trail_nonalpha(w) <= w.len(),
        forall|j: int|
            w.len() - trail_nonalpha(w) <= j < w.len() ==> !alpha_char(#[trigger] w[j]),
        trail_nonalpha(w) < w.len() ==> alpha_char(w[w.len() - trail_nonalpha(w) - 1]),
    decreases w.len(),
{
    if w.len() > 0 && !alpha_char(w[w.len() - 1]) {
        let t = w.subrange(0, w.len() - 1);
        lemma_trail_nonalpha(t);
        assert forall|j: int| w.len() - trail_nonalpha(w) <= j < w.len() implies !alpha_char(
            #[trigger] w[j],
        ) by {
            if j < w.len() - 1 {
                assert(t[j] == w[j]);
            }
        }
        if trail_nonalpha(w) < w.len() {
            assert(t[t.len() - trail_nonalpha(t) - 1] == w[w.len() - trail_nonalpha(w) - 1]);
        }
    }
}

/// The non-alphabetic prefix of a word.
pub open spec fn punct_prefix_of(w: Seq<char>) -> Seq<char> {
    w.subrange(0, lead_nonalpha(w))
}

/// The non-alphabetic suffix of a word.
pub open spec fn punct_suffix_of(w: Seq<char>) -> Seq<char> {
    w.subrange(w.len() - trail_nonalpha(w), w.len() as int)
}

/// The word with non-alphabetic characters stripped from both ends.
pub open spec fn core_of(w: Seq<char>) -> Seq<char> {
    if lead_nonalpha(w) == w.len() {
        Seq::empty()
    } else {
        w.subrange(lead_nonalpha(w), w.len() - trail_nonalpha(w))
    }
}

/// What Soundex equality of two nonempty words returns, a function of the
/// characters alone.
pub uninterp spec fn sounds_like(a: Seq<char>, b: Seq<char>) -> bool;

/// Relies on natural::phonetics::soundex: whether two words share a Soundex
/// encoding, a function of the characters alone. The encoder reads the first
/// character unconditionally, so empty input is excluded.
#[verifier::external_body]
fn soundex_eq(a: &str, b: &str) -> (r: bool)
    requires
        a@.len() > 0,
        b@.len() > 0,
    ensures
        r == sounds_like(a@, b@),
{
    natural::phonetics::soundex(a, b)
}

/// The replacement recased after the original: an all-uppercase original
/// uppercases the replacement; an uppercase first letter capitalises it;
/// anything else leaves it as it is.
pub open spec fn case_pattern_applied(orig: Seq<char>, repl: Seq<char>) -> Seq<char> {
    if forall|i: int| 0 <= i < orig.len() ==> upper_char(#[trigger] orig[i]) {
        upper_of(repl)
    } else if orig.len() > 0 && upper_char(orig[0]) {
        if repl.len() == 0 {
            repl
        } else {
            seq![upper_first_char(repl[0])] + repl.subrange(1, repl.len() as int)
        }
    } else {
        repl
    }
}

/// Apply the case pattern of `original` to `replacement`.
pub fn preserve_case_pattern(original: &str, replacement: &str) -> (r: String)
    ensures
        r@ == case_pattern_applied(original@, replacement@),
{
    let oc = chars_of(original);
    let n = oc.len();
    let mut all_upper = true;
    let mut i: usize = 0;
    while i < n
        invariant
            n == original@.len(),
            oc@ == original@,
            i <= n,
            all_upper <==> forall|j: int| 0 <= j < i ==> upper_char(#[trigger] original@[j]),
        decreases n - i,
    {
        if !char_is_uppercase(oc[i]) {
            all_upper = false;
            proof {
                assert(!upper_char(original@[i as int]));
            }
        }
        i = i + 1;
    }
    if all_upper {
        return to_upper(replacement);
    }
    let first_upper = if n > 0 {
        char_is_uppercase(oc[0])
    } else {
        false
    };
    if first_upper {
        let rc = chars_of(replacement);
        if rc.len() == 0 {
            return replacement.to_owned();
        }
        let mut out: Vec<char> = Vec::new();
        out.push(char_upper_first(rc[0]));
        let m = rc.len();
        let mut q: usize = 1;
        while q < m
            invariant
                m == rc@.len(),
                rc@ == replacement@,
                1 <= q <= m,
                out@.len() == q,
                out@[0] == upper_first_char(replacement@[0]),
                forall|t: int| 1 <= t < q ==> out@[t] == replacement@[t],
            decreases m - q,
        {
            out.push(rc[q]);
            q = q + 1;
        }
        proof {
            assert(out@ =~= seq![upper_first_char(replacement@[0])] + replacement@.subrange(
                1,
                replacement@.len() as int,
            ));
        }
        return string_from_chars(&out);
    }
    replacement.to_owned()
}

/// The non-alphabetic prefix and suffix of a word. A word with no alphabetic
/// character at all is both its own prefix and its own suffix.
pub fn extract_punctuation(word: &str) -> (r: (&str, &str))
    ensures
        r.0@ == punct_prefix_of(word@),
        r.1@ == punct_suffix_of(word@),
{
    let wc = chars_of(word);
    let n = wc.len();
    let mut a: usize = 0;
    while a < n && !char_is_alphabetic(wc[a])
        invariant
            n == word@.len(),
            wc@ == word@,
            a <= n,
            forall|j: int| 0 <= j < a ==> !alpha_char(#[trigger] word@[j]),
        decreases n - a,
    {
        a = a + 1;
    }
    proof {
        lemma_lead_nonalpha(word@);
        if a < n {
            assert(alpha_char(word@[a as int]));
        }
        assert(lead_nonalpha(word@) == a as int) by {
            let l = lead_nonalpha(word@);
            if l < a {
                assert(!alpha_char(word@[l]));
                assert(alpha_char(word@[l]));
            }
            if l > a {
                assert(!alpha_char(word@[a as int]));
            }
        }
    }
    let mut b: usize = n;
    while b > 0 && !char_is_alphabetic(wc[b - 1])
        invariant
            n == word@.len(),
            wc@ == word@,
            b <= n,
            forall|j: int| b <= j < n ==> !alpha_char(#[trigger] word@[j]),
        decreases b,
    {
        b = b - 1;
    }
    proof {
        lemma_trail_nonalpha(word@);
        if b > 0 {
            assert(alpha_char(word@[b as int - 1]));
        }
        assert(trail_nonalpha(word@) == n - b) by {
            let t = trail_nonalpha(word@);
            if t < n - b {
                assert(!alpha_char(word@[n - t - 1]));
                assert(alpha_char(word@[n - t - 1]));
            }
            if t > n - b {
                assert(!alpha_char(word@[b as int - 1]));
            }
        }
    }
    let prefix = word.substring_char(0, a);
    let suffix = word.substring_char(n - (n - b), n);
    (prefix, suffix)
}

/// The candidate pick as a fold over the custom words: the index, score
/// numerator and score denominator of the best acceptable candidate so far.
pub open spec fn pick_best(
    c: Seq<char>,
    lowers: Seq<Seq<char>>,
    idx: int,
    best: Option<(int, int, int)>,
    thr: int,
) -> Option<(int, int, int)>
    decreases lowers.len() - idx,
{
    if idx < 0 || idx >= lowers.len() {
        best
    } else {
        let w = lowers[idx];
        if c.len() - w.len() > 5 || w.len() - c.len() > 5 {
            pick_best(c, lowers, idx + 1, best, thr)
        } else {
            let m = max_nat(c.len(), w.len()) as int;
            let d = lev(c, w) as int;
            let mn: int = if c.len() <= w.len() {
                c.len() as int
            } else {
                w.len() as int
            };
            let boost = sounds_like(c, w) && 5 * mn > 4 * m;
            let num = if boost {
                d
            } else {
                2 * d
            };
            let den = 2 * m;
            let better = match best {
                Option::None => true,
                Option::Some((_bi, bn, bd)) => num * bd < bn * den,
            };
            if num * 1000 < thr * den && better {
                pick_best(c, lowers, idx + 1, Option::Some((idx, num, den)), thr)
            } else {
                pick_best(c, lowers, idx + 1, best, thr)
            }
        }
    }
}

/// One token after correction: on an acceptable vocabulary match, the custom
/// word, recased after the token and wrapped in the token's punctuation;
/// otherwise the token unchanged.
pub open spec fn correct_token(
    w: Seq<char>,
    customs: Seq<Seq<char>>,
    lowers: Seq<Seq<char>>,
    thr: int,
) -> Seq<char> {
    let c = lower_of(core_of(w));
    if c.len() == 0 || c.len() > 50 {
        w
    } else {
        match pick_best(c, lowers, 0, Option::None, thr) {
            Option::None => w,
            Option::Some((i, _n, _d)) => punct_prefix_of(w) + case_pattern_applied(
                w,
                customs[i],
            ) + punct_suffix_of(w),
        }
    }
}

/// The whole text after correction: every token corrected independently,
/// joined by single spaces — or the text unchanged when the vocabulary is
/// empty.
pub open spec fn spec_apply_custom_words(s: Seq<char>, customs: Seq<Seq<char>>, thr: int) -> Seq<
    char,
> {
    if customs.len() == 0 {
        s
    } else {
        let lowers = Seq::new(customs.len(), |i: int| lower_of(customs[i]));
        let nw = words_of(s);
        join_of(Seq::new(nw.len(), |i: int| correct_token(nw[i], customs, lowers, thr)))
    }
}

/// The corrected form of one token.
fn correct_token_exec(word: &str, customs: &Vec<String>, lowers: &Vec<String>, thr: u32) -> (r:
    String)
    requires
        lowers@.len() == customs@.len(),
        forall|j: int| 0 <= j < customs@.len() ==> #[trigger] lowers@[j]@ == lower_of(
            customs.deep_view()[j],
        ),
    ensures
        r@ == correct_token(word@, customs.deep_view(), lowers.deep_view(), thr as int),
{
    let ghost cv = customs.deep_view();
    let ghost lv = lowers.deep_view();
    proof {
        assert forall|j: int| 0 <= j < lv.len() implies #[trigger] lv[j] == lower_of(cv[j]) by {
            assert(lowers@[j]@ == lv[j]);
        }
    }
    let wc = chars_of(word);
    let n = wc.len();
    // strip non-alphabetic characters from both ends, then lowercase
    let mut a: usize = 0;
    while a < n && !char_is_alphabetic(wc[a])
        invariant
            n == word@.len(),
            wc@ == word@,
            a <= n,
            forall|j: int| 0 <= j < a ==> !alpha_char(#[trigger] word@[j]),
        decreases n - a,
    {
        a = a + 1;
    }
    proof {
        lemma_lead_nonalpha(word@);
        if a < n {
            assert(alpha_char(word@[a as int]));
        }
        assert(lead_nonalpha(word@) == a as int) by {
            let l = lead_nonalpha(word@);
            if l < a {
                assert(!alpha_char(word@[l]));
            }
            if l > a && a < n {
                assert(!alpha_char(word@[a as int]));
            }
        }
    }
    if a == n {
        // no alphabetic character: the cleaned word is empty, and an empty
        // word is left untouched
        let empty_lowered = to_lower("");
        proof {
            reveal_strlit("");
            assert(empty_lowered@.len() == 0);
            assert(core_of(word@) =~= ""@);
            assert(lower_of(core_of(word@)).len() == 0);
        }
        return word.to_owned();
    }
    let mut b: usize = n;
    while b > 0 && !char_is_alphabetic(wc[b - 1])
        invariant
            n == word@.len(),
            wc@ == word@,
            b <= n,
            forall|j: int| b <= j < n ==> !alpha_char(#[trigger] word@[j]),
        decreases b,
    {
        b = b - 1;
    }
    proof {
        lemma_trail_nonalpha(word@);
        if b > 0 {
            assert(alpha_char(word@[b as int - 1]));
        }
        assert(trail_nonalpha(word@) == n - b) by {
            let t = trail_nonalpha(word@);
            if t < n - b {
                assert(!alpha_char(word@[n - t - 1]));
            }
            if t > n - b && b > 0 {
                assert(!alpha_char(word@[b as int - 1]));
            }
        }
        assert(a < b) by {
            assert(alpha_char(word@[a as int]));
            if b <= a {
                assert(!alpha_char(word@[a as int]));
            }
        }
    }
    let mut corev: Vec<char> = Vec::new();
    let mut q = a;
    while q < b
        invariant
            a <= q <= b <= n,
            n == wc@.len(),
            wc@ == word@,
            corev@ == word@.subrange(a as int, q as int),
        decreases b - q,
    {
        corev.push(wc[q]);
        proof {
            assert(corev@ =~= word@.subrange(a as int, q as int + 1));
        }
        q = q + 1;
    }
    proof {
        assert(corev@ =~= core_of(word@));
    }
    let core = string_from_chars(&corev);
    let cleaned = to_lower(core.as_str());
    let ghost c = lower_of(core_of(word@));
    proof {
        assert(cleaned@ == c);
    }
    let cl = cleaned.as_str().unicode_len();
    if cl == 0 || cl > 50 {
        return word.to_owned();
    }
    // fold over the custom words for the best acceptable candidate
    let mut found = false;
    let mut best_i: usize = 0;
    let mut best_num: u64 = 0;
    let mut best_den: u64 = 1;
    let mut idx: usize = 0;
    while idx < lowers.len()
        invariant
            cv == customs.deep_view(),
            lv == lowers.deep_view(),
            lowers@.len() == customs@.len(),
            forall|j: int| 0 <= j < customs@.len() ==> #[trigger] lowers@[j]@ == lower_of(
                cv[j],
            ),
            cleaned@ == c,
            c.len() == cl,
            1 <= cl <= 50,
            idx <= lowers.len(),
            found ==> best_i < idx && 0 < best_den <= 110 && best_num <= 110,
            pick_best(c, lv, 0, Option::None, thr as int) == pick_best(
                c,
                lv,
                idx as int,
                if found {
                    Option::Some((best_i as int, best_num as int, best_den as int))
                } else {
                    Option::None
                },
                thr as int,
            ),
        decreases lowers.len() - idx,
    {
        let w = &lowers[idx];
        let wl = w.as_str().unicode_len();
        proof {
            assert(w@ == lv[idx as int]);
        }
        let diff_big = if cl >= wl {
            cl - wl > 5
        } else {
            wl - cl > 5
        };
        if !diff_big {
            let d = levenshtein_distance(cleaned.as_str(), w.as_str());
            proof {
                lemma_lev_le_max(c, lv[idx as int]);
            }
            let m = if cl >= wl {
                cl
            } else {
                wl
            };
            let mn = if cl <= wl {
                cl
            } else {
                wl
            };
            let boost = if wl > 0 && 5 * mn > 4 * m {
                soundex_eq(cleaned.as_str(), w.as_str())
            } else {
                proof {
                    if wl == 0 {
                        assert(!(5 * (if c.len() <= lv[idx as int].len() {
                            c.len() as int
                        } else {
                            lv[idx as int].len() as int
                        }) > 4 * (max_nat(c.len(), lv[idx as int].len()) as int)));
                    }
                }
                false
            };
            proof {
                assert(lv[idx as int].len() <= c.len() + 5);
                assert(d <= 55);
            }
            let num: u64 = if boost {
                d as u64
            } else {
                2 * (d as u64)
            };
            let den: u64 = 2 * (m as u64);
            proof {
                assert((thr as u128) * (den as u128) <= 0xffff_ffffu128
                    * 0xffff_ffff_ffff_ffffu128) by (nonlinear_arith)
                    requires
                        thr as u128 <= 0xffff_ffffu128,
                        den as u128 <= 0xffff_ffff_ffff_ffffu128,
                ;
                if found {
                    assert(num * best_den <= 110u64 * 110u64) by (nonlinear_arith)
                        requires
                            num <= 110u64,
                            best_den <= 110u64,
                    ;
                    assert(best_num * den <= 110u64 * 110u64) by (nonlinear_arith)
                        requires
                            best_num <= 110u64,
                            den <= 110u64,
                    ;
                }
            }
            let accept = (num as u128) * 1000 < (thr as u128) * (den as u128) && (!found || num
                * best_den < best_num * den);
            if accept {
                found = true;
                best_i = idx;
                best_num = num;
                best_den = den;
            }
        }
        idx = idx + 1;
    }
    if !found {
        return word.to_owned();
    }
    // rebuild the token: punctuation, recased custom word, punctuation
    let (prefix, suffix) = extract_punctuation(word);
    let cased = preserve_case_pattern(word, customs[best_i].as_str());
    let mut out = prefix.to_owned();
    out.append(cased.as_str());
    out.append(suffix);
    proof {
        assert(customs@[best_i as int]@ == cv[best_i as int]);
        assert(out@ == punct_prefix_of(word@) + case_pattern_applied(word@, cv[best_i as int])
            + punct_suffix_of(word@));
    }
    out
}

/// Correct the text against the custom vocabulary: every word is compared
/// with each custom word by normalised Levenshtein distance (halved for
/// Soundex-equivalent candidates of similar length), and the best candidate
/// scoring strictly below `threshold_permille` thousandths replaces it. The
/// threshold is the acceptance fraction expressed in thousandths.
pub fn apply_custom_words(text: &str, custom_words: &Vec<String>, threshold_permille: u32) -> (r:
    String)
    ensures
        r@ == spec_apply_custom_words(
            text@,
            custom_words.deep_view(),
            threshold_permille as int,
        ),
{
    let ghost cv = custom_words.deep_view();
    if custom_words.len() == 0 {
        return text.to_owned();
    }
    let lowers = lower_all(custom_words);
    let ghost lv = Seq::new(cv.len(), |i: int| lower_of(cv[i]));
    proof {
        assert(lowers.deep_view() =~= lv);
    }
    let words = split_words(text);
    let ghost nw = words_of(text@);
    let ghost target = Seq::new(nw.len(), |i: int| correct_token(nw[i], cv, lv, threshold_permille as int));
    let mut out: Vec<String> = Vec::new();
    let mut i: usize = 0;
    while i < words.len()
        invariant
            cv == custom_words.deep_view(),
            lv == lowers.deep_view(),
            lowers@.len() == custom_words@.len(),
            forall|j: int| 0 <= j < custom_words@.len() ==> #[trigger] lowers@[j]@ == lower_of(
                cv[j],
            ),
            nw == words.deep_view(),
            target == Seq::new(nw.len(), |t: int| correct_token(nw[t], cv, lv, threshold_permille as int)),
            i <= words.len(),
            out.deep_view() == target.take(i as int),
        decreases words.len() - i,
    {
        let t = correct_token_exec(words[i].as_str(), custom_words, &lowers, threshold_permille);
        proof {
            assert(words@[i as int]@ == nw[i as int]);
        }
        push_word(&mut out, t);
        proof {
            assert(out.deep_view() =~= target.take(i as int + 1));
        }
        i = i + 1;
    }
    proof {
        assert(target.take(words@.len() as int) =~= target);
    }
    join_words(&out)
}

} // verus!
