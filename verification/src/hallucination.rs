//! Hallucination rejection: recognises the text shapes an ASR model emits on
//! silent or noisy audio — punctuation-only output, "thank you" spam,
//! bracketed sound descriptions, subtitle and URL artefacts, single
//! greetings and acknowledgements, and highly repetitive phrases.

use vstd::prelude::*;
use crate::chars::{lower_of, chars_of, string_from_chars, lower_chars};
use crate::words::{trim_of, trim_start_of, words_of, split_words, lower_all};
use crate::overlap::lower_words;
use crate::textmatch::{
    starts_with, starts_with_at, skip_spaces_idx, lemma_skip_skip, lemma_trim_start_len,
};

verus! {

/// Punctuation that may close a hallucinated phrase.
pub open spec fn is_unit_punct(c: char) -> bool {
    c == '.' || c == '!' || c == ','
}

/// The characters an all-punctuation hallucination may consist of.
pub open spec fn is_hal_punct_char(c: char) -> bool {
    c == '.' || c == '!' || c == '?' || c == '\u{2026}' || c == ',' || c == ';' || c == ':'
        || c == '\'' || c == '"'
}

/// Nonempty and made of punctuation only.
pub open spec fn punct_only(s: Seq<char>) -> bool {
    s.len() >= 1 && forall|i: int| 0 <= i < s.len() ==> is_hal_punct_char(s[i])
}

/// A bracketed sound description: `[` ... `]` with no line break inside.
pub open spec fn bracketed(s: Seq<char>) -> bool {
    s.len() >= 2 && s[0] == '[' && s[s.len() - 1] == ']' && forall|i: int|
        0 < i < s.len() - 1 ==> s[i] != '\u{a}'
}

/// Exactly the word `w`, optionally followed by one of `. ! ,`.
pub open spec fn word_opt_punct(s: Seq<char>, w: Seq<char>) -> bool {
    s == w || (s.len() == w.len() + 1 && starts_with(s, w) && is_unit_punct(s[s.len() - 1]))
}

/// One or more repetitions of "thank", optional spaces, "you", optional
/// punctuation and spaces, filling the whole sequence.
pub open spec fn thank_spam(s: Seq<char>) -> bool
    decreases s.len(),
    via thank_spam_decreases
{
    if !starts_with(s, "thank"@) {
        false
    } else {
        let r1 = trim_start_of(s.skip(5));
        if !starts_with(r1, "you"@) {
            false
        } else {
            let r2 = r1.skip(3);
            let r3 = if r2.len() > 0 && is_unit_punct(r2[0]) {
                r2.skip(1)
            } else {
                r2
            };
            let r4 = trim_start_of(r3);
            r4.len() == 0 || thank_spam(r4)
        }
    }
}

#[via_fn]
proof fn thank_spam_decreases(s: Seq<char>) {
    reveal_strlit("thank");
    reveal_strlit("you");
    if starts_with(s, "thank"@) {
        let r1 = trim_start_of(s.skip(5));
        lemma_trim_start_len(s.skip(5));
        if starts_with(r1, "you"@) {
            let r2 = r1.skip(3);
            let r3 = if r2.len() > 0 && is_unit_punct(r2[0]) {
                r2.skip(1)
            } else {
                r2
            };
            lemma_trim_start_len(r3);
        }
    }
}

/// How many consecutive repetitions of the word `w` (each optionally closed
/// by punctuation and spaces) fill the whole of `s`; `-1` when `s` is not
/// exactly such a run.
pub open spec fn spam_count(s: Seq<char>, w: Seq<char>) -> int
    decreases s.len(),
    via spam_count_decreases
{
    if w.len() == 0 || !starts_with(s, w) {
        -1
    } else {
        let r2 = s.skip(w.len() as int);
        let r3 = if r2.len() > 0 && is_unit_punct(r2[0]) {
            r2.skip(1)
        } else {
            r2
        };
        let r4 = trim_start_of(r3);
        if r4.len() == 0 {
            1
        } else {
            let c = spam_count(r4, w);
            if c < 0 {
                -1
            } else {
                1 + c
            }
        }
    }
}

#[via_fn]
proof fn spam_count_decreases(s: Seq<char>, w: Seq<char>) {
    if w.len() > 0 && starts_with(s, w) {
        let r2 = s.skip(w.len() as int);
        let r3 = if r2.len() > 0 && is_unit_punct(r2[0]) {
            r2.skip(1)
        } else {
            r2
        };
        lemma_trim_start_len(r3);
    }
}

/// A subtitle or caption artefact: one of the credit words followed by
/// `by` or a colon.
pub open spec fn subtitle_artifact(s: Seq<char>) -> bool {
    exists|w: Seq<char>|
        (w == "subtitles"@ || w == "captions"@ || w == "transcribed"@ || w == "translated"@)
            && #[trigger] starts_with(s, w) && ({
            let r = trim_start_of(s.skip(w.len() as int));
            starts_with(r, "by"@) || starts_with(r, ":"@)
        })
}

/// A URL-like opening.
pub open spec fn url_artifact(s: Seq<char>) -> bool {
    starts_with(s, "www."@) || starts_with(s, "http://"@) || starts_with(s, "https://"@)
        || starts_with(s, ".com"@) || starts_with(s, ".org"@)
}

/// A lone "thank you" with flexible inner spacing, optionally punctuated.
pub open spec fn thank_you_single(s: Seq<char>) -> bool {
    starts_with(s, "thank"@) && word_opt_punct(trim_start_of(s.skip(5)), "you"@)
}

/// A single greeting or thanks in one of several languages.
pub open spec fn single_greeting(s: Seq<char>) -> bool {
    thank_you_single(s) || word_opt_punct(s, "thanks"@) || word_opt_punct(s, "gracias"@)
        || word_opt_punct(s, "merci"@) || word_opt_punct(s, "danke"@) || word_opt_punct(
        s,
        "grazie"@,
    ) || word_opt_punct(s, "obrigado"@) || word_opt_punct(s, "obrigada"@) || word_opt_punct(
        s,
        "\u{441}\u{43f}\u{430}\u{441}\u{438}\u{431}\u{43e}"@,
    ) || word_opt_punct(s, "\u{3042}\u{308a}\u{304c}\u{3068}\u{3046}"@) || word_opt_punct(
        s,
        "\u{8b1d}\u{8b1d}"@,
    ) || word_opt_punct(s, "\u{ac10}\u{c0ac}\u{d569}\u{b2c8}\u{b2e4}"@)
}

/// A goodbye word.
pub open spec fn goodbye_word(s: Seq<char>) -> bool {
    word_opt_punct(s, "bye"@) || word_opt_punct(s, "goodbye"@) || word_opt_punct(s, "bye-bye"@)
        || word_opt_punct(s, "adios"@) || word_opt_punct(s, "ciao"@) || word_opt_punct(
        s,
        "au revoir"@,
    )
}

/// A short acknowledgement word.
pub open spec fn ack_word(s: Seq<char>) -> bool {
    word_opt_punct(s, "yes"@) || word_opt_punct(s, "no"@) || word_opt_punct(s, "yeah"@)
        || word_opt_punct(s, "yep"@) || word_opt_punct(s, "nope"@) || word_opt_punct(s, "hmm"@)
        || word_opt_punct(s, "huh"@) || word_opt_punct(s, "oh"@) || word_opt_punct(s, "ah"@)
}

/// The first `len` lowercased words starting at `i` equal those starting at `j`.
pub open spec fn phrase_eq(lv: Seq<Seq<char>>, i: int, j: int, len: int) -> bool {
    forall|q: int| 0 <= q < len ==> #[trigger] lv[i + q] == lv[j + q]
}

/// How many consecutive blocks of length `len`, starting at `j`, repeat the
/// block at `i`.
pub open spec fn consec_blocks(lv: Seq<Seq<char>>, i: int, j: int, len: int) -> int
    decreases lv.len() - j,
    via consec_blocks_decreases
{
    if 0 <= j && len >= 1 && j + len <= lv.len() && phrase_eq(lv, i, j, len) {
        1 + consec_blocks(lv, i, j + len, len)
    } else {
        0
    }
}

#[via_fn]
proof fn consec_blocks_decreases(lv: Seq<Seq<char>>, i: int, j: int, len: int) {
}

pub proof fn lemma_consec_blocks_bound(lv: Seq<Seq<char>>, i: int, j: int, len: int)
    requires
        0 <= j <= lv.len(),
        len >= 1,
    ensures
        0 <= consec_blocks(lv, i, j, len),
        j + len * consec_blocks(lv, i, j, len) <= lv.len(),
    decreases lv.len() - j,
{
    if j + len <= lv.len() && phrase_eq(lv, i, j, len) {
        lemma_consec_blocks_bound(lv, i, j + len, len);
        let c = consec_blocks(lv, i, j + len, len);
        assert(len * (1 + c) == len + len * c) by (nonlinear_arith)
            requires
                c == consec_blocks(lv, i, j + len, len),
        ;
    }
}

/// The total number of words covered by phrase runs of length `len` repeated
/// three or more times, scanning as the repetition detector does.
pub open spec fn rep_count(lv: Seq<Seq<char>>, i: int, len: int) -> int
    decreases lv.len() - i,
    via rep_count_decreases
{
    if i < 0 || len < 1 || i + len > lv.len() {
        0
    } else {
        let consecutive = 1 + consec_blocks(lv, i, i + len, len);
        let j = i + len * consecutive;
        if consecutive >= 3 {
            consecutive + rep_count(lv, j, len)
        } else {
            rep_count(lv, j, len)
        }
    }
}

#[via_fn]
proof fn rep_count_decreases(lv: Seq<Seq<char>>, i: int, len: int) {
    if !(i < 0 || len < 1 || i + len > lv.len()) {
        lemma_consec_blocks_bound(lv, i, i + len, len);
        let c = consec_blocks(lv, i, i + len, len);
        assert(len * (1 + c) == len + len * c) by (nonlinear_arith)
            requires
                c == consec_blocks(lv, i, i + len, len),
        ;
        assert(len * (1 + c) >= 1) by (nonlinear_arith)
            requires
                len >= 1,
                c >= 0,
        ;
    }
}

pub proof fn lemma_rep_count_bound(lv: Seq<Seq<char>>, i: int, len: int)
    requires
        0 <= i,
        1 <= len,
    ensures
        0 <= rep_count(lv, i, len),
        len * rep_count(lv, i, len) <= lv.len() - i || rep_count(lv, i, len) == 0,
    decreases lv.len() - i,
{
    if i + len <= lv.len() {
        lemma_consec_blocks_bound(lv, i, i + len, len);
        let c = consec_blocks(lv, i, i + len, len);
        let consecutive = 1 + c;
        let j = i + len * consecutive;
        assert(len * consecutive == len + len * c) by (nonlinear_arith)
            requires
                consecutive == 1 + c,
        ;
        assert(len * consecutive >= 1) by (nonlinear_arith)
            requires
                len >= 1,
                consecutive >= 1,
        ;
        lemma_rep_count_bound(lv, j, len);
        let r = rep_count(lv, j, len);
        if consecutive >= 3 {
            assert(len * (consecutive + r) == len * consecutive + len * r)
                by (nonlinear_arith);
        }
    }
}

/// Highly repetitive text: for some phrase length two to four, runs of three
/// or more identical consecutive phrases cover at least half the words.
pub open spec fn spec_is_repetitive(s: Seq<char>) -> bool {
    let lv = lower_words(words_of(s));
    let n = lv.len() as int;
    n >= 6 && exists|len: int|
        2 <= len <= 4 && n >= len * 3 && #[trigger] rep_count(lv, 0, len) * len >= n / 2
}

/// A spam run never holds more repetitions than characters.
pub proof fn lemma_spam_count_bound(s: Seq<char>, w: Seq<char>)
    ensures
        spam_count(s, w) <= s.len(),
    decreases s.len(),
{
    if w.len() > 0 && starts_with(s, w) {
        let r2 = s.skip(w.len() as int);
        let r3 = if r2.len() > 0 && is_unit_punct(r2[0]) {
            r2.skip(1)
        } else {
            r2
        };
        let r4 = trim_start_of(r3);
        lemma_trim_start_len(r3);
        if r4.len() != 0 {
            lemma_spam_count_bound(r4, w);
        }
    }
}

fn punct_only_check(t: &Vec<char>) -> (r: bool)
    ensures
        r == punct_only(t@),
{
    let n = t.len();
    if n == 0 {
        return false;
    }
    let mut i: usize = 0;
    while i < n
        invariant
            n == t@.len(),
            i <= n,
            forall|j: int| 0 <= j < i ==> is_hal_punct_char(t@[j]),
        decreases n - i,
    {
        let c = t[i];
        if !(c == '.' || c == '!' || c == '?' || c == '\u{2026}' || c == ',' || c == ';' || c
            == ':' || c == '\'' || c == '"') {
            return false;
        }
        i = i + 1;
    }
    true
}

fn bracketed_check(t: &Vec<char>) -> (r: bool)
    ensures
        r == bracketed(t@),
{
    let n = t.len();
    if n < 2 || t[0] != '[' || t[n - 1] != ']' {
        return false;
    }
    let mut i: usize = 1;
    while i < n - 1
        invariant
            n == t@.len(),
            2 <= n,
            1 <= i <= n - 1,
            forall|j: int| 0 < j < i ==> t@[j] != '\u{a}',
        decreases n - i,
    {
        if t[i] == '\u{a}' {
            return false;
        }
        i = i + 1;
    }
    true
}

/// Whether the suffix of `v` at `i` is exactly `w`, optionally punctuated.
fn word_opt_punct_at(v: &Vec<char>, i: usize, w: &str) -> (r: bool)
    requires
        i <= v.len(),
    ensures
        r == word_opt_punct(v@.skip(i as int), w@),
{
    let ghost s = v@.skip(i as int);
    let wl = w.unicode_len();
    let n = v.len();
    if !starts_with_at(v, i, w) {
        proof {
            if s == w@ {
                assert(s.subrange(0, w@.len() as int) =~= w@);
            }
        }
        return false;
    }
    if n - i == wl {
        proof {
            assert(s =~= w@);
        }
        return true;
    }
    if n - i == wl + 1 {
        let c = v[i + wl];
        proof {
            assert(s[s.len() - 1] == v@[i + wl as int]);
            if s == w@ {
                assert(s.len() == w@.len());
            }
        }
        return c == '.' || c == '!' || c == ',';
    }
    proof {
        if s == w@ {
            assert(s.len() == w@.len());
        }
    }
    false
}

/// Whether the suffix of `v` at `i` is thank-you spam.
fn thank_spam_at(v: &Vec<char>, i: usize) -> (r: bool)
    requires
        i <= v.len(),
    ensures
        r == thank_spam(v@.skip(i as int)),
    decreases v.len() - i,
{
    let ghost s = v@.skip(i as int);
    if !starts_with_at(v, i, "thank") {
        return false;
    }
    proof {
        reveal_strlit("thank");
        lemma_skip_skip(v@, i as int, 5);
    }
    let j = skip_spaces_idx(v, i + 5);
    let ghost r1 = trim_start_of(s.skip(5));
    proof {
        assert(v@.skip(j as int) == r1);
    }
    if !starts_with_at(v, j, "you") {
        return false;
    }
    proof {
        reveal_strlit("you");
        lemma_skip_skip(v@, j as int, 3);
    }
    let ghost r2 = r1.skip(3);
    proof {
        assert(r2 == v@.skip(j as int + 3));
    }
    let mut j2 = j + 3;
    if j2 < v.len() {
        let c = v[j2];
        if c == '.' || c == '!' || c == ',' {
            proof {
                assert(r2[0] == v@[j2 as int]);
                lemma_skip_skip(v@, j2 as int, 1);
            }
            j2 = j2 + 1;
        } else {
            proof {
                assert(r2[0] == v@[j2 as int]);
            }
        }
    }
    let ghost r3 = if r2.len() > 0 && is_unit_punct(r2[0]) {
        r2.skip(1)
    } else {
        r2
    };
    proof {
        assert(r3 == v@.skip(j2 as int));
    }
    let j3 = skip_spaces_idx(v, j2);
    let ghost r4 = trim_start_of(r3);
    proof {
        assert(v@.skip(j3 as int) == r4);
    }
    if j3 == v.len() {
        proof {
            assert(r4.len() == 0);
        }
        true
    } else {
        proof {
            assert(r4.len() > 0);
        }
        thank_spam_at(v, j3)
    }
}

/// The repetition count of the word-spam run in the suffix of `v` at `i`:
/// `(true, count)` for a full run, `(false, 0)` for no match.
fn spam_count_at(v: &Vec<char>, i: usize, w: &str) -> (res: (bool, usize))
    requires
        i <= v.len(),
    ensures
        ({
            let c = spam_count(v@.skip(i as int), w@);
            if res.0 {
                c == res.1 as int
            } else {
                c == -1
            }
        }),
    decreases v.len() - i,
{
    let ghost s = v@.skip(i as int);
    let wl = w.unicode_len();
    if wl == 0 {
        return (false, 0);
    }
    if !starts_with_at(v, i, w) {
        return (false, 0);
    }
    proof {
        lemma_skip_skip(v@, i as int, w@.len() as int);
    }
    let ghost r2 = s.skip(w@.len() as int);
    let mut j2 = i + wl;
    proof {
        assert(r2 == v@.skip(j2 as int));
    }
    if j2 < v.len() {
        let c = v[j2];
        if c == '.' || c == '!' || c == ',' {
            proof {
                assert(r2[0] == v@[j2 as int]);
                lemma_skip_skip(v@, j2 as int, 1);
            }
            j2 = j2 + 1;
        } else {
            proof {
                assert(r2[0] == v@[j2 as int]);
            }
        }
    }
    let ghost r3 = if r2.len() > 0 && is_unit_punct(r2[0]) {
        r2.skip(1)
    } else {
        r2
    };
    proof {
        assert(r3 == v@.skip(j2 as int));
    }
    let j3 = skip_spaces_idx(v, j2);
    let ghost r4 = trim_start_of(r3);
    proof {
        assert(v@.skip(j3 as int) == r4);
    }
    if j3 == v.len() {
        proof {
            assert(r4.len() == 0);
        }
        (true, 1)
    } else {
        proof {
            assert(r4.len() > 0);
        }
        let rec = spam_count_at(v, j3, w);
        if rec.0 {
            proof {
                lemma_spam_count_bound(r4, w@);
            }
            (true, 1 + rec.1)
        } else {
            (false, 0)
        }
    }
}

fn subtitle_check(low: &Vec<char>) -> (r: bool)
    ensures
        r == subtitle_artifact(low@),
{
    proof {
        assert(low@.skip(0) =~= low@);
    }
    let words: [&str; 4] = ["subtitles", "captions", "transcribed", "translated"];
    let mut k: usize = 0;
    while k < 4
        invariant
            k <= 4,
            low@.skip(0) == low@,
            words@[0]@ == "subtitles"@,
            words@[1]@ == "captions"@,
            words@[2]@ == "transcribed"@,
            words@[3]@ == "translated"@,
            forall|t: int|
                0 <= t < k ==> !(starts_with(low@, #[trigger] words@[t]@) && ({
                    let r = trim_start_of(low@.skip(words@[t]@.len() as int));
                    starts_with(r, "by"@) || starts_with(r, ":"@)
                })),
        decreases 4 - k,
    {
        let w = words[k];
        let wl = w.unicode_len();
        if starts_with_at(low, 0, w) {
            proof {
                lemma_skip_skip(low@, 0, w@.len() as int);
                assert(low@.skip(0).skip(w@.len() as int) == low@.skip(w@.len() as int));
            }
            let j = skip_spaces_idx(low, wl);
            proof {
                assert(low@.skip(j as int) == trim_start_of(low@.skip(w@.len() as int)));
            }
            if starts_with_at(low, j, "by") || starts_with_at(low, j, ":") {
                proof {
                    assert(starts_with(low@, w@) && ({
                        let r = trim_start_of(low@.skip(w@.len() as int));
                        starts_with(r, "by"@) || starts_with(r, ":"@)
                    }));
                }
                return true;
            }
        }
        k = k + 1;
    }
    proof {
        if subtitle_artifact(low@) {
            let w = choose|w: Seq<char>|
                (w == "subtitles"@ || w == "captions"@ || w == "transcribed"@ || w
                    == "translated"@) && #[trigger] starts_with(low@, w) && ({
                    let r = trim_start_of(low@.skip(w.len() as int));
                    starts_with(r, "by"@) || starts_with(r, ":"@)
                });
            assert(w == words@[0]@ || w == words@[1]@ || w == words@[2]@ || w == words@[3]@);
        }
    }
    false
}

fn url_check(low: &Vec<char>) -> (r: bool)
    ensures
        r == url_artifact(low@),
{
    proof {
        assert(low@.skip(0) =~= low@);
    }
    starts_with_at(low, 0, "www.") || starts_with_at(low, 0, "http://") || starts_with_at(
        low,
        0,
        "https://",
    ) || starts_with_at(low, 0, ".com") || starts_with_at(low, 0, ".org")
}

fn single_greeting_check(low: &Vec<char>) -> (r: bool)
    ensures
        r == single_greeting(low@),
{
    proof {
        assert(low@.skip(0) =~= low@);
    }
    // a lone "thank you", allowing spaces between the words
    let thank_you = if starts_with_at(low, 0, "thank") {
        proof {
            reveal_strlit("thank");
            lemma_skip_skip(low@, 0, 5);
        }
        let j = skip_spaces_idx(low, 5);
        proof {
            assert(low@.skip(j as int) == trim_start_of(low@.skip(5)));
        }
        word_opt_punct_at(low, j, "you")
    } else {
        false
    };
    thank_you || word_opt_punct_at(low, 0, "thanks") || word_opt_punct_at(low, 0, "gracias")
        || word_opt_punct_at(low, 0, "merci") || word_opt_punct_at(low, 0, "danke")
        || word_opt_punct_at(low, 0, "grazie") || word_opt_punct_at(low, 0, "obrigado")
        || word_opt_punct_at(low, 0, "obrigada") || word_opt_punct_at(
        low,
        0,
        "\u{441}\u{43f}\u{430}\u{441}\u{438}\u{431}\u{43e}",
    ) || word_opt_punct_at(low, 0, "\u{3042}\u{308a}\u{304c}\u{3068}\u{3046}")
        || word_opt_punct_at(low, 0, "\u{8b1d}\u{8b1d}") || word_opt_punct_at(
        low,
        0,
        "\u{ac10}\u{c0ac}\u{d569}\u{b2c8}\u{b2e4}",
    )
}

fn goodbye_check(low: &Vec<char>) -> (r: bool)
    ensures
        r == goodbye_word(low@),
{
    proof {
        assert(low@.skip(0) =~= low@);
    }
    word_opt_punct_at(low, 0, "bye") || word_opt_punct_at(low, 0, "goodbye")
        || word_opt_punct_at(low, 0, "bye-bye") || word_opt_punct_at(low, 0, "adios")
        || word_opt_punct_at(low, 0, "ciao") || word_opt_punct_at(low, 0, "au revoir")
}

fn ack_check(low: &Vec<char>) -> (r: bool)
    ensures
        r == ack_word(low@),
{
    proof {
        assert(low@.skip(0) =~= low@);
    }
    word_opt_punct_at(low, 0, "yes") || word_opt_punct_at(low, 0, "no") || word_opt_punct_at(
        low,
        0,
        "yeah",
    ) || word_opt_punct_at(low, 0, "yep") || word_opt_punct_at(low, 0, "nope")
        || word_opt_punct_at(low, 0, "hmm") || word_opt_punct_at(low, 0, "huh")
        || word_opt_punct_at(low, 0, "oh") || word_opt_punct_at(low, 0, "ah")
}

/// Whether the lowercased word blocks at `i` and `j` of length `len` agree.
fn phrase_eq_at(lows: &Vec<String>, i: usize, j: usize, len: usize) -> (r: bool)
    requires
        i + len <= lows.len(),
        j + len <= lows.len(),
    ensures
        r == phrase_eq(lows.deep_view(), i as int, j as int, len as int),
{
    let mut q: usize = 0;
    while q < len
        invariant
            i + len <= lows.len(),
            j + len <= lows.len(),
            q <= len,
            forall|t: int|
                0 <= t < q ==> #[trigger] lows.deep_view()[i + t] == lows.deep_view()[j + t],
        decreases len - q,
    {
        if !crate::chars::str_chars_eq(lows[i + q].as_str(), lows[j + q].as_str()) {
            proof {
                assert(lows.deep_view()[i + q as int] != lows.deep_view()[j + q as int]);
            }
            return false;
        }
        q = q + 1;
    }
    true
}

fn consec_blocks_at(lows: &Vec<String>, i: usize, j: usize, len: usize) -> (c: usize)
    requires
        1 <= len,
        i + len <= lows.len(),
        j <= lows.len(),
    ensures
        c as int == consec_blocks(lows.deep_view(), i as int, j as int, len as int),
    decreases lows.len() - j,
{
    let ghost lv = lows.deep_view();
    if len <= lows.len() - j {
        if phrase_eq_at(lows, i, j, len) {
            let c0 = consec_blocks_at(lows, i, j + len, len);
            proof {
                lemma_consec_blocks_bound(lv, i as int, j as int, len as int);
                assert(consec_blocks(lv, i as int, j as int, len as int) == 1 + c0 as int);
                lemma_consec_blocks_bound(lv, i as int, j as int + len as int, len as int);
                assert(c0 as int <= len as int * c0 as int) by (nonlinear_arith)
                    requires
                        len as int >= 1,
                        c0 as int >= 0,
                ;
            }
            return 1 + c0;
        }
    }
    proof {
        assert(consec_blocks(lv, i as int, j as int, len as int) == 0);
    }
    0
}

fn rep_count_at(lows: &Vec<String>, i: usize, len: usize) -> (c: usize)
    requires
        1 <= len,
        i <= lows.len(),
    ensures
        c as int == rep_count(lows.deep_view(), i as int, len as int),
    decreases lows.len() - i,
{
    let ghost lv = lows.deep_view();
    if len > lows.len() - i {
        return 0;
    }
    let cb = consec_blocks_at(lows, i, i + len, len);
    proof {
        lemma_consec_blocks_bound(lv, i as int, i as int + len as int, len as int);
        assert((i + len) + len * cb <= lows.len());
        assert(cb as int <= len as int * cb as int) by (nonlinear_arith)
            requires
                len as int >= 1,
                cb as int >= 0,
        ;
    }
    let consecutive = 1 + cb;
    proof {
        assert(len * (1 + cb as int) == len + len * cb) by (nonlinear_arith);
        assert(len * consecutive >= 1) by (nonlinear_arith)
            requires
                len >= 1,
                consecutive >= 1,
        ;
    }
    let j = i + len * consecutive;
    let rec = rep_count_at(lows, j, len);
    proof {
        lemma_rep_count_bound(lv, j as int, len as int);
    }
    if consecutive >= 3 {
        proof {
            lemma_rep_count_bound(lv, i as int, len as int);
            assert(rep_count(lv, i as int, len as int) == consecutive + rec);
            assert(len * (consecutive + rec as int) <= lv.len() - i || consecutive + rec as int
                == 0);
            assert(consecutive + rec as int <= len * (consecutive + rec as int))
                by (nonlinear_arith)
                requires
                    len >= 1,
                    consecutive + rec as int >= 0,
            ;
        }
        consecutive + rec
    } else {
        rec
    }
}

/// Whether, for some phrase length of two to four words, runs of three or
/// more identical consecutive phrases cover at least half the words.
pub fn is_repetitive_hallucination(text: &str) -> (r: bool)
    ensures
        r == spec_is_repetitive(text@),
{
    let ws = split_words(text);
    let lows = lower_all(&ws);
    let ghost lv = lower_words(words_of(text@));
    proof {
        assert(lows.deep_view() =~= lv);
    }
    let n = ws.len();
    proof {
        assert(lows.len() == n);
    }
    if n < 6 {
        return false;
    }
    let mut len: usize = 2;
    while len <= 4
        invariant
            2 <= len <= 5,
            lv == lower_words(words_of(text@)),
            n == lv.len(),
            n >= 6,
            lows.deep_view() == lv,
            lows.len() == n,
            forall|l: int|
                2 <= l < len ==> !(n >= l * 3 && #[trigger] rep_count(lv, 0, l) * l >= n as int
                    / 2),
        decreases 5 - len,
    {
        if n >= len * 3 {
            let rep = rep_count_at(&lows, 0, len);
            proof {
                lemma_rep_count_bound(lv, 0, len as int);
                assert(rep as int * len as int <= n || rep == 0);
                assert(rep as int <= n) by (nonlinear_arith)
                    requires
                        len as int >= 1,
                        rep as int >= 0,
                        rep as int * len as int <= n || rep as int == 0,
                ;
                assert(rep as int * len as int <= n) by (nonlinear_arith)
                    requires
                        len as int >= 0,
                        rep as int >= 0,
                        rep as int * len as int <= n || rep as int == 0,
                ;
            }
            let prod = rep * len;
            if prod >= n / 2 {
                proof {
                    assert(rep_count(lv, 0, len as int) * len as int >= n as int / 2);
                    assert(2 <= len as int <= 4 && lv.len() as int >= len as int * 3
                        && rep_count(lv, 0, len as int) * (len as int) >= lv.len() as int / 2);
                    assert(spec_is_repetitive(text@));
                }
                return true;
            }
        }
        len = len + 1;
    }
    proof {
        if spec_is_repetitive(text@) {
            let l0 = choose|l: int|
                2 <= l <= 4 && lv.len() as int >= l * 3 && #[trigger] rep_count(lv, 0, l) * l
                    >= lv.len() as int / 2;
            assert(!(n >= l0 * 3 && rep_count(lv, 0, l0) * l0 >= n as int / 2));
        }
    }
    false
}

/// Text that matches a known hallucination shape: too short, punctuation
/// only, spam of thanks or greetings, bracketed sound descriptions, subtitle
/// or URL artefacts, single acknowledgements, or repetitive phrases. Only
/// the trimmed text matters, and word patterns are matched case-insensitively.
pub open spec fn spec_is_hallucination(s: Seq<char>) -> bool {
    let t = trim_of(s);
    let low = lower_of(t);
    t.len() < 2 || ((forall|i: int| 0 <= i < t.len() ==> t[i] != ' ') && t.len() < 3)
        || punct_only(t) || bracketed(t) || thank_spam(low) || spam_count(low, "hello"@) >= 2
        || spam_count(low, "okay"@) >= 3 || subtitle_artifact(low) || url_artifact(low)
        || single_greeting(low) || goodbye_word(low) || ack_word(low) || spec_is_repetitive(t)
}

/// Whether the text matches a known hallucination shape (see
/// [`spec_is_hallucination`]).
pub fn is_hallucination(text: &str) -> (r: bool)
    ensures
        r == spec_is_hallucination(text@),
{
    let cs = chars_of(text);
    let t = crate::words::trim_chars(&cs);
    let ghost tv = trim_of(text@);
    proof {
        assert(t@ == tv);
    }
    let n = t.len();
    if n < 2 {
        return true;
    }
    // a single word (no inner plain space) of fewer than three characters
    let mut has_space = false;
    let mut i: usize = 0;
    while i < n
        invariant
            n == t@.len(),
            i <= n,
            has_space <==> exists|j: int| 0 <= j < i && t@[j] == ' ',
        decreases n - i,
    {
        if t[i] == ' ' {
            has_space = true;
        }
        i = i + 1;
    }
    if !has_space && n < 3 {
        return true;
    }
    if punct_only_check(&t) {
        return true;
    }
    if bracketed_check(&t) {
        return true;
    }
    let ts = string_from_chars(&t);
    let low = lower_chars(ts.as_str());
    proof {
        assert(low@ == lower_of(tv));
        assert(low@.skip(0) =~= low@);
    }
    if thank_spam_at(&low, 0) {
        return true;
    }
    let hello = spam_count_at(&low, 0, "hello");
    if hello.0 && hello.1 >= 2 {
        return true;
    }
    let okay = spam_count_at(&low, 0, "okay");
    if okay.0 && okay.1 >= 3 {
        return true;
    }
    if subtitle_check(&low) {
        return true;
    }
    if url_check(&low) {
        return true;
    }
    if single_greeting_check(&low) {
        return true;
    }
    if goodbye_check(&low) {
        return true;
    }
    if ack_check(&low) {
        return true;
    }
    if is_repetitive_hallucination(ts.as_str()) {
        return true;
    }
    proof {
        assert(!(t@.len() < 2));
        assert(has_space ==> exists|j: int| 0 <= j < t@.len() && t@[j] == ' ');
        assert(!has_space ==> forall|j: int| 0 <= j < t@.len() ==> t@[j] != ' ');
    }
    false
}

/// Hallucination rejection only looks at the trimmed text, so trimming the
/// input never changes the verdict.
pub proof fn lemma_hallucination_trim_stable(s: Seq<char>)
    ensures
        spec_is_hallucination(s) == spec_is_hallucination(trim_of(s)),
{
    crate::words::lemma_trim_of_trimmed(s);
    crate::words::lemma_trim_idempotent(trim_of(s));
}

} // verus!
