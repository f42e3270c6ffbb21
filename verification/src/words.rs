//! Tokenization: splitting text into whitespace-separated words, joining
//! words with single spaces, and trimming. The round-trip lemma (splitting a
//! well-formed join gives the words back) underpins the idempotence proofs of
//! the text filters.

use vstd::prelude::*;
use crate::chars::{is_space_char, is_space, chars_of, string_from_chars};

verus! {

/// Index of the first whitespace character at or after `i`, or the length.
pub open spec fn next_space(s: Seq<char>, i: int) -> int
    decreases s.len() - i,
{
    if i < 0 || i >= s.len() {
        s.len() as int
    } else if is_space_char(s[i]) {
        i
    } else {
        next_space(s, i + 1)
    }
}

pub proof fn lemma_next_space_bounds(s: Seq<char>, i: int)
    requires
        0 <= i <= s.len(),
    ensures
        i <= next_space(s, i) <= s.len(),
        forall|j: int| i <= j < next_space(s, i) ==> !is_space_char(s[j]),
        next_space(s, i) < s.len() ==> is_space_char(s[next_space(s, i)]),
    decreases s.len() - i,
{
    if i < s.len() && !is_space_char(s[i]) {
        lemma_next_space_bounds(s, i + 1);
    }
}

/// If the `m` characters from `i` are not whitespace and the next one is (or
/// the string ends), the first whitespace at or after `i` is at `i + m`.
pub proof fn lemma_next_space_val(s: Seq<char>, i: int, m: int)
    requires
        0 <= i,
        0 <= m,
        i + m <= s.len(),
        forall|j: int| i <= j < i + m ==> !is_space_char(s[j]),
        i + m < s.len() ==> is_space_char(s[i + m]),
    ensures
        next_space(s, i) == i + m,
    decreases m,
{
    if m > 0 {
        lemma_next_space_val(s, i + 1, m - 1);
    }
}

/// The whitespace-separated words of a character sequence.
pub open spec fn words_of(s: Seq<char>) -> Seq<Seq<char>>
    decreases s.len(),
    via words_of_decreases
{
    if s.len() == 0 {
        Seq::empty()
    } else if is_space_char(s[0]) {
        words_of(s.subrange(1, s.len() as int))
    } else {
        let k = next_space(s, 0);
        seq![s.subrange(0, k)] + words_of(s.subrange(k, s.len() as int))
    }
}

#[via_fn]
proof fn words_of_decreases(s: Seq<char>) {
    if s.len() > 0 && !is_space_char(s[0]) {
        lemma_next_space_bounds(s, 0);
        assert(next_space(s, 0) >= 1) by {
            assert(!is_space_char(s[0]));
        }
    }
}

/// A word as produced by tokenization: nonempty, with no whitespace in it.
pub open spec fn is_plain_word(w: Seq<char>) -> bool {
    w.len() > 0 && forall|j: int| 0 <= j < w.len() ==> !is_space_char(w[j])
}

pub open spec fn all_plain_words(ws: Seq<Seq<char>>) -> bool {
    forall|i: int| 0 <= i < ws.len() ==> is_plain_word(#[trigger] ws[i])
}

pub proof fn lemma_words_of_plain(s: Seq<char>)
    ensures
        all_plain_words(words_of(s)),
    decreases s.len(),
{
    if s.len() == 0 {
    } else if is_space_char(s[0]) {
        lemma_words_of_plain(s.subrange(1, s.len() as int));
    } else {
        let k = next_space(s, 0);
        lemma_next_space_bounds(s, 0);
        lemma_words_of_plain(s.subrange(k, s.len() as int));
        let w = s.subrange(0, k);
        assert(is_plain_word(w)) by {
            assert(forall|j: int| 0 <= j < k ==> !is_space_char(s[j]));
            assert(forall|j: int| 0 <= j < w.len() ==> w[j] == s[j]);
            assert(k >= 1) by {
                assert(!is_space_char(s[0]));
            }
        }
        let rest = words_of(s.subrange(k, s.len() as int));
        assert(words_of(s) == seq![w] + rest);
        assert forall|i: int| 0 <= i < words_of(s).len() implies is_plain_word(
            #[trigger] words_of(s)[i],
        ) by {
            if i == 0 {
                assert(words_of(s)[0] == w);
            } else {
                assert(words_of(s)[i] == rest[i - 1]);
            }
        }
    }
}

/// Words joined by single spaces.
pub open spec fn join_of(ws: Seq<Seq<char>>) -> Seq<char>
    decreases ws.len(),
{
    if ws.len() == 0 {
        Seq::empty()
    } else if ws.len() == 1 {
        ws[0]
    } else {
        ws[0] + seq![' '] + join_of(ws.subrange(1, ws.len() as int))
    }
}

/// Splitting a join of plain words gives the words back.
pub proof fn lemma_words_of_join(ws: Seq<Seq<char>>)
    requires
        all_plain_words(ws),
    ensures
        words_of(join_of(ws)) == ws,
    decreases ws.len(),
{
    if ws.len() == 0 {
        assert(words_of(join_of(ws)) =~= ws);
    } else if ws.len() == 1 {
        let w = ws[0];
        assert(is_plain_word(w));
        lemma_next_space_val(w, 0, w.len() as int);
        assert(next_space(w, 0) == w.len() as int);
        assert(w.subrange(0, w.len() as int) =~= w);
        assert(w.subrange(w.len() as int, w.len() as int).len() == 0);
        assert(words_of(w.subrange(w.len() as int, w.len() as int)) =~= Seq::<
            Seq<char>,
        >::empty());
        assert(w.len() > 0 && !is_space_char(w[0]));
        assert(words_of(w) == seq![w.subrange(0, w.len() as int)] + words_of(
            w.subrange(w.len() as int, w.len() as int),
        ));
        assert(words_of(w) =~= seq![w]);
        assert(words_of(join_of(ws)) =~= ws);
    } else {
        let w = ws[0];
        let rest = ws.subrange(1, ws.len() as int);
        let s = join_of(ws);
        let t = join_of(rest);
        assert(s == w + seq![' '] + t);
        assert(is_plain_word(w));
        assert(s.len() == w.len() + 1 + t.len());
        assert(forall|j: int| 0 <= j < w.len() ==> s[j] == w[j]);
        assert(s[w.len() as int] == ' ');
        lemma_next_space_val(s, 0, w.len() as int);
        assert(next_space(s, 0) == w.len() as int);
        assert(!is_space_char(s[0]));
        assert(s.subrange(0, w.len() as int) =~= w);
        let after = s.subrange(w.len() as int, s.len() as int);
        assert(after[0] == ' ');
        assert(is_space_char(after[0]));
        assert(after.subrange(1, after.len() as int) =~= t);
        lemma_words_of_join(rest);
        assert(words_of(s) == seq![w] + words_of(after));
        assert(words_of(after) == words_of(t));
        assert(words_of(s) =~= ws);
    }
}

/// The whitespace-separated words of a string, each as its own `String`.
pub fn split_words(s: &str) -> (ws: Vec<String>)
    ensures
        ws.deep_view() == words_of(s@),
{
    let cs = chars_of(s);
    let n = cs.len();
    let mut ws: Vec<String> = Vec::new();
    let mut i: usize = 0;
    proof {
        assert(cs@.subrange(0, n as int) =~= s@);
    }
    while i < n
        invariant
            cs@ == s@,
            n == cs@.len(),
            i <= n,
            words_of(s@) == ws.deep_view() + words_of(cs@.subrange(i as int, n as int)),
        decreases n - i,
    {
        let ghost pre = cs@.subrange(i as int, n as int);
        if is_space(cs[i]) {
            proof {
                assert(pre[0] == cs@[i as int]);
                assert(pre.subrange(1, pre.len() as int) =~= cs@.subrange(
                    i as int + 1,
                    n as int,
                ));
                assert(words_of(pre) == words_of(cs@.subrange(i as int + 1, n as int)));
            }
            i = i + 1;
        } else {
            // scan to the end of the word
            let start = i;
            let mut j = i;
            while j < n && !is_space(cs[j])
                invariant
                    cs@ == s@,
                    n == cs@.len(),
                    start <= j <= n,
                    forall|q: int| start <= q < j ==> !is_space_char(cs@[q]),
                decreases n - j,
            {
                j = j + 1;
            }
            let mut wchars: Vec<char> = Vec::new();
            let mut q = start;
            while q < j
                invariant
                    cs@ == s@,
                    start <= q <= j <= n,
                    n == cs@.len(),
                    wchars@ == cs@.subrange(start as int, q as int),
                decreases j - q,
            {
                wchars.push(cs[q]);
                proof {
                    assert(wchars@ =~= cs@.subrange(start as int, q as int + 1));
                }
                q = q + 1;
            }
            let w = string_from_chars(&wchars);
            proof {
                let ghost wseq = cs@.subrange(start as int, j as int);
                assert(pre.len() == n - start);
                assert(forall|t: int| 0 <= t < pre.len() ==> pre[t] == cs@[start + t]);
                assert(forall|t: int| 0 <= t < (j - start) ==> !is_space_char(pre[t]));
                if j < n {
                    assert(is_space_char(pre[(j - start) as int]));
                }
                lemma_next_space_val(pre, 0, j - start);
                assert(next_space(pre, 0) == j - start);
                assert(!is_space_char(pre[0]));
                assert(pre.subrange(0, j - start) =~= wseq);
                assert(pre.subrange(j - start, pre.len() as int) =~= cs@.subrange(
                    j as int,
                    n as int,
                ));
                assert(words_of(pre) == seq![wseq] + words_of(cs@.subrange(j as int, n as int)));
                assert(w@ == wseq);
            }
            let ghost old_ws = ws.deep_view();
            ws.push(w);
            proof {
                assert(ws.deep_view() =~= old_ws + seq![w@]);
                assert(ws.deep_view() + words_of(cs@.subrange(j as int, n as int)) =~= old_ws
                    + words_of(pre));
            }
            i = j;
        }
    }
    proof {
        assert(cs@.subrange(n as int, n as int).len() == 0);
        assert(words_of(cs@.subrange(i as int, n as int)) =~= Seq::<Seq<char>>::empty());
        assert(ws.deep_view() + Seq::<Seq<char>>::empty() =~= ws.deep_view());
    }
    ws
}

/// Join words with single spaces.
pub fn join_words(ws: &Vec<String>) -> (r: String)
    ensures
        r@ == join_of(ws.deep_view()),
{
    let mut out: Vec<char> = Vec::new();
    let n = ws.len();
    let mut i: usize = 0;
    while i < n
        invariant
            n == ws.len(),
            i <= n,
            i == 0 ==> out@ =~= Seq::<char>::empty(),
            0 < i ==> out@ =~= join_of(ws.deep_view().subrange(0, i as int)),
        decreases n - i,
    {
        if i > 0 {
            out.push(' ');
        }
        let wc = chars_of(ws[i].as_str());
        let mut q: usize = 0;
        let ghost out_base = out@;
        while q < wc.len()
            invariant
                q <= wc.len(),
                out@ == out_base + wc@.subrange(0, q as int),
            decreases wc.len() - q,
        {
            out.push(wc[q]);
            proof {
                assert(out@ =~= out_base + wc@.subrange(0, q as int + 1));
            }
            q = q + 1;
        }
        proof {
            assert(out@ =~= out_base + wc@);
            let dv = ws.deep_view();
            assert(wc@ == dv[i as int]);
            lemma_join_snoc(dv, i as int);
            if i == 0 {
                assert(out@ =~= join_of(dv.subrange(0, 1)));
            } else {
                assert(out@ =~= join_of(dv.subrange(0, i as int)) + seq![' '] + dv[i as int]);
                assert(out@ =~= join_of(dv.subrange(0, i as int + 1)));
            }
        }
        i = i + 1;
    }
    proof {
        if n > 0 {
            assert(ws.deep_view().subrange(0, n as int) =~= ws.deep_view());
        }
    }
    string_from_chars(&out)
}

/// Appending one word to a join appends a space and the word.
pub proof fn lemma_join_snoc(ws: Seq<Seq<char>>, i: int)
    requires
        0 <= i < ws.len(),
    ensures
        i == 0 ==> join_of(ws.subrange(0, 1)) == ws[0],
        i > 0 ==> join_of(ws.subrange(0, i + 1)) == join_of(ws.subrange(0, i)) + seq![' ']
            + ws[i],
    decreases i,
{
    if i == 0 {
        assert(ws.subrange(0, 1).len() == 1);
        assert(join_of(ws.subrange(0, 1)) == ws.subrange(0, 1)[0]);
    } else {
        let a = ws.subrange(0, i + 1);
        let b = ws.subrange(0, i);
        if i == 1 {
            assert(a.len() == 2);
            assert(a.subrange(1, 2) =~= seq![ws[1]]);
            assert(join_of(a.subrange(1, 2)) == ws[1]);
            assert(join_of(a) == a[0] + seq![' '] + join_of(a.subrange(1, 2)));
            assert(join_of(b) == ws[0]);
            assert(join_of(a) =~= join_of(b) + seq![' '] + ws[1]);
        } else {
            lemma_join_snoc(ws.subrange(1, ws.len() as int), i - 1);
            let t = ws.subrange(1, ws.len() as int);
            assert(a.subrange(1, a.len() as int) =~= t.subrange(0, i));
            assert(b.subrange(1, b.len() as int) =~= t.subrange(0, i - 1));
            assert(join_of(a) == a[0] + seq![' '] + join_of(t.subrange(0, i)));
            assert(join_of(b) == b[0] + seq![' '] + join_of(t.subrange(0, i - 1)));
            assert(t.subrange(0, i)[i - 1] == ws[i]);
            assert(join_of(t.subrange(0, i)) == join_of(t.subrange(0, i - 1)) + seq![' ']
                + ws[i]);
            assert(join_of(a) =~= join_of(b) + seq![' '] + ws[i]);
        }
    }
}

/// Append one word, tracked at the level of character sequences.
pub fn push_word(r: &mut Vec<String>, w: String)
    ensures
        final(r).deep_view() == old(r).deep_view().push(w@),
{
    let ghost prev = old(r).deep_view();
    let ghost preseq = old(r)@;
    let ghost wv = w@;
    r.push(w);
    proof {
        assert forall|i: int| 0 <= i < r.deep_view().len() implies r.deep_view()[i] == prev.push(
            wv,
        )[i] by {
            assert(r.deep_view()[i] == r@[i]@);
            if i < preseq.len() {
                assert(r@[i] == preseq[i]);
                assert(prev[i] == preseq[i]@);
            } else {
                assert(r@[i] == preseq.push(w)[i]);
            }
        }
        assert(r.deep_view() =~= prev.push(wv));
    }
}

/// The lowercase form of every word.
pub fn lower_all(ws: &Vec<String>) -> (r: Vec<String>)
    ensures
        r@.len() == ws@.len(),
        forall|j: int| 0 <= j < ws@.len() ==> #[trigger] r@[j]@ == crate::chars::lower_of(
            ws.deep_view()[j],
        ),
{
    let mut r: Vec<String> = Vec::new();
    let mut i: usize = 0;
    while i < ws.len()
        invariant
            i <= ws.len(),
            r@.len() == i,
            forall|j: int| 0 <= j < i ==> #[trigger] r@[j]@ == crate::chars::lower_of(
                ws.deep_view()[j],
            ),
        decreases ws.len() - i,
    {
        r.push(crate::chars::to_lower(ws[i].as_str()));
        i = i + 1;
    }
    r
}

/// The words from position `from` on, cloned.
pub fn tail_words(v: &Vec<String>, from: usize) -> (r: Vec<String>)
    requires
        from <= v.len(),
    ensures
        r.deep_view() == v.deep_view().subrange(from as int, v@.len() as int),
{
    let mut r: Vec<String> = Vec::new();
    let mut t = from;
    while t < v.len()
        invariant
            from <= t <= v.len(),
            r@.len() == t - from,
            forall|i: int| 0 <= i < r@.len() ==> #[trigger] r@[i]@ == v.deep_view()[from + i],
        decreases v.len() - t,
    {
        let w = v[t].clone();
        proof {
            assert(w@ == v.deep_view()[t as int]);
        }
        r.push(w);
        t = t + 1;
    }
    proof {
        assert forall|i: int| 0 <= i < r.deep_view().len() implies r.deep_view()[i]
            == v.deep_view().subrange(from as int, v@.len() as int)[i] by {
            assert(r.deep_view()[i] == r@[i]@);
        }
        assert(r.deep_view() =~= v.deep_view().subrange(from as int, v@.len() as int));
    }
    r
}

/// Leading whitespace removed.
pub open spec fn trim_start_of(s: Seq<char>) -> Seq<char>
    decreases s.len(),
{
    if s.len() > 0 && is_space_char(s[0]) {
        trim_start_of(s.subrange(1, s.len() as int))
    } else {
        s
    }
}

/// Trailing whitespace removed.
pub open spec fn trim_end_of(s: Seq<char>) -> Seq<char>
    decreases s.len(),
{
    if s.len() > 0 && is_space_char(s[s.len() - 1]) {
        trim_end_of(s.subrange(0, s.len() - 1))
    } else {
        s
    }
}

/// Whitespace removed from both ends, as `str::trim` does.
pub open spec fn trim_of(s: Seq<char>) -> Seq<char> {
    trim_end_of(trim_start_of(s))
}

/// No whitespace at either end.
pub open spec fn is_trimmed(s: Seq<char>) -> bool {
    (s.len() > 0 ==> !is_space_char(s[0])) && (s.len() > 0 ==> !is_space_char(s[s.len() - 1]))
}

pub proof fn lemma_trim_start_props(s: Seq<char>)
    ensures
        trim_start_of(s).len() > 0 ==> !is_space_char(trim_start_of(s)[0]),
        exists|a: int|
            0 <= a <= s.len() && trim_start_of(s) == s.subrange(a, s.len() as int),
    decreases s.len(),
{
    if s.len() > 0 && is_space_char(s[0]) {
        let t = s.subrange(1, s.len() as int);
        lemma_trim_start_props(t);
        let a0 = choose|a: int|
            0 <= a <= t.len() && trim_start_of(t) == t.subrange(a, t.len() as int);
        assert(t.subrange(a0, t.len() as int) =~= s.subrange(a0 + 1, s.len() as int));
    } else {
        assert(s.subrange(0, s.len() as int) =~= s);
    }
}

pub proof fn lemma_trim_end_props(s: Seq<char>)
    ensures
        trim_end_of(s).len() > 0 ==> !is_space_char(
            trim_end_of(s)[trim_end_of(s).len() - 1],
        ),
        exists|b: int| 0 <= b <= s.len() && trim_end_of(s) == s.subrange(0, b),
        s.len() > 0 && !is_space_char(s[0]) && trim_end_of(s).len() > 0 ==> !is_space_char(
            trim_end_of(s)[0],
        ),
    decreases s.len(),
{
    if s.len() > 0 && is_space_char(s[s.len() - 1]) {
        let t = s.subrange(0, s.len() - 1);
        lemma_trim_end_props(t);
        let b0 = choose|b: int| 0 <= b <= t.len() && trim_end_of(t) == t.subrange(0, b);
        assert(t.subrange(0, b0) =~= s.subrange(0, b0));
    } else {
        assert(s.subrange(0, s.len() as int) =~= s);
    }
}

pub proof fn lemma_trim_of_trimmed(s: Seq<char>)
    ensures
        is_trimmed(trim_of(s)),
    decreases s.len(),
{
    lemma_trim_start_props(s);
    lemma_trim_end_props(trim_start_of(s));
}

/// Trimming a trimmed sequence changes nothing.
pub proof fn lemma_trim_idempotent(s: Seq<char>)
    requires
        is_trimmed(s),
    ensures
        trim_of(s) == s,
{
    assert(trim_start_of(s) == s);
    assert(trim_end_of(s) == s);
}

/// The characters of the trimmed form of `v`.
pub fn trim_chars(v: &Vec<char>) -> (r: Vec<char>)
    ensures
        r@ == trim_of(v@),
{
    let n = v.len();
    proof {
        assert(v@.subrange(0, n as int) =~= v@);
    }
    let mut a: usize = 0;
    while a < n && is_space(v[a])
        invariant
            n == v@.len(),
            a <= n,
            trim_start_of(v@) == trim_start_of(v@.subrange(a as int, n as int)),
        decreases n - a,
    {
        proof {
            let pre = v@.subrange(a as int, n as int);
            assert(pre[0] == v@[a as int]);
            assert(pre.subrange(1, pre.len() as int) =~= v@.subrange(a as int + 1, n as int));
        }
        a = a + 1;
    }
    proof {
        let pre = v@.subrange(a as int, n as int);
        if a < n {
            assert(!is_space_char(pre[0]));
        }
        assert(trim_start_of(pre) == pre);
        assert(trim_start_of(v@) == v@.subrange(a as int, n as int));
    }
    let mut b: usize = n;
    while b > a && is_space(v[b - 1])
        invariant
            n == v@.len(),
            a <= b <= n,
            trim_start_of(v@) == v@.subrange(a as int, n as int),
            a < n ==> !is_space_char(v@[a as int]),
            trim_end_of(trim_start_of(v@)) == trim_end_of(v@.subrange(a as int, b as int)),
        decreases b,
    {
        proof {
            let pre = v@.subrange(a as int, b as int);
            assert(pre[pre.len() - 1] == v@[b as int - 1]);
            assert(pre.subrange(0, pre.len() - 1) =~= v@.subrange(a as int, b as int - 1));
        }
        b = b - 1;
    }
    proof {
        let pre = v@.subrange(a as int, b as int);
        if b > a {
            assert(pre[pre.len() - 1] == v@[b as int - 1]);
            assert(!is_space_char(pre[pre.len() - 1]));
        }
        assert(trim_end_of(pre) == pre);
    }
    let mut r: Vec<char> = Vec::new();
    let mut q = a;
    while q < b
        invariant
            a <= q <= b <= n,
            n == v@.len(),
            r@ == v@.subrange(a as int, q as int),
        decreases b - q,
    {
        r.push(v[q]);
        proof {
            assert(r@ =~= v@.subrange(a as int, q as int + 1));
        }
        q = q + 1;
    }
    proof {
        assert(r@ =~= v@.subrange(a as int, b as int));
    }
    r
}

/// The trimmed form of a string.
pub fn trim_str(s: &str) -> (r: String)
    ensures
        r@ == trim_of(s@),
{
    let cs = chars_of(s);
    let t = trim_chars(&cs);
    string_from_chars(&t)
}

} // verus!
