//! Small matching utilities over character sequences: prefix tests and
//! whitespace skipping, with index-based executable forms.

use vstd::prelude::*;
use crate::chars::{is_space_char, is_space, chars_of};
use crate::words::trim_start_of;

verus! {

/// `s` begins with `p`.
pub open spec fn starts_with(s: Seq<char>, p: Seq<char>) -> bool {
    s.len() >= p.len() && s.subrange(0, p.len() as int) == p
}

/// Skipping twice is skipping the sum.
pub proof fn lemma_skip_skip(s: Seq<char>, a: int, b: int)
    requires
        0 <= a,
        0 <= b,
        a + b <= s.len(),
    ensures
        s.skip(a).skip(b) == s.skip(a + b),
{
    assert(s.skip(a).skip(b) =~= s.skip(a + b));
}

/// Trimming the start never lengthens a sequence.
pub proof fn lemma_trim_start_len(s: Seq<char>)
    ensures
        trim_start_of(s).len() <= s.len(),
    decreases s.len(),
{
    if s.len() > 0 && is_space_char(s[0]) {
        lemma_trim_start_len(s.subrange(1, s.len() as int));
    }
}

/// First index at or past `i` holding a non-whitespace character; the suffix
/// there is the start-trimmed suffix at `i`.
pub fn skip_spaces_idx(v: &Vec<char>, i: usize) -> (j: usize)
    requires
        i <= v.len(),
    ensures
        i <= j <= v@.len(),
        v@.skip(j as int) == trim_start_of(v@.skip(i as int)),
{
    let n = v.len();
    let mut j = i;
    while j < n && is_space(v[j])
        invariant
            i <= j <= n,
            n == v@.len(),
            trim_start_of(v@.skip(i as int)) == trim_start_of(v@.skip(j as int)),
        decreases n - j,
    {
        proof {
            let pre = v@.skip(j as int);
            assert(pre[0] == v@[j as int]);
            assert(pre.subrange(1, pre.len() as int) =~= v@.skip(j as int + 1));
        }
        j = j + 1;
    }
    proof {
        let pre = v@.skip(j as int);
        if j < n {
            assert(pre[0] == v@[j as int]);
            assert(!is_space_char(pre[0]));
        }
        assert(trim_start_of(pre) == pre);
    }
    j
}

/// Whether `v` holds exactly the characters of `s`.
pub fn chars_eq_str(v: &Vec<char>, s: &str) -> (r: bool)
    ensures
        r == (v@ == s@),
{
    proof {
        assert(v@.skip(0) =~= v@);
    }
    let n = v.len();
    let sl = s.unicode_len();
    if n != sl {
        return false;
    }
    let r = starts_with_at(v, 0, s);
    proof {
        if starts_with(v@, s@) {
            assert(v@.subrange(0, s@.len() as int) =~= v@);
        }
        if v@ == s@ {
            assert(v@.subrange(0, s@.len() as int) =~= s@);
        }
    }
    r
}

/// Whether the suffix of `v` at `i` begins with the pattern `pat`.
pub fn starts_with_at(v: &Vec<char>, i: usize, pat: &str) -> (r: bool)
    requires
        i <= v.len(),
    ensures
        r == starts_with(v@.skip(i as int), pat@),
{
    let pc = chars_of(pat);
    let m = pc.len();
    let n = v.len();
    if n - i < m {
        assert(v@.skip(i as int).len() < pat@.len());
        return false;
    }
    let mut q: usize = 0;
    while q < m
        invariant
            i <= n,
            n == v@.len(),
            m == pc@.len(),
            pc@ == pat@,
            m <= n - i,
            q <= m,
            forall|t: int| 0 <= t < q ==> v@[i + t] == pc@[t],
        decreases m - q,
    {
        if v[i + q] != pc[q] {
            proof {
                let s = v@.skip(i as int);
                assert(s[q as int] == v@[i + q as int]);
                assert(s.subrange(0, m as int)[q as int] != pat@[q as int]);
            }
            return false;
        }
        q = q + 1;
    }
    proof {
        let s = v@.skip(i as int);
        assert(s.subrange(0, m as int) =~= pat@);
    }
    true
}

} // verus!
