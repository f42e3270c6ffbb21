//! Levenshtein edit distance: the specification, facts about it, and the
//! call into the string-similarity crate that computes it.

use vstd::prelude::*;

verus! {

pub open spec fn min3(x: nat, y: nat, z: nat) -> nat {
    if x <= y && x <= z {
        x
    } else if y <= z {
        y
    } else {
        z
    }
}

/// The minimum number of character insertions, deletions and substitutions
/// that turn `a` into `b`.
pub open spec fn lev(a: Seq<char>, b: Seq<char>) -> nat
    decreases a.len() + b.len(),
{
    if a.len() == 0 {
        b.len()
    } else if b.len() == 0 {
        a.len()
    } else {
        let tail_cost: nat = if a.last() == b.last() {
            0
        } else {
            1
        };
        min3(
            lev(a.drop_last(), b.drop_last()) + tail_cost,
            lev(a.drop_last(), b) + 1,
            lev(a, b.drop_last()) + 1,
        )
    }
}

pub open spec fn max_nat(x: nat, y: nat) -> nat {
    if x >= y {
        x
    } else {
        y
    }
}

/// The distance never exceeds the longer length.
pub proof fn lemma_lev_le_max(a: Seq<char>, b: Seq<char>)
    ensures
        lev(a, b) <= max_nat(a.len(), b.len()),
    decreases a.len() + b.len(),
{
    if a.len() == 0 || b.len() == 0 {
    } else {
        lemma_lev_le_max(a.drop_last(), b.drop_last());
        lemma_lev_le_max(a.drop_last(), b);
        lemma_lev_le_max(a, b.drop_last());
    }
}

/// Relies on strsim::levenshtein: the minimum number of character
/// insertions, deletions and substitutions required to change one string
/// into the other.
#[verifier::external_body]
pub fn levenshtein_distance(a: &str, b: &str) -> (r: usize)
    ensures
        r as nat == lev(a@, b@),
{
    strsim::levenshtein(a, b)
}

/// Normalised similarity of two nonempty sequences reaches `thr_permille`
/// thousandths: `1000 * (1 - lev/max_len) >= thr_permille`.
pub open spec fn similarity_at_least(a: Seq<char>, b: Seq<char>, thr_permille: int) -> bool {
    let m = max_nat(a.len(), b.len());
    1000 * (m - lev(a, b)) >= thr_permille * m
}

/// Whether the normalised Levenshtein similarity of two character sequences
/// reaches a threshold given in thousandths.
pub fn check_similarity(a: &str, b: &str, thr_permille: u32) -> (r: bool)
    ensures
        r == similarity_at_least(a@, b@, thr_permille as int),
{
    let la = a.unicode_len();
    let lb = b.unicode_len();
    let m: usize = if la >= lb {
        la
    } else {
        lb
    };
    let d = levenshtein_distance(a, b);
    proof {
        lemma_lev_le_max(a@, b@);
    }
    let lhs: u128 = 1000u128 * ((m - d) as u128);
    let t: u128 = thr_permille as u128;
    let mw: u128 = m as u128;
    proof {
        assert(t * mw <= 0xffff_ffffu128 * 0xffff_ffff_ffff_ffffu128) by (nonlinear_arith)
            requires
                t <= 0xffff_ffffu128,
                mw <= 0xffff_ffff_ffff_ffffu128,
        ;
    }
    let rhs: u128 = t * mw;
    lhs >= rhs
}

} // verus!
