//! Byte-sequence helpers shared by the XML rewriters: pattern search,
//! concatenation, and decimal rendering of numbers.

use vstd::prelude::*;

verus! {

/// The pattern `pat` occurs in `s` starting at index `i`.
pub open spec fn is_match_at(s: Seq<u8>, pat: Seq<u8>, i: int) -> bool {
    0 <= i && i + pat.len() <= s.len() && s.subrange(i, i + pat.len() as int) == pat
}

/// The pattern `pat` occurs somewhere in `s`.
pub open spec fn contains_seq(s: Seq<u8>, pat: Seq<u8>) -> bool {
    exists|i: int| is_match_at(s, pat, i)
}

/// Exact equality of two byte slices.
pub fn bytes_eq(a: &[u8], b: &[u8]) -> (r: bool)
    ensures
        r <==> a@ == b@,
{
    if a.len() != b.len() {
        proof {
            assert(a@ != b@) by {
                assert(a@.len() != b@.len());
            }
        }
        return false;
    }
    let n: usize = a.len();
    let mut i: usize = 0;
    while i < n
        invariant
            n == a@.len() && n == b@.len(),
            0 <= i <= n,
            forall|j: int| 0 <= j < i ==> a@[j] == b@[j],
        decreases n - i,
    {
        if a[i] != b[i] {
            return false;
        }
        i = i + 1;
    }
    proof {
        assert(a@ =~= b@);
    }
    true
}

/// Does `pat` occur in `s` starting at `i`?
pub fn match_at(s: &[u8], pat: &[u8], i: usize) -> (r: bool)
    requires
        i + pat@.len() <= s@.len(),
    ensures
        r <==> is_match_at(s@, pat@, i as int),
{
    let n: usize = s.len();
    let m: usize = pat.len();
    let mut j: usize = 0;
    while j < m
        invariant
            n == s@.len(),
            m == pat@.len(),
            i + m <= n,
            0 <= j <= m,
            forall|k: int| 0 <= k < j ==> s@[i + k] == pat@[k],
        decreases m - j,
    {
        if s[i + j] != pat[j] {
            proof {
                assert(s@.subrange(i as int, i + pat@.len() as int)[j as int] == s@[i + j]);
            }
            return false;
        }
        j = j + 1;
    }
    proof {
        assert(s@.subrange(i as int, i + pat@.len() as int) =~= pat@);
    }
    true
}

/// Does `pat` occur anywhere in `s`?
pub fn contains_pat(s: &[u8], pat: &[u8]) -> (r: bool)
    ensures
        r <==> contains_seq(s@, pat@),
{
    if pat.len() > s.len() {
        return false;
    }
    let last: usize = s.len() - pat.len();
    let mut i: usize = 0;
    loop
        invariant
            pat@.len() <= s@.len(),
            last == s@.len() - pat@.len(),
            0 <= i <= last,
            forall|k: int| 0 <= k < i ==> !is_match_at(s@, pat@, k),
        decreases last - i,
    {
        if match_at(s, pat, i) {
            return true;
        }
        if i == last {
            return false;
        }
        i = i + 1;
    }
}

/// Append all of `src` to `dst`.
pub fn extend_bytes(dst: &mut Vec<u8>, src: &[u8])
    ensures
        final(dst)@ == old(dst)@ + src@,
{
    let n: usize = src.len();
    let mut i: usize = 0;
    while i < n
        invariant
            n == src@.len(),
            0 <= i <= n,
            dst@ == old(dst)@ + src@.subrange(0, i as int),
        decreases n - i,
    {
        dst.push(src[i]);
        proof {
            assert(old(dst)@ + src@.subrange(0, i as int) + seq![src@[i as int]] =~= old(dst)@
                + src@.subrange(0, i + 1));
        }
        i = i + 1;
    }
    proof {
        assert(old(dst)@ + src@.subrange(0, n as int) =~= old(dst)@ + src@);
    }
}

/// A pattern found in a prefix is found in the whole.
pub proof fn lemma_contains_prefix(a: Seq<u8>, b: Seq<u8>, pat: Seq<u8>)
    requires
        contains_seq(a, pat),
    ensures
        contains_seq(a + b, pat),
{
    let i = choose|i: int| is_match_at(a, pat, i);
    assert((a + b).subrange(i, i + pat.len() as int) =~= a.subrange(i, i + pat.len() as int));
    assert(is_match_at(a + b, pat, i));
}

/// A fresh copy of a byte vector.
pub fn clone_bytes(v: &Vec<u8>) -> (r: Vec<u8>)
    ensures
        r@ == v@,
{
    let mut out: Vec<u8> = Vec::new();
    extend_bytes(&mut out, v.as_slice());
    proof {
        assert(Seq::<u8>::empty() + v@ =~= v@);
    }
    out
}

/// The decimal digit sequence of `n` in ASCII, most significant digit first.
pub open spec fn dec_rep(n: nat) -> Seq<u8>
    decreases n,
{
    if n < 10 {
        seq![(48 + n) as u8]
    } else {
        dec_rep(n / 10).push((48 + n % 10) as u8)
    }
}

pub proof fn lemma_dec_rep_digits(n: nat)
    ensures
        dec_rep(n).len() >= 1,
        forall|i: int| 0 <= i < dec_rep(n).len() ==> 48 <= #[trigger] dec_rep(n)[i] <= 57,
    decreases n,
{
    if n >= 10 {
        lemma_dec_rep_digits(n / 10);
    }
}

pub proof fn lemma_dec_rep_len_mono(n: nat, m: nat)
    requires
        n < m,
    ensures
        dec_rep(n).len() <= dec_rep(m).len(),
    decreases m,
{
    if n >= 10 {
        if n / 10 < m / 10 {
            lemma_dec_rep_len_mono(n / 10, m / 10);
        }
    } else if m >= 10 {
        lemma_dec_rep_digits(m / 10);
    }
}

/// Distinct numbers have distinct decimal representations.
pub proof fn lemma_dec_rep_injective(n: nat, m: nat)
    requires
        n != m,
    ensures
        dec_rep(n) != dec_rep(m),
    decreases n + m,
{
    if n < 10 && m < 10 {
        assert(dec_rep(n)[0] != dec_rep(m)[0]);
    } else if n < 10 {
        lemma_dec_rep_digits(m / 10);
        assert(dec_rep(m).len() >= 2);
    } else if m < 10 {
        lemma_dec_rep_digits(n / 10);
        assert(dec_rep(n).len() >= 2);
    } else {
        if n % 10 != m % 10 {
            assert(dec_rep(n).last() != dec_rep(m).last());
            assert(dec_rep(n) != dec_rep(m)) by {
                if dec_rep(n) == dec_rep(m) {
                    assert(dec_rep(n).last() == dec_rep(m).last());
                }
            }
        } else {
            lemma_dec_rep_injective(n / 10, m / 10);
            if dec_rep(n) == dec_rep(m) {
                assert(dec_rep(n).drop_last() =~= dec_rep(n / 10));
                assert(dec_rep(m).drop_last() =~= dec_rep(m / 10));
                assert(false);
            }
        }
    }
}

/// Render `n` as ASCII decimal digits.
pub fn u64_to_dec(n: u64) -> (r: Vec<u8>)
    ensures
        r@ == dec_rep(n as nat),
    decreases n,
{
    if n < 10 {
        let mut v: Vec<u8> = Vec::new();
        v.push(48 + n as u8);
        proof {
            assert(v@ =~= dec_rep(n as nat));
        }
        v
    } else {
        let mut v = u64_to_dec(n / 10);
        v.push(48 + (n % 10) as u8);
        v
    }
}

} // verus!
