//! Text placeholder substitution: a single left-to-right scan that, at each
//! position, applies the longest registered placeholder matching there and
//! never rescans a substituted value.

use vstd::prelude::*;

use crate::bytes_util::{contains_seq, is_match_at, match_at};

verus! {

/// Key `k` of `pairs` is non-empty and matches `s` at position `i`.
pub open spec fn key_matches_at(s: Seq<u8>, pairs: Seq<(Seq<u8>, Seq<u8>)>, i: int, k: int) -> bool {
    0 <= k < pairs.len() && pairs[k].0.len() > 0 && is_match_at(s, pairs[k].0, i)
}

/// The best (longest, earliest-registered) key among the first `n` entries
/// of `pairs` that matches `s` at `i`.
pub open spec fn best_key_upto(s: Seq<u8>, pairs: Seq<(Seq<u8>, Seq<u8>)>, i: int, n: int) -> Option<
    int,
>
    decreases n,
{
    if n <= 0 {
        None
    } else {
        let prev = best_key_upto(s, pairs, i, n - 1);
        if key_matches_at(s, pairs, i, n - 1) {
            match prev {
                None => Some(n - 1),
                Some(j) => if pairs[n - 1].0.len() > pairs[j].0.len() {
                    Some(n - 1)
                } else {
                    Some(j)
                },
            }
        } else {
            prev
        }
    }
}

/// The best key of `pairs` matching `s` at `i`.
pub open spec fn best_key_at(s: Seq<u8>, pairs: Seq<(Seq<u8>, Seq<u8>)>, i: int) -> Option<int> {
    best_key_upto(s, pairs, i, pairs.len() as int)
}

/// The substitution of `pairs` in `s` from position `i` on.
pub open spec fn subst_from(s: Seq<u8>, pairs: Seq<(Seq<u8>, Seq<u8>)>, i: int) -> Seq<u8>
    decreases s.len() - i,
{
    if i < 0 || i >= s.len() {
        Seq::empty()
    } else {
        match best_key_at(s, pairs, i) {
            Some(k) => if key_matches_at(s, pairs, i, k) {
                pairs[k].1 + subst_from(s, pairs, i + pairs[k].0.len())
            } else {
                seq![s[i]] + subst_from(s, pairs, i + 1)
            },
            None => seq![s[i]] + subst_from(s, pairs, i + 1),
        }
    }
}

/// The full substitution of `pairs` in `s`.
pub open spec fn substitute_spec(s: Seq<u8>, pairs: Seq<(Seq<u8>, Seq<u8>)>) -> Seq<u8> {
    subst_from(s, pairs, 0)
}

/// Whatever `best_key_upto` returns matches at `i`, and no considered key
/// matching there is longer.
pub proof fn lemma_best_key_upto(s: Seq<u8>, pairs: Seq<(Seq<u8>, Seq<u8>)>, i: int, n: int)
    requires
        n <= pairs.len(),
    ensures
        best_key_upto(s, pairs, i, n) matches Some(k) ==> key_matches_at(s, pairs, i, k) && k < n,
        best_key_upto(s, pairs, i, n) matches Some(k) ==> forall|j: int|
            0 <= j < n && key_matches_at(s, pairs, i, j) ==> pairs[j].0.len() <= pairs[k].0.len(),
        best_key_upto(s, pairs, i, n) is None ==> forall|j: int|
            0 <= j < n ==> !key_matches_at(s, pairs, i, j),
    decreases n,
{
    if n > 0 {
        lemma_best_key_upto(s, pairs, i, n - 1);
    }
}

/// The deep view of an owned replacement list.
pub open spec fn pairs_view(pairs: Seq<(Vec<u8>, Vec<u8>)>) -> Seq<(Seq<u8>, Seq<u8>)> {
    pairs.map_values(|p: (Vec<u8>, Vec<u8>)| (p.0@, p.1@))
}

/// Find the best key of `pairs` matching `s` at `i`.
fn find_best_key(s: &[u8], pairs: &Vec<(Vec<u8>, Vec<u8>)>, i: usize) -> (r: Option<usize>)
    requires
        i < s@.len(),
    ensures
        match r {
            Some(k) => Some(k as int) == best_key_at(s@, pairs_view(pairs@), i as int),
            None => best_key_at(s@, pairs_view(pairs@), i as int) is None,
        },
{
    let ghost pv = pairs_view(pairs@);
    let n: usize = pairs.len();
    let slen: usize = s.len();
    let mut best: Option<usize> = None;
    let mut k: usize = 0;
    while k < n
        invariant
            n == pv.len(),
            slen == s@.len(),
            i < slen,
            pv == pairs_view(pairs@),
            0 <= k <= n,
            match best {
                Some(b) => Some(b as int) == best_key_upto(s@, pv, i as int, k as int) && b < k,
                None => best_key_upto(s@, pv, i as int, k as int) is None,
            },
        decreases n - k,
    {
        proof {
            assert(pv[k as int] == (pairs@[k as int].0@, pairs@[k as int].1@));
        }
        let key: &Vec<u8> = &pairs[k].0;
        let matches = if key.len() > 0 && key.len() <= slen - i {
            match_at(s, key.as_slice(), i)
        } else {
            false
        };
        proof {
            if key@.len() > 0 && i + key@.len() > s@.len() {
                assert(!is_match_at(s@, pv[k as int].0, i as int));
            }
        }
        if matches {
            let take_it = match best {
                None => true,
                Some(b) => {
                    proof {
                        assert(pv[b as int] == (pairs@[b as int].0@, pairs@[b as int].1@));
                    }
                    key.len() > pairs[b].0.len()
                },
            };
            if take_it {
                best = Some(k);
            }
        }
        k = k + 1;
    }
    best
}

/// Apply every replacement of `pairs` to `s` in one left-to-right scan,
/// taking the longest matching key at each position.
pub fn substitute(s: &[u8], pairs: &Vec<(Vec<u8>, Vec<u8>)>) -> (r: Vec<u8>)
    ensures
        r@ == substitute_spec(s@, pairs_view(pairs@)),
{
    let ghost pv = pairs_view(pairs@);
    let slen: usize = s.len();
    let mut out: Vec<u8> = Vec::new();
    let mut i: usize = 0;
    while i < slen
        invariant
            slen == s@.len(),
            pv == pairs_view(pairs@),
            0 <= i <= slen,
            substitute_spec(s@, pv) == out@ + subst_from(s@, pv, i as int),
        decreases slen - i,
    {
        match find_best_key(s, pairs, i) {
            Some(k) => {
                proof {
                    lemma_best_key_upto(s@, pv, i as int, pv.len() as int);
                    assert(pv[k as int] == (pairs@[k as int].0@, pairs@[k as int].1@));
                }
                let ghost prev = out@;
                crate::bytes_util::extend_bytes(&mut out, pairs[k].1.as_slice());
                proof {
                    assert(prev + (pv[k as int].1 + subst_from(s@, pv, i + pv[k as int].0.len()))
                        =~= out@ + subst_from(s@, pv, i + pv[k as int].0.len()));
                }
                i = i + pairs[k].0.len();
            },
            None => {
                let ghost prev = out@;
                out.push(s[i]);
                proof {
                    assert(prev + (seq![s@[i as int]] + subst_from(s@, pv, i + 1)) =~= out@
                        + subst_from(s@, pv, i + 1));
                }
                i = i + 1;
            },
        }
    }
    proof {
        assert(out@ + subst_from(s@, pv, i as int) =~= out@);
    }
    out
}

/// Where no registered key occurs in `s`, the substitution leaves `s`
/// unchanged.
pub proof fn lemma_substitute_untouched(s: Seq<u8>, pairs: Seq<(Seq<u8>, Seq<u8>)>)
    requires
        forall|k: int, i: int|
            0 <= k < pairs.len() ==> !(#[trigger] is_match_at(s, pairs[k].0, i)) || pairs[k].0.len()
                == 0,
    ensures
        substitute_spec(s, pairs) == s,
{
    lemma_subst_from_untouched(s, pairs, 0);
    assert(substitute_spec(s, pairs) =~= s);
}

proof fn lemma_subst_from_untouched(s: Seq<u8>, pairs: Seq<(Seq<u8>, Seq<u8>)>, i: int)
    requires
        0 <= i <= s.len(),
        forall|k: int, j: int|
            0 <= k < pairs.len() ==> !(#[trigger] is_match_at(s, pairs[k].0, j)) || pairs[k].0.len()
                == 0,
    ensures
        subst_from(s, pairs, i) == s.skip(i),
    decreases s.len() - i,
{
    if i >= s.len() {
        assert(subst_from(s, pairs, i) =~= s.skip(i));
    } else {
        lemma_best_key_upto(s, pairs, i, pairs.len() as int);
        assert(best_key_at(s, pairs, i) is None);
        lemma_subst_from_untouched(s, pairs, i + 1);
        assert(seq![s[i]] + s.skip(i + 1) =~= s.skip(i));
    }
}

/// Keys of a replacement list are pairwise distinct.
pub open spec fn keys_unique(pairs: Seq<(Seq<u8>, Seq<u8>)>) -> bool {
    forall|j: int, k: int|
        0 <= j < k < pairs.len() ==> (#[trigger] pairs[j]).0 != (#[trigger] pairs[k]).0
}

/// Where the whole string is exactly a registered key, the substitution is
/// exactly its value.
pub proof fn lemma_substitute_exact(s: Seq<u8>, pairs: Seq<(Seq<u8>, Seq<u8>)>, k: int)
    requires
        keys_unique(pairs),
        0 <= k < pairs.len(),
        pairs[k].0 == s,
        s.len() > 0,
    ensures
        substitute_spec(s, pairs) == pairs[k].1,
{
    assert(s.subrange(0, s.len() as int) =~= s);
    assert(key_matches_at(s, pairs, 0, k));
    lemma_best_key_upto(s, pairs, 0, pairs.len() as int);
    let j = best_key_at(s, pairs, 0).unwrap();
    assert(key_matches_at(s, pairs, 0, j));
    assert(pairs[j].0.len() >= s.len());
    assert(pairs[j].0.len() <= s.len());
    assert(pairs[j].0 =~= s.subrange(0, pairs[j].0.len() as int));
    assert(pairs[j].0 =~= s);
    if j != k {
        assert(false);
    }
    assert(subst_from(s, pairs, s.len() as int) =~= Seq::<u8>::empty());
    assert(pairs[k].1 + Seq::<u8>::empty() =~= pairs[k].1);
}


/// Positions before `pos` contribute their bytes unchanged where no key
/// matches at them.
proof fn lemma_subst_copies(s: Seq<u8>, pairs: Seq<(Seq<u8>, Seq<u8>)>, i: int, pos: int)
    requires
        0 <= i <= pos <= s.len(),
        forall|j: int| i <= j < pos ==> #[trigger] best_key_at(s, pairs, j) is None,
    ensures
        subst_from(s, pairs, i) == s.subrange(i, pos) + subst_from(s, pairs, pos),
    decreases pos - i,
{
    if i == pos {
        assert(s.subrange(i, pos) =~= Seq::<u8>::empty());
        assert(s.subrange(i, pos) + subst_from(s, pairs, pos) =~= subst_from(s, pairs, pos));
    } else {
        lemma_subst_copies(s, pairs, i + 1, pos);
        assert(seq![s[i]] + (s.subrange(i + 1, pos) + subst_from(s, pairs, pos)) =~= s.subrange(
            i,
            pos,
        ) + subst_from(s, pairs, pos));
    }
}

/// Where a registered placeholder is the first and best match in a text,
/// the substitution keeps everything before it, emits its value in place,
/// and the result therefore contains the value.
pub proof fn lemma_substitute_occurrence(s: Seq<u8>, pairs: Seq<(Seq<u8>, Seq<u8>)>, k: int, pos: int)
    requires
        0 <= k < pairs.len(),
        0 <= pos <= s.len(),
        best_key_at(s, pairs, pos) == Some(k),
        forall|j: int| 0 <= j < pos ==> #[trigger] best_key_at(s, pairs, j) is None,
    ensures
        substitute_spec(s, pairs) == s.subrange(0, pos) + pairs[k].1 + subst_from(
            s,
            pairs,
            pos + pairs[k].0.len(),
        ),
        contains_seq(substitute_spec(s, pairs), pairs[k].1),
{
    lemma_best_key_upto(s, pairs, pos, pairs.len() as int);
    assert(key_matches_at(s, pairs, pos, k));
    assert(pos < s.len());
    lemma_subst_copies(s, pairs, 0, pos);
    let out = substitute_spec(s, pairs);
    assert(out =~= s.subrange(0, pos) + pairs[k].1 + subst_from(s, pairs, pos + pairs[k].0.len()));
    assert(out.subrange(pos, pos + pairs[k].1.len() as int) =~= pairs[k].1);
    assert(is_match_at(out, pairs[k].1, pos));
}
} // verus!
