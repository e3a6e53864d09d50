use vstd::prelude::*;

use crate::keybindings::{lemma_lex_irreflexive, lemma_lex_total, lemma_lex_transitive, lex_lt, str_less};

verus! {

/// The texts of a list of string slices.
pub open spec fn strs_view(v: Seq<&str>) -> Seq<Seq<char>> {
    v.map_values(|s: &str| s@)
}

/// `idx` lists exactly the positions whose flag is set, each once, in order of
/// their keys (positions with equal keys keep their order).
pub open spec fn is_sorted_selection(keys: Seq<Seq<char>>, chosen: Seq<bool>, idx: Seq<usize>) -> bool {
    &&& forall|i: int| 0 <= i < idx.len() ==> #[trigger] idx[i] < keys.len() && chosen[idx[i] as int]
    &&& forall|k: int| 0 <= k < keys.len() && chosen[k] ==> #[trigger] idx.contains(k as usize)
    &&& forall|i: int, j: int| 0 <= i < j < idx.len() ==> #[trigger] idx[i] != #[trigger] idx[j]
    &&& forall|i: int, j: int|
        0 <= i < j < idx.len() ==> !lex_lt(#[trigger] keys[idx[j] as int], #[trigger] keys[idx[i] as int])
    &&& forall|i: int, j: int|
        0 <= i < j < idx.len() && keys[idx[i] as int] == keys[idx[j] as int] ==> #[trigger] idx[i] < #[trigger] idx[j]
}

/// The positions of the flagged keys, sorted by key; a key is placed after the
/// ones before it that are not greater, so equal keys keep their order.
pub fn sorted_selection(keys: &Vec<&str>, chosen: &Vec<bool>) -> (r: Vec<usize>)
    requires
        keys@.len() == chosen@.len(),
    ensures
        is_sorted_selection(strs_view(keys@), chosen@, r@),
{
    let ghost ks = strs_view(keys@);
    let mut out: Vec<usize> = Vec::new();
    let mut k: usize = 0;
    while k < keys.len()
        invariant
            k <= ks.len(),
            ks == strs_view(keys@),
            keys@.len() == chosen@.len(),
            forall|i: int| 0 <= i < out@.len() ==> #[trigger] out@[i] < k && chosen@[out@[i] as int],
            forall|q: int| 0 <= q < k && chosen@[q] ==> #[trigger] out@.contains(q as usize),
            forall|i: int, j: int| 0 <= i < j < out@.len() ==> #[trigger] out@[i] != #[trigger] out@[j],
            forall|i: int, j: int|
                0 <= i < j < out@.len() ==> !lex_lt(#[trigger] ks[out@[j] as int], #[trigger] ks[out@[i] as int]),
            forall|i: int, j: int|
                0 <= i < j < out@.len() && ks[out@[i] as int] == ks[out@[j] as int] ==> #[trigger] out@[i] < #[trigger] out@[j],
        decreases ks.len() - k,
    {
        if chosen[k] {
            let mut p: usize = 0;
            while p < out.len() && !str_less(keys[k], keys[out[p]])
                invariant
                    p <= out@.len(),
                    ks == strs_view(keys@),
                    k < ks.len(),
                    forall|i: int| 0 <= i < out@.len() ==> out@[i] < k,
                    forall|i: int| 0 <= i < p ==> !lex_lt(ks[k as int], #[trigger] ks[out@[i] as int]),
                decreases out@.len() - p,
            {
                p = p + 1;
            }
            let ghost before = out@;
            let ghost nk = ks[k as int];
            proof {
                assert forall|i: int| p <= i < before.len() implies lex_lt(nk, #[trigger] ks[before[i] as int]) by {
                    if i > p {
                        let a = ks[before[p as int] as int];
                        let b = ks[before[i] as int];
                        assert(lex_lt(nk, a));
                        assert(!lex_lt(b, a));
                        if !lex_lt(nk, b) {
                            if nk == b {
                                assert(lex_lt(b, a));
                            } else {
                                lemma_lex_total(nk, b);
                                lemma_lex_transitive(b, nk, a);
                            }
                        }
                    }
                }
            }
            out.insert(p, k);
            proof {
                assert(out@ =~= before.take(p as int).push(k) + before.skip(p as int));
                assert forall|i: int, j: int| 0 <= i < j < out@.len() implies !lex_lt(
                    #[trigger] ks[out@[j] as int],
                    #[trigger] ks[out@[i] as int],
                ) by {
                    let a = ks[out@[i] as int];
                    let b = ks[out@[j] as int];
                    if j < p {
                        assert(out@[i] == before[i] && out@[j] == before[j]);
                    } else if j == p {
                        assert(out@[i] == before[i]);
                    } else if i < p {
                        assert(out@[i] == before[i] && out@[j] == before[j - 1]);
                        assert(!lex_lt(nk, a));
                        assert(lex_lt(nk, b));
                        if lex_lt(b, a) {
                            lemma_lex_transitive(nk, b, a);
                        }
                    } else if i == p {
                        assert(out@[j] == before[j - 1]);
                        assert(lex_lt(nk, b));
                        if lex_lt(b, nk) {
                            lemma_lex_transitive(b, nk, b);
                            lemma_lex_irreflexive(b);
                        }
                    } else {
                        assert(out@[i] == before[i - 1] && out@[j] == before[j - 1]);
                    }
                }
                assert forall|i: int, j: int| 0 <= i < j < out@.len() implies #[trigger] out@[i] != #[trigger] out@[j] by {
                    if i < p && j > p {
                        assert(out@[j] == before[j - 1]);
                    } else if i > p {
                        assert(out@[i] == before[i - 1] && out@[j] == before[j - 1]);
                    } else if j < p {
                    } else if i == p {
                        assert(out@[j] == before[j - 1]);
                    }
                }
                assert forall|i: int, j: int|
                    0 <= i < j < out@.len() && ks[out@[i] as int] == ks[out@[j] as int] implies #[trigger] out@[i]
                        < #[trigger] out@[j] by {
                    if j < p {
                        assert(out@[i] == before[i] && out@[j] == before[j]);
                    } else if j == p {
                        assert(out@[i] == before[i]);
                    } else if i < p {
                        assert(out@[i] == before[i] && out@[j] == before[j - 1]);
                        assert(lex_lt(nk, ks[before[j - 1] as int]));
                        assert(!lex_lt(nk, ks[before[i] as int]));
                    } else if i == p {
                        assert(out@[j] == before[j - 1]);
                        assert(lex_lt(nk, ks[before[j - 1] as int]));
                        lemma_lex_irreflexive(nk);
                    } else {
                        assert(out@[i] == before[i - 1] && out@[j] == before[j - 1]);
                    }
                }
                assert forall|q: int| 0 <= q < k + 1 && chosen@[q] implies #[trigger] out@.contains(q as usize) by {
                    if q == k {
                        assert(out@[p as int] == k);
                    } else {
                        assert(before.contains(q as usize));
                        let w = choose|w: int| 0 <= w < before.len() && before[w] == q as usize;
                        if w < p {
                            assert(out@[w] == q as usize);
                        } else {
                            assert(out@[w + 1] == q as usize);
                        }
                    }
                }
                assert forall|i: int| 0 <= i < out@.len() implies #[trigger] out@[i] < k + 1 && chosen@[out@[i] as int] by {
                    if i < p {
                        assert(out@[i] == before[i]);
                    } else if i > p {
                        assert(out@[i] == before[i - 1]);
                    }
                }
            }
        }
        k = k + 1;
    }
    assert forall|i: int| 0 <= i < out@.len() implies #[trigger] out@[i] < ks.len() && chosen@[out@[i] as int] by {
        assert(out@[i] < k);
    }
    out
}

/// `idx` lists every position once, from the largest amount down; positions
/// with equal amounts keep their order.
pub open spec fn is_amount_order(amounts: Seq<u32>, idx: Seq<usize>) -> bool {
    &&& idx.len() == amounts.len()
    &&& forall|i: int| 0 <= i < idx.len() ==> #[trigger] idx[i] < amounts.len()
    &&& forall|k: int| 0 <= k < amounts.len() ==> #[trigger] idx.contains(k as usize)
    &&& forall|i: int, j: int| 0 <= i < j < idx.len() ==> #[trigger] idx[i] != #[trigger] idx[j]
    &&& forall|i: int, j: int|
        0 <= i < j < idx.len() ==> amounts[#[trigger] idx[i] as int] > amounts[#[trigger] idx[j] as int] || (
        amounts[idx[i] as int] == amounts[idx[j] as int] && idx[i] < idx[j])
}

/// The positions ordered from the largest amount down, keeping the order of
/// equal amounts.
pub fn order_by_amount(amounts: &Vec<u32>) -> (r: Vec<usize>)
    ensures
        is_amount_order(amounts@, r@),
{
    let ghost a = amounts@;
    let mut out: Vec<usize> = Vec::new();
    let mut k: usize = 0;
    while k < amounts.len()
        invariant
            k <= a.len(),
            a == amounts@,
            out@.len() == k,
            forall|i: int| 0 <= i < out@.len() ==> #[trigger] out@[i] < k,
            forall|q: int| 0 <= q < k ==> #[trigger] out@.contains(q as usize),
            forall|i: int, j: int| 0 <= i < j < out@.len() ==> #[trigger] out@[i] != #[trigger] out@[j],
            forall|i: int, j: int|
                0 <= i < j < out@.len() ==> a[#[trigger] out@[i] as int] > a[#[trigger] out@[j] as int] || (a[out@[i] as int]
                    == a[out@[j] as int] && out@[i] < out@[j]),
        decreases a.len() - k,
    {
        let ak = amounts[k];
        let mut p: usize = 0;
        while p < out.len() && amounts[out[p]] >= ak
            invariant
                p <= out@.len(),
                a == amounts@,
                k < a.len(),
                ak == a[k as int],
                forall|i: int| 0 <= i < out@.len() ==> out@[i] < k,
                forall|i: int| 0 <= i < p ==> a[#[trigger] out@[i] as int] >= ak,
            decreases out@.len() - p,
        {
            p = p + 1;
        }
        let ghost before = out@;
        proof {
            assert forall|i: int| p <= i < before.len() implies a[#[trigger] before[i] as int] < ak by {
                if i > p {
                    assert(a[before[p as int] as int] >= a[before[i] as int]);
                }
            }
        }
        out.insert(p, k);
        proof {
            assert(out@ =~= before.take(p as int).push(k) + before.skip(p as int));
            assert forall|i: int, j: int| 0 <= i < j < out@.len() implies a[#[trigger] out@[i] as int] > a[#[trigger] out@[j] as int]
                || (a[out@[i] as int] == a[out@[j] as int] && out@[i] < out@[j]) by {
                if j < p {
                    assert(out@[i] == before[i] && out@[j] == before[j]);
                } else if j == p {
                    assert(out@[i] == before[i]);
                } else if i < p {
                    assert(out@[i] == before[i] && out@[j] == before[j - 1]);
                } else if i == p {
                    assert(out@[j] == before[j - 1]);
                } else {
                    assert(out@[i] == before[i - 1] && out@[j] == before[j - 1]);
                }
            }
            assert forall|i: int, j: int| 0 <= i < j < out@.len() implies #[trigger] out@[i] != #[trigger] out@[j] by {
                if i < p && j > p {
                    assert(out@[j] == before[j - 1]);
                } else if i > p {
                    assert(out@[i] == before[i - 1] && out@[j] == before[j - 1]);
                } else if j < p {
                } else if i == p {
                    assert(out@[j] == before[j - 1]);
                }
            }
            assert forall|q: int| 0 <= q < k + 1 implies #[trigger] out@.contains(q as usize) by {
                if q == k {
                    assert(out@[p as int] == k);
                } else {
                    assert(before.contains(q as usize));
                    let w = choose|w: int| 0 <= w < before.len() && before[w] == q as usize;
                    if w < p {
                        assert(out@[w] == q as usize);
                    } else {
                        assert(out@[w + 1] == q as usize);
                    }
                }
            }
            assert forall|i: int| 0 <= i < out@.len() implies #[trigger] out@[i] < k + 1 by {
                if i < p {
                    assert(out@[i] == before[i]);
                } else if i > p {
                    assert(out@[i] == before[i - 1]);
                }
            }
        }
        k = k + 1;
    }
    out
}

} // verus!
