use vstd::prelude::*;

verus! {

/// The index of the first element of `s` that satisfies `p`, or -1 when none does.
pub open spec fn first_index<A>(s: Seq<A>, p: spec_fn(A) -> bool) -> int
    decreases s.len(),
{
    if s.len() == 0 {
        -1
    } else if p(s.last()) && first_index(s.drop_last(), p) < 0 {
        s.len() - 1
    } else {
        first_index(s.drop_last(), p)
    }
}

/// `first_index` is -1 exactly when no element satisfies `p`, and otherwise names
/// an element that satisfies `p` with none before it that does.
pub proof fn lemma_first_index<A>(s: Seq<A>, p: spec_fn(A) -> bool)
    ensures
        -1 <= first_index(s, p) < s.len(),
        first_index(s, p) < 0 <==> (forall|k: int| 0 <= k < s.len() ==> !p(#[trigger] s[k])),
        first_index(s, p) >= 0 ==> p(s[first_index(s, p)]),
        forall|k: int| 0 <= k < first_index(s, p) ==> !p(#[trigger] s[k]),
    decreases s.len(),
{
    if s.len() > 0 {
        let t = s.drop_last();
        lemma_first_index(t, p);
        assert forall|k: int| 0 <= k < t.len() implies t[k] == s[k] by {}
        if first_index(t, p) < 0 && !p(s.last()) {
            assert forall|k: int| 0 <= k < s.len() implies !p(#[trigger] s[k]) by {
                if k < t.len() {
                    assert(!p(t[k]));
                }
            }
        }
    }
}

/// When `i` satisfies `p` and nothing before it does, `first_index` is `i`.
pub proof fn lemma_first_index_is<A>(s: Seq<A>, p: spec_fn(A) -> bool, i: int)
    requires
        0 <= i < s.len(),
        p(s[i]),
        forall|k: int| 0 <= k < i ==> !p(#[trigger] s[k]),
    ensures
        first_index(s, p) == i,
{
    lemma_first_index(s, p);
    let f = first_index(s, p);
    if f < 0 {
        assert(!p(s[i]));
    } else if f < i {
        assert(!p(s[f]));
    } else if f > i {
        assert(!p(s[i]));
    }
}

/// When no element satisfies `p`, `first_index` is -1.
pub proof fn lemma_first_index_none<A>(s: Seq<A>, p: spec_fn(A) -> bool)
    requires
        forall|k: int| 0 <= k < s.len() ==> !p(#[trigger] s[k]),
    ensures
        first_index(s, p) == -1,
{
    lemma_first_index(s, p);
}

/// The index of the last element of `s` that satisfies `p`, or -1 when none does.
pub open spec fn last_index<A>(s: Seq<A>, p: spec_fn(A) -> bool) -> int
    decreases s.len(),
{
    if s.len() == 0 {
        -1
    } else if p(s.last()) {
        s.len() - 1
    } else {
        last_index(s.drop_last(), p)
    }
}

/// `last_index` is -1 exactly when no element satisfies `p`, and otherwise names
/// an element that satisfies `p` with none after it that does.
pub proof fn lemma_last_index<A>(s: Seq<A>, p: spec_fn(A) -> bool)
    ensures
        -1 <= last_index(s, p) < s.len(),
        last_index(s, p) < 0 <==> (forall|k: int| 0 <= k < s.len() ==> !p(#[trigger] s[k])),
        last_index(s, p) >= 0 ==> p(s[last_index(s, p)]),
        forall|k: int| last_index(s, p) < k < s.len() ==> !p(#[trigger] s[k]),
    decreases s.len(),
{
    if s.len() > 0 {
        let t = s.drop_last();
        lemma_last_index(t, p);
        assert forall|k: int| 0 <= k < t.len() implies t[k] == s[k] by {}
        if !p(s.last()) {
            assert forall|k: int| last_index(s, p) < k < s.len() implies !p(#[trigger] s[k]) by {
                if k < t.len() {
                    assert(!p(t[k]));
                }
            }
            if last_index(t, p) < 0 {
                assert forall|k: int| 0 <= k < s.len() implies !p(#[trigger] s[k]) by {
                    if k < t.len() {
                        assert(!p(t[k]));
                    }
                }
            }
        }
    }
}

} // verus!
