use vstd::prelude::*;

use crate::first_index::{first_index, lemma_first_index, lemma_first_index_is, lemma_first_index_none};
use crate::inventory::{
    amount_in, holds_at_least, is_occupied, law_add_amounts, law_remove_amounts, slot_view, spec_add, spec_can_remove, spec_remove, total_in, Inventory,
    SlotView,
};
use crate::recipe::{amounts_fit, items_view};
use crate::resource::ResourceId;
use crate::text::push_str;

verus! {

/// The slot a compactor works on: among the slots holding at least `ratio`
/// items, the first one with the largest amount; -1 when there is none.
pub open spec fn best_slot(s: Seq<SlotView>, ratio: u32) -> int
    decreases s.len(),
{
    if s.len() == 0 {
        -1
    } else {
        let b = best_slot(s.drop_last(), ratio);
        match s.last() {
            Some((_, a)) => if a >= ratio && (b < 0 || a > (s[b]->0).1) {
                s.len() - 1
            } else {
                b
            },
            None => b,
        }
    }
}

proof fn lemma_best_slot_range(s: Seq<SlotView>, ratio: u32)
    ensures
        -1 <= best_slot(s, ratio) < s.len(),
        best_slot(s, ratio) >= 0 ==> (s[best_slot(s, ratio)] matches Some((_, a)) && a >= ratio),
    decreases s.len(),
{
    if s.len() > 0 {
        lemma_best_slot_range(s.drop_last(), ratio);
    }
}

proof fn lemma_best_slot_max(s: Seq<SlotView>, ratio: u32)
    ensures
        best_slot(s, ratio) < 0 ==> forall|k: int|
            0 <= k < s.len() ==> !(#[trigger] s[k] is Some && (s[k]->0).1 >= ratio),
        best_slot(s, ratio) >= 0 ==> forall|k: int|
            0 <= k < s.len() && #[trigger] s[k] is Some && (s[k]->0).1 >= ratio ==> (s[k]->0).1 <= (s[best_slot(
                s,
                ratio,
            )]->0).1,
    decreases s.len(),
{
    if s.len() > 0 {
        let t = s.drop_last();
        lemma_best_slot_max(t, ratio);
        lemma_best_slot_range(t, ratio);
        assert forall|k: int| 0 <= k < t.len() implies t[k] == s[k] by {}
    }
}

/// A compactor cycle compacts the most abundant resource: when it compacts
/// `r`, some slot holds at least `ratio` of `r` and no slot holding at least
/// `ratio` items holds more. It compacts exactly when some slot holds at least
/// `ratio` items and, in a bounded inventory, the items left (`ratio` fewer,
/// one more) fit. Then `ratio` of `r` are gone and one `<r>_compressed` has
/// come (unless that count is already at `u32::MAX`), all else unchanged;
/// otherwise nothing changes.
pub proof fn law_compact_most_abundant(s: Seq<SlotView>, capacity: u32, ratio: u32)
    ensures
        spec_compact(s, capacity, ratio).1 is Some <==> (exists|k: int|
            0 <= k < s.len() && #[trigger] s[k] is Some && (s[k]->0).1 >= ratio) && (capacity == 0 || total_in(s)
            + 1 <= capacity + ratio),
        spec_compact(s, capacity, ratio).1 is None ==> spec_compact(s, capacity, ratio).0 == s,
        spec_compact(s, capacity, ratio).1 is Some ==> exists|b: int|
            0 <= b < s.len() && s[b] is Some && (s[b]->0).0 == spec_compact(s, capacity, ratio).1->0 && (s[b]->0).1
                >= ratio && forall|k: int|
                0 <= k < s.len() && #[trigger] s[k] is Some && (s[k]->0).1 >= ratio ==> (s[k]->0).1 <= (s[b]->0).1,
        spec_compact(s, capacity, ratio).1 is Some && amount_in(
            s,
            (spec_compact(s, capacity, ratio).1->0) + "_compressed"@,
        ) < u32::MAX ==> forall|q: Seq<char>|
            amount_in(#[trigger] spec_compact(s, capacity, ratio).0, q) + (if q == spec_compact(s, capacity, ratio).1->0 {
                ratio as nat
            } else {
                0
            }) == amount_in(s, q) + (if q == (spec_compact(s, capacity, ratio).1->0) + "_compressed"@ {
                1nat
            } else {
                0
            }),
{
    lemma_best_slot_range(s, ratio);
    lemma_best_slot_max(s, ratio);
    let b = best_slot(s, ratio);
    if b >= 0 {
        assert(s[b] is Some && (s[b]->0).1 >= ratio);
        let r = (s[b]->0).0;
        let c = r + "_compressed"@;
        assert(compressed_id(r) == c);
        if spec_compact(s, capacity, ratio).1 is Some && amount_in(s, c) < u32::MAX {
            reveal_strlit("_compressed");
            assert(c.len() == r.len() + 11);
            assert(c != r);
            assert(holds_at_least(r, ratio)(s[b]));
            lemma_first_index(s, holds_at_least(r, ratio));
            let m = spec_remove(s, r, ratio);
            law_remove_amounts(s, r, ratio, c);
            assert forall|q: Seq<char>|
                amount_in(#[trigger] spec_compact(s, capacity, ratio).0, q) + (if q == r {
                    ratio as nat
                } else {
                    0
                }) == amount_in(s, q) + (if q == c {
                    1nat
                } else {
                    0
                }) by {
                law_remove_amounts(s, r, ratio, q);
                law_add_amounts(m, c, 1, q);
            }
        }
    }
}

/// The compressed counterpart of a resource: `<id>_compressed`.
pub open spec fn compressed_id(r: Seq<char>) -> Seq<char> {
    r + "_compressed"@
}

/// What one compactor cycle does to the slots, and which resource it compacted.
pub open spec fn spec_compact(s: Seq<SlotView>, capacity: u32, ratio: u32) -> (Seq<SlotView>, Option<Seq<char>>) {
    let b = best_slot(s, ratio);
    if b < 0 {
        (s, None)
    } else {
        let r = (s[b]->0).0;
        if capacity > 0 && total_in(s) - ratio + 1 > capacity {
            (s, None)
        } else {
            (spec_add(spec_remove(s, r, ratio), compressed_id(r), 1), Some(r))
        }
    }
}

/// One compactor cycle: turns `ratio` items of the most abundant resource
/// (that has at least `ratio`) into one `<id>_compressed` item, if the result
/// fits. Returns the compacted resource.
pub fn compact_once(inv: &mut Inventory, ratio: u32) -> (r: Option<ResourceId>)
    requires
        old(inv).spec_capacity() > 0 ==> total_in(old(inv)@) <= u32::MAX && (ratio > 0 || total_in(old(inv)@) < u32::MAX),
    ensures
        final(inv)@ == spec_compact(old(inv)@, old(inv).spec_capacity(), ratio).0,
        match r {
            Some(id) => spec_compact(old(inv)@, old(inv).spec_capacity(), ratio).1 == Some(id@),
            None => spec_compact(old(inv)@, old(inv).spec_capacity(), ratio).1 is None,
        },
        final(inv).spec_capacity() == old(inv).spec_capacity(),
{
    let ghost v = inv@;
    let best = best_index(inv, ratio);
    let b = match best {
        Some(b) => b,
        None => return None,
    };
    proof {
        lemma_best_slot_range(v, ratio);
    }
    let (resource, amount) = match inv.slot_content(b) {
        Some(c) => (c.0.duplicate(), c.1),
        None => return None,
    };
    if inv.capacity() > 0 {
        proof {
            crate::seq_sum::lemma_sum_element_le(v, b as int, crate::inventory::amount_any());
        }
        let total = inv.total();
        let new_total = total - ratio + 1;
        if new_total > inv.capacity() {
            return None;
        }
    }
    let mut compressed = resource.duplicate();
    push_str(&mut compressed.0, "_compressed");
    inv.remove(&resource, ratio);
    inv.add(&compressed, 1);
    Some(resource)
}

fn best_index(inv: &Inventory, ratio: u32) -> (r: Option<usize>)
    ensures
        match r {
            Some(b) => b as int == best_slot(inv@, ratio),
            None => best_slot(inv@, ratio) < 0,
        },
{
    let n = inv.slot_count();
    let mut best: Option<usize> = None;
    let mut best_amount: u32 = 0;
    let mut i: usize = 0;
    while i < n
        invariant
            n == inv@.len(),
            i <= n,
            match best {
                Some(b) => b as int == best_slot(inv@.take(i as int), ratio) && b < i
                    && (inv@[b as int] matches Some((_, a)) && a == best_amount),
                None => best_slot(inv@.take(i as int), ratio) < 0,
            },
        decreases n - i,
    {
        assert(inv@.take(i + 1).drop_last() =~= inv@.take(i as int));
        proof {
            lemma_best_slot_range(inv@.take(i as int), ratio);
        }
        match inv.slot_content(i) {
            Some(c) => {
                let a = c.1;
                let replace = match best {
                    Some(_) => a >= ratio && a > best_amount,
                    None => a >= ratio,
                };
                if replace {
                    best = Some(i);
                    best_amount = a;
                }
            },
            None => {},
        }
        i = i + 1;
    }
    assert(inv@.take(n as int) =~= inv@);
    best
}

/// The first listed output that the inventory holds, or -1.
pub open spec fn first_held(s: Seq<SlotView>, outputs: Seq<(Seq<char>, u32)>) -> int {
    first_index(outputs, |p: (Seq<char>, u32)| amount_in(s, p.0) > 0)
}

/// What a building next to the start of an empty belt hands over: a machine
/// with a known recipe gives one unit of the first of its outputs that it holds;
/// any other building gives one unit of the resource in its first occupied slot.
/// Returns the slots afterwards and the resource put on the belt.
pub open spec fn spec_output_pick(s: Seq<SlotView>, recipe_outputs: Option<Seq<(Seq<char>, u32)>>) -> (Seq<SlotView>, Option<Seq<char>>) {
    let res = match recipe_outputs {
        Some(outs) => {
            let i = first_held(s, outs);
            if i >= 0 {
                Some(outs[i].0)
            } else {
                None
            }
        },
        None => {
            let i = first_index(s, is_occupied());
            if i >= 0 {
                Some((s[i]->0).0)
            } else {
                None
            }
        },
    };
    match res {
        Some(r) => if spec_can_remove(s, r, 1) {
            (spec_remove(s, r, 1), Some(r))
        } else {
            (s, None)
        },
        None => (s, None),
    }
}

fn first_held_output(inv: &Inventory, outs: &Vec<(ResourceId, u32)>) -> (r: Option<ResourceId>)
    requires
        amounts_fit(inv@, items_view(outs@)),
    ensures
        match r {
            Some(id) => first_held(inv@, items_view(outs@)) >= 0 && id@ == items_view(outs@)[first_held(inv@, items_view(outs@))].0,
            None => first_held(inv@, items_view(outs@)) < 0,
        },
{
    let ghost ov = items_view(outs@);
    let ghost p = |p: (Seq<char>, u32)| amount_in(inv@, p.0) > 0;
    let n = outs.len();
    let mut i: usize = 0;
    while i < n
        invariant
            n == outs@.len(),
            ov == items_view(outs@),
            p == (|p: (Seq<char>, u32)| amount_in(inv@, p.0) > 0),
            amounts_fit(inv@, ov),
            i <= n,
            forall|k: int| 0 <= k < i ==> !p(#[trigger] ov[k]),
        decreases n - i,
    {
        assert(ov[i as int].0 == outs@[i as int].0@);
        if inv.get(&outs[i].0) > 0 {
            proof {
                lemma_first_index_is(ov, p, i as int);
            }
            return Some(outs[i].0.duplicate());
        }
        i = i + 1;
    }
    proof {
        lemma_first_index_none(ov, p);
    }
    None
}

/// Takes one unit out of a building for the belt that starts next to it.
pub fn pick_output_for_belt(inv: &mut Inventory, recipe_outputs: Option<&Vec<(ResourceId, u32)>>) -> (r: Option<ResourceId>)
    requires
        recipe_outputs matches Some(outs) ==> amounts_fit(old(inv)@, items_view(outs@)),
    ensures
        final(inv)@ == spec_output_pick(
            old(inv)@,
            match recipe_outputs {
                Some(o) => Some(items_view(o@)),
                None => None,
            },
        ).0,
        (match r {
            Some(id) => Some(id@),
            None => None,
        }) == spec_output_pick(
            old(inv)@,
            match recipe_outputs {
                Some(o) => Some(items_view(o@)),
                None => None,
            },
        ).1,
        final(inv).spec_capacity() == old(inv).spec_capacity(),
{
    let res = match recipe_outputs {
        Some(outs) => first_held_output(inv, outs),
        None => inv.first_resource(),
    };
    match res {
        Some(r) => {
            if inv.remove(&r, 1) {
                Some(r)
            } else {
                None
            }
        },
        None => None,
    }
}

} // verus!
