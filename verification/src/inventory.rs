use vstd::prelude::*;

use crate::first_index::{first_index, lemma_first_index_is, lemma_first_index_none};
use crate::resource::ResourceId;
use crate::seq_sum::{
    lemma_sum_element_le, lemma_sum_prefix_le, lemma_sum_push, lemma_sum_take_full,
    lemma_sum_take_succ, lemma_sum_update, lemma_sum_zero, sum_by,
};
use crate::first_index::lemma_first_index;

verus! {

/// What a slot holds, seen as plain values: a resource's text and its amount.
pub type SlotView = Option<(Seq<char>, u32)>;

pub open spec fn slot_view(s: Option<(ResourceId, u32)>) -> SlotView {
    match s {
        Some((r, a)) => Some((r@, a)),
        None => None,
    }
}

/// Amount of `r` a slot holds.
pub open spec fn amount_of(r: Seq<char>) -> spec_fn(SlotView) -> nat {
    |s: SlotView|
        match s {
            Some((q, a)) => if q == r {
                a as nat
            } else {
                0
            },
            None => 0,
        }
}

/// Amount of any resource a slot holds.
pub open spec fn amount_any() -> spec_fn(SlotView) -> nat {
    |s: SlotView|
        match s {
            Some((_, a)) => a as nat,
            None => 0,
        }
}

/// 1 for an occupied slot, 0 for an empty one.
pub open spec fn occupied_count() -> spec_fn(SlotView) -> nat {
    |s: SlotView|
        match s {
            Some(_) => 1,
            None => 0,
        }
}

/// Total amount of `r` across the slots.
pub open spec fn amount_in(slots: Seq<SlotView>, r: Seq<char>) -> nat {
    sum_by(slots, amount_of(r))
}

/// Total amount across the slots.
pub open spec fn total_in(slots: Seq<SlotView>) -> nat {
    sum_by(slots, amount_any())
}

pub open spec fn holds(r: Seq<char>) -> spec_fn(SlotView) -> bool {
    |s: SlotView| s matches Some((q, _)) && q == r
}

pub open spec fn holds_at_least(r: Seq<char>, amount: u32) -> spec_fn(SlotView) -> bool {
    |s: SlotView| s matches Some((q, a)) && q == r && a >= amount
}

pub open spec fn is_empty() -> spec_fn(SlotView) -> bool {
    |s: SlotView| s is None
}

pub open spec fn is_occupied() -> spec_fn(SlotView) -> bool {
    |s: SlotView| s is Some
}

pub open spec fn sat_add(a: u32, b: u32) -> u32 {
    if a + b > u32::MAX {
        u32::MAX
    } else {
        (a + b) as u32
    }
}

/// The slots after adding `amount` of `r`: into the first slot holding `r`
/// (saturating at `u32::MAX`), else into the first empty slot, else into a new
/// slot at the end.
pub open spec fn spec_add(s: Seq<SlotView>, r: Seq<char>, amount: u32) -> Seq<SlotView> {
    let m = first_index(s, holds(r));
    if m >= 0 {
        s.update(m, Some((r, sat_add((s[m]->0).1, amount))))
    } else {
        let e = first_index(s, is_empty());
        if e >= 0 {
            s.update(e, Some((r, amount)))
        } else {
            s.push(Some((r, amount)))
        }
    }
}

/// Whether `remove` finds a slot: some slot holds at least `amount` of `r`.
pub open spec fn spec_can_remove(s: Seq<SlotView>, r: Seq<char>, amount: u32) -> bool {
    first_index(s, holds_at_least(r, amount)) >= 0
}

/// The slots after removing `amount` of `r` from the first slot holding at least
/// that much; a slot brought down to zero becomes empty.
pub open spec fn spec_remove(s: Seq<SlotView>, r: Seq<char>, amount: u32) -> Seq<SlotView> {
    let i = first_index(s, holds_at_least(r, amount));
    if i >= 0 {
        let left = ((s[i]->0).1 - amount) as u32;
        s.update(
            i,
            if left == 0 {
                None
            } else {
                Some((r, left))
            },
        )
    } else {
        s
    }
}

/// The occupied slots, in slot order.
pub open spec fn occupied_of(s: Seq<SlotView>) -> Seq<(Seq<char>, u32)>
    decreases s.len(),
{
    if s.len() == 0 {
        Seq::empty()
    } else {
        match s.last() {
            Some(x) => occupied_of(s.drop_last()).push(x),
            None => occupied_of(s.drop_last()),
        }
    }
}

/// The slots after `swap_slots(a, b)`: grown with empty slots up to the larger
/// index when needed, then the two slots exchanged.
pub open spec fn spec_swap(s: Seq<SlotView>, a: int, b: int) -> Seq<SlotView> {
    if a == b {
        s
    } else {
        let max = if a > b {
            a
        } else {
            b
        };
        let g = if max >= s.len() {
            s + Seq::new((max + 1 - s.len()) as nat, |k: int| None)
        } else {
            s
        };
        g.update(a, g[b]).update(b, g[a])
    }
}

/// Slot-based inventory. Each slot holds one resource type with an amount,
/// or is `None` (empty). `capacity` limits the total item count across
/// all slots (0 = unlimited). `add` grows the slot list when no matching
/// or empty slot is available, so the inventory is always usable.
#[derive(Debug, Clone, Default)]
pub struct Inventory {
    pub(crate) slots: Vec<Option<(ResourceId, u32)>>,
    pub(crate) capacity: u32,
}

impl View for Inventory {
    type V = Seq<SlotView>;

    closed spec fn view(&self) -> Seq<SlotView> {
        self.slots@.map_values(|s: Option<(ResourceId, u32)>| slot_view(s))
    }
}

fn clone_slot(s: &Option<(ResourceId, u32)>) -> (r: Option<(ResourceId, u32)>)
    ensures
        slot_view(r) == slot_view(*s),
{
    match s {
        Some((id, a)) => Some((id.duplicate(), *a)),
        None => None,
    }
}

impl Inventory {
    pub closed spec fn spec_capacity(&self) -> u32 {
        self.capacity
    }

    pub fn new() -> (r: Inventory)
        ensures
            r@ == Seq::<SlotView>::empty(),
            r.spec_capacity() == 0,
    {
        let r = Inventory { slots: Vec::new(), capacity: 0 };
        assert(r@ =~= Seq::<SlotView>::empty());
        r
    }

    pub fn with_capacity(capacity: u32) -> (r: Inventory)
        ensures
            r@ == Seq::<SlotView>::empty(),
            r.spec_capacity() == capacity,
    {
        let r = Inventory { slots: Vec::new(), capacity };
        assert(r@ =~= Seq::<SlotView>::empty());
        r
    }

    pub fn with_slots(slot_count: usize, capacity: u32) -> (r: Inventory)
        ensures
            r@ == Seq::new(slot_count as nat, |k: int| None::<(Seq<char>, u32)>),
            r.spec_capacity() == capacity,
    {
        let mut slots: Vec<Option<(ResourceId, u32)>> = Vec::new();
        let mut i: usize = 0;
        while i < slot_count
            invariant
                i <= slot_count,
                slots@.len() == i,
                forall|k: int| 0 <= k < i ==> slots@[k] is None,
            decreases slot_count - i,
        {
            slots.push(None);
            i = i + 1;
        }
        let r = Inventory { slots, capacity };
        assert(r@ =~= Seq::new(slot_count as nat, |k: int| None::<(Seq<char>, u32)>));
        r
    }

    pub fn capacity(&self) -> (r: u32)
        ensures
            r == self.spec_capacity(),
    {
        self.capacity
    }

    /// Total amount of a given resource across all slots.
    pub fn get(&self, resource: &ResourceId) -> (r: u32)
        requires
            amount_in(self@, resource@) <= u32::MAX,
        ensures
            r == amount_in(self@, resource@),
    {
        let n = self.slots.len();
        let ghost v = self@;
        let ghost f = amount_of(resource@);
        let mut sum: u32 = 0;
        let mut i: usize = 0;
        while i < n
            invariant
                n == self.slots@.len(),
                v == self@,
                f == amount_of(resource@),
                i <= n,
                sum == sum_by(v.take(i as int), f),
                sum_by(v, f) <= u32::MAX,
            decreases n - i,
        {
            proof {
                lemma_sum_take_succ(v, i as int, f);
                lemma_sum_prefix_le(v, i + 1, f);
            }
            match &self.slots[i] {
                Some((r, a)) => {
                    if r.0 == resource.0 {
                        sum = sum + *a;
                    }
                },
                None => {},
            }
            i = i + 1;
        }
        proof {
            lemma_sum_take_full(v, f);
        }
        sum
    }

    /// Add items. The resource is placed into an existing matching slot, or
    /// the first empty slot, or a new slot is appended.
    pub fn add(&mut self, resource: &ResourceId, amount: u32)
        ensures
            final(self)@ == spec_add(old(self)@, resource@, amount),
            final(self).spec_capacity() == old(self).spec_capacity(),
    {
        let ghost v = self@;
        let n = self.slots.len();
        let mut i: usize = 0;
        while i < n
            invariant
                n == self.slots@.len(),
                v == self@,
                self.capacity == old(self).capacity,
                v == old(self)@,
                i <= n,
                forall|k: int| 0 <= k < i ==> !holds(resource@)(#[trigger] v[k]),
            decreases n - i,
        {
            let found = match &self.slots[i] {
                Some((r, a)) => if r.0 == resource.0 {
                    Some(*a)
                } else {
                    None
                },
                None => None,
            };
            if let Some(a) = found {
                proof {
                    lemma_first_index_is(v, holds(resource@), i as int);
                }
                let new_amount = a.saturating_add(amount);
                self.slots.set(i, Some((resource.duplicate(), new_amount)));
                assert(self@ =~= spec_add(v, resource@, amount));
                return ;
            }
            i = i + 1;
        }
        proof {
            lemma_first_index_none(v, holds(resource@));
        }
        let mut j: usize = 0;
        while j < n
            invariant
                n == self.slots@.len(),
                v == self@,
                self.capacity == old(self).capacity,
                v == old(self)@,
                first_index(v, holds(resource@)) == -1,
                j <= n,
                forall|k: int| 0 <= k < j ==> !is_empty()(#[trigger] v[k]),
            decreases n - j,
        {
            if self.slots[j].is_none() {
                proof {
                    lemma_first_index_is(v, is_empty(), j as int);
                }
                self.slots.set(j, Some((resource.duplicate(), amount)));
                assert(self@ =~= spec_add(v, resource@, amount));
                return ;
            }
            j = j + 1;
        }
        proof {
            lemma_first_index_none(v, is_empty());
        }
        self.slots.push(Some((resource.duplicate(), amount)));
        assert(self@ =~= spec_add(v, resource@, amount));
    }

    /// Add only if there is room (`capacity`); otherwise leave the inventory unchanged.
    pub fn try_add(&mut self, resource: &ResourceId, amount: u32) -> (ok: bool)
        requires
            old(self).spec_capacity() > 0 ==> total_in(old(self)@) + amount <= u32::MAX,
        ensures
            ok == !(old(self).spec_capacity() > 0 && total_in(old(self)@) + amount > old(
                self,
            ).spec_capacity()),
            ok ==> final(self)@ == spec_add(old(self)@, resource@, amount),
            !ok ==> final(self)@ == old(self)@,
            final(self).spec_capacity() == old(self).spec_capacity(),
    {
        if self.capacity > 0 && self.total() + amount > self.capacity {
            return false;
        }
        self.add(resource, amount);
        true
    }

    /// Remove `amount` of `resource` from the first slot holding at least that
    /// much. Returns `false`, leaving everything unchanged, when no slot does.
    pub fn remove(&mut self, resource: &ResourceId, amount: u32) -> (ok: bool)
        ensures
            ok == spec_can_remove(old(self)@, resource@, amount),
            final(self)@ == spec_remove(old(self)@, resource@, amount),
            final(self).spec_capacity() == old(self).spec_capacity(),
    {
        let ghost v = self@;
        let n = self.slots.len();
        let mut i: usize = 0;
        while i < n
            invariant
                n == self.slots@.len(),
                v == self@,
                v == old(self)@,
                self.capacity == old(self).capacity,
                i <= n,
                forall|k: int| 0 <= k < i ==> !holds_at_least(resource@, amount)(#[trigger] v[k]),
            decreases n - i,
        {
            let found = match &self.slots[i] {
                Some((r, a)) => if r.0 == resource.0 && *a >= amount {
                    Some(*a)
                } else {
                    None
                },
                None => None,
            };
            if let Some(a) = found {
                proof {
                    lemma_first_index_is(v, holds_at_least(resource@, amount), i as int);
                }
                let left = a - amount;
                if left == 0 {
                    self.slots.set(i, None);
                } else {
                    self.slots.set(i, Some((resource.duplicate(), left)));
                }
                assert(self@ =~= spec_remove(v, resource@, amount));
                return true;
            }
            i = i + 1;
        }
        proof {
            lemma_first_index_none(v, holds_at_least(resource@, amount));
        }
        false
    }

    /// Total items across all slots.
    pub fn total(&self) -> (r: u32)
        requires
            total_in(self@) <= u32::MAX,
        ensures
            r == total_in(self@),
    {
        let n = self.slots.len();
        let ghost v = self@;
        let ghost f = amount_any();
        let mut sum: u32 = 0;
        let mut i: usize = 0;
        while i < n
            invariant
                n == self.slots@.len(),
                v == self@,
                f == amount_any(),
                i <= n,
                sum == sum_by(v.take(i as int), f),
                sum_by(v, f) <= u32::MAX,
            decreases n - i,
        {
            proof {
                lemma_sum_take_succ(v, i as int, f);
                lemma_sum_prefix_le(v, i + 1, f);
            }
            match &self.slots[i] {
                Some((_, a)) => {
                    sum = sum + *a;
                },
                None => {},
            }
            i = i + 1;
        }
        proof {
            lemma_sum_take_full(v, f);
        }
        sum
    }

    /// Full when `capacity > 0` and total ≥ capacity.
    pub fn is_full(&self) -> (r: bool)
        requires
            self.spec_capacity() > 0 ==> total_in(self@) <= u32::MAX,
        ensures
            r == (self.spec_capacity() > 0 && total_in(self@) >= self.spec_capacity()),
    {
        self.capacity > 0 && self.total() >= self.capacity
    }

    /// Number of slots (including empty).
    pub fn slot_count(&self) -> (r: usize)
        ensures
            r == self@.len(),
    {
        self.slots.len()
    }

    /// Number of non-empty slots.
    pub fn occupied_slot_count(&self) -> (r: usize)
        ensures
            r == sum_by(self@, occupied_count()),
    {
        let n = self.slots.len();
        let ghost v = self@;
        let ghost f = occupied_count();
        let mut count: usize = 0;
        let mut i: usize = 0;
        while i < n
            invariant
                n == self.slots@.len(),
                v == self@,
                f == occupied_count(),
                i <= n,
                count == sum_by(v.take(i as int), f),
                count <= i,
            decreases n - i,
        {
            proof {
                lemma_sum_take_succ(v, i as int, f);
            }
            if self.slots[i].is_some() {
                count = count + 1;
            }
            i = i + 1;
        }
        proof {
            lemma_sum_take_full(v, f);
        }
        count
    }

    /// Whether the slot at `index` exists and is non-empty.
    pub fn is_empty_slot(&self, index: usize) -> (r: bool)
        ensures
            r == (index < self@.len() && self@[index as int] is Some),
    {
        index < self.slots.len() && self.slots[index].is_some()
    }

    /// Content of the slot at `index`.
    pub fn slot_content(&self, index: usize) -> (r: Option<&(ResourceId, u32)>)
        ensures
            index < self@.len() && self@[index as int] is Some <==> r is Some,
            r matches Some(c) ==> self@[index as int] == Some((c.0@, c.1)),
    {
        if index < self.slots.len() {
            match &self.slots[index] {
                Some(c) => Some(c),
                None => None,
            }
        } else {
            None
        }
    }

    /// Swap the contents of two slots, growing the slot list with empty slots
    /// when an index lies past its end.
    pub fn swap_slots(&mut self, a: usize, b: usize)
        requires
            a < usize::MAX,
            b < usize::MAX,
        ensures
            final(self)@ == spec_swap(old(self)@, a as int, b as int),
            final(self).spec_capacity() == old(self).spec_capacity(),
    {
        if a == b {
            return ;
        }
        let max = if a > b {
            a
        } else {
            b
        };
        let ghost v = self@;
        let ghost g = if max >= v.len() {
            v + Seq::new((max + 1 - v.len()) as nat, |k: int| None::<(Seq<char>, u32)>)
        } else {
            v
        };
        if max >= self.slots.len() {
            let old_len = self.slots.len();
            assert forall|k: int| 0 <= k < old_len implies slot_view(#[trigger] self.slots@[k]) == v[k] by {}
            while self.slots.len() < max + 1
                invariant
                    old_len == v.len(),
                    max >= old_len,
                    max < usize::MAX,
                    old_len <= self.slots@.len() <= max + 1,
                    self.capacity == old(self).capacity,
                    forall|k: int| 0 <= k < old_len ==> slot_view(#[trigger] self.slots@[k]) == v[k],
                    forall|k: int| old_len <= k < self.slots@.len() ==> #[trigger] self.slots@[k] is None,
                decreases max + 1 - self.slots@.len(),
            {
                self.slots.push(None);
            }
            assert(self@ =~= g);
        } else {
            assert(self@ =~= g);
        }
        let first = clone_slot(&self.slots[a]);
        let second = clone_slot(&self.slots[b]);
        self.slots.set(a, second);
        self.slots.set(b, first);
    }

    /// The first occupied slot's resource, if any.
    pub fn first_resource(&self) -> (r: Option<ResourceId>)
        ensures
            first_index(self@, is_occupied()) < 0 <==> r is None,
            r matches Some(id) ==> self@[first_index(self@, is_occupied())] matches Some((q, _))
                && q == id@,
    {
        let ghost v = self@;
        let n = self.slots.len();
        let mut i: usize = 0;
        while i < n
            invariant
                n == self.slots@.len(),
                v == self@,
                i <= n,
                forall|k: int| 0 <= k < i ==> !is_occupied()(#[trigger] v[k]),
            decreases n - i,
        {
            match &self.slots[i] {
                Some((r, _)) => {
                    proof {
                        lemma_first_index_is(v, is_occupied(), i as int);
                    }
                    return Some(r.duplicate());
                },
                None => {},
            }
            i = i + 1;
        }
        proof {
            lemma_first_index_none(v, is_occupied());
        }
        None
    }

    /// The occupied slots, in slot order.
    pub fn iter_occupied(&self) -> (r: Vec<(ResourceId, u32)>)
        ensures
            r@.map_values(|p: (ResourceId, u32)| (p.0@, p.1)) == occupied_of(self@),
    {
        let ghost v = self@;
        let n = self.slots.len();
        let mut out: Vec<(ResourceId, u32)> = Vec::new();
        let mut i: usize = 0;
        while i < n
            invariant
                n == self.slots@.len(),
                v == self@,
                i <= n,
                out@.map_values(|p: (ResourceId, u32)| (p.0@, p.1)) == occupied_of(
                    v.take(i as int),
                ),
            decreases n - i,
        {
            assert(v.take(i + 1).drop_last() =~= v.take(i as int));
            match &self.slots[i] {
                Some((r, a)) => {
                    out.push((r.duplicate(), *a));
                    assert(out@.map_values(|p: (ResourceId, u32)| (p.0@, p.1)) =~= occupied_of(
                        v.take(i + 1),
                    ));
                },
                None => {},
            }
            i = i + 1;
        }
        assert(v.take(n as int) =~= v);
        out
    }

    /// Clear all slots (set every slot to `None`), keeping their number.
    pub fn clear(&mut self)
        ensures
            final(self)@ == Seq::new(old(self)@.len(), |k: int| None::<(Seq<char>, u32)>),
            final(self).spec_capacity() == old(self).spec_capacity(),
    {
        let n = self.slots.len();
        let mut i: usize = 0;
        while i < n
            invariant
                n == self.slots@.len(),
                n == old(self)@.len(),
                self.capacity == old(self).capacity,
                i <= n,
                forall|k: int| 0 <= k < i ==> #[trigger] self.slots@[k] is None,
            decreases n - i,
        {
            self.slots.set(i, None);
            i = i + 1;
        }
        assert(self@ =~= Seq::new(old(self)@.len(), |k: int| None::<(Seq<char>, u32)>));
    }

    /// The slots as plain values, for saving.
    pub fn to_raw_slots(&self) -> (r: Vec<Option<(String, u32)>>)
        ensures
            r@.len() == self@.len(),
            forall|k: int| 0 <= k < r@.len() ==> #[trigger] self@[k] == match r@[k] {
                Some((s, a)) => Some((s@, a)),
                None => None,
            },
    {
        let n = self.slots.len();
        let mut out: Vec<Option<(String, u32)>> = Vec::new();
        let mut i: usize = 0;
        while i < n
            invariant
                n == self.slots@.len(),
                i <= n,
                out@.len() == i,
                forall|k: int| 0 <= k < i ==> #[trigger] self@[k] == match out@[k] {
                    Some((s, a)) => Some((s@, a)),
                    None => None,
                },
            decreases n - i,
        {
            match &self.slots[i] {
                Some((r, a)) => out.push(Some((r.0.clone(), *a))),
                None => out.push(None),
            }
            i = i + 1;
        }
        out
    }

    /// Rebuilds an inventory from saved slots.
    pub fn from_raw_slots(raw: Vec<Option<(String, u32)>>, capacity: u32) -> (r: Inventory)
        ensures
            r.spec_capacity() == capacity,
            r@.len() == raw@.len(),
            forall|k: int| 0 <= k < raw@.len() ==> #[trigger] r@[k] == match raw@[k] {
                Some((s, a)) => Some((s@, a)),
                None => None,
            },
    {
        let n = raw.len();
        let mut slots: Vec<Option<(ResourceId, u32)>> = Vec::new();
        let mut i: usize = 0;
        while i < n
            invariant
                n == raw@.len(),
                i <= n,
                slots@.len() == i,
                forall|k: int| 0 <= k < i ==> #[trigger] slot_view(slots@[k]) == match raw@[k] {
                    Some((s, a)) => Some((s@, a)),
                    None => None,
                },
            decreases n - i,
        {
            match &raw[i] {
                Some((s, a)) => slots.push(Some((ResourceId(s.clone()), *a))),
                None => slots.push(None),
            }
            i = i + 1;
        }
        Inventory { slots, capacity }
    }
}


/// Adding `amount` of `r` raises the amount of `r` by exactly `amount` and leaves
/// every other resource's amount as it was, as long as the amount of `r` stays
/// within `u32`.
pub proof fn law_add_amounts(s: Seq<SlotView>, r: Seq<char>, amount: u32, q: Seq<char>)
    requires
        amount_in(s, r) + amount <= u32::MAX,
    ensures
        amount_in(spec_add(s, r, amount), q) == amount_in(s, q) + if q == r {
            amount as nat
        } else {
            0
        },
{
    lemma_first_index(s, holds(r));
    let m = first_index(s, holds(r));
    if m >= 0 {
        lemma_sum_element_le(s, m, amount_of(r));
        lemma_sum_update(s, m, Some((r, sat_add((s[m]->0).1, amount))), amount_of(q));
    } else {
        lemma_first_index(s, is_empty());
        let e = first_index(s, is_empty());
        if e >= 0 {
            lemma_sum_update(s, e, Some((r, amount)), amount_of(q));
        } else {
            lemma_sum_push(s, Some((r, amount)), amount_of(q));
        }
    }
}

/// Adding `amount` raises the total by at most `amount`, and by exactly
/// `amount` as long as the amount of the added resource stays within `u32`.
pub proof fn law_add_total(s: Seq<SlotView>, r: Seq<char>, amount: u32)
    ensures
        total_in(spec_add(s, r, amount)) <= total_in(s) + amount,
        amount_in(s, r) + amount <= u32::MAX ==> total_in(spec_add(s, r, amount)) == total_in(s)
            + amount,
{
    lemma_first_index(s, holds(r));
    let m = first_index(s, holds(r));
    if m >= 0 {
        lemma_sum_element_le(s, m, amount_of(r));
        lemma_sum_update(s, m, Some((r, sat_add((s[m]->0).1, amount))), amount_any());
    } else {
        lemma_first_index(s, is_empty());
        let e = first_index(s, is_empty());
        if e >= 0 {
            lemma_sum_update(s, e, Some((r, amount)), amount_any());
        } else {
            lemma_sum_push(s, Some((r, amount)), amount_any());
        }
    }
}

/// A successful removal of `amount` of `r` lowers the amount of `r` by exactly
/// `amount` and leaves every other resource's amount as it was; a failed one
/// changes nothing.
pub proof fn law_remove_amounts(s: Seq<SlotView>, r: Seq<char>, amount: u32, q: Seq<char>)
    ensures
        spec_can_remove(s, r, amount) ==> amount_in(spec_remove(s, r, amount), q) + (if q == r {
            amount as nat
        } else {
            0
        }) == amount_in(s, q),
        !spec_can_remove(s, r, amount) ==> spec_remove(s, r, amount) == s,
        spec_can_remove(s, r, amount) ==> amount_in(s, r) >= amount,
{
    lemma_first_index(s, holds_at_least(r, amount));
    let i = first_index(s, holds_at_least(r, amount));
    if i >= 0 {
        let left = ((s[i]->0).1 - amount) as u32;
        let x = if left == 0 {
            None
        } else {
            Some((r, left))
        };
        lemma_sum_update(s, i, x, amount_of(q));
        lemma_sum_element_le(s, i, amount_of(r));
    }
}

/// A successful removal lowers the total by exactly the removed amount.
pub proof fn law_remove_total(s: Seq<SlotView>, r: Seq<char>, amount: u32)
    ensures
        spec_can_remove(s, r, amount) ==> total_in(spec_remove(s, r, amount)) + amount
            == total_in(s),
{
    lemma_first_index(s, holds_at_least(r, amount));
    let i = first_index(s, holds_at_least(r, amount));
    if i >= 0 {
        let left = ((s[i]->0).1 - amount) as u32;
        let x = if left == 0 {
            None
        } else {
            Some((r, left))
        };
        lemma_sum_update(s, i, x, amount_any());
    }
}

/// Removing what was just added always succeeds and gives back the original
/// amounts of every resource.
pub proof fn law_add_then_remove(s: Seq<SlotView>, r: Seq<char>, amount: u32, q: Seq<char>)
    requires
        amount_in(s, r) + amount <= u32::MAX,
    ensures
        spec_can_remove(spec_add(s, r, amount), r, amount),
        amount_in(spec_remove(spec_add(s, r, amount), r, amount), q) == amount_in(s, q),
{
    let t = spec_add(s, r, amount);
    lemma_first_index(s, holds(r));
    let m = first_index(s, holds(r));
    let idx = if m >= 0 {
        m
    } else {
        lemma_first_index(s, is_empty());
        let e = first_index(s, is_empty());
        if e >= 0 {
            e
        } else {
            s.len() as int
        }
    };
    if m >= 0 {
        lemma_sum_element_le(s, m, amount_of(r));
    }
    assert(holds_at_least(r, amount)(t[idx]));
    lemma_first_index(t, holds_at_least(r, amount));
    if first_index(t, holds_at_least(r, amount)) < 0 {
        assert(!holds_at_least(r, amount)(t[idx]));
    }
    law_add_amounts(s, r, amount, q);
    law_remove_amounts(t, r, amount, q);
}

/// A successful `try_add` never takes a bounded inventory over its capacity.
pub proof fn law_try_add_respects_capacity(s: Seq<SlotView>, capacity: u32, r: Seq<char>, amount: u32)
    requires
        capacity > 0,
        total_in(s) + amount <= capacity,
    ensures
        total_in(spec_add(s, r, amount)) <= capacity,
{
    law_add_total(s, r, amount);
}

/// Swapping two slots moves items around without changing any amount.
pub proof fn law_swap_keeps_amounts(s: Seq<SlotView>, a: int, b: int, q: Seq<char>)
    requires
        0 <= a,
        0 <= b,
    ensures
        amount_in(spec_swap(s, a, b), q) == amount_in(s, q),
        total_in(spec_swap(s, a, b)) == total_in(s),
{
    if a != b {
        let max = if a > b {
            a
        } else {
            b
        };
        let pad = Seq::new((max + 1 - s.len()) as nat, |k: int| None::<(Seq<char>, u32)>);
        let g = if max >= s.len() {
            s + pad
        } else {
            s
        };
        if max >= s.len() {
            lemma_sum_concat_none(s, pad, amount_of(q));
            lemma_sum_concat_none(s, pad, amount_any());
        }
        let g1 = g.update(a, g[b]);
        lemma_sum_update(g, a, g[b], amount_of(q));
        lemma_sum_update(g1, b, g[a], amount_of(q));
        lemma_sum_update(g, a, g[b], amount_any());
        lemma_sum_update(g1, b, g[a], amount_any());
    }
}

proof fn lemma_sum_concat_none(s: Seq<SlotView>, pad: Seq<SlotView>, f: spec_fn(SlotView) -> nat)
    requires
        forall|k: int| 0 <= k < pad.len() ==> #[trigger] pad[k] is None,
        f(None) == 0,
    ensures
        sum_by(s + pad, f) == sum_by(s, f),
    decreases pad.len(),
{
    if pad.len() > 0 {
        let p = pad.drop_last();
        assert((s + pad).drop_last() =~= s + p);
        lemma_sum_concat_none(s, p, f);
    }
}

/// A cleared inventory holds nothing.
pub proof fn law_clear_empties(n: nat)
    ensures
        total_in(Seq::new(n, |k: int| None::<(Seq<char>, u32)>)) == 0,
{
    lemma_sum_zero(Seq::new(n, |k: int| None::<(Seq<char>, u32)>), amount_any());
}

} // verus!
