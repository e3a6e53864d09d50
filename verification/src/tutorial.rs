use vstd::prelude::*;

use crate::first_index::{first_index, lemma_first_index, lemma_first_index_is, lemma_first_index_none};
use crate::inventory::{amount_in, Inventory};
use crate::recipe::{items_view, sum_amounts, total_amount};
use crate::resource::ResourceId;
use crate::text::{owned, str_equal};

verus! {

/// The value of a text of decimal digits.
pub open spec fn digits_value(d: Seq<char>) -> int
    decreases d.len(),
{
    if d.len() == 0 {
        0
    } else {
        10 * digits_value(d.drop_last()) + ((d.last() as u32) - ('0' as u32))
    }
}

pub open spec fn all_digits(d: Seq<char>) -> bool {
    forall|k: int| 0 <= k < d.len() ==> '0' <= #[trigger] d[k] && d[k] <= '9'
}

/// What `str::parse::<u32>` gives: an optional `+` then at least one decimal
/// digit, with a value that fits in a `u32`.
pub open spec fn spec_parse_u32(s: Seq<char>) -> Option<u32> {
    let d = if s.len() > 0 && s[0] == '+' {
        s.skip(1)
    } else {
        s
    };
    if d.len() == 0 || !all_digits(d) || digits_value(d) > u32::MAX {
        None
    } else {
        Some(digits_value(d) as u32)
    }
}

proof fn lemma_digits_nonneg(d: Seq<char>)
    requires
        all_digits(d),
    ensures
        digits_value(d) >= 0,
    decreases d.len(),
{
    if d.len() > 0 {
        assert(all_digits(d.drop_last()));
        lemma_digits_nonneg(d.drop_last());
        assert('0' <= d[d.len() - 1]);
    }
}

proof fn lemma_digits_value_grows(d: Seq<char>, n: int)
    requires
        all_digits(d),
        0 <= n <= d.len(),
    ensures
        digits_value(d.take(n)) <= digits_value(d),
    decreases d.len() - n,
{
    if n < d.len() {
        lemma_digits_value_grows(d, n + 1);
        assert(d.take(n + 1).drop_last() =~= d.take(n));
        assert('0' <= d[n] && d[n] <= '9');
        assert(all_digits(d.take(n)));
        lemma_digits_nonneg(d.take(n));
        assert(d.take(n + 1).last() == d[n]);
    } else {
        assert(d.take(n) =~= d);
    }
}

/// Reads a decimal `u32` as `str::parse::<u32>` does.
pub fn parse_u32(s: &str) -> (r: Option<u32>)
    ensures
        r == spec_parse_u32(s@),
{
    let n = s.unicode_len();
    let start: usize = if n > 0 && s.get_char(0) == '+' {
        1
    } else {
        0
    };
    let ghost d = if s@.len() > 0 && s@[0] == '+' {
        s@.skip(1)
    } else {
        s@
    };
    assert(d =~= s@.skip(start as int));
    if start >= n {
        return None;
    }
    let mut v: u32 = 0;
    let mut i: usize = start;
    while i < n
        invariant
            n == s@.len(),
            start <= i <= n,
            d == s@.skip(start as int),
            d == (if s@.len() > 0 && s@[0] == '+' {
                s@.skip(1)
            } else {
                s@
            }),
            d.len() > 0,
            all_digits(d.take(i - start)),
            v as int == digits_value(d.take(i - start)),
        decreases n - i,
    {
        let c = s.get_char(i);
        assert(d[i - start] == c);
        assert(d.take(i - start + 1).drop_last() =~= d.take(i - start));
        if !('0' <= c && c <= '9') {
            assert(!all_digits(d)) by {
                assert(!('0' <= d[i - start] && d[i - start] <= '9'));
            }
            return None;
        }
        let digit = (c as u32) - ('0' as u32);
        if v > 429496729 || (v == 429496729 && digit > 5) {
            proof {
                assert(all_digits(d.take(i - start + 1)));
                if all_digits(d) {
                    lemma_digits_value_grows(d, i - start + 1);
                }
            }
            return None;
        }
        v = v * 10 + digit;
        i = i + 1;
    }
    assert(d.take(n - start) =~= d);
    Some(v)
}

/// A step of the tutorial: the toast shown when its condition is met.
#[derive(Debug, Clone)]
pub struct TutorialStepDef {
    pub id: String,
    pub toast: String,
    pub condition: String,
    pub params: Vec<(String, String)>,
}

/// Where the player is in the tutorial.
#[derive(Debug, Clone, Default)]
pub struct TutorialState {
    pub current_index: usize,
    pub completed: bool,
    pub steps: Vec<TutorialStepDef>,
}

/// What the tutorial keeps count of (the distance walked, a float, is kept
/// by the game).
#[derive(Debug, Clone, Default)]
pub struct TutorialConditions {
    pub items_collected: u32,
    pub items_crafted: Vec<(String, u32)>,
    pub buildings_placed: u32,
    pub building_types_placed: Vec<(String, u32)>,
    pub has_interacted_with_structure: bool,
    pub structures_interacted: Vec<(String, bool)>,
}

pub open spec fn key_is<V>(k: Seq<char>) -> spec_fn((String, V)) -> bool {
    |p: (String, V)| p.0@ == k
}

/// The value of the first entry with the key.
pub open spec fn lookup<V>(m: Seq<(String, V)>, k: Seq<char>) -> Option<V> {
    let i = first_index(m, key_is::<V>(k));
    if i < 0 {
        None
    } else {
        Some(m[i].1)
    }
}

fn find_key<V>(m: &Vec<(String, V)>, k: &str) -> (r: Option<usize>)
    ensures
        match r {
            Some(i) => i < m@.len() && first_index(m@, key_is::<V>(k@)) == i as int,
            None => first_index(m@, key_is::<V>(k@)) < 0,
        },
{
    let ghost p = key_is::<V>(k@);
    let mut i: usize = 0;
    while i < m.len()
        invariant
            i <= m@.len(),
            p == key_is::<V>(k@),
            forall|j: int| 0 <= j < i ==> !p(#[trigger] m@[j]),
        decreases m@.len() - i,
    {
        if str_equal(m[i].0.as_str(), k) {
            proof {
                lemma_first_index_is(m@, p, i as int);
            }
            return Some(i);
        }
        i = i + 1;
    }
    proof {
        lemma_first_index_none(m@, p);
    }
    None
}

fn get_count(m: &Vec<(String, u32)>, k: &str) -> (r: u32)
    ensures
        r == match lookup(m@, k@) {
            Some(v) => v,
            None => 0,
        },
{
    match find_key(m, k) {
        Some(i) => m[i].1,
        None => 0,
    }
}

fn get_param<'a>(params: &'a Vec<(String, String)>, k: &str) -> (r: Option<&'a String>)
    ensures
        match r {
            Some(v) => lookup(params@, k@) == Some(*v),
            None => lookup(params@, k@) is None,
        },
{
    match find_key(params, k) {
        Some(i) => Some(&params[i].1),
        None => None,
    }
}

pub open spec fn count_of(m: Seq<(String, u32)>, k: Seq<char>) -> u32 {
    match lookup(m, k) {
        Some(v) => v,
        None => 0,
    }
}

/// The number a parameter gives, or the default when it is missing or is
/// not a number.
pub open spec fn param_u32(params: Seq<(String, String)>, k: Seq<char>, default: u32) -> u32 {
    match lookup(params, k) {
        Some(v) => match spec_parse_u32(v@) {
            Some(x) => x,
            None => default,
        },
        None => default,
    }
}

/// Whether a tutorial condition is met. The two conditions on distances are
/// measured by the game: `moved_far_enough` (the player walked the step's
/// `distance`) and `near_structure` (a matching building is within the step's
/// `distance` of the player). An unknown condition counts as met.
pub open spec fn spec_condition_met(
    condition: Seq<char>,
    params: Seq<(String, String)>,
    c: TutorialConditions,
    moved_far_enough: bool,
    near_structure: bool,
) -> bool {
    if condition == "player_moved_distance"@ {
        moved_far_enough
    } else if condition == "items_collected"@ {
        c.items_collected >= param_u32(params, "count"@, 1)
    } else if condition == "item_crafted"@ {
        match lookup(params, "recipe_id"@) {
            Some(r) => count_of(c.items_crafted@, r@) >= 1,
            None => false,
        }
    } else if condition == "building_placed"@ {
        match lookup(params, "building_id"@) {
            Some(b) => count_of(c.building_types_placed@, b@) >= 1,
            None => c.buildings_placed >= 1,
        }
    } else if condition == "player_near_structure"@ {
        near_structure
    } else if condition == "structure_interacted"@ {
        match lookup(params, "structure_id"@) {
            Some(s) => match lookup(c.structures_interacted@, s@) {
                Some(v) => v,
                None => false,
            },
            None => c.has_interacted_with_structure,
        }
    } else {
        true
    }
}

/// Evaluates a tutorial step's condition.
pub fn evaluate_condition(
    condition: &str,
    params: &Vec<(String, String)>,
    conditions: &TutorialConditions,
    moved_far_enough: bool,
    near_structure: bool,
) -> (r: bool)
    ensures
        r == spec_condition_met(condition@, params@, *conditions, moved_far_enough, near_structure),
{
    if str_equal(condition, "player_moved_distance") {
        moved_far_enough
    } else if str_equal(condition, "items_collected") {
        let required = match get_param(params, "count") {
            Some(v) => match parse_u32(v.as_str()) {
                Some(x) => x,
                None => 1,
            },
            None => 1,
        };
        conditions.items_collected >= required
    } else if str_equal(condition, "item_crafted") {
        match get_param(params, "recipe_id") {
            Some(r) => get_count(&conditions.items_crafted, r.as_str()) >= 1,
            None => false,
        }
    } else if str_equal(condition, "building_placed") {
        match get_param(params, "building_id") {
            Some(b) => get_count(&conditions.building_types_placed, b.as_str()) >= 1,
            None => conditions.buildings_placed >= 1,
        }
    } else if str_equal(condition, "player_near_structure") {
        near_structure
    } else if str_equal(condition, "structure_interacted") {
        match get_param(params, "structure_id") {
            Some(s) => match find_key(&conditions.structures_interacted, s.as_str()) {
                Some(i) => conditions.structures_interacted[i].1,
                None => false,
            },
            None => conditions.has_interacted_with_structure,
        }
    } else {
        true
    }
}

impl TutorialConditions {
    /// Counts a building placed by the player; the headquarters does not count.
    pub fn record_building_placed(&mut self, kind: &str)
        requires
            old(self).buildings_placed < u32::MAX,
            count_of(old(self).building_types_placed@, kind@) < u32::MAX,
        ensures
            kind@ == "hq"@ ==> *final(self) == *old(self),
            kind@ != "hq"@ ==> final(self).buildings_placed == old(self).buildings_placed + 1
                && count_of(final(self).building_types_placed@, kind@) == count_of(
                old(self).building_types_placed@,
                kind@,
            ) + 1 && (forall|k: Seq<char>|
                k != kind@ ==> count_of(final(self).building_types_placed@, k) == count_of(
                    old(self).building_types_placed@,
                    k,
                )) && final(self).items_collected == old(self).items_collected
                && final(self).items_crafted == old(self).items_crafted
                && final(self).has_interacted_with_structure == old(
                self,
            ).has_interacted_with_structure && final(self).structures_interacted == old(
                self,
            ).structures_interacted,
    {
        if str_equal(kind, "hq") {
            return;
        }
        self.buildings_placed = self.buildings_placed + 1;
        bump(&mut self.building_types_placed, kind);
    }

    /// Notes how many items the player holds: the most held so far counts.
    pub fn record_items_held(&mut self, total: u32)
        ensures
            final(self).items_collected == (if total > old(self).items_collected {
                total
            } else {
                old(self).items_collected
            }),
            final(self).items_crafted == old(self).items_crafted,
            final(self).buildings_placed == old(self).buildings_placed,
            final(self).building_types_placed == old(self).building_types_placed,
    {
        if total > self.items_collected {
            self.items_collected = total;
        }
    }

    /// Notes how many times a recipe's output is held: the most so far counts.
    pub fn record_crafted(&mut self, recipe_id: &str, produced: u32)
        ensures
            count_of(final(self).items_crafted@, recipe_id@) == (if produced > count_of(
                old(self).items_crafted@,
                recipe_id@,
            ) {
                produced
            } else {
                count_of(old(self).items_crafted@, recipe_id@)
            }),
            forall|k: Seq<char>|
                k != recipe_id@ ==> count_of(final(self).items_crafted@, k) == count_of(
                    old(self).items_crafted@,
                    k,
                ),
            final(self).items_collected == old(self).items_collected,
            final(self).buildings_placed == old(self).buildings_placed,
            final(self).building_types_placed == old(self).building_types_placed,
    {
        let cur = get_count(&self.items_crafted, recipe_id);
        if produced > cur {
            set_count(&mut self.items_crafted, recipe_id, produced);
        } else {
            set_count(&mut self.items_crafted, recipe_id, cur);
        }
    }
}

proof fn lemma_lookup_update<V>(m: Seq<(String, V)>, i: int, p: (String, V), k: Seq<char>)
    requires
        0 <= i < m.len(),
        first_index(m, key_is::<V>(p.0@)) == i,
        m[i].0@ == p.0@,
    ensures
        lookup(m.update(i, p), k) == (if k == p.0@ {
            Some(p.1)
        } else {
            lookup(m, k)
        }),
{
    let u = m.update(i, p);
    lemma_first_index(m, key_is::<V>(k));
    lemma_first_index(u, key_is::<V>(k));
    let a = first_index(m, key_is::<V>(k));
    let b = first_index(u, key_is::<V>(k));
    assert forall|j: int| 0 <= j < m.len() implies key_is::<V>(k)(#[trigger] u[j]) == key_is::<V>(k)(m[j]) by {
        if j == i {
        }
    }
    if a >= 0 {
        assert(key_is::<V>(k)(u[a]));
    }
    if b >= 0 {
        assert(key_is::<V>(k)(m[b]));
    }
    if k == p.0@ {
        assert(first_index(m, key_is::<V>(k)) == i);
    }
}

proof fn lemma_lookup_push<V>(m: Seq<(String, V)>, p: (String, V), k: Seq<char>)
    requires
        first_index(m, key_is::<V>(p.0@)) < 0,
    ensures
        lookup(m.push(p), k) == (if k == p.0@ {
            Some(p.1)
        } else {
            lookup(m, k)
        }),
{
    let u = m.push(p);
    assert(u.drop_last() =~= m);
    lemma_first_index(m, key_is::<V>(k));
}

fn set_count(m: &mut Vec<(String, u32)>, k: &str, v: u32)
    ensures
        count_of(final(m)@, k@) == v,
        forall|q: Seq<char>| q != k@ ==> count_of(final(m)@, q) == count_of(old(m)@, q),
{
    match find_key(m, k) {
        Some(i) => {
            let ghost before = m@;
            proof {
                lemma_first_index(before, key_is::<u32>(k@));
            }
            let name = owned(k);
            let ghost pn = (name, v);
            m.set(i, (name, v));
            proof {
                assert forall|q: Seq<char>| #![auto] count_of(m@, q) == (if q == k@ { v } else { count_of(before, q) }) by {
                    lemma_lookup_update(before, i as int, pn, q);
                }
            }
        },
        None => {
            let ghost before = m@;
            let name = owned(k);
            let ghost pn = (name, v);
            m.push((name, v));
            proof {
                assert forall|q: Seq<char>| #![auto] count_of(m@, q) == (if q == k@ { v } else { count_of(before, q) }) by {
                    lemma_lookup_push(before, pn, q);
                }
            }
        },
    }
}

fn bump(m: &mut Vec<(String, u32)>, k: &str)
    requires
        count_of(old(m)@, k@) < u32::MAX,
    ensures
        count_of(final(m)@, k@) == count_of(old(m)@, k@) + 1,
        forall|q: Seq<char>| q != k@ ==> count_of(final(m)@, q) == count_of(old(m)@, q),
{
    let c = get_count(m, k);
    set_count(m, k, c + 1);
}

impl TutorialState {
    /// One frame of the tutorial: when the current step's condition is met, or
    /// when the step is skipped, its toast is shown and the next step becomes
    /// current (both can happen in one frame); after the last step the tutorial
    /// is completed. Returns the toasts shown.
    pub fn tick(&mut self, met: bool, skip: bool) -> (toasts: Vec<String>)
        requires
            old(self).completed || old(self).steps@.len() == 0 || old(self).current_index
                < old(self).steps@.len(),
            !(met && skip && !old(self).completed && old(self).current_index + 1 == old(
                self,
            ).steps@.len()),
        ensures
            final(self).steps == old(self).steps,
            old(self).completed || old(self).steps@.len() == 0 ==> *final(self) == *old(self)
                && toasts@.len() == 0,
            !(old(self).completed || old(self).steps@.len() == 0) ==> {
                let adv = (if met {
                    1int
                } else {
                    0int
                }) + (if skip {
                    1int
                } else {
                    0int
                });
                &&& final(self).current_index == old(self).current_index + adv
                &&& toasts@.len() == adv
                &&& forall|k: int|
                    0 <= k < adv ==> toasts@[k]@ == old(self).steps@[old(self).current_index
                        + k].toast@
                &&& final(self).completed == (final(self).current_index >= old(
                    self,
                ).steps@.len())
                &&& final(self).completed || final(self).current_index < final(self).steps@.len()
            },
    {
        let mut toasts: Vec<String> = Vec::new();
        if self.completed || self.steps.len() == 0 {
            return toasts;
        }
        let ghost start = self.current_index;
        if met {
            let t = owned(self.steps[self.current_index].toast.as_str());
            toasts.push(t);
            self.current_index = self.current_index + 1;
            if self.current_index >= self.steps.len() {
                self.completed = true;
            }
        }
        if skip {
            let t = owned(self.steps[self.current_index].toast.as_str());
            toasts.push(t);
            self.current_index = self.current_index + 1;
            if self.current_index >= self.steps.len() {
                self.completed = true;
            }
        }
        toasts
    }
}

/// The least, over a recipe's outputs, of the amount held capped at the
/// amount the recipe makes; 0 for a recipe without outputs.
pub open spec fn spec_min_held(inv: Seq<crate::inventory::SlotView>, outs: Seq<(Seq<char>, u32)>) -> int
    decreases outs.len(),
{
    if outs.len() == 0 {
        0
    } else {
        let held = if amount_in(inv, outs.last().0) < outs.last().1 {
            amount_in(inv, outs.last().0) as int
        } else {
            outs.last().1 as int
        };
        if outs.len() == 1 {
            held
        } else {
            let rest = spec_min_held(inv, outs.drop_last());
            if held < rest {
                held
            } else {
                rest
            }
        }
    }
}

/// How many times the player holds a recipe's output: the least held output
/// (capped at what one craft makes) divided by the number of items one
/// craft makes.
pub fn crafted_times(inv: &Inventory, outputs: &Vec<(ResourceId, u32)>) -> (r: u32)
    requires
        sum_amounts(items_view(outputs@)) <= u32::MAX,
        sum_amounts(items_view(outputs@)) > 0,
        forall|k: int| 0 <= k < outputs@.len() ==> amount_in(inv@, (#[trigger] outputs@[k]).0@) <= u32::MAX,
    ensures
        r as int == spec_min_held(inv@, items_view(outputs@)) / (sum_amounts(items_view(outputs@)) as int),
{
    let count = total_amount(outputs);
    let ghost ov = items_view(outputs@);
    let mut held: u32 = 0;
    let mut i: usize = 0;
    while i < outputs.len()
        invariant
            i <= outputs@.len(),
            ov == items_view(outputs@),
            forall|k: int| 0 <= k < outputs@.len() ==> amount_in(inv@, (#[trigger] outputs@[k]).0@) <= u32::MAX,
            held as int == spec_min_held(inv@, ov.take(i as int)),
        decreases outputs@.len() - i,
    {
        let (ref res, amt) = outputs[i];
        assert(ov.take(i + 1).drop_last() =~= ov.take(i as int));
        assert(ov.take(i + 1).last() == (res@, amt));
        let have = inv.get(res);
        let h = if have < amt {
            have
        } else {
            amt
        };
        if i == 0 || h < held {
            held = h;
        }
        i = i + 1;
    }
    assert(ov.take(outputs@.len() as int) =~= ov);
    held / count
}

} // verus!
