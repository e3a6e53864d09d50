use vstd::prelude::*;

use crate::first_index::{first_index, lemma_first_index, lemma_first_index_is, lemma_first_index_none};
use crate::inventory::{
    law_add_total, law_remove_total,
    amount_in, spec_add, spec_remove, total_in, Inventory, SlotView,
};
use crate::resource::ResourceId;
use crate::seq_sum::{lemma_sum_prefix_le, lemma_sum_take_full, lemma_sum_take_succ, sum_by};
use crate::text::str_equal;

verus! {

/// A list of `(resource, amount)` pairs seen as plain values.
pub open spec fn items_view(v: Seq<(ResourceId, u32)>) -> Seq<(Seq<char>, u32)> {
    v.map_values(|p: (ResourceId, u32)| (p.0@, p.1))
}

/// The item part of a recipe: what it consumes and what it produces.
/// (Fluids and crafting time are real-valued and handled by the caller.)
#[derive(Debug, Clone)]
pub struct RecipeDef {
    pub id: String,
    pub category: String,
    pub craftable_in: Vec<String>,
    pub input: Vec<(ResourceId, u32)>,
    pub output: Vec<(ResourceId, u32)>,
}

/// All known recipes, searched by identifier.
#[derive(Debug, Clone)]
pub struct RecipeRegistry {
    pub recipes: Vec<RecipeDef>,
}

pub open spec fn has_id(id: Seq<char>) -> spec_fn(RecipeDef) -> bool {
    |r: RecipeDef| r.id@ == id
}

/// Index of the recipe with identifier `id`, or -1.
pub open spec fn recipe_index(recipes: Seq<RecipeDef>, id: Seq<char>) -> int {
    first_index(recipes, has_id(id))
}

/// Every input is present in at least the required amount.
pub open spec fn spec_inputs_available(inv: Seq<SlotView>, input: Seq<(Seq<char>, u32)>) -> bool {
    forall|k: int| 0 <= k < input.len() ==> amount_in(inv, #[trigger] input[k].0) >= input[k].1
}

/// The amount of every listed resource fits in `u32` (so it can be counted).
pub open spec fn amounts_fit(inv: Seq<SlotView>, items: Seq<(Seq<char>, u32)>) -> bool {
    forall|k: int| 0 <= k < items.len() ==> amount_in(inv, #[trigger] items[k].0) <= u32::MAX
}

pub open spec fn pair_amount() -> spec_fn((Seq<char>, u32)) -> nat {
    |p: (Seq<char>, u32)| p.1 as nat
}

/// Sum of the amounts in a list of pairs.
pub open spec fn sum_amounts(items: Seq<(Seq<char>, u32)>) -> nat {
    sum_by(items, pair_amount())
}

/// A bounded inventory has room for all the outputs at once.
pub open spec fn spec_output_room(inv: Seq<SlotView>, capacity: u32, output: Seq<(Seq<char>, u32)>) -> bool {
    capacity > 0 ==> total_in(inv) + sum_amounts(output) <= capacity
}

/// The numbers that `output_room` adds up fit in `u32`.
pub open spec fn output_room_fits(inv: Seq<SlotView>, capacity: u32, output: Seq<(Seq<char>, u32)>) -> bool {
    capacity > 0 ==> total_in(inv) + sum_amounts(output) <= u32::MAX
}

/// The slots after removing each listed pair in turn.
pub open spec fn remove_all(s: Seq<SlotView>, items: Seq<(Seq<char>, u32)>) -> Seq<SlotView>
    decreases items.len(),
{
    if items.len() == 0 {
        s
    } else {
        spec_remove(remove_all(s, items.drop_last()), items.last().0, items.last().1)
    }
}

/// The slots after adding each listed pair in turn.
pub open spec fn add_all(s: Seq<SlotView>, items: Seq<(Seq<char>, u32)>) -> Seq<SlotView>
    decreases items.len(),
{
    if items.len() == 0 {
        s
    } else {
        spec_add(add_all(s, items.drop_last()), items.last().0, items.last().1)
    }
}

/// The slots after one crafting cycle: inputs removed, then outputs added.
pub open spec fn spec_craft(s: Seq<SlotView>, input: Seq<(Seq<char>, u32)>, output: Seq<(Seq<char>, u32)>) -> Seq<SlotView> {
    add_all(remove_all(s, input), output)
}

impl RecipeRegistry {
    pub fn new() -> (r: RecipeRegistry)
        ensures
            r.recipes@.len() == 0,
    {
        RecipeRegistry { recipes: Vec::new() }
    }

    /// The recipe with the given identifier.
    pub fn get(&self, id: &str) -> (r: Option<&RecipeDef>)
        ensures
            recipe_index(self.recipes@, id@) < 0 <==> r is None,
            r matches Some(d) ==> *d == self.recipes@[recipe_index(self.recipes@, id@)],
    {
        let n = self.recipes.len();
        let mut i: usize = 0;
        while i < n
            invariant
                n == self.recipes@.len(),
                i <= n,
                forall|k: int| 0 <= k < i ==> !has_id(id@)(#[trigger] self.recipes@[k]),
            decreases n - i,
        {
            if str_equal(self.recipes[i].id.as_str(), id) {
                proof {
                    lemma_first_index_is(self.recipes@, has_id(id@), i as int);
                }
                return Some(&self.recipes[i]);
            }
            i = i + 1;
        }
        proof {
            lemma_first_index_none(self.recipes@, has_id(id@));
        }
        None
    }

    /// Adds a recipe; one with the same identifier is replaced in place.
    pub fn insert(&mut self, def: RecipeDef)
        ensures
            recipe_index(old(self).recipes@, def.id@) >= 0 ==> final(self).recipes@ == old(
                self,
            ).recipes@.update(recipe_index(old(self).recipes@, def.id@), def),
            recipe_index(old(self).recipes@, def.id@) < 0 ==> final(self).recipes@ == old(
                self,
            ).recipes@.push(def),
    {
        let n = self.recipes.len();
        let mut i: usize = 0;
        while i < n
            invariant
                n == self.recipes@.len(),
                self.recipes@ == old(self).recipes@,
                i <= n,
                forall|k: int| 0 <= k < i ==> !has_id(def.id@)(#[trigger] self.recipes@[k]),
            decreases n - i,
        {
            if self.recipes[i].id == def.id {
                proof {
                    lemma_first_index_is(self.recipes@, has_id(def.id@), i as int);
                }
                self.recipes.set(i, def);
                return ;
            }
            i = i + 1;
        }
        proof {
            lemma_first_index_none(self.recipes@, has_id(def.id@));
        }
        self.recipes.push(def);
    }
}

/// Whether the inventory holds every input of the recipe in the required amount.
pub fn inputs_available(inv: &Inventory, input: &Vec<(ResourceId, u32)>) -> (r: bool)
    requires
        amounts_fit(inv@, items_view(input@)),
    ensures
        r == spec_inputs_available(inv@, items_view(input@)),
{
    let n = input.len();
    let ghost iv = items_view(input@);
    let mut i: usize = 0;
    while i < n
        invariant
            n == input@.len(),
            iv == items_view(input@),
            amounts_fit(inv@, iv),
            i <= n,
            forall|k: int| 0 <= k < i ==> amount_in(inv@, #[trigger] iv[k].0) >= iv[k].1,
        decreases n - i,
    {
        assert(iv[i as int].0 == input@[i as int].0@);
        let have = inv.get(&input[i].0);
        if have < input[i].1 {
            return false;
        }
        i = i + 1;
    }
    true
}

/// Sum of the amounts of a list of pairs.
pub fn total_amount(items: &Vec<(ResourceId, u32)>) -> (r: u32)
    requires
        sum_amounts(items_view(items@)) <= u32::MAX,
    ensures
        r == sum_amounts(items_view(items@)),
{
    let n = items.len();
    let ghost iv = items_view(items@);
    let ghost f = pair_amount();
    let mut sum: u32 = 0;
    let mut i: usize = 0;
    while i < n
        invariant
            n == items@.len(),
            iv == items_view(items@),
            f == pair_amount(),
            sum_by(iv, f) <= u32::MAX,
            i <= n,
            sum == sum_by(iv.take(i as int), f),
        decreases n - i,
    {
        proof {
            lemma_sum_take_succ(iv, i as int, f);
            lemma_sum_prefix_le(iv, i + 1, f);
        }
        sum = sum + items[i].1;
        i = i + 1;
    }
    proof {
        lemma_sum_take_full(iv, f);
    }
    sum
}

/// Whether a bounded inventory has room for all the outputs of one cycle.
pub fn output_room(inv: &Inventory, output: &Vec<(ResourceId, u32)>) -> (r: bool)
    requires
        inv.spec_capacity() > 0 ==> sum_amounts(items_view(output@)) <= u32::MAX,
        output_room_fits(inv@, inv.spec_capacity(), items_view(output@)),
    ensures
        r == spec_output_room(inv@, inv.spec_capacity(), items_view(output@)),
{
    if inv.capacity() > 0 {
        let total_output = total_amount(output);
        if inv.total() + total_output > inv.capacity() {
            return false;
        }
    }
    true
}

/// Whether a machine running `recipe_id` with this inventory could craft now:
/// the recipe exists, every input is there, and the outputs would fit.
pub fn has_recipe_resources(recipe_id: &str, inventory: Option<&Inventory>, recipes: &RecipeRegistry) -> (r: bool)
    requires
        crafting_checks_fit(recipe_id@, inventory, recipes),
    ensures
        r == spec_has_recipe_resources(recipe_id@, inventory, recipes),
{
    let inv = match inventory {
        Some(i) => i,
        None => return false,
    };
    let recipe = match recipes.get(recipe_id) {
        Some(r) => r,
        None => return false,
    };
    if !inputs_available(inv, &recipe.input) {
        return false;
    }
    output_room(inv, &recipe.output)
}

/// Whether a powered machine is actually producing: it is connected to the grid,
/// not switched off, and (for recipe machines) can run its recipe right now.
pub fn consumer_can_produce(
    connected: bool,
    active: Option<bool>,
    assembler_recipe: Option<&str>,
    generator_recipe: Option<&str>,
    inventory: Option<&Inventory>,
    recipes: &RecipeRegistry,
) -> (r: bool)
    requires
        assembler_recipe matches Some(id) ==> crafting_checks_fit(id@, inventory, recipes),
        assembler_recipe is None ==> (generator_recipe matches Some(id) ==> crafting_checks_fit(
            id@,
            inventory,
            recipes,
        )),
    ensures
        r == (connected && active != Some(false) && match assembler_recipe {
            Some(id) => spec_has_recipe_resources(id@, inventory, recipes),
            None => match generator_recipe {
                Some(id) => spec_has_recipe_resources(id@, inventory, recipes),
                None => true,
            },
        }),
{
    if !connected {
        return false;
    }
    if let Some(a) = active {
        if !a {
            return false;
        }
    }
    if let Some(id) = assembler_recipe {
        return has_recipe_resources(id, inventory, recipes);
    }
    if let Some(id) = generator_recipe {
        return has_recipe_resources(id, inventory, recipes);
    }
    true
}

/// The counting conditions under which `has_recipe_resources` cannot overflow.
pub open spec fn crafting_checks_fit(id: Seq<char>, inventory: Option<&Inventory>, recipes: &RecipeRegistry) -> bool {
    match inventory {
        Some(inv) => recipe_index(recipes.recipes@, id) >= 0 ==> {
            let d = recipes.recipes@[recipe_index(recipes.recipes@, id)];
            &&& amounts_fit(inv@, items_view(d.input@))
            &&& (inv.spec_capacity() > 0 ==> sum_amounts(items_view(d.output@)) <= u32::MAX)
            &&& output_room_fits(inv@, inv.spec_capacity(), items_view(d.output@))
        },
        None => true,
    }
}

/// What `has_recipe_resources` returns.
pub open spec fn spec_has_recipe_resources(id: Seq<char>, inventory: Option<&Inventory>, recipes: &RecipeRegistry) -> bool {
    inventory matches Some(inv) && recipe_index(recipes.recipes@, id) >= 0 && {
        let d = recipes.recipes@[recipe_index(recipes.recipes@, id)];
        spec_inputs_available(inv@, items_view(d.input@)) && spec_output_room(
            inv@,
            inv.spec_capacity(),
            items_view(d.output@),
        )
    }
}

/// One crafting cycle on the items: removes each input in turn, then adds each
/// output in turn, and returns the production counter raised by the output amounts.
pub fn craft_items(inv: &mut Inventory, recipe: &RecipeDef, counter: u32) -> (new_counter: u32)
    requires
        counter + sum_amounts(items_view(recipe.output@)) <= u32::MAX,
    ensures
        final(inv)@ == spec_craft(old(inv)@, items_view(recipe.input@), items_view(recipe.output@)),
        final(inv).spec_capacity() == old(inv).spec_capacity(),
        new_counter == counter + sum_amounts(items_view(recipe.output@)),
{
    let ghost iv = items_view(recipe.input@);
    let ghost ov = items_view(recipe.output@);
    let ghost start = inv@;
    let n = recipe.input.len();
    let mut i: usize = 0;
    while i < n
        invariant
            n == recipe.input@.len(),
            iv == items_view(recipe.input@),
            i <= n,
            inv@ == remove_all(start, iv.take(i as int)),
            inv.spec_capacity() == old(inv).spec_capacity(),
        decreases n - i,
    {
        assert(iv.take(i + 1).drop_last() =~= iv.take(i as int));
        inv.remove(&recipe.input[i].0, recipe.input[i].1);
        i = i + 1;
    }
    assert(iv.take(n as int) =~= iv);
    let ghost mid = inv@;
    let m = recipe.output.len();
    let ghost f = crate::recipe::pair_amount();
    let mut j: usize = 0;
    let mut c: u32 = counter;
    while j < m
        invariant
            m == recipe.output@.len(),
            ov == items_view(recipe.output@),
            f == pair_amount(),
            j <= m,
            inv@ == add_all(mid, ov.take(j as int)),
            inv.spec_capacity() == old(inv).spec_capacity(),
            c == counter + sum_by(ov.take(j as int), f),
            counter + sum_by(ov, f) <= u32::MAX,
        decreases m - j,
    {
        assert(ov.take(j + 1).drop_last() =~= ov.take(j as int));
        proof {
            lemma_sum_take_succ(ov, j as int, f);
            lemma_sum_prefix_le(ov, j + 1, f);
        }
        inv.add(&recipe.output[j].0, recipe.output[j].1);
        c = c + recipe.output[j].1;
        j = j + 1;
    }
    assert(ov.take(m as int) =~= ov);
    proof {
        lemma_sum_take_full(ov, f);
    }
    c
}

/// The recipe with identifier `id`; meaningful when `recipe_index` finds one.
pub open spec fn recipe_named(recipes: RecipeRegistry, id: Seq<char>) -> RecipeDef {
    recipes.recipes@[recipe_index(recipes.recipes@, id)]
}

/// Whether an assembler runs this tick: it is switched on, its power (when it
/// draws power) is satisfied, its fluids allow the cycle, its recipe exists,
/// it holds every input, and the outputs would fit.
pub open spec fn spec_assembler_runs(
    active: bool,
    power_satisfied: Option<bool>,
    recipe_id: Seq<char>,
    inv: Inventory,
    recipes: RecipeRegistry,
    fluids_ok: bool,
) -> bool {
    active && power_satisfied != Some(false) && fluids_ok && spec_has_recipe_resources(recipe_id, Some(&inv), &recipes)
}

/// The items of an assembler after a tick: one crafting cycle of its recipe
/// when it runs and its timer is due, else as they were.
pub open spec fn spec_assembler_items(
    active: bool,
    power_satisfied: Option<bool>,
    recipe_id: Seq<char>,
    inv: Inventory,
    recipes: RecipeRegistry,
    fluids_ok: bool,
    due: bool,
) -> Seq<SlotView> {
    if spec_assembler_runs(active, power_satisfied, recipe_id, inv, recipes, fluids_ok) && due {
        let d = recipe_named(recipes, recipe_id);
        spec_craft(inv@, items_view(d.input@), items_view(d.output@))
    } else {
        inv@
    }
}

/// One tick of an assembler's items. `due` tells whether its production
/// timer, with this tick's time added, reaches the recipe's time; the timer
/// is real-valued and kept by the caller, which adds the tick's time only
/// when the assembler runs and takes the recipe's time off after a cycle.
/// Returns whether the assembler runs, and its production counter, raised by
/// the output amounts when a cycle completes.
pub fn assembler_tick(
    active: bool,
    power_satisfied: Option<bool>,
    recipe_id: &str,
    recipes: &RecipeRegistry,
    fluids_ok: bool,
    due: bool,
    inv: &mut Inventory,
    counter: u32,
) -> (r: (bool, u32))
    requires
        crafting_checks_fit(recipe_id@, Some(&*old(inv)), recipes),
        recipe_index(recipes.recipes@, recipe_id@) >= 0 ==> counter + sum_amounts(
            items_view(recipe_named(*recipes, recipe_id@).output@),
        ) <= u32::MAX,
    ensures
        r.0 == spec_assembler_runs(active, power_satisfied, recipe_id@, *old(inv), *recipes, fluids_ok),
        final(inv)@ == spec_assembler_items(active, power_satisfied, recipe_id@, *old(inv), *recipes, fluids_ok, due),
        r.1 == (if r.0 && due {
            counter + sum_amounts(items_view(recipe_named(*recipes, recipe_id@).output@))
        } else {
            counter as int
        }),
        final(inv).spec_capacity() == old(inv).spec_capacity(),
{
    if !active {
        return (false, counter);
    }
    if let Some(p) = power_satisfied {
        if !p {
            return (false, counter);
        }
    }
    if !fluids_ok {
        return (false, counter);
    }
    if !has_recipe_resources(recipe_id, Some(&*inv), recipes) {
        return (false, counter);
    }
    if !due {
        return (true, counter);
    }
    let recipe = match recipes.get(recipe_id) {
        Some(d) => d,
        None => return (false, counter),
    };
    let c = craft_items(inv, recipe, counter);
    (true, c)
}

/// An assembler tick keeps a bounded inventory within its capacity: it
/// crafts only when the outputs fit.
pub proof fn law_assembler_tick_keeps_capacity(
    active: bool,
    power_satisfied: Option<bool>,
    recipe_id: Seq<char>,
    inv: Inventory,
    recipes: RecipeRegistry,
    fluids_ok: bool,
    due: bool,
)
    requires
        inv.spec_capacity() > 0,
        total_in(inv@) <= inv.spec_capacity(),
    ensures
        total_in(spec_assembler_items(active, power_satisfied, recipe_id, inv, recipes, fluids_ok, due))
            <= inv.spec_capacity(),
{
    if spec_assembler_runs(active, power_satisfied, recipe_id, inv, recipes, fluids_ok) && due {
        let d = recipe_named(recipes, recipe_id);
        law_craft_respects_capacity(inv@, inv.spec_capacity(), items_view(d.input@), items_view(d.output@));
    }
}

proof fn lemma_remove_all_total(s: Seq<SlotView>, items: Seq<(Seq<char>, u32)>)
    ensures
        total_in(remove_all(s, items)) <= total_in(s),
    decreases items.len(),
{
    if items.len() > 0 {
        lemma_remove_all_total(s, items.drop_last());
        let m = remove_all(s, items.drop_last());
        law_remove_total(m, items.last().0, items.last().1);
    }
}

proof fn lemma_add_all_total(s: Seq<SlotView>, items: Seq<(Seq<char>, u32)>)
    ensures
        total_in(add_all(s, items)) <= total_in(s) + sum_amounts(items),
    decreases items.len(),
{
    if items.len() > 0 {
        lemma_add_all_total(s, items.drop_last());
        let m = add_all(s, items.drop_last());
        law_add_total(m, items.last().0, items.last().1);
    }
}

/// A crafting cycle that was allowed to run (the outputs fit in the capacity)
/// never takes a bounded inventory over its capacity.
pub proof fn law_craft_respects_capacity(
    s: Seq<SlotView>,
    capacity: u32,
    input: Seq<(Seq<char>, u32)>,
    output: Seq<(Seq<char>, u32)>,
)
    requires
        capacity > 0,
        spec_output_room(s, capacity, output),
    ensures
        total_in(spec_craft(s, input, output)) <= capacity,
{
    lemma_remove_all_total(s, input);
    lemma_add_all_total(remove_all(s, input), output);
}

} // verus!
