use vstd::prelude::*;

use crate::build_menu::join;
use crate::catalog::{def_index, ResourceDef, ResourceRegistry};
use crate::discovery::{contains_str, strings_view};
use crate::inventory::Inventory;
use crate::keybindings::lex_lt;
use crate::sorted_selection::{sorted_selection, strs_view};
use crate::recipe::{amounts_fit, inputs_available, items_view, spec_inputs_available, RecipeDef, RecipeRegistry};
use crate::resource::ResourceId;
use crate::text::{decimal, owned, push_decimal, push_str, str_equal, to_uppercase_string, uppercase_str_of};

verus! {

/// Whether a recipe is listed under a category: it belongs to the category
/// and is unlocked (globally, by the building, or as its current recipe).
pub open spec fn listed(r: RecipeDef, category: Seq<char>, unlocked: Seq<Seq<char>>) -> bool {
    r.category@ == category && unlocked.contains(r.id@)
}

/// Whether the indices are in order of recipe identifier.
pub open spec fn sorted_by_id(recipes: Seq<RecipeDef>, idx: Seq<usize>) -> bool {
    forall|i: int, j: int|
        0 <= i < j < idx.len() ==> !lex_lt(
            #[trigger] recipes[idx[j] as int].id@,
            #[trigger] recipes[idx[i] as int].id@,
        )
}

/// The recipes of a category as the selector lists them: exactly the listed
/// ones, each once, in order of identifier.
pub open spec fn is_category_listing(
    recipes: Seq<RecipeDef>,
    category: Seq<char>,
    unlocked: Seq<Seq<char>>,
    idx: Seq<usize>,
) -> bool {
    &&& forall|i: int| 0 <= i < idx.len() ==> idx[i] < recipes.len() && listed(#[trigger] recipes[idx[i] as int], category, unlocked)
    &&& forall|k: int| 0 <= k < recipes.len() && listed(recipes[k], category, unlocked) ==> #[trigger] idx.contains(k as usize)
    &&& forall|i: int, j: int| 0 <= i < j < idx.len() ==> #[trigger] idx[i] != #[trigger] idx[j]
    &&& sorted_by_id(recipes, idx)
}

/// The recipes of one category, sorted by identifier.
pub fn category_listing(registry: &RecipeRegistry, category: &str, unlocked: &Vec<String>) -> (r: Vec<usize>)
    ensures
        is_category_listing(registry.recipes@, category@, strings_view(unlocked@), r@),
{
    let ghost rs = registry.recipes@;
    let ghost un = strings_view(unlocked@);
    let mut keys: Vec<&str> = Vec::new();
    let mut chosen: Vec<bool> = Vec::new();
    let mut k: usize = 0;
    while k < registry.recipes.len()
        invariant
            k <= rs.len(),
            rs == registry.recipes@,
            un == strings_view(unlocked@),
            keys@.len() == k,
            chosen@.len() == k,
            forall|q: int| 0 <= q < k ==> #[trigger] keys@[q]@ == rs[q].id@,
            forall|q: int| 0 <= q < k ==> #[trigger] chosen@[q] == listed(rs[q], category@, un),
        decreases rs.len() - k,
    {
        let r = &registry.recipes[k];
        keys.push(r.id.as_str());
        chosen.push(str_equal(r.category.as_str(), category) && contains_str(unlocked, r.id.as_str()));
        k = k + 1;
    }
    let idx = sorted_selection(&keys, &chosen);
    proof {
        let ks = strs_view(keys@);
        assert forall|q: int| 0 <= q < rs.len() implies #[trigger] ks[q] == rs[q].id@ by {
            assert(keys@[q]@ == rs[q].id@);
        }
        assert forall|i: int| 0 <= i < idx@.len() implies idx@[i] < rs.len() && listed(#[trigger] rs[idx@[i] as int], category@, un) by {
            assert(idx@[i] < ks.len() && chosen@[idx@[i] as int]);
        }
        assert forall|q: int| 0 <= q < rs.len() && listed(rs[q], category@, un) implies #[trigger] idx@.contains(q as usize) by {
            assert(chosen@[q]);
        }
        assert forall|i: int, j: int| 0 <= i < j < idx@.len() implies !lex_lt(
            #[trigger] rs[idx@[j] as int].id@,
            #[trigger] rs[idx@[i] as int].id@,
        ) by {
            assert(!lex_lt(ks[idx@[j] as int], ks[idx@[i] as int]));
        }
    }
    idx
}

/// One entry of the selector: a category and its non-empty listing.
pub open spec fn entry_ok(recipes: Seq<RecipeDef>, unlocked: Seq<Seq<char>>, e: (String, Vec<usize>)) -> bool {
    e.1@.len() > 0 && is_category_listing(recipes, e.0@, unlocked, e.1@)
}

/// The category names of the entries, in order.
pub open spec fn entry_names(entries: Seq<(String, Vec<usize>)>) -> Seq<Seq<char>> {
    Seq::new(entries.len(), |i: int| entries[i].0@)
}

/// The categories of a building with something to list, each with its recipes.
pub fn selector_listing(registry: &RecipeRegistry, categories: &Vec<String>, unlocked: &Vec<String>) -> (r: Vec<(String, Vec<usize>)>)
    ensures
        forall|i: int| 0 <= i < r@.len() ==> entry_ok(registry.recipes@, strings_view(unlocked@), #[trigger] r@[i]),
        entry_names(r@) == nonempty_categories(
            registry.recipes@,
            strings_view(categories@),
            strings_view(unlocked@),
        ),
{
    let ghost rs = registry.recipes@;
    let ghost un = strings_view(unlocked@);
    let mut out: Vec<(String, Vec<usize>)> = Vec::new();
    let mut c: usize = 0;
    while c < categories.len()
        invariant
            c <= categories@.len(),
            rs == registry.recipes@,
            un == strings_view(unlocked@),
            forall|i: int| 0 <= i < out@.len() ==> entry_ok(rs, un, #[trigger] out@[i]),
            entry_names(out@) == nonempty_categories(rs, strings_view(categories@.take(c as int)), un),
        decreases categories@.len() - c,
    {
        let listing = category_listing(registry, categories[c].as_str(), unlocked);
        assert(strings_view(categories@.take(c + 1)).drop_last() =~= strings_view(categories@.take(c as int)));
        assert(strings_view(categories@.take(c + 1)).last() == categories@[c as int]@);
        proof {
            lemma_listing_empty(rs, categories@[c as int]@, un, listing@);
        }
        if listing.len() > 0 {
            let ghost old_out = out@;
            let entry = (owned(categories[c].as_str()), listing);
            assert(entry_ok(rs, un, entry));
            out.push(entry);
            assert(entry_names(out@) =~= entry_names(old_out).push(categories@[c as int]@));
            assert forall|i: int| 0 <= i < out@.len() implies entry_ok(rs, un, #[trigger] out@[i]) by {
                if i < old_out.len() {
                    assert(out@[i] == old_out[i]);
                }
            }
        }
        c = c + 1;
    }
    assert(categories@.take(categories@.len() as int) =~= categories@);
    out
}

/// Whether some recipe is listed under a category.
pub open spec fn has_listed(recipes: Seq<RecipeDef>, category: Seq<char>, unlocked: Seq<Seq<char>>) -> bool {
    exists|k: int| 0 <= k < recipes.len() && listed(#[trigger] recipes[k], category, unlocked)
}

/// The categories that have something listed, in the building's order.
pub open spec fn nonempty_categories(recipes: Seq<RecipeDef>, categories: Seq<Seq<char>>, unlocked: Seq<Seq<char>>) -> Seq<Seq<char>>
    decreases categories.len(),
{
    if categories.len() == 0 {
        Seq::empty()
    } else {
        let rest = nonempty_categories(recipes, categories.drop_last(), unlocked);
        if has_listed(recipes, categories.last(), unlocked) {
            rest.push(categories.last())
        } else {
            rest
        }
    }
}

proof fn lemma_listing_empty(recipes: Seq<RecipeDef>, category: Seq<char>, unlocked: Seq<Seq<char>>, idx: Seq<usize>)
    requires
        is_category_listing(recipes, category, unlocked, idx),
    ensures
        (idx.len() > 0) == has_listed(recipes, category, unlocked),
{
    if idx.len() > 0 {
        assert(listed(recipes[idx[0] as int], category, unlocked));
    }
    if has_listed(recipes, category, unlocked) {
        let k = choose|k: int| 0 <= k < recipes.len() && listed(#[trigger] recipes[k], category, unlocked);
        assert(idx.contains(k as usize));
    }
}

/// Whether a building can run a recipe with what it holds: a recipe without
/// inputs always can; otherwise the building needs an inventory holding every input.
pub open spec fn spec_can_craft(r: RecipeDef, inv: Option<&Inventory>) -> bool {
    if r.input@.len() == 0 {
        true
    } else {
        match inv {
            Some(i) => spec_inputs_available(i@, items_view(r.input@)),
            None => false,
        }
    }
}

pub fn can_craft(r: &RecipeDef, inv: Option<&Inventory>) -> (b: bool)
    requires
        inv matches Some(i) ==> amounts_fit(i@, items_view(r.input@)),
    ensures
        b == spec_can_craft(*r, inv),
{
    if r.input.len() == 0 {
        true
    } else {
        match inv {
            Some(i) => inputs_available(i, &r.input),
            None => false,
        }
    }
}

/// The mark in front of a recipe: `> ` for the current one, `[x] ` for one that
/// can be crafted, spaces otherwise.
pub open spec fn spec_recipe_prefix(active: bool, craftable: bool) -> Seq<char> {
    if active {
        "> "@
    } else if craftable {
        "[x] "@
    } else {
        "    "@
    }
}

pub fn recipe_prefix(active: bool, craftable: bool) -> (r: &'static str)
    ensures
        r@ == spec_recipe_prefix(active, craftable),
{
    if active {
        "> "
    } else if craftable {
        "[x] "
    } else {
        "    "
    }
}

/// The heading of a category in the selector: `-- NAME --`.
pub open spec fn spec_category_heading(category: Seq<char>) -> Seq<char> {
    "-- "@ + uppercase_str_of(category) + " --"@
}

pub fn category_heading(category: &str) -> (r: String)
    ensures
        r@ == spec_category_heading(category@),
{
    let mut out = owned("-- ");
    let up = to_uppercase_string(category);
    push_str(&mut out, up.as_str());
    push_str(&mut out, " --");
    out
}

/// The name a resource is shown with: its registered name, else its identifier.
pub open spec fn shown_name(defs: Seq<ResourceDef>, id: Seq<char>) -> Seq<char> {
    if def_index(defs, id) >= 0 {
        defs[def_index(defs, id)].name@
    } else {
        id
    }
}

/// The first line of a selector item: its mark, then the recipe's name.
pub open spec fn spec_recipe_label(prefix: Seq<char>, defs: Seq<ResourceDef>, id: Seq<char>) -> Seq<char> {
    prefix + shown_name(defs, id)
}

pub fn recipe_label(prefix: &str, resources: &ResourceRegistry, recipe_id: &str) -> (r: String)
    ensures
        r@ == spec_recipe_label(prefix@, resources.resources@, recipe_id@),
{
    let mut out = owned(prefix);
    match resources.get_opt(recipe_id) {
        Some(d) => push_str(&mut out, d.name.as_str()),
        None => push_str(&mut out, recipe_id),
    }
    out
}

/// One item of a recipe side: its shown name, `mid`, its amount, then `tail`.
pub open spec fn item_part(defs: Seq<ResourceDef>, p: (Seq<char>, u32), mid: Seq<char>, tail: Seq<char>) -> Seq<char> {
    shown_name(defs, p.0) + mid + decimal(p.1 as int) + tail
}

/// One side of a recipe written out, its items joined by `sep`; the selector
/// writes `Name x2 + Other x1`.
pub open spec fn spec_items_text(
    defs: Seq<ResourceDef>,
    items: Seq<(Seq<char>, u32)>,
    mid: Seq<char>,
    tail: Seq<char>,
    sep: Seq<char>,
) -> Seq<char> {
    join(items.map_values(|p: (Seq<char>, u32)| item_part(defs, p, mid, tail)), sep)
}

pub fn items_text(resources: &ResourceRegistry, items: &Vec<(ResourceId, u32)>, mid: &str, tail: &str, sep: &str) -> (r: String)
    ensures
        r@ == spec_items_text(resources.resources@, items_view(items@), mid@, tail@, sep@),
{
    let ghost defs = resources.resources@;
    let ghost iv = items_view(items@);
    let mut out = String::new();
    let mut i: usize = 0;
    while i < items.len()
        invariant
            i <= iv.len(),
            iv == items_view(items@),
            defs == resources.resources@,
            out@ == spec_items_text(defs, iv.take(i as int), mid@, tail@, sep@),
        decreases iv.len() - i,
    {
        if i > 0 {
            push_str(&mut out, sep);
        }
        let name = resources.display_name(&items[i].0);
        push_str(&mut out, name.as_str());
        push_str(&mut out, mid);
        push_decimal(&mut out, items[i].1 as u64);
        push_str(&mut out, tail);
        proof {
            let f = |p: (Seq<char>, u32)| item_part(defs, p, mid@, tail@);
            let parts = iv.take(i + 1).map_values(f);
            let prev = iv.take(i as int).map_values(f);
            assert(parts.drop_last() =~= prev);
            if i == 0 {
                assert(parts =~= seq![parts[0]]);
            }
        }
        i = i + 1;
    }
    assert(iv.take(iv.len() as int) =~= iv);
    out
}

/// The recipes a building's selector may list: those unlocked globally, those
/// the building discovered, and its current recipe.
pub fn selector_unlocked(global: &Vec<String>, discovered: Option<&Vec<String>>, current: &str) -> (r: Vec<String>)
    ensures
        strings_view(r@) == strings_view(global@) + (match discovered {
            Some(d) => strings_view(d@),
            None => Seq::empty(),
        }) + seq![current@],
{
    let mut out: Vec<String> = Vec::new();
    let mut i: usize = 0;
    while i < global.len()
        invariant
            i <= global@.len(),
            strings_view(out@) == strings_view(global@.take(i as int)),
        decreases global@.len() - i,
    {
        let ghost before = strings_view(out@);
        out.push(owned(global[i].as_str()));
        assert(strings_view(out@) =~= before.push(global@[i as int]@));
        assert(strings_view(global@.take(i + 1)) =~= strings_view(global@.take(i as int)).push(global@[i as int]@));
        i = i + 1;
    }
    assert(global@.take(global@.len() as int) =~= global@);
    let ghost base = strings_view(out@);
    match discovered {
        Some(d) => {
            let mut j: usize = 0;
            while j < d.len()
                invariant
                    j <= d@.len(),
                    strings_view(out@) == base + strings_view(d@.take(j as int)),
                decreases d@.len() - j,
            {
                let ghost before = strings_view(out@);
                out.push(owned(d[j].as_str()));
                assert(strings_view(out@) =~= before.push(d@[j as int]@));
                assert(strings_view(d@.take(j + 1)) =~= strings_view(d@.take(j as int)).push(d@[j as int]@));
                j = j + 1;
            }
            assert(d@.take(d@.len() as int) =~= d@);
        },
        None => {
            assert(strings_view(out@) =~= base + Seq::<Seq<char>>::empty());
        },
    }
    let ghost mid = strings_view(out@);
    out.push(owned(current));
    assert(strings_view(out@) =~= mid.push(current@));
    out
}

} // verus!
