use vstd::prelude::*;

use crate::agriculture::Farm;
use crate::belt::Sorter;
use crate::build_menu::{join, join_strings};
use crate::discovery::strings_view;
use crate::first_index::{first_index, lemma_first_index, lemma_first_index_is, lemma_first_index_none};
use crate::inventory::{spec_add, Inventory, SlotView};
use crate::placement::{can_afford, cost_view, deduct_cost};
use crate::recipe::{amounts_fit, remove_all, spec_inputs_available};
use crate::resource::{spec_display_name, Cost, ResourceId};
use crate::text::{decimal, lowercase_of, owned, push_decimal, push_str, str_equal, to_lowercase_string};

verus! {

/// What is known of a resource (its colour is kept by the game).
#[derive(Debug, Clone)]
pub struct ResourceDef {
    pub id: String,
    pub name: String,
    pub max_stack: u32,
}

/// The known resources, looked up by identifier.
#[derive(Debug, Clone)]
pub struct ResourceRegistry {
    pub resources: Vec<ResourceDef>,
}

pub open spec fn def_has_id(id: Seq<char>) -> spec_fn(ResourceDef) -> bool {
    |d: ResourceDef| d.id@ == id
}

/// The first definition with the identifier, or -1.
pub open spec fn def_index(defs: Seq<ResourceDef>, id: Seq<char>) -> int {
    first_index(defs, def_has_id(id))
}

impl ResourceRegistry {
    fn find(&self, id: &str) -> (r: Option<usize>)
        ensures
            match r {
                Some(i) => i < self.resources@.len() && def_index(self.resources@, id@) == i as int,
                None => def_index(self.resources@, id@) < 0,
            },
    {
        let ghost p = def_has_id(id@);
        let mut i: usize = 0;
        while i < self.resources.len()
            invariant
                i <= self.resources@.len(),
                p == def_has_id(id@),
                forall|k: int| 0 <= k < i ==> !p(#[trigger] self.resources@[k]),
            decreases self.resources@.len() - i,
        {
            if str_equal(self.resources[i].id.as_str(), id) {
                proof {
                    lemma_first_index_is(self.resources@, p, i as int);
                }
                return Some(i);
            }
            i = i + 1;
        }
        proof {
            lemma_first_index_none(self.resources@, p);
        }
        None
    }

    /// The definition of a known resource.
    pub fn get(&self, id: &str) -> (r: &ResourceDef)
        requires
            def_index(self.resources@, id@) >= 0,
        ensures
            *r == self.resources@[def_index(self.resources@, id@)],
    {
        match self.find(id) {
            Some(i) => &self.resources[i],
            None => {
                proof {
                    assert(false);
                }
                &self.resources[0]
            },
        }
    }

    /// The definition of a resource, if known.
    pub fn get_opt(&self, id: &str) -> (r: Option<&ResourceDef>)
        ensures
            match r {
                Some(d) => def_index(self.resources@, id@) >= 0 && *d == self.resources@[def_index(
                    self.resources@,
                    id@,
                )],
                None => def_index(self.resources@, id@) < 0,
            },
    {
        match self.find(id) {
            Some(i) => Some(&self.resources[i]),
            None => None,
        }
    }

    /// The name a resource is shown with: its registered name, else its identifier.
    pub fn display_name(&self, id: &ResourceId) -> (r: String)
        ensures
            r@ == (if def_index(self.resources@, id@) >= 0 {
                self.resources@[def_index(self.resources@, id@)].name@
            } else {
                id@
            }),
    {
        match self.find(id.0.as_str()) {
            Some(i) => owned(self.resources[i].name.as_str()),
            None => owned(id.0.as_str()),
        }
    }

    /// Adds a definition, replacing the one with the same identifier.
    pub fn insert(&mut self, def: ResourceDef)
        ensures
            def_index(final(self).resources@, def.id@) >= 0,
            final(self).resources@[def_index(final(self).resources@, def.id@)] == def,
            forall|q: Seq<char>|
                q != def.id@ ==> (def_index(final(self).resources@, q) >= 0) == (def_index(
                    old(self).resources@,
                    q,
                ) >= 0),
    {
        let ghost before = self.resources@;
        match self.find(def.id.as_str()) {
            Some(i) => {
                let ghost id = def.id@;
                self.resources.set(i, def);
                proof {
                    let after = self.resources@;
                    lemma_first_index(before, def_has_id(id));
                    assert forall|k: int| 0 <= k < after.len() implies #[trigger] def_has_id(id)(after[k])
                        == def_has_id(id)(before[k]) by {}
                    lemma_first_index_is(after, def_has_id(id), i as int);
                    assert forall|q: Seq<char>| q != id implies (def_index(after, q) >= 0) == (def_index(before, q) >= 0) by {
                        lemma_first_index(before, def_has_id(q));
                        lemma_first_index(after, def_has_id(q));
                        assert forall|k: int| 0 <= k < after.len() implies #[trigger] def_has_id(q)(after[k])
                            == def_has_id(q)(before[k]) by {}
                        let a = def_index(before, q);
                        let b = def_index(after, q);
                        if a >= 0 {
                            assert(def_has_id(q)(after[a]));
                        }
                        if b >= 0 {
                            assert(def_has_id(q)(before[b]));
                        }
                    }
                }
            },
            None => {
                let ghost id = def.id@;
                self.resources.push(def);
                proof {
                    let after = self.resources@;
                    assert(after.drop_last() =~= before);
                    lemma_first_index(before, def_has_id(id));
                    lemma_first_index_is(after, def_has_id(id), before.len() as int);
                    assert forall|q: Seq<char>| q != id implies (def_index(after, q) >= 0) == (def_index(before, q) >= 0) by {
                        lemma_first_index(before, def_has_id(q));
                        lemma_first_index(after, def_has_id(q));
                        let a = def_index(before, q);
                        let b = def_index(after, q);
                        if a >= 0 {
                            assert(def_has_id(q)(after[a]));
                        }
                        if b >= 0 && b < before.len() {
                            assert(def_has_id(q)(before[b]));
                        }
                    }
                }
            },
        }
    }
}

/// The building kinds whose inspection panel offers recipes.
pub open spec fn spec_kind_has_recipes(kind: Seq<char>) -> bool {
    kind == "assembler"@ || kind == "assembler_ii"@ || kind == "assembler_iii"@ || kind == "furnace"@
        || kind == "furnace_ii"@ || kind == "blast_furnace"@ || kind == "assembly_crane"@ || kind
        == "alchemy_lab"@ || kind == "electronics_lab"@ || kind == "foundry"@ || kind == "guild_hall"@
        || kind == "enchanting_array"@ || kind == "pumpjack"@
}

pub fn kind_has_recipes(kind: &str) -> (r: bool)
    ensures
        r == spec_kind_has_recipes(kind@),
{
    str_equal(kind, "assembler") || str_equal(kind, "assembler_ii") || str_equal(kind, "assembler_iii")
        || str_equal(kind, "furnace") || str_equal(kind, "furnace_ii") || str_equal(kind, "blast_furnace")
        || str_equal(kind, "assembly_crane") || str_equal(kind, "alchemy_lab") || str_equal(
        kind,
        "electronics_lab",
    ) || str_equal(kind, "foundry") || str_equal(kind, "guild_hall") || str_equal(
        kind,
        "enchanting_array",
    ) || str_equal(kind, "pumpjack")
}

/// How a belt is built.
#[derive(Debug, Clone, Copy, PartialEq, Eq, Structural)]
pub enum BeltVariant {
    Normal,
    Underground,
    Aerial,
    Curved,
}

/// The variant a building file names, whatever its case; anything else is a
/// normal belt.
pub open spec fn spec_belt_variant(s: Seq<char>) -> BeltVariant {
    let l = lowercase_of(s);
    if l == "underground"@ {
        BeltVariant::Underground
    } else if l == "aerial"@ {
        BeltVariant::Aerial
    } else if l == "curved"@ {
        BeltVariant::Curved
    } else {
        BeltVariant::Normal
    }
}

pub fn parse_belt_variant(s: &str) -> (r: BeltVariant)
    ensures
        r == spec_belt_variant(s@),
{
    let l = to_lowercase_string(s);
    if str_equal(l.as_str(), "underground") {
        BeltVariant::Underground
    } else if str_equal(l.as_str(), "aerial") {
        BeltVariant::Aerial
    } else if str_equal(l.as_str(), "curved") {
        BeltVariant::Curved
    } else {
        BeltVariant::Normal
    }
}

/// Pays a cost from an inventory when it holds all of it. Returns whether it paid.
pub fn try_pay(inv: &mut Inventory, cost: &Vec<Cost>) -> (paid: bool)
    requires
        amounts_fit(old(inv)@, cost_view(cost@)),
    ensures
        paid == spec_inputs_available(old(inv)@, cost_view(cost@)),
        paid ==> final(inv)@ == remove_all(old(inv)@, cost_view(cost@)),
        !paid ==> final(inv)@ == old(inv)@,
        final(inv).spec_capacity() == old(inv).spec_capacity(),
{
    if can_afford(inv, cost) {
        deduct_cost(inv, cost);
        true
    } else {
        false
    }
}

/// The text shown for a refund: `<amount> <Display Name>`.
pub open spec fn refund_text(r: (Seq<char>, u32)) -> Seq<char> {
    decimal(r.1 as int) + " "@ + spec_display_name(r.0)
}

/// The inventory and the refund texts after the refunds are given back in
/// order: a refund above zero is added and reported, one of zero is skipped.
pub open spec fn spec_refunds(inv: Seq<SlotView>, refunds: Seq<(Seq<char>, u32)>) -> (Seq<SlotView>, Seq<Seq<char>>)
    decreases refunds.len(),
{
    if refunds.len() == 0 {
        (inv, Seq::empty())
    } else {
        let (i2, t2) = spec_refunds(inv, refunds.drop_last());
        let r = refunds.last();
        if r.1 > 0 {
            (spec_add(i2, r.0, r.1), t2.push(refund_text(r)))
        } else {
            (i2, t2)
        }
    }
}

/// Gives back the refunds of a deconstructed building (amounts computed by the
/// game from its refund ratio): each one above zero is added to the player's
/// inventory. Returns the texts of the refunds paid.
pub fn apply_refunds(inv: &mut Inventory, refunds: &Vec<(ResourceId, u32)>) -> (texts: Vec<String>)
    ensures
        (final(inv)@, texts@.map_values(|t: String| t@)) == spec_refunds(
            old(inv)@,
            crate::recipe::items_view(refunds@),
        ),
        final(inv).spec_capacity() == old(inv).spec_capacity(),
{
    let ghost rv = crate::recipe::items_view(refunds@);
    let ghost start = inv@;
    let mut texts: Vec<String> = Vec::new();
    let mut i: usize = 0;
    while i < refunds.len()
        invariant
            i <= refunds@.len(),
            rv == crate::recipe::items_view(refunds@),
            start == old(inv)@,
            (inv@, texts@.map_values(|t: String| t@)) == spec_refunds(start, rv.take(i as int)),
            inv.spec_capacity() == old(inv).spec_capacity(),
        decreases refunds@.len() - i,
    {
        let (ref res, amount) = refunds[i];
        assert(rv.take(i + 1).drop_last() =~= rv.take(i as int));
        assert(rv.take(i + 1).last() == (res@, amount));
        if amount > 0 {
            inv.add(res, amount);
            let mut t = String::new();
            push_decimal(&mut t, amount as u64);
            push_str(&mut t, " ");
            let name = res.display_name();
            push_str(&mut t, name.as_str());
            let ghost before = texts@.map_values(|t: String| t@);
            texts.push(t);
            assert(texts@.map_values(|t: String| t@) =~= before.push(refund_text((res@, amount))));
        }
        i = i + 1;
    }
    assert(rv.take(refunds@.len() as int) =~= rv);
    texts
}

/// The corners of a dragged rectangle, smallest first.
pub fn normalize_rect(start: (i32, i32), end: (i32, i32)) -> (r: (i32, i32, i32, i32))
    ensures
        r.0 == (if start.0 <= end.0 {
            start.0
        } else {
            end.0
        }),
        r.1 == (if start.1 <= end.1 {
            start.1
        } else {
            end.1
        }),
        r.2 == (if start.0 <= end.0 {
            end.0
        } else {
            start.0
        }),
        r.3 == (if start.1 <= end.1 {
            end.1
        } else {
            start.1
        }),
{
    let x1 = if start.0 <= end.0 {
        start.0
    } else {
        end.0
    };
    let x2 = if start.0 <= end.0 {
        end.0
    } else {
        start.0
    };
    let y1 = if start.1 <= end.1 {
        start.1
    } else {
        end.1
    };
    let y2 = if start.1 <= end.1 {
        end.1
    } else {
        start.1
    };
    (x1, y1, x2, y2)
}

pub open spec fn crop_named(name: Seq<char>) -> spec_fn(String) -> bool {
    |c: String| c@ == name
}

impl Farm {
    /// Selects a crop the farm grows; a crop it does not grow changes nothing.
    /// Returns whether it was selected.
    pub fn select_crop(&mut self, crop: &str) -> (selected: bool)
        ensures
            selected == (first_index(old(self).crop_types@, crop_named(crop@)) >= 0),
            final(self).crop_index == (if selected {
                first_index(old(self).crop_types@, crop_named(crop@)) as usize
            } else {
                old(self).crop_index
            }),
            final(self).crop_types@ == old(self).crop_types@,
    {
        let ghost p = crop_named(crop@);
        let mut i: usize = 0;
        while i < self.crop_types.len()
            invariant
                i <= self.crop_types@.len(),
                self.crop_types@ == old(self).crop_types@,
                self.crop_index == old(self).crop_index,
                p == crop_named(crop@),
                forall|k: int| 0 <= k < i ==> !p(#[trigger] self.crop_types@[k]),
            decreases self.crop_types@.len() - i,
        {
            if str_equal(self.crop_types[i].as_str(), crop) {
                proof {
                    lemma_first_index_is(self.crop_types@, p, i as int);
                }
                self.crop_index = i;
                return true;
            }
            i = i + 1;
        }
        proof {
            lemma_first_index_none(self.crop_types@, p);
        }
        false
    }
}

impl Sorter {
    /// Sets the resource the sorter sends aside.
    pub fn set_filter(&mut self, resource: &ResourceId)
        ensures
            final(self).filter@ == resource@,
            final(self).inverted == old(self).inverted,
    {
        self.filter = resource.duplicate();
    }

    /// Swaps which items go aside; returns the mode's name (`inverted` or `normal`).
    pub fn toggle_inverted(&mut self) -> (mode: &'static str)
        ensures
            final(self).inverted == !old(self).inverted,
            final(self).filter == old(self).filter,
            mode@ == (if final(self).inverted {
                "inverted"@
            } else {
                "normal"@
            }),
    {
        self.inverted = !self.inverted;
        if self.inverted {
            "inverted"
        } else {
            "normal"
        }
    }
}

/// What happens to one building caught in a deconstruction area: whether it is
/// taken down, and whether it counts as removed. A building whose kind is
/// unknown is counted without being taken down; one that cannot be
/// deconstructed is left alone.
pub open spec fn area_fate(can_deconstruct: Option<bool>) -> (bool, bool) {
    match can_deconstruct {
        Some(true) => (true, true),
        Some(false) => (false, false),
        None => (false, true),
    }
}

/// How many of the buildings count as removed.
pub open spec fn removed_count(s: Seq<Option<bool>>) -> nat
    decreases s.len(),
{
    if s.len() == 0 {
        0
    } else {
        removed_count(s.drop_last()) + (if area_fate(s.last()).1 {
            1nat
        } else {
            0nat
        })
    }
}

/// Decides, for the buildings in a deconstruction area (each given by whether
/// its kind may be deconstructed, `None` when its kind is unknown), which are
/// taken down, and how many count as removed.
pub fn area_removal(can_deconstruct: &Vec<Option<bool>>) -> (r: (Vec<bool>, u64))
    ensures
        r.0@ == can_deconstruct@.map_values(|c: Option<bool>| area_fate(c).0),
        r.1 as nat == removed_count(can_deconstruct@),
{
    let ghost s = can_deconstruct@;
    let mut take: Vec<bool> = Vec::new();
    let mut count: u64 = 0;
    let mut i: usize = 0;
    while i < can_deconstruct.len()
        invariant
            i <= s.len(),
            s == can_deconstruct@,
            take@ == s.take(i as int).map_values(|c: Option<bool>| area_fate(c).0),
            count as nat == removed_count(s.take(i as int)),
            count <= i,
        decreases s.len() - i,
    {
        let (down, counted) = match can_deconstruct[i] {
            Some(true) => (true, true),
            Some(false) => (false, false),
            None => (false, true),
        };
        take.push(down);
        if counted {
            count = count + 1;
        }
        assert(s.take(i + 1).drop_last() =~= s.take(i as int));
        assert(take@ =~= s.take(i + 1).map_values(|c: Option<bool>| area_fate(c).0));
        i = i + 1;
    }
    assert(s.take(s.len() as int) =~= s);
    (take, count)
}

/// The message after one building is taken down: its name and the refunds.
pub fn dismantled_text(name: &str, refunds: &Vec<String>) -> (r: String)
    ensures
        r@ == name@ + " dismantled (+"@ + join(strings_view(refunds@), ", "@) + ")"@,
{
    let mut s = owned(name);
    push_str(&mut s, " dismantled (+");
    let joined = join_strings(refunds, ", ");
    push_str(&mut s, joined.as_str());
    push_str(&mut s, ")");
    s
}

/// The message refusing to take a building down.
pub fn cannot_deconstruct_text(name: &str) -> (r: String)
    ensures
        r@ == "Cannot deconstruct "@ + name@,
{
    let mut s = owned("Cannot deconstruct ");
    push_str(&mut s, name);
    s
}

/// The message after an area is cleared, when something was removed.
pub fn area_removed_text(count: u64, refunds: &Vec<String>) -> (r: Option<String>)
    ensures
        count == 0 ==> r is None,
        count > 0 ==> (r matches Some(t) && t@ == "Zone deconstruct: "@ + decimal(count as int)
            + " building(s) removed (+"@ + join(strings_view(refunds@), ", "@) + ")"@),
{
    if count == 0 {
        return None;
    }
    let mut s = owned("Zone deconstruct: ");
    push_decimal(&mut s, count);
    push_str(&mut s, " building(s) removed (+");
    let joined = join_strings(refunds, ", ");
    push_str(&mut s, joined.as_str());
    push_str(&mut s, ")");
    Some(s)
}

/// The notice after a sorter's filter is chosen.
pub fn filter_notice(resource: &ResourceId) -> (r: String)
    ensures
        r@ == "Sorter filter: "@ + spec_display_name(resource@),
{
    let mut s = owned("Sorter filter: ");
    let name = resource.display_name();
    push_str(&mut s, name.as_str());
    s
}

/// The notice after a sorter is switched between its modes.
pub fn sorter_mode_notice(mode: &str) -> (r: String)
    ensures
        r@ == "Sorter: "@ + mode@,
{
    let mut s = owned("Sorter: ");
    push_str(&mut s, mode);
    s
}

/// The notice after a farm's crop is chosen.
pub fn crop_notice(crop: &str) -> (r: String)
    ensures
        r@ == "Crop: "@ + crop@,
{
    let mut s = owned("Crop: ");
    push_str(&mut s, crop);
    s
}

} // verus!
