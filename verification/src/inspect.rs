use vstd::prelude::*;

use crate::belt::{occupied_from, BeltItem};
use crate::build_menu::{join, join_strings};
use crate::discovery::strings_view;
use crate::catalog::{kind_has_recipes, spec_kind_has_recipes, ResourceDef, ResourceRegistry};
use crate::direction::Direction;
use crate::first_index::{first_index, lemma_first_index_is, lemma_first_index_none};
use crate::placement::cost_view;
use crate::recipe::{items_view, RecipeDef};
use crate::recipe_selector::{items_text, shown_name, spec_items_text};
use crate::resource::{Cost, ResourceId};
use crate::inventory::{occupied_of, total_in, Inventory, SlotView};
use crate::sorted_selection::{is_amount_order, is_sorted_selection, order_by_amount, sorted_selection, strs_view};
use crate::text::{decimal, lowercase_of, owned, push_decimal, push_str, str_equal};

verus! {

/// The titled sections of a building's panel.
#[derive(Debug, Clone, Copy, PartialEq, Eq, Structural)]
pub enum PanelSection {
    Flow,
    Inventory,
    Connections,
    Stats,
    Power,
    Fuel,
    Settings,
    Farm,
    Filter,
    Hp,
    Alerts,
}

impl PanelSection {
    pub open spec fn spec_title(self) -> Seq<char> {
        match self {
            PanelSection::Flow => "FLOW"@,
            PanelSection::Inventory => "INVENTORY"@,
            PanelSection::Connections => "CONNECTIONS"@,
            PanelSection::Stats => "STATS"@,
            PanelSection::Power => "POWER"@,
            PanelSection::Fuel => "FUEL"@,
            PanelSection::Settings => "SETTINGS"@,
            PanelSection::Farm => "FARM"@,
            PanelSection::Filter => "FILTER"@,
            PanelSection::Hp => "HP"@,
            PanelSection::Alerts => "ALERTS"@,
        }
    }

    /// The heading written above the section.
    pub fn title(&self) -> (r: &'static str)
        ensures
            r@ == self.spec_title(),
    {
        match self {
            PanelSection::Flow => "FLOW",
            PanelSection::Inventory => "INVENTORY",
            PanelSection::Connections => "CONNECTIONS",
            PanelSection::Stats => "STATS",
            PanelSection::Power => "POWER",
            PanelSection::Fuel => "FUEL",
            PanelSection::Settings => "SETTINGS",
            PanelSection::Farm => "FARM",
            PanelSection::Filter => "FILTER",
            PanelSection::Hp => "HP",
            PanelSection::Alerts => "ALERTS",
        }
    }
}

pub open spec fn section_if(b: bool, s: PanelSection) -> Seq<PanelSection> {
    if b {
        seq![s]
    } else {
        Seq::empty()
    }
}

/// The sections of the right column: statistics and power always; fuel for a
/// burner; recipe settings for a kind that runs recipes; the crop choice for
/// a farm; the filter for a sorter; then health and alerts.
pub open spec fn spec_right_sections(kind: Seq<char>, is_burner: bool) -> Seq<PanelSection> {
    seq![PanelSection::Stats, PanelSection::Power] + section_if(is_burner, PanelSection::Fuel)
        + section_if(spec_kind_has_recipes(kind), PanelSection::Settings) + section_if(
        kind == "farm"@,
        PanelSection::Farm,
    ) + section_if(kind == "sorter"@, PanelSection::Filter) + seq![PanelSection::Hp, PanelSection::Alerts]
}

pub open spec fn left_sections() -> Seq<PanelSection> {
    seq![PanelSection::Flow, PanelSection::Inventory, PanelSection::Connections]
}

fn push_if(v: &mut Vec<PanelSection>, b: bool, s: PanelSection)
    ensures
        final(v)@ == old(v)@ + section_if(b, s),
{
    if b {
        v.push(s);
    }
    assert(final(v)@ =~= old(v)@ + section_if(b, s));
}

/// The two columns of a building's panel, in the order they are laid out.
pub fn panel_sections(kind: &str, is_burner: bool) -> (r: (Vec<PanelSection>, Vec<PanelSection>))
    ensures
        r.0@ == left_sections(),
        r.1@ == spec_right_sections(kind@, is_burner),
{
    let left = vec![PanelSection::Flow, PanelSection::Inventory, PanelSection::Connections];
    let mut right = vec![PanelSection::Stats, PanelSection::Power];
    push_if(&mut right, is_burner, PanelSection::Fuel);
    push_if(&mut right, kind_has_recipes(kind), PanelSection::Settings);
    push_if(&mut right, str_equal(kind, "farm"), PanelSection::Farm);
    push_if(&mut right, str_equal(kind, "sorter"), PanelSection::Filter);
    right.push(PanelSection::Hp);
    right.push(PanelSection::Alerts);
    assert(left@ =~= left_sections());
    assert(right@ =~= spec_right_sections(kind@, is_burner));
    (left, right)
}

/// The title of a building's panel: its name and the last three digits of
/// its entity number.
pub open spec fn spec_panel_title(name: Seq<char>, entity_bits: u64) -> Seq<char> {
    name + "  #"@ + decimal((entity_bits % 1000) as int)
}

pub fn panel_title(name: &str, entity_bits: u64) -> (r: String)
    ensures
        r@ == spec_panel_title(name@, entity_bits),
{
    let mut out = owned(name);
    push_str(&mut out, "  #");
    push_decimal(&mut out, entity_bits % 1000);
    out
}

/// The label of the on/off toggle.
pub fn toggle_label(active: bool) -> (r: &'static str)
    ensures
        r@ == (if active {
            "[ON]"@
        } else {
            "[OFF]"@
        }),
{
    if active {
        "[ON]"
    } else {
        "[OFF]"
    }
}

pub open spec fn mining_prefix() -> Seq<char> {
    seq!['m', 'i', 'n', 'e', '_']
}

/// The resource a mining recipe extracts: what follows `mine_` in its identifier.
pub open spec fn spec_mining_resource(recipe_id: Seq<char>) -> Option<Seq<char>> {
    if recipe_id.len() >= 5 && recipe_id.take(5) == mining_prefix() {
        Some(recipe_id.skip(5))
    } else {
        None
    }
}

pub fn mining_resource(recipe_id: &str) -> (r: Option<&str>)
    ensures
        match r {
            Some(s) => spec_mining_resource(recipe_id@) == Some(s@),
            None => spec_mining_resource(recipe_id@) is None,
        },
{
    let n = recipe_id.unicode_len();
    if n < 5 {
        return None;
    }
    let is_mine = recipe_id.get_char(0) == 'm' && recipe_id.get_char(1) == 'i' && recipe_id.get_char(2) == 'n'
        && recipe_id.get_char(3) == 'e' && recipe_id.get_char(4) == '_';
    if is_mine {
        assert(recipe_id@.take(5) =~= mining_prefix());
        Some(recipe_id.substring_char(5, n))
    } else {
        assert(recipe_id@.take(5)[0] == recipe_id@[0]);
        assert(recipe_id@.take(5)[1] == recipe_id@[1]);
        assert(recipe_id@.take(5)[2] == recipe_id@[2]);
        assert(recipe_id@.take(5)[3] == recipe_id@[3]);
        assert(recipe_id@.take(5)[4] == recipe_id@[4]);
        None
    }
}

/// The name under which a building's production is shown: for a mining
/// recipe, the shown name of the mined resource; else the recipe identifier.
pub open spec fn spec_production_name(defs: Seq<crate::catalog::ResourceDef>, recipe_id: Seq<char>) -> Seq<char> {
    match spec_mining_resource(recipe_id) {
        Some(res) => shown_name(defs, res),
        None => recipe_id,
    }
}

pub fn production_name(resources: &ResourceRegistry, recipe_id: &str) -> (r: String)
    ensures
        r@ == spec_production_name(resources.resources@, recipe_id@),
{
    match mining_resource(recipe_id) {
        Some(res) => resources.display_name(&ResourceId(owned(res))),
        None => owned(recipe_id),
    }
}

/// What a building's production line says.
#[derive(Debug, Clone, Copy, PartialEq, Eq, Structural)]
pub enum ProductionStatus {
    /// The building runs no recipe.
    Idle,
    /// It runs a recipe that the registry does not know.
    Unlisted,
    /// Its current cycle is under way.
    Running,
    /// It is switched off.
    Paused,
    /// It waits for its next cycle.
    Ready,
}

pub open spec fn spec_production_status(
    has_assembler: bool,
    recipe_known: bool,
    active: bool,
    timer_running: bool,
) -> ProductionStatus {
    if !has_assembler {
        ProductionStatus::Idle
    } else if !recipe_known {
        ProductionStatus::Unlisted
    } else if active && timer_running {
        ProductionStatus::Running
    } else if !active {
        ProductionStatus::Paused
    } else {
        ProductionStatus::Ready
    }
}

/// The state of a building's production: whether it has a recipe, whether the
/// registry knows it, whether the building is switched on and whether the
/// current cycle has started.
pub fn production_status(has_assembler: bool, recipe_known: bool, active: bool, timer_running: bool) -> (r:
    ProductionStatus)
    ensures
        r == spec_production_status(has_assembler, recipe_known, active, timer_running),
{
    if !has_assembler {
        ProductionStatus::Idle
    } else if !recipe_known {
        ProductionStatus::Unlisted
    } else if active && timer_running {
        ProductionStatus::Running
    } else if !active {
        ProductionStatus::Paused
    } else {
        ProductionStatus::Ready
    }
}

/// The status line; for a running cycle it is the part before the timings,
/// `Mining: name` or `Producing: name`.
pub open spec fn spec_status_text(status: ProductionStatus, mining: bool, name: Seq<char>) -> Seq<char> {
    match status {
        ProductionStatus::Idle => "Idle"@,
        ProductionStatus::Unlisted => "Active: "@ + name,
        ProductionStatus::Running => if mining {
            "Mining: "@ + name
        } else {
            "Producing: "@ + name
        },
        ProductionStatus::Paused => "Paused"@,
        ProductionStatus::Ready => "Ready: "@ + name,
    }
}

pub fn status_text(status: ProductionStatus, mining: bool, name: &str) -> (r: String)
    ensures
        r@ == spec_status_text(status, mining, name@),
{
    match status {
        ProductionStatus::Idle => owned("Idle"),
        ProductionStatus::Unlisted => {
            let mut s = owned("Active: ");
            push_str(&mut s, name);
            s
        },
        ProductionStatus::Running => {
            let mut s = if mining {
                owned("Mining: ")
            } else {
                owned("Producing: ")
            };
            push_str(&mut s, name);
            s
        },
        ProductionStatus::Paused => owned("Paused"),
        ProductionStatus::Ready => {
            let mut s = owned("Ready: ");
            push_str(&mut s, name);
            s
        },
    }
}

/// The inputs line of a running recipe: raw material for a mining recipe or one
/// without inputs, else each input as `Name xN`, two spaces apart.
pub open spec fn spec_inputs_text(
    defs: Seq<crate::catalog::ResourceDef>,
    mining: bool,
    input: Seq<(Seq<char>, u32)>,
) -> Seq<char> {
    if mining || input.len() == 0 {
        "Inputs:  (raw material)"@
    } else {
        "Inputs:  "@ + spec_items_text(defs, input, " x"@, ""@, "  "@)
    }
}

pub fn inputs_text(resources: &ResourceRegistry, mining: bool, input: &Vec<(ResourceId, u32)>) -> (r: String)
    ensures
        r@ == spec_inputs_text(resources.resources@, mining, items_view(input@)),
{
    if mining || input.len() == 0 {
        owned("Inputs:  (raw material)")
    } else {
        let mut s = owned("Inputs:  ");
        let t = items_text(resources, input, " x", "", "  ");
        push_str(&mut s, t.as_str());
        s
    }
}

/// The outputs line of a running recipe: each output as `Name  ×N`, two spaces apart.
pub open spec fn spec_outputs_text(defs: Seq<crate::catalog::ResourceDef>, output: Seq<(Seq<char>, u32)>) -> Seq<char> {
    "Outputs:  "@ + spec_items_text(defs, output, "  \u{d7}"@, ""@, "  "@)
}

pub fn outputs_text(resources: &ResourceRegistry, output: &Vec<(ResourceId, u32)>) -> (r: String)
    ensures
        r@ == spec_outputs_text(resources.resources@, items_view(output@)),
{
    let mut s = owned("Outputs:  ");
    let t = items_text(resources, output, "  \u{d7}", "", "  ");
    push_str(&mut s, t.as_str());
    s
}

/// The recipe line of the statistics: `Mining: resource` for a mining recipe,
/// else `Recipe:  id`.
pub open spec fn spec_recipe_name_text(recipe_id: Seq<char>) -> Seq<char> {
    match spec_mining_resource(recipe_id) {
        Some(res) => "Mining: "@ + res,
        None => "Recipe:  "@ + recipe_id,
    }
}

pub fn recipe_name_text(recipe_id: &str) -> (r: String)
    ensures
        r@ == spec_recipe_name_text(recipe_id@),
{
    match mining_resource(recipe_id) {
        Some(res) => {
            let mut s = owned("Mining: ");
            push_str(&mut s, res);
            s
        },
        None => {
            let mut s = owned("Recipe:  ");
            push_str(&mut s, recipe_id);
            s
        },
    }
}

/// The alerts of a building: a paused one says so.
pub fn alerts_text(active: bool) -> (r: &'static str)
    ensures
        r@ == (if active {
            "No alerts"@
        } else {
            "[!] Building paused"@
        }),
{
    if active {
        "No alerts"
    } else {
        "[!] Building paused"
    }
}

/// The cultivator count of a farm panel.
pub fn cultivators_text(count: u64) -> (r: String)
    ensures
        r@ == "Cultivators:  "@ + decimal(count as int),
{
    let mut s = owned("Cultivators:  ");
    push_decimal(&mut s, count);
    s
}

/// How a direction is written in the panel (its variant's name).
pub open spec fn spec_direction_name(d: Direction) -> Seq<char> {
    match d {
        Direction::East => "East"@,
        Direction::North => "North"@,
        Direction::West => "West"@,
        Direction::South => "South"@,
    }
}

pub fn direction_name(d: Direction) -> (r: &'static str)
    ensures
        r@ == spec_direction_name(d),
{
    match d {
        Direction::East => "East",
        Direction::North => "North",
        Direction::West => "West",
        Direction::South => "South",
    }
}

/// The connections line: for a belt, how many of its slots are occupied, its
/// length and its direction; otherwise that there are none.
pub open spec fn spec_connections_text<T>(belt: Option<(Seq<Option<BeltItem<T>>>, Direction)>) -> Seq<char> {
    match belt {
        Some((slots, dir)) => "Items in transit:  "@ + decimal(occupied_from(slots, 0) as int) + "/"@
            + decimal(slots.len() as int) + "  |  "@ + spec_direction_name(dir),
        None => "No connections"@,
    }
}

pub fn connections_text<T>(belt: Option<(&Vec<Option<BeltItem<T>>>, Direction)>) -> (r: String)
    ensures
        r@ == spec_connections_text(
            match belt {
                Some((v, d)) => Some((v@, d)),
                None => None,
            },
        ),
{
    match belt {
        Some((slots, dir)) => {
            let n = slots.len();
            let mut count: usize = 0;
            let mut i: usize = n;
            while i > 0
                invariant
                    i <= n,
                    n == slots@.len(),
                    count == occupied_from(slots@, i as int),
                    count <= n - i,
                decreases i,
            {
                i = i - 1;
                if slots[i].is_some() {
                    count = count + 1;
                }
            }
            let mut s = owned("Items in transit:  ");
            push_decimal(&mut s, count as u64);
            push_str(&mut s, "/");
            push_decimal(&mut s, n as u64);
            push_str(&mut s, "  |  ");
            push_str(&mut s, direction_name(dir));
            s
        },
        None => owned("No connections"),
    }
}

/// The identifiers of the known resources, in the registry's order.
pub open spec fn resource_ids(defs: Seq<ResourceDef>) -> Seq<Seq<char>> {
    defs.map_values(|d: ResourceDef| d.id@)
}

/// The identifiers at the given positions.
pub open spec fn ids_at(ids: Seq<Seq<char>>, idx: Seq<usize>) -> Seq<Seq<char>> {
    idx.map_values(|k: usize| ids[k as int])
}

pub open spec fn all_chosen(n: nat) -> Seq<bool> {
    Seq::new(n, |i: int| true)
}

/// The resources a sorter can filter on: every known identifier, in
/// lexicographic order.
pub fn sorter_resources(resources: &ResourceRegistry) -> (r: Vec<String>)
    ensures
        exists|idx: Seq<usize>|
            is_sorted_selection(resource_ids(resources.resources@), all_chosen(resources.resources@.len()), idx)
                && strings_view(r@) == ids_at(resource_ids(resources.resources@), idx),
{
    let ghost ids = resource_ids(resources.resources@);
    let n = resources.resources.len();
    let mut keys: Vec<&str> = Vec::new();
    let mut chosen: Vec<bool> = Vec::new();
    let mut k: usize = 0;
    while k < n
        invariant
            k <= n,
            n == resources.resources@.len(),
            ids == resource_ids(resources.resources@),
            keys@.len() == k,
            chosen@ == all_chosen(k as nat),
            forall|q: int| 0 <= q < k ==> #[trigger] keys@[q]@ == ids[q],
        decreases n - k,
    {
        keys.push(resources.resources[k].id.as_str());
        chosen.push(true);
        assert(chosen@ =~= all_chosen((k + 1) as nat));
        k = k + 1;
    }
    assert(strs_view(keys@) =~= ids);
    let idx = sorted_selection(&keys, &chosen);
    let mut out: Vec<String> = Vec::new();
    let mut j: usize = 0;
    while j < idx.len()
        invariant
            j <= idx@.len(),
            n == resources.resources@.len(),
            ids == resource_ids(resources.resources@),
            is_sorted_selection(ids, all_chosen(n as nat), idx@),
            strings_view(out@) == ids_at(ids, idx@.take(j as int)),
        decreases idx@.len() - j,
    {
        let i = idx[j];
        assert(i < n);
        let ghost before = strings_view(out@);
        out.push(owned(resources.resources[i].id.as_str()));
        assert(strings_view(out@) =~= before.push(ids[i as int]));
        assert(idx@.take(j + 1) =~= idx@.take(j as int).push(i));
        assert(ids_at(ids, idx@.take(j + 1)) =~= ids_at(ids, idx@.take(j as int)).push(ids[i as int]));
        j = j + 1;
    }
    assert(idx@.take(idx@.len() as int) =~= idx@);
    out
}

/// How the cost of an upgrade is written: `id xN`, comma separated.
pub open spec fn cost_parts(cost: Seq<(Seq<char>, u32)>) -> Seq<Seq<char>> {
    cost.map_values(|c: (Seq<char>, u32)| c.0 + " x"@ + decimal(c.1 as int))
}

pub open spec fn spec_upgrade_cost_text(cost: Seq<(Seq<char>, u32)>) -> Seq<char> {
    "Cost: "@ + join(cost_parts(cost), ", "@)
}

/// The two lines of an upgrade offer: what the building becomes, and its cost.
pub fn upgrade_texts(target_name: &str, cost: &Vec<Cost>) -> (r: (String, String))
    ensures
        r.0@ == "Upgrade to: "@ + target_name@,
        r.1@ == spec_upgrade_cost_text(cost_view(cost@)),
{
    let mut title = owned("Upgrade to: ");
    push_str(&mut title, target_name);
    let ghost cv = cost_view(cost@);
    let mut parts: Vec<String> = Vec::new();
    let mut i: usize = 0;
    while i < cost.len()
        invariant
            i <= cost@.len(),
            cv == cost_view(cost@),
            strings_view(parts@) == cost_parts(cv.take(i as int)),
        decreases cost@.len() - i,
    {
        let mut part = owned(cost[i].resource.0.as_str());
        push_str(&mut part, " x");
        push_decimal(&mut part, cost[i].amount as u64);
        let ghost before = strings_view(parts@);
        parts.push(part);
        assert(strings_view(parts@) =~= before.push(part@));
        assert(cv.take(i + 1) =~= cv.take(i as int).push(cv[i as int]));
        assert(cost_parts(cv.take(i + 1)) =~= cost_parts(cv.take(i as int)).push(cost_parts(cv.take(i + 1))[i as int]));
        i = i + 1;
    }
    assert(cv.take(cost@.len() as int) =~= cv);
    let mut line = owned("Cost: ");
    let joined = join_strings(&parts, ", ");
    push_str(&mut line, joined.as_str());
    (title, line)
}

/// The three lines of a deposit's panel: its title, the resource it holds and
/// what is left of it.
pub fn deposit_texts(resources: &ResourceRegistry, resource: &str, amount: u32) -> (r: (String, String, String))
    ensures
        r.0@ == "Resource Deposit: "@ + shown_name(resources.resources@, resource@),
        r.1@ == "Resource: "@ + shown_name(resources.resources@, resource@),
        r.2@ == "Remaining: "@ + decimal(amount as int),
{
    let name: &str = match resources.get_opt(resource) {
        Some(d) => d.name.as_str(),
        None => resource,
    };
    let mut title = owned("Resource Deposit: ");
    push_str(&mut title, name);
    let mut line = owned("Resource: ");
    push_str(&mut line, name);
    let mut left = owned("Remaining: ");
    push_decimal(&mut left, amount as u64);
    (title, line, left)
}

/// The recipe data of a building's panel: the recipe's shown name (looked up
/// by its identifier in lowercase), and its inputs and outputs written
/// `Name N×`, joined with ` + `.
pub fn recipe_panel_texts(resources: &ResourceRegistry, recipe_id: &str, recipe: &RecipeDef) -> (r: (
    String,
    String,
    String,
))
    ensures
        r.0@ == shown_name(resources.resources@, lowercase_of(recipe_id@)),
        r.1@ == spec_items_text(resources.resources@, items_view(recipe.input@), " "@, "\u{d7}"@, " + "@),
        r.2@ == spec_items_text(resources.resources@, items_view(recipe.output@), " "@, "\u{d7}"@, " + "@),
{
    let id = ResourceId::new(recipe_id);
    let name = resources.display_name(&id);
    let inputs = items_text(resources, &recipe.input, " ", "\u{d7}", " + ");
    let outputs = items_text(resources, &recipe.output, " ", "\u{d7}", " + ");
    (name, inputs, outputs)
}

pub open spec fn crop_has_id(id: Seq<char>) -> spec_fn((String, String)) -> bool {
    |c: (String, String)| c.0@ == id
}

/// The name a crop is shown with: its registered name, else its identifier.
pub open spec fn crop_name(crops: Seq<(String, String)>, id: Seq<char>) -> Seq<char> {
    let p = first_index(crops, crop_has_id(id));
    if p >= 0 {
        crops[p].1@
    } else {
        id
    }
}

fn find_crop(crops: &Vec<(String, String)>, id: &str) -> (r: Option<usize>)
    ensures
        match r {
            Some(i) => i < crops@.len() && first_index(crops@, crop_has_id(id@)) == i,
            None => first_index(crops@, crop_has_id(id@)) < 0,
        },
{
    let ghost p = crop_has_id(id@);
    let mut i: usize = 0;
    while i < crops.len()
        invariant
            i <= crops@.len(),
            p == crop_has_id(id@),
            forall|k: int| 0 <= k < i ==> !p(#[trigger] crops@[k]),
        decreases crops@.len() - i,
    {
        if str_equal(crops[i].0.as_str(), id) {
            proof {
                lemma_first_index_is(crops@, p, i as int);
            }
            return Some(i);
        }
        i = i + 1;
    }
    proof {
        lemma_first_index_none(crops@, p);
    }
    None
}

/// The crops line of a farm: the names of its crops, comma separated.
pub open spec fn crop_names(crop_types: Seq<Seq<char>>, crops: Seq<(String, String)>) -> Seq<Seq<char>> {
    crop_types.map_values(|c: Seq<char>| crop_name(crops, c))
}

pub open spec fn spec_crops_text(crop_types: Seq<Seq<char>>, crops: Seq<(String, String)>) -> Seq<char> {
    "Crops:  "@ + join(crop_names(crop_types, crops), ", "@)
}

/// The crops line of a farm, with the crop names given as `(identifier, name)`.
pub fn crops_text(crop_types: &Vec<String>, crops: &Vec<(String, String)>) -> (r: String)
    ensures
        r@ == spec_crops_text(strings_view(crop_types@), crops@),
{
    let ghost ct = strings_view(crop_types@);
    let mut names: Vec<String> = Vec::new();
    let mut i: usize = 0;
    while i < crop_types.len()
        invariant
            i <= ct.len(),
            ct == strings_view(crop_types@),
            strings_view(names@) == crop_names(ct.take(i as int), crops@),
        decreases ct.len() - i,
    {
        let name = match find_crop(crops, crop_types[i].as_str()) {
            Some(p) => owned(crops[p].1.as_str()),
            None => owned(crop_types[i].as_str()),
        };
        let ghost before = strings_view(names@);
        assert(crop_types@[i as int]@ == ct[i as int]);
        names.push(name);
        assert(strings_view(names@) =~= before.push(crop_name(crops@, ct[i as int])));
        assert(ct.take(i + 1) =~= ct.take(i as int).push(ct[i as int]));
        assert(crop_names(ct.take(i + 1), crops@) =~= crop_names(ct.take(i as int), crops@).push(crop_name(crops@, ct[i as int])));
        i = i + 1;
    }
    assert(ct.take(ct.len() as int) =~= ct);
    let mut out = owned("Crops:  ");
    let joined = join_strings(&names, ", ");
    push_str(&mut out, joined.as_str());
    out
}

/// The amounts of a list of `(resource, amount)` pairs.
pub open spec fn amounts_of(entries: Seq<(Seq<char>, u32)>) -> Seq<u32> {
    entries.map_values(|e: (Seq<char>, u32)| e.1)
}

/// One entry of an inventory summary: `Name: N`.
pub open spec fn summary_line(defs: Seq<ResourceDef>, e: (Seq<char>, u32)) -> Seq<char> {
    shown_name(defs, e.0) + ": "@ + decimal(e.1 as int)
}

/// The lines of an inventory summary: the first five entries in the given
/// order, then how many more there are.
pub open spec fn summary_lines(defs: Seq<ResourceDef>, entries: Seq<(Seq<char>, u32)>, order: Seq<usize>) -> Seq<Seq<char>> {
    let shown = if entries.len() < 5 {
        entries.len() as int
    } else {
        5
    };
    Seq::new(shown as nat, |t: int| summary_line(defs, entries[order[t] as int])) + (if entries.len() > 5 {
        seq!["... +"@ + decimal(entries.len() - 5) + " more"@]
    } else {
        Seq::empty()
    })
}

/// The capacity line of an inventory with a capacity.
pub open spec fn capacity_line(slots: Seq<SlotView>, capacity: u32) -> Seq<char> {
    "Capacity:  "@ + decimal(total_in(slots) as int) + "/"@ + decimal(capacity as int)
}

/// The capacity line of a building's panel: the fill against the capacity
/// when there is one; else, when something is held, the five largest
/// stacks (equal ones in slot order) and how many more there are; else the
/// item count.
pub fn inventory_text(inv: &Inventory, resources: &ResourceRegistry) -> (r: String)
    requires
        total_in(inv@) <= u32::MAX,
    ensures
        inv.spec_capacity() > 0 ==> r@ == capacity_line(inv@, inv.spec_capacity()),
        inv.spec_capacity() == 0 && total_in(inv@) == 0 ==> r@ == "Items:  0"@,
        inv.spec_capacity() == 0 && total_in(inv@) > 0 ==> exists|order: Seq<usize>|
            is_amount_order(amounts_of(occupied_of(inv@)), order) && r@ == join(
                summary_lines(resources.resources@, occupied_of(inv@), order),
                "  |  "@,
            ),
{
    let total = inv.total();
    let cap = inv.capacity();
    if cap > 0 {
        let mut s = owned("Capacity:  ");
        push_decimal(&mut s, total as u64);
        push_str(&mut s, "/");
        push_decimal(&mut s, cap as u64);
        return s;
    }
    if total == 0 {
        return owned("Items:  0");
    }
    let ghost defs = resources.resources@;
    let entries = inv.iter_occupied();
    let ghost ev = occupied_of(inv@);
    assert(entries@.len() == ev.len());
    let n = entries.len();
    let mut amounts: Vec<u32> = Vec::new();
    let mut i: usize = 0;
    while i < n
        invariant
            i <= n,
            n == entries@.len(),
            ev == entries@.map_values(|p: (ResourceId, u32)| (p.0@, p.1)),
            amounts@ == amounts_of(ev.take(i as int)),
        decreases n - i,
    {
        amounts.push(entries[i].1);
        assert(amounts_of(ev.take(i + 1)) =~= amounts_of(ev.take(i as int)).push(ev[i as int].1));
        i = i + 1;
    }
    assert(ev.take(n as int) =~= ev);
    let order = order_by_amount(&amounts);
    let shown: usize = if n < 5 {
        n
    } else {
        5
    };
    let ghost all = summary_lines(defs, ev, order@);
    let mut lines: Vec<String> = Vec::new();
    let mut t: usize = 0;
    while t < shown
        invariant
            t <= shown,
            shown <= n,
            shown == (if n < 5 { n } else { 5 }),
            n == entries@.len(),
            defs == resources.resources@,
            ev == entries@.map_values(|p: (ResourceId, u32)| (p.0@, p.1)),
            is_amount_order(amounts_of(ev), order@),
            strings_view(lines@) == Seq::new(t as nat, |q: int| summary_line(defs, ev[order@[q] as int])),
        decreases shown - t,
    {
        let e = order[t];
        assert(e < n);
        let mut line = resources.display_name(&entries[e].0);
        push_str(&mut line, ": ");
        push_decimal(&mut line, entries[e].1 as u64);
        assert(line@ == summary_line(defs, ev[e as int]));
        let ghost before = strings_view(lines@);
        lines.push(line);
        assert(strings_view(lines@) =~= before.push(summary_line(defs, ev[e as int])));
        assert(strings_view(lines@) =~= Seq::new((t + 1) as nat, |q: int| summary_line(defs, ev[order@[q] as int])));
        t = t + 1;
    }
    if n > 5 {
        let mut more = owned("... +");
        push_decimal(&mut more, (n - 5) as u64);
        push_str(&mut more, " more");
        lines.push(more);
    }
    assert(strings_view(lines@) =~= all);
    join_strings(&lines, "  |  ")
}

} // verus!
