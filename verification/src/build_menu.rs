use vstd::prelude::*;

use crate::discovery::{strings_view, GlobalArchive};
use crate::first_index::{first_index, lemma_first_index, lemma_first_index_is, lemma_first_index_none};
use crate::inventory::Inventory;
use crate::placement::{can_afford, cost_view};
use crate::recipe::{amounts_fit, spec_inputs_available};
use crate::resource::Cost;
use crate::text::{decimal, debug_str_of, owned, push_debug_str, push_decimal, push_str, str_equal};

verus! {

/// What a leaf of the build menu does.
#[derive(Debug, Clone)]
pub enum MenuAction {
    Build(String),
    Spawn(String),
    Delete,
}

/// The build menu: a tree of sub-menus whose leaves are actions.
#[derive(Debug)]
pub enum MenuEntry {
    Action { label: String, action: MenuAction },
    SubMenu { label: String, items: Vec<MenuEntry> },
}

/// A menu action with its identifiers seen as text.
pub enum ActionView {
    Build(Seq<char>),
    Spawn(Seq<char>),
    Delete,
}

pub open spec fn action_view(a: MenuAction) -> ActionView {
    match a {
        MenuAction::Build(id) => ActionView::Build(id@),
        MenuAction::Spawn(id) => ActionView::Spawn(id@),
        MenuAction::Delete => ActionView::Delete,
    }
}

/// How a building appears in the build menu.
#[derive(Debug, Clone)]
pub struct BuildingMenuInfo {
    pub id: String,
    pub name: String,
    pub hidden: bool,
    pub requires_discovery: Option<String>,
    pub cost: Vec<Cost>,
    pub texture_stem: String,
}

/// How a unit appears in the build menu.
#[derive(Debug, Clone)]
pub struct UnitMenuInfo {
    pub id: String,
    pub name: String,
    pub cost: Vec<Cost>,
    pub texture_stem: String,
}

/// The buildings and units the menu can offer, looked up by identifier.
#[derive(Debug, Clone)]
pub struct MenuCatalog {
    pub buildings: Vec<BuildingMenuInfo>,
    pub units: Vec<UnitMenuInfo>,
}

pub open spec fn building_has_id(id: Seq<char>) -> spec_fn(BuildingMenuInfo) -> bool {
    |b: BuildingMenuInfo| b.id@ == id
}

pub open spec fn unit_has_id(id: Seq<char>) -> spec_fn(UnitMenuInfo) -> bool {
    |u: UnitMenuInfo| u.id@ == id
}

/// The first building with the identifier, or -1.
pub open spec fn building_index(c: MenuCatalog, id: Seq<char>) -> int {
    first_index(c.buildings@, building_has_id(id))
}

/// The first unit with the identifier, or -1.
pub open spec fn unit_index(c: MenuCatalog, id: Seq<char>) -> int {
    first_index(c.units@, unit_has_id(id))
}

/// Whether a building can be offered: it exists, is not hidden, and the
/// discovery it requires, if any, is unlocked.
pub open spec fn building_offered(c: MenuCatalog, id: Seq<char>, unlocked: Set<Seq<char>>) -> bool {
    let i = building_index(c, id);
    &&& i >= 0
    &&& !c.buildings@[i].hidden
    &&& match c.buildings@[i].requires_discovery {
        Some(r) => unlocked.contains(r@),
        None => true,
    }
}

pub open spec fn action_offered(a: MenuAction, c: MenuCatalog, unlocked: Set<Seq<char>>) -> bool {
    match a {
        MenuAction::Build(id) => building_offered(c, id@, unlocked),
        MenuAction::Spawn(id) => unit_index(c, id@) >= 0,
        MenuAction::Delete => true,
    }
}

/// Whether an entry shows: an action that can be offered, or a sub-menu with
/// some entry that shows.
pub open spec fn entry_visible(e: MenuEntry, c: MenuCatalog, unlocked: Set<Seq<char>>) -> bool
    decreases e,
{
    match e {
        MenuEntry::Action { action, .. } => action_offered(action, c, unlocked),
        MenuEntry::SubMenu { items, .. } => any_visible(items@, c, unlocked),
    }
}

pub open spec fn any_visible(s: Seq<MenuEntry>, c: MenuCatalog, unlocked: Set<Seq<char>>) -> bool
    decreases s,
{
    if s.len() == 0 {
        false
    } else {
        any_visible(s.drop_last(), c, unlocked) || entry_visible(s.last(), c, unlocked)
    }
}

fn find_building<'a>(c: &'a MenuCatalog, id: &str) -> (r: Option<&'a BuildingMenuInfo>)
    ensures
        match r {
            Some(b) => building_index(*c, id@) >= 0 && *b == c.buildings@[building_index(*c, id@)],
            None => building_index(*c, id@) < 0,
        },
{
    let ghost p = building_has_id(id@);
    let mut i: usize = 0;
    while i < c.buildings.len()
        invariant
            i <= c.buildings@.len(),
            p == building_has_id(id@),
            forall|k: int| 0 <= k < i ==> !p(#[trigger] c.buildings@[k]),
        decreases c.buildings@.len() - i,
    {
        if str_equal(c.buildings[i].id.as_str(), id) {
            proof {
                lemma_first_index_is(c.buildings@, p, i as int);
            }
            return Some(&c.buildings[i]);
        }
        i = i + 1;
    }
    proof {
        lemma_first_index_none(c.buildings@, p);
    }
    None
}

fn find_unit<'a>(c: &'a MenuCatalog, id: &str) -> (r: Option<&'a UnitMenuInfo>)
    ensures
        match r {
            Some(u) => unit_index(*c, id@) >= 0 && *u == c.units@[unit_index(*c, id@)],
            None => unit_index(*c, id@) < 0,
        },
{
    let ghost p = unit_has_id(id@);
    let mut i: usize = 0;
    while i < c.units.len()
        invariant
            i <= c.units@.len(),
            p == unit_has_id(id@),
            forall|k: int| 0 <= k < i ==> !p(#[trigger] c.units@[k]),
        decreases c.units@.len() - i,
    {
        if str_equal(c.units[i].id.as_str(), id) {
            proof {
                lemma_first_index_is(c.units@, p, i as int);
            }
            return Some(&c.units[i]);
        }
        i = i + 1;
    }
    proof {
        lemma_first_index_none(c.units@, p);
    }
    None
}

fn building_offered_exec(c: &MenuCatalog, id: &str, archive: &GlobalArchive) -> (r: bool)
    ensures
        r == building_offered(*c, id@, archive@),
{
    match find_building(c, id) {
        Some(b) => {
            if b.hidden {
                false
            } else {
                match &b.requires_discovery {
                    Some(req) => archive.is_unlocked(req.as_str()),
                    None => true,
                }
            }
        },
        None => false,
    }
}

fn action_offered_exec(a: &MenuAction, c: &MenuCatalog, archive: &GlobalArchive) -> (r: bool)
    ensures
        r == action_offered(*a, *c, archive@),
{
    match a {
        MenuAction::Build(id) => building_offered_exec(c, id.as_str(), archive),
        MenuAction::Spawn(id) => find_unit(c, id.as_str()).is_some(),
        MenuAction::Delete => true,
    }
}

/// Whether a menu entry has something to show.
pub fn has_visible_children(entry: &MenuEntry, catalog: &MenuCatalog, archive: &GlobalArchive) -> (r: bool)
    ensures
        r == entry_visible(*entry, *catalog, archive@),
    decreases entry,
{
    match entry {
        MenuEntry::Action { action, .. } => action_offered_exec(action, catalog, archive),
        MenuEntry::SubMenu { items, .. } => {
            let mut k: usize = 0;
            while k < items.len()
                invariant
                    entry is SubMenu,
                    entry->items == *items,
                    k <= items@.len(),
                    any_visible(items@.take(k as int), *catalog, archive@) == false,
                decreases items@.len() - k,
            {
                assert(items@.take(k + 1).drop_last() =~= items@.take(k as int));
                proof {
                    broadcast use vstd::std_specs::vec::axiom_vec_decreases_to_view;

                    assert(decreases_to!(*entry => entry->items));
                    assert(decreases_to!(*items => items@));
                    assert(decreases_to!(items@ => items@[k as int]));
                }
                assert(items@.take(k + 1).last() == items@[k as int]);
                if has_visible_children(&items[k], catalog, archive) {
                    proof {
                        lemma_any_visible_prefix(items@, *catalog, archive@, k + 1);
                    }
                    return true;
                }
                k = k + 1;
            }
            assert(items@.take(items@.len() as int) =~= items@);
            false
        },
    }
}

proof fn lemma_any_visible_prefix(s: Seq<MenuEntry>, c: MenuCatalog, unlocked: Set<Seq<char>>, n: int)
    requires
        0 <= n <= s.len(),
        any_visible(s.take(n), c, unlocked),
    ensures
        any_visible(s, c, unlocked),
    decreases s.len() - n,
{
    if n < s.len() {
        assert(s.take(n + 1).drop_last() =~= s.take(n));
        lemma_any_visible_prefix(s, c, unlocked, n + 1);
    } else {
        assert(s.take(n) =~= s);
    }
}

/// Whether every index of `stack` exists at its level, up to the first action
/// on the way (navigation stops there).
pub open spec fn path_ok(entries: Seq<MenuEntry>, stack: Seq<usize>) -> bool
    decreases stack.len(),
{
    if stack.len() == 0 {
        true
    } else if stack[0] >= entries.len() {
        false
    } else {
        match entries[stack[0] as int] {
            MenuEntry::SubMenu { items, .. } => path_ok(items@, stack.skip(1)),
            MenuEntry::Action { .. } => true,
        }
    }
}

/// The entries shown at the end of a path: the items of the last sub-menu
/// reached, nothing when the path runs into an action.
pub open spec fn level_at(entries: Seq<MenuEntry>, stack: Seq<usize>) -> Seq<MenuEntry>
    decreases stack.len(),
{
    if stack.len() == 0 {
        entries
    } else {
        match entries[stack[0] as int] {
            MenuEntry::SubMenu { items, .. } => level_at(items@, stack.skip(1)),
            MenuEntry::Action { .. } => Seq::empty(),
        }
    }
}

/// The labels of the sub-menus along a path, up to the first action.
pub open spec fn crumbs_at(entries: Seq<MenuEntry>, stack: Seq<usize>) -> Seq<Seq<char>>
    decreases stack.len(),
{
    if stack.len() == 0 {
        Seq::empty()
    } else {
        match entries[stack[0] as int] {
            MenuEntry::SubMenu { label, items } => seq![label@] + crumbs_at(items@, stack.skip(1)),
            MenuEntry::Action { .. } => Seq::empty(),
        }
    }
}

/// The parts joined with `sep` between them.
pub open spec fn join(parts: Seq<Seq<char>>, sep: Seq<char>) -> Seq<char>
    decreases parts.len(),
{
    if parts.len() == 0 {
        Seq::empty()
    } else if parts.len() == 1 {
        parts[0]
    } else {
        join(parts.drop_last(), sep) + sep + parts.last()
    }
}

/// Joins texts with a separator between each two.
pub fn join_strings(parts: &Vec<String>, sep: &str) -> (r: String)
    ensures
        r@ == join(strings_view(parts@), sep@),
{
    let ghost pv = strings_view(parts@);
    let mut out = String::new();
    let mut i: usize = 0;
    while i < parts.len()
        invariant
            i <= parts@.len(),
            pv == strings_view(parts@),
            out@ == join(pv.take(i as int), sep@),
        decreases parts@.len() - i,
    {
        if i > 0 {
            push_str(&mut out, sep);
        }
        push_str(&mut out, parts[i].as_str());
        proof {
            assert(pv.take(i + 1).drop_last() =~= pv.take(i as int));
            if i == 0 {
                assert(pv.take(1) =~= seq![pv[0]]);
            }
        }
        i = i + 1;
    }
    assert(pv.take(parts@.len() as int) =~= pv);
    out
}

/// The entries at the current menu level.
pub fn items_at<'a>(entries: &'a [MenuEntry], stack: &[usize]) -> (r: &'a [MenuEntry])
    requires
        path_ok(entries@, stack@),
    ensures
        r@ == level_at(entries@, stack@),
{
    let mut current = entries;
    let mut k: usize = 0;
    assert(stack@.skip(0) =~= stack@);
    while k < stack.len()
        invariant
            k <= stack@.len(),
            path_ok(current@, stack@.skip(k as int)),
            level_at(entries@, stack@) == level_at(current@, stack@.skip(k as int)),
        decreases stack@.len() - k,
    {
        let idx = stack[k];
        assert(stack@.skip(k as int)[0] == idx);
        assert(stack@.skip(k as int).skip(1) =~= stack@.skip(k + 1));
        match &current[idx] {
            MenuEntry::SubMenu { items, .. } => {
                current = items.as_slice();
            },
            MenuEntry::Action { .. } => {
                return &[];
            },
        }
        k = k + 1;
    }
    assert(stack@.skip(k as int) =~= Seq::<usize>::empty());
    current
}

/// The breadcrumb of the current level: the labels of the sub-menus entered,
/// joined with ` > `.
pub fn breadcrumb_at(entries: &[MenuEntry], stack: &[usize]) -> (r: String)
    requires
        path_ok(entries@, stack@),
    ensures
        r@ == join(crumbs_at(entries@, stack@), " > "@),
{
    let mut current = entries;
    let mut out = String::new();
    let ghost mut got: Seq<Seq<char>> = Seq::empty();
    let mut first = true;
    let mut k: usize = 0;
    assert(stack@.skip(0) =~= stack@);
    assert(got + crumbs_at(entries@, stack@) =~= crumbs_at(entries@, stack@));
    while k < stack.len()
        invariant
            k <= stack@.len(),
            first == (got.len() == 0),
            path_ok(current@, stack@.skip(k as int)),
            crumbs_at(entries@, stack@) == got + crumbs_at(current@, stack@.skip(k as int)),
            out@ == join(got, " > "@),
        decreases stack@.len() - k,
    {
        let idx = stack[k];
        assert(stack@.skip(k as int)[0] == idx);
        assert(stack@.skip(k as int).skip(1) =~= stack@.skip(k + 1));
        match &current[idx] {
            MenuEntry::SubMenu { label, items } => {
                if !first {
                    push_str(&mut out, " > ");
                }
                proof {
                    if got.len() > 0 {
                        assert(got.push(label@).drop_last() =~= got);
                    } else {
                        assert(got.push(label@) =~= seq![label@]);
                    }
                }
                push_str(&mut out, label.as_str());
                first = false;
                proof {
                    assert(seq![label@] + crumbs_at(items@, stack@.skip(k + 1)) == crumbs_at(
                        current@,
                        stack@.skip(k as int),
                    ));
                    assert(got + (seq![label@] + crumbs_at(items@, stack@.skip(k + 1))) =~= got.push(
                        label@,
                    ) + crumbs_at(items@, stack@.skip(k + 1)));
                    got = got.push(label@);
                }
                current = items.as_slice();
            },
            MenuEntry::Action { .. } => {
                assert(got + crumbs_at(current@, stack@.skip(k as int)) =~= got);
                return out;
            },
        }
        k = k + 1;
    }
    assert(stack@.skip(k as int) =~= Seq::<usize>::empty());
    assert(got + crumbs_at(current@, stack@.skip(k as int)) =~= got);
    out
}

/// How one cost item is written: `5 ResourceId("iron_ore")`.
pub open spec fn cost_text(c: (Seq<char>, u32)) -> Seq<char> {
    decimal(c.1 as int) + " ResourceId("@ + debug_str_of(c.0) + ")"@
}

/// A cost written out: its items joined with ` + `.
pub open spec fn spec_format_cost(cost: Seq<(Seq<char>, u32)>) -> Seq<char> {
    join(cost.map_values(|c: (Seq<char>, u32)| cost_text(c)), " + "@)
}

/// The cost shown under a menu item.
pub fn format_cost(cost: &Vec<Cost>) -> (r: String)
    ensures
        r@ == spec_format_cost(cost_view(cost@)),
{
    let ghost cv = cost_view(cost@);
    let mut out = String::new();
    let mut i: usize = 0;
    while i < cost.len()
        invariant
            i <= cost@.len(),
            cv == cost_view(cost@),
            out@ == spec_format_cost(cv.take(i as int)),
        decreases cost@.len() - i,
    {
        let ghost before = out@;
        if i > 0 {
            push_str(&mut out, " + ");
        }
        push_decimal(&mut out, cost[i].amount as u64);
        push_str(&mut out, " ResourceId(");
        push_debug_str(&mut out, cost[i].resource.0.as_str());
        push_str(&mut out, ")");
        proof {
            let parts = cv.take(i + 1).map_values(|c: (Seq<char>, u32)| cost_text(c));
            let prev = cv.take(i as int).map_values(|c: (Seq<char>, u32)| cost_text(c));
            assert(parts.drop_last() =~= prev);
            assert(parts.last() == cost_text(cv[i as int]));
            if i == 0 {
                assert(parts =~= seq![cost_text(cv[0])]);
            }
        }
        i = i + 1;
    }
    assert(cv.take(cost@.len() as int) =~= cv);
    out
}

/// The key shown on the `index`-th slot of the bar: `2`..`9`, then `0`.
pub open spec fn spec_slot_key(index: int) -> Seq<char> {
    if 0 <= index < 8 {
        seq![(index + 50) as char]
    } else {
        seq!['0']
    }
}

pub fn slot_key(index: usize) -> (r: &'static str)
    ensures
        r@ == spec_slot_key(index as int),
{
    proof {
        reveal_strlit("2");
        reveal_strlit("3");
        reveal_strlit("4");
        reveal_strlit("5");
        reveal_strlit("6");
        reveal_strlit("7");
        reveal_strlit("8");
        reveal_strlit("9");
        reveal_strlit("0");
    }
    match index {
        0 => "2",
        1 => "3",
        2 => "4",
        3 => "5",
        4 => "6",
        5 => "7",
        6 => "8",
        7 => "9",
        _ => "0",
    }
}

/// The small caption above a bar item: its key, then `› ` for a sub-menu.
pub open spec fn spec_slot_caption(index: int, submenu: bool) -> Seq<char> {
    spec_slot_key(index) + " "@ + (if submenu {
        "\u{203a} "@
    } else {
        Seq::empty()
    })
}

pub fn slot_caption(index: usize, item: &FlatItem) -> (r: String)
    ensures
        r@ == spec_slot_caption(index as int, item.kind is SubMenu),
{
    let mut s = owned(slot_key(index));
    push_str(&mut s, " ");
    match &item.kind {
        FlatItemKind::SubMenu => push_str(&mut s, "\u{203a} "),
        FlatItemKind::Action(_) => {},
    }
    s
}

/// What a bar item does when activated.
#[derive(Debug, Clone)]
pub enum FlatItemKind {
    Action(MenuAction),
    SubMenu,
}

/// One item of the bar at the current level.
#[derive(Debug, Clone)]
pub struct FlatItem {
    pub label: String,
    pub kind: FlatItemKind,
    pub cost_str: String,
    pub texture_stem: Option<String>,
}

/// A bar item seen as text: label, action (`None` for a sub-menu), cost text
/// and texture.
pub type FlatView = (Seq<char>, Option<ActionView>, Seq<char>, Option<Seq<char>>);

pub open spec fn flat_view(f: FlatItem) -> FlatView {
    (
        f.label@,
        match f.kind {
            FlatItemKind::Action(a) => Some(action_view(a)),
            FlatItemKind::SubMenu => None,
        },
        f.cost_str@,
        match f.texture_stem {
            Some(t) => Some(t@),
            None => None,
        },
    )
}

/// The bar item a visible entry shows as.
pub open spec fn flat_of(e: MenuEntry, c: MenuCatalog) -> FlatView {
    match e {
        MenuEntry::Action { label, action } => match action {
            MenuAction::Build(id) => {
                let b = c.buildings@[building_index(c, id@)];
                (label@, Some(ActionView::Build(id@)), spec_format_cost(cost_view(b.cost@)), Some(b.texture_stem@))
            },
            MenuAction::Spawn(id) => {
                let u = c.units@[unit_index(c, id@)];
                (label@, Some(ActionView::Spawn(id@)), spec_format_cost(cost_view(u.cost@)), Some(u.texture_stem@))
            },
            MenuAction::Delete => (label@, Some(ActionView::Delete), Seq::empty(), None),
        },
        MenuEntry::SubMenu { label, .. } => (label@, None, Seq::empty(), None),
    }
}

/// The bar items of a level before scrolling: its visible entries, in order.
pub open spec fn spec_flat_level(level: Seq<MenuEntry>, c: MenuCatalog, unlocked: Set<Seq<char>>) -> Seq<FlatView>
    decreases level.len(),
{
    if level.len() == 0 {
        Seq::empty()
    } else {
        let rest = spec_flat_level(level.drop_last(), c, unlocked);
        if entry_visible(level.last(), c, unlocked) {
            rest.push(flat_of(level.last(), c))
        } else {
            rest
        }
    }
}

pub open spec fn min_int(a: int, b: int) -> int {
    if a <= b {
        a
    } else {
        b
    }
}

/// The items shown on a page: from `scroll`, at most `size` of them.
pub open spec fn page_of<A>(all: Seq<A>, scroll: int, size: int) -> Seq<A> {
    all.subrange(min_int(scroll, all.len() as int), min_int(scroll + size, all.len() as int))
}

/// The build menu as loaded: its tree and how many items a page shows.
#[derive(Debug)]
pub struct MenuDef {
    pub root: Vec<MenuEntry>,
    pub page_size: usize,
}

/// Where the player is in the build menu.
#[derive(Debug, Default)]
pub struct MenuState {
    /// Indices of the sub-menus entered, from the root.
    pub stack: Vec<usize>,
    /// How many items of the current level are scrolled past.
    pub scroll: usize,
}

/// What the bar shows for the current level.
#[derive(Debug, Default)]
pub struct MenuItems {
    pub items: Vec<FlatItem>,
    pub has_back: bool,
    pub breadcrumb: String,
    pub can_scroll_left: bool,
    pub can_scroll_right: bool,
    pub total_items: usize,
}

fn flat_item_of(e: &MenuEntry, c: &MenuCatalog, archive: &GlobalArchive) -> (r: Option<FlatItem>)
    ensures
        match r {
            Some(f) => entry_visible(*e, *c, archive@) && flat_view(f) == flat_of(*e, *c),
            None => !entry_visible(*e, *c, archive@),
        },
{
    if !has_visible_children(e, c, archive) {
        return None;
    }
    match e {
        MenuEntry::Action { label, action } => match action {
            MenuAction::Build(id) => {
                let b = find_building(c, id.as_str()).unwrap();
                Some(
                    FlatItem {
                        label: owned(label.as_str()),
                        kind: FlatItemKind::Action(MenuAction::Build(owned(id.as_str()))),
                        cost_str: format_cost(&b.cost),
                        texture_stem: Some(owned(b.texture_stem.as_str())),
                    },
                )
            },
            MenuAction::Spawn(id) => {
                let u = find_unit(c, id.as_str()).unwrap();
                Some(
                    FlatItem {
                        label: owned(label.as_str()),
                        kind: FlatItemKind::Action(MenuAction::Spawn(owned(id.as_str()))),
                        cost_str: format_cost(&u.cost),
                        texture_stem: Some(owned(u.texture_stem.as_str())),
                    },
                )
            },
            MenuAction::Delete => {
                let f = FlatItem {
                    label: owned(label.as_str()),
                    kind: FlatItemKind::Action(MenuAction::Delete),
                    cost_str: String::new(),
                    texture_stem: None,
                };
                assert(f.cost_str@ =~= Seq::<char>::empty());
                Some(f)
            },
        },
        MenuEntry::SubMenu { label, .. } => {
            let f = FlatItem {
                label: owned(label.as_str()),
                kind: FlatItemKind::SubMenu,
                cost_str: String::new(),
                texture_stem: None,
            };
            assert(f.cost_str@ =~= Seq::<char>::empty());
            Some(f)
        },
    }
}

pub open spec fn flat_views(v: Seq<FlatItem>) -> Seq<FlatView> {
    v.map_values(|f: FlatItem| flat_view(f))
}

/// The bar for the current level: its visible items, the page from `scroll`,
/// whether there is a level to go back to, the breadcrumb, and whether the
/// page can scroll either way.
pub fn flat_items_at(
    entries: &[MenuEntry],
    stack: &[usize],
    scroll: usize,
    catalog: &MenuCatalog,
    menu_def: &MenuDef,
    archive: &GlobalArchive,
) -> (r: MenuItems)
    requires
        path_ok(entries@, stack@),
        scroll + menu_def.page_size <= usize::MAX,
    ensures
        flat_views(r.items@) == page_of(
            spec_flat_level(level_at(entries@, stack@), *catalog, archive@),
            scroll as int,
            menu_def.page_size as int,
        ),
        r.total_items == spec_flat_level(level_at(entries@, stack@), *catalog, archive@).len(),
        r.has_back == (stack@.len() > 0),
        r.breadcrumb@ == join(crumbs_at(entries@, stack@), " > "@),
        r.can_scroll_left == (scroll > 0),
        r.can_scroll_right == (scroll + menu_def.page_size < r.total_items),
{
    let level = items_at(entries, stack);
    let ghost lv = level@;
    let page_size = menu_def.page_size;
    let mut items: Vec<FlatItem> = Vec::new();
    let mut count: usize = 0;
    let mut i: usize = 0;
    while i < level.len()
        invariant
            lv == level@,
            i <= lv.len(),
            scroll + page_size <= usize::MAX,
            count == spec_flat_level(lv.take(i as int), *catalog, archive@).len(),
            count <= i,
            flat_views(items@) == page_of(
                spec_flat_level(lv.take(i as int), *catalog, archive@),
                scroll as int,
                page_size as int,
            ),
        decreases lv.len() - i,
    {
        let ghost all = spec_flat_level(lv.take(i as int), *catalog, archive@);
        assert(lv.take(i + 1).drop_last() =~= lv.take(i as int));
        assert(lv.take(i + 1).last() == lv[i as int]);
        match flat_item_of(&level[i], catalog, archive) {
            Some(f) => {
                let ghost all2 = all.push(flat_view(f));
                assert(all2 == spec_flat_level(lv.take(i + 1), *catalog, archive@));
                if scroll <= count && count < scroll + page_size {
                    let ghost before = flat_views(items@);
                    items.push(f);
                    assert(flat_views(items@) =~= before.push(flat_view(f)));
                    assert(page_of(all2, scroll as int, page_size as int) =~= page_of(
                        all,
                        scroll as int,
                        page_size as int,
                    ).push(flat_view(f)));
                } else {
                    assert(page_of(all2, scroll as int, page_size as int) =~= page_of(
                        all,
                        scroll as int,
                        page_size as int,
                    ));
                }
                count = count + 1;
            },
            None => {},
        }
        i = i + 1;
    }
    assert(lv.take(lv.len() as int) =~= lv);
    MenuItems {
        items,
        has_back: stack.len() > 0,
        breadcrumb: breadcrumb_at(entries, stack),
        can_scroll_left: scroll > 0,
        can_scroll_right: scroll + page_size < count,
        total_items: count,
    }
}

/// The state the bar works on: the menu path, the scroll, the building being
/// placed and whether deconstruction is on.
pub struct BarView {
    pub stack: Seq<usize>,
    pub scroll: usize,
    pub build_mode: Option<Seq<char>>,
    pub deconstruct: bool,
}

pub open spec fn opt_view(o: Option<String>) -> Option<Seq<char>> {
    match o {
        Some(s) => Some(s@),
        None => None,
    }
}

pub open spec fn bar_view(state: MenuState, build_mode: Option<String>, deconstruct: bool) -> BarView {
    BarView { stack: state.stack@, scroll: state.scroll, build_mode: opt_view(build_mode), deconstruct }
}

pub open spec fn submenu_labelled(label: Seq<char>) -> spec_fn(MenuEntry) -> bool {
    |e: MenuEntry| e matches MenuEntry::SubMenu { label: l, .. } && l@ == label
}

/// Going back one level: the last sub-menu is left and the scroll reset.
pub open spec fn spec_back(st: BarView) -> BarView {
    if st.stack.len() > 0 {
        BarView { stack: st.stack.drop_last(), scroll: 0, ..st }
    } else {
        st
    }
}

/// What activating a bar item does, and which unit it asks to spawn.
/// A sub-menu item enters the first sub-menu of the level with its label; when
/// the new level starts with an action, that action is taken up at once
/// (a building is selected, a unit is spawned). A building item selects the
/// building, or deselects it when it is the one selected, and ends
/// deconstruction. The delete item switches deconstruction, dropping the
/// building being placed when it turns on.
pub open spec fn spec_activate(item: FlatView, root: Seq<MenuEntry>, st: BarView) -> (BarView, Option<Seq<char>>) {
    match item.1 {
        None => {
            let level = level_at(root, st.stack);
            let idx = first_index(level, submenu_labelled(item.0));
            if idx < 0 {
                (st, None)
            } else {
                let stack2 = st.stack.push(idx as usize);
                let nl = level_at(root, stack2);
                let base = BarView { stack: stack2, scroll: 0, ..st };
                if nl.len() > 0 && nl[0] is Action {
                    match nl[0]->action {
                        MenuAction::Build(id) => (BarView { build_mode: Some(id@), ..base }, None),
                        MenuAction::Spawn(id) => (base, Some(id@)),
                        MenuAction::Delete => (base, None),
                    }
                } else {
                    (base, None)
                }
            }
        },
        Some(ActionView::Build(id)) => (
            BarView {
                deconstruct: false,
                build_mode: if st.build_mode == Some(id) {
                    None
                } else {
                    Some(id)
                },
                ..st
            },
            None,
        ),
        Some(ActionView::Spawn(id)) => (st, Some(id)),
        Some(ActionView::Delete) => {
            let d = !st.deconstruct;
            (
                BarView {
                    deconstruct: d,
                    build_mode: if d {
                        None
                    } else {
                        st.build_mode
                    },
                    ..st
                },
                None,
            )
        },
    }
}

proof fn lemma_path_prefix(entries: Seq<MenuEntry>, stack: Seq<usize>)
    requires
        path_ok(entries, stack),
        stack.len() > 0,
    ensures
        path_ok(entries, stack.drop_last()),
    decreases stack.len(),
{
    if stack.len() > 1 {
        match entries[stack[0] as int] {
            MenuEntry::SubMenu { items, .. } => {
                assert(stack.skip(1).drop_last() =~= stack.drop_last().skip(1));
                lemma_path_prefix(items@, stack.skip(1));
            },
            MenuEntry::Action { .. } => {},
        }
    }
}

proof fn lemma_path_extend(entries: Seq<MenuEntry>, stack: Seq<usize>, i: usize)
    requires
        path_ok(entries, stack),
        i < level_at(entries, stack).len(),
        level_at(entries, stack)[i as int] is SubMenu,
    ensures
        path_ok(entries, stack.push(i)),
        level_at(entries, stack.push(i)) == level_at(entries, stack)[i as int]->items@,
    decreases stack.len(),
{
    let s2 = stack.push(i);
    if stack.len() == 0 {
        assert(level_at(entries, stack) == entries);
        assert(s2.skip(1) =~= Seq::<usize>::empty());
        assert(s2[0] == i);
        match entries[i as int] {
            MenuEntry::SubMenu { items, .. } => {
                assert(path_ok(items@, s2.skip(1)));
                assert(level_at(items@, s2.skip(1)) == items@);
            },
            MenuEntry::Action { .. } => {},
        }
    } else {
        assert(s2[0] == stack[0]);
        assert(s2.skip(1) =~= stack.skip(1).push(i));
        match entries[stack[0] as int] {
            MenuEntry::SubMenu { items, .. } => {
                assert(level_at(entries, stack) == level_at(items@, stack.skip(1)));
                lemma_path_extend(items@, stack.skip(1), i);
            },
            MenuEntry::Action { .. } => {},
        }
    }
}

fn find_submenu(level: &[MenuEntry], label: &str) -> (r: Option<usize>)
    ensures
        match r {
            Some(i) => first_index(level@, submenu_labelled(label@)) == i as int,
            None => first_index(level@, submenu_labelled(label@)) < 0,
        },
{
    let ghost p = submenu_labelled(label@);
    let mut i: usize = 0;
    while i < level.len()
        invariant
            i <= level@.len(),
            p == submenu_labelled(label@),
            forall|k: int| 0 <= k < i ==> !p(#[trigger] level@[k]),
        decreases level@.len() - i,
    {
        let hit = match &level[i] {
            MenuEntry::SubMenu { label: l, .. } => str_equal(l.as_str(), label),
            MenuEntry::Action { .. } => false,
        };
        if hit {
            proof {
                lemma_first_index_is(level@, p, i as int);
            }
            return Some(i);
        }
        i = i + 1;
    }
    proof {
        lemma_first_index_none(level@, p);
    }
    None
}

fn same_text(a: &Option<String>, b: &str) -> (r: bool)
    ensures
        r == (opt_view(*a) == Some(b@)),
{
    match a {
        Some(x) => str_equal(x.as_str(), b),
        None => false,
    }
}

impl MenuState {
    /// Leaves the current sub-menu, if any, and resets the scroll.
    pub fn go_back(&mut self)
        ensures
            final(self).stack@ == (if old(self).stack@.len() > 0 {
                old(self).stack@.drop_last()
            } else {
                old(self).stack@
            }),
            final(self).scroll == (if old(self).stack@.len() > 0 {
                0
            } else {
                old(self).scroll
            }),
    {
        if self.stack.len() > 0 {
            self.stack.pop();
            self.scroll = 0;
        }
    }

    /// Scrolls the bar one item left (`step < 0`) or right, staying within the
    /// last page.
    pub fn scroll_by(&mut self, step: i32, total_items: usize, page_size: usize)
        ensures
            final(self).stack@ == old(self).stack@,
            final(self).scroll == (if step < 0 {
                if old(self).scroll > 0 {
                    (old(self).scroll - 1) as usize
                } else {
                    0
                }
            } else if old(self).scroll + page_size < total_items {
                (old(self).scroll + 1) as usize
            } else {
                old(self).scroll
            }),
    {
        let max = total_items.saturating_sub(page_size);
        if step < 0 {
            self.scroll = self.scroll.saturating_sub(1);
        } else if self.scroll < max {
            self.scroll = self.scroll + 1;
        }
    }
}

/// Activates a bar item; returns the unit to spawn, if any.
pub fn activate_item(
    item: &FlatItem,
    menu_state: &mut MenuState,
    menu_def: &MenuDef,
    build_mode: &mut Option<String>,
    deconstruct: &mut bool,
) -> (spawn: Option<String>)
    requires
        path_ok(menu_def.root@, old(menu_state).stack@),
    ensures
        bar_view(*final(menu_state), *final(build_mode), *final(deconstruct)) == spec_activate(
            flat_view(*item),
            menu_def.root@,
            bar_view(*old(menu_state), *old(build_mode), *old(deconstruct)),
        ).0,
        opt_view(spawn) == spec_activate(
            flat_view(*item),
            menu_def.root@,
            bar_view(*old(menu_state), *old(build_mode), *old(deconstruct)),
        ).1,
        path_ok(menu_def.root@, final(menu_state).stack@),
{
    match &item.kind {
        FlatItemKind::SubMenu => {
            let level = items_at(menu_def.root.as_slice(), menu_state.stack.as_slice());
            match find_submenu(level, item.label.as_str()) {
                Some(idx) => {
                    proof {
                        lemma_first_index(level@, submenu_labelled(item.label@));
                        lemma_path_extend(menu_def.root@, menu_state.stack@, idx);
                    }
                    menu_state.stack.push(idx);
                    menu_state.scroll = 0;
                    let new_level = items_at(menu_def.root.as_slice(), menu_state.stack.as_slice());
                    if new_level.len() > 0 {
                        match &new_level[0] {
                            MenuEntry::Action { action, .. } => match action {
                                MenuAction::Build(id) => {
                                    *build_mode = Some(owned(id.as_str()));
                                    None
                                },
                                MenuAction::Spawn(id) => Some(owned(id.as_str())),
                                MenuAction::Delete => None,
                            },
                            MenuEntry::SubMenu { .. } => None,
                        }
                    } else {
                        None
                    }
                },
                None => None,
            }
        },
        FlatItemKind::Action(action) => match action {
            MenuAction::Build(id) => {
                *deconstruct = false;
                if same_text(build_mode, id.as_str()) {
                    *build_mode = None;
                } else {
                    *build_mode = Some(owned(id.as_str()));
                }
                None
            },
            MenuAction::Spawn(id) => Some(owned(id.as_str())),
            MenuAction::Delete => {
                *deconstruct = !*deconstruct;
                if *deconstruct {
                    *build_mode = None;
                }
                None
            },
        },
    }
}

/// The keys the bar reacts to in one frame (each: just pressed).
pub struct BarKeys {
    pub backspace: bool,
    pub escape: bool,
    pub digit1: bool,
    /// The slot keys `2`..`9` and `0`, in slot order.
    pub slots: Vec<bool>,
    pub toggle_deconstruct: bool,
}

pub open spec fn opt_seq(o: Option<Seq<char>>) -> Seq<Seq<char>> {
    match o {
        Some(x) => seq![x],
        None => Seq::empty(),
    }
}

/// The slot keys taken in order: each pressed slot that shows an item activates it.
pub open spec fn spec_press_slots(
    items: Seq<FlatView>,
    pressed: Seq<bool>,
    root: Seq<MenuEntry>,
    st: BarView,
    k: int,
) -> (BarView, Seq<Seq<char>>)
    decreases k,
{
    if k <= 0 {
        (st, Seq::empty())
    } else {
        let (s, ev) = spec_press_slots(items, pressed, root, st, k - 1);
        if pressed[k - 1] && k - 1 < items.len() {
            let (s2, sp) = spec_activate(items[k - 1], root, s);
            (s2, ev + opt_seq(sp))
        } else {
            (s, ev)
        }
    }
}

/// Escape: it first drops the building being placed and deconstruction; when
/// neither is on, it goes back one level.
pub open spec fn spec_escape(st: BarView) -> BarView {
    if st.build_mode is Some || st.deconstruct {
        BarView { build_mode: None, deconstruct: false, ..st }
    } else {
        spec_back(st)
    }
}

/// One frame of bar keys: Backspace goes back, Escape cancels or goes back,
/// `1` goes back, the slot keys activate their items, and the deconstruct key
/// switches deconstruction (dropping the building being placed).
pub open spec fn spec_bar_keys(
    items: Seq<FlatView>,
    keys: BarKeys,
    root: Seq<MenuEntry>,
    st: BarView,
) -> (BarView, Seq<Seq<char>>) {
    let s1 = if keys.backspace {
        spec_back(st)
    } else {
        st
    };
    let s2 = if keys.escape {
        spec_escape(s1)
    } else {
        s1
    };
    let s3 = if keys.digit1 {
        spec_back(s2)
    } else {
        s2
    };
    let (s4, ev) = spec_press_slots(items, keys.slots@, root, s3, keys.slots@.len() as int);
    let s5 = if keys.toggle_deconstruct {
        BarView { build_mode: None, deconstruct: !s4.deconstruct, ..s4 }
    } else {
        s4
    };
    (s5, ev)
}

fn back_exec(menu_state: &mut MenuState, menu_def: &MenuDef, build_mode: &Option<String>, deconstruct: bool)
    requires
        path_ok(menu_def.root@, old(menu_state).stack@),
    ensures
        bar_view(*final(menu_state), *build_mode, deconstruct) == spec_back(
            bar_view(*old(menu_state), *build_mode, deconstruct),
        ),
        path_ok(menu_def.root@, final(menu_state).stack@),
{
    proof {
        if menu_state.stack@.len() > 0 {
            lemma_path_prefix(menu_def.root@, menu_state.stack@);
        }
    }
    menu_state.go_back();
}

/// Handles the bar's keys for one frame; returns the units to spawn, in order.
pub fn menu_navigation(
    menu_state: &mut MenuState,
    menu_def: &MenuDef,
    menu_items: &MenuItems,
    build_mode: &mut Option<String>,
    deconstruct: &mut bool,
    keys: &BarKeys,
) -> (spawns: Vec<String>)
    requires
        path_ok(menu_def.root@, old(menu_state).stack@),
    ensures
        bar_view(*final(menu_state), *final(build_mode), *final(deconstruct)) == spec_bar_keys(
            flat_views(menu_items.items@),
            *keys,
            menu_def.root@,
            bar_view(*old(menu_state), *old(build_mode), *old(deconstruct)),
        ).0,
        strings_view(spawns@) == spec_bar_keys(
            flat_views(menu_items.items@),
            *keys,
            menu_def.root@,
            bar_view(*old(menu_state), *old(build_mode), *old(deconstruct)),
        ).1,
        path_ok(menu_def.root@, final(menu_state).stack@),
{
    if keys.backspace {
        back_exec(menu_state, menu_def, build_mode, *deconstruct);
    }
    if keys.escape {
        if build_mode.is_some() || *deconstruct {
            *build_mode = None;
            *deconstruct = false;
        } else {
            back_exec(menu_state, menu_def, build_mode, *deconstruct);
        }
    }
    if keys.digit1 {
        back_exec(menu_state, menu_def, build_mode, *deconstruct);
    }
    let ghost items = flat_views(menu_items.items@);
    let ghost s3 = bar_view(*menu_state, *build_mode, *deconstruct);
    let mut spawns: Vec<String> = Vec::new();
    let mut k: usize = 0;
    while k < keys.slots.len()
        invariant
            k <= keys.slots@.len(),
            items == flat_views(menu_items.items@),
            path_ok(menu_def.root@, menu_state.stack@),
            (bar_view(*menu_state, *build_mode, *deconstruct), strings_view(spawns@)) == spec_press_slots(
                items,
                keys.slots@,
                menu_def.root@,
                s3,
                k as int,
            ),
        decreases keys.slots@.len() - k,
    {
        if keys.slots[k] && k < menu_items.items.len() {
            let sp = activate_item(&menu_items.items[k], menu_state, menu_def, build_mode, deconstruct);
            match sp {
                Some(id) => {
                    let ghost before = strings_view(spawns@);
                    spawns.push(id);
                    assert(strings_view(spawns@) =~= before + opt_seq(opt_view(Some(id))));
                },
                None => {
                    assert(strings_view(spawns@) =~= strings_view(spawns@) + opt_seq(None));
                },
            }
        }
        k = k + 1;
    }
    if keys.toggle_deconstruct {
        if build_mode.is_some() {
            *build_mode = None;
        }
        *deconstruct = !*deconstruct;
    }
    spawns
}

/// Whether two bar items look the same: equal labels and the same kind of item
/// (an action or a sub-menu, whatever the action).
pub open spec fn same_item(a: FlatItem, b: FlatItem) -> bool {
    a.label@ == b.label@ && (a.kind is SubMenu <==> b.kind is SubMenu)
}

/// Whether two bars show the same thing, so that the bar need not be rebuilt.
pub open spec fn same_menu_items(a: MenuItems, b: MenuItems) -> bool {
    &&& a.items@.len() == b.items@.len()
    &&& forall|i: int| 0 <= i < a.items@.len() ==> same_item(#[trigger] a.items@[i], b.items@[i])
    &&& a.has_back == b.has_back
    &&& a.breadcrumb@ == b.breadcrumb@
    &&& a.can_scroll_left == b.can_scroll_left
    &&& a.can_scroll_right == b.can_scroll_right
    &&& a.total_items == b.total_items
}

impl PartialEq for MenuItems {
    fn eq(&self, other: &Self) -> (r: bool) {
        if self.items.len() != other.items.len() {
            return false;
        }
        let mut i: usize = 0;
        while i < self.items.len()
            invariant
                self.items@.len() == other.items@.len(),
                i <= self.items@.len(),
                forall|k: int| 0 <= k < i ==> same_item(#[trigger] self.items@[k], other.items@[k]),
            decreases self.items@.len() - i,
        {
            let a = &self.items[i];
            let b = &other.items[i];
            let same_kind = match (&a.kind, &b.kind) {
                (FlatItemKind::SubMenu, FlatItemKind::SubMenu) => true,
                (FlatItemKind::Action(_), FlatItemKind::Action(_)) => true,
                _ => false,
            };
            if !(str_equal(a.label.as_str(), b.label.as_str()) && same_kind) {
                return false;
            }
            i = i + 1;
        }
        self.has_back == other.has_back && str_equal(self.breadcrumb.as_str(), other.breadcrumb.as_str())
            && self.can_scroll_left == other.can_scroll_left && self.can_scroll_right
            == other.can_scroll_right && self.total_items == other.total_items
    }
}

impl vstd::std_specs::cmp::PartialEqSpecImpl for MenuItems {
    open spec fn obeys_eq_spec() -> bool {
        true
    }

    open spec fn eq_spec(&self, other: &MenuItems) -> bool {
        same_menu_items(*self, *other)
    }
}

/// A menu item as written in the menu file: a building or unit identifier, a
/// sub-menu, or a special action.
#[derive(Debug)]
pub enum MenuSource {
    Id(String),
    SubMenu { label: String, items: Vec<MenuSource> },
    Special { action: String, label: String },
}

/// A top-level category of the menu file.
#[derive(Debug)]
pub struct MenuCategorySource {
    pub label: String,
    pub items: Vec<MenuSource>,
}

/// A menu entry seen as text.
pub enum EntryView {
    Action(Seq<char>, ActionView),
    SubMenu(Seq<char>, Seq<EntryView>),
}

pub open spec fn entry_view(e: MenuEntry) -> EntryView
    decreases e,
{
    match e {
        MenuEntry::Action { label, action } => EntryView::Action(label@, action_view(action)),
        MenuEntry::SubMenu { label, items } => EntryView::SubMenu(label@, entries_view(items@)),
    }
}

pub open spec fn entries_view(s: Seq<MenuEntry>) -> Seq<EntryView>
    decreases s,
{
    if s.len() == 0 {
        Seq::empty()
    } else {
        entries_view(s.drop_last()).push(entry_view(s.last()))
    }
}

pub open spec fn listed_building(id: Seq<char>) -> spec_fn(BuildingMenuInfo) -> bool {
    |b: BuildingMenuInfo| b.id@ == id && !b.hidden
}

/// What an identifier in the menu file stands for: the first building with
/// that identifier that is not hidden, else the first unit with it.
pub open spec fn spec_resolve_id(id: Seq<char>, c: MenuCatalog) -> Option<EntryView> {
    let bi = first_index(c.buildings@, listed_building(id));
    if bi >= 0 {
        Some(EntryView::Action(c.buildings@[bi].name@, ActionView::Build(id)))
    } else {
        let ui = unit_index(c, id);
        if ui >= 0 {
            Some(EntryView::Action(c.units@[ui].name@, ActionView::Spawn(id)))
        } else {
            None
        }
    }
}

/// What an item of the menu file becomes: identifiers are looked up, a
/// sub-menu keeps the items that resolve and is dropped when none does, and
/// the only special action is `delete`.
pub open spec fn spec_resolve(src: MenuSource, c: MenuCatalog) -> Option<EntryView>
    decreases src,
{
    match src {
        MenuSource::Id(id) => spec_resolve_id(id@, c),
        MenuSource::SubMenu { label, items } => {
            let r = spec_resolve_all(items@, c);
            if r.len() == 0 {
                None
            } else {
                Some(EntryView::SubMenu(label@, r))
            }
        },
        MenuSource::Special { action, label } => if action@ == "delete"@ {
            Some(EntryView::Action(label@, ActionView::Delete))
        } else {
            None
        },
    }
}

pub open spec fn spec_resolve_all(s: Seq<MenuSource>, c: MenuCatalog) -> Seq<EntryView>
    decreases s,
{
    if s.len() == 0 {
        Seq::empty()
    } else {
        let r = spec_resolve_all(s.drop_last(), c);
        match spec_resolve(s.last(), c) {
            Some(e) => r.push(e),
            None => r,
        }
    }
}

pub open spec fn opt_entry_view(e: Option<MenuEntry>) -> Option<EntryView> {
    match e {
        Some(x) => Some(entry_view(x)),
        None => None,
    }
}

/// A top-level category becomes a sub-menu of the items that resolve; it is
/// dropped when none does.
pub open spec fn spec_resolve_root(cat: MenuCategorySource, c: MenuCatalog) -> Option<EntryView> {
    let r = spec_resolve_all(cat.items@, c);
    if r.len() == 0 {
        None
    } else {
        Some(EntryView::SubMenu(cat.label@, r))
    }
}

pub open spec fn spec_resolve_roots(s: Seq<MenuCategorySource>, c: MenuCatalog) -> Seq<EntryView>
    decreases s.len(),
{
    if s.len() == 0 {
        Seq::empty()
    } else {
        let r = spec_resolve_roots(s.drop_last(), c);
        match spec_resolve_root(s.last(), c) {
            Some(e) => r.push(e),
            None => r,
        }
    }
}

fn find_listed_building<'a>(c: &'a MenuCatalog, id: &str) -> (r: Option<&'a BuildingMenuInfo>)
    ensures
        match r {
            Some(b) => first_index(c.buildings@, listed_building(id@)) >= 0 && *b == c.buildings@[first_index(
                c.buildings@,
                listed_building(id@),
            )],
            None => first_index(c.buildings@, listed_building(id@)) < 0,
        },
{
    let ghost p = listed_building(id@);
    let mut i: usize = 0;
    while i < c.buildings.len()
        invariant
            i <= c.buildings@.len(),
            p == listed_building(id@),
            forall|k: int| 0 <= k < i ==> !p(#[trigger] c.buildings@[k]),
        decreases c.buildings@.len() - i,
    {
        if str_equal(c.buildings[i].id.as_str(), id) && !c.buildings[i].hidden {
            proof {
                lemma_first_index_is(c.buildings@, p, i as int);
            }
            return Some(&c.buildings[i]);
        }
        i = i + 1;
    }
    proof {
        lemma_first_index_none(c.buildings@, p);
    }
    None
}

/// Resolves an identifier of the menu file to a menu entry.
pub fn resolve_item_id(id: &str, catalog: &MenuCatalog) -> (r: Option<MenuEntry>)
    ensures
        opt_entry_view(r) == spec_resolve_id(id@, *catalog),
{
    if let Some(b) = find_listed_building(catalog, id) {
        return Some(
            MenuEntry::Action { label: owned(b.name.as_str()), action: MenuAction::Build(owned(id)) },
        );
    }
    if let Some(u) = find_unit(catalog, id) {
        return Some(
            MenuEntry::Action { label: owned(u.name.as_str()), action: MenuAction::Spawn(owned(id)) },
        );
    }
    None
}

fn resolve_list(items: &Vec<MenuSource>, catalog: &MenuCatalog, Ghost(parent): Ghost<MenuSource>) -> (r: Vec<MenuEntry>)
    requires
        parent is SubMenu,
        parent->items == *items,
    ensures
        entries_view(r@) == spec_resolve_all(items@, *catalog),
    decreases parent, 0nat,
{
    let mut out: Vec<MenuEntry> = Vec::new();
    let mut k: usize = 0;
    while k < items.len()
        invariant
            parent is SubMenu,
            parent->items == *items,
            k <= items@.len(),
            entries_view(out@) == spec_resolve_all(items@.take(k as int), *catalog),
        decreases items@.len() - k,
    {
        assert(items@.take(k + 1).drop_last() =~= items@.take(k as int));
        assert(items@.take(k + 1).last() == items@[k as int]);
        proof {
            broadcast use vstd::std_specs::vec::axiom_vec_decreases_to_view;

            assert(decreases_to!(parent => parent->items));
            assert(decreases_to!(parent->items => items@));
            assert(decreases_to!(items@ => items@[k as int]));
        }
        match resolve_menu_item(&items[k], catalog) {
            Some(e) => {
                let ghost before = out@;
                out.push(e);
                assert(out@.drop_last() =~= before);
            },
            None => {},
        }
        k = k + 1;
    }
    assert(items@.take(items@.len() as int) =~= items@);
    out
}

/// Resolves an item of the menu file; `None` when nothing of it can be shown.
pub fn resolve_menu_item(item: &MenuSource, catalog: &MenuCatalog) -> (r: Option<MenuEntry>)
    ensures
        opt_entry_view(r) == spec_resolve(*item, *catalog),
    decreases item, 1nat,
{
    match item {
        MenuSource::Id(id) => resolve_item_id(id.as_str(), catalog),
        MenuSource::SubMenu { label, items } => {
            let resolved = resolve_list(items, catalog, Ghost(*item));
            if resolved.len() == 0 {
                None
            } else {
                Some(MenuEntry::SubMenu { label: owned(label.as_str()), items: resolved })
            }
        },
        MenuSource::Special { action, label } => {
            if str_equal(action.as_str(), "delete") {
                Some(MenuEntry::Action { label: owned(label.as_str()), action: MenuAction::Delete })
            } else {
                None
            }
        },
    }
}

/// Resolves a top-level category of the menu file.
pub fn resolve_root_entry(entry: &MenuCategorySource, catalog: &MenuCatalog) -> (r: Option<MenuEntry>)
    ensures
        opt_entry_view(r) == spec_resolve_root(*entry, *catalog),
{
    let mut out: Vec<MenuEntry> = Vec::new();
    let mut k: usize = 0;
    while k < entry.items.len()
        invariant
            k <= entry.items@.len(),
            entries_view(out@) == spec_resolve_all(entry.items@.take(k as int), *catalog),
        decreases entry.items@.len() - k,
    {
        assert(entry.items@.take(k + 1).drop_last() =~= entry.items@.take(k as int));
        assert(entry.items@.take(k + 1).last() == entry.items@[k as int]);
        match resolve_menu_item(&entry.items[k], catalog) {
            Some(e) => {
                let ghost before = out@;
                out.push(e);
                assert(out@.drop_last() =~= before);
            },
            None => {},
        }
        k = k + 1;
    }
    assert(entry.items@.take(entry.items@.len() as int) =~= entry.items@);
    if out.len() == 0 {
        None
    } else {
        Some(MenuEntry::SubMenu { label: owned(entry.label.as_str()), items: out })
    }
}

impl MenuDef {
    /// The build menu from the categories of the menu file: the categories
    /// with something to show, in order.
    pub fn from_source(categories: &Vec<MenuCategorySource>, page_size: usize, catalog: &MenuCatalog) -> (r: MenuDef)
        ensures
            entries_view(r.root@) == spec_resolve_roots(categories@, *catalog),
            r.page_size == page_size,
    {
        let mut root: Vec<MenuEntry> = Vec::new();
        let mut k: usize = 0;
        while k < categories.len()
            invariant
                k <= categories@.len(),
                entries_view(root@) == spec_resolve_roots(categories@.take(k as int), *catalog),
            decreases categories@.len() - k,
        {
            assert(categories@.take(k + 1).drop_last() =~= categories@.take(k as int));
            assert(categories@.take(k + 1).last() == categories@[k as int]);
            match resolve_root_entry(&categories[k], catalog) {
                Some(e) => {
                    let ghost before = root@;
                    root.push(e);
                    assert(root@.drop_last() =~= before);
                },
                None => {},
            }
            k = k + 1;
        }
        assert(categories@.take(categories@.len() as int) =~= categories@);
        MenuDef { root, page_size }
    }
}

/// The number of slots a page shows when the menu file does not say.
pub fn default_page_size() -> (r: usize)
    ensures
        r == 9,
{
    9
}

/// Entering a sub-menu from the bar and going back returns to the level left.
pub proof fn law_enter_then_back(item: FlatView, root: Seq<MenuEntry>, st: BarView)
    requires
        item.1 is None,
        first_index(level_at(root, st.stack), submenu_labelled(item.0)) >= 0,
    ensures
        spec_back(spec_activate(item, root, st).0).stack == st.stack,
        spec_activate(item, root, st).0.stack.len() == st.stack.len() + 1,
{
    let level = level_at(root, st.stack);
    let idx = first_index(level, submenu_labelled(item.0));
    assert(st.stack.push(idx as usize).drop_last() =~= st.stack);
}

proof fn lemma_no_slot_pressed(items: Seq<FlatView>, pressed: Seq<bool>, root: Seq<MenuEntry>, st: BarView, k: int)
    requires
        k <= pressed.len(),
        forall|j: int| 0 <= j < pressed.len() ==> !#[trigger] pressed[j],
    ensures
        spec_press_slots(items, pressed, root, st, k) == (st, Seq::<Seq<char>>::empty()),
    decreases k,
{
    if k > 0 {
        lemma_no_slot_pressed(items, pressed, root, st, k - 1);
        assert(!pressed[k - 1]);
    }
}

/// Backspace and `1` each go back one level: with no other key pressed, one of
/// them leaves the last sub-menu entered and scrolls back to the start (at the
/// top level it changes nothing); both together go back two levels. The
/// building selected and deconstruction stay as they were, nothing spawns,
/// and with no key at all nothing changes.
pub proof fn law_back_keys(items: Seq<FlatView>, keys: BarKeys, root: Seq<MenuEntry>, st: BarView)
    requires
        !keys.escape,
        !keys.toggle_deconstruct,
        forall|j: int| 0 <= j < keys.slots@.len() ==> !#[trigger] keys.slots@[j],
    ensures
        ({
            let (r, spawned) = spec_bar_keys(items, keys, root, st);
            let n = st.stack.len();
            let backs: int = (if keys.backspace { 1int } else { 0 }) + (if keys.digit1 { 1int } else { 0 });
            &&& spawned.len() == 0
            &&& r.build_mode == st.build_mode
            &&& r.deconstruct == st.deconstruct
            &&& r.stack == st.stack.take(if n >= backs { n - backs } else { 0 })
            &&& r.scroll == (if backs > 0 && n > 0 { 0 } else { st.scroll })
        }),
{
    let s1 = if keys.backspace { spec_back(st) } else { st };
    let s3 = if keys.digit1 { spec_back(s1) } else { s1 };
    lemma_no_slot_pressed(items, keys.slots@, root, s3, keys.slots@.len() as int);
    assert(st.stack.take(st.stack.len() as int) =~= st.stack);
    if st.stack.len() > 0 {
        assert(st.stack.drop_last() =~= st.stack.take(st.stack.len() - 1));
        if st.stack.len() > 1 {
            assert(st.stack.drop_last().drop_last() =~= st.stack.take(st.stack.len() - 2));
        } else {
            assert(st.stack.drop_last() =~= st.stack.take(0));
        }
    } else {
        assert(st.stack =~= st.stack.take(0));
    }
}

/// Escape alone first drops the building being placed and deconstruction
/// (keeping the level); when neither is on, it goes back one level, scrolling
/// back to the start (at the top level nothing changes). Nothing spawns.
pub proof fn law_escape_key(items: Seq<FlatView>, keys: BarKeys, root: Seq<MenuEntry>, st: BarView)
    requires
        keys.escape,
        !keys.backspace,
        !keys.digit1,
        !keys.toggle_deconstruct,
        forall|j: int| 0 <= j < keys.slots@.len() ==> !#[trigger] keys.slots@[j],
    ensures
        ({
            let (r, spawned) = spec_bar_keys(items, keys, root, st);
            &&& spawned.len() == 0
            &&& (st.build_mode is Some || st.deconstruct) ==> r.build_mode is None && !r.deconstruct
                && r.stack == st.stack && r.scroll == st.scroll
            &&& (st.build_mode is None && !st.deconstruct && st.stack.len() > 0) ==> r.build_mode is None
                && !r.deconstruct && r.stack == st.stack.take(st.stack.len() - 1) && r.scroll == 0
            &&& (st.build_mode is None && !st.deconstruct && st.stack.len() == 0) ==> r == st
        }),
{
    let s2 = spec_escape(st);
    lemma_no_slot_pressed(items, keys.slots@, root, s2, keys.slots@.len() as int);
    if st.stack.len() > 0 {
        assert(st.stack.drop_last() =~= st.stack.take(st.stack.len() - 1));
    }
}

/// The deconstruct key alone switches deconstruction and drops the building
/// being placed, staying on the same level; pressing it twice restores
/// deconstruction as it was.
pub proof fn law_deconstruct_key(items: Seq<FlatView>, keys: BarKeys, root: Seq<MenuEntry>, st: BarView)
    requires
        keys.toggle_deconstruct,
        !keys.escape,
        !keys.backspace,
        !keys.digit1,
        forall|j: int| 0 <= j < keys.slots@.len() ==> !#[trigger] keys.slots@[j],
    ensures
        ({
            let (r, spawned) = spec_bar_keys(items, keys, root, st);
            &&& spawned.len() == 0
            &&& r.deconstruct == !st.deconstruct
            &&& r.build_mode is None
            &&& r.stack == st.stack
            &&& r.scroll == st.scroll
            &&& spec_bar_keys(items, keys, root, r).0.deconstruct == st.deconstruct
        }),
{
    lemma_no_slot_pressed(items, keys.slots@, root, st, keys.slots@.len() as int);
    let r = spec_bar_keys(items, keys, root, st).0;
    lemma_no_slot_pressed(items, keys.slots@, root, r, keys.slots@.len() as int);
}

/// A page of the bar never shows more items than the page size, nor more than
/// the level has past the scroll.
pub proof fn law_page_fits<A>(all: Seq<A>, scroll: int, size: int)
    requires
        scroll >= 0,
        size >= 0,
    ensures
        page_of(all, scroll, size).len() <= size,
        page_of(all, scroll, size).len() <= all.len(),
        scroll + size <= all.len() ==> page_of(all, scroll, size).len() == size,
{
}

/// Selecting a building twice from the bar deselects it again.
pub proof fn law_build_item_toggles(item: FlatView, root: Seq<MenuEntry>, st: BarView)
    requires
        item.1 matches Some(ActionView::Build(_)),
        st.build_mode is None,
    ensures
        spec_activate(item, root, spec_activate(item, root, st).0).0.build_mode is None,
        spec_activate(item, root, st).0.build_mode is Some,
{
}

/// How a bar item's border is drawn.
#[derive(Debug, Clone, Copy, PartialEq, Eq, Structural)]
pub enum Highlight {
    /// The item's mode is on.
    Active,
    /// Another mode is on.
    Dimmed,
    Normal,
}

/// How a bar item is drawn: its border (`None` leaves it as it is) and
/// whether it is greyed out because the player cannot pay for it.
#[derive(Debug, Clone, Copy, PartialEq, Eq, Structural)]
pub struct ItemLook {
    pub border: Option<Highlight>,
    pub greyed: bool,
}

/// Whether the player's inventory pays a cost; no inventory pays nothing.
pub open spec fn pays(inv: Option<&Inventory>, cost: Seq<(Seq<char>, u32)>) -> bool {
    match inv {
        Some(i) => spec_inputs_available(i@, cost),
        None => false,
    }
}

pub open spec fn spec_item_look(
    item: FlatItem,
    c: MenuCatalog,
    build_mode: Option<Seq<char>>,
    deconstruct: bool,
    inv: Option<&Inventory>,
) -> ItemLook {
    match item.kind {
        FlatItemKind::Action(MenuAction::Build(id)) => {
            let active = build_mode == Some(id@);
            let bi = building_index(c, id@);
            ItemLook {
                border: Some(
                    if active {
                        Highlight::Active
                    } else if deconstruct || build_mode is Some {
                        Highlight::Dimmed
                    } else {
                        Highlight::Normal
                    },
                ),
                greyed: !(bi >= 0 && pays(inv, cost_view(c.buildings@[bi].cost@))),
            }
        },
        FlatItemKind::Action(MenuAction::Spawn(id)) => {
            let ui = unit_index(c, id@);
            ItemLook { border: None, greyed: !(ui >= 0 && pays(inv, cost_view(c.units@[ui].cost@))) }
        },
        FlatItemKind::Action(MenuAction::Delete) => ItemLook {
            border: Some(
                if deconstruct {
                    Highlight::Active
                } else {
                    Highlight::Normal
                },
            ),
            greyed: false,
        },
        FlatItemKind::SubMenu => ItemLook { border: None, greyed: false },
    }
}

/// The costs in the catalog can be counted in the inventory.
pub open spec fn catalog_amounts_fit(c: MenuCatalog, inv: Option<&Inventory>) -> bool {
    inv matches Some(i) ==> (forall|k: int|
        0 <= k < c.buildings@.len() ==> amounts_fit(i@, cost_view(#[trigger] c.buildings@[k].cost@))) && (forall|
        k: int,
    | 0 <= k < c.units@.len() ==> amounts_fit(i@, cost_view(#[trigger] c.units@[k].cost@)))
}

/// How a bar item is drawn given the build mode, the deconstruction mode and
/// what the player holds: a building's border shows whether its own mode or
/// another one is on; buildings and units the player cannot pay for are greyed.
pub fn item_look(
    item: &FlatItem,
    catalog: &MenuCatalog,
    build_mode: Option<&str>,
    deconstruct: bool,
    inv: Option<&Inventory>,
) -> (r: ItemLook)
    requires
        catalog_amounts_fit(*catalog, inv),
    ensures
        r == spec_item_look(
            *item,
            *catalog,
            match build_mode {
                Some(m) => Some(m@),
                None => None,
            },
            deconstruct,
            inv,
        ),
{
    match &item.kind {
        FlatItemKind::Action(MenuAction::Build(id)) => {
            let active = match build_mode {
                Some(m) => str_equal(m, id.as_str()),
                None => false,
            };
            let border = if active {
                Highlight::Active
            } else if deconstruct || build_mode.is_some() {
                Highlight::Dimmed
            } else {
                Highlight::Normal
            };
            let paid = match find_building(catalog, id.as_str()) {
                Some(b) => match inv {
                    Some(i) => {
                        proof {
                            lemma_first_index(catalog.buildings@, building_has_id(id@));
                        }
                        assert(amounts_fit(i@, cost_view(catalog.buildings@[building_index(*catalog, id@)].cost@)));
                        can_afford(i, &b.cost)
                    },
                    None => false,
                },
                None => false,
            };
            ItemLook { border: Some(border), greyed: !paid }
        },
        FlatItemKind::Action(MenuAction::Spawn(id)) => {
            let paid = match find_unit(catalog, id.as_str()) {
                Some(u) => match inv {
                    Some(i) => {
                        proof {
                            lemma_first_index(catalog.units@, unit_has_id(id@));
                        }
                        assert(amounts_fit(i@, cost_view(catalog.units@[unit_index(*catalog, id@)].cost@)));
                        can_afford(i, &u.cost)
                    },
                    None => false,
                },
                None => false,
            };
            ItemLook { border: None, greyed: !paid }
        },
        FlatItemKind::Action(MenuAction::Delete) => ItemLook {
            border: Some(
                if deconstruct {
                    Highlight::Active
                } else {
                    Highlight::Normal
                },
            ),
            greyed: false,
        },
        FlatItemKind::SubMenu => ItemLook { border: None, greyed: false },
    }
}

} // verus!
