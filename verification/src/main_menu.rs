use vstd::prelude::*;

use crate::discovery::{contains_str, strings_view};
use crate::game_state::GameState;
use crate::input::{binding_name, spec_binding_name, InputBinding, Key, MouseButton};
use crate::keybindings::{
    actions_of, binding_view, lemma_sorted_unique, lemma_view_name, strictly_sorted, view_name, BindingView, KeyBindings,
};
use crate::modding::{ActiveMod, ModRegistry};
use crate::settings::{overrides_map, Settings};
use crate::keybindings::names_view;
use crate::text::{owned, push_str, str_equal};

verus! {

/// What an item of the main menu does.
#[derive(Debug, Clone)]
pub enum MenuAction {
    StartGame,
    StartPeaceful,
    OpenScreen(String),
    Back,
    Quit,
    Rebind(String),
    LoadGame,
    ToggleMod(String),
}

/// A main-menu action seen as text.
pub enum MenuActionView {
    StartGame,
    StartPeaceful,
    OpenScreen(Seq<char>),
    Back,
    Quit,
    Rebind(Seq<char>),
    LoadGame,
    ToggleMod(Seq<char>),
}

pub open spec fn menu_action_view(a: MenuAction) -> MenuActionView {
    match a {
        MenuAction::StartGame => MenuActionView::StartGame,
        MenuAction::StartPeaceful => MenuActionView::StartPeaceful,
        MenuAction::OpenScreen(s) => MenuActionView::OpenScreen(s@),
        MenuAction::Back => MenuActionView::Back,
        MenuAction::Quit => MenuActionView::Quit,
        MenuAction::Rebind(s) => MenuActionView::Rebind(s@),
        MenuAction::LoadGame => MenuActionView::LoadGame,
        MenuAction::ToggleMod(s) => MenuActionView::ToggleMod(s@),
    }
}

/// An item of a main-menu screen.
#[derive(Debug, Clone)]
pub struct MenuItemDef {
    pub id: String,
    pub label: String,
    pub action: MenuAction,
}

/// A main-menu screen.
#[derive(Debug, Clone)]
pub struct ScreenDef {
    pub title: String,
    pub subtitle: Option<String>,
    pub items: Vec<MenuItemDef>,
}

/// Where the player is in the main menu: the screens entered, from the main
/// screen, and the selected item.
#[derive(Debug)]
pub struct MenuNav {
    pub stack: Vec<String>,
    pub selection: usize,
}

impl Default for MenuNav {
    fn default() -> (r: MenuNav)
        ensures
            strings_view(r.stack@) == seq!["main_menu"@],
            r.selection == 0,
    {
        let mut stack: Vec<String> = Vec::new();
        stack.push(owned("main_menu"));
        assert(strings_view(stack@) =~= seq!["main_menu"@]);
        MenuNav { stack, selection: 0 }
    }
}

/// The action being rebound, while the menu waits for a key.
#[derive(Debug, Default)]
pub struct RebindState(pub Option<String>);

/// The pointer and key input of the main menu in one frame.
#[derive(Debug, Clone, Copy)]
pub struct MenuInput {
    /// The last item the pointer hovers, if any.
    pub hovered: Option<usize>,
    /// The last item clicked, if any.
    pub pressed: Option<usize>,
    pub up: bool,
    pub down: bool,
    pub escape: bool,
    pub enter: bool,
}

/// What the main menu asks of the game after a frame.
#[derive(Debug, Clone)]
pub enum MenuEffect {
    Nothing,
    StartGame,
    StartPeaceful,
    LoadGame,
    ToggleMod(String),
    Rebind(String),
}

pub enum MenuEffectView {
    Nothing,
    StartGame,
    StartPeaceful,
    LoadGame,
    ToggleMod(Seq<char>),
    Rebind(Seq<char>),
}

pub open spec fn effect_view(e: MenuEffect) -> MenuEffectView {
    match e {
        MenuEffect::Nothing => MenuEffectView::Nothing,
        MenuEffect::StartGame => MenuEffectView::StartGame,
        MenuEffect::StartPeaceful => MenuEffectView::StartPeaceful,
        MenuEffect::LoadGame => MenuEffectView::LoadGame,
        MenuEffect::ToggleMod(s) => MenuEffectView::ToggleMod(s@),
        MenuEffect::Rebind(s) => MenuEffectView::Rebind(s@),
    }
}

/// What the game state takes from the main menu after a frame: the value the
/// fresh-game flag and the peaceful flag are set to, whether the saved game is
/// to be loaded, and the phase to switch to (`None` leaves each as it is).
#[derive(Debug, Clone, Copy, PartialEq, Eq, Structural)]
pub struct MenuOutcome {
    pub fresh_game: Option<bool>,
    pub peaceful: Option<bool>,
    pub load_save: bool,
    pub next_state: Option<GameState>,
}

/// Starting a game marks it fresh, sets the peaceful flag as chosen and
/// switches to `Playing`; loading, when a saved game exists, marks the game
/// not fresh, asks for the save and switches to `Loading`. Anything else
/// changes none of these.
pub open spec fn spec_menu_outcome(e: MenuEffectView, save_exists: bool) -> MenuOutcome {
    match e {
        MenuEffectView::StartGame => MenuOutcome {
            fresh_game: Some(true),
            peaceful: Some(false),
            load_save: false,
            next_state: Some(GameState::Playing),
        },
        MenuEffectView::StartPeaceful => MenuOutcome {
            fresh_game: Some(true),
            peaceful: Some(true),
            load_save: false,
            next_state: Some(GameState::Playing),
        },
        MenuEffectView::LoadGame => if save_exists {
            MenuOutcome { fresh_game: Some(false), peaceful: None, load_save: true, next_state: Some(GameState::Loading) }
        } else {
            MenuOutcome { fresh_game: None, peaceful: None, load_save: false, next_state: None }
        },
        _ => MenuOutcome { fresh_game: None, peaceful: None, load_save: false, next_state: None },
    }
}

/// What a menu effect does to the game state, given whether a saved game
/// exists.
pub fn menu_outcome(effect: &MenuEffect, save_exists: bool) -> (r: MenuOutcome)
    ensures
        r == spec_menu_outcome(effect_view(*effect), save_exists),
{
    let nothing = MenuOutcome { fresh_game: None, peaceful: None, load_save: false, next_state: None };
    match effect {
        MenuEffect::StartGame => MenuOutcome {
            fresh_game: Some(true),
            peaceful: Some(false),
            load_save: false,
            next_state: Some(GameState::Playing),
        },
        MenuEffect::StartPeaceful => MenuOutcome {
            fresh_game: Some(true),
            peaceful: Some(true),
            load_save: false,
            next_state: Some(GameState::Playing),
        },
        MenuEffect::LoadGame => {
            if save_exists {
                MenuOutcome {
                    fresh_game: Some(false),
                    peaceful: None,
                    load_save: true,
                    next_state: Some(GameState::Loading),
                }
            } else {
                nothing
            }
        },
        _ => nothing,
    }
}

/// The selection after the pointer and the arrow keys: clamped to the last
/// item, moved to the hovered item, then up (not below the first) and down
/// (not past the last).
pub open spec fn spec_selection(sel: usize, n: nat, input: MenuInput) -> usize {
    let max = (n - 1) as usize;
    let s0 = if sel > max {
        max
    } else {
        sel
    };
    let s1 = match input.hovered {
        Some(h) => h,
        None => s0,
    };
    let s2 = if input.up {
        if s1 > 0 {
            (s1 - 1) as usize
        } else {
            0
        }
    } else {
        s1
    };
    if input.down {
        if s2 + 1 <= max {
            (s2 + 1) as usize
        } else {
            max
        }
    } else {
        s2
    }
}

/// The screens entered, the selection, and what is asked of the game, after one
/// frame of the main menu showing `actions`. Escape goes back a screen; else
/// the clicked item, or the selected one on Enter, is activated: starting or
/// loading a game, opening a known screen, going back, toggling a mod or
/// rebinding an action.
pub open spec fn spec_menu_step(
    stack: Seq<Seq<char>>,
    sel: usize,
    actions: Seq<MenuActionView>,
    screens: Seq<Seq<char>>,
    input: MenuInput,
) -> (Seq<Seq<char>>, usize, MenuEffectView) {
    if actions.len() == 0 {
        (stack, sel, MenuEffectView::Nothing)
    } else {
        let s = spec_selection(sel, actions.len(), input);
        if input.escape {
            if stack.len() > 1 {
                (stack.drop_last(), 0, MenuEffectView::Nothing)
            } else {
                (stack, s, MenuEffectView::Nothing)
            }
        } else {
            let act = match input.pressed {
                Some(p) => Some(p),
                None => if input.enter {
                    Some(s)
                } else {
                    None
                },
            };
            match act {
                Some(idx) => if idx < actions.len() {
                    match actions[idx as int] {
                        MenuActionView::StartGame => (stack, s, MenuEffectView::StartGame),
                        MenuActionView::StartPeaceful => (stack, s, MenuEffectView::StartPeaceful),
                        MenuActionView::LoadGame => (stack, s, MenuEffectView::LoadGame),
                        MenuActionView::OpenScreen(t) => if screens.contains(t) {
                            (stack.push(t), 0, MenuEffectView::Nothing)
                        } else {
                            (stack, s, MenuEffectView::Nothing)
                        },
                        MenuActionView::Back => if stack.len() > 1 {
                            (stack.drop_last(), 0, MenuEffectView::Nothing)
                        } else {
                            (stack, s, MenuEffectView::Nothing)
                        },
                        MenuActionView::ToggleMod(id) => (stack, s, MenuEffectView::ToggleMod(id)),
                        MenuActionView::Rebind(a) => (stack, s, MenuEffectView::Rebind(a)),
                        MenuActionView::Quit => (stack, s, MenuEffectView::Nothing),
                    }
                } else {
                    (stack, s, MenuEffectView::Nothing)
                },
                None => (stack, s, MenuEffectView::Nothing),
            }
        }
    }
}

/// The selection moves over the items and never leaves them: it starts from
/// the hovered item, else from the previous selection (the last item when the
/// list got shorter); Up moves it one item up, stopping at the first; Down one
/// item down, stopping at the last.
pub proof fn law_selection_moves(sel: usize, n: nat, input: MenuInput)
    requires
        0 < n <= usize::MAX,
        input.hovered matches Some(h) ==> h < n,
    ensures
        ({
            let r = spec_selection(sel, n, input);
            let base: int = match input.hovered {
                Some(h) => h as int,
                None => if sel < n { sel as int } else { n - 1 },
            };
            &&& r < n
            &&& !input.up && !input.down ==> r == base
            &&& input.up && !input.down ==> r == (if base > 0 { base - 1 } else { 0 })
            &&& !input.up && input.down ==> r == (if base + 1 < n { base + 1 } else { base })
        }),
{
}

/// The item a frame of the main menu activates, when Escape is not pressed:
/// the one clicked, else the one selected when Enter is pressed.
pub open spec fn activated_item(sel: usize, n: nat, input: MenuInput) -> Option<usize> {
    match input.pressed {
        Some(p) => Some(p),
        None => if input.enter {
            Some(spec_selection(sel, n, input))
        } else {
            None
        },
    }
}

/// Going back in the main menu: Escape, or activating a `Back` item (clicked,
/// or selected with Enter), drops the last screen and puts the selection on
/// the first item when more than one screen is open, and keeps the screens on
/// the first one. Opening a screen that exists puts it on top with the
/// selection on its first item; starting, loading, toggling a mod or
/// rebinding keeps the screens and asks for it; a frame that activates
/// nothing keeps the screens and asks for nothing.
pub proof fn law_menu_step(
    stack: Seq<Seq<char>>,
    sel: usize,
    actions: Seq<MenuActionView>,
    screens: Seq<Seq<char>>,
    input: MenuInput,
)
    requires
        actions.len() > 0,
    ensures
        ({
            let (st, s, e) = spec_menu_step(stack, sel, actions, screens, input);
            let act = activated_item(sel, actions.len(), input);
            let back = input.escape || (act matches Some(i) && i < actions.len() && actions[i as int]
                == MenuActionView::Back);
            &&& back && stack.len() > 1 ==> st == stack.drop_last() && s == 0 && e == MenuEffectView::Nothing
            &&& back && stack.len() <= 1 ==> st == stack && e == MenuEffectView::Nothing
            &&& !input.escape && act is None ==> st == stack && e == MenuEffectView::Nothing
            &&& (!input.escape && (act matches Some(i) && i < actions.len())) ==> {
                let i = act->0;
                &&& (actions[i as int] is OpenScreen && screens.contains(actions[i as int]->OpenScreen_0)) ==> st
                    == stack.push(actions[i as int]->OpenScreen_0) && s == 0 && e == MenuEffectView::Nothing
                &&& actions[i as int] == MenuActionView::StartGame ==> st == stack && e == MenuEffectView::StartGame
                &&& actions[i as int] == MenuActionView::StartPeaceful ==> st == stack && e
                    == MenuEffectView::StartPeaceful
                &&& actions[i as int] == MenuActionView::LoadGame ==> st == stack && e == MenuEffectView::LoadGame
                &&& actions[i as int] is ToggleMod ==> st == stack && e == MenuEffectView::ToggleMod(
                    actions[i as int]->ToggleMod_0,
                )
                &&& actions[i as int] is Rebind ==> st == stack && e == MenuEffectView::Rebind(
                    actions[i as int]->Rebind_0,
                )
            }
        }),
{
}

pub open spec fn actions_view(v: Seq<MenuAction>) -> Seq<MenuActionView> {
    v.map_values(|a: MenuAction| menu_action_view(a))
}

/// One frame of the main menu, given the actions of the items of the current
/// screen and the identifiers of the screens that exist.
pub fn menu_navigation(nav: &mut MenuNav, actions: &Vec<MenuAction>, screens: &Vec<String>, input: &MenuInput) -> (r: MenuEffect)
    ensures
        (strings_view(final(nav).stack@), final(nav).selection, effect_view(r)) == spec_menu_step(
            strings_view(old(nav).stack@),
            old(nav).selection,
            actions_view(actions@),
            strings_view(screens@),
            *input,
        ),
{
    let n = actions.len();
    if n == 0 {
        return MenuEffect::Nothing;
    }
    let max = n - 1;
    if nav.selection > max {
        nav.selection = max;
    }
    if let Some(h) = input.hovered {
        nav.selection = h;
    }
    if input.up {
        nav.selection = nav.selection.saturating_sub(1);
    }
    if input.down {
        nav.selection = if nav.selection < max {
            nav.selection + 1
        } else {
            max
        };
    }
    if input.escape {
        if nav.stack.len() > 1 {
            nav.selection = 0;
            let ghost before = strings_view(nav.stack@);
            nav.stack.pop();
            assert(strings_view(nav.stack@) =~= before.drop_last());
        }
        return MenuEffect::Nothing;
    }
    let act = match input.pressed {
        Some(p) => Some(p),
        None => if input.enter {
            Some(nav.selection)
        } else {
            None
        },
    };
    match act {
        Some(idx) => {
            if idx >= n {
                return MenuEffect::Nothing;
            }
            match &actions[idx] {
                MenuAction::StartGame => MenuEffect::StartGame,
                MenuAction::StartPeaceful => MenuEffect::StartPeaceful,
                MenuAction::LoadGame => MenuEffect::LoadGame,
                MenuAction::OpenScreen(target) => {
                    if contains_str(screens, target.as_str()) {
                        let ghost before = strings_view(nav.stack@);
                        nav.stack.push(owned(target.as_str()));
                        assert(strings_view(nav.stack@) =~= before.push(target@));
                        nav.selection = 0;
                    }
                    MenuEffect::Nothing
                },
                MenuAction::Back => {
                    if nav.stack.len() > 1 {
                        nav.selection = 0;
                        let ghost before = strings_view(nav.stack@);
                        nav.stack.pop();
                        assert(strings_view(nav.stack@) =~= before.drop_last());
                    }
                    MenuEffect::Nothing
                },
                MenuAction::ToggleMod(id) => MenuEffect::ToggleMod(owned(id.as_str())),
                MenuAction::Rebind(a) => MenuEffect::Rebind(owned(a.as_str())),
                MenuAction::Quit => MenuEffect::Nothing,
            }
        },
        None => MenuEffect::Nothing,
    }
}

/// What the rebind prompt makes of the input of one frame.
#[derive(Debug)]
pub enum RebindOutcome {
    Waiting,
    Cancelled,
    Bound(InputBinding),
}

/// Keys that cannot be bound from the prompt (they drive the menu).
pub open spec fn reserved_key(k: Key) -> bool {
    k is Enter || k is ArrowUp || k is ArrowDown || k is Escape
}

pub open spec fn bindable_key() -> spec_fn(Key) -> bool {
    |k: Key| !reserved_key(k)
}

/// What the prompt makes of a frame, seen as plain values.
pub enum RebindView {
    Waiting,
    Cancelled,
    Bound(BindingView),
}

pub open spec fn rebind_view(r: RebindOutcome) -> RebindView {
    match r {
        RebindOutcome::Waiting => RebindView::Waiting,
        RebindOutcome::Cancelled => RebindView::Cancelled,
        RebindOutcome::Bound(b) => RebindView::Bound(binding_view(b)),
    }
}

/// The binding the prompt takes: Escape cancels; else the first key pressed
/// that does not drive the menu; else the middle mouse button when pressed;
/// else it keeps waiting.
pub open spec fn spec_rebind_choice(escape: bool, keys: Seq<Key>, mouse: Seq<MouseButton>) -> RebindView {
    let k = crate::first_index::first_index(keys, bindable_key());
    if escape {
        RebindView::Cancelled
    } else if k >= 0 {
        RebindView::Bound(BindingView::Key(crate::keybindings::key_view(keys[k])))
    } else if mouse.contains(MouseButton::Middle) {
        RebindView::Bound(BindingView::Mouse(MouseButton::Middle))
    } else {
        RebindView::Waiting
    }
}

pub fn rebind_choice(escape: bool, keys: &Vec<Key>, mouse: &Vec<MouseButton>) -> (r: RebindOutcome)
    ensures
        rebind_view(r) == spec_rebind_choice(escape, keys@, mouse@),
{
    if escape {
        return RebindOutcome::Cancelled;
    }
    let ghost p = bindable_key();
    let mut i: usize = 0;
    while i < keys.len()
        invariant
            !escape,
            i <= keys@.len(),
            p == bindable_key(),
            forall|k: int| 0 <= k < i ==> !p(#[trigger] keys@[k]),
        decreases keys@.len() - i,
    {
        let reserved = match &keys[i] {
            Key::Enter | Key::ArrowUp | Key::ArrowDown | Key::Escape => true,
            _ => false,
        };
        if !reserved {
            proof {
                crate::first_index::lemma_first_index_is(keys@, p, i as int);
            }
            return RebindOutcome::Bound(InputBinding::Key(crate::keybindings::copy_key(&keys[i])));
        }
        i = i + 1;
    }
    proof {
        crate::first_index::lemma_first_index_none(keys@, p);
    }
    let mut j: usize = 0;
    while j < mouse.len()
        invariant
            !escape,
            crate::first_index::first_index(keys@, bindable_key()) < 0,
            j <= mouse@.len(),
            forall|k: int| 0 <= k < j ==> mouse@[k] != MouseButton::Middle,
        decreases mouse@.len() - j,
    {
        if mouse[j] == MouseButton::Middle {
            return RebindOutcome::Bound(InputBinding::Mouse(MouseButton::Middle));
        }
        j = j + 1;
    }
    RebindOutcome::Waiting
}

/// One frame of the rebind prompt for the action in `rebind`: on Escape the
/// prompt closes; when a binding is chosen, the action is bound to it, the
/// settings record its name, the prompt closes and the menu goes back a
/// screen; otherwise the prompt keeps waiting and nothing changes. Returns
/// whether the settings changed (and have to be saved).
///
/// The name recorded is the one `parse_input_binding` reads back (a middle
/// click is recorded as `MouseMiddle`), so that the new binding survives the
/// next start; a bare button name such as `Middle` would not parse and the
/// binding would fall back to its default.
pub fn menu_rebind_handler(
    rebind: &mut RebindState,
    bindings: &mut KeyBindings,
    settings: &mut Settings,
    nav: &mut MenuNav,
    escape: bool,
    keys: &Vec<Key>,
    mouse: &Vec<MouseButton>,
) -> (saved: bool)
    requires
        forall|i: int, j: int|
            0 <= i < j < old(settings).keybindings@.len() ==> (#[trigger] old(settings).keybindings@[i]).0@
                != (#[trigger] old(settings).keybindings@[j]).0@,
    ensures
        old(rebind).0 is None ==> (final(rebind).0 is None && !saved && final(bindings)@ == old(bindings)@
            && final(settings).keybindings@ == old(settings).keybindings@
            && final(nav).stack@ == old(nav).stack@ && final(nav).selection == old(nav).selection),
        old(rebind).0 is Some && spec_rebind_choice(escape, keys@, mouse@) is Cancelled ==> (
            final(rebind).0 is None && !saved && final(bindings)@ == old(bindings)@
            && final(settings).keybindings@ == old(settings).keybindings@
            && final(nav).stack@ == old(nav).stack@ && final(nav).selection == old(nav).selection),
        old(rebind).0 is Some && spec_rebind_choice(escape, keys@, mouse@) is Waiting ==> (final(rebind).0
            == old(rebind).0 && !saved && final(bindings)@ == old(bindings)@ && final(settings).keybindings@
            == old(settings).keybindings@ && final(nav).stack@ == old(nav).stack@ && final(nav).selection
            == old(nav).selection),
        old(rebind).0 is Some && spec_rebind_choice(escape, keys@, mouse@) is Bound ==> ({
            let a = old(rebind).0->0@;
            let b = spec_rebind_choice(escape, keys@, mouse@)->Bound_0;
            &&& saved
            &&& final(rebind).0 is None
            &&& final(bindings)@ == old(bindings)@.insert(a, b)
            &&& overrides_map(names_view(final(settings).keybindings@)) == overrides_map(
                names_view(old(settings).keybindings@),
            ).insert(a, view_name(b))
            &&& strings_view(final(nav).stack@) == (if old(nav).stack@.len() > 1 {
                strings_view(old(nav).stack@).drop_last()
            } else {
                strings_view(old(nav).stack@)
            })
            &&& final(nav).selection == (if old(nav).stack@.len() > 1 {
                0
            } else {
                old(nav).selection
            })
        }),
        forall|i: int, j: int|
            0 <= i < j < final(settings).keybindings@.len() ==> (#[trigger] final(settings).keybindings@[i]).0@
                != (#[trigger] final(settings).keybindings@[j]).0@,
{
    let action = match &rebind.0 {
        Some(a) => owned(a.as_str()),
        None => {
            return false;
        },
    };
    match rebind_choice(escape, keys, mouse) {
        RebindOutcome::Cancelled => {
            rebind.0 = None;
            false
        },
        RebindOutcome::Waiting => false,
        RebindOutcome::Bound(b) => {
            let name = binding_name(&b);
            let ghost bv = b;
            proof {
                lemma_view_name(bv);
            }
            bindings.set(action.as_str(), b);
            settings.set_binding(action.as_str(), name.as_str());
            rebind.0 = None;
            if nav.stack.len() > 1 {
                nav.selection = 0;
                let ghost before = strings_view(nav.stack@);
                nav.stack.pop();
                assert(strings_view(nav.stack@) =~= before.drop_last());
            }
            true
        },
    }
}

/// An item of a generated screen: identifier, label and action.
pub type ScreenItem = (String, String, MenuAction);

pub type ScreenItemView = (Seq<char>, Seq<char>, MenuActionView);

pub open spec fn screen_items_view(v: Seq<ScreenItem>) -> Seq<ScreenItemView> {
    v.map_values(|x: ScreenItem| (x.0@, x.1@, menu_action_view(x.2)))
}

/// The `Back` item that ends generated screens.
pub open spec fn back_item() -> ScreenItemView {
    ("back"@, "Back"@, MenuActionView::Back)
}

/// The text a binding is shown with in the menus: the name the binding files
/// use for it (`KeyZ`, `Space`, `MouseRight`), the same text the player finds
/// in the settings file.
pub fn binding_to_str(binding: &InputBinding) -> (r: String)
    ensures
        r@ == spec_binding_name(*binding),
{
    binding_name(binding)
}

/// The rebinding item of an action: `rebind_<action>`, `<action>  :  <binding>`.
pub open spec fn rebind_item(a: Seq<char>, b: BindingView) -> ScreenItemView {
    ("rebind_"@ + a, a + "  :  "@ + view_name(b), MenuActionView::Rebind(a))
}

/// The action a rebinding item of a screen rebinds.
pub open spec fn rebound_action(v: Seq<ScreenItemView>, i: int) -> Seq<char> {
    v[i].2->Rebind_0
}

/// The key-binding screen of the bindings `m`: one rebinding item per bound
/// action, each showing its binding, in strictly increasing order of the
/// actions, then `Back`.
pub open spec fn is_rebind_screen(m: Map<Seq<char>, BindingView>, v: Seq<ScreenItemView>) -> bool {
    &&& v.len() >= 1
    &&& v.last() == back_item()
    &&& forall|i: int|
        0 <= i < v.len() - 1 ==> (#[trigger] v[i]).2 is Rebind && m.contains_key(rebound_action(v, i))
            && v[i] == rebind_item(rebound_action(v, i), m[rebound_action(v, i)])
    &&& strictly_sorted(Seq::new((v.len() - 1) as nat, |i: int| rebound_action(v, i)))
    &&& forall|a: Seq<char>|
        #[trigger] m.contains_key(a) ==> exists|i: int| 0 <= i < v.len() - 1 && rebound_action(v, i) == a
}

/// The key-binding screen of a set of bindings is unique: two item lists that
/// both meet `is_rebind_screen` for the same bindings are the same.
pub proof fn law_rebind_screen_unique(m: Map<Seq<char>, BindingView>, v: Seq<ScreenItemView>, w: Seq<ScreenItemView>)
    requires
        is_rebind_screen(m, v),
        is_rebind_screen(m, w),
    ensures
        v == w,
{
    let av = Seq::new((v.len() - 1) as nat, |i: int| rebound_action(v, i));
    let aw = Seq::new((w.len() - 1) as nat, |i: int| rebound_action(w, i));
    assert forall|x: Seq<char>| av.contains(x) <==> aw.contains(x) by {
        if av.contains(x) {
            let i = choose|i: int| 0 <= i < av.len() && av[i] == x;
            assert(v[i].2 is Rebind);
            assert(m.contains_key(x));
            let j = choose|j: int| 0 <= j < w.len() - 1 && rebound_action(w, j) == x;
            assert(aw[j] == x);
        }
        if aw.contains(x) {
            let i = choose|i: int| 0 <= i < aw.len() && aw[i] == x;
            assert(w[i].2 is Rebind);
            assert(m.contains_key(x));
            let j = choose|j: int| 0 <= j < v.len() - 1 && rebound_action(v, j) == x;
            assert(av[j] == x);
        }
    }
    lemma_sorted_unique(av, aw);
    assert(av.len() == aw.len());
    assert forall|i: int| 0 <= i < v.len() implies v[i] == w[i] by {
        if i < v.len() - 1 {
            assert(av[i] == aw[i]);
            assert(v[i].2 is Rebind);
            assert(w[i].2 is Rebind);
        } else {
            assert(v[i] == v.last());
            assert(w[i] == w.last());
        }
    }
    assert(v =~= w);
}

/// The items of the key-binding screen: one per action, in the order of the
/// actions, then `Back`.
pub fn build_rebind_items(bindings: &KeyBindings) -> (r: Vec<ScreenItem>)
    ensures
        is_rebind_screen(bindings@, screen_items_view(r@)),
{
    let all = bindings.all();
    let mut items: Vec<ScreenItem> = Vec::new();
    let mut i: usize = 0;
    while i < all.len()
        invariant
            i <= all@.len(),
            items@.len() == i,
            forall|k: int| 0 <= k < i ==> (#[trigger] items@[k]).2 is Rebind && items@[k].2->Rebind_0@ == all@[k].0@,
            forall|k: int|
                0 <= k < i ==> screen_items_view(items@)[k] == rebind_item(
                    all@[k].0@,
                    binding_view(all@[k].1),
                ),
        decreases all@.len() - i,
    {
        let (ref action, ref binding) = all[i];
        let mut id = owned("rebind_");
        push_str(&mut id, action.as_str());
        let mut label = owned(action.as_str());
        push_str(&mut label, "  :  ");
        let name = binding_name(binding);
        proof {
            lemma_view_name(*binding);
        }
        push_str(&mut label, name.as_str());
        let ghost before = screen_items_view(items@);
        items.push((id, label, MenuAction::Rebind(owned(action.as_str()))));
        assert(screen_items_view(items@) =~= before.push(rebind_item(all@[i as int].0@, binding_view(all@[i as int].1))));
        i = i + 1;
    }
    let ghost pre = screen_items_view(items@);
    let ghost pre_items = items@;
    items.push((owned("back"), owned("Back"), MenuAction::Back));
    assert(screen_items_view(items@) =~= pre.push(back_item()));
    assert(items@.drop_last() =~= pre_items);
    proof {
        let v = screen_items_view(items@);
        assert forall|i: int| 0 <= i < items@.len() - 1 implies rebound_action(v, i) == all@[i].0@ by {
            assert(items@[i] == pre_items[i]);
            assert(v[i].2 == menu_action_view(items@[i].2));
        }
        assert(Seq::new((v.len() - 1) as nat, |i: int| rebound_action(v, i)) =~= actions_of(all@));
        assert forall|a: Seq<char>| #[trigger] bindings@.contains_key(a) implies exists|i: int|
            0 <= i < v.len() - 1 && rebound_action(v, i) == a by {
            assert(actions_of(all@).contains(a));
            let k = choose|k: int| 0 <= k < all@.len() && actions_of(all@)[k] == a;
            assert(rebound_action(v, k) == a);
        }
        assert forall|i: int| 0 <= i < v.len() - 1 implies (#[trigger] v[i]).2 is Rebind
            && bindings@.contains_key(rebound_action(v, i))
            && v[i] == rebind_item(rebound_action(v, i), bindings@[rebound_action(v, i)]) by {
            assert(items@[i] == pre_items[i]);
            assert(v[i] == pre[i]);
            assert(rebound_action(v, i) == all@[i].0@);
        }
    }
    items
}

/// The item of a mod on the mods screen: its identifier, `[x]` or `[ ]`, its
/// name and version, and the action that toggles it.
pub open spec fn mod_item(m: ActiveMod) -> ScreenItemView {
    (
        m.manifest.id@,
        (if m.enabled {
            "[x]"@
        } else {
            "[ ]"@
        }) + "  "@ + m.manifest.name@ + "  v"@ + m.manifest.version@,
        MenuActionView::ToggleMod(m.manifest.id@),
    )
}

/// The items of the mods other than the base game, in order.
pub open spec fn spec_mod_items(mods: Seq<ActiveMod>) -> Seq<ScreenItemView>
    decreases mods.len(),
{
    if mods.len() == 0 {
        Seq::empty()
    } else {
        let rest = spec_mod_items(mods.drop_last());
        if mods.last().manifest.id@ == "base"@ {
            rest
        } else {
            rest.push(mod_item(mods.last()))
        }
    }
}

/// The items of the mods screen: one per mod other than the base game (a
/// notice when there is none), then `Back`.
pub open spec fn spec_mods_screen(mods: Seq<ActiveMod>) -> Seq<ScreenItemView> {
    let items = spec_mod_items(mods);
    if items.len() == 0 {
        seq![("no_extra_mods"@, "(No additional mods found)"@, MenuActionView::Back), back_item()]
    } else {
        items.push(back_item())
    }
}

/// The items of the mods screen.
pub fn build_mod_items(registry: &ModRegistry) -> (r: Vec<ScreenItem>)
    ensures
        screen_items_view(r@) == spec_mods_screen(registry.mods@),
{
    let mut items: Vec<ScreenItem> = Vec::new();
    let mut i: usize = 0;
    while i < registry.mods.len()
        invariant
            i <= registry.mods@.len(),
            screen_items_view(items@) == spec_mod_items(registry.mods@.take(i as int)),
        decreases registry.mods@.len() - i,
    {
        let am = &registry.mods[i];
        assert(registry.mods@.take(i + 1).drop_last() =~= registry.mods@.take(i as int));
        assert(registry.mods@.take(i + 1).last() == registry.mods@[i as int]);
        if !str_equal(am.manifest.id.as_str(), "base") {
            let mut label = if am.enabled {
                owned("[x]")
            } else {
                owned("[ ]")
            };
            push_str(&mut label, "  ");
            push_str(&mut label, am.manifest.name.as_str());
            push_str(&mut label, "  v");
            push_str(&mut label, am.manifest.version.as_str());
            let ghost before = screen_items_view(items@);
            items.push((owned(am.manifest.id.as_str()), label, MenuAction::ToggleMod(owned(am.manifest.id.as_str()))));
            assert(screen_items_view(items@) =~= before.push(mod_item(registry.mods@[i as int])));
        }
        i = i + 1;
    }
    assert(registry.mods@.take(registry.mods@.len() as int) =~= registry.mods@);
    if items.len() == 0 {
        items.push((owned("no_extra_mods"), owned("(No additional mods found)"), MenuAction::Back));
    }
    let ghost before = screen_items_view(items@);
    items.push((owned("back"), owned("Back"), MenuAction::Back));
    assert(screen_items_view(items@) =~= before.push(back_item()));
    items
}

/// The action an item of the menu file names; `OpenScreen` takes the item's
/// target (empty when there is none). Other names give no item.
pub open spec fn spec_parse_menu_action(action: Seq<char>, target: Option<Seq<char>>) -> Option<MenuActionView> {
    if action == "StartGame"@ {
        Some(MenuActionView::StartGame)
    } else if action == "StartPeaceful"@ {
        Some(MenuActionView::StartPeaceful)
    } else if action == "OpenScreen"@ {
        Some(
            MenuActionView::OpenScreen(
                match target {
                    Some(t) => t,
                    None => Seq::empty(),
                },
            ),
        )
    } else if action == "Back"@ {
        Some(MenuActionView::Back)
    } else if action == "Quit"@ {
        Some(MenuActionView::Quit)
    } else if action == "LoadGame"@ {
        Some(MenuActionView::LoadGame)
    } else {
        None
    }
}

pub open spec fn opt_str_view(o: Option<String>) -> Option<Seq<char>> {
    match o {
        Some(s) => Some(s@),
        None => None,
    }
}

pub open spec fn opt_action_view(o: Option<MenuAction>) -> Option<MenuActionView> {
    match o {
        Some(a) => Some(menu_action_view(a)),
        None => None,
    }
}

/// Reads the action of an item of the menu file.
pub fn parse_menu_action(action: &str, target: &Option<String>) -> (r: Option<MenuAction>)
    ensures
        opt_action_view(r) == spec_parse_menu_action(action@, opt_str_view(*target)),
{
    if str_equal(action, "StartGame") {
        Some(MenuAction::StartGame)
    } else if str_equal(action, "StartPeaceful") {
        Some(MenuAction::StartPeaceful)
    } else if str_equal(action, "OpenScreen") {
        match target {
            Some(t) => Some(MenuAction::OpenScreen(owned(t.as_str()))),
            None => {
                let e = String::new();
                assert(e@ =~= Seq::<char>::empty());
                Some(MenuAction::OpenScreen(e))
            },
        }
    } else if str_equal(action, "Back") {
        Some(MenuAction::Back)
    } else if str_equal(action, "Quit") {
        Some(MenuAction::Quit)
    } else if str_equal(action, "LoadGame") {
        Some(MenuAction::LoadGame)
    } else {
        None
    }
}

/// The main menu: its screens by identifier.
#[derive(Debug, Clone)]
pub struct MainMenuDef {
    pub screens: Vec<(String, ScreenDef)>,
}

pub open spec fn screen_has_id(id: Seq<char>) -> spec_fn((String, ScreenDef)) -> bool {
    |p: (String, ScreenDef)| p.0@ == id
}

impl MainMenuDef {
    /// The screen with the identifier (the first, should two share it).
    pub fn screen(&self, id: &str) -> (r: Option<&ScreenDef>)
        ensures
            match r {
                Some(sd) => crate::first_index::first_index(self.screens@, screen_has_id(id@)) >= 0
                    && *sd == self.screens@[crate::first_index::first_index(
                    self.screens@,
                    screen_has_id(id@),
                )].1,
                None => crate::first_index::first_index(self.screens@, screen_has_id(id@)) < 0,
            },
    {
        let ghost p = screen_has_id(id@);
        let mut i: usize = 0;
        while i < self.screens.len()
            invariant
                i <= self.screens@.len(),
                p == screen_has_id(id@),
                forall|k: int| 0 <= k < i ==> !p(#[trigger] self.screens@[k]),
            decreases self.screens@.len() - i,
        {
            if str_equal(self.screens[i].0.as_str(), id) {
                proof {
                    crate::first_index::lemma_first_index_is(self.screens@, p, i as int);
                }
                return Some(&self.screens[i].1);
            }
            i = i + 1;
        }
        proof {
            crate::first_index::lemma_first_index_none(self.screens@, p);
        }
        None
    }

    /// The identifiers of the screens.
    pub fn screen_ids(&self) -> (r: Vec<String>)
        ensures
            strings_view(r@) == self.screens@.map_values(|p: (String, ScreenDef)| p.0@),
    {
        let mut out: Vec<String> = Vec::new();
        let mut i: usize = 0;
        while i < self.screens.len()
            invariant
                i <= self.screens@.len(),
                strings_view(out@) == self.screens@.take(i as int).map_values(
                    |p: (String, ScreenDef)| p.0@,
                ),
            decreases self.screens@.len() - i,
        {
            let ghost before = strings_view(out@);
            out.push(owned(self.screens[i].0.as_str()));
            assert(strings_view(out@) =~= before.push(self.screens@[i as int].0@));
            assert(self.screens@.take(i + 1).map_values(|p: (String, ScreenDef)| p.0@) =~= self.screens@.take(
                i as int,
            ).map_values(|p: (String, ScreenDef)| p.0@).push(self.screens@[i as int].0@));
            i = i + 1;
        }
        assert(self.screens@.take(self.screens@.len() as int) =~= self.screens@);
        out
    }
}

fn copy_action(a: &MenuAction) -> (r: MenuAction)
    ensures
        menu_action_view(r) == menu_action_view(*a),
{
    match a {
        MenuAction::StartGame => MenuAction::StartGame,
        MenuAction::StartPeaceful => MenuAction::StartPeaceful,
        MenuAction::OpenScreen(s) => MenuAction::OpenScreen(owned(s.as_str())),
        MenuAction::Back => MenuAction::Back,
        MenuAction::Quit => MenuAction::Quit,
        MenuAction::Rebind(s) => MenuAction::Rebind(owned(s.as_str())),
        MenuAction::LoadGame => MenuAction::LoadGame,
        MenuAction::ToggleMod(s) => MenuAction::ToggleMod(owned(s.as_str())),
    }
}

/// The items a screen shows: the key-binding screen lists the bindings, the
/// mods screen lists the mods, every other screen its own items.
pub fn screen_items(screen_id: &str, screen: &ScreenDef, bindings: &KeyBindings, registry: &ModRegistry) -> (r: Vec<ScreenItem>)
    ensures
        screen_id@ == "keybindings"@ ==> is_rebind_screen(bindings@, screen_items_view(r@)),
        screen_id@ == "mods"@ ==> screen_items_view(r@) == spec_mods_screen(registry.mods@),
        screen_id@ != "keybindings"@ && screen_id@ != "mods"@ ==> screen_items_view(r@) == screen.items@.map_values(
            |it: MenuItemDef| (it.id@, it.label@, menu_action_view(it.action)),
        ),
{
    proof {
        reveal_strlit("keybindings");
        reveal_strlit("mods");
        assert("keybindings"@.len() != "mods"@.len());
    }
    if str_equal(screen_id, "keybindings") {
        return build_rebind_items(bindings);
    }
    if str_equal(screen_id, "mods") {
        return build_mod_items(registry);
    }
    let mut out: Vec<ScreenItem> = Vec::new();
    let mut i: usize = 0;
    while i < screen.items.len()
        invariant
            i <= screen.items@.len(),
            screen_items_view(out@) == screen.items@.take(i as int).map_values(
                |it: MenuItemDef| (it.id@, it.label@, menu_action_view(it.action)),
            ),
        decreases screen.items@.len() - i,
    {
        let it = &screen.items[i];
        let ghost before = screen_items_view(out@);
        out.push((owned(it.id.as_str()), owned(it.label.as_str()), copy_action(&it.action)));
        assert(screen_items_view(out@) =~= before.push((it.id@, it.label@, menu_action_view(it.action))));
        assert(screen.items@.take(i + 1).map_values(
            |it: MenuItemDef| (it.id@, it.label@, menu_action_view(it.action)),
        ) =~= screen.items@.take(i as int).map_values(
            |it: MenuItemDef| (it.id@, it.label@, menu_action_view(it.action)),
        ).push((it.id@, it.label@, menu_action_view(it.action))));
        i = i + 1;
    }
    assert(screen.items@.take(screen.items@.len() as int) =~= screen.items@);
    out
}

} // verus!
