use siege_factory::game_state::GameState;
use siege_factory::input::{binding_name, parse_input_binding, parse_key_code, parse_mouse_button, InputBinding, Key, MouseButton};
use siege_factory::keybindings::{str_less, KeyBindings};
use siege_factory::main_menu::{
    build_mod_items, build_rebind_items, menu_navigation, menu_outcome, menu_rebind_handler, parse_menu_action,
    rebind_choice, screen_items, MenuAction, MenuEffect, MenuOutcome, MenuInput, MenuNav, RebindOutcome, RebindState, ScreenDef,
};
use siege_factory::modding::{ActiveMod, ModManifest, ModRegistry};
use siege_factory::settings::Settings;

fn pairs(v: &[(&str, &str)]) -> Vec<(String, String)> {
    v.iter().map(|(a, b)| (a.to_string(), b.to_string())).collect()
}

#[test]
fn key_names_parse() {
    assert_eq!(parse_key_code("Space"), Some(Key::Space));
    assert_eq!(parse_key_code("KeyQ"), Some(Key::Letter('Q')));
    assert_eq!(parse_key_code("Keyq"), None);
    assert_eq!(parse_key_code("Digit7"), Some(Key::Digit(7)));
    assert_eq!(parse_key_code("DigitX"), None);
    assert_eq!(parse_key_code("F1"), Some(Key::Function(1)));
    assert_eq!(parse_key_code("F12"), Some(Key::Function(12)));
    assert_eq!(parse_key_code("F13"), None);
    assert_eq!(parse_key_code("F0"), None);
    assert_eq!(parse_key_code("F05"), Some(Key::Function(5)));
    assert_eq!(parse_key_code("F+5"), Some(Key::Function(5)));
    assert_eq!(parse_key_code("F"), None);
    assert_eq!(parse_key_code("Nope"), None);
    assert_eq!(parse_mouse_button("MouseMiddle"), Some(MouseButton::Middle));
    assert_eq!(parse_mouse_button("MouseBack"), None);
    assert_eq!(parse_input_binding("MouseLeft"), Some(InputBinding::Mouse(MouseButton::Left)));
    assert_eq!(parse_input_binding("Escape"), Some(InputBinding::Key(Key::Escape)));
}

#[test]
fn binding_names_round_trip() {
    let all = vec![
        InputBinding::Key(Key::Space),
        InputBinding::Key(Key::Letter('A')),
        InputBinding::Key(Key::Digit(0)),
        InputBinding::Key(Key::Function(9)),
        InputBinding::Key(Key::Function(11)),
        InputBinding::Mouse(MouseButton::Right),
    ];
    for b in all {
        let name = binding_name(&b);
        assert_eq!(parse_input_binding(&name), Some(b));
    }
    assert_eq!(binding_name(&InputBinding::Key(Key::Function(10))), "F10");
    assert_eq!(binding_name(&InputBinding::Key(Key::Other("Numpad1".to_string()))), "Numpad1");
}

#[test]
fn text_order() {
    assert!(str_less("a", "b"));
    assert!(str_less("ab", "abc"));
    assert!(!str_less("abc", "ab"));
    assert!(!str_less("same", "same"));
    assert!(str_less("", "x"));
}

#[test]
fn bindings_load_get_set() {
    let kb = KeyBindings::from_names(&pairs(&[("jump", "Space"), ("build", "KeyB"), ("place", "MouseLeft")])).unwrap();
    assert_eq!(kb.get("jump"), InputBinding::Key(Key::Space));
    assert_eq!(kb.key("build"), Key::Letter('B'));
    assert_eq!(kb.mouse("place"), MouseButton::Left);
    let err = KeyBindings::from_names(&pairs(&[("jump", "Space"), ("fly", "Wings")])).unwrap_err();
    assert_eq!(err, ("fly".to_string(), "Wings".to_string()));
    let mut kb = kb;
    kb.set("jump", InputBinding::Key(Key::Enter));
    assert_eq!(kb.get("jump"), InputBinding::Key(Key::Enter));
    kb.set("attack", InputBinding::Mouse(MouseButton::Right));
    let all = kb.all();
    let actions: Vec<&str> = all.iter().map(|(a, _)| a.as_str()).collect();
    assert_eq!(actions, vec!["attack", "build", "jump", "place"]);
}

#[test]
fn overrides_apply_known_names_only() {
    let mut kb = KeyBindings::from_names(&pairs(&[("jump", "Space")])).unwrap();
    kb.apply_overrides(&pairs(&[("jump", "KeyJ"), ("dash", "Garbage"), ("dash2", "MouseRight")]));
    assert_eq!(kb.get("jump"), InputBinding::Key(Key::Letter('J')));
    assert_eq!(kb.get("dash2"), InputBinding::Mouse(MouseButton::Right));
    assert_eq!(kb.all().len(), 2);
}

#[test]
fn rebind_items_are_sorted() {
    let kb = KeyBindings::from_names(&pairs(&[("zoom", "KeyZ"), ("aim", "MouseRight")])).unwrap();
    let items = build_rebind_items(&kb);
    assert_eq!(items.len(), 3);
    assert_eq!(items[0].0, "rebind_aim");
    assert_eq!(items[0].1, "aim  :  MouseRight");
    assert_eq!(items[1].1, "zoom  :  KeyZ");
    assert_eq!(items[2].0, "back");
    assert!(matches!(items[2].2, MenuAction::Back));
}

fn registry() -> ModRegistry {
    let m = |id: &str, enabled: bool| ActiveMod {
        manifest: ModManifest {
            id: id.to_string(),
            name: id.to_uppercase(),
            version: "1.0".to_string(),
            description: None,
            author: None,
        },
        path: format!("mods/{}", id),
        enabled,
    };
    ModRegistry { mods: vec![m("base", true), m("extra", true), m("more", false)] }
}

#[test]
fn mod_items_list_other_mods() {
    let items = build_mod_items(&registry());
    assert_eq!(items.len(), 3);
    assert_eq!(items[0].0, "extra");
    assert_eq!(items[0].1, "[x]  EXTRA  v1.0");
    assert_eq!(items[1].1, "[ ]  MORE  v1.0");
    assert!(matches!(&items[1].2, MenuAction::ToggleMod(id) if id == "more"));
    let only_base = ModRegistry { mods: vec![registry().mods[0].clone()] };
    let items = build_mod_items(&only_base);
    assert_eq!(items.len(), 2);
    assert_eq!(items[0].0, "no_extra_mods");
    assert_eq!(items[0].1, "(No additional mods found)");
}

fn input() -> MenuInput {
    MenuInput { hovered: None, pressed: None, up: false, down: false, escape: false, enter: false }
}

#[test]
fn main_menu_navigation() {
    let actions = vec![
        MenuAction::StartGame,
        MenuAction::OpenScreen("options".to_string()),
        MenuAction::OpenScreen("missing".to_string()),
        MenuAction::Back,
    ];
    let screens = vec!["main_menu".to_string(), "options".to_string()];
    let mut nav = MenuNav::default();
    assert_eq!(nav.stack, vec!["main_menu".to_string()]);
    let e = menu_navigation(&mut nav, &actions, &screens, &MenuInput { down: true, ..input() });
    assert!(matches!(e, MenuEffect::Nothing));
    assert_eq!(nav.selection, 1);
    menu_navigation(&mut nav, &actions, &screens, &MenuInput { enter: true, ..input() });
    assert_eq!(nav.stack, vec!["main_menu".to_string(), "options".to_string()]);
    assert_eq!(nav.selection, 0);
    menu_navigation(&mut nav, &actions, &screens, &MenuInput { pressed: Some(2), ..input() });
    assert_eq!(nav.stack.len(), 2);
    menu_navigation(&mut nav, &actions, &screens, &MenuInput { escape: true, ..input() });
    assert_eq!(nav.stack, vec!["main_menu".to_string()]);
    let e = menu_navigation(&mut nav, &actions, &screens, &MenuInput { pressed: Some(0), ..input() });
    assert!(matches!(e, MenuEffect::StartGame));
    nav.selection = 10;
    menu_navigation(&mut nav, &actions, &screens, &MenuInput { up: true, ..input() });
    assert_eq!(nav.selection, 2);
}

#[test]
fn rebind_prompt() {
    assert!(matches!(rebind_choice(true, &vec![Key::Space], &vec![]), RebindOutcome::Cancelled));
    assert!(matches!(rebind_choice(false, &vec![Key::Enter, Key::Letter('K')], &vec![]), RebindOutcome::Bound(InputBinding::Key(Key::Letter('K')))));
    assert!(matches!(rebind_choice(false, &vec![Key::ArrowUp], &vec![MouseButton::Left, MouseButton::Middle]), RebindOutcome::Bound(InputBinding::Mouse(MouseButton::Middle))));
    assert!(matches!(rebind_choice(false, &vec![], &vec![MouseButton::Left]), RebindOutcome::Waiting));

    let mut rebind = RebindState(Some("jump".to_string()));
    let mut kb = KeyBindings::from_names(&pairs(&[("jump", "Space")])).unwrap();
    let mut settings = Settings::default();
    let mut nav = MenuNav { stack: vec!["main_menu".to_string(), "keybindings".to_string()], selection: 2 };
    let saved = menu_rebind_handler(&mut rebind, &mut kb, &mut settings, &mut nav, false, &vec![Key::Letter('J')], &vec![]);
    assert!(saved);
    assert!(rebind.0.is_none());
    assert_eq!(kb.get("jump"), InputBinding::Key(Key::Letter('J')));
    assert_eq!(settings.keybindings, pairs(&[("jump", "KeyJ")]));
    assert_eq!(nav.stack, vec!["main_menu".to_string()]);
    assert_eq!(nav.selection, 0);
}

#[test]
fn menu_file_actions() {
    assert!(matches!(parse_menu_action("StartGame", &None), Some(MenuAction::StartGame)));
    assert!(matches!(parse_menu_action("OpenScreen", &Some("options".to_string())), Some(MenuAction::OpenScreen(t)) if t == "options"));
    assert!(matches!(parse_menu_action("OpenScreen", &None), Some(MenuAction::OpenScreen(t)) if t.is_empty()));
    assert!(parse_menu_action("Rebind", &None).is_none());
}

#[test]
fn screen_items_pick_the_right_list() {
    let kb = KeyBindings::from_names(&pairs(&[("jump", "Space")])).unwrap();
    let screen = ScreenDef { title: "T".to_string(), subtitle: None, items: vec![] };
    assert_eq!(screen_items("keybindings", &screen, &kb, &registry()).len(), 2);
    assert_eq!(screen_items("mods", &screen, &kb, &registry()).len(), 3);
    assert_eq!(screen_items("other", &screen, &kb, &registry()).len(), 0);
}

#[test]
fn keybindings_screen_lists_rebind_entries() {
    let kb = KeyBindings::from_names(&pairs(&[("zoom", "KeyZ"), ("aim", "MouseRight"), ("jump", "Space")])).unwrap();
    let screen = ScreenDef { title: "Controls".to_string(), subtitle: None, items: vec![] };
    let items = screen_items("keybindings", &screen, &kb, &registry());
    assert_eq!(items.len(), 4);
    let ids: Vec<&str> = items.iter().map(|it| it.0.as_str()).collect();
    assert_eq!(ids, vec!["rebind_aim", "rebind_jump", "rebind_zoom", "back"]);
    assert_eq!(items[1].1, "jump  :  Space");
    assert!(matches!(&items[2].2, MenuAction::Rebind(a) if a == "zoom"));
    assert!(matches!(items[3].2, MenuAction::Back));
}

#[test]
fn menu_outcome_sets_the_game_state() {
    assert_eq!(
        menu_outcome(&MenuEffect::StartGame, false),
        MenuOutcome { fresh_game: Some(true), peaceful: Some(false), load_save: false, next_state: Some(GameState::Playing) }
    );
    assert_eq!(
        menu_outcome(&MenuEffect::StartPeaceful, true),
        MenuOutcome { fresh_game: Some(true), peaceful: Some(true), load_save: false, next_state: Some(GameState::Playing) }
    );
    assert_eq!(
        menu_outcome(&MenuEffect::LoadGame, true),
        MenuOutcome { fresh_game: Some(false), peaceful: None, load_save: true, next_state: Some(GameState::Loading) }
    );
    let nothing = MenuOutcome { fresh_game: None, peaceful: None, load_save: false, next_state: None };
    assert_eq!(menu_outcome(&MenuEffect::LoadGame, false), nothing);
    assert_eq!(menu_outcome(&MenuEffect::Nothing, true), nothing);
    assert_eq!(menu_outcome(&MenuEffect::Rebind("jump".to_string()), true), nothing);
}
