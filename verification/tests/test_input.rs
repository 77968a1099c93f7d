use monotile::input::{
    find_key_action, find_mouse_action, mouse_bindings, tagkeys, Key, KeyAction, Mods, MouseAction,
    ALT, BTN_LEFT, BTN_MIDDLE, BTN_RIGHT, CTRL, LOGO, SHIFT,
};

fn mods(shift: bool, ctrl: bool, alt: bool, logo: bool) -> Mods {
    Mods { shift, ctrl, alt, logo }
}

#[test]
fn mods_from_flags() {
    assert_eq!(Mods::from_bits(0), Mods::default());
    assert_eq!(Mods::from_bits(SHIFT), mods(true, false, false, false));
    assert_eq!(Mods::from_bits(CTRL), mods(false, true, false, false));
    assert_eq!(Mods::from_bits(ALT), mods(false, false, true, false));
    assert_eq!(Mods::from_bits(LOGO), mods(false, false, false, true));
    assert_eq!(Mods::from_bits(LOGO | SHIFT | CTRL), mods(true, true, false, true));
    // flags that name no modifier are ignored
    assert_eq!(Mods::from_bits(2 | 16 | 32 | 128), Mods::default());
    assert_eq!(Mods::from_bits(u32::MAX), mods(true, true, true, true));
}

#[test]
fn mods_match_exactly() {
    let logo = Mods::from_bits(LOGO);
    assert!(logo.matches(&mods(false, false, false, true)));
    assert!(!logo.matches(&mods(true, false, false, true)));
    assert!(!logo.matches(&Mods::default()));
}

#[test]
fn tag_keys() {
    let keys = tagkeys(0x31, 0);
    assert_eq!(keys[0], (Mods::from_bits(LOGO), 0x31, KeyAction::View(0)));
    assert_eq!(keys[1], (Mods::from_bits(LOGO | SHIFT), 0x31, KeyAction::Tag(0)));
    assert_eq!(keys[2], (Mods::from_bits(LOGO | CTRL | SHIFT), 0x31, KeyAction::ToggleTag(0)));
}

fn bindings() -> Vec<Key> {
    let mut keys: Vec<Key> = vec![
        (Mods::from_bits(LOGO), 0x64, KeyAction::Spawn("menu_apps", &[])),
        (Mods::from_bits(LOGO), 0xff51, KeyAction::FocusStack(-1)),
        (Mods::from_bits(LOGO | SHIFT), 0xff51, KeyAction::MoveStack(-1)),
        (Mods::from_bits(LOGO), 0xff51, KeyAction::Zoom),
    ];
    keys.extend(tagkeys(0x31, 0));
    keys
}

#[test]
fn first_matching_binding_wins() {
    let keys = bindings();
    let logo = Mods::from_bits(LOGO);
    assert_eq!(find_key_action(&keys, logo, &vec![0xff51], true), Some(KeyAction::FocusStack(-1)));
    assert_eq!(
        find_key_action(&keys, Mods::from_bits(LOGO | SHIFT), &vec![0xff51], true),
        Some(KeyAction::MoveStack(-1))
    );
    // any of the symbols of the key
    assert_eq!(
        find_key_action(&keys, logo, &vec![0x44, 0x64], true),
        Some(KeyAction::Spawn("menu_apps", &[]))
    );
    // the order of the bindings decides, not that of the symbols
    assert_eq!(
        find_key_action(&keys, logo, &vec![0xff51, 0x64], true),
        Some(KeyAction::Spawn("menu_apps", &[]))
    );
    assert_eq!(find_key_action(&keys, logo, &vec![0x31], true), Some(KeyAction::View(0)));
}

#[test]
fn releases_and_strangers_forward() {
    let keys = bindings();
    let logo = Mods::from_bits(LOGO);
    assert_eq!(find_key_action(&keys, logo, &vec![0xff51], false), None);
    assert_eq!(find_key_action(&keys, Mods::default(), &vec![0xff51], true), None);
    assert_eq!(find_key_action(&keys, logo, &vec![0x65], true), None);
    assert_eq!(find_key_action(&keys, logo, &Vec::new(), true), None);
    assert_eq!(find_key_action(&Vec::new(), logo, &vec![0x64], true), None);
}

#[test]
fn mouse_bindings_table() {
    let logo = Mods::from_bits(LOGO);
    assert_eq!(
        mouse_bindings(),
        vec![
            (logo, BTN_LEFT, MouseAction::Move),
            (logo, BTN_MIDDLE, MouseAction::ToggleFloating),
            (logo, BTN_RIGHT, MouseAction::Resize),
        ]
    );
    assert_eq!((BTN_LEFT, BTN_RIGHT, BTN_MIDDLE), (0x110, 0x111, 0x112));
}

#[test]
fn mouse_action_lookup() {
    let table = mouse_bindings();
    let logo = Mods::from_bits(LOGO);
    assert_eq!(find_mouse_action(&table, logo, BTN_LEFT), Some(MouseAction::Move));
    assert_eq!(find_mouse_action(&table, logo, BTN_RIGHT), Some(MouseAction::Resize));
    assert_eq!(find_mouse_action(&table, logo, BTN_MIDDLE), Some(MouseAction::ToggleFloating));
    assert_eq!(find_mouse_action(&table, Mods::default(), BTN_LEFT), None);
    assert_eq!(find_mouse_action(&table, logo, 0x113), None);
}
