//! Key and button bindings: modifier sets, the actions they are bound to,
//! and the search for the binding that an event meets.

use vstd::prelude::*;

verus! {

/// Modifier flags of a binding.
pub const SHIFT: u32 = 1;

pub const CTRL: u32 = 4;

pub const ALT: u32 = 8;

pub const LOGO: u32 = 64;

/// Codes of the pointer buttons.
pub const BTN_LEFT: u32 = 0x110;

pub const BTN_RIGHT: u32 = 0x111;

pub const BTN_MIDDLE: u32 = 0x112;

/// The tag number by which a view action asks for the previous tag.
pub const PREVIOUS_TAG: usize = usize::MAX;

/// A set of keyboard modifiers.
#[derive(Clone, Copy, Debug, PartialEq, Eq, Structural)]
pub struct Mods {
    pub shift: bool,
    pub ctrl: bool,
    pub alt: bool,
    pub logo: bool,
}

impl Default for Mods {
    fn default() -> (m: Self)
        ensures
            m == (Mods { shift: false, ctrl: false, alt: false, logo: false }),
    {
        Mods { shift: false, ctrl: false, alt: false, logo: false }
    }
}

impl Mods {
    /// The set whose members are the modifiers flagged in `bits`.
    pub open spec fn of_bits(bits: u32) -> Mods {
        Mods {
            shift: bits & SHIFT != 0,
            ctrl: bits & CTRL != 0,
            alt: bits & ALT != 0,
            logo: bits & LOGO != 0,
        }
    }

    pub fn from_bits(bits: u32) -> (m: Mods)
        ensures
            m == Mods::of_bits(bits),
    {
        Mods {
            shift: bits & SHIFT != 0,
            ctrl: bits & CTRL != 0,
            alt: bits & ALT != 0,
            logo: bits & LOGO != 0,
        }
    }

    /// Whether the two sets hold the same modifiers.
    pub fn matches(&self, other: &Mods) -> (b: bool)
        ensures
            b == (*self == *other),
    {
        self.shift == other.shift && self.ctrl == other.ctrl && self.alt == other.alt && self.logo
            == other.logo
    }
}

/// What a key binding does.
#[derive(Clone, Copy, Debug, PartialEq)]
pub enum KeyAction {
    Quit,
    /// Start a program with arguments.
    Spawn(&'static str, &'static [&'static str]),
    FocusStack(i32),
    MoveStack(i32),
    IncNMaster(i32),
    /// Change the master factor by so many hundredths.
    SetMFact(i32),
    Zoom,
    View(usize),
    Tag(usize),
    ToggleTag(usize),
    KillClient,
    ToggleFullscreen,
    ToggleFloating,
    FocusMon(i32),
    TagMon(i32),
}

/// What a button binding does.
#[derive(Clone, Copy, Debug, PartialEq, Eq, Structural)]
pub enum MouseAction {
    Move,
    Resize,
    ToggleFloating,
}

/// A key binding: modifiers, key symbol, action.
pub type Key = (Mods, u32, KeyAction);

/// A button binding: modifiers, button code, action.
pub type MouseButton = (Mods, u32, MouseAction);

/// The three bindings of a tag's key: view the tag, move the active
/// window to it, toggle the active window on it.
pub fn tagkeys(key: u32, tag: usize) -> (keys: [Key; 3])
    ensures
        keys[0] == (Mods::of_bits(LOGO), key, KeyAction::View(tag)),
        keys[1] == (Mods::of_bits(LOGO | SHIFT), key, KeyAction::Tag(tag)),
        keys[2] == (Mods::of_bits(LOGO | CTRL | SHIFT), key, KeyAction::ToggleTag(tag)),
{
    [
        (Mods::from_bits(LOGO), key, KeyAction::View(tag)),
        (Mods::from_bits(LOGO | SHIFT), key, KeyAction::Tag(tag)),
        (Mods::from_bits(LOGO | CTRL | SHIFT), key, KeyAction::ToggleTag(tag)),
    ]
}

/// The button bindings: move, toggle floating and resize, each with the
/// logo key held.
pub fn mouse_bindings() -> (bindings: Vec<MouseButton>)
    ensures
        bindings@ == seq![
            (Mods::of_bits(LOGO), BTN_LEFT, MouseAction::Move),
            (Mods::of_bits(LOGO), BTN_MIDDLE, MouseAction::ToggleFloating),
            (Mods::of_bits(LOGO), BTN_RIGHT, MouseAction::Resize),
        ],
{
    let mut bindings: Vec<MouseButton> = Vec::new();
    bindings.push((Mods::from_bits(LOGO), BTN_LEFT, MouseAction::Move));
    bindings.push((Mods::from_bits(LOGO), BTN_MIDDLE, MouseAction::ToggleFloating));
    bindings.push((Mods::from_bits(LOGO), BTN_RIGHT, MouseAction::Resize));
    assert(bindings@ =~= seq![
        (Mods::of_bits(LOGO), BTN_LEFT, MouseAction::Move),
        (Mods::of_bits(LOGO), BTN_MIDDLE, MouseAction::ToggleFloating),
        (Mods::of_bits(LOGO), BTN_RIGHT, MouseAction::Resize),
    ]);
    bindings
}

/// Binding `i` is met by the modifiers `mods` and one of the symbols
/// `syms`.
pub open spec fn key_met(bindings: Seq<Key>, mods: Mods, syms: Seq<u32>, i: int) -> bool {
    0 <= i < bindings.len() && bindings[i].0 == mods && syms.contains(bindings[i].1)
}

/// Binding `i` is the first that is met.
pub open spec fn first_key(bindings: Seq<Key>, mods: Mods, syms: Seq<u32>, i: int) -> bool {
    key_met(bindings, mods, syms, i) && forall|j: int| 0 <= j < i ==> !key_met(bindings, mods, syms, j)
}

/// The action of the first key binding that a key event with the
/// modifiers `mods` and the symbols `syms` meets. A release meets none.
pub open spec fn key_action(bindings: Seq<Key>, mods: Mods, syms: Seq<u32>, pressed: bool) -> Option<
    KeyAction,
> {
    if pressed && exists|i: int| first_key(bindings, mods, syms, i) {
        Some(bindings[choose|i: int| first_key(bindings, mods, syms, i)].2)
    } else {
        None
    }
}

/// The first binding that is met gives the action of a key press, and a
/// press that meets no binding has no action.
pub proof fn lemma_key_action(bindings: Seq<Key>, mods: Mods, syms: Seq<u32>, i: int)
    requires
        first_key(bindings, mods, syms, i),
    ensures
        key_action(bindings, mods, syms, true) == Some(bindings[i].2),
{
    let c = choose|c: int| first_key(bindings, mods, syms, c);
    assert(first_key(bindings, mods, syms, c));
    if c < i {
    } else if i < c {
    }
}

/// The action of the first key binding that a key event meets.
pub fn find_key_action(bindings: &Vec<Key>, mods: Mods, syms: &Vec<u32>, pressed: bool) -> (action:
    Option<KeyAction>)
    ensures
        action == key_action(bindings@, mods, syms@, pressed),
        action is Some <==> pressed && exists|i: int| key_met(bindings@, mods, syms@, i),
{
    if !pressed {
        return None;
    }
    let mut i: usize = 0;
    while i < bindings.len()
        invariant
            pressed,
            0 <= i <= bindings.len(),
            forall|j: int| 0 <= j < i ==> !key_met(bindings@, mods, syms@, j),
        decreases bindings.len() - i,
    {
        let binding = &bindings[i];
        if binding.0.matches(&mods) && has_sym(syms, binding.1) {
            proof {
                assert(first_key(bindings@, mods, syms@, i as int));
                lemma_key_action(bindings@, mods, syms@, i as int);
            }
            return Some(binding.2);
        }
        i += 1;
    }
    proof {
        if exists|c: int| first_key(bindings@, mods, syms@, c) {
            let c = choose|c: int| first_key(bindings@, mods, syms@, c);
            assert(key_met(bindings@, mods, syms@, c));
        }
    }
    None
}

fn has_sym(syms: &Vec<u32>, sym: u32) -> (b: bool)
    ensures
        b == syms@.contains(sym),
{
    let mut i: usize = 0;
    while i < syms.len()
        invariant
            0 <= i <= syms.len(),
            forall|j: int| 0 <= j < i ==> syms@[j] != sym,
        decreases syms.len() - i,
    {
        if syms[i] == sym {
            return true;
        }
        i += 1;
    }
    false
}

/// Binding `i` is met by the modifiers `mods` and the button `button`.
pub open spec fn button_met(bindings: Seq<MouseButton>, mods: Mods, button: u32, i: int) -> bool {
    0 <= i < bindings.len() && bindings[i].0 == mods && bindings[i].1 == button
}

/// Binding `i` is the first that is met.
pub open spec fn first_button(bindings: Seq<MouseButton>, mods: Mods, button: u32, i: int) -> bool {
    button_met(bindings, mods, button, i) && forall|j: int|
        0 <= j < i ==> !button_met(bindings, mods, button, j)
}

/// The action of the first button binding that a press of `button` with
/// the modifiers `mods` meets.
pub open spec fn mouse_action(bindings: Seq<MouseButton>, mods: Mods, button: u32) -> Option<
    MouseAction,
> {
    if exists|i: int| first_button(bindings, mods, button, i) {
        Some(bindings[choose|i: int| first_button(bindings, mods, button, i)].2)
    } else {
        None
    }
}

/// The first binding that is met gives the action of a button press.
pub proof fn lemma_mouse_action(bindings: Seq<MouseButton>, mods: Mods, button: u32, i: int)
    requires
        first_button(bindings, mods, button, i),
    ensures
        mouse_action(bindings, mods, button) == Some(bindings[i].2),
{
    let c = choose|c: int| first_button(bindings, mods, button, c);
    assert(first_button(bindings, mods, button, c));
    if c < i {
    } else if i < c {
    }
}

/// The action of the first button binding that a press meets.
pub fn find_mouse_action(bindings: &Vec<MouseButton>, mods: Mods, button: u32) -> (action: Option<
    MouseAction,
>)
    ensures
        action == mouse_action(bindings@, mods, button),
        action is Some <==> exists|i: int| button_met(bindings@, mods, button, i),
{
    let mut i: usize = 0;
    while i < bindings.len()
        invariant
            0 <= i <= bindings.len(),
            forall|j: int| 0 <= j < i ==> !button_met(bindings@, mods, button, j),
        decreases bindings.len() - i,
    {
        let binding = &bindings[i];
        if binding.0.matches(&mods) && button == binding.1 {
            proof {
                assert(first_button(bindings@, mods, button, i as int));
                lemma_mouse_action(bindings@, mods, button, i as int);
            }
            return Some(binding.2);
        }
        i += 1;
    }
    proof {
        if exists|c: int| first_button(bindings@, mods, button, c) {
            let c = choose|c: int| first_button(bindings@, mods, button, c);
            assert(button_met(bindings@, mods, button, c));
        }
    }
    None
}

} // verus!
