use vstd::prelude::*;

use crate::errors::Error;
use crate::events::bytes_eq;

verus! {

/// Which pane the left panel shows.
#[derive(Clone, Copy, PartialEq, Eq, Structural, Debug)]
pub enum SelectedMenuView {
    /// The per-vault list.
    Urn,
    /// The menu.
    Menu,
    /// The pricing screen.
    Pricing,
}

/// Which market figures the market pane shows.
#[derive(Clone, Copy, PartialEq, Eq, Structural, Debug)]
pub enum SelectedMarketView {
    /// Observed price against the target index.
    MarAndPar,
    /// Reference-asset conversion.
    DollarConversion,
}

/// What the active pane shows.
#[derive(Clone, Copy, PartialEq, Eq, Structural, Debug)]
pub enum SelectedActiveView {
    /// Per-class detail.
    Ilk,
    /// The settings sheet.
    Settings,
    /// System-parameter events.
    NewPalm0,
    /// Per-vault events.
    NewPalm2,
    /// Nothing.
    Clear,
}

/// A key event, reduced to what the view reacts to.
#[derive(Clone, Copy, PartialEq, Eq, Structural, Debug)]
pub enum Key {
    /// A printable key.
    Char(char),
    /// Arrow up.
    Up,
    /// Arrow down.
    Down,
    /// Return.
    Enter,
    /// Anything else.
    Other,
}

/// What the surrounding loop must do after a key was handled.
#[derive(Clone, Copy, PartialEq, Eq, Structural, Debug)]
pub enum KeyAction {
    /// Keep going.
    Nothing,
    /// Leave the program.
    Quit,
    /// Drop all fetched per-class details.
    ClearIlkDetails,
    /// Drop the last fetched per-class detail.
    PopIlkDetail,
}

/// The view-selection state. Only the input handler mutates it; the
/// pipeline and the renderer read it.
#[derive(Clone, Debug, PartialEq, Eq)]
pub struct State {
    /// The class names whose details the active pane shows, in selection
    /// order.
    pub active_ilk: Vec<Vec<u8>>,
    /// The configured class names, one vault each.
    pub urns: Vec<Vec<u8>>,
    /// The monitored wallet address, 20 bytes.
    pub user_address: Vec<u8>,
    /// The act filter for per-vault events, when that view is on.
    pub active_new_palm_2: Option<Vec<u8>>,
    /// Which pane the left panel shows.
    pub selected_menu_view: SelectedMenuView,
    /// What the active pane shows.
    pub selected_active_view: SelectedActiveView,
    /// Which market figures are shown.
    pub selected_market_view: SelectedMarketView,
    /// Menu cursor; -1 while no menu is open.
    pub menu_index: i32,
}

/// The bytes of the act filter the event view starts with.
pub open spec fn art_filter() -> Seq<u8> {
    seq![97u8, 114u8, 116u8]
}

/// What the mode keys do: toggling the settings sheet, the menu, the
/// per-vault event view and the system-event view.
pub open spec fn non_ilk_post(s: State, n: State, key: Key) -> bool {
    match key {
                Key::Char(c) => {
                    if c == 's' {
                        match s.selected_active_view {
                            SelectedActiveView::Settings => n == State {
                                selected_active_view: SelectedActiveView::Clear,
                                ..s
                            },
                            _ => n == State {
                                selected_active_view: SelectedActiveView::Settings,
                                ..s
                            },
                        }
                    } else if c == 'm' {
                        match s.selected_menu_view {
                            SelectedMenuView::Urn => n == State {
                                selected_menu_view: SelectedMenuView::Menu,
                                menu_index: 0,
                                ..s
                            },
                            _ => n == State {
                                selected_menu_view: SelectedMenuView::Urn,
                                menu_index: -1i32,
                                ..s
                            },
                        }
                    } else if c == 'f' {
                        match s.selected_active_view {
                            SelectedActiveView::Clear => {
                                &&& n == State {
                                    selected_active_view: SelectedActiveView::NewPalm2,
                                    active_new_palm_2: n.active_new_palm_2,
                                    ..s
                                }
                                &&& n.active_new_palm_2 matches Some(v) && v@ == art_filter()
                            },
                            SelectedActiveView::NewPalm2 => n == State {
                                selected_active_view: SelectedActiveView::Clear,
                                active_new_palm_2: None,
                                ..s
                            },
                            _ => n == s,
                        }
                    } else if c == 'z' {
                        match s.selected_active_view {
                            SelectedActiveView::Clear => n == State {
                                selected_active_view: SelectedActiveView::NewPalm0,
                                ..s
                            },
                            SelectedActiveView::Ilk => n == State {
                                selected_active_view: SelectedActiveView::Clear,
                                ..s
                            },
                            _ => n == s,
                        }
                    } else {
                        n == s
                    }
                },
        _ => n == s,
    }
}

/// Handle the mode keys that do not name a collateral class.
pub fn handle_non_ilk_key_press(state: &mut State, key: Key)
    ensures
        non_ilk_post(*old(state), *final(state), key),
{
    match key {
        Key::Char(c) => {
            if c == 's' {
                match state.selected_active_view {
                    SelectedActiveView::Settings => {
                        state.selected_active_view = SelectedActiveView::Clear;
                    },
                    _ => {
                        state.selected_active_view = SelectedActiveView::Settings;
                    },
                }
            } else if c == 'm' {
                match state.selected_menu_view {
                    SelectedMenuView::Urn => {
                        state.selected_menu_view = SelectedMenuView::Menu;
                        state.menu_index = 0;
                    },
                    _ => {
                        state.selected_menu_view = SelectedMenuView::Urn;
                        state.menu_index = -1;
                    },
                }
            } else if c == 'f' {
                match state.selected_active_view {
                    SelectedActiveView::Clear => {
                        state.selected_active_view = SelectedActiveView::NewPalm2;
                        let mut v: Vec<u8> = Vec::new();
                        v.push(97);
                        v.push(114);
                        v.push(116);
                        proof {
                            assert(v@ =~= art_filter());
                        }
                        state.active_new_palm_2 = Some(v);
                    },
                    SelectedActiveView::NewPalm2 => {
                        state.selected_active_view = SelectedActiveView::Clear;
                        state.active_new_palm_2 = None;
                    },
                    _ => {},
                }
            } else if c == 'z' {
                match state.selected_active_view {
                    SelectedActiveView::Clear => {
                        state.selected_active_view = SelectedActiveView::NewPalm0;
                    },
                    SelectedActiveView::Ilk => {
                        state.selected_active_view = SelectedActiveView::Clear;
                    },
                    _ => {},
                }
            }
        },
        _ => {},
    }
}

/// Whether a selection already holds a class name.
pub open spec fn contains_name(names: Seq<Vec<u8>>, n: Seq<u8>) -> bool {
    exists|i: int| 0 <= i < names.len() && names[i]@ == n
}

/// Decide whether the selection already holds a class name.
pub fn selection_contains(names: &Vec<Vec<u8>>, n: &Vec<u8>) -> (r: bool)
    ensures
        r <==> contains_name(names@, n@),
{
    let mut i: usize = 0;
    while i < names.len()
        invariant
            i <= names@.len(),
            forall|j: int| 0 <= j < i ==> names@[j]@ != n@,
        decreases names@.len() - i,
    {
        if bytes_eq(&names[i], n) {
            return true;
        }
        i = i + 1;
    }
    false
}

/// Resolve a class name against the configured classes: its position
/// among them, or `UnknownCollateralClass` for a name no configuration
/// entry carries.
pub fn resolve_class(configured: &Vec<Vec<u8>>, name: &Vec<u8>) -> (r: Result<usize, Error>)
    ensures
        match r {
            Ok(i) => {
                &&& i < configured@.len()
                &&& configured@[i as int]@ == name@
                &&& forall|j: int| 0 <= j < i ==> configured@[j]@ != name@
            },
            Err(Error::UnknownCollateralClass) => !contains_name(configured@, name@),
            Err(_) => false,
        },
{
    let mut i: usize = 0;
    while i < configured.len()
        invariant
            i <= configured@.len(),
            forall|j: int| 0 <= j < i ==> configured@[j]@ != name@,
        decreases configured@.len() - i,
    {
        if bytes_eq(&configured[i], name) {
            return Ok(i);
        }
        i = i + 1;
    }
    Err(Error::UnknownCollateralClass)
}

/// The first class name a key is mapped to, if any.
pub open spec fn key_lookup(mapping: Seq<(char, Vec<u8>)>, c: char) -> Option<Seq<u8>>
    decreases mapping.len(),
{
    if mapping.len() == 0 {
        None
    } else if mapping[0].0 == c {
        Some(mapping[0].1@)
    } else {
        key_lookup(mapping.drop_first(), c)
    }
}

/// Resolve a key against the configured key-to-class mapping.
pub fn lookup_ilk_key(mapping: &Vec<(char, Vec<u8>)>, c: char) -> (r: Option<Vec<u8>>)
    ensures
        match r {
            Some(v) => key_lookup(mapping@, c) == Some(v@),
            None => key_lookup(mapping@, c) is None,
        },
{
    let mut i: usize = 0;
    proof {
        assert(mapping@.subrange(0, mapping@.len() as int) =~= mapping@);
    }
    while i < mapping.len()
        invariant
            i <= mapping@.len(),
            key_lookup(mapping@, c) == key_lookup(mapping@.subrange(i as int, mapping@.len() as int), c),
        decreases mapping@.len() - i,
    {
        let ghost tail: Seq<(char, Vec<u8>)> = mapping@.subrange(i as int, mapping@.len() as int);
        proof {
            assert(tail[0] == mapping@[i as int]);
            assert(tail.drop_first() =~= mapping@.subrange(i + 1, mapping@.len() as int));
        }
        if mapping[i].0 == c {
            return Some(crate::events::bytes_copy(&mapping[i].1));
        }
        i = i + 1;
    }
    proof {
        assert(mapping@.subrange(mapping@.len() as int, mapping@.len() as int)
            =~= Seq::<(char, Vec<u8>)>::empty());
    }
    None
}

/// What selecting a class does to the view state: the name joins the
/// selection unless already present, and from an empty active pane the
/// per-class view opens.
pub open spec fn activate_ilk_post(s: State, n: State, name: Seq<u8>) -> bool {
    match s.selected_active_view {
        SelectedActiveView::Ilk | SelectedActiveView::NewPalm2 => {
            &&& n == State { active_ilk: n.active_ilk, ..s }
            &&& selection_extended(s.active_ilk@, n.active_ilk@, name)
        },
        SelectedActiveView::Clear => {
            &&& n == State {
                active_ilk: n.active_ilk,
                selected_active_view: SelectedActiveView::Ilk,
                ..s
            }
            &&& selection_extended(s.active_ilk@, n.active_ilk@, name)
        },
        _ => n == s,
    }
}

/// The selection after a name joins it: unchanged when already present,
/// else the old selection with the name appended.
pub open spec fn selection_extended(before: Seq<Vec<u8>>, after: Seq<Vec<u8>>, name: Seq<u8>) -> bool {
    if contains_name(before, name) {
        after == before
    } else {
        &&& after.len() == before.len() + 1
        &&& after.subrange(0, before.len() as int) == before
        &&& after.last()@ == name
    }
}

/// Apply a selected class name to the view state.
pub fn activate_ilk(state: &mut State, name: Vec<u8>)
    ensures
        activate_ilk_post(*old(state), *final(state), name@),
{
    match state.selected_active_view {
        SelectedActiveView::Ilk | SelectedActiveView::NewPalm2 => {
            if !selection_contains(&state.active_ilk, &name) {
                let ghost before: Seq<Vec<u8>> = state.active_ilk@;
                state.active_ilk.push(name);
                proof {
                    assert(state.active_ilk@.subrange(0, before.len() as int) =~= before);
                }
            }
        },
        SelectedActiveView::Clear => {
            if !selection_contains(&state.active_ilk, &name) {
                let ghost before: Seq<Vec<u8>> = state.active_ilk@;
                state.active_ilk.push(name);
                proof {
                    assert(state.active_ilk@.subrange(0, before.len() as int) =~= before);
                }
            }
            state.selected_active_view = SelectedActiveView::Ilk;
        },
        _ => {},
    }
}

/// What the global keys do: quitting, clearing or popping the per-class
/// details, toggling the market view, moving the menu cursor, choosing a
/// menu entry, or falling through to the mode keys.
pub open spec fn global_key_post(s: State, n: State, key: Key, action: KeyAction) -> bool {
    match key {
        Key::Char(c) => {
            if c == 'q' {
                n == s && action == KeyAction::Quit
            } else if c == 'c' {
                &&& n == State {
                    active_ilk: n.active_ilk,
                    selected_active_view: SelectedActiveView::Clear,
                    active_new_palm_2: None,
                    ..s
                }
                &&& n.active_ilk@.len() == 0
                &&& action == KeyAction::ClearIlkDetails
            } else if c == 'p' {
                &&& n == State { active_ilk: n.active_ilk, ..s }
                &&& n.active_ilk@ == if s.active_ilk@.len() == 0 {
                    s.active_ilk@
                } else {
                    s.active_ilk@.drop_last()
                }
                &&& action == KeyAction::PopIlkDetail
            } else if c == '\\' {
                &&& n == State { selected_market_view: n.selected_market_view, ..s }
                &&& n.selected_market_view == (match s.selected_market_view {
                    SelectedMarketView::MarAndPar => SelectedMarketView::DollarConversion,
                    SelectedMarketView::DollarConversion => SelectedMarketView::MarAndPar,
                })
                &&& action == KeyAction::Nothing
            } else {
                non_ilk_post(s, n, key) && action == KeyAction::Nothing
            }
        },
        Key::Down => {
            &&& n == State { menu_index: n.menu_index, ..s }
            &&& n.menu_index == if s.menu_index >= 0 && s.menu_index < i32::MAX {
                s.menu_index + 1
            } else {
                s.menu_index as int
            }
            &&& action == KeyAction::Nothing
        },
        Key::Up => {
            &&& n == State { menu_index: n.menu_index, ..s }
            &&& n.menu_index == if s.menu_index >= 1 {
                s.menu_index - 1
            } else {
                s.menu_index as int
            }
            &&& action == KeyAction::Nothing
        },
        Key::Enter => {
            if s.selected_menu_view == SelectedMenuView::Menu && s.menu_index == 0 {
                n == State { selected_menu_view: SelectedMenuView::Pricing, ..s } && action
                    == KeyAction::Nothing
            } else if s.selected_menu_view == SelectedMenuView::Menu && s.menu_index == 1 {
                n == s && action == KeyAction::Quit
            } else {
                n == s && action == KeyAction::Nothing
            }
        },
        Key::Other => n == s && action == KeyAction::Nothing,
    }
}

/// Handle a key that names no collateral class.
pub fn handle_global_key(state: &mut State, key: Key) -> (action: KeyAction)
    ensures
        global_key_post(*old(state), *final(state), key, action),
{
    match key {
        Key::Char(c) => {
            if c == 'q' {
                KeyAction::Quit
            } else if c == 'c' {
                state.selected_active_view = SelectedActiveView::Clear;
                state.active_ilk.clear();
                state.active_new_palm_2 = None;
                KeyAction::ClearIlkDetails
            } else if c == 'p' {
                if state.active_ilk.len() > 0 {
                    let _ = state.active_ilk.pop();
                }
                KeyAction::PopIlkDetail
            } else if c == '\\' {
                match state.selected_market_view {
                    SelectedMarketView::MarAndPar => {
                        state.selected_market_view = SelectedMarketView::DollarConversion;
                    },
                    SelectedMarketView::DollarConversion => {
                        state.selected_market_view = SelectedMarketView::MarAndPar;
                    },
                }
                KeyAction::Nothing
            } else {
                handle_non_ilk_key_press(state, key);
                KeyAction::Nothing
            }
        },
        Key::Down => {
            if state.menu_index >= 0 && state.menu_index < i32::MAX {
                state.menu_index = state.menu_index + 1;
            }
            KeyAction::Nothing
        },
        Key::Up => {
            if state.menu_index >= 1 {
                state.menu_index = state.menu_index - 1;
            }
            KeyAction::Nothing
        },
        Key::Enter => {
            if state.selected_menu_view == SelectedMenuView::Menu {
                if state.menu_index == 0 {
                    state.selected_menu_view = SelectedMenuView::Pricing;
                    KeyAction::Nothing
                } else if state.menu_index == 1 {
                    KeyAction::Quit
                } else {
                    KeyAction::Nothing
                }
            } else {
                KeyAction::Nothing
            }
        },
        Key::Other => KeyAction::Nothing,
    }
}

/// Handle one key event: a key mapped to a collateral class selects it;
/// any other key acts globally.
pub fn handle_key(state: &mut State, key: Key, mapping: &Vec<(char, Vec<u8>)>) -> (action:
    KeyAction)
    ensures
        match key {
            Key::Char(c) => match key_lookup(mapping@, c) {
                Some(name) => activate_ilk_post(*old(state), *final(state), name) && action
                    == KeyAction::Nothing,
                None => global_key_post(*old(state), *final(state), key, action),
            },
            _ => global_key_post(*old(state), *final(state), key, action),
        },
{
    match key {
        Key::Char(c) => {
            match lookup_ilk_key(mapping, c) {
                Some(name) => {
                    activate_ilk(state, name);
                    KeyAction::Nothing
                },
                None => handle_global_key(state, key),
            }
        },
        _ => handle_global_key(state, key),
    }
}

} // verus!
