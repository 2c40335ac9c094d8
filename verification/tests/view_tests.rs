use ricoterm::errors::Error;
use ricoterm::view::{
    handle_key, handle_non_ilk_key_press, lookup_ilk_key, resolve_class, Key, KeyAction,
    SelectedActiveView, SelectedMarketView, SelectedMenuView, State,
};

fn fresh_state() -> State {
    State {
        active_ilk: vec![],
        urns: vec![b"weth".to_vec(), b"usdc".to_vec()],
        user_address: vec![0u8; 20],
        active_new_palm_2: None,
        selected_menu_view: SelectedMenuView::Urn,
        selected_active_view: SelectedActiveView::Clear,
        selected_market_view: SelectedMarketView::MarAndPar,
        menu_index: -1,
    }
}

fn mapping() -> Vec<(char, Vec<u8>)> {
    vec![('w', b"weth".to_vec()), ('u', b"usdc".to_vec())]
}

#[test]
fn settings_key_toggles_the_sheet() {
    let mut s = fresh_state();
    handle_non_ilk_key_press(&mut s, Key::Char('s'));
    assert_eq!(s.selected_active_view, SelectedActiveView::Settings);
    handle_non_ilk_key_press(&mut s, Key::Char('s'));
    assert_eq!(s.selected_active_view, SelectedActiveView::Clear);
}

#[test]
fn menu_key_toggles_menu_and_cursor() {
    let mut s = fresh_state();
    handle_non_ilk_key_press(&mut s, Key::Char('m'));
    assert_eq!(s.selected_menu_view, SelectedMenuView::Menu);
    assert_eq!(s.menu_index, 0);
    handle_non_ilk_key_press(&mut s, Key::Char('m'));
    assert_eq!(s.selected_menu_view, SelectedMenuView::Urn);
    assert_eq!(s.menu_index, -1);
}

#[test]
fn event_view_key_sets_the_act_filter() {
    let mut s = fresh_state();
    handle_non_ilk_key_press(&mut s, Key::Char('f'));
    assert_eq!(s.selected_active_view, SelectedActiveView::NewPalm2);
    assert_eq!(s.active_new_palm_2, Some(b"art".to_vec()));
    handle_non_ilk_key_press(&mut s, Key::Char('f'));
    assert_eq!(s.selected_active_view, SelectedActiveView::Clear);
    assert_eq!(s.active_new_palm_2, None);
}

#[test]
fn system_event_key_toggles_from_clear_and_ilk() {
    let mut s = fresh_state();
    handle_non_ilk_key_press(&mut s, Key::Char('z'));
    assert_eq!(s.selected_active_view, SelectedActiveView::NewPalm0);
    // from NewPalm0, 'z' does nothing
    handle_non_ilk_key_press(&mut s, Key::Char('z'));
    assert_eq!(s.selected_active_view, SelectedActiveView::NewPalm0);
}

#[test]
fn mapped_key_selects_a_class_once() {
    let mut s = fresh_state();
    let m = mapping();
    assert_eq!(handle_key(&mut s, Key::Char('w'), &m), KeyAction::Nothing);
    assert_eq!(s.active_ilk, vec![b"weth".to_vec()]);
    assert_eq!(s.selected_active_view, SelectedActiveView::Ilk);
    // selecting again does not duplicate
    assert_eq!(handle_key(&mut s, Key::Char('w'), &m), KeyAction::Nothing);
    assert_eq!(s.active_ilk, vec![b"weth".to_vec()]);
    assert_eq!(handle_key(&mut s, Key::Char('u'), &m), KeyAction::Nothing);
    assert_eq!(s.active_ilk, vec![b"weth".to_vec(), b"usdc".to_vec()]);
}

#[test]
fn key_mapping_lookup_finds_the_first_binding() {
    let m = mapping();
    assert_eq!(lookup_ilk_key(&m, 'w'), Some(b"weth".to_vec()));
    assert_eq!(lookup_ilk_key(&m, 'u'), Some(b"usdc".to_vec()));
    assert_eq!(lookup_ilk_key(&m, 'x'), None);
}

#[test]
fn quit_key_quits() {
    let mut s = fresh_state();
    assert_eq!(handle_key(&mut s, Key::Char('q'), &mapping()), KeyAction::Quit);
}

#[test]
fn clear_key_resets_selection() {
    let mut s = fresh_state();
    let m = mapping();
    handle_key(&mut s, Key::Char('w'), &m);
    handle_key(&mut s, Key::Char('f'), &m);
    assert_eq!(handle_key(&mut s, Key::Char('c'), &m), KeyAction::ClearIlkDetails);
    assert_eq!(s.active_ilk, Vec::<Vec<u8>>::new());
    assert_eq!(s.selected_active_view, SelectedActiveView::Clear);
    assert_eq!(s.active_new_palm_2, None);
}

#[test]
fn pop_key_drops_the_last_selection() {
    let mut s = fresh_state();
    let m = mapping();
    handle_key(&mut s, Key::Char('w'), &m);
    handle_key(&mut s, Key::Char('u'), &m);
    assert_eq!(handle_key(&mut s, Key::Char('p'), &m), KeyAction::PopIlkDetail);
    assert_eq!(s.active_ilk, vec![b"weth".to_vec()]);
    // popping an empty selection is harmless
    handle_key(&mut s, Key::Char('p'), &m);
    assert_eq!(handle_key(&mut s, Key::Char('p'), &m), KeyAction::PopIlkDetail);
    assert_eq!(s.active_ilk, Vec::<Vec<u8>>::new());
}

#[test]
fn backslash_toggles_the_market_view() {
    let mut s = fresh_state();
    let m = mapping();
    handle_key(&mut s, Key::Char('\\'), &m);
    assert_eq!(s.selected_market_view, SelectedMarketView::DollarConversion);
    handle_key(&mut s, Key::Char('\\'), &m);
    assert_eq!(s.selected_market_view, SelectedMarketView::MarAndPar);
}

#[test]
fn arrows_move_the_menu_cursor_within_bounds() {
    let mut s = fresh_state();
    let m = mapping();
    // cursor parked at -1: arrows do nothing
    handle_key(&mut s, Key::Down, &m);
    assert_eq!(s.menu_index, -1);
    handle_key(&mut s, Key::Up, &m);
    assert_eq!(s.menu_index, -1);
    // open the menu, then move
    handle_key(&mut s, Key::Char('m'), &m);
    handle_key(&mut s, Key::Down, &m);
    assert_eq!(s.menu_index, 1);
    handle_key(&mut s, Key::Up, &m);
    assert_eq!(s.menu_index, 0);
    handle_key(&mut s, Key::Up, &m);
    assert_eq!(s.menu_index, 0);
}

#[test]
fn enter_picks_the_menu_entry() {
    let mut s = fresh_state();
    let m = mapping();
    handle_key(&mut s, Key::Char('m'), &m);
    assert_eq!(handle_key(&mut s, Key::Enter, &m), KeyAction::Nothing);
    assert_eq!(s.selected_menu_view, SelectedMenuView::Pricing);

    let mut s2 = fresh_state();
    handle_key(&mut s2, Key::Char('m'), &m);
    handle_key(&mut s2, Key::Down, &m);
    assert_eq!(handle_key(&mut s2, Key::Enter, &m), KeyAction::Quit);
}

#[test]
fn class_resolution_finds_configured_names_only() {
    let configured = vec![b"weth".to_vec(), b"usdc".to_vec()];
    assert_eq!(resolve_class(&configured, &b"weth".to_vec()), Ok(0));
    assert_eq!(resolve_class(&configured, &b"usdc".to_vec()), Ok(1));
    assert_eq!(
        resolve_class(&configured, &b"dai".to_vec()),
        Err(Error::UnknownCollateralClass)
    );
}
