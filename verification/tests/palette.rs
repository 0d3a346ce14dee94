use iced_palette::Category;
use iced_palette::PaletteState;

#[test]
fn new_state_is_closed_and_empty() {
    let state = PaletteState::new();
    assert!(!state.is_open());
    assert_eq!(state.query(), "");
    assert_eq!(state.selected_index(), 0);
    assert!(state.submenu_path().is_empty());
}

#[test]
fn open_and_close_reset_the_state() {
    let mut state = PaletteState::new();
    state.open();
    assert!(state.is_open());

    state.set_query(String::from("sav"));
    state.set_selected(2);
    state.close();
    assert!(!state.is_open());
    assert_eq!(state.query(), "");
    assert_eq!(state.selected_index(), 0);
}

#[test]
fn toggle_flips_the_open_flag() {
    let mut state = PaletteState::new();
    state.toggle();
    assert!(state.is_open());
    state.toggle();
    assert!(!state.is_open());
}

#[test]
fn set_query_resets_the_selection() {
    let mut state = PaletteState::new();
    state.open();
    state.set_selected(4);
    state.set_query(String::from("op"));
    assert_eq!(state.query(), "op");
    assert_eq!(state.selected_index(), 0);
}

#[test]
fn navigation_wraps_at_both_ends() {
    let mut state = PaletteState::new();
    state.navigate_up(5);
    assert_eq!(state.selected_index(), 4);
    state.navigate_down(5);
    assert_eq!(state.selected_index(), 0);
    state.navigate_down(5);
    assert_eq!(state.selected_index(), 1);
    state.navigate_up(5);
    assert_eq!(state.selected_index(), 0);
}

#[test]
fn navigation_on_empty_list_changes_nothing() {
    let mut state = PaletteState::new();
    state.set_selected(3);
    state.navigate_up(0);
    assert_eq!(state.selected_index(), 3);
    state.navigate_down(0);
    assert_eq!(state.selected_index(), 3);
}

#[test]
fn submenus_nest_and_unwind() {
    let mut state = PaletteState::new();
    state.open();
    state.enter_submenu(String::from("file"));
    state.enter_submenu(String::from("recent"));
    assert_eq!(state.submenu_path().len(), 2);
    assert_eq!(state.submenu_path()[1], "recent");

    assert!(state.go_back());
    assert_eq!(state.submenu_path().len(), 1);
    assert!(state.go_back());
    assert!(state.submenu_path().is_empty());
    assert!(!state.go_back());
}

#[test]
fn entering_a_submenu_clears_the_query() {
    let mut state = PaletteState::new();
    state.open();
    state.set_query(String::from("fi"));
    state.set_selected(1);
    state.enter_submenu(String::from("file"));
    assert_eq!(state.query(), "");
    assert_eq!(state.selected_index(), 0);
}

#[test]
fn category_keeps_its_fields() {
    let cat = Category::new("file", "File", 100);
    assert_eq!(cat.id, "file");
    assert_eq!(cat.name, "File");
    assert_eq!(cat.order, 100);
}
