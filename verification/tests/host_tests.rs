use markedly::{
    BuildChoice, BuildMenu, BuildState, ComponentEvents, GameMenu, ObjectClassId, SaveAction,
    SaveInputController, TopBar,
};

#[test]
fn events_are_drained_in_order() {
    let mut events = ComponentEvents::new();
    events.push("first".to_string());
    events.push("second".to_string());
    assert_eq!(events.len(), 2);
    assert_eq!(events.next(), Some("first".to_string()));
    assert_eq!(events.next(), Some("second".to_string()));
    assert_eq!(events.next(), None);
}

#[test]
fn save_controller_maps_known_events_in_order() {
    let mut controller = SaveInputController::new(ComponentEvents::new());
    controller.push_event("load-game".to_string());
    controller.push_event("resize".to_string());
    controller.push_event("save-game".to_string());
    controller.push_event("new-game".to_string());
    let actions = controller.update();
    assert_eq!(
        actions,
        vec![SaveAction::LoadGame, SaveAction::SaveGame, SaveAction::NewGame]
    );
    assert_eq!(controller.update(), Vec::<SaveAction>::new());
}

#[test]
fn build_menu_last_pressed_button_wins() {
    let menu = BuildMenu::new(vec![ObjectClassId { id: 0 }, ObjectClassId { id: 1 }]);
    let mut state = BuildState::new();

    menu.update(&mut state, true, false, false, &vec![false, false]);
    assert_eq!(state.choice, BuildChoice::Floor);

    menu.update(&mut state, false, true, true, &vec![false, false]);
    assert_eq!(state.choice, BuildChoice::DestroyAll);

    menu.update(&mut state, false, false, true, &vec![false, true]);
    assert_eq!(state.choice, BuildChoice::Object(ObjectClassId { id: 1 }));

    menu.update(&mut state, false, false, false, &vec![false, false]);
    assert_eq!(state.choice, BuildChoice::Object(ObjectClassId { id: 1 }));
}

#[test]
fn top_bar_routes_presses_to_the_build_menu() {
    let top_bar = TopBar::new(
        BuildMenu::new(vec![ObjectClassId { id: 4 }]),
        GameMenu::new(),
    );
    let mut state = BuildState::new();
    top_bar.update(&mut state, false, true, false, &vec![false]);
    assert_eq!(state.choice, BuildChoice::Destroy);
    top_bar.update(&mut state, false, false, false, &vec![true]);
    assert_eq!(state.choice, BuildChoice::Object(ObjectClassId { id: 4 }));
}

#[test]
fn game_menu_update_is_inert() {
    let menu = GameMenu::new();
    menu.update();
}
