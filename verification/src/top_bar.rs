//! The top-bar menus: the decision logic that turns pressed buttons into a
//! build-state choice. Creating the panels and polling the actual button
//! events belong to the host UI; this module only decides.

use vstd::prelude::*;

verus! {

/// Identifies one placeable object class by index.
#[derive(Debug, Clone, Copy, PartialEq, Eq, Structural)]
pub struct ObjectClassId {
    pub id: usize,
}

/// What the player has chosen to build next.
#[derive(Debug, Clone, Copy, PartialEq, Eq, Structural)]
pub enum BuildChoice {
    Nothing,
    Floor,
    Object(ObjectClassId),
    Destroy,
    DestroyAll,
}

/// The build-related state the menus steer.
#[derive(Debug)]
pub struct BuildState {
    pub choice: BuildChoice,
}

impl BuildState {
    pub fn new() -> (r: BuildState)
        ensures
            r.choice == BuildChoice::Nothing,
    {
        BuildState { choice: BuildChoice::Nothing }
    }
}

/// The object buttons applied in order: the last pressed one wins.
pub open spec fn spec_button_fold(
    c: BuildChoice,
    buttons: Seq<ObjectClassId>,
    pressed: Seq<bool>,
) -> BuildChoice
    decreases buttons.len(),
{
    if buttons.len() == 0 || pressed.len() == 0 {
        c
    } else {
        spec_button_fold(
            if pressed[0] {
                BuildChoice::Object(buttons[0])
            } else {
                c
            },
            buttons.drop_first(),
            pressed.drop_first(),
        )
    }
}

/// The choice after one menu update: the fixed buttons are applied first in
/// their on-screen order (floor, destroy, destroy-all), then every object
/// button in order, each pressed button overwriting the choice.
pub open spec fn spec_menu_choice(
    prev: BuildChoice,
    buttons: Seq<ObjectClassId>,
    build_floor: bool,
    destroy: bool,
    destroy_all: bool,
    pressed: Seq<bool>,
) -> BuildChoice {
    let base = if destroy_all {
        BuildChoice::DestroyAll
    } else if destroy {
        BuildChoice::Destroy
    } else if build_floor {
        BuildChoice::Floor
    } else {
        prev
    };
    spec_button_fold(base, buttons, pressed)
}

/// The build menu: one button per placeable object class, plus the fixed
/// floor, destroy and destroy-all buttons.
pub struct BuildMenu {
    pub build_buttons: Vec<ObjectClassId>,
}

impl BuildMenu {
    /// A menu whose object buttons select the given classes, in order.
    pub fn new(build_buttons: Vec<ObjectClassId>) -> (r: BuildMenu)
        ensures
            r.build_buttons@ == build_buttons@,
    {
        BuildMenu { build_buttons }
    }

    /// Applies one frame of button presses to the build state. The host
    /// polls its UI for which buttons were pressed and passes the object
    /// buttons' states in `build_pressed`, aligned with `build_buttons`.
    pub fn update(
        &self,
        build_state: &mut BuildState,
        build_floor_pressed: bool,
        destroy_pressed: bool,
        destroy_all_pressed: bool,
        build_pressed: &Vec<bool>,
    )
        requires
            build_pressed@.len() == self.build_buttons@.len(),
        ensures
            final(build_state).choice == spec_menu_choice(
                old(build_state).choice,
                self.build_buttons@,
                build_floor_pressed,
                destroy_pressed,
                destroy_all_pressed,
                build_pressed@,
            ),
    {
        if build_floor_pressed {
            build_state.choice = BuildChoice::Floor;
        }
        if destroy_pressed {
            build_state.choice = BuildChoice::Destroy;
        }
        if destroy_all_pressed {
            build_state.choice = BuildChoice::DestroyAll;
        }
        let n = self.build_buttons.len();
        let mut i: usize = 0;
        proof {
            assert(self.build_buttons@.skip(0) =~= self.build_buttons@);
            assert(build_pressed@.skip(0) =~= build_pressed@);
        }
        while i < n
            invariant
                n == self.build_buttons@.len(),
                build_pressed@.len() == n,
                i <= n,
                spec_button_fold(
                    build_state.choice,
                    self.build_buttons@.skip(i as int),
                    build_pressed@.skip(i as int),
                ) == spec_menu_choice(
                    old(build_state).choice,
                    self.build_buttons@,
                    build_floor_pressed,
                    destroy_pressed,
                    destroy_all_pressed,
                    build_pressed@,
                ),
            decreases n - i,
        {
            proof {
                assert(self.build_buttons@.skip(i as int).drop_first()
                    =~= self.build_buttons@.skip(i as int + 1));
                assert(build_pressed@.skip(i as int).drop_first() =~= build_pressed@.skip(
                    i as int + 1,
                ));
                assert(self.build_buttons@.skip(i as int)[0] == self.build_buttons@[i as int]);
                assert(build_pressed@.skip(i as int)[0] == build_pressed@[i as int]);
            }
            if build_pressed[i] {
                build_state.choice = BuildChoice::Object(self.build_buttons[i]);
            }
            i = i + 1;
        }
        proof {
            assert(self.build_buttons@.skip(n as int).len() == 0);
        }
    }
}

/// The game menu: a single save button whose event the host drains through
/// [`crate::SaveInputController`]; updating it involves no decision here.
pub struct GameMenu {}

impl GameMenu {
    pub fn new() -> (r: GameMenu) {
        GameMenu {  }
    }

    /// The game menu reacts to nothing during an update; its save button's
    /// events are handled by the save controller.
    pub fn update(&self) {
    }
}

/// The whole top bar: the build menu and the game menu side by side.
pub struct TopBar {
    build_menu: BuildMenu,
    game_menu: GameMenu,
}

impl TopBar {
    pub fn new(build_menu: BuildMenu, game_menu: GameMenu) -> (r: TopBar)
        ensures
            r.menu_buttons() == build_menu.build_buttons@,
    {
        TopBar { build_menu, game_menu }
    }

    /// The object buttons of the contained build menu.
    pub closed spec fn menu_buttons(self) -> Seq<ObjectClassId> {
        self.build_menu.build_buttons@
    }

    /// Applies one frame of presses to the build state through the build
    /// menu, and updates the game menu.
    pub fn update(
        &self,
        build_state: &mut BuildState,
        build_floor_pressed: bool,
        destroy_pressed: bool,
        destroy_all_pressed: bool,
        build_pressed: &Vec<bool>,
    )
        requires
            build_pressed@.len() == self.menu_buttons().len(),
        ensures
            final(build_state).choice == spec_menu_choice(
                old(build_state).choice,
                self.menu_buttons(),
                build_floor_pressed,
                destroy_pressed,
                destroy_all_pressed,
                build_pressed@,
            ),
    {
        self.build_menu.update(
            build_state,
            build_floor_pressed,
            destroy_pressed,
            destroy_all_pressed,
            build_pressed,
        );
        self.game_menu.update();
    }
}

} // verus!
