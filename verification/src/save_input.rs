//! The save-menu controller: turns UI events into save, load and new-game
//! decisions. Performing the decisions (file reads and writes) is the
//! host's business, not this library's.

use vstd::prelude::*;
use crate::events::ComponentEvents;

verus! {

/// A persistence action that the host must perform.
#[derive(Debug, Clone, Copy, PartialEq, Eq, Structural)]
pub enum SaveAction {
    LoadGame,
    SaveGame,
    NewGame,
}

/// The action an event identifier asks for, if any; unrecognised events ask
/// for nothing.
pub open spec fn spec_save_action(e: Seq<char>) -> Option<SaveAction> {
    if e == "load-game"@ {
        Option::Some(SaveAction::LoadGame)
    } else if e == "save-game"@ {
        Option::Some(SaveAction::SaveGame)
    } else if e == "new-game"@ {
        Option::Some(SaveAction::NewGame)
    } else {
        Option::None
    }
}

/// The actions a queue of events asks for, in order.
pub open spec fn spec_save_actions(events: Seq<Seq<char>>) -> Seq<SaveAction>
    decreases events.len(),
{
    if events.len() == 0 {
        Seq::empty()
    } else {
        match spec_save_action(events[0]) {
            Option::Some(a) => seq![a] + spec_save_actions(events.drop_first()),
            Option::None => spec_save_actions(events.drop_first()),
        }
    }
}

/// Watches the save menu's component events and decides which persistence
/// actions to take.
pub struct SaveInputController {
    events: ComponentEvents,
}

impl SaveInputController {
    /// The events still queued.
    pub closed spec fn view(self) -> Seq<Seq<char>> {
        self.events@
    }

    /// A controller over the given event queue, which the host fills from
    /// the save-menu UI.
    pub fn new(events: ComponentEvents) -> (r: SaveInputController)
        ensures
            r@ == events@,
    {
        SaveInputController { events }
    }

    /// Appends one event for a later `update`.
    pub fn push_event(&mut self, event: String)
        ensures
            final(self)@ == old(self)@.push(event@),
    {
        self.events.push(event);
    }

    /// Drains every queued event and returns the actions they ask for, in
    /// order; unrecognised events are dropped.
    pub fn update(&mut self) -> (r: Vec<SaveAction>)
        ensures
            final(self)@.len() == 0,
            r@ == spec_save_actions(old(self)@),
    {
        let load_id: String = "load-game".to_owned();
        let save_id: String = "save-game".to_owned();
        let new_id: String = "new-game".to_owned();
        let mut actions: Vec<SaveAction> = Vec::new();
        loop
            invariant
                load_id@ == "load-game"@,
                save_id@ == "save-game"@,
                new_id@ == "new-game"@,
                spec_save_actions(old(self)@) == actions@ + spec_save_actions(self@),
            decreases self@.len(),
        {
            let next = self.events.next();
            match next {
                Option::None => {
                    proof {
                        assert(actions@ + spec_save_actions(self@) =~= actions@);
                    }
                    return actions;
                },
                Option::Some(event) => {
                    if event == load_id {
                        actions.push(SaveAction::LoadGame);
                    } else if event == save_id {
                        actions.push(SaveAction::SaveGame);
                    } else if event == new_id {
                        actions.push(SaveAction::NewGame);
                    }
                },
            }
        }
    }
}

} // verus!
