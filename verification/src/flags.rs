//! Game-wide switches toggled from the keyboard.
use vstd::prelude::*;
use crate::world::{Key, WorldEvent};

verus! {

/// The game's switches: whether the player flies around as a spectator, with the chunks
/// around no longer following them.
pub struct GameFlags {
    pub spectator_mode: bool,
}

/// The spectator mode after the event `e`: pressing `O` switches it.
pub open spec fn spectator_after(mode: bool, e: WorldEvent) -> bool {
    match e {
        WorldEvent::KeyPressed(Key::O) => !mode,
        _ => mode,
    }
}

impl GameFlags {
    pub fn new() -> (r: Self)
        ensures
            !r.spectator_mode,
    {
        GameFlags { spectator_mode: false }
    }

    /// Switches the spectator mode when `O` is pressed and announces the new mode; ignores
    /// every other event.
    pub fn respond_event(&mut self, event: WorldEvent) -> (r: Vec<WorldEvent>)
        ensures
            final(self).spectator_mode == spectator_after(old(self).spectator_mode, event),
            event matches WorldEvent::KeyPressed(Key::O) ==> r@ == seq![WorldEvent::SpectatorMode(final(self).spectator_mode)],
            !(event matches WorldEvent::KeyPressed(Key::O)) ==> r@.len() == 0,
    {
        match event {
            WorldEvent::KeyPressed(Key::O) => {
                self.spectator_mode = !self.spectator_mode;
                let mut r: Vec<WorldEvent> = Vec::new();
                r.push(WorldEvent::SpectatorMode(self.spectator_mode));
                proof {
                    assert(r@ =~= seq![WorldEvent::SpectatorMode(self.spectator_mode)]);
                }
                r
            },
            _ => Vec::new(),
        }
    }
}

/// Pressing `O` twice leaves the spectator mode as it was.
pub proof fn lemma_spectator_toggle_twice(mode: bool)
    ensures
        spectator_after(spectator_after(mode, WorldEvent::KeyPressed(Key::O)), WorldEvent::KeyPressed(Key::O)) == mode,
{
}

} // verus!
