//! The game: a world plus the handler that steers it, stepped one decoded
//! event at a time by the surrounding control loop.

use vstd::prelude::*;

use crate::board::board_visuals;
use crate::graphics::Visual;
use crate::handlers::EventHandling;
use crate::handlers::InputEvent;
use crate::handlers::MoveTerminatorHandler;
use crate::handlers::roster_after;
use crate::world::World;
use crate::world::terminator_visuals;

verus! {

/// What one handled event produced: the glyphs of the next frame and
/// whether the game is over.
pub struct GameUpdate {
    pub visuals: Vec<Visual>,
    pub quit: bool,
}

/// The running game: the world and the handler that steers it.
pub struct Game {
    world: World,
    handler: MoveTerminatorHandler,
}

impl Game {
    /// The world as the contracts see it.
    pub closed spec fn world_spec(self) -> World {
        self.world
    }

    /// The world is well formed and the squad of five is complete.
    pub open spec fn wf(self) -> bool {
        &&& self.world_spec().wf()
        &&& self.world_spec().terminators@.len() == 5
    }

    /// Builds the fixed world and its handler. Returns `None` only if the
    /// built-in board description failed to parse or to fit the renderer's
    /// coordinate bounds.
    pub fn new() -> (r: Option<Game>)
        ensures
            r matches Some(g) ==> g.wf(),
    {
        let world = match World::new() {
            Some(w) => w,
            None => {
                return None;
            },
        };
        let handler = MoveTerminatorHandler {  };
        Some(Game { world, handler })
    }

    /// Handles one decoded event: steps the world and reports the next
    /// frame's glyphs and labels, or reports that the game is over.
    pub fn handle_event(&mut self, event: InputEvent) -> (r: GameUpdate)
        requires
            old(self).wf(),
        ensures
            final(self).wf(),
            final(self).world_spec().board == old(self).world_spec().board,
            final(self).world_spec().terminators@ == roster_after(
                old(self).world_spec(),
                event,
            ),
            r.quit <==> event is Quit,
            event is Quit ==> r.visuals@ == Seq::<Visual>::empty(),
            !(event is Quit) ==> r.visuals@ == board_visuals(old(self).world_spec().board)
                + terminator_visuals(roster_after(old(self).world_spec(), event)),
    {
        let results = self.handler.handle_event(&mut self.world, event);
        let quit = match results.events {
            EventHandling::Quit => true,
            _ => false,
        };
        GameUpdate { visuals: results.visuals, quit }
    }

    /// The glyphs of the current world: every board tile, then every actor.
    pub fn get_visuals(&self) -> (r: Vec<Visual>)
        requires
            self.wf(),
        ensures
            r@ == board_visuals(self.world_spec().board) + terminator_visuals(
                self.world_spec().terminators@,
            ),
    {
        self.world.get_simple_visuals()
    }
}

} // verus!
