//! Event handling: the decision logic that turns one decoded input event
//! into the next world state, the labels to show, and the glyphs to draw.
//! The event source and key decoding live outside; this logic is a pure step
//! function from state and event to state and update.

use vstd::prelude::*;

use crate::board::board_visuals;
use crate::graphics::Text;
use crate::graphics::Visual;
use crate::position::Position;
use crate::world::Terminator;
use crate::world::World;
use crate::world::can_move_spec;
use crate::world::terminator_visuals;

verus! {

/// One decoded input: a request to quit, a movement or rotation of the
/// selected actor, or a tick on which nothing happens.
#[derive(Clone, Copy, PartialEq, Eq, Structural, Debug)]
pub enum InputEvent {
    Quit,
    MoveForward,
    MoveBackward,
    RotateLeft,
    RotateRight,
    Tick,
}

/// What the control loop should do after an event: keep handling, or quit.
#[derive(Clone, Copy, PartialEq, Eq, Structural, Debug)]
pub enum EventHandling {
    Keep,
    Quit,
}

/// One handled event's outcome: the glyphs and labels of the next frame and
/// whether to keep going.
pub struct EventUpdate {
    pub visuals: Vec<Visual>,
    pub texts: Vec<Text>,
    pub events: EventHandling,
}

impl EventUpdate {
    /// The quitting outcome: nothing to draw, stop handling.
    pub fn quit() -> (r: EventUpdate)
        ensures
            r.visuals@ == Seq::<Visual>::empty(),
            r.texts@ == Seq::<Text>::empty(),
            r.events is Quit,
    {
        EventUpdate { visuals: vec![], texts: vec![], events: EventHandling::Quit }
    }
}

/// One label per actor, binding its name to its identifier, in roster order.
pub open spec fn texts_of(ts: Seq<Terminator>) -> Seq<Text> {
    Seq::new(ts.len(), |i: int| Text::ItemAnnotation(ts[i].id, ts[i].name))
}

/// The index of the selected actor: the handler always steers the last of
/// the squad of five.
pub open spec fn selected_index() -> int {
    4
}

/// The roster after the selected actor tried one step by `(dx, dy)`: moved
/// and one action point poorer when it has points left and the destination
/// is accessible, unchanged otherwise.
pub open spec fn stepped_roster(w: World, dx: int, dy: int) -> Seq<Terminator> {
    let t = w.terminators@[selected_index()];
    if t.aps > 0 && can_move_spec(w, t.pos, dx, dy) {
        w.terminators@.update(
            selected_index(),
            Terminator {
                name: t.name,
                id: t.id,
                pos: Position { x: (t.pos.x + dx) as u32, y: (t.pos.y + dy) as u32, dir: t.pos.dir },
                aps: (t.aps - 1) as u32,
            },
        )
    } else {
        w.terminators@
    }
}

/// The roster after the selected actor's facing turned by `left`.
pub open spec fn rotated_roster(w: World, left: bool) -> Seq<Terminator> {
    let t = w.terminators@[selected_index()];
    w.terminators@.update(
        selected_index(),
        Terminator {
            name: t.name,
            id: t.id,
            pos: Position {
                x: t.pos.x,
                y: t.pos.y,
                dir: if left {
                    t.pos.dir.rotate_left_spec()
                } else {
                    t.pos.dir.rotate_right_spec()
                },
            },
            aps: t.aps,
        },
    )
}

/// The roster after one event: a movement steps the selected actor when it
/// can, a rotation turns its facing, anything else changes nothing.
pub open spec fn roster_after(w: World, event: InputEvent) -> Seq<Terminator> {
    match event {
        InputEvent::Quit => w.terminators@,
        InputEvent::MoveForward => stepped_roster(
            w,
            w.terminators@[selected_index()].pos.dir.frontward_spec().0 as int,
            w.terminators@[selected_index()].pos.dir.frontward_spec().1 as int,
        ),
        InputEvent::MoveBackward => stepped_roster(
            w,
            w.terminators@[selected_index()].pos.dir.backward_spec().0 as int,
            w.terminators@[selected_index()].pos.dir.backward_spec().1 as int,
        ),
        InputEvent::RotateLeft => rotated_roster(w, true),
        InputEvent::RotateRight => rotated_roster(w, false),
        InputEvent::Tick => w.terminators@,
    }
}

/// The handler that steers the selected actor over the board.
pub struct MoveTerminatorHandler {}

impl MoveTerminatorHandler {
    /// Handles one decoded event: on `Quit` it reports the quitting outcome
    /// and leaves the world alone; on anything else it updates the selected
    /// actor, labels every actor with its name, and reports the world's
    /// glyphs for the next frame.
    #[verifier::loop_isolation(false)]
    pub fn handle_event(&mut self, world: &mut World, event: InputEvent) -> (r: EventUpdate)
        requires
            old(world).wf(),
            old(world).terminators@.len() > 4,
        ensures
            final(world).wf(),
            final(world).board == old(world).board,
            final(world).terminators@ == roster_after(*old(world), event),
            r.events is Quit <==> event is Quit,
            event is Quit ==> (r.visuals@ == Seq::<Visual>::empty() && r.texts@ == Seq::<
                Text,
            >::empty()),
            !(event is Quit) ==> r.texts@ == texts_of(old(world).terminators@),
            !(event is Quit) ==> r.visuals@ == board_visuals(old(world).board)
                + terminator_visuals(roster_after(*old(world), event)),
    {
        let mut texts: Vec<Text> = Vec::new();
        let mut i: usize = 0;
        while i < world.terminators.len()
            invariant
                world == old(world),
                i <= world.terminators@.len(),
                texts@ == texts_of(world.terminators@.take(i as int)),
            decreases world.terminators@.len() - i,
        {
            let t = &world.terminators[i];
            let text = Text::ItemAnnotation(t.id, t.name.clone());
            texts.push(text);
            proof {
                assert(texts@ =~= texts_of(world.terminators@.take(i as int + 1)));
            }
            i = i + 1;
        }
        proof {
            assert(world.terminators@.take(world.terminators@.len() as int)
                =~= world.terminators@);
        }

        let selected: usize = 4;
        let mut pos = world.terminators[selected].pos;
        let mut aps = world.terminators[selected].aps;
        match event {
            InputEvent::Quit => {
                return EventUpdate::quit();
            },
            InputEvent::MoveForward => {
                let (dx, dy) = pos.dir.move_frontward();
                if aps > 0 && world.can_move(&pos, dx, dy) {
                    pos.move_by(dx, dy);
                    aps = aps - 1;
                }
            },
            InputEvent::MoveBackward => {
                let (dx, dy) = pos.dir.move_backward();
                if aps > 0 && world.can_move(&pos, dx, dy) {
                    pos.move_by(dx, dy);
                    aps = aps - 1;
                }
            },
            InputEvent::RotateLeft => {
                pos.rotate_left();
            },
            InputEvent::RotateRight => {
                pos.rotate_right();
            },
            InputEvent::Tick => {},
        }
        world.terminators[selected].pos = pos;
        world.terminators[selected].aps = aps;
        proof {
            assert(world.terminators@ =~= roster_after(*old(world), event));
            assert(world.wf());
        }

        let visuals = world.get_simple_visuals();
        EventUpdate { visuals, texts, events: EventHandling::Keep }
    }
}

} // verus!
