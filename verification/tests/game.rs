use glyphgrid::board::Board;
use glyphgrid::game::Game;
use glyphgrid::handlers::EventHandling;
use glyphgrid::handlers::EventUpdate;
use glyphgrid::handlers::InputEvent;
use glyphgrid::handlers::MoveTerminatorHandler;
use glyphgrid::graphics::Text;
use glyphgrid::position::Direction;
use glyphgrid::position::Position;
use glyphgrid::world::World;

#[test]
fn direction_rotations_cycle() {
    assert_eq!(Direction::Up.rotate_left(), Direction::Left);
    assert_eq!(Direction::Left.rotate_left(), Direction::Down);
    assert_eq!(Direction::Down.rotate_left(), Direction::Right);
    assert_eq!(Direction::Right.rotate_left(), Direction::Up);
    assert_eq!(Direction::Up.rotate_right(), Direction::Right);
    assert_eq!(Direction::Right.rotate_right(), Direction::Down);
    assert_eq!(Direction::Down.rotate_right(), Direction::Left);
    assert_eq!(Direction::Left.rotate_right(), Direction::Up);
}

#[test]
fn movement_deltas_per_facing() {
    assert_eq!(Direction::Up.move_frontward(), (0, -1));
    assert_eq!(Direction::Down.move_frontward(), (0, 1));
    assert_eq!(Direction::Right.move_frontward(), (1, 0));
    assert_eq!(Direction::Left.move_frontward(), (-1, 0));
    assert_eq!(Direction::Up.move_backward(), (0, 1));
    assert_eq!(Direction::Down.move_backward(), (0, -1));
    assert_eq!(Direction::Right.move_backward(), (-1, 0));
    assert_eq!(Direction::Left.move_backward(), (1, 0));
}

#[test]
fn position_moves_and_rotates() {
    let mut pos = Position { x: 3, y: 4, dir: Direction::Up };
    pos.move_by(1, -2);
    assert_eq!(pos.x, 4);
    assert_eq!(pos.y, 2);
    pos.rotate_left();
    assert_eq!(pos.dir, Direction::Left);
    pos.rotate_right();
    assert_eq!(pos.dir, Direction::Up);
}

#[test]
fn board_parses_rectangular_grid() {
    let board = Board::from_string("E \nEE").expect("rectangular grid parses");
    assert_eq!(board.row_count(), 2);
    assert_eq!(board.col_count(), 2);
    assert!(board.is_accessible(0, 0));
    assert!(!board.is_accessible(1, 0));
    assert!(board.is_accessible(0, 1));
    assert!(board.is_accessible(1, 1));
    // Out of bounds is simply not accessible.
    assert!(!board.is_accessible(2, 0));
    assert!(!board.is_accessible(0, 2));
}

#[test]
fn board_rejects_ragged_grid() {
    assert!(Board::from_string("E\nEE").is_none());
}

#[test]
fn board_visuals_are_row_major() {
    let board = Board::from_string("E \nEE").expect("rectangular grid parses");
    let visuals = board.get_visuals();
    assert_eq!(visuals.len(), 4);
    assert_eq!((visuals[0].x, visuals[0].y, visuals[0].content), (0, 0, 1));
    assert_eq!((visuals[1].x, visuals[1].y, visuals[1].content), (1, 0, 0));
    assert_eq!((visuals[2].x, visuals[2].y, visuals[2].content), (0, 1, 1));
    assert_eq!((visuals[3].x, visuals[3].y, visuals[3].content), (1, 1, 1));
    assert!(visuals.iter().all(|v| v.id.is_none()));
}

#[test]
fn world_builds_with_squad_of_five() {
    let world = World::new().expect("the built-in board parses");
    assert_eq!(world.terminators.len(), 5);
    assert_eq!(world.terminators[0].name, "Brother Omnio");
    assert_eq!(world.terminators[4].name, "Sergeant Lorenzo");
    assert_eq!(world.terminators[4].id, 4);
    assert_eq!(world.terminators[4].pos.x, 4);
    assert_eq!(world.terminators[4].pos.y, 11);
    assert_eq!(world.terminators[4].aps, 50);
    assert_eq!(world.board.row_count(), 23);
    assert_eq!(world.board.col_count(), 27);
}

#[test]
fn world_visuals_are_board_then_actors() {
    let world = World::new().expect("the built-in board parses");
    let visuals = world.get_simple_visuals();
    assert_eq!(visuals.len(), 23 * 27 + 5);
    // An actor facing right paints content code 4 at its position.
    let actor = &visuals[23 * 27 + 4];
    assert_eq!((actor.content, actor.x, actor.y), (4, 4, 11));
}

#[test]
fn terminator_visual_follows_facing() {
    let mut world = World::new().expect("the built-in board parses");
    world.terminators[0].pos.dir = Direction::Up;
    assert_eq!(world.terminators[0].get_visual().content, 2);
    world.terminators[0].pos.dir = Direction::Down;
    assert_eq!(world.terminators[0].get_visual().content, 3);
    world.terminators[0].pos.dir = Direction::Left;
    assert_eq!(world.terminators[0].get_visual().content, 5);
}

#[test]
fn can_move_respects_board_and_edges() {
    let world = World::new().expect("the built-in board parses");
    let pos = Position { x: 4, y: 11, dir: Direction::Right };
    // Row 11 of the board is walkable to the right of the squad.
    assert!(world.can_move(&pos, 1, 0));
    // Above row 11 at column 4 the board is blank.
    assert!(!world.can_move(&pos, 0, -1));
    // Stepping off the left edge is never possible.
    let edge = Position { x: 0, y: 11, dir: Direction::Left };
    assert!(!world.can_move(&edge, -1, 0));
}

#[test]
fn event_update_quit_is_empty() {
    let update = EventUpdate::quit();
    assert!(update.visuals.is_empty());
    assert!(update.texts.is_empty());
    assert!(matches!(update.events, EventHandling::Quit));
}

#[test]
fn handler_moves_selected_actor_forward() {
    let mut world = World::new().expect("the built-in board parses");
    let mut handler = MoveTerminatorHandler {};
    let update = handler.handle_event(&mut world, InputEvent::MoveForward);
    assert!(matches!(update.events, EventHandling::Keep));
    assert_eq!(world.terminators[4].pos.x, 5);
    assert_eq!(world.terminators[4].pos.y, 11);
    assert_eq!(world.terminators[4].aps, 49);
    // One label per actor, bound to its identifier.
    assert_eq!(update.texts.len(), 5);
    match &update.texts[4] {
        Text::ItemAnnotation(id, name) => {
            assert_eq!(*id, 4);
            assert_eq!(name, "Sergeant Lorenzo");
        },
        Text::Title(_) => panic!("expected an item annotation"),
    }
    assert_eq!(update.visuals.len(), 23 * 27 + 5);
}

#[test]
fn handler_blocks_movement_into_blank_tiles() {
    let mut world = World::new().expect("the built-in board parses");
    world.terminators[4].pos.dir = Direction::Up;
    let mut handler = MoveTerminatorHandler {};
    handler.handle_event(&mut world, InputEvent::MoveForward);
    // The tile above is blank: position and points are unchanged.
    assert_eq!(world.terminators[4].pos.x, 4);
    assert_eq!(world.terminators[4].pos.y, 11);
    assert_eq!(world.terminators[4].aps, 50);
}

#[test]
fn handler_rotates_without_spending_points() {
    let mut world = World::new().expect("the built-in board parses");
    let mut handler = MoveTerminatorHandler {};
    handler.handle_event(&mut world, InputEvent::RotateLeft);
    assert_eq!(world.terminators[4].pos.dir, Direction::Up);
    assert_eq!(world.terminators[4].aps, 50);
    handler.handle_event(&mut world, InputEvent::RotateRight);
    assert_eq!(world.terminators[4].pos.dir, Direction::Right);
}

#[test]
fn handler_quit_reports_quit_and_leaves_world() {
    let mut world = World::new().expect("the built-in board parses");
    let mut handler = MoveTerminatorHandler {};
    let update = handler.handle_event(&mut world, InputEvent::Quit);
    assert!(matches!(update.events, EventHandling::Quit));
    assert!(update.visuals.is_empty());
    assert_eq!(world.terminators[4].pos.x, 4);
    assert_eq!(world.terminators[4].aps, 50);
}

#[test]
fn handler_tick_changes_nothing() {
    let mut world = World::new().expect("the built-in board parses");
    let mut handler = MoveTerminatorHandler {};
    let update = handler.handle_event(&mut world, InputEvent::Tick);
    assert!(matches!(update.events, EventHandling::Keep));
    assert_eq!(world.terminators[4].pos.x, 4);
    assert_eq!(world.terminators[4].pos.y, 11);
    assert_eq!(world.terminators[4].aps, 50);
}

#[test]
fn game_steps_and_quits() {
    let mut game = Game::new().expect("the built-in board parses");
    let update = game.handle_event(InputEvent::MoveForward);
    assert!(!update.quit);
    assert_eq!(update.visuals.len(), 23 * 27 + 5);
    let moved = &update.visuals[23 * 27 + 4];
    assert_eq!((moved.content, moved.x, moved.y), (4, 5, 11));
    let quit_update = game.handle_event(InputEvent::Quit);
    assert!(quit_update.quit);
    assert!(quit_update.visuals.is_empty());
}

#[test]
fn game_reports_current_visuals() {
    let game = Game::new().expect("the built-in board parses");
    let visuals = game.get_visuals();
    assert_eq!(visuals.len(), 23 * 27 + 5);
}
