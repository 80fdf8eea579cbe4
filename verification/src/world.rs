//! The world the game plays in: the board of tiles and the movable actors
//! on it.

use vstd::prelude::*;

use crate::board::Board;
use crate::board::board_visuals;
use crate::graphics::Visual;
use crate::position::Direction;
use crate::position::Position;

verus! {

/// A movable actor on the board, facing one of the four directions, with a
/// budget of action points.
pub struct Terminator {
    pub name: String,
    pub id: u32,
    pub pos: Position,
    pub aps: u32,
}

/// The content code that renders an actor's facing: a triangle or chevron
/// pointing the way it looks.
pub open spec fn facing_code(d: Direction) -> u32 {
    match d {
        Direction::Up => 2,
        Direction::Down => 3,
        Direction::Right => 4,
        Direction::Left => 5,
    }
}

impl Terminator {
    /// The glyph an actor paints: its facing's content code at its position,
    /// carrying no identifier.
    pub open spec fn visual_spec(self) -> Visual {
        Visual { content: facing_code(self.pos.dir), x: self.pos.x, y: self.pos.y, id: None }
    }

    /// Renders the actor as one glyph record; see [`Terminator::visual_spec`].
    pub fn get_visual(&self) -> (r: Visual)
        ensures
            r == self.visual_spec(),
    {
        let content: u32 = match self.pos.dir {
            Direction::Up => 2,
            Direction::Down => 3,
            Direction::Right => 4,
            Direction::Left => 5,
        };
        Visual { content, x: self.pos.x, y: self.pos.y, id: None }
    }
}

/// One glyph per actor, in roster order.
pub open spec fn terminator_visuals(ts: Seq<Terminator>) -> Seq<Visual> {
    Seq::new(ts.len(), |i: int| ts[i].visual_spec())
}

/// The board and the actor roster.
pub struct World {
    pub board: Board,
    pub terminators: Vec<Terminator>,
}

/// Whether an actor at `pos` may move by `(dx, dy)`: the destination is on
/// the unsigned grid and its tile is accessible.
pub open spec fn can_move_spec(w: World, pos: Position, dx: int, dy: int) -> bool {
    &&& 0 <= pos.x + dx <= u32::MAX
    &&& 0 <= pos.y + dy <= u32::MAX
    &&& w.board.accessible_at(pos.x + dx, pos.y + dy)
}

impl World {
    /// The board fills its grid within the renderer's coordinate bounds, and
    /// every actor stands within those bounds too.
    pub open spec fn wf(self) -> bool {
        &&& self.board.wf()
        &&& self.board.rows() <= 0xFFFF
        &&& self.board.cols() <= 0xFFFF
        &&& forall|i: int|
            0 <= i < self.terminators@.len() ==> (#[trigger] self.terminators@[i]).pos.x < 0xFFFF
                && self.terminators@[i].pos.y < 0xFFFF
    }

    /// Builds the fixed board and the squad of five actors lined up at its
    /// left edge. Returns `None` only if the built-in board description
    /// failed to parse or to fit the renderer's coordinate bounds.
    pub fn new() -> (r: Option<World>)
        ensures
            r matches Some(w) ==> {
                &&& w.wf()
                &&& w.terminators@.len() == 5
                &&& w.terminators@[0].name@ == "Brother Omnio"@
                &&& w.terminators@[0] == (Terminator {
                    name: w.terminators@[0].name,
                    id: 0u32,
                    pos: Position { x: 0u32, y: 11u32, dir: Direction::Right },
                    aps: 50u32,
                })
                &&& w.terminators@[1].name@ == "Brother Claudio"@
                &&& w.terminators@[1] == (Terminator {
                    name: w.terminators@[1].name,
                    id: 0u32,
                    pos: Position { x: 1u32, y: 11u32, dir: Direction::Right },
                    aps: 50u32,
                })
                &&& w.terminators@[2].name@ == "Brother Goriel"@
                &&& w.terminators@[2] == (Terminator {
                    name: w.terminators@[2].name,
                    id: 0u32,
                    pos: Position { x: 2u32, y: 11u32, dir: Direction::Right },
                    aps: 50u32,
                })
                &&& w.terminators@[3].name@ == "Brother Zael"@
                &&& w.terminators@[3] == (Terminator {
                    name: w.terminators@[3].name,
                    id: 0u32,
                    pos: Position { x: 3u32, y: 11u32, dir: Direction::Right },
                    aps: 50u32,
                })
                &&& w.terminators@[4].name@ == "Sergeant Lorenzo"@
                &&& w.terminators@[4] == (Terminator {
                    name: w.terminators@[4].name,
                    id: 4u32,
                    pos: Position { x: 4u32, y: 11u32, dir: Direction::Right },
                    aps: 50u32,
                })
            },
    {
        let board_desc = "                   EEE     
                   EEE     
                   EEE     
                    D      
                    E      
                    E      
                    E     I
                    E     E
              EDEEEEEEEEEEE
              E     E     E
      EEE     E     E     E
SSSSSDEEEDEEEEEEEEEEEEEEEEE
      EEE           E     I
       D            E      
       E            E      
       E            E      
       E            E      
       E            E      
       D   I      IEEEI    
      EEE  E               
      EEEEDE               
      EEE  E               
           I               ";
        let board = match Board::from_string(board_desc) {
            Some(b) => b,
            None => {
                return None;
            },
        };
        if board.row_count() > 0xFFFF || board.col_count() > 0xFFFF {
            return None;
        }
        let mut terminators: Vec<Terminator> = Vec::new();
        terminators.push(
            Terminator {
                name: "Brother Omnio".to_owned(),
                id: 0,
                pos: Position { x: 0, y: 11, dir: Direction::Right },
                aps: 50,
            },
        );
        terminators.push(
            Terminator {
                name: "Brother Claudio".to_owned(),
                id: 0,
                pos: Position { x: 1, y: 11, dir: Direction::Right },
                aps: 50,
            },
        );
        terminators.push(
            Terminator {
                name: "Brother Goriel".to_owned(),
                id: 0,
                pos: Position { x: 2, y: 11, dir: Direction::Right },
                aps: 50,
            },
        );
        terminators.push(
            Terminator {
                name: "Brother Zael".to_owned(),
                id: 0,
                pos: Position { x: 3, y: 11, dir: Direction::Right },
                aps: 50,
            },
        );
        terminators.push(
            Terminator {
                name: "Sergeant Lorenzo".to_owned(),
                id: 4,
                pos: Position { x: 4, y: 11, dir: Direction::Right },
                aps: 50,
            },
        );
        Some(World { board, terminators })
    }

    /// Every board tile's glyph, then every actor's glyph, in order.
    #[verifier::loop_isolation(false)]
    pub fn get_simple_visuals(&self) -> (r: Vec<Visual>)
        requires
            self.wf(),
        ensures
            r@ == board_visuals(self.board) + terminator_visuals(self.terminators@),
    {
        let mut visuals = self.board.get_visuals();
        let ghost base = visuals@;
        let mut i: usize = 0;
        while i < self.terminators.len()
            invariant
                i <= self.terminators@.len(),
                visuals@ == base + terminator_visuals(self.terminators@.take(i as int)),
            decreases self.terminators@.len() - i,
        {
            visuals.push(self.terminators[i].get_visual());
            proof {
                assert(visuals@ =~= base + terminator_visuals(
                    self.terminators@.take(i as int + 1),
                ));
            }
            i = i + 1;
        }
        proof {
            assert(self.terminators@.take(self.terminators@.len() as int) =~= self.terminators@);
        }
        visuals
    }

    /// Whether an actor at `pos` may move by `(dx, dy)`; see
    /// [`can_move_spec`].
    pub fn can_move(&self, pos: &Position, dx: i32, dy: i32) -> (r: bool)
        ensures
            r == can_move_spec(*self, *pos, dx as int, dy as int),
    {
        let x = pos.x as i64 + dx as i64;
        let y = pos.y as i64 + dy as i64;
        if x < 0 || y < 0 {
            return false;
        }
        if x > u32::MAX as i64 || y > u32::MAX as i64 {
            return false;
        }
        self.board.is_accessible(x as u32, y as u32)
    }
}

} // verus!
