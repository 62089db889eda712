//! Core game state: board geometry, units and the authoritative `GameState`.
//!
//! Everything in this module is plain data and query helpers. Mutations happen
//! in `simulation` (the tick) and `input` (command validation).

use crate::config::BoardConfig;
use crate::roster::{find_unit, put_unit, unit_ids};
use std::collections::BTreeMap;
use vstd::prelude::*;

verus! {

pub type UnitId = u32;

/// Board side: white moves up the board (from low `y`), black moves down.
#[derive(Debug, Clone, Copy, PartialEq, Eq, Hash, PartialOrd, Ord, Structural)]
pub enum Owner {
    White,
    Black,
}

/// Tile coordinate. `x` = file, `y` = rank.
/// White's back rank is `y = 0`, black's is `y = size - 1`.
#[derive(Debug, Clone, Copy, PartialEq, Eq, Hash, PartialOrd, Ord, Structural)]
pub struct Tile {
    pub x: u8,
    pub y: u8,
}

#[derive(Debug, Clone, Copy, PartialEq, Eq, Structural)]
pub enum UnitKind {
    Pawn,
    Artillery,
}

/// Artillery variants.
#[derive(Debug, Clone, Copy, PartialEq, Eq, Structural)]
pub enum ArtilleryType {
    Cannon,
}

#[derive(Debug, Clone, Copy, PartialEq, Eq, Structural)]
pub enum UnitState {
    /// Standing still, free to act.
    Idle,
    /// Has a queued move awaiting its roll.
    Moving,
    /// Grappled with an adjacent enemy; cannot move until the fight resolves.
    Locked,
}

#[derive(Debug, Clone, Copy, PartialEq, Eq, Structural)]
pub struct Unit {
    pub id: UnitId,
    pub owner: Owner,
    pub kind: UnitKind,
    pub pos: Tile,
    pub hp: i32,
    pub max_hp: i32,
    pub state: UnitState,
    /// Queued move target (present while `state == Moving`).
    pub pending_move: Option<Tile>,
    /// Opponent this unit is grappled with (present while `state == Locked`).
    pub melee_target: Option<UnitId>,
    /// Ticks until the next melee hit lands.
    pub attack_cooldown: u32,
    /// Ticks until the next artillery shot.
    pub fire_cooldown: u32,
}

#[derive(Debug, Clone, Copy, PartialEq, Eq, Structural)]
pub enum MatchStatus {
    /// Created, waiting for players to join.
    Lobby,
    /// Simulation running.
    Active,
    /// Game over (`winner` and `end_reason` describe the outcome).
    Finished,
}

#[derive(Debug, Clone, Copy, PartialEq, Eq, Structural)]
pub enum EndReason {
    /// One side lost all units.
    Annihilation,
    /// Both sides lost all units in the same tick.
    MutualAnnihilation,
    /// Time ran out; more units alive wins, equal counts draw.
    Timeout,
    Draw,
}

/// Full authoritative state pushed to clients as a snapshot.
#[derive(Debug)]
pub struct GameState {
    pub tick: u64,
    pub board_size: u8,
    pub status: MatchStatus,
    pub winner: Option<Owner>,
    pub end_reason: Option<EndReason>,
    /// All alive units keyed by id.
    pub units: BTreeMap<UnitId, Unit>,
    /// Id that the next spawned unit gets.
    pub next_unit_id: UnitId,
    /// Obstacles block movement and artillery line of sight. No tile is listed
    /// twice.
    pub walls: Vec<Tile>,
}

/// Per-tick change set pushed to clients in "delta" broadcast mode.
#[derive(Debug)]
pub struct StateDelta {
    pub tick: u64,
    pub status: MatchStatus,
    pub winner: Option<Owner>,
    pub end_reason: Option<EndReason>,
    /// Full records of the units that changed this tick, or that its events are
    /// about.
    pub updated: Vec<Unit>,
    /// Units removed (died) this tick.
    pub removed: Vec<UnitId>,
}

/// What a `GameState` holds, as mathematical collections.
#[verifier::ext_equal]
pub struct StateView {
    pub tick: u64,
    pub board_size: u8,
    pub status: MatchStatus,
    pub winner: Option<Owner>,
    pub end_reason: Option<EndReason>,
    pub units: Map<UnitId, Unit>,
    pub next_unit_id: UnitId,
    pub walls: Set<Tile>,
}

impl View for GameState {
    type V = StateView;

    open spec fn view(&self) -> StateView {
        StateView {
            tick: self.tick,
            board_size: self.board_size,
            status: self.status,
            winner: self.winner,
            end_reason: self.end_reason,
            units: self.units@,
            next_unit_id: self.next_unit_id,
            walls: self.walls@.to_set(),
        }
    }
}

impl Clone for GameState {
    fn clone(&self) -> (r: Self)
        ensures
            r@ == self@,
            r.walls@ == self.walls@,
    {
        let walls = self.walls.clone();
        proof {
            assert(walls@ =~= self.walls@);
        }
        GameState {
            tick: self.tick,
            board_size: self.board_size,
            status: self.status,
            winner: self.winner,
            end_reason: self.end_reason,
            units: self.units.clone(),
            next_unit_id: self.next_unit_id,
            walls,
        }
    }
}

// ---------------------------------------------------------------------------
// Sides and tiles
// ---------------------------------------------------------------------------

impl Owner {
    pub open spec fn other(self) -> Owner {
        match self {
            Owner::White => Owner::Black,
            Owner::Black => Owner::White,
        }
    }

    pub fn opposite(self) -> (r: Owner)
        ensures
            r == self.other(),
    {
        match self {
            Owner::White => Owner::Black,
            Owner::Black => Owner::White,
        }
    }

    /// Name of the side as shown to people.
    pub fn name(self) -> (r: &'static str)
        ensures
            r@ == (match self {
                Owner::White => "white"@,
                Owner::Black => "black"@,
            }),
    {
        match self {
            Owner::White => "white",
            Owner::Black => "black",
        }
    }
}

impl From<ArtilleryType> for UnitKind {
    fn from(_t: ArtilleryType) -> (r: Self) {
        UnitKind::Artillery
    }
}

impl vstd::std_specs::convert::FromSpecImpl<ArtilleryType> for UnitKind {
    open spec fn obeys_from_spec() -> bool {
        true
    }

    open spec fn from_spec(_t: ArtilleryType) -> Self {
        UnitKind::Artillery
    }
}

pub open spec fn gap(a: int, b: int) -> int {
    if a <= b {
        b - a
    } else {
        a - b
    }
}

impl Tile {
    pub const ORTHO_DIRS: [(i32, i32); 4] = [(0, -1), (0, 1), (-1, 0), (1, 0)];

    pub const KING_DIRS: [(i32, i32); 8] = [
        (0, -1),
        (0, 1),
        (-1, 0),
        (1, 0),
        (-1, -1),
        (1, -1),
        (-1, 1),
        (1, 1),
    ];

    pub fn new(x: u8, y: u8) -> (r: Self)
        ensures
            r == (Tile { x, y }),
    {
        Tile { x, y }
    }

    /// Number of king moves between two tiles.
    pub open spec fn distance(self, other: Tile) -> int {
        let dx = gap(self.x as int, other.x as int);
        let dy = gap(self.y as int, other.y as int);
        if dx >= dy {
            dx
        } else {
            dy
        }
    }

    /// Chebyshev distance (king move distance).
    pub fn chebyshev(self, other: Tile) -> (d: u8)
        ensures
            d == self.distance(other),
    {
        let dx: u8 = if self.x <= other.x {
            other.x - self.x
        } else {
            self.x - other.x
        };
        let dy: u8 = if self.y <= other.y {
            other.y - self.y
        } else {
            self.y - other.y
        };
        if dx >= dy {
            dx
        } else {
            dy
        }
    }

    /// The tile at integer coordinates, where the grid plane has one.
    pub open spec fn at(x: int, y: int) -> Option<Tile> {
        if 0 <= x <= u8::MAX && 0 <= y <= u8::MAX {
            Some(Tile { x: x as u8, y: y as u8 })
        } else {
            None
        }
    }

    /// Checked tile translation; returns `None` outside the u8 grid plane.
    pub fn offset(self, dx: i32, dy: i32) -> (r: Option<Tile>)
        ensures
            r == Tile::at(self.x + dx, self.y + dy),
    {
        let x: i64 = self.x as i64 + dx as i64;
        let y: i64 = self.y as i64 + dy as i64;
        if x < 0 || y < 0 || x > 255 || y > 255 {
            None
        } else {
            Some(Tile::new(x as u8, y as u8))
        }
    }
}

impl Unit {
    /// A unit as it enters the board.
    pub open spec fn fresh(id: UnitId, kind: UnitKind, owner: Owner, pos: Tile, hp: i32) -> Unit {
        Unit {
            id,
            owner,
            kind,
            pos,
            hp,
            max_hp: hp,
            state: UnitState::Idle,
            pending_move: None,
            melee_target: None,
            attack_cooldown: 0,
            fire_cooldown: 0,
        }
    }

    pub fn is_alive(&self) -> (r: bool)
        ensures
            r == (self.hp > 0),
    {
        self.hp > 0
    }
}

// ---------------------------------------------------------------------------
// Board queries
// ---------------------------------------------------------------------------

/// Unit `id` stands on `tile`.
pub open spec fn stands_on(units: Map<UnitId, Unit>, id: UnitId, tile: Tile) -> bool {
    units.dom().contains(id) && units[id].pos == tile
}

/// `id` is the lowest key whose unit stands on `tile`.
pub open spec fn first_on(units: Map<UnitId, Unit>, id: UnitId, tile: Tile) -> bool {
    &&& stands_on(units, id, tile)
    &&& forall|o: UnitId| #[trigger] stands_on(units, o, tile) ==> id <= o
}

/// Key of the unit on `tile`; the lowest one where several stand there.
pub open spec fn occupant(units: Map<UnitId, Unit>, tile: Tile) -> Option<UnitId> {
    if exists|id: UnitId| stands_on(units, id, tile) {
        Some(choose|id: UnitId| first_on(units, id, tile))
    } else {
        None
    }
}

/// Units of one side.
pub open spec fn army(units: Map<UnitId, Unit>, owner: Owner) -> Set<UnitId> {
    units.dom().filter(|id: UnitId| units[id].owner == owner)
}

impl StateView {
    pub open spec fn inside(self, tile: Tile) -> bool {
        tile.x < self.board_size && tile.y < self.board_size
    }

    /// Inside the board and without a wall.
    pub open spec fn passable(self, tile: Tile) -> bool {
        self.inside(tile) && !self.walls.contains(tile)
    }

    pub open spec fn unit_at(self, tile: Tile) -> Option<UnitId> {
        match occupant(self.units, tile) {
            Some(key) => Some(self.units[key].id),
            None => None,
        }
    }

    pub open spec fn free(self, tile: Tile) -> bool {
        self.passable(tile) && self.unit_at(tile) is None
    }

    pub open spec fn owned_by(self, id: UnitId, owner: Owner) -> bool {
        self.units.dom().contains(id) && self.units[id].owner == owner
    }

    /// The tile `n` steps from `from` in direction `dir`.
    pub open spec fn ray(from: Tile, dir: (int, int), n: int) -> Option<Tile> {
        Tile::at(from.x + n * dir.0, from.y + n * dir.1)
    }

    /// Sight passes over the tile `n` steps away.
    pub open spec fn see_through(self, from: Tile, dir: (int, int), n: int) -> bool {
        match StateView::ray(from, dir, n) {
            Some(t) => self.free(t),
            None => false,
        }
    }

    /// Sight ends on a unit `n` steps away, within `range`.
    pub open spec fn sight_ends(self, from: Tile, dir: (int, int), range: u8, n: int) -> bool {
        &&& 1 <= n <= range
        &&& forall|m: int| 1 <= m < n ==> #[trigger] self.see_through(from, dir, m)
        &&& match StateView::ray(from, dir, n) {
            Some(t) => self.passable(t) && self.unit_at(t) is Some,
            None => false,
        }
    }

    /// The first unit in one direction, if it is not one of `owner`'s.
    pub open spec fn ray_target(
        self,
        from: Tile,
        dir: (int, int),
        range: u8,
        owner: Owner,
    ) -> Option<(UnitId, Tile)> {
        if exists|n: int| self.sight_ends(from, dir, range, n) {
            let n = choose|n: int| self.sight_ends(from, dir, range, n);
            let t = StateView::ray(from, dir, n)->0;
            let id = self.unit_at(t)->0;
            if self.owned_by(id, owner) {
                None
            } else {
                Some((id, t))
            }
        } else {
            None
        }
    }

    /// The target in the first of the four directions that has one: down,
    /// up, left, right.
    pub open spec fn scan(self, from: Tile, range: u8, owner: Owner) -> Option<(UnitId, Tile)> {
        let down = self.ray_target(from, (0, -1), range, owner);
        let up = self.ray_target(from, (0, 1), range, owner);
        let left = self.ray_target(from, (-1, 0), range, owner);
        let right = self.ray_target(from, (1, 0), range, owner);
        if down is Some {
            down
        } else if up is Some {
            up
        } else if left is Some {
            left
        } else {
            right
        }
    }
}

/// The lowest of the ids on a tile exists.
pub proof fn lemma_occupant(units: Map<UnitId, Unit>, id: UnitId, tile: Tile)
    requires
        stands_on(units, id, tile),
    ensures
        occupant(units, tile) is Some,
        first_on(units, occupant(units, tile)->0, tile),
    decreases id,
{
    if first_on(units, id, tile) {
    } else {
        let o = choose|o: UnitId| #[trigger] stands_on(units, o, tile) && !(id <= o);
        lemma_occupant(units, o, tile);
    }
}

proof fn lemma_ray_step(from: Tile, dir: (int, int), n: int, cursor: Tile)
    requires
        StateView::ray(from, dir, n) == Some(cursor),
    ensures
        StateView::ray(from, dir, n + 1) == Tile::at(cursor.x + dir.0, cursor.y + dir.1),
{
    assert((n + 1) * dir.0 == n * dir.0 + dir.0) by (nonlinear_arith);
    assert((n + 1) * dir.1 == n * dir.1 + dir.1) by (nonlinear_arith);
}

/// A ray that is clear up to a tile that sight cannot enter meets no unit.
proof fn lemma_no_sight_end(s: StateView, from: Tile, dir: (int, int), range: u8, d: int)
    requires
        1 <= d,
        forall|m: int| 1 <= m < d ==> #[trigger] s.see_through(from, dir, m),
        StateView::ray(from, dir, d) is None || !s.passable(StateView::ray(from, dir, d)->0),
    ensures
        !exists|n: int| s.sight_ends(from, dir, range, n),
{
    assert forall|n: int| !s.sight_ends(from, dir, range, n) by {
        if s.sight_ends(from, dir, range, n) {
            if n < d {
                assert(s.see_through(from, dir, n));
            } else if n > d {
                assert(s.see_through(from, dir, d));
            }
        }
    }
}

/// The tile on which sight ends is unique.
pub proof fn lemma_sight_end(s: StateView, from: Tile, dir: (int, int), range: u8, d: int)
    requires
        s.sight_ends(from, dir, range, d),
    ensures
        exists|n: int| s.sight_ends(from, dir, range, n),
        d == choose|n: int| s.sight_ends(from, dir, range, n),
{
    let n = choose|n: int| s.sight_ends(from, dir, range, n);
    if n < d {
        assert(s.see_through(from, dir, n));
    } else if d < n {
        assert(s.see_through(from, dir, d));
    }
}

/// A scan finds a unit that exists and is not one of `owner`'s.
pub proof fn lemma_scan_hits(s: StateView, from: Tile, range: u8, owner: Owner)
    requires
        s.keyed(),
    ensures
        s.scan(from, range, owner) matches Some(hit) ==> {
            &&& s.units.dom().contains(hit.0)
            &&& s.units[hit.0].pos == hit.1
            &&& s.units[hit.0].owner != owner
            &&& s.passable(hit.1)
        },
{
    lemma_ray_hits(s, from, (0, -1), range, owner);
    lemma_ray_hits(s, from, (0, 1), range, owner);
    lemma_ray_hits(s, from, (-1, 0), range, owner);
    lemma_ray_hits(s, from, (1, 0), range, owner);
}

proof fn lemma_ray_hits(s: StateView, from: Tile, dir: (int, int), range: u8, owner: Owner)
    requires
        s.keyed(),
    ensures
        s.ray_target(from, dir, range, owner) matches Some(hit) ==> {
            &&& s.units.dom().contains(hit.0)
            &&& s.units[hit.0].pos == hit.1
            &&& s.units[hit.0].owner != owner
            &&& s.passable(hit.1)
        },
{
    if s.ray_target(from, dir, range, owner) is Some {
        let n = choose|n: int| s.sight_ends(from, dir, range, n);
        let t = StateView::ray(from, dir, n)->0;
        let id = choose|id: UnitId| stands_on(s.units, id, t);
        lemma_occupant(s.units, id, t);
    }
}

impl GameState {
    /// Units are keyed by their own id, ids below `next_unit_id` only, and no
    /// wall is listed twice.
    pub open spec fn wf(&self) -> bool {
        self@.keyed() && self.walls@.no_duplicates()
    }

    pub fn is_inside(&self, tile: Tile) -> (r: bool)
        ensures
            r == self@.inside(tile),
    {
        tile.x < self.board_size && tile.y < self.board_size
    }

    /// A wall stands on the tile.
    pub fn has_wall(&self, tile: Tile) -> (r: bool)
        ensures
            r == self@.walls.contains(tile),
    {
        for i in 0..self.walls.len()
            invariant
                forall|j: int| 0 <= j < i ==> self.walls@[j] != tile,
        {
            if self.walls[i] == tile {
                assert(self.walls@.contains(tile));
                return true;
            }
        }
        false
    }

    /// Tile has no wall and no unit on it.
    pub fn is_free(&self, tile: Tile) -> (r: bool)
        ensures
            r == self@.free(tile),
    {
        self.is_inside(tile) && !self.has_wall(tile) && self.unit_at(tile).is_none()
    }

    pub fn unit_at(&self, tile: Tile) -> (r: Option<UnitId>)
        ensures
            r == self@.unit_at(tile),
    {
        let ids = unit_ids(&self.units);
        for i in 0..ids.len()
            invariant
                crate::roster::lists_ids(ids@, self.units@),
                forall|j: int| 0 <= j < i ==> self.units@[#[trigger] ids@[j]].pos != tile,
        {
            let id = ids[i];
            proof {
                assert(ids@.to_set().contains(id));
            }
            let u = find_unit(&self.units, id).unwrap();
            if u.pos == tile {
                proof {
                    assert forall|o: UnitId| stands_on(self.units@, o, tile) implies id <= o by {
                        assert(ids@.to_set().contains(o));
                        let j = choose|j: int| 0 <= j < ids@.len() && ids@[j] == o;
                    }
                    assert(stands_on(self.units@, id, tile));
                    assert(first_on(self.units@, id, tile));
                    lemma_occupant(self.units@, id, tile);
                }
                return Some(u.id);
            }
        }
        proof {
            assert forall|o: UnitId| !stands_on(self.units@, o, tile) by {
                if stands_on(self.units@, o, tile) {
                    assert(ids@.to_set().contains(o));
                    let j = choose|j: int| 0 <= j < ids@.len() && ids@[j] == o;
                    assert(self.units@[ids@[j]].pos != tile);
                }
            }
        }
        None
    }

    /// First unit hit when scanning orthogonally from `from` up to `range`
    /// tiles. Walls and any unit block line of sight. Only enemy units are
    /// returned; a friendly blocker simply stops that direction's scan.
    pub fn scan_orthogonal_target(&self, from: Tile, range: u8, owner: Owner) -> (r: Option<
        (UnitId, Tile),
    >)
        ensures
            r == self@.scan(from, range, owner),
    {
        let down = self.scan_ray(from, 0, -1, range, owner);
        if down.is_some() {
            return down;
        }
        let up = self.scan_ray(from, 0, 1, range, owner);
        if up.is_some() {
            return up;
        }
        let left = self.scan_ray(from, -1, 0, range, owner);
        if left.is_some() {
            return left;
        }
        self.scan_ray(from, 1, 0, range, owner)
    }

    fn scan_ray(&self, from: Tile, dx: i32, dy: i32, range: u8, owner: Owner) -> (r: Option<
        (UnitId, Tile),
    >)
        ensures
            r == self@.ray_target(from, (dx as int, dy as int), range, owner),
    {
        let ghost s = self@;
        let ghost dir = (dx as int, dy as int);
        let mut dist: u16 = 1;
        let mut cursor = from;
        while dist <= range as u16
            invariant
                1 <= dist <= range + 1,
                s == self@,
                dir == (dx as int, dy as int),
                StateView::ray(from, dir, dist - 1) == Some(cursor),
                forall|m: int| 1 <= m < dist ==> #[trigger] s.see_through(from, dir, m),
            decreases range + 1 - dist,
        {
            proof {
                lemma_ray_step(from, dir, dist - 1, cursor);
            }
            let next = match cursor.offset(dx, dy) {
                Some(t) => t,
                None => {
                    proof {
                        lemma_no_sight_end(s, from, dir, range, dist as int);
                    }
                    return None;
                },
            };
            if !self.is_inside(next) || self.has_wall(next) {
                proof {
                    lemma_no_sight_end(s, from, dir, range, dist as int);
                }
                return None;
            }
            if let Some(id) = self.unit_at(next) {
                proof {
                    lemma_sight_end(s, from, dir, range, dist as int);
                }
                let friendly = match find_unit(&self.units, id) {
                    Some(u) => u.owner == owner,
                    None => false,
                };
                if !friendly {
                    return Some((id, next));
                }
                return None;
            }
            cursor = next;
            dist = dist + 1;
        }
        proof {
            assert(!exists|n: int| s.sight_ends(from, dir, range, n)) by {
                assert forall|n: int| !s.sight_ends(from, dir, range, n) by {
                    if s.sight_ends(from, dir, range, n) {
                        assert(s.see_through(from, dir, n));
                    }
                }
            }
        }
        None
    }

    pub fn alive_count(&self, owner: Owner) -> (r: usize)
        ensures
            r == army(self@.units, owner).len(),
    {
        let ids = unit_ids(&self.units);
        let mut n: usize = 0;
        let ghost mut counted: Set<UnitId> = Set::empty();
        for i in 0..ids.len()
            invariant
                crate::roster::lists_ids(ids@, self.units@),
                n <= i,
                counted.finite(),
                counted.len() == n,
                forall|x: UnitId| #[trigger]
                    counted.contains(x) <==> exists|j: int|
                        0 <= j < i && #[trigger] ids@[j] == x && self.units@[x].owner == owner,
        {
            let id = ids[i];
            proof {
                assert(ids@.to_set().contains(id));
            }
            let u = find_unit(&self.units, id).unwrap();
            if u.owner == owner {
                n = n + 1;
                proof {
                    counted = counted.insert(id);
                }
            }
        }
        proof {
            assert forall|x: UnitId| counted.contains(x) <==> army(self@.units, owner).contains(
                x,
            ) by {
                assert(ids@.to_set().contains(x) <==> self.units@.dom().contains(x));
            }
            assert(counted =~= army(self@.units, owner));
        }
        n
    }
}

// ---------------------------------------------------------------------------
// Deployment
// ---------------------------------------------------------------------------

impl StateView {
    /// The rank on which a side's row of pawns at `depth` stands.
    pub open spec fn start_rank(board: BoardConfig, owner: Owner, depth: int) -> int {
        match owner {
            Owner::White => 1 + depth,
            Owner::Black => if board.size >= 2 + depth {
                board.size - 2 - depth
            } else {
                0
            },
        }
    }

    /// The pawn that gets `id` at deployment. Ids run row by row and file by
    /// file, white before black on each file.
    pub open spec fn start_pawn(board: BoardConfig, hp: i32, id: UnitId) -> Unit {
        let file = ((id - 1) / 2) % (board.size as int);
        let depth = ((id - 1) / 2) / (board.size as int);
        let owner = if (id - 1) % 2 == 0 {
            Owner::White
        } else {
            Owner::Black
        };
        let rank = StateView::start_rank(board, owner, depth);
        Unit::fresh(id, UnitKind::Pawn, owner, Tile { x: file as u8, y: rank as u8 }, hp)
    }

    /// The pawns of both sides on the first `cells` starting tiles.
    pub open spec fn start_pawns(board: BoardConfig, hp: i32, cells: int) -> Map<UnitId, Unit> {
        Map::new(
            |id: UnitId| 1 <= id <= 2 * cells,
            |id: UnitId| StateView::start_pawn(board, hp, id),
        )
    }

    /// A lobby with every starting pawn in place.
    pub open spec fn lobby(board: BoardConfig, hp: i32) -> StateView {
        StateView {
            tick: 0,
            board_size: board.size,
            status: MatchStatus::Lobby,
            winner: None,
            end_reason: None,
            units: StateView::start_pawns(board, hp, board.size * board.pawn_row_depth),
            next_unit_id: (1 + 2 * (board.size * board.pawn_row_depth)) as UnitId,
            walls: Set::empty(),
        }
    }

    /// The state once a unit has entered the board.
    pub open spec fn spawned(self, kind: UnitKind, owner: Owner, pos: Tile, hp: i32) -> StateView {
        let id = self.next_unit_id;
        StateView {
            units: self.units.insert(id, Unit::fresh(id, kind, owner, pos, hp)),
            next_unit_id: (id + 1) as UnitId,
            ..self
        }
    }

    /// Units are keyed by their own id and every id is below `next_unit_id`.
    pub open spec fn keyed(self) -> bool {
        forall|id: UnitId| #[trigger]
            self.units.dom().contains(id) ==> self.units[id].id == id && id < self.next_unit_id
    }
}

/// Placing both pawns of the next starting tile extends the deployment by one.
proof fn lemma_next_cell(board: BoardConfig, hp: i32, depth: int, x: int)
    requires
        0 <= x < board.size,
        0 <= depth < board.pawn_row_depth <= 254,
    ensures
        ({
            let c = depth * board.size + x;
            let white = (1 + 2 * c) as UnitId;
            let black = (2 + 2 * c) as UnitId;
            &&& 0 <= c < 255 * 254
            &&& StateView::start_pawns(board, hp, c + 1) == StateView::start_pawns(
                board,
                hp,
                c,
            ).insert(
                white,
                Unit::fresh(
                    white,
                    UnitKind::Pawn,
                    Owner::White,
                    Tile {
                        x: x as u8,
                        y: StateView::start_rank(board, Owner::White, depth) as u8,
                    },
                    hp,
                ),
            ).insert(
                black,
                Unit::fresh(
                    black,
                    UnitKind::Pawn,
                    Owner::Black,
                    Tile {
                        x: x as u8,
                        y: StateView::start_rank(board, Owner::Black, depth) as u8,
                    },
                    hp,
                ),
            )
        }),
{
    let size = board.size as int;
    let c = depth * size + x;
    assert(0 <= c < 255 * 254) by (nonlinear_arith)
        requires
            c == depth * size + x,
            0 <= x < size,
            size <= 255,
            0 <= depth <= 253,
    ;
    vstd::arithmetic::div_mod::lemma_fundamental_div_mod_converse(c, size, depth, x);
    let white = (1 + 2 * c) as UnitId;
    let black = (2 + 2 * c) as UnitId;
    assert((white - 1) / 2 == c && (white - 1) % 2 == 0);
    assert((black - 1) / 2 == c && (black - 1) % 2 == 1);
    assert(StateView::start_pawns(board, hp, c + 1) =~= StateView::start_pawns(
        board,
        hp,
        c,
    ).insert(white, StateView::start_pawn(board, hp, white)).insert(
        black,
        StateView::start_pawn(board, hp, black),
    ));
}

impl GameState {
    /// Build a fresh lobby state and deploy starting pawns.
    pub fn new(board: &BoardConfig, unit_hp: i32) -> (r: Self)
        requires
            board.pawn_row_depth <= 254,
        ensures
            r.wf(),
            r@ == StateView::lobby(*board, unit_hp),
    {
        let mut state = GameState {
            tick: 0,
            board_size: board.size,
            status: MatchStatus::Lobby,
            winner: None,
            end_reason: None,
            units: BTreeMap::new(),
            next_unit_id: 1,
            walls: Vec::new(),
        };
        proof {
            assert(state.units@ =~= StateView::start_pawns(*board, unit_hp, 0));
            assert(state.walls@.to_set() =~= Set::<Tile>::empty());
        }
        state.deploy_pawns(board, unit_hp);
        state
    }

    /// Deploy `pawn_row_depth` rows of pawns per side, chess-style:
    /// white on ranks `1 + d`, black on rank `size - 2 - d`.
    fn deploy_pawns(&mut self, board: &BoardConfig, unit_hp: i32)
        requires
            board.pawn_row_depth <= 254,
            old(self)@ == (StateView {
                units: StateView::start_pawns(*board, unit_hp, 0),
                next_unit_id: 1,
                ..StateView::lobby(*board, unit_hp)
            }),
            old(self).walls@.no_duplicates(),
        ensures
            final(self).wf(),
            final(self)@ == StateView::lobby(*board, unit_hp),
    {
        let size = board.size;
        let ghost start = self@;
        proof {
            assert(0 * (size as int) == 0) by (nonlinear_arith);
        }
        for depth in 0..board.pawn_row_depth
            invariant
                size == board.size,
                board.pawn_row_depth <= 254,
                self.walls == old(self).walls,
                0 <= depth * size <= 255 * 254,
                self@ == (StateView {
                    units: StateView::start_pawns(*board, unit_hp, depth * size),
                    next_unit_id: (1 + 2 * (depth * size)) as UnitId,
                    ..start
                }),
        {
            let white_y: u8 = 1 + depth;
            let black_y: u8 = size.saturating_sub(2 + depth);
            for x in 0..size
                invariant
                    size == board.size,
                    0 <= depth < board.pawn_row_depth <= 254,
                    white_y == StateView::start_rank(*board, Owner::White, depth as int),
                    black_y == StateView::start_rank(*board, Owner::Black, depth as int),
                    self.walls == old(self).walls,
                    0 <= depth * size,
                    depth * size + x <= 255 * 254,
                    self@ == (StateView {
                        units: StateView::start_pawns(*board, unit_hp, depth * size + x),
                        next_unit_id: (1 + 2 * (depth * size + x)) as UnitId,
                        ..start
                    }),
            {
                proof {
                    lemma_next_cell(*board, unit_hp, depth as int, x as int);
                }
                self.spawn_unit(UnitKind::Pawn, Owner::White, Tile::new(x, white_y), unit_hp);
                self.spawn_unit(UnitKind::Pawn, Owner::Black, Tile::new(x, black_y), unit_hp);
            }
            proof {
                assert((depth + 1) * size == depth * size + size) by (nonlinear_arith);
            }
        }
        proof {
            assert(board.pawn_row_depth * size == size * board.pawn_row_depth)
                by (nonlinear_arith);
        }
    }

    /// Adds a unit under the next id.
    pub fn spawn_unit(&mut self, kind: UnitKind, owner: Owner, pos: Tile, hp: i32) -> (id: UnitId)
        requires
            old(self).next_unit_id < UnitId::MAX,
        ensures
            id == old(self).next_unit_id,
            final(self)@ == old(self)@.spawned(kind, owner, pos, hp),
            final(self).walls == old(self).walls,
            old(self).wf() ==> final(self).wf(),
    {
        let id = self.next_unit_id;
        self.next_unit_id = id + 1;
        put_unit(
            &mut self.units,
            id,
            Unit {
                id,
                owner,
                kind,
                pos,
                hp,
                max_hp: hp,
                state: UnitState::Idle,
                pending_move: None,
                melee_target: None,
                attack_cooldown: 0,
                fire_cooldown: 0,
            },
        );
        id
    }
}

} // verus!
