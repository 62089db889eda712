//! What holds of the board: distances, lines of sight and the deployment.

use crate::config::BoardConfig;
use crate::game_state::{
    MatchStatus, Owner, StateView, Tile, Unit, UnitId, UnitKind, UnitState,
};
use vstd::prelude::*;

verus! {

// ---------------------------------------------------------------------------
// Sides and distances
// ---------------------------------------------------------------------------

/// The opposite of a side is another side, whose opposite is the first again.
pub proof fn law_opposite(o: Owner)
    ensures
        o.other() != o,
        o.other().other() == o,
{
}

/// The number of king moves between tiles is a distance: zero for the same tile
/// only, the same both ways, and no longer than any detour.
pub proof fn law_distance(a: Tile, b: Tile, c: Tile)
    ensures
        a.distance(b) == 0 <==> a == b,
        a.distance(b) == b.distance(a),
        a.distance(c) <= a.distance(b) + b.distance(c),
        0 <= a.distance(b) <= 255,
{
}

/// The king directions lead to the neighbours of a tile and to no other: the
/// tiles at distance one.
pub proof fn law_king_directions(a: Tile, b: Tile)
    ensures
        a.distance(b) == 1 <==> exists|i: int|
            0 <= i < 8 && #[trigger] Tile::at(
                a.x + Tile::KING_DIRS[i].0,
                a.y + Tile::KING_DIRS[i].1,
            ) == Some(b),
{
    let d = Tile::KING_DIRS;
    if a.distance(b) == 1 {
        let i: int = if b.x == a.x && b.y < a.y {
            0
        } else if b.x == a.x {
            1
        } else if b.y == a.y && b.x < a.x {
            2
        } else if b.y == a.y {
            3
        } else if b.x < a.x && b.y < a.y {
            4
        } else if b.y < a.y {
            5
        } else if b.x < a.x {
            6
        } else {
            7
        };
        assert(Tile::at(a.x + d[i].0, a.y + d[i].1) == Some(b));
    }
}

// ---------------------------------------------------------------------------
// Lines of sight
// ---------------------------------------------------------------------------

/// `dir` is one of the four directions that artillery fires in.
pub open spec fn is_ortho(dir: (int, int)) -> bool {
    dir == (0int, -1int) || dir == (0int, 1int) || dir == (-1int, 0int) || dir == (1int, 0int)
}

/// `id`, on `tile`, is an enemy of `owner` in a straight line from `from`: `n`
/// steps away in direction `dir`, within `range`, with nothing in between.
pub open spec fn exposed(
    s: StateView,
    from: Tile,
    range: u8,
    owner: Owner,
    id: UnitId,
    tile: Tile,
    dir: (int, int),
    n: int,
) -> bool {
    &&& is_ortho(dir)
    &&& 1 <= n <= range
    &&& StateView::ray(from, dir, n) == Some(tile)
    &&& s.passable(tile)
    &&& s.unit_at(tile) == Some(id)
    &&& !s.owned_by(id, owner)
    &&& forall|m: int| 1 <= m < n ==> #[trigger] s.see_through(from, dir, m)
}

proof fn lemma_ray_target(s: StateView, from: Tile, dir: (int, int), range: u8, owner: Owner)
    requires
        is_ortho(dir),
    ensures
        s.ray_target(from, dir, range, owner) matches Some(hit) ==> exists|n: int|
            exposed(s, from, range, owner, hit.0, hit.1, dir, n),
        s.ray_target(from, dir, range, owner) is None ==> forall|id: UnitId, tile: Tile, n: int|
            !exposed(s, from, range, owner, id, tile, dir, n),
{
    if s.ray_target(from, dir, range, owner) is Some {
        let n = choose|n: int| s.sight_ends(from, dir, range, n);
        let hit = s.ray_target(from, dir, range, owner)->0;
        assert(exposed(s, from, range, owner, hit.0, hit.1, dir, n));
    } else {
        assert forall|id: UnitId, tile: Tile, n: int|
            !exposed(s, from, range, owner, id, tile, dir, n) by {
            if exposed(s, from, range, owner, id, tile, dir, n) {
                assert(s.sight_ends(from, dir, range, n));
                crate::game_state::lemma_sight_end(s, from, dir, range, n);
            }
        }
    }
}

/// Artillery hits what it sees: a scan finds a target if and only if an enemy
/// stands in a straight line within range with neither wall nor unit in
/// between, and the target it finds is such an enemy.
pub proof fn law_line_of_sight(s: StateView, from: Tile, range: u8, owner: Owner)
    ensures
        s.scan(from, range, owner) is Some <==> exists|
            id: UnitId,
            tile: Tile,
            dir: (int, int),
            n: int,
        |
            exposed(s, from, range, owner, id, tile, dir, n),
        s.scan(from, range, owner) matches Some(hit) ==> exists|dir: (int, int), n: int|
            exposed(s, from, range, owner, hit.0, hit.1, dir, n),
{
    lemma_ray_target(s, from, (0, -1), range, owner);
    lemma_ray_target(s, from, (0, 1), range, owner);
    lemma_ray_target(s, from, (-1, 0), range, owner);
    lemma_ray_target(s, from, (1, 0), range, owner);
    if s.scan(from, range, owner) is Some {
        let hit = s.scan(from, range, owner)->0;
        let dir: (int, int) = if s.ray_target(from, (0, -1), range, owner) is Some {
            (0int, -1int)
        } else if s.ray_target(from, (0, 1), range, owner) is Some {
            (0int, 1int)
        } else if s.ray_target(from, (-1, 0), range, owner) is Some {
            (-1int, 0int)
        } else {
            (1int, 0int)
        };
        assert(s.ray_target(from, dir, range, owner) == Some(hit));
        let n = choose|n: int| exposed(s, from, range, owner, hit.0, hit.1, dir, n);
        assert(exposed(s, from, range, owner, hit.0, hit.1, dir, n));
    }
}

/// The same figures stand on the same tiles of the same board.
pub open spec fn same_figures(s: StateView, t: StateView) -> bool {
    &&& t.board_size == s.board_size
    &&& t.walls == s.walls
    &&& t.units.dom() == s.units.dom()
    &&& forall|id: UnitId| #[trigger]
        s.units.dom().contains(id) ==> t.units[id].pos == s.units[id].pos && t.units[id].id
            == s.units[id].id && t.units[id].owner == s.units[id].owner
}

proof fn lemma_same_unit_at(s: StateView, t: StateView, tile: Tile)
    requires
        same_figures(s, t),
    ensures
        t.unit_at(tile) == s.unit_at(tile),
{
    if exists|id: UnitId| crate::game_state::stands_on(s.units, id, tile) {
        let id = choose|id: UnitId| crate::game_state::stands_on(s.units, id, tile);
        assert(crate::game_state::stands_on(t.units, id, tile));
        crate::game_state::lemma_occupant(s.units, id, tile);
        crate::game_state::lemma_occupant(t.units, id, tile);
        let a = crate::game_state::occupant(s.units, tile)->0;
        let b = crate::game_state::occupant(t.units, tile)->0;
        assert(crate::game_state::stands_on(t.units, a, tile));
        assert(crate::game_state::stands_on(s.units, b, tile));
        assert(a == b);
    } else {
        assert forall|id: UnitId| !crate::game_state::stands_on(t.units, id, tile) by {
            if crate::game_state::stands_on(t.units, id, tile) {
                assert(crate::game_state::stands_on(s.units, id, tile));
            }
        }
    }
}

proof fn lemma_same_ray(
    s: StateView,
    t: StateView,
    from: Tile,
    dir: (int, int),
    range: u8,
    owner: Owner,
)
    requires
        same_figures(s, t),
    ensures
        t.ray_target(from, dir, range, owner) == s.ray_target(from, dir, range, owner),
{
    assert forall|tile: Tile| #[trigger] t.unit_at(tile) == s.unit_at(tile) by {
        lemma_same_unit_at(s, t, tile);
    }
    assert forall|n: int| #[trigger]
        t.see_through(from, dir, n) == s.see_through(from, dir, n) by {}
    assert forall|n: int| #[trigger]
        t.sight_ends(from, dir, range, n) == s.sight_ends(from, dir, range, n) by {
        if s.sight_ends(from, dir, range, n) {
            assert forall|m: int| 1 <= m < n implies #[trigger] t.see_through(from, dir, m) by {
                assert(s.see_through(from, dir, m));
            }
        }
        if t.sight_ends(from, dir, range, n) {
            assert forall|m: int| 1 <= m < n implies #[trigger] s.see_through(from, dir, m) by {
                assert(t.see_through(from, dir, m));
            }
        }
    }
    if exists|n: int| s.sight_ends(from, dir, range, n) {
        let n = choose|n: int| s.sight_ends(from, dir, range, n);
        assert(t.sight_ends(from, dir, range, n));
        crate::game_state::lemma_sight_end(s, from, dir, range, n);
        crate::game_state::lemma_sight_end(t, from, dir, range, n);
    }
}

/// What a scan finds depends on who stands where, and on nothing else.
pub proof fn law_sight_depends_on_figures(
    s: StateView,
    t: StateView,
    from: Tile,
    range: u8,
    owner: Owner,
)
    requires
        same_figures(s, t),
    ensures
        t.scan(from, range, owner) == s.scan(from, range, owner),
{
    lemma_same_ray(s, t, from, (0, -1), range, owner);
    lemma_same_ray(s, t, from, (0, 1), range, owner);
    lemma_same_ray(s, t, from, (-1, 0), range, owner);
    lemma_same_ray(s, t, from, (1, 0), range, owner);
}

// ---------------------------------------------------------------------------
// Deployment
// ---------------------------------------------------------------------------

pub proof fn lemma_cell(board: BoardConfig, id: UnitId)
    requires
        board.size > 0,
        1 <= id <= 2 * (board.size * board.pawn_row_depth),
    ensures
        ({
            let cell = (id - 1) / 2;
            let size = board.size as int;
            &&& 0 <= cell % size < size
            &&& 0 <= cell / size < board.pawn_row_depth
            &&& cell == size * (cell / size) + cell % size
        }),
{
    let cell = (id - 1) / 2;
    let size = board.size as int;
    let depth = board.pawn_row_depth as int;
    vstd::arithmetic::div_mod::lemma_fundamental_div_mod(cell, size);
    vstd::arithmetic::div_mod::lemma_mod_bound(cell, size);
    let q = cell / size;
    let r = cell % size;
    assert(0 <= cell < size * depth);
    assert(0 <= q) by (nonlinear_arith)
        requires
            0 <= cell,
            0 < size,
            q == cell / size,
    ;
    assert(q < depth) by (nonlinear_arith)
        requires
            cell == size * q + r,
            0 <= r,
            0 < size,
            cell < size * depth,
    ;
}

/// The pawns of a fresh match: white's on the ranks right before its back rank,
/// black's likewise, all inside the board, healthy and idle.
pub proof fn law_deployment_ranks(board: BoardConfig, hp: i32, id: UnitId)
    requires
        board.pawn_row_depth * 2 < board.size,
        StateView::lobby(board, hp).units.dom().contains(id),
    ensures
        ({
            let s = StateView::lobby(board, hp);
            let u = s.units[id];
            &&& u == Unit::fresh(id, UnitKind::Pawn, u.owner, u.pos, hp)
            &&& s.inside(u.pos)
            &&& s.passable(u.pos)
            &&& match u.owner {
                Owner::White => 1 <= u.pos.y <= board.pawn_row_depth,
                Owner::Black => board.size - 1 - board.pawn_row_depth <= u.pos.y <= board.size - 2,
            }
        }),
{
    lemma_cell(board, id);
}

/// Where each side keeps an empty row, no two pawns of a fresh match share a
/// tile.
pub proof fn law_deployment_is_spread(board: BoardConfig, hp: i32)
    requires
        board.pawn_row_depth * 2 + 2 <= board.size,
    ensures
        crate::progress::one_per_tile(StateView::lobby(board, hp).units),
{
    let units = StateView::lobby(board, hp).units;
    assert forall|a: UnitId, b: UnitId|
        #![trigger units.dom().contains(a), units.dom().contains(b)]
        units.dom().contains(a) && units.dom().contains(b) && a != b implies units[a].pos
            != units[b].pos by {
        lemma_cell(board, a);
        lemma_cell(board, b);
        if units[a].pos == units[b].pos {
            let size = board.size as int;
            let ca = (a - 1) / 2;
            let cb = (b - 1) / 2;
            assert(units[a].pos.x == ca % size && units[b].pos.x == cb % size);
            if units[a].owner == units[b].owner {
                assert(ca / size == cb / size);
                assert(ca == cb);
            } else {
                law_deployment_ranks(board, hp, a);
                law_deployment_ranks(board, hp, b);
            }
        }
    }
}

proof fn lemma_army_sizes(board: BoardConfig, hp: i32, cells: int)
    requires
        0 <= cells <= 255 * 254,
    ensures
        ({
            let units = StateView::start_pawns(board, hp, cells);
            let white = crate::game_state::army(units, Owner::White);
            let black = crate::game_state::army(units, Owner::Black);
            &&& white.finite() && white.len() == cells
            &&& black.finite() && black.len() == cells
        }),
    decreases cells,
{
    let units = StateView::start_pawns(board, hp, cells);
    let white = crate::game_state::army(units, Owner::White);
    let black = crate::game_state::army(units, Owner::Black);
    if cells == 0 {
        assert(white =~= Set::empty());
        assert(black =~= Set::empty());
    } else {
        lemma_army_sizes(board, hp, cells - 1);
        let fewer = StateView::start_pawns(board, hp, cells - 1);
        let w = (2 * cells - 1) as UnitId;
        let b = (2 * cells) as UnitId;
        assert((w - 1) % 2 == 0 && (b - 1) % 2 == 1);
        assert(white =~= crate::game_state::army(fewer, Owner::White).insert(w));
        assert(black =~= crate::game_state::army(fewer, Owner::Black).insert(b));
    }
}

/// Both sides start with one pawn for each file of each of their rows.
pub proof fn law_deployment_is_even(board: BoardConfig, hp: i32, owner: Owner)
    requires
        board.pawn_row_depth <= 254,
    ensures
        crate::game_state::army(StateView::lobby(board, hp).units, owner).len() == board.size
            * board.pawn_row_depth,
{
    let cells = board.size * board.pawn_row_depth;
    assert(0 <= cells <= 255 * 254) by (nonlinear_arith)
        requires
            cells == board.size * board.pawn_row_depth,
            board.size <= 255,
            board.pawn_row_depth <= 254,
    ;
    lemma_army_sizes(board, hp, cells);
}

/// A fresh match has everything in order: units keyed by their ids, consistent
/// records, nobody in a fight, every unit on the board.
pub proof fn law_deployment_is_sound(board: BoardConfig, hp: i32)
    requires
        board.pawn_row_depth * 2 < board.size,
    ensures
        ({
            let s = StateView::lobby(board, hp);
            &&& s.keyed()
            &&& s.status == MatchStatus::Lobby
            &&& crate::laws_tick::all_sound(s.units)
            &&& crate::laws_tick::paired(s.units)
            &&& crate::laws_tick::on_the_board(s)
        }),
{
    let s = StateView::lobby(board, hp);
    let cells = board.size * board.pawn_row_depth;
    assert(0 <= cells <= 255 * 254) by (nonlinear_arith)
        requires
            cells == board.size * board.pawn_row_depth,
            board.size <= 255,
            board.pawn_row_depth <= 254,
    ;
    assert forall|id: UnitId| #[trigger] s.units.dom().contains(id) implies {
        &&& s.units[id].id == id
        &&& id < s.next_unit_id
        &&& crate::laws_tick::sound(s.units[id])
        &&& s.units[id].state != UnitState::Locked
        &&& s.passable(s.units[id].pos)
    } by {
        law_deployment_ranks(board, hp, id);
    }
}

} // verus!
