//! What the questions about tiles, units and sides are answered with.

use crate::config::{BoardConfig, SimulationConfig};
use crate::game_state::{
    MatchStatus, Owner, StateView, Tile, Unit, UnitId, UnitKind, UnitState,
};
use crate::network::ClientMessage;
use crate::rules::World;
use vstd::prelude::*;

verus! {

// ---------------------------------------------------------------------------
// Tiles
// ---------------------------------------------------------------------------

/// Two tiles are within `n` king moves if and only if neither their files nor
/// their ranks lie more than `n` apart.
pub proof fn law_distance_is_the_longer_gap(a: Tile, b: Tile, n: int)
    ensures
        a.distance(b) <= n <==> a.x - b.x <= n && b.x - a.x <= n && a.y - b.y <= n && b.y - a.y
            <= n,
{
}

/// A place in the plane is a tile if and only if both coordinates fit in eight
/// bits; the tile then has these coordinates.
pub proof fn law_places_are_tiles(x: int, y: int)
    ensures
        Tile::at(x, y) is Some <==> 0 <= x < 256 && 0 <= y < 256,
        Tile::at(x, y) matches Some(t) ==> t.x == x && t.y == y,
{
}

/// The four straight directions lead to the neighbours that share a file or a
/// rank, to all of them and to no other tile.
pub proof fn law_straight_directions(a: Tile, b: Tile)
    ensures
        (a.x == b.x && (a.y == b.y + 1 || b.y == a.y + 1) || a.y == b.y && (a.x == b.x + 1 || b.x
            == a.x + 1)) <==> exists|i: int|
            0 <= i < 4 && a.x + (#[trigger] Tile::ORTHO_DIRS[i]).0 == b.x && a.y
                + Tile::ORTHO_DIRS[i].1 == b.y,
{
    let d = Tile::ORTHO_DIRS;
    assert(d[0] == (0i32, -1i32) && d[1] == (0i32, 1i32) && d[2] == (-1i32, 0i32) && d[3] == (
        1i32,
        0i32,
    ));
}

/// The board is the square of its size. A tile is passable where the board has
/// it and no wall stands on it, and free where moreover no unit does.
pub proof fn law_board_tiles(s: StateView, t: Tile)
    ensures
        s.inside(t) <==> t.x < s.board_size && t.y < s.board_size,
        s.passable(t) <==> t.x < s.board_size && t.y < s.board_size && !s.walls.contains(t),
        s.free(t) <==> t.x < s.board_size && t.y < s.board_size && !s.walls.contains(t) && forall|
            id: UnitId,
        | #[trigger]
            s.units.dom().contains(id) ==> s.units[id].pos != t,
{
    law_unit_on_a_tile(s, t);
}

/// A tile has a unit if and only if some unit's position is that tile. The one
/// reported is there; where several are, it is the one under the lowest key.
pub proof fn law_unit_on_a_tile(s: StateView, t: Tile)
    ensures
        s.unit_at(t) is Some <==> exists|id: UnitId| #[trigger]
            s.units.dom().contains(id) && s.units[id].pos == t,
        s.unit_at(t) matches Some(found) ==> exists|key: UnitId| #[trigger]
            s.units.dom().contains(key) && s.units[key].pos == t && s.units[key].id == found && (
            forall|o: UnitId| #[trigger]
                s.units.dom().contains(o) && s.units[o].pos == t ==> key <= o),
{
    if exists|id: UnitId| #[trigger] s.units.dom().contains(id) && s.units[id].pos == t {
        let id = choose|id: UnitId| #[trigger]
            s.units.dom().contains(id) && s.units[id].pos == t;
        assert(crate::game_state::stands_on(s.units, id, t));
        crate::game_state::lemma_occupant(s.units, id, t);
        let key = crate::game_state::occupant(s.units, t)->0;
        assert(s.units.dom().contains(key));
        assert forall|o: UnitId| #[trigger]
            s.units.dom().contains(o) && s.units[o].pos == t implies key <= o by {
            assert(crate::game_state::stands_on(s.units, o, t));
        }
    } else {
        assert forall|id: UnitId| !crate::game_state::stands_on(s.units, id, t) by {
            assert(s.units.dom().contains(id) ==> s.units[id].pos != t);
        }
    }
}

/// A unit belongs to a side if it is on the board and the side is its owner.
pub proof fn law_ownership(s: StateView, id: UnitId, owner: Owner)
    ensures
        s.owned_by(id, owner) <==> s.units.dom().contains(id) && s.units[id].owner == owner,
{
}

// ---------------------------------------------------------------------------
// Lines of sight
// ---------------------------------------------------------------------------

/// The directions that artillery looks in, in the order in which it looks.
pub open spec fn heading(k: int) -> (int, int) {
    if k == 0 {
        (0int, -1int)
    } else if k == 1 {
        (0int, 1int)
    } else if k == 2 {
        (-1int, 0int)
    } else {
        (1int, 0int)
    }
}

/// A unit stands at this place.
pub open spec fn is_at(s: StateView, id: UnitId, x: int, y: int) -> bool {
    s.units.dom().contains(id) && s.units[id].pos.x == x && s.units[id].pos.y == y
}

/// The board has this place and no wall stands there.
pub open spec fn unwalled(s: StateView, x: int, y: int) -> bool {
    &&& 0 <= x < s.board_size
    &&& 0 <= y < s.board_size
    &&& forall|t: Tile| #[trigger] s.walls.contains(t) ==> t.x != x || t.y != y
}

/// Sight passes over this place: neither wall nor unit is there, and the board
/// goes on.
pub open spec fn is_open(s: StateView, x: int, y: int) -> bool {
    unwalled(s, x, y) && forall|id: UnitId| !#[trigger] is_at(s, id, x, y)
}

/// The first unit that one meets from `from` in a direction is `id`, `n` steps
/// away, within `range` and behind no wall.
pub open spec fn meets(
    s: StateView,
    from: Tile,
    dir: (int, int),
    range: u8,
    id: UnitId,
    n: int,
) -> bool {
    &&& 1 <= n <= range
    &&& forall|m: int|
        1 <= m < n ==> #[trigger] is_open(s, from.x + m * dir.0, from.y + m * dir.1)
    &&& unwalled(s, from.x + n * dir.0, from.y + n * dir.1)
    &&& is_at(s, id, from.x + n * dir.0, from.y + n * dir.1)
    &&& forall|o: UnitId| #[trigger]
        is_at(s, o, from.x + n * dir.0, from.y + n * dir.1) ==> id <= o
}

/// The first unit met in a direction is an enemy.
pub open spec fn meets_enemy(
    s: StateView,
    from: Tile,
    dir: (int, int),
    range: u8,
    owner: Owner,
    id: UnitId,
    n: int,
) -> bool {
    meets(s, from, dir, range, id, n) && s.units[id].owner != owner
}

proof fn lemma_open(s: StateView, from: Tile, dir: (int, int), n: int)
    ensures
        s.see_through(from, dir, n) <==> is_open(s, from.x + n * dir.0, from.y + n * dir.1),
        ({
            let t = StateView::ray(from, dir, n);
            t is Some && s.passable(t->0) <==> unwalled(s, from.x + n * dir.0, from.y + n * dir.1)
        }),
{
    let x = from.x + n * dir.0;
    let y = from.y + n * dir.1;
    if let Some(t) = StateView::ray(from, dir, n) {
        assert(t.x == x && t.y == y);
        law_unit_on_a_tile(s, t);
        assert forall|o: Tile| o.x == x && o.y == y implies o == t by {}
        if s.unit_at(t) is None {
            assert forall|id: UnitId| !#[trigger] is_at(s, id, x, y) by {
                if is_at(s, id, x, y) {
                    assert(s.units.dom().contains(id) && s.units[id].pos == t);
                }
            }
        } else {
            let id = choose|id: UnitId| #[trigger]
                s.units.dom().contains(id) && s.units[id].pos == t;
            assert(is_at(s, id, x, y));
        }
        if unwalled(s, x, y) {
            assert(!s.walls.contains(t));
        }
    }
}

proof fn lemma_met(
    s: StateView,
    from: Tile,
    dir: (int, int),
    range: u8,
    owner: Owner,
    id: UnitId,
    n: int,
)
    requires
        s.keyed(),
        meets(s, from, dir, range, id, n),
    ensures
        s.ray_target(from, dir, range, owner) == (if s.units[id].owner == owner {
            None
        } else {
            Some((id, s.units[id].pos))
        }),
{
    let x = from.x + n * dir.0;
    let y = from.y + n * dir.1;
    lemma_open(s, from, dir, n);
    let t = StateView::ray(from, dir, n)->0;
    assert(t == s.units[id].pos);
    law_unit_on_a_tile(s, t);
    let key = choose|key: UnitId| #[trigger]
        s.units.dom().contains(key) && s.units[key].pos == t && Some(s.units[key].id) == s.unit_at(
            t,
        ) && (forall|o: UnitId| #[trigger]
            s.units.dom().contains(o) && s.units[o].pos == t ==> key <= o);
    assert(s.units.dom().contains(id));
    assert(is_at(s, key, x, y));
    assert(key == id);
    assert forall|m: int| 1 <= m < n implies #[trigger] s.see_through(from, dir, m) by {
        lemma_open(s, from, dir, m);
        assert(is_open(s, from.x + m * dir.0, from.y + m * dir.1));
    }
    assert(s.sight_ends(from, dir, range, n));
    crate::game_state::lemma_sight_end(s, from, dir, range, n);
}

proof fn lemma_meeting(
    s: StateView,
    from: Tile,
    dir: (int, int),
    range: u8,
    owner: Owner,
)
    requires
        s.keyed(),
    ensures
        s.ray_target(from, dir, range, owner) matches Some(hit) ==> s.units[hit.0].pos == hit.1
            && exists|n: int| meets_enemy(s, from, dir, range, owner, hit.0, n),
        s.ray_target(from, dir, range, owner) is None ==> forall|id: UnitId, n: int|
            !meets_enemy(s, from, dir, range, owner, id, n),
{
    if let Some(hit) = s.ray_target(from, dir, range, owner) {
        let n = choose|n: int| s.sight_ends(from, dir, range, n);
        let x = from.x + n * dir.0;
        let y = from.y + n * dir.1;
        let t = StateView::ray(from, dir, n)->0;
        lemma_open(s, from, dir, n);
        law_unit_on_a_tile(s, t);
        let key = choose|key: UnitId| #[trigger]
            s.units.dom().contains(key) && s.units[key].pos == t && Some(s.units[key].id)
                == s.unit_at(t) && (forall|o: UnitId| #[trigger]
                s.units.dom().contains(o) && s.units[o].pos == t ==> key <= o);
        assert(key == hit.0);
        assert(t.x == x && t.y == y);
        assert(is_at(s, key, x, y));
        assert forall|o: UnitId| #[trigger] is_at(s, o, x, y) implies key <= o by {
            assert(s.units[o].pos == t);
            assert(s.units.dom().contains(o));
        }
        assert forall|m: int| 1 <= m < n implies #[trigger] is_open(
            s,
            from.x + m * dir.0,
            from.y + m * dir.1,
        ) by {
            lemma_open(s, from, dir, m);
            assert(s.see_through(from, dir, m));
        }
        assert(meets_enemy(s, from, dir, range, owner, hit.0, n));
    } else {
        assert forall|id: UnitId, n: int| !meets_enemy(s, from, dir, range, owner, id, n) by {
            if meets_enemy(s, from, dir, range, owner, id, n) {
                lemma_met(s, from, dir, range, owner, id, n);
            }
        }
    }
}

/// Artillery looks down, up, left and right, in this order. It takes the first
/// direction in which the first unit it meets is an enemy, and that unit. Walls,
/// units of its own and the edge of the board end the sight; where no direction
/// shows an enemy there is no target.
pub proof fn law_scan(s: StateView, from: Tile, range: u8, owner: Owner)
    requires
        s.keyed(),
    ensures
        s.scan(from, range, owner) is None ==> forall|k: int, id: UnitId, n: int|
            0 <= k < 4 ==> !#[trigger] meets_enemy(s, from, heading(k), range, owner, id, n),
        s.scan(from, range, owner) matches Some(hit) ==> s.units[hit.0].pos == hit.1 && exists|
            k: int,
            n: int,
        |
            0 <= k < 4 && #[trigger] meets_enemy(s, from, heading(k), range, owner, hit.0, n) && (
            forall|j: int, id: UnitId, m: int|
                0 <= j < k ==> !#[trigger] meets_enemy(s, from, heading(j), range, owner, id, m)),
{
    lemma_meeting(s, from, heading(0), range, owner);
    lemma_meeting(s, from, heading(1), range, owner);
    lemma_meeting(s, from, heading(2), range, owner);
    lemma_meeting(s, from, heading(3), range, owner);
    assert forall|k: int| 0 <= k < 4 implies #[trigger] heading(k) == heading(0) || heading(k)
        == heading(1) || heading(k) == heading(2) || heading(k) == heading(3) by {}
    if let Some(hit) = s.scan(from, range, owner) {
        let k: int = if s.ray_target(from, heading(0), range, owner) is Some {
            0
        } else if s.ray_target(from, heading(1), range, owner) is Some {
            1
        } else if s.ray_target(from, heading(2), range, owner) is Some {
            2
        } else {
            3
        };
        assert(s.ray_target(from, heading(k), range, owner) == Some(hit));
        let n = choose|n: int| meets_enemy(s, from, heading(k), range, owner, hit.0, n);
        assert(meets_enemy(s, from, heading(k), range, owner, hit.0, n));
        assert forall|j: int, id: UnitId, m: int| 0 <= j < k implies !#[trigger] meets_enemy(
            s,
            from,
            heading(j),
            range,
            owner,
            id,
            m,
        ) by {
            assert(s.ray_target(from, heading(j), range, owner) is None);
        }
    }
}

// ---------------------------------------------------------------------------
// Sides
// ---------------------------------------------------------------------------

/// A side's units are those on the board that it owns, of whatever kind and in
/// whatever state. The two sides share no unit, and between them have all.
pub proof fn law_sides_count_every_unit(units: Map<UnitId, Unit>)
    ensures
        forall|owner: Owner, id: UnitId| #[trigger]
            crate::game_state::army(units, owner).contains(id) <==> units.dom().contains(id)
                && units[id].owner == owner,
        units.dom().finite(),
        forall|owner: Owner| #[trigger] crate::game_state::army(units, owner).finite(),
        crate::game_state::army(units, Owner::White).len() + crate::game_state::army(
            units,
            Owner::Black,
        ).len() == units.dom().len(),
{
    let white = crate::game_state::army(units, Owner::White);
    let black = crate::game_state::army(units, Owner::Black);
    crate::roster::lemma_id_order(units);
    vstd::seq_lib::seq_to_set_is_finite(crate::roster::id_order(units));
    assert(white.union(black) =~= units.dom());
    assert(white.disjoint(black));
    vstd::set_lib::lemma_set_disjoint_lens(white, black);
}

/// One unit more or less counts as one: a unit that enters raises its side's
/// count by one, a unit that leaves lowers it by one, and the other side's
/// count stays.
pub proof fn law_each_unit_counts_once(units: Map<UnitId, Unit>, id: UnitId, u: Unit, side: Owner)
    requires
        !units.dom().contains(id),
    ensures
        ({
            let more = units.insert(id, u);
            crate::game_state::army(more, side).len() == crate::game_state::army(units, side).len()
                + (if u.owner == side {
                1int
            } else {
                0
            })
        }),
{
    law_sides_count_every_unit(units);
    let more = units.insert(id, u);
    if u.owner == side {
        assert(crate::game_state::army(more, side) =~= crate::game_state::army(units, side).insert(
            id,
        ));
    } else {
        assert(crate::game_state::army(more, side) =~= crate::game_state::army(units, side));
    }
}

/// No command changes how many units a side has. In particular a pawn that
/// becomes artillery still counts.
pub proof fn law_commands_keep_the_counts(
    w: World,
    owner: Owner,
    msg: ClientMessage,
    cfg: SimulationConfig,
    side: Owner,
)
    ensures
        crate::game_state::army(w.commanded(owner, msg, cfg).state.units, side)
            == crate::game_state::army(w.state.units, side),
        w.commanded(owner, msg, cfg).strength(side) == w.strength(side),
{
    let v = w.commanded(owner, msg, cfg);
    crate::laws_match::law_commands_are_orders(w, owner, msg, cfg);
    assert forall|id: UnitId|
        crate::game_state::army(v.state.units, side).contains(id) <==> crate::game_state::army(
            w.state.units,
            side,
        ).contains(id) by {
        assert(v.state.units.dom().contains(id) <==> w.state.units.dom().contains(id));
        if w.state.units.dom().contains(id) {
            assert(v.unit(id).owner == w.unit(id).owner);
        }
    }
    assert(crate::game_state::army(v.state.units, side) =~= crate::game_state::army(
        w.state.units,
        side,
    ));
}

// ---------------------------------------------------------------------------
// Entering the board
// ---------------------------------------------------------------------------

/// A unit enters the board under the next id, idle, in full health, with nothing
/// queued, in no fight and with no cooldown running. Nothing else changes.
pub proof fn law_units_enter_fresh(
    s: StateView,
    kind: UnitKind,
    owner: Owner,
    pos: Tile,
    hp: i32,
)
    requires
        s.next_unit_id < UnitId::MAX,
    ensures
        ({
            let t = s.spawned(kind, owner, pos, hp);
            let id = s.next_unit_id;
            &&& t.next_unit_id == id + 1
            &&& t.units.dom() == s.units.dom().insert(id)
            &&& forall|o: UnitId| o != id ==> #[trigger] t.units[o] == s.units[o]
            &&& t.units[id].id == id
            &&& t.units[id].owner == owner
            &&& t.units[id].kind == kind
            &&& t.units[id].pos == pos
            &&& t.units[id].hp == hp
            &&& t.units[id].max_hp == hp
            &&& t.units[id].state == UnitState::Idle
            &&& t.units[id].pending_move is None
            &&& t.units[id].melee_target is None
            &&& t.units[id].attack_cooldown == 0
            &&& t.units[id].fire_cooldown == 0
            &&& t.tick == s.tick && t.board_size == s.board_size && t.walls == s.walls
            &&& t.status == s.status && t.winner == s.winner && t.end_reason == s.end_reason
        }),
{
    let t = s.spawned(kind, owner, pos, hp);
    assert(t.units.dom() =~= s.units.dom().insert(s.next_unit_id));
}

/// A pawn in its starting position.
pub open spec fn fresh_pawn(u: Unit, id: int, owner: Owner, x: int, y: int, hp: i32) -> bool {
    &&& u.id == id
    &&& u.owner == owner
    &&& u.kind == UnitKind::Pawn
    &&& u.pos.x == x && u.pos.y == y
    &&& u.hp == hp && u.max_hp == hp
    &&& u.state == UnitState::Idle
    &&& u.pending_move is None
    &&& u.melee_target is None
    &&& u.attack_cooldown == 0
    &&& u.fire_cooldown == 0
}

/// The deployment: on each file, and for each row that the board asks for, white
/// has a pawn that many ranks before its back rank and black has one before its
/// own, or on the first rank where the board is too small for that. Ids count up
/// from one, row by row and file by file, white before black. Nobody else is on
/// the board, which has no walls; the clock stands at zero.
pub proof fn law_deployment(board: BoardConfig, hp: i32, row: int, x: int)
    requires
        board.pawn_row_depth <= 254,
        0 <= row < board.pawn_row_depth,
        0 <= x < board.size,
    ensures
        ({
            let s = StateView::lobby(board, hp);
            let n = 2 * (row * board.size + x);
            let white = (n + 1) as UnitId;
            let black = (n + 2) as UnitId;
            let rank = if row + 2 <= board.size {
                board.size - 2 - row
            } else {
                0
            };
            &&& s.units.dom().contains(white) && s.units.dom().contains(black)
            &&& fresh_pawn(s.units[white], n + 1, Owner::White, x, 1 + row, hp)
            &&& fresh_pawn(s.units[black], n + 2, Owner::Black, x, rank, hp)
            &&& forall|id: UnitId| #[trigger]
                s.units.dom().contains(id) <==> 1 <= id <= 2 * (board.size * board.pawn_row_depth)
            &&& s.next_unit_id == 2 * (board.size * board.pawn_row_depth) + 1
            &&& s.tick == 0
            &&& s.board_size == board.size
            &&& s.status == MatchStatus::Lobby
            &&& s.winner is None
            &&& s.end_reason is None
            &&& forall|t: Tile| !#[trigger] s.walls.contains(t)
        }),
{
    let size = board.size as int;
    let depth = board.pawn_row_depth as int;
    let c = row * size + x;
    assert(0 <= c < size * depth <= 255 * 254) by (nonlinear_arith)
        requires
            c == row * size + x,
            0 <= row < depth <= 254,
            0 <= x < size <= 255,
    ;
    vstd::arithmetic::div_mod::lemma_fundamental_div_mod_converse(c, size, row, x);
    let white = (2 * c + 1) as UnitId;
    let black = (2 * c + 2) as UnitId;
    assert((white - 1) / 2 == c && (white - 1) % 2 == 0);
    assert((black - 1) / 2 == c && (black - 1) % 2 == 1);
}

/// Every unit of a deployment is one of those pawns: each id has its row and
/// file.
pub proof fn law_deployment_has_nobody_else(board: BoardConfig, hp: i32, id: UnitId)
    requires
        board.size > 0,
        StateView::lobby(board, hp).units.dom().contains(id),
    ensures
        exists|row: int, x: int|
            0 <= row < board.pawn_row_depth && 0 <= x < board.size && (id == #[trigger] (2 * (row
                * board.size + x)) + 1 || id == 2 * (row * board.size + x) + 2),
{
    crate::laws_board::lemma_cell(board, id);
    let cell = (id - 1) / 2;
    let size = board.size as int;
    let row = cell / size;
    let x = cell % size;
    assert(size * row == row * size) by (nonlinear_arith);
    assert(id == 2 * (row * board.size + x) + 1 || id == 2 * (row * board.size + x) + 2);
}

} // verus!
