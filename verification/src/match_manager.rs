//! Match lifecycle: seats, the per-tick step of a match, and the registry of
//! live matches with creation, joining and garbage collection.
//!
//! Times are nanoseconds on a clock of the caller's.

use crate::chance::{draw_match_id, draw_rolls, draw_token, seeded_by_os};
use crate::config::{BoardConfig, BroadcastMode, Config, ConfigView, SimulationConfig};
use crate::double::Double;
use crate::events::{EventView, GameEvent};
use crate::game_state::{
    EndReason, GameState, MatchStatus, Owner, StateDelta, StateView, Unit, UnitId,
};
use crate::input::{handle_message, Fault};
use crate::network::{send, DeltaView, InputItem, MessageView, Role, ServerMessage};
use crate::roster::{find_unit, has_id, unit_ids};
use crate::rules::World;
use crate::simulation::{rolls_for_tick, try_tick_with_rolls};
use crate::text::{number_text, same_text};
use rand::rngs::StdRng;
use vstd::prelude::*;
use vstd::string::*;

verus! {

/// One match: its configuration, the authoritative state and the two seats.
pub struct MatchInner {
    pub cfg: Config,
    pub state: GameState,
    pub white_token: Option<String>,
    pub black_token: Option<String>,
    pub created_at: u128,
    pub finished_at: Option<u128>,
    pub rng: StdRng,
}

/// What a `MatchInner` holds.
#[verifier::ext_equal]
pub struct MatchView {
    pub cfg: ConfigView,
    pub state: StateView,
    pub white_token: Option<Seq<char>>,
    pub black_token: Option<Seq<char>>,
    pub created_at: u128,
    pub finished_at: Option<u128>,
    pub rng: StdRng,
}

/// The characters of an optional text.
pub open spec fn chars(text: Option<String>) -> Option<Seq<char>> {
    match text {
        Some(t) => Some(t@),
        None => None,
    }
}

impl View for MatchInner {
    type V = MatchView;

    open spec fn view(&self) -> MatchView {
        MatchView {
            cfg: self.cfg@,
            state: self.state@,
            white_token: chars(self.white_token),
            black_token: chars(self.black_token),
            created_at: self.created_at,
            finished_at: self.finished_at,
            rng: self.rng,
        }
    }
}

// ---------------------------------------------------------------------------
// Requests and responses
// ---------------------------------------------------------------------------

/// Create request: optional per-match configuration overrides.
#[derive(Debug, Clone, Copy)]
pub struct CreateMatchRequest {
    pub board: Option<BoardConfig>,
    pub simulation: Option<SimulationConfig>,
}

impl Default for CreateMatchRequest {
    fn default() -> (r: Self)
        ensures
            r.board is None,
            r.simulation is None,
    {
        CreateMatchRequest { board: None, simulation: None }
    }
}

/// Create response.
#[derive(Debug)]
pub struct CreateMatchResponse {
    pub match_id: String,
    pub config: Config,
}

/// Join request, with the token for a rejoin.
#[derive(Debug)]
pub struct JoinRequest {
    pub token: Option<String>,
}

impl Default for JoinRequest {
    fn default() -> (r: Self)
        ensures
            r.token is None,
    {
        JoinRequest { token: None }
    }
}

/// Join response.
#[derive(Debug)]
pub struct JoinResponse {
    pub owner: Owner,
    pub player_token: String,
}

/// Public information on a match.
#[derive(Debug)]
pub struct MatchInfo {
    pub match_id: String,
    pub status: MatchStatus,
    pub tick: u64,
    pub players: PlayersInfo,
    pub units_alive: UnitsAlive,
    pub winner: Option<Owner>,
    pub end_reason: Option<EndReason>,
}

/// Which seats are taken.
#[derive(Debug, Clone, Copy, PartialEq, Eq, Structural)]
pub struct PlayersInfo {
    pub white: bool,
    pub black: bool,
}

/// How many units each side has left.
#[derive(Debug, Clone, Copy, PartialEq, Eq, Structural)]
pub struct UnitsAlive {
    pub white: usize,
    pub black: usize,
}

// ---------------------------------------------------------------------------
// Seats
// ---------------------------------------------------------------------------

/// What a join comes to: the seat and token handed out, the match afterwards,
/// and what everyone in it is told.
pub struct Seating {
    pub owner: Owner,
    pub token: Seq<char>,
    pub after: MatchView,
    pub told: Seq<MessageView>,
}

impl MatchView {
    /// Who the bearer of a token is.
    pub open spec fn role(self, token: Seq<char>) -> Role {
        if self.white_token == Some(token) {
            Role::Player(Owner::White)
        } else if self.black_token == Some(token) {
            Role::Player(Owner::Black)
        } else {
            Role::Spectator
        }
    }

    /// Both seats are taken.
    pub open spec fn full(self) -> bool {
        self.white_token is Some && self.black_token is Some
    }

    /// The match once a seat has been given out. It starts as soon as both are.
    pub open spec fn seated(self, owner: Owner, token: Seq<char>) -> MatchView {
        let taken = match owner {
            Owner::White => MatchView { white_token: Some(token), ..self },
            Owner::Black => MatchView { black_token: Some(token), ..self },
        };
        if taken.full() {
            MatchView {
                state: StateView { status: MatchStatus::Active, ..taken.state },
                ..taken
            }
        } else {
            taken
        }
    }

    /// What a newly seated player's arrival is announced with.
    pub open spec fn announcement(self) -> Seq<MessageView> {
        if self.full() {
            seq![
                MessageView::Event { event: EventView::MatchStarted },
                MessageView::StateSnapshot { state: self.state },
            ]
        } else {
            Seq::empty()
        }
    }

    /// What a join comes to; `None` where the match is full. A known token
    /// rejoins its side; anyone else gets the first free seat, white before
    /// black, under a fresh token.
    pub open spec fn join(self, presented: Option<Seq<char>>, fresh: Seq<char>) -> Option<Seating> {
        if presented is Some && self.white_token == presented {
            Some(
                Seating {
                    owner: Owner::White,
                    token: presented->0,
                    after: self,
                    told: Seq::empty(),
                },
            )
        } else if presented is Some && self.black_token == presented {
            Some(
                Seating {
                    owner: Owner::Black,
                    token: presented->0,
                    after: self,
                    told: Seq::empty(),
                },
            )
        } else if self.white_token is None {
            let after = self.seated(Owner::White, fresh);
            Some(Seating { owner: Owner::White, token: fresh, after, told: after.announcement() })
        } else if self.black_token is None {
            let after = self.seated(Owner::Black, fresh);
            Some(Seating { owner: Owner::Black, token: fresh, after, told: after.announcement() })
        } else {
            None
        }
    }
}

fn is_token(seat: &Option<String>, token: &str) -> (r: bool)
    ensures
        r == (chars(*seat) == Some(token@)),
{
    match seat {
        Some(t) => same_text(t.as_str(), token),
        None => false,
    }
}

impl MatchInner {
    /// The state is well formed.
    pub open spec fn wf(&self) -> bool {
        self.state.wf()
    }

    /// Resolves a player token to a role. Unknown tokens are spectators.
    pub fn role_for_token(&self, token: &str) -> (r: Role)
        ensures
            r == self@.role(token@),
    {
        if is_token(&self.white_token, token) {
            Role::Player(Owner::White)
        } else if is_token(&self.black_token, token) {
            Role::Player(Owner::Black)
        } else {
            Role::Spectator
        }
    }

    /// A copy of the state.
    pub fn current_state(&self) -> (r: GameState)
        ensures
            r@ == self@.state,
            self.wf() ==> r.wf(),
    {
        self.state.clone()
    }

    /// Seats a player, or finds the seat that a known token belongs to. `fresh`
    /// is the token for a new seat. Returns the response and what everyone in
    /// the match is told; `None` where the match is full.
    pub fn join_with(&mut self, req: &JoinRequest, fresh: String) -> (r: Option<
        (JoinResponse, Vec<ServerMessage>),
    >)
        ensures
            match old(self)@.join(chars(req.token), fresh@) {
                Some(seating) => {
                    &&& r matches Some(out) && out.0.owner == seating.owner
                        && out.0.player_token@ == seating.token && crate::network::message_views(
                        out.1@,
                    ) == seating.told
                    &&& final(self)@ == seating.after
                },
                None => r is None && final(self)@ == old(self)@,
            },
            old(self).wf() ==> final(self).wf(),
    {
        let mut told: Vec<ServerMessage> = Vec::new();
        proof {
            assert(crate::network::message_views(told@) =~= Seq::empty());
        }
        if let Some(token) = &req.token {
            if is_token(&self.white_token, token.as_str()) {
                return Some(
                    (JoinResponse { owner: Owner::White, player_token: token.clone() }, told),
                );
            }
            if is_token(&self.black_token, token.as_str()) {
                return Some(
                    (JoinResponse { owner: Owner::Black, player_token: token.clone() }, told),
                );
            }
        }
        let owner = if self.white_token.is_none() {
            Owner::White
        } else if self.black_token.is_none() {
            Owner::Black
        } else {
            return None;
        };
        match owner {
            Owner::White => {
                self.white_token = Some(fresh.clone());
            },
            Owner::Black => {
                self.black_token = Some(fresh.clone());
            },
        }
        // The match starts once both sides are taken.
        if self.white_token.is_some() && self.black_token.is_some() {
            self.state.status = MatchStatus::Active;
            send(&mut told, ServerMessage::Event { event: GameEvent::MatchStarted });
            let state = self.current_state();
            send(&mut told, ServerMessage::StateSnapshot { state });
        }
        proof {
            assert(crate::network::message_views(told@) =~= self@.announcement());
        }
        Some((JoinResponse { owner, player_token: fresh }, told))
    }
}

// ---------------------------------------------------------------------------
// Client input
// ---------------------------------------------------------------------------

/// A list of events as messages.
pub open spec fn as_messages(events: Seq<EventView>) -> Seq<MessageView> {
    events.map_values(|e: EventView| MessageView::Event { event: e })
}

impl MatchView {
    /// The match once one queued input has been handled, and what everyone is
    /// told. Only players may send commands.
    pub open spec fn after_input(self, item: InputItem) -> (MatchView, Seq<MessageView>) {
        match item.from.side() {
            None => (
                self,
                seq![
                    MessageView::Error {
                        to: None,
                        code: "not_a_player"@,
                        detail: "spectators cannot send commands"@,
                    },
                ],
            ),
            Some(owner) => {
                let start = World { state: self.state, events: Seq::empty() };
                let end = start.commanded(owner, item.msg, self.cfg.simulation);
                match Fault::of_message(self.state, owner, item.msg, self.cfg.simulation) {
                    Some(fault) => (
                        self,
                        seq![
                            MessageView::Error {
                                to: Some(owner),
                                code: fault.code(),
                                detail: fault.text(),
                            },
                        ],
                    ),
                    None => (MatchView { state: end.state, ..self }, as_messages(end.events)),
                }
            },
        }
    }

    /// The match once the first `n` inputs have been handled.
    pub open spec fn after_inputs(self, items: Seq<InputItem>, n: int) -> (
        MatchView,
        Seq<MessageView>,
    )
        decreases n,
    {
        if n <= 0 {
            (self, Seq::empty())
        } else {
            let (before, said) = self.after_inputs(items, n - 1);
            let (after, more) = before.after_input(items[n - 1]);
            (after, said + more)
        }
    }
}

/// Inputs change nothing of a match but its state, and of that neither the
/// clock nor the outcome nor the board.
pub proof fn lemma_inputs_frame(m: MatchView, items: Seq<InputItem>, n: int)
    ensures
        ({
            let after = m.after_inputs(items, n).0;
            &&& after == (MatchView { state: after.state, ..m })
            &&& after.state == (StateView { units: after.state.units, ..m.state })
            &&& after.state.units.dom() == m.state.units.dom()
        }),
    decreases n,
{
    if n > 0 {
        lemma_inputs_frame(m, items, n - 1);
        let before = m.after_inputs(items, n - 1).0;
        let after = m.after_inputs(items, n).0;
        assert(after.state.units.dom() =~= before.state.units.dom());
    }
}

/// Appends events as messages.
fn send_events(messages: &mut Vec<ServerMessage>, events: &Vec<GameEvent>)
    ensures
        crate::network::message_views(final(messages)@) == crate::network::message_views(
            old(messages)@,
        ) + as_messages(crate::events::event_views(events@)),
{
    let ghost start = crate::network::message_views(messages@);
    let ghost said = as_messages(crate::events::event_views(events@));
    for i in 0..events.len()
        invariant
            said == as_messages(crate::events::event_views(events@)),
            crate::network::message_views(messages@) == start + said.take(i as int),
    {
        send(messages, ServerMessage::Event { event: events[i].clone() });
        proof {
            assert(said.take(i as int).push(said[i as int]) =~= said.take(i + 1));
            assert(crate::network::message_views(messages@) =~= start + said.take(i + 1));
        }
    }
    proof {
        assert(said.take(said.len() as int) =~= said);
    }
}

impl MatchInner {
    /// Validates and applies one client input.
    pub fn handle_input(&mut self, item: InputItem, messages: &mut Vec<ServerMessage>)
        ensures
            final(self)@ == old(self)@.after_input(item).0,
            crate::network::message_views(final(messages)@) == crate::network::message_views(
                old(messages)@,
            ) + old(self)@.after_input(item).1,
            old(self).wf() ==> final(self).wf(),
    {
        let owner = match item.from.owner() {
            Some(o) => o,
            None => {
                send(
                    messages,
                    ServerMessage::Error {
                        to: None,
                        code: "not_a_player".to_owned(),
                        detail: "spectators cannot send commands".to_owned(),
                    },
                );
                return ;
            },
        };
        let cfg = self.cfg.simulation;
        let mut events: Vec<GameEvent> = Vec::new();
        proof {
            assert(crate::events::event_views(events@) =~= Seq::empty());
        }
        match handle_message(&mut self.state, owner, item.msg, &cfg, &mut events) {
            Ok(()) => {
                send_events(messages, &events);
            },
            Err(e) => {
                send(
                    messages,
                    ServerMessage::Error {
                        to: Some(owner),
                        code: e.code().to_owned(),
                        detail: e.message(),
                    },
                );
            },
        }
    }

    /// Handles queued inputs in order.
    fn handle_inputs(&mut self, items: &Vec<InputItem>, messages: &mut Vec<ServerMessage>)
        ensures
            final(self)@ == old(self)@.after_inputs(items@, items@.len() as int).0,
            crate::network::message_views(final(messages)@) == crate::network::message_views(
                old(messages)@,
            ) + old(self)@.after_inputs(items@, items@.len() as int).1,
            old(self).wf() ==> final(self).wf(),
    {
        let ghost said = crate::network::message_views(messages@);
        proof {
            assert(said + Seq::empty() =~= said);
        }
        for i in 0..items.len()
            invariant
                self@ == old(self)@.after_inputs(items@, i as int).0,
                crate::network::message_views(messages@) == said + old(self)@.after_inputs(
                    items@,
                    i as int,
                ).1,
                old(self).wf() ==> self.wf(),
        {
            self.handle_input(items[i], messages);
            proof {
                assert(crate::network::message_views(messages@) =~= said + old(
                    self,
                )@.after_inputs(items@, i + 1).1);
            }
        }
    }
}

// ---------------------------------------------------------------------------
// What a tick tells the clients
// ---------------------------------------------------------------------------

/// A unit's record is news to a client that knows `before`.
pub open spec fn is_news(
    before: Map<UnitId, Unit>,
    after: Map<UnitId, Unit>,
    events: Seq<EventView>,
    id: UnitId,
) -> bool {
    ||| crate::events::touched(events, id)
    ||| !before.dom().contains(id)
    ||| before[id] != after[id]
}

/// The change set of a tick that led from `before` to `w`: the full records of
/// the units that changed or that an event is about, in id order, and the ids
/// of those that died.
pub open spec fn delta_of(before: StateView, w: World) -> DeltaView {
    DeltaView {
        tick: w.state.tick,
        status: w.state.status,
        winner: w.state.winner,
        end_reason: w.state.end_reason,
        updated: w.ids().filter(
            |id: UnitId| is_news(before.units, w.state.units, w.events, id),
        ).map_values(|id: UnitId| w.state.units[id]),
        removed: crate::events::deaths(w.events),
    }
}

/// What the clients are told after a tick: the state or the change set, then
/// the events, then the final state if the match is over.
pub open spec fn tick_news(before: StateView, w: World, mode: BroadcastMode) -> Seq<MessageView> {
    let first = match mode {
        BroadcastMode::Snapshot => MessageView::StateSnapshot { state: w.state },
        BroadcastMode::Delta => MessageView::StateDelta { delta: delta_of(before, w) },
    };
    let told = seq![first] + as_messages(w.events);
    if w.state.status == MatchStatus::Finished {
        told.push(MessageView::StateSnapshot { state: w.state })
    } else {
        told
    }
}

fn note(ids: &mut Vec<UnitId>, id: UnitId)
    ensures
        forall|x: UnitId| #[trigger]
            final(ids)@.contains(x) <==> old(ids)@.contains(x) || x == id,
{
    ids.push(id);
    proof {
        let was = old(ids)@;
        assert forall|x: UnitId| #[trigger] ids@.contains(x) <==> was.contains(x) || x == id by {
            if was.contains(x) {
                let k = choose|k: int| 0 <= k < was.len() && was[k] == x;
                assert(ids@[k] == x);
            }
            assert(ids@[was.len() as int] == id);
        }
    }
}

/// The ids of the units that the events are about.
pub fn unit_ids_touched(events: &Vec<GameEvent>) -> (r: Vec<UnitId>)
    ensures
        forall|id: UnitId| #[trigger]
            r@.contains(id) <==> crate::events::touched(
                crate::events::event_views(events@),
                id,
            ),
{
    let ghost views = crate::events::event_views(events@);
    let mut r: Vec<UnitId> = Vec::new();
    for i in 0..events.len()
        invariant
            views == crate::events::event_views(events@),
            forall|id: UnitId| #[trigger]
                r@.contains(id) <==> exists|j: int|
                    0 <= j < i && (#[trigger] views[j]).touches(id),
    {
        let ghost was = r@;
        match &events[i] {
            GameEvent::MoveQueued { unit, .. } => note(&mut r, *unit),
            GameEvent::MoveResolved { unit, .. } => note(&mut r, *unit),
            GameEvent::MoveBlocked { unit, .. } => note(&mut r, *unit),
            GameEvent::MeleeLocked { a, b } => {
                note(&mut r, *a);
                note(&mut r, *b);
            },
            GameEvent::MeleeHit { attacker, defender, .. } => {
                note(&mut r, *attacker);
                note(&mut r, *defender);
            },
            GameEvent::ArtilleryFired { unit, target, .. } => {
                note(&mut r, *unit);
                note(&mut r, *target);
            },
            GameEvent::UnitUpgraded { unit, .. } => note(&mut r, *unit),
            GameEvent::UnitDied { unit, .. } => note(&mut r, *unit),
            GameEvent::MatchStarted => {},
            GameEvent::MatchOver { .. } => {},
        }
        proof {
            assert forall|id: UnitId| #[trigger] r@.contains(id) <==> exists|j: int|
                0 <= j < i + 1 && (#[trigger] views[j]).touches(id) by {
                assert(r@.contains(id) <==> was.contains(id) || views[i as int].touches(id));
            }
        }
    }
    r
}

/// The units that died, in the order of the events.
fn dead_units(events: &Vec<GameEvent>) -> (r: Vec<UnitId>)
    ensures
        r@ == crate::events::deaths(crate::events::event_views(events@)),
{
    let ghost views = crate::events::event_views(events@);
    let mut r: Vec<UnitId> = Vec::new();
    for i in 0..events.len()
        invariant
            views == crate::events::event_views(events@),
            r@ == crate::events::deaths(views.take(i as int)),
    {
        proof {
            assert(views.take(i + 1).drop_last() =~= views.take(i as int));
            assert(views.take(i + 1).last() == views[i as int]);
        }
        if let GameEvent::UnitDied { unit, .. } = &events[i] {
            r.push(*unit);
        }
    }
    proof {
        assert(views.take(views.len() as int) =~= views);
    }
    r
}

/// The change set that leads a client from `before` to `after`.
pub fn build_delta(before: &GameState, after: &GameState, events: &Vec<GameEvent>) -> (r: StateDelta)
    ensures
        r@ == delta_of(before@, World::of(*after, events@)),
{
    let ids = unit_ids(&after.units);
    let touched = unit_ids_touched(events);
    let ghost w = World::of(*after, events@);
    let ghost p = |id: UnitId| is_news(before@.units, w.state.units, w.events, id);
    let ghost record = |id: UnitId| w.state.units[id];
    let mut updated: Vec<Unit> = Vec::new();
    for i in 0..ids.len()
        invariant
            w == World::of(*after, events@),
            p == (|id: UnitId| is_news(before@.units, w.state.units, w.events, id)),
            record == (|id: UnitId| w.state.units[id]),
            crate::roster::lists_ids(ids@, after.units@),
            forall|id: UnitId| #[trigger]
                touched@.contains(id) <==> crate::events::touched(w.events, id),
            updated@ == ids@.take(i as int).filter(p).map_values(record),
    {
        let id = ids[i];
        proof {
            assert(ids@.to_set().contains(id));
            crate::rules::lemma_filter_take(ids@, i as int, p);
        }
        let u = find_unit(&after.units, id).unwrap();
        let known = match find_unit(&before.units, id) {
            Some(old_record) => old_record == u,
            None => false,
        };
        if !known || has_id(&touched, id) {
            updated.push(u);
        }
        proof {
            assert(updated@ =~= ids@.take(i + 1).filter(p).map_values(record));
        }
    }
    proof {
        assert(ids@.take(ids@.len() as int) =~= ids@);
    }
    StateDelta {
        tick: after.tick,
        status: after.status,
        winner: after.winner,
        end_reason: after.end_reason,
        updated,
        removed: dead_units(events),
    }
}

// ---------------------------------------------------------------------------
// The step of a match
// ---------------------------------------------------------------------------

/// What one turn of the match loop comes to: what the clients are told, and
/// whether the loop stops.
pub struct StepOutcome {
    pub messages: Vec<ServerMessage>,
    pub stop: bool,
}

/// What one turn of the match loop comes to.
pub struct Step {
    pub after: MatchView,
    pub said: Seq<MessageView>,
    pub stop: bool,
}

/// Time since `since`; none if that lies ahead.
pub open spec fn age(now: u128, since: u128) -> int {
    if now > since {
        now - since
    } else {
        0
    }
}

impl MatchView {
    /// One turn of the match loop. An active match handles its inputs and
    /// advances one tick; a lobby refuses inputs and stops once it has expired;
    /// a finished match stops.
    pub open spec fn step(
        self,
        items: Seq<InputItem>,
        rolls: Seq<u64>,
        chance: Double,
        now: u128,
        lobby_ttl: u128,
    ) -> Step {
        match self.state.status {
            MatchStatus::Active => {
                let (m, said) = self.after_inputs(items, items.len() as int);
                let sim = m.cfg.simulation;
                let w = World::tick(m.state, sim, chance, rolls);
                let over = w.state.status == MatchStatus::Finished;
                Step {
                    after: MatchView {
                        state: w.state,
                        finished_at: if over {
                            Some(now)
                        } else {
                            m.finished_at
                        },
                        ..m
                    },
                    said: said + tick_news(self.state, w, sim.broadcast_mode),
                    stop: over,
                }
            },
            MatchStatus::Lobby => Step {
                after: self,
                said: Seq::new(
                    items.len(),
                    |i: int|
                        MessageView::Error {
                            to: None,
                            code: "match_not_active"@,
                            detail: "match has not started yet"@,
                        },
                ),
                stop: age(now, self.created_at) > lobby_ttl,
            },
            MatchStatus::Finished => Step { after: self, said: Seq::empty(), stop: true },
        }
    }

    /// How many rolls a turn of the match loop takes.
    pub open spec fn step_rolls(self, items: Seq<InputItem>) -> int {
        if self.state.status == MatchStatus::Active {
            World::rolls_needed(self.after_inputs(items, items.len() as int).0.state)
        } else {
            0
        }
    }

    /// The clock and every health stay representable in this turn.
    pub open spec fn step_fits(
        self,
        items: Seq<InputItem>,
        rolls: Seq<u64>,
        chance: Double,
    ) -> bool {
        self.state.status == MatchStatus::Active ==> {
            let m = self.after_inputs(items, items.len() as int).0;
            World::tick_fits(m.state, m.cfg.simulation, chance, rolls)
        }
    }
}

impl MatchInner {
    /// The turn of a lobby.
    fn step_lobby(&self, items: &Vec<InputItem>, now: u128, lobby_ttl: u128) -> (r: StepOutcome)
        requires
            self@.state.status == MatchStatus::Lobby,
        ensures
            forall|rolls: Seq<u64>, chance: Double|
                #![trigger self@.step(items@, rolls, chance, now, lobby_ttl)]
                ({
                    let step = self@.step(items@, rolls, chance, now, lobby_ttl);
                    &&& crate::network::message_views(r.messages@) == step.said
                    &&& r.stop == step.stop
                    &&& self@ == step.after
                }),
    {
        let mut messages: Vec<ServerMessage> = Vec::new();
        let ghost refusal = MessageView::Error {
            to: None,
            code: "match_not_active"@,
            detail: "match has not started yet"@,
        };
        proof {
            assert(crate::network::message_views(messages@) =~= Seq::new(0, |k: int| refusal));
        }
        for i in 0..items.len()
            invariant
                refusal == (MessageView::Error {
                    to: None,
                    code: "match_not_active"@,
                    detail: "match has not started yet"@,
                }),
                crate::network::message_views(messages@) == Seq::new(
                    i as nat,
                    |k: int| refusal,
                ),
        {
            send(
                &mut messages,
                ServerMessage::Error {
                    to: None,
                    code: "match_not_active".to_owned(),
                    detail: "match has not started yet".to_owned(),
                },
            );
            proof {
                assert(crate::network::message_views(messages@) =~= Seq::new(
                    (i + 1) as nat,
                    |k: int| refusal,
                ));
            }
        }
        proof {
            assert forall|rolls: Seq<u64>, chance: Double|
                #![trigger self@.step(items@, rolls, chance, now, lobby_ttl)]
                crate::network::message_views(messages@) == self@.step(
                    items@,
                    rolls,
                    chance,
                    now,
                    lobby_ttl,
                ).said by {
                assert(crate::network::message_views(messages@) =~= self@.step(
                    items@,
                    rolls,
                    chance,
                    now,
                    lobby_ttl,
                ).said);
            }
        }
        let waited: u128 = if now > self.created_at {
            now - self.created_at
        } else {
            0
        };
        StepOutcome { messages, stop: waited > lobby_ttl }
    }

    /// The second half of an active match's turn: the inputs have been handled
    /// and the dice rolled.
    fn advance(
        &mut self,
        before: &GameState,
        messages: Vec<ServerMessage>,
        rolls: &Vec<u64>,
        chance: Double,
        now: u128,
    ) -> (r: Option<StepOutcome>)
        requires
            old(self).wf(),
            rolls@.len() == World::rolls_needed(old(self)@.state),
        ensures
            final(self).wf(),
            final(self).cfg == old(self).cfg,
            r is Some <==> World::tick_fits(
                old(self)@.state,
                old(self)@.cfg.simulation,
                chance,
                rolls@,
            ),
            r is None ==> final(self)@ == old(self)@,
            r matches Some(out) ==> {
                let sim = old(self)@.cfg.simulation;
                let w = World::tick(old(self)@.state, sim, chance, rolls@);
                let over = w.state.status == MatchStatus::Finished;
                &&& out.stop == over
                &&& final(self)@ == (MatchView {
                    state: w.state,
                    finished_at: if over {
                        Some(now)
                    } else {
                        old(self)@.finished_at
                    },
                    ..old(self)@
                })
                &&& crate::network::message_views(out.messages@) == crate::network::message_views(
                    messages@,
                ) + tick_news(before@, w, sim.broadcast_mode)
            },
    {
        let mut messages = messages;
        let ghost said = crate::network::message_views(messages@);
        let cfg = self.cfg.simulation;
        let events = match try_tick_with_rolls(&mut self.state, &cfg, chance, rolls) {
            Some(events) => events,
            None => {
                return None;
            },
        };
        let ghost w = World::of(self.state, events@);
        match cfg.broadcast_mode {
            BroadcastMode::Snapshot => {
                let state = self.current_state();
                send(&mut messages, ServerMessage::StateSnapshot { state });
            },
            BroadcastMode::Delta => {
                let delta = build_delta(before, &self.state, &events);
                send(&mut messages, ServerMessage::StateDelta { delta });
            },
        }
        send_events(&mut messages, &events);
        let mut stop = false;
        // A match that is over ends with the full state.
        if self.state.status == MatchStatus::Finished {
            let state = self.current_state();
            send(&mut messages, ServerMessage::StateSnapshot { state });
            self.finished_at = Some(now);
            stop = true;
        }
        proof {
            assert(crate::network::message_views(messages@) =~= said + tick_news(
                before@,
                w,
                cfg.broadcast_mode,
            ));
        }
        Some(StepOutcome { messages, stop })
    }

    /// One turn of the match loop, with the given rolls. Where the clock or a
    /// health would leave its range there is no result and the match is as
    /// before.
    pub fn step_with_rolls(
        &mut self,
        items: &Vec<InputItem>,
        rolls: &Vec<u64>,
        chance: Double,
        now: u128,
        lobby_ttl: u128,
    ) -> (r: Option<StepOutcome>)
        requires
            old(self).wf(),
            rolls@.len() == old(self)@.step_rolls(items@),
        ensures
            final(self).wf(),
            r is Some <==> old(self)@.step_fits(items@, rolls@, chance),
            r is None ==> final(self)@ == old(self)@,
            r matches Some(out) ==> {
                let step = old(self)@.step(items@, rolls@, chance, now, lobby_ttl);
                &&& final(self)@ == step.after
                &&& crate::network::message_views(out.messages@) == step.said
                &&& out.stop == step.stop
            },
    {
        match self.state.status {
            MatchStatus::Active => {
                let before = self.current_state();
                let mut messages: Vec<ServerMessage> = Vec::new();
                proof {
                    assert(crate::network::message_views(messages@) =~= Seq::empty());
                }
                self.handle_inputs(items, &mut messages);
                proof {
                    lemma_inputs_frame(old(self)@, items@, items@.len() as int);
                    let said = old(self)@.after_inputs(items@, items@.len() as int).1;
                    assert(Seq::empty() + said =~= said);
                }
                let r = self.advance(&before, messages, rolls, chance, now);
                if r.is_none() {
                    self.state = before;
                }
                r
            },
            MatchStatus::Lobby => Some(self.step_lobby(items, now, lobby_ttl)),
            MatchStatus::Finished => {
                let messages: Vec<ServerMessage> = Vec::new();
                proof {
                    assert(crate::network::message_views(messages@) =~= Seq::empty());
                }
                Some(StepOutcome { messages, stop: true })
            },
        }
    }

    /// One turn of the match loop; the dice are the match's own, and are left
    /// alone where nothing is to be rolled for. Where the clock or a health
    /// would leave its range there is no result and, but for the dice, the match
    /// is as before.
    pub fn step(
        &mut self,
        items: &Vec<InputItem>,
        chance: Double,
        now: u128,
        lobby_ttl: u128,
    ) -> (r: Option<StepOutcome>)
        requires
            old(self).wf(),
        ensures
            final(self).wf(),
            old(self)@.step_rolls(items@) == 0 ==> final(self)@.rng == old(self)@.rng,
            r is None ==> final(self)@ == (MatchView { rng: final(self)@.rng, ..old(self)@ }),
            exists|rolls: Seq<u64>|
                rolls.len() == old(self)@.step_rolls(items@) && (r is Some
                    <==> #[trigger] old(self)@.step_fits(items@, rolls, chance)) && (
                r matches Some(out) ==> {
                    let step = old(self)@.step(items@, rolls, chance, now, lobby_ttl);
                    &&& final(self)@ == (MatchView { rng: final(self)@.rng, ..step.after })
                    &&& crate::network::message_views(out.messages@) == step.said
                    &&& out.stop == step.stop
                }),
    {
        match self.state.status {
            MatchStatus::Active => {
                let before = self.current_state();
                let mut messages: Vec<ServerMessage> = Vec::new();
                proof {
                    assert(crate::network::message_views(messages@) =~= Seq::empty());
                }
                self.handle_inputs(items, &mut messages);
                proof {
                    lemma_inputs_frame(old(self)@, items@, items@.len() as int);
                    let said = old(self)@.after_inputs(items@, items@.len() as int).1;
                    assert(Seq::empty() + said =~= said);
                }
                let n = rolls_for_tick(&self.state);
                let rolls = draw_rolls(&mut self.rng, n);
                let r = self.advance(&before, messages, &rolls, chance, now);
                if r.is_none() {
                    self.state = before;
                }
                proof {
                    assert(r is Some <==> old(self)@.step_fits(items@, rolls@, chance));
                }
                r
            },
            _ => {
                let rolls: Vec<u64> = Vec::new();
                self.step_with_rolls(items, &rolls, chance, now, lobby_ttl)
            },
        }
    }
}

// ---------------------------------------------------------------------------
// The registry
// ---------------------------------------------------------------------------

/// A match and the id it is, or was, registered under.
pub struct MatchEntry {
    pub id: String,
    pub inner: MatchInner,
}

/// Registry of live matches plus the server-wide default configuration. A match
/// that leaves the registry while its loop may still be running is set aside
/// for whoever runs that loop.
pub struct MatchManager {
    pub config: Config,
    matches: Vec<MatchEntry>,
    set_aside: Vec<MatchEntry>,
}

/// What a `MatchManager` holds.
#[verifier::ext_equal]
pub struct ManagerView {
    pub config: ConfigView,
    pub matches: Map<Seq<char>, MatchView>,
    /// Matches that left the registry, with their ids, in the order of leaving.
    pub set_aside: Seq<(Seq<char>, MatchView)>,
}

/// The entry at index `i` is registered under `id`.
spec fn entry_at(entries: Seq<MatchEntry>, id: Seq<char>, i: int) -> bool {
    0 <= i < entries.len() && entries[i].id@ == id
}

/// The registered ids.
spec fn registered(entries: Seq<MatchEntry>) -> Seq<Seq<char>> {
    entries.map_values(|e: MatchEntry| e.id@)
}

/// What a list of entries holds.
pub open spec fn entry_views(entries: Seq<MatchEntry>) -> Seq<(Seq<char>, MatchView)> {
    entries.map_values(|e: MatchEntry| (e.id@, e.inner@))
}

/// Matches by id.
spec fn by_id(entries: Seq<MatchEntry>) -> Map<Seq<char>, MatchView> {
    Map::new(
        |id: Seq<char>| exists|i: int| entry_at(entries, id, i),
        |id: Seq<char>| entries[choose|i: int| entry_at(entries, id, i)].inner@,
    )
}

impl View for MatchManager {
    type V = ManagerView;

    closed spec fn view(&self) -> ManagerView {
        ManagerView {
            config: self.config@,
            matches: by_id(self.matches@),
            set_aside: entry_views(self.set_aside@),
        }
    }
}

impl ManagerView {
    /// The configuration of a match: the server's, with the overrides of the
    /// request.
    pub open spec fn effective(self, req: CreateMatchRequest) -> ConfigView {
        ConfigView {
            board: match req.board {
                Some(board) => board,
                None => self.config.board,
            },
            simulation: match req.simulation {
                Some(simulation) => simulation,
                None => self.config.simulation,
            },
            ..self.config
        }
    }

    /// There is no room for another match.
    pub open spec fn at_capacity(self) -> bool {
        self.matches.dom().len() >= self.config.max_matches
    }

    /// Why a create request is refused, if it is.
    pub open spec fn create_fault(self, req: CreateMatchRequest) -> Option<Seq<char>> {
        if self.at_capacity() {
            Some(
                crate::text::with_number(
                    "server is at max_matches ("@,
                    self.config.max_matches as nat,
                    "); try again later"@,
                ),
            )
        } else {
            self.effective(req).complaint()
        }
    }

    /// Why a join request is refused, if it is.
    pub open spec fn join_fault(
        self,
        id: Seq<char>,
        presented: Option<Seq<char>>,
        fresh: Seq<char>,
    ) -> Option<Seq<char>> {
        if !self.matches.dom().contains(id) {
            Some("match not found"@)
        } else if self.matches[id].join(presented, fresh) is None {
            Some("match is full"@)
        } else {
            None
        }
    }

    /// The registry with one match changed.
    pub open spec fn with_match(self, id: Seq<char>, m: MatchView) -> ManagerView {
        ManagerView { matches: self.matches.insert(id, m), ..self }
    }

    /// The registry with a new match. One that had the id before is set aside.
    pub open spec fn with_new(self, id: Seq<char>, m: MatchView) -> ManagerView {
        ManagerView {
            set_aside: if self.matches.dom().contains(id) {
                self.set_aside.push((id, self.matches[id]))
            } else {
                self.set_aside
            },
            ..self.with_match(id, m)
        }
    }
}

impl MatchView {
    /// A lobby with nobody seated.
    pub open spec fn opened(cfg: ConfigView, now: u128, rng: StdRng) -> MatchView {
        MatchView {
            cfg,
            state: StateView::lobby(cfg.board, cfg.simulation.unit_hp),
            white_token: None,
            black_token: None,
            created_at: now,
            finished_at: None,
            rng,
        }
    }

    /// An unstarted lobby that has waited too long, or a match that ended long
    /// enough ago.
    pub open spec fn expired(self, now: u128, lobby_ttl: u128, finished_ttl: u128) -> bool {
        match self.state.status {
            MatchStatus::Lobby => age(now, self.created_at) > lobby_ttl,
            MatchStatus::Finished => match self.finished_at {
                Some(t) => age(now, t) > finished_ttl,
                None => false,
            },
            MatchStatus::Active => false,
        }
    }
}

/// An entry of a registry without duplicates is what its id maps to.
proof fn lemma_by_id(entries: Seq<MatchEntry>, i: int)
    requires
        registered(entries).no_duplicates(),
        0 <= i < entries.len(),
    ensures
        by_id(entries).dom().contains(entries[i].id@),
        by_id(entries)[entries[i].id@] == entries[i].inner@,
{
    let id = entries[i].id@;
    assert(entry_at(entries, id, i));
    let j = choose|j: int| entry_at(entries, id, j);
    assert(registered(entries)[i] == registered(entries)[j]);
}

/// The registered ids are the domain of the map.
proof fn lemma_registered(entries: Seq<MatchEntry>)
    requires
        registered(entries).no_duplicates(),
    ensures
        by_id(entries).dom() == registered(entries).to_set(),
        by_id(entries).dom().finite(),
        by_id(entries).dom().len() == entries.len(),
{
    let ids = registered(entries);
    assert forall|id: Seq<char>| by_id(entries).dom().contains(id) <==> ids.to_set().contains(
        id,
    ) by {
        if by_id(entries).dom().contains(id) {
            let i = choose|i: int| entry_at(entries, id, i);
            assert(ids[i] == id);
        }
        if ids.contains(id) {
            let i = choose|i: int| 0 <= i < ids.len() && ids[i] == id;
            assert(entry_at(entries, id, i));
        }
    }
    assert(by_id(entries).dom() =~= ids.to_set());
    ids.unique_seq_to_set();
}

/// A new entry under a new id extends the map.
proof fn lemma_push(entries: Seq<MatchEntry>, e: MatchEntry)
    requires
        registered(entries).no_duplicates(),
        forall|i: int| 0 <= i < entries.len() ==> (#[trigger] entries[i]).id@ != e.id@,
    ensures
        registered(entries.push(e)).no_duplicates(),
        by_id(entries.push(e)) == by_id(entries).insert(e.id@, e.inner@),
{
    let more = entries.push(e);
    assert(registered(more) =~= registered(entries).push(e.id@));
    lemma_registered(entries);
    lemma_registered(more);
    assert forall|id: Seq<char>| by_id(more).dom().contains(id) implies by_id(more)[id] == by_id(
        entries,
    ).insert(e.id@, e.inner@)[id] by {
        let i = choose|i: int| entry_at(more, id, i);
        lemma_by_id(more, i);
        if i < entries.len() {
            lemma_by_id(entries, i);
        }
    }
    assert forall|id: Seq<char>| #[trigger]
        by_id(more).dom().contains(id) <==> by_id(entries).insert(
            e.id@,
            e.inner@,
        ).dom().contains(id) by {
        if by_id(more).dom().contains(id) {
            let i = choose|i: int| entry_at(more, id, i);
            if i < entries.len() {
                assert(entry_at(entries, id, i));
            }
        }
        if id == e.id@ {
            assert(entry_at(more, id, entries.len() as int));
        } else if by_id(entries).dom().contains(id) {
            let i = choose|i: int| entry_at(entries, id, i);
            assert(entry_at(more, id, i));
        }
    }
    assert(by_id(more) =~= by_id(entries).insert(e.id@, e.inner@));
}

/// Replacing the match of an entry replaces what its id maps to.
proof fn lemma_update(entries: Seq<MatchEntry>, i: int, e: MatchEntry)
    requires
        registered(entries).no_duplicates(),
        0 <= i < entries.len(),
        e.id@ == entries[i].id@,
    ensures
        registered(entries.update(i, e)).no_duplicates(),
        by_id(entries.update(i, e)) == by_id(entries).insert(e.id@, e.inner@),
{
    let new = entries.update(i, e);
    assert(registered(new) =~= registered(entries));
    lemma_registered(entries);
    lemma_registered(new);
    lemma_by_id(entries, i);
    assert forall|id: Seq<char>| by_id(new).dom().contains(id) implies by_id(new)[id] == by_id(
        entries,
    ).insert(e.id@, e.inner@)[id] by {
        let j = choose|j: int| entry_at(new, id, j);
        lemma_by_id(new, j);
        lemma_by_id(entries, j);
        if j != i {
            assert(registered(entries)[j] != registered(entries)[i]);
        }
    }
    assert(by_id(new) =~= by_id(entries).insert(e.id@, e.inner@));
}

/// Removing an entry removes its id from the map.
proof fn lemma_remove(entries: Seq<MatchEntry>, i: int)
    requires
        registered(entries).no_duplicates(),
        0 <= i < entries.len(),
    ensures
        registered(entries.remove(i)).no_duplicates(),
        by_id(entries.remove(i)) == by_id(entries).remove(entries[i].id@),
{
    let less = entries.remove(i);
    let gone = entries[i].id@;
    assert(registered(less) =~= registered(entries).remove(i));
    assert forall|a: int, b: int| 0 <= a < b < registered(less).len() implies registered(less)[a]
        != registered(less)[b] by {
        let x = if a < i {
            a
        } else {
            a + 1
        };
        let y = if b < i {
            b
        } else {
            b + 1
        };
        assert(registered(less)[a] == registered(entries)[x]);
        assert(registered(less)[b] == registered(entries)[y]);
    }
    lemma_registered(entries);
    lemma_registered(less);
    assert forall|id: Seq<char>| #[trigger]
        by_id(less).dom().contains(id) <==> by_id(entries).remove(gone).dom().contains(id) by {
        if by_id(less).dom().contains(id) {
            let j = choose|j: int| entry_at(less, id, j);
            let x = if j < i {
                j
            } else {
                j + 1
            };
            assert(entry_at(entries, id, x));
            assert(registered(entries)[x] != registered(entries)[i]);
        }
        if by_id(entries).remove(gone).dom().contains(id) {
            let x = choose|x: int| entry_at(entries, id, x);
            assert(x != i);
            assert(entry_at(
                less,
                id,
                if x < i {
                    x
                } else {
                    x - 1
                },
            ));
        }
    }
    assert forall|id: Seq<char>| by_id(less).dom().contains(id) implies by_id(less)[id] == by_id(
        entries,
    ).remove(gone)[id] by {
        let j = choose|j: int| entry_at(less, id, j);
        lemma_by_id(less, j);
        lemma_by_id(
            entries,
            if j < i {
                j
            } else {
                j + 1
            },
        );
    }
    assert(by_id(less) =~= by_id(entries).remove(gone));
}

impl MatchManager {
    /// No id is registered twice and every match is well formed.
    pub closed spec fn wf(&self) -> bool {
        &&& registered(self.matches@).no_duplicates()
        &&& forall|i: int| 0 <= i < self.matches@.len() ==> (#[trigger] self.matches@[i]).inner.wf()
        &&& forall|i: int|
            0 <= i < self.set_aside@.len() ==> (#[trigger] self.set_aside@[i]).inner.wf()
    }

    pub fn new(config: Config) -> (r: Self)
        ensures
            r.wf(),
            r@ == (ManagerView {
                config: config@,
                matches: Map::empty(),
                set_aside: Seq::empty(),
            }),
    {
        let r = MatchManager { config, matches: Vec::new(), set_aside: Vec::new() };
        proof {
            assert(by_id(r.matches@) =~= Map::empty());
            assert(entry_views(r.set_aside@) =~= Seq::empty());
        }
        r
    }

    /// Index of the entry registered under an id.
    fn position(&self, id: &str) -> (r: Option<usize>)
        ensures
            r matches Some(i) ==> entry_at(self.matches@, id@, i as int),
            r is Some <==> self@.matches.dom().contains(id@),
            r is None ==> forall|i: int|
                0 <= i < self.matches@.len() ==> (#[trigger] self.matches@[i]).id@ != id@,
    {
        for i in 0..self.matches.len()
            invariant
                forall|j: int| 0 <= j < i ==> (#[trigger] self.matches@[j]).id@ != id@,
        {
            if same_text(self.matches[i].id.as_str(), id) {
                assert(entry_at(self.matches@, id@, i as int));
                return Some(i);
            }
        }
        None
    }

    /// The match registered under an id.
    pub fn get(&self, id: &str) -> (r: Option<&MatchInner>)
        requires
            self.wf(),
        ensures
            r is Some <==> self@.matches.dom().contains(id@),
            r matches Some(m) ==> m.wf() && m@ == self@.matches[id@],
    {
        match self.position(id) {
            Some(i) => {
                proof {
                    lemma_by_id(self.matches@, i as int);
                }
                Some(&self.matches[i].inner)
            },
            None => None,
        }
    }

    pub fn live_count(&self) -> (r: usize)
        requires
            self.wf(),
        ensures
            self@.matches.dom().finite(),
            r == self@.matches.dom().len(),
    {
        proof {
            lemma_registered(self.matches@);
        }
        self.matches.len()
    }

    /// Registers a match. One that had the id before is set aside.
    fn register(&mut self, id: String, inner: MatchInner)
        requires
            old(self).wf(),
            inner.wf(),
        ensures
            final(self).wf(),
            final(self)@ == old(self)@.with_new(id@, inner@),
    {
        match self.position(id.as_str()) {
            Some(i) => {
                let mut e = MatchEntry { id, inner };
                proof {
                    lemma_by_id(self.matches@, i as int);
                    lemma_update(self.matches@, i as int, e);
                }
                std::mem::swap(&mut e, &mut self.matches[i]);
                self.set_aside.push(e);
                proof {
                    assert(entry_views(self.set_aside@) =~= entry_views(old(self).set_aside@).push(
                        (e.id@, e.inner@),
                    ));
                }
            },
            None => {
                let e = MatchEntry { id, inner };
                proof {
                    lemma_push(self.matches@, e);
                }
                self.matches.push(e);
            },
        }
    }

    /// Creates a match under the given id, with the given dice.
    pub fn create_with(
        &mut self,
        req: CreateMatchRequest,
        id: String,
        rng: StdRng,
        now: u128,
    ) -> (r: Result<CreateMatchResponse, String>)
        requires
            old(self).wf(),
        ensures
            final(self).wf(),
            match old(self)@.create_fault(req) {
                Some(text) => (r matches Err(e) && e@ == text) && final(self)@ == old(self)@,
                None => {
                    let cfg = old(self)@.effective(req);
                    &&& r matches Ok(resp) && resp.match_id@ == id@ && resp.config@ == cfg
                    &&& final(self)@ == old(self)@.with_new(id@, MatchView::opened(cfg, now, rng))
                },
            },
    {
        if self.live_count() >= self.config.server.max_matches {
            return Err(
                number_text(
                    "server is at max_matches (",
                    self.config.server.max_matches as u64,
                    "); try again later",
                ),
            );
        }
        let mut cfg = self.config.clone();
        if let Some(board) = req.board {
            cfg.board = board;
        }
        if let Some(simulation) = req.simulation {
            cfg.simulation = simulation;
        }
        match cfg.validate() {
            Ok(()) => {},
            Err(e) => {
                return Err(e);
            },
        }
        let state = GameState::new(&cfg.board, cfg.simulation.unit_hp);
        let inner = MatchInner {
            cfg: cfg.clone(),
            state,
            white_token: None,
            black_token: None,
            created_at: now,
            finished_at: None,
            rng,
        };
        self.register(id.clone(), inner);
        Ok(CreateMatchResponse { match_id: id, config: cfg })
    }

    /// Creates a match under a random id of twelve hexadecimal digits.
    pub fn create(&mut self, req: CreateMatchRequest, now: u128) -> (r: Result<
        CreateMatchResponse,
        String,
    >)
        requires
            old(self).wf(),
        ensures
            final(self).wf(),
            match old(self)@.create_fault(req) {
                Some(text) => (r matches Err(e) && e@ == text) && final(self)@ == old(self)@,
                None => {
                    let cfg = old(self)@.effective(req);
                    &&& r matches Ok(resp) && resp.config@ == cfg && crate::chance::is_match_id(
                        resp.match_id@,
                    ) && exists|rng: StdRng|
                        final(self)@ == old(self)@.with_new(
                            resp.match_id@,
                            #[trigger] MatchView::opened(cfg, now, rng),
                        )
                },
            },
    {
        let id = draw_match_id();
        let rng = seeded_by_os();
        self.create_with(req, id, rng, now)
    }

    /// Seats a player in a match; `fresh` is the token for a new seat.
    pub fn join_with(&mut self, id: &str, req: &JoinRequest, fresh: String) -> (r: Result<
        (JoinResponse, Vec<ServerMessage>),
        String,
    >)
        requires
            old(self).wf(),
        ensures
            final(self).wf(),
            match old(self)@.join_fault(id@, chars(req.token), fresh@) {
                Some(text) => (r matches Err(e) && e@ == text) && final(self)@ == old(self)@,
                None => {
                    let seating = old(self)@.matches[id@].join(chars(req.token), fresh@)->0;
                    &&& r matches Ok(out) && out.0.owner == seating.owner && out.0.player_token@
                        == seating.token && crate::network::message_views(out.1@) == seating.told
                    &&& final(self)@ == old(self)@.with_match(id@, seating.after)
                },
            },
    {
        let i = match self.position(id) {
            Some(i) => i,
            None => {
                return Err("match not found".to_owned());
            },
        };
        proof {
            lemma_by_id(self.matches@, i as int);
        }
        let r = self.matches[i].inner.join_with(req, fresh);
        proof {
            lemma_update(old(self).matches@, i as int, self.matches@[i as int]);
            assert(self.matches@ =~= old(self).matches@.update(
                i as int,
                self.matches@[i as int],
            ));
            assert(old(self)@.matches.insert(id@, old(self)@.matches[id@]) =~= old(self)@.matches);
        }
        match r {
            Some(out) => Ok(out),
            None => Err("match is full".to_owned()),
        }
    }

    /// Joins a match as a player. A second join starts the match. Presenting a
    /// known token rejoins the same side; anyone else is seated under a random
    /// token.
    pub fn join(&mut self, id: &str, req: &JoinRequest) -> (r: Result<
        (JoinResponse, Vec<ServerMessage>),
        String,
    >)
        requires
            old(self).wf(),
        ensures
            final(self).wf(),
            exists|fresh: Seq<char>|
                crate::chance::is_token(fresh) && (match #[trigger] old(self)@.join_fault(
                    id@,
                    chars(req.token),
                    fresh,
                ) {
                    Some(text) => (r matches Err(e) && e@ == text) && final(self)@ == old(self)@,
                    None => {
                        let seating = old(self)@.matches[id@].join(chars(req.token), fresh)->0;
                        &&& r matches Ok(out) && out.0.owner == seating.owner
                            && out.0.player_token@ == seating.token
                            && crate::network::message_views(out.1@) == seating.told
                        &&& final(self)@ == old(self)@.with_match(id@, seating.after)
                    },
                }),
    {
        let fresh = draw_token();
        self.join_with(id, req, fresh)
    }

    /// Public information on a match.
    pub fn info(&self, id: &str) -> (r: Option<MatchInfo>)
        requires
            self.wf(),
        ensures
            r is Some <==> self@.matches.dom().contains(id@),
            r matches Some(info) ==> {
                let m = self@.matches[id@];
                &&& info.match_id@ == id@
                &&& info.status == m.state.status
                &&& info.tick == m.state.tick
                &&& info.players.white == (m.white_token is Some)
                &&& info.players.black == (m.black_token is Some)
                &&& info.units_alive.white == crate::game_state::army(
                    m.state.units,
                    Owner::White,
                ).len()
                &&& info.units_alive.black == crate::game_state::army(
                    m.state.units,
                    Owner::Black,
                ).len()
                &&& info.winner == m.state.winner
                &&& info.end_reason == m.state.end_reason
            },
    {
        let inner = match self.get(id) {
            Some(m) => m,
            None => {
                return None;
            },
        };
        Some(
            MatchInfo {
                match_id: id.to_owned(),
                status: inner.state.status,
                tick: inner.state.tick,
                players: PlayersInfo {
                    white: inner.white_token.is_some(),
                    black: inner.black_token.is_some(),
                },
                units_alive: UnitsAlive {
                    white: inner.state.alive_count(Owner::White),
                    black: inner.state.alive_count(Owner::Black),
                },
                winner: inner.state.winner,
                end_reason: inner.state.end_reason,
            },
        )
    }
}

// ---------------------------------------------------------------------------
// Running and collecting matches
// ---------------------------------------------------------------------------

impl ManagerView {
    /// The ids of expired matches.
    pub open spec fn stale(self, now: u128, lobby_ttl: u128, finished_ttl: u128) -> Set<Seq<char>> {
        self.matches.dom().filter(
            |id: Seq<char>| self.matches[id].expired(now, lobby_ttl, finished_ttl),
        )
    }

    /// The registry once the listed matches have been set aside.
    pub open spec fn without(self, gone: Seq<Seq<char>>) -> ManagerView {
        ManagerView {
            matches: self.matches.remove_keys(gone.to_set()),
            set_aside: self.set_aside + gone.map_values(
                |id: Seq<char>| (id, self.matches[id]),
            ),
            ..self
        }
    }
}

/// The characters of each text.
pub open spec fn texts(list: Seq<String>) -> Seq<Seq<char>> {
    list.map_values(|t: String| t@)
}

impl MatchInner {
    /// Whether the match is ripe for collection.
    pub fn is_expired(&self, now: u128, lobby_ttl: u128, finished_ttl: u128) -> (r: bool)
        ensures
            r == self@.expired(now, lobby_ttl, finished_ttl),
    {
        match self.state.status {
            MatchStatus::Lobby => now > self.created_at && now - self.created_at > lobby_ttl,
            MatchStatus::Finished => match self.finished_at {
                Some(t) => now > t && now - t > finished_ttl,
                None => false,
            },
            MatchStatus::Active => false,
        }
    }
}

impl MatchManager {
    /// One turn of the loop of a registered match; a match that was set aside
    /// takes its turns by itself. `None` where the clock or a health would leave
    /// its range; but for the dice, the match is then as before.
    pub fn step_match(
        &mut self,
        id: &str,
        items: &Vec<InputItem>,
        chance: Double,
        now: u128,
        lobby_ttl: u128,
    ) -> (r: Option<StepOutcome>)
        requires
            old(self).wf(),
            old(self)@.matches.dom().contains(id@),
        ensures
            final(self).wf(),
            final(self)@.matches.dom().contains(id@),
            ({
                let m = old(self)@.matches[id@];
                let dice = final(self)@.matches[id@].rng;
                &&& m.step_rolls(items@) == 0 ==> dice == m.rng
                &&& r is None ==> final(self)@ == old(self)@.with_match(
                    id@,
                    MatchView { rng: dice, ..m },
                )
                &&& exists|rolls: Seq<u64>|
                    rolls.len() == m.step_rolls(items@) && (r is Some <==> #[trigger] m.step_fits(
                        items@,
                        rolls,
                        chance,
                    )) && (r matches Some(out) ==> {
                        let step = m.step(items@, rolls, chance, now, lobby_ttl);
                        &&& final(self)@ == old(self)@.with_match(
                            id@,
                            MatchView { rng: dice, ..step.after },
                        )
                        &&& crate::network::message_views(out.messages@) == step.said
                        &&& out.stop == step.stop
                    })
            }),
    {
        let i = self.position(id).unwrap();
        proof {
            lemma_by_id(self.matches@, i as int);
        }
        let r = self.matches[i].inner.step(items, chance, now, lobby_ttl);
        proof {
            lemma_update(old(self).matches@, i as int, self.matches@[i as int]);
            assert(self.matches@ =~= old(self).matches@.update(
                i as int,
                self.matches@[i as int],
            ));
        }
        r
    }

    /// Hands over the matches that were set aside, with their ids, in the order
    /// of leaving.
    pub fn take_set_aside(&mut self) -> (r: Vec<MatchEntry>)
        requires
            old(self).wf(),
        ensures
            final(self).wf(),
            entry_views(r@) == old(self)@.set_aside,
            forall|i: int| 0 <= i < r@.len() ==> (#[trigger] r@[i]).inner.wf(),
            final(self)@ == (ManagerView { set_aside: Seq::empty(), ..old(self)@ }),
    {
        let mut r: Vec<MatchEntry> = Vec::new();
        std::mem::swap(&mut r, &mut self.set_aside);
        proof {
            assert(entry_views(self.set_aside@) =~= Seq::empty());
        }
        r
    }

    /// Takes expired matches, unstarted lobbies and old finished games, out of
    /// the registry and sets them aside. Returns their ids.
    pub fn collect_garbage(&mut self, now: u128, lobby_ttl: u128, finished_ttl: u128) -> (r: Vec<
        String,
    >)
        requires
            old(self).wf(),
        ensures
            final(self).wf(),
            final(self)@ == old(self)@.without(texts(r@)),
            texts(r@).no_duplicates(),
            texts(r@).to_set() == old(self)@.stale(now, lobby_ttl, finished_ttl),
    {
        let ghost start = self@;
        let ghost stale = start.stale(now, lobby_ttl, finished_ttl);
        let mut r: Vec<String> = Vec::new();
        let mut i: usize = 0;
        proof {
            assert(start.matches.remove_keys(texts(r@).to_set()) =~= start.matches);
            assert(start.without(texts(r@)) =~= start);
        }
        while i < self.matches.len()
            invariant
                self.wf(),
                start == old(self)@,
                stale == start.stale(now, lobby_ttl, finished_ttl),
                self.config == old(self).config,
                i <= self.matches@.len(),
                self@ == start.without(texts(r@)),
                texts(r@).no_duplicates(),
                forall|k: int| 0 <= k < r@.len() ==> stale.contains(#[trigger] texts(r@)[k]),
                forall|j: int|
                    0 <= j < i ==> !(#[trigger] self.matches@[j]).inner@.expired(
                        now,
                        lobby_ttl,
                        finished_ttl,
                    ),
            decreases self.matches@.len() - i,
        {
            proof {
                lemma_by_id(self.matches@, i as int);
            }
            if self.matches[i].inner.is_expired(now, lobby_ttl, finished_ttl) {
                let ghost entries = self.matches@;
                let ghost gone = texts(r@);
                proof {
                    lemma_remove(entries, i as int);
                }
                let ghost aside = entry_views(self.set_aside@);
                let e = self.matches.remove(i);
                r.push(e.id.clone());
                self.set_aside.push(e);
                proof {
                    assert(entry_views(self.set_aside@) =~= aside.push((e.id@, e.inner@)));
                    assert(texts(r@) =~= gone.push(e.id@));
                    assert(!gone.contains(e.id@)) by {
                        assert(!gone.to_set().contains(e.id@));
                    }
                    assert forall|x: Seq<char>| #[trigger]
                        texts(r@).to_set().contains(x) <==> gone.to_set().contains(x) || x
                            == e.id@ by {
                        if gone.contains(x) {
                            let k = choose|k: int| 0 <= k < gone.len() && gone[k] == x;
                            assert(texts(r@)[k] == x);
                        }
                        assert(texts(r@)[gone.len() as int] == e.id@);
                    }
                    assert(by_id(self.matches@) =~= start.matches.remove_keys(texts(r@).to_set()));
                    assert(self@ =~= start.without(texts(r@)));
                    assert forall|k: int| 0 <= k < r@.len() implies stale.contains(
                        #[trigger] texts(r@)[k],
                    ) by {
                        if k < gone.len() {
                            assert(texts(r@)[k] == gone[k]);
                        }
                    }
                }
            } else {
                i = i + 1;
            }
        }
        proof {
            let gone = texts(r@);
            assert forall|id: Seq<char>| gone.to_set().contains(id) <==> stale.contains(id) by {
                if stale.contains(id) && !gone.contains(id) {
                    assert(by_id(self.matches@).dom().contains(id));
                    let k = choose|k: int| entry_at(self.matches@, id, k);
                    lemma_by_id(self.matches@, k);
                    assert(!self.matches@[k].inner@.expired(now, lobby_ttl, finished_ttl));
                }
                if gone.contains(id) {
                    let k = choose|k: int| 0 <= k < gone.len() && gone[k] == id;
                    assert(stale.contains(gone[k]));
                }
            }
            assert(gone.to_set() =~= stale);
        }
        r
    }
}

} // verus!
