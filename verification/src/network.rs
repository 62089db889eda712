//! Wire protocol: the messages of both directions, and what a connection does
//! with each frame.
//!
//! Client messages are validated in `input`. Server messages fall into three
//! groups: per-connection frames (welcome, snapshot), per-tick broadcasts
//! (snapshot or delta), and notifications (event, error, pong).
//!
//! Every client gets a full snapshot on connect and on reconnect, from which it
//! rebuilds its world.

use crate::events::{EventView, GameEvent};
use crate::game_state::{
    ArtilleryType, EndReason, GameState, MatchStatus, Owner, StateDelta, StateView, Tile, Unit,
    UnitId,
};
use vstd::prelude::*;
use vstd::string::*;

verus! {

/// Who a connection is. Players are authenticated by the token issued on join.
#[derive(Debug, Clone, Copy, PartialEq, Eq, Structural)]
pub enum Role {
    Player(Owner),
    Spectator,
}

impl Role {
    /// The side that a connection plays, if any.
    pub open spec fn side(self) -> Option<Owner> {
        match self {
            Role::Player(o) => Some(o),
            Role::Spectator => None,
        }
    }

    pub fn owner(self) -> (r: Option<Owner>)
        ensures
            r == self.side(),
    {
        match self {
            Role::Player(o) => Some(o),
            Role::Spectator => None,
        }
    }
}

/// Messages the client sends.
#[derive(Debug, Clone, Copy, PartialEq, Eq, Structural)]
pub enum ClientMessage {
    Select { unit_id: UnitId },
    Move { unit_id: UnitId, target: Tile },
    Upgrade { unit_id: UnitId, artillery_type: ArtilleryType },
    Ping,
}

/// An item on the match's input queue.
#[derive(Debug, Clone, Copy, PartialEq, Eq, Structural)]
pub struct InputItem {
    pub from: Role,
    pub msg: ClientMessage,
}

/// Messages the server sends.
#[allow(inconsistent_fields)]
#[derive(Debug)]
pub enum ServerMessage {
    Welcome { match_id: String, you: Option<Owner>, status: MatchStatus, tick: u64 },
    StateSnapshot { state: GameState },
    StateDelta { delta: StateDelta },
    Event { event: GameEvent },
    /// `to` routes the error to a single player; clients must ignore errors
    /// addressed to someone else. Without `to` it is a spectator or global
    /// error.
    Error { to: Option<Owner>, code: String, detail: String },
    Pong { tick: u64 },
}

/// What a `StateDelta` says.
#[verifier::ext_equal]
pub struct DeltaView {
    pub tick: u64,
    pub status: MatchStatus,
    pub winner: Option<Owner>,
    pub end_reason: Option<EndReason>,
    pub updated: Seq<Unit>,
    pub removed: Seq<UnitId>,
}

impl View for StateDelta {
    type V = DeltaView;

    open spec fn view(&self) -> DeltaView {
        DeltaView {
            tick: self.tick,
            status: self.status,
            winner: self.winner,
            end_reason: self.end_reason,
            updated: self.updated@,
            removed: self.removed@,
        }
    }
}

/// What a `ServerMessage` says.
#[allow(inconsistent_fields)]
#[verifier::ext_equal]
pub enum MessageView {
    Welcome { match_id: Seq<char>, you: Option<Owner>, status: MatchStatus, tick: u64 },
    StateSnapshot { state: StateView },
    StateDelta { delta: DeltaView },
    Event { event: EventView },
    Error { to: Option<Owner>, code: Seq<char>, detail: Seq<char> },
    Pong { tick: u64 },
}

impl View for ServerMessage {
    type V = MessageView;

    open spec fn view(&self) -> MessageView {
        match *self {
            ServerMessage::Welcome { match_id, you, status, tick } => MessageView::Welcome {
                match_id: match_id@,
                you,
                status,
                tick,
            },
            ServerMessage::StateSnapshot { state } => MessageView::StateSnapshot { state: state@ },
            ServerMessage::StateDelta { delta } => MessageView::StateDelta { delta: delta@ },
            ServerMessage::Event { event } => MessageView::Event { event: event@ },
            ServerMessage::Error { to, code, detail } => MessageView::Error {
                to,
                code: code@,
                detail: detail@,
            },
            ServerMessage::Pong { tick } => MessageView::Pong { tick },
        }
    }
}

impl Clone for StateDelta {
    fn clone(&self) -> (r: Self)
        ensures
            r@ == self@,
    {
        let updated = self.updated.clone();
        let removed = self.removed.clone();
        proof {
            assert(updated@ =~= self.updated@);
            assert(removed@ =~= self.removed@);
        }
        StateDelta {
            tick: self.tick,
            status: self.status,
            winner: self.winner,
            end_reason: self.end_reason,
            updated,
            removed,
        }
    }
}

impl Clone for ServerMessage {
    fn clone(&self) -> (r: Self)
        ensures
            r@ == self@,
    {
        match self {
            ServerMessage::Welcome { match_id, you, status, tick } => ServerMessage::Welcome {
                match_id: match_id.clone(),
                you: *you,
                status: *status,
                tick: *tick,
            },
            ServerMessage::StateSnapshot { state } => ServerMessage::StateSnapshot {
                state: state.clone(),
            },
            ServerMessage::StateDelta { delta } => ServerMessage::StateDelta {
                delta: delta.clone(),
            },
            ServerMessage::Event { event } => ServerMessage::Event { event: event.clone() },
            ServerMessage::Error { to, code, detail } => ServerMessage::Error {
                to: *to,
                code: code.clone(),
                detail: detail.clone(),
            },
            ServerMessage::Pong { tick } => ServerMessage::Pong { tick: *tick },
        }
    }
}

impl MessageView {
    /// The wire name of a message's type.
    pub open spec fn tag(self) -> Seq<char> {
        match self {
            MessageView::Welcome { .. } => "welcome"@,
            MessageView::StateSnapshot { .. } => "state_snapshot"@,
            MessageView::StateDelta { .. } => "state_delta"@,
            MessageView::Event { .. } => "event"@,
            MessageView::Error { .. } => "error"@,
            MessageView::Pong { .. } => "pong"@,
        }
    }
}

impl ServerMessage {
    /// The wire name of the message's type.
    pub fn type_tag(&self) -> (r: &'static str)
        ensures
            r@ == self@.tag(),
    {
        match self {
            ServerMessage::Welcome { .. } => "welcome",
            ServerMessage::StateSnapshot { .. } => "state_snapshot",
            ServerMessage::StateDelta { .. } => "state_delta",
            ServerMessage::Event { .. } => "event",
            ServerMessage::Error { .. } => "error",
            ServerMessage::Pong { .. } => "pong",
        }
    }
}

/// What a list of messages says.
pub open spec fn message_views(messages: Seq<ServerMessage>) -> Seq<MessageView> {
    messages.map_values(|m: ServerMessage| m@)
}

/// Appends a message.
pub fn send(messages: &mut Vec<ServerMessage>, message: ServerMessage)
    ensures
        message_views(final(messages)@) == message_views(old(messages)@).push(message@),
{
    messages.push(message);
    proof {
        assert(message_views(messages@) =~= message_views(old(messages)@).push(message@));
    }
}

/// Capacity of the per-connection direct channel (acks, errors, pong).
pub const DIRECT_CHANNEL_SIZE: usize = 32;

/// Capacity of the per-match broadcast channel.
pub const BROADCAST_CHANNEL_SIZE: usize = 512;

/// Capacity of the per-match input queue.
pub const INPUT_QUEUE_SIZE: usize = 256;

// ---------------------------------------------------------------------------
// Connection
// ---------------------------------------------------------------------------

/// What a client is greeted with: a welcome, then the full state.
pub open spec fn greeting_for(match_id: Seq<char>, role: Role, state: StateView) -> Seq<
    MessageView,
> {
    seq![
        MessageView::Welcome {
            match_id,
            you: role.side(),
            status: state.status,
            tick: state.tick,
        },
        MessageView::StateSnapshot { state },
    ]
}

/// The messages that open a connection, on connect and on reconnect.
pub fn greeting(match_id: &str, role: Role, state: GameState) -> (r: Vec<ServerMessage>)
    ensures
        message_views(r@) == greeting_for(match_id@, role, state@),
{
    let mut r: Vec<ServerMessage> = Vec::new();
    let ghost whole = state@;
    r.push(
        ServerMessage::Welcome {
            match_id: match_id.to_owned(),
            you: role.owner(),
            status: state.status,
            tick: state.tick,
        },
    );
    r.push(ServerMessage::StateSnapshot { state });
    proof {
        assert(message_views(r@) =~= greeting_for(match_id@, role, whole));
    }
    r
}

/// A frame as it came from a client. A text frame carries what it parsed to,
/// or what the parser said.
#[derive(Debug)]
pub enum Frame {
    Text(Result<ClientMessage, String>),
    /// Binary data and protocol-level pings and pongs.
    Other,
    Close,
}

/// What to do about a frame.
#[derive(Debug)]
pub enum FrameAction {
    /// Answer this client directly.
    Reply(ServerMessage),
    /// Put the message on the match's input queue.
    Forward(InputItem),
    Skip,
    Stop,
}

/// What a parse failure is reported as.
pub open spec fn bad_message_text(detail: Seq<char>) -> Seq<char> {
    "bad message: "@ + detail
}

impl FrameAction {
    /// The action that a frame calls for.
    pub open spec fn answers(self, role: Role, frame: Frame) -> bool {
        match frame {
            Frame::Text(Ok(ClientMessage::Ping)) => self matches FrameAction::Reply(m) && m@ == (
            MessageView::Pong { tick: u64::MAX }),
            Frame::Text(Ok(msg)) => self == FrameAction::Forward(InputItem { from: role, msg }),
            Frame::Text(Err(detail)) => self matches FrameAction::Reply(m) && m@ == (
            MessageView::Error {
                to: role.side(),
                code: "bad_request"@,
                detail: bad_message_text(detail@),
            }),
            Frame::Other => self is Skip,
            Frame::Close => self is Stop,
        }
    }
}

/// Decides what a frame calls for. A ping is answered on the spot; any other
/// message is for the simulation.
pub fn on_frame(role: Role, frame: Frame) -> (r: FrameAction)
    ensures
        r.answers(role, frame),
{
    match frame {
        Frame::Text(Ok(ClientMessage::Ping)) => FrameAction::Reply(
            ServerMessage::Pong { tick: u64::MAX },
        ),
        Frame::Text(Ok(msg)) => FrameAction::Forward(InputItem { from: role, msg }),
        Frame::Text(Err(detail)) => {
            let mut text = "bad message: ".to_owned();
            text.append(detail.as_str());
            FrameAction::Reply(
                ServerMessage::Error {
                    to: role.owner(),
                    code: "bad_request".to_owned(),
                    detail: text,
                },
            )
        },
        Frame::Other => FrameAction::Skip,
        Frame::Close => FrameAction::Stop,
    }
}

} // verus!
