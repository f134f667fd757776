//! The session: the state machine that stands between one client's
//! connection and the broker.

use crate::protocol::{parse, parse_frame, render, render_event};
use crate::protocol::{Command, CommandView, Event, EventView, Frame, FrameView};
use vstd::prelude::*;
use vstd::string::StringExecFns;

verus! {

/// How often a session pings its client, in milliseconds.
pub const HEARTBEAT_INTERVAL: u64 = 5_000;

/// How long a client may stay silent before its session gives it up, in
/// milliseconds: two missed pings.
pub const CLIENT_TIMEOUT: u64 = 10_000;

/// Where a session stands in its life.
#[derive(Debug, Clone, Copy, PartialEq, Eq)]
pub enum Phase {
    /// The handshake is under way; the broker does not know the session yet.
    Connecting,
    /// The session is registered with the broker.
    Active,
    /// The session is being taken down; nothing is sent to the client any more.
    Closing,
    /// The end.
    Closed,
}

/// What a session asks of its surroundings.
#[derive(Debug, PartialEq, Eq)]
pub enum Action {
    /// Hand the command to the broker.
    Forward { command: Command },
    /// Send the line to the client.
    Send { line: String },
    /// Send a ping to the client.
    Ping,
    /// Close the connection.
    Close,
}

/// An action as a mathematical value.
pub enum ActionView {
    Forward { command: CommandView },
    Send { line: Seq<char> },
    Ping,
    Close,
}

impl View for Action {
    type V = ActionView;

    open spec fn view(&self) -> ActionView {
        match *self {
            Action::Forward { command } => ActionView::Forward { command: command@ },
            Action::Send { line } => ActionView::Send { line: line@ },
            Action::Ping => ActionView::Ping,
            Action::Close => ActionView::Close,
        }
    }
}

/// The actions that a list holds, in the list's order.
pub open spec fn actions_of(v: Seq<Action>) -> Seq<ActionView> {
    v.map_values(|a: Action| a@)
}

/// The later of two times.
pub open spec fn later(a: nat, b: nat) -> nat {
    if a > b {
        a
    } else {
        b
    }
}

/// A session as a mathematical value.
pub struct SessionState {
    pub phase: Phase,
    /// The id that the broker gave the session; 0 before it is registered.
    pub id: nat,
    /// When the client last gave a sign of life.
    pub last_heartbeat: nat,
    /// The room that the session last asked for.
    pub room: Seq<char>,
    /// The name that the session last asked for.
    pub name: Option<Seq<char>>,
    /// How long the client may stay silent.
    pub timeout: nat,
}

impl SessionState {
    /// A session at the start of its handshake: not registered, bound for room
    /// `main`, without a name.
    pub open spec fn fresh(now: nat, timeout: nat) -> Self {
        SessionState {
            phase: Phase::Connecting,
            id: 0,
            last_heartbeat: now,
            room: "main"@,
            name: None,
            timeout,
        }
    }

    /// The session after the broker has registered it as `id`.
    pub open spec fn activate(self, id: nat, now: nat) -> Self {
        if self.phase is Connecting {
            SessionState {
                phase: Phase::Active,
                id,
                last_heartbeat: later(self.last_heartbeat, now),
                ..self
            }
        } else {
            self
        }
    }

    /// The command that tells the broker of a sign of life.
    pub open spec fn beat(self) -> ActionView {
        ActionView::Forward { command: CommandView::Heartbeat { id: self.id } }
    }

    /// What an inbound line asks the surroundings to do. Every line is a sign
    /// of life; a line that is no command is chat; an unknown command is
    /// answered with a notice and goes no further.
    pub open spec fn frame_actions(self, line: Seq<char>) -> Seq<ActionView> {
        if self.phase is Active {
            let id = self.id;
            match parse(line) {
                FrameView::Empty => seq![self.beat()],
                FrameView::List => seq![
                    self.beat(),
                    ActionView::Forward { command: CommandView::ListRooms { id } },
                ],
                FrameView::Join { room } => seq![
                    self.beat(),
                    ActionView::Forward { command: CommandView::Join { id, room } },
                ],
                FrameView::Name { name } => seq![
                    self.beat(),
                    ActionView::Forward { command: CommandView::SetName { id, name } },
                ],
                FrameView::Text { text } => seq![
                    self.beat(),
                    ActionView::Forward { command: CommandView::Broadcast { id, text } },
                ],
                FrameView::Unknown { line } => seq![
                    self.beat(),
                    ActionView::Send { line: "!!! unknown command: "@ + line },
                ],
            }
        } else {
            Seq::empty()
        }
    }

    /// The session after an inbound line at `now`.
    pub open spec fn after_frame(self, line: Seq<char>, now: nat) -> Self {
        if self.phase is Active {
            let seen = SessionState { last_heartbeat: later(self.last_heartbeat, now), ..self };
            match parse(line) {
                FrameView::Join { room } => SessionState { room, ..seen },
                FrameView::Name { name } => SessionState { name: Some(name), ..seen },
                _ => seen,
            }
        } else {
            self
        }
    }

    /// What a pong asks the surroundings to do.
    pub open spec fn pong_actions(self) -> Seq<ActionView> {
        if self.phase is Active {
            seq![self.beat()]
        } else {
            Seq::empty()
        }
    }

    /// The session after a pong at `now`.
    pub open spec fn after_pong(self, now: nat) -> Self {
        if self.phase is Active {
            SessionState { last_heartbeat: later(self.last_heartbeat, now), ..self }
        } else {
            self
        }
    }

    /// Whether the client has been silent for longer than the timeout.
    pub open spec fn timed_out(self, now: nat) -> bool {
        now - self.last_heartbeat > self.timeout
    }

    /// The command that tells the broker to forget the session.
    pub open spec fn farewell(self) -> ActionView {
        ActionView::Forward { command: CommandView::Disconnect { id: self.id } }
    }

    /// What a tick of the ping timer asks the surroundings to do.
    pub open spec fn tick_actions(self, now: nat) -> Seq<ActionView> {
        if self.phase is Active {
            if self.timed_out(now) {
                seq![self.farewell(), ActionView::Close]
            } else {
                seq![ActionView::Ping]
            }
        } else {
            Seq::empty()
        }
    }

    /// The session after a tick of the ping timer at `now`.
    pub open spec fn after_tick(self, now: nat) -> Self {
        if self.phase is Active && self.timed_out(now) {
            SessionState { phase: Phase::Closing, ..self }
        } else {
            self
        }
    }

    /// What a request to end the session asks the surroundings to do.
    pub open spec fn close_actions(self) -> Seq<ActionView> {
        match self.phase {
            Phase::Connecting => seq![ActionView::Close],
            Phase::Active => seq![self.farewell(), ActionView::Close],
            Phase::Closing => Seq::empty(),
            Phase::Closed => Seq::empty(),
        }
    }

    /// The session after a request to end it.
    pub open spec fn after_close(self) -> Self {
        match self.phase {
            Phase::Connecting => SessionState { phase: Phase::Closing, ..self },
            Phase::Active => SessionState { phase: Phase::Closing, ..self },
            Phase::Closing => self,
            Phase::Closed => self,
        }
    }

    /// What the loss of the connection asks the surroundings to do.
    pub open spec fn loss_actions(self) -> Seq<ActionView> {
        if self.phase is Active {
            seq![self.farewell()]
        } else {
            Seq::empty()
        }
    }

    /// The session after the loss of its connection.
    pub open spec fn after_loss(self) -> Self {
        SessionState { phase: Phase::Closed, ..self }
    }

    /// The line that shows an event to the client, if the session still
    /// shows any.
    pub open spec fn shown(self, event: EventView) -> Option<Seq<char>> {
        if self.phase is Active {
            Some(render(event))
        } else {
            None
        }
    }
}

/// What can happen to a session.
pub enum Input {
    /// The broker has registered the session.
    Registered { id: nat, now: nat },
    /// A line has come in.
    Line { line: Seq<char>, now: nat },
    /// A pong has come in.
    Pong { now: nat },
    /// The ping timer has fired.
    Tick { now: nat },
    /// The session is to end.
    Close,
    /// The connection is gone.
    Lost,
}

impl SessionState {
    /// The session after an input.
    pub open spec fn step(self, input: Input) -> Self {
        match input {
            Input::Registered { id, now } => self.activate(id, now),
            Input::Line { line, now } => self.after_frame(line, now),
            Input::Pong { now } => self.after_pong(now),
            Input::Tick { now } => self.after_tick(now),
            Input::Close => self.after_close(),
            Input::Lost => self.after_loss(),
        }
    }

    /// What an input asks the surroundings to do.
    pub open spec fn emits(self, input: Input) -> Seq<ActionView> {
        match input {
            Input::Registered { id, now } => Seq::empty(),
            Input::Line { line, now } => self.frame_actions(line),
            Input::Pong { now } => self.pong_actions(),
            Input::Tick { now } => self.tick_actions(now),
            Input::Close => self.close_actions(),
            Input::Lost => self.loss_actions(),
        }
    }

    /// The session after a sequence of inputs.
    pub open spec fn run(self, inputs: Seq<Input>) -> Self
        decreases inputs.len(),
    {
        if inputs.len() == 0 {
            self
        } else {
            self.step(inputs[0]).run(inputs.drop_first())
        }
    }

    /// How often the session takes leave of the broker in a sequence of inputs.
    pub open spec fn farewells_in_run(self, inputs: Seq<Input>) -> nat
        decreases inputs.len(),
    {
        if inputs.len() == 0 {
            0
        } else {
            farewells(self.emits(inputs[0])) + self.step(inputs[0]).farewells_in_run(
                inputs.drop_first(),
            )
        }
    }

    /// Whether the session has come to its end or is on the way there.
    pub open spec fn ending(self) -> bool {
        self.phase is Closing || self.phase is Closed
    }
}

/// Whether an action takes leave of the broker.
pub open spec fn is_farewell(action: ActionView) -> bool {
    match action {
        ActionView::Forward { command } => command is Disconnect,
        _ => false,
    }
}

/// How many of the actions take leave of the broker.
pub open spec fn farewells(actions: Seq<ActionView>) -> nat
    decreases actions.len(),
{
    if actions.len() == 0 {
        0
    } else {
        farewells(actions.drop_last()) + if is_farewell(actions.last()) {
            1nat
        } else {
            0nat
        }
    }
}

/// The server's side of one client's connection.
pub struct Session {
    phase: Phase,
    id: u64,
    last_heartbeat: u64,
    room: String,
    name: Option<String>,
    timeout: u64,
}

impl View for Session {
    type V = SessionState;

    closed spec fn view(&self) -> SessionState {
        SessionState {
            phase: self.phase,
            id: self.id as nat,
            last_heartbeat: self.last_heartbeat as nat,
            room: self.room@,
            name: match self.name {
                Some(text) => Some(text@),
                None => None,
            },
            timeout: self.timeout as nat,
        }
    }
}

impl Session {
    /// A session for a connection whose handshake began at `now`, and whose
    /// client may stay silent for `timeout`.
    pub fn new(now: u64, timeout: u64) -> (session: Session)
        ensures
            session@ == SessionState::fresh(now as nat, timeout as nat),
    {
        Session {
            phase: Phase::Connecting,
            id: 0,
            last_heartbeat: now,
            room: String::from_str("main"),
            name: None,
            timeout,
        }
    }

    /// Notes a sign of life at `now`.
    fn note(&mut self, now: u64)
        ensures
            final(self)@ == (SessionState {
                last_heartbeat: later(old(self)@.last_heartbeat, now as nat),
                ..old(self)@
            }),
    {
        if now > self.last_heartbeat {
            self.last_heartbeat = now;
        }
    }

    /// The handshake is done and the broker has registered the session as
    /// `id`: a connecting session becomes active. In any other phase nothing
    /// happens.
    pub fn activate(&mut self, id: u64, now: u64)
        ensures
            final(self)@ == old(self)@.activate(id as nat, now as nat),
    {
        match self.phase {
            Phase::Connecting => {
                self.note(now);
                self.phase = Phase::Active;
                self.id = id;
            },
            _ => {},
        }
    }

    /// A line has come in from the client at `now`. An active session counts
    /// it as a sign of life and turns it into a command for the broker, or
    /// into a notice for the client; in any other phase the line is dropped.
    pub fn on_frame(&mut self, line: &str, now: u64) -> (out: Vec<Action>)
        ensures
            final(self)@ == old(self)@.after_frame(line@, now as nat),
            actions_of(out@) == old(self)@.frame_actions(line@),
    {
        let mut out: Vec<Action> = Vec::new();
        match self.phase {
            Phase::Active => {
                let id: u64 = self.id;
                self.note(now);
                out.push(Action::Forward { command: Command::Heartbeat { id } });
                match parse_frame(line) {
                    Frame::Empty => {},
                    Frame::List => {
                        out.push(Action::Forward { command: Command::ListRooms { id } });
                    },
                    Frame::Join { room } => {
                        self.room = room.clone();
                        out.push(Action::Forward { command: Command::Join { id, room } });
                    },
                    Frame::Name { name } => {
                        self.name = Some(name.clone());
                        out.push(Action::Forward { command: Command::SetName { id, name } });
                    },
                    Frame::Text { text } => {
                        out.push(Action::Forward { command: Command::Broadcast { id, text } });
                    },
                    Frame::Unknown { line } => {
                        let mut notice = String::from_str("!!! unknown command: ");
                        notice.append(line.as_str());
                        out.push(Action::Send { line: notice });
                    },
                }
            },
            _ => {},
        }
        proof {
            assert(actions_of(out@) =~= old(self)@.frame_actions(line@));
        }
        out
    }

    /// A pong has come in from the client at `now`: a sign of life.
    pub fn on_pong(&mut self, now: u64) -> (out: Vec<Action>)
        ensures
            final(self)@ == old(self)@.after_pong(now as nat),
            actions_of(out@) == old(self)@.pong_actions(),
    {
        let mut out: Vec<Action> = Vec::new();
        match self.phase {
            Phase::Active => {
                self.note(now);
                out.push(Action::Forward { command: Command::Heartbeat { id: self.id } });
            },
            _ => {},
        }
        proof {
            assert(actions_of(out@) =~= old(self)@.pong_actions());
        }
        out
    }

    /// The ping timer has fired at `now`. An active session whose client has
    /// been silent for longer than the timeout gives it up: it takes leave of
    /// the broker and has the connection closed. Any other active session
    /// pings its client.
    pub fn on_tick(&mut self, now: u64) -> (out: Vec<Action>)
        ensures
            final(self)@ == old(self)@.after_tick(now as nat),
            actions_of(out@) == old(self)@.tick_actions(now as nat),
    {
        let mut out: Vec<Action> = Vec::new();
        match self.phase {
            Phase::Active => {
                if now > self.last_heartbeat && now - self.last_heartbeat > self.timeout {
                    self.phase = Phase::Closing;
                    out.push(Action::Forward { command: Command::Disconnect { id: self.id } });
                    out.push(Action::Close);
                } else {
                    out.push(Action::Ping);
                }
            },
            _ => {},
        }
        proof {
            assert(actions_of(out@) =~= old(self)@.tick_actions(now as nat));
        }
        out
    }

    /// The session is to end: the client has asked for it, or the broker has
    /// evicted the session. An active session takes leave of the broker; a
    /// session that is not closing yet has the connection closed.
    pub fn close(&mut self) -> (out: Vec<Action>)
        ensures
            final(self)@ == old(self)@.after_close(),
            actions_of(out@) == old(self)@.close_actions(),
    {
        let mut out: Vec<Action> = Vec::new();
        match self.phase {
            Phase::Connecting => {
                self.phase = Phase::Closing;
                out.push(Action::Close);
            },
            Phase::Active => {
                self.phase = Phase::Closing;
                out.push(Action::Forward { command: Command::Disconnect { id: self.id } });
                out.push(Action::Close);
            },
            _ => {},
        }
        proof {
            assert(actions_of(out@) =~= old(self)@.close_actions());
        }
        out
    }

    /// The connection is gone, by a fault or at the end of a close. The
    /// session is closed. If it was still active, it passes through closing
    /// on the way: it takes leave of the broker.
    pub fn connection_lost(&mut self) -> (out: Vec<Action>)
        ensures
            final(self)@ == old(self)@.after_loss(),
            actions_of(out@) == old(self)@.loss_actions(),
    {
        let mut out: Vec<Action> = Vec::new();
        match self.phase {
            Phase::Active => {
                out.push(Action::Forward { command: Command::Disconnect { id: self.id } });
            },
            _ => {},
        }
        self.phase = Phase::Closed;
        proof {
            assert(actions_of(out@) =~= old(self)@.loss_actions());
        }
        out
    }

    /// An event has come from the broker. An active session shows it to the
    /// client as a line; in any other phase the event is dropped.
    pub fn on_event(&self, event: &Event) -> (line: Option<String>)
        ensures
            match line {
                Some(text) => self@.shown(event@) == Some(text@),
                None => self@.shown(event@) is None,
            },
    {
        match self.phase {
            Phase::Active => Some(render_event(event)),
            _ => None,
        }
    }

    /// Where the session stands in its life.
    pub fn phase(&self) -> (phase: Phase)
        ensures
            phase == self@.phase,
    {
        self.phase
    }

    /// The id that the broker gave the session; 0 before it is registered.
    pub fn id(&self) -> (id: u64)
        ensures
            id as nat == self@.id,
    {
        self.id
    }

    /// When the client last gave a sign of life.
    pub fn last_heartbeat(&self) -> (last: u64)
        ensures
            last as nat == self@.last_heartbeat,
    {
        self.last_heartbeat
    }

    /// The room that the session last asked for.
    pub fn room(&self) -> (room: &str)
        ensures
            room@ == self@.room,
    {
        self.room.as_str()
    }

    /// The name that the session last asked for, if any.
    pub fn name(&self) -> (name: Option<&str>)
        ensures
            match name {
                Some(text) => self@.name == Some(text@),
                None => self@.name is None,
            },
    {
        match &self.name {
            Some(text) => Some(text.as_str()),
            None => None,
        }
    }
}

} // verus!
