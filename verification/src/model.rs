//! The broker as a mathematical value: which sessions are registered, what is
//! known of each, and what each command makes of that.

use crate::protocol::{CommandView, DeliveryView, EventView};
use crate::text::strictly_sorted;
use vstd::prelude::*;

verus! {

/// What the broker knows of one registered session.
pub struct SessionView<C> {
    /// The name under which the session's messages appear, if it has one.
    pub name: Option<Seq<char>>,
    /// The one room that the session is in.
    pub room: Seq<char>,
    /// When the session's client last gave a sign of life.
    pub last_heartbeat: nat,
    /// The handle through which events reach the session.
    pub channel: C,
}

/// The state of the broker.
pub struct BrokerView<C> {
    /// The registered sessions, by id.
    pub sessions: Map<nat, SessionView<C>>,
    /// The id that the next connection gets. Every id below it has been given out.
    pub next_id: nat,
    /// How long a session may stay silent before it is evicted.
    pub timeout: nat,
}

/// A delivered message as the history of its room keeps it.
pub struct MessageRecordView {
    pub room: Seq<char>,
    pub from: Seq<char>,
    pub text: Seq<char>,
    pub timestamp: nat,
}

/// The ids to which the deliveries of a list go, in the list's order.
pub open spec fn targets(out: Seq<DeliveryView>) -> Seq<nat> {
    out.map_values(|d: DeliveryView| d.to)
}

/// The ids of the sessions that a list of evictions names, in the list's order.
pub open spec fn evicted_ids<C>(out: Seq<(nat, C)>) -> Seq<nat> {
    out.map_values(|e: (nat, C)| e.0)
}

/// Each id is smaller than the next, so none occurs twice.
pub open spec fn ascending(ids: Seq<nat>) -> bool {
    forall|i: int, j: int| 0 <= i < j < ids.len() ==> ids[i] < ids[j]
}

/// `out` carries `event` to every session of `to` exactly once, in ascending
/// order of their ids, and to nobody else.
pub open spec fn fans_out(out: Seq<DeliveryView>, to: Set<nat>, event: EventView) -> bool {
    &&& ascending(targets(out))
    &&& forall|id: nat| targets(out).contains(id) <==> to.contains(id)
    &&& forall|k: int| 0 <= k < out.len() ==> (#[trigger] out[k]).event == event
}

impl<C> BrokerView<C> {
    /// A broker without sessions. The first id that it gives out is 1.
    pub open spec fn initial(timeout: nat) -> Self {
        BrokerView { sessions: Map::empty(), next_id: 1, timeout }
    }

    /// Every registered id has been given out, and 0 never is.
    pub open spec fn wf(self) -> bool {
        &&& self.next_id >= 1
        &&& forall|id: nat| self.sessions.contains_key(id) ==> 1 <= id < self.next_id
    }

    /// Whether `id` is registered.
    pub open spec fn live(self, id: nat) -> bool {
        self.sessions.contains_key(id)
    }

    /// The sessions that are in `room`.
    pub open spec fn members(self, room: Seq<char>) -> Set<nat> {
        Set::new(|id: nat| self.live(id) && self.sessions[id].room == room)
    }

    /// The rooms that exist: those with at least one member.
    pub open spec fn rooms(self) -> Set<Seq<char>> {
        Set::new(|room: Seq<char>| exists|id: nat| self.members(room).contains(id))
    }

    /// Whether `rooms` lists the rooms that exist, each once, in lexicographic order.
    pub open spec fn room_listing(self, rooms: Seq<Seq<char>>) -> bool {
        &&& strictly_sorted(rooms)
        &&& forall|room: Seq<char>| rooms.contains(room) <==> self.rooms().contains(room)
    }

    /// The name under which the messages of `id` appear.
    pub open spec fn display_name(self, id: nat) -> Seq<char> {
        match self.sessions[id].name {
            Some(name) => name,
            None => "anonymous"@,
        }
    }

    /// The sessions that share a room with `id`, without `id` itself. A session
    /// that is not registered has none.
    pub open spec fn roommates(self, id: nat) -> Set<nat> {
        if self.live(id) {
            self.members(self.sessions[id].room).remove(id)
        } else {
            Set::empty()
        }
    }

    /// Whether `id` is registered and has been silent for longer than the timeout.
    pub open spec fn stale(self, id: nat, now: nat) -> bool {
        self.live(id) && now - self.sessions[id].last_heartbeat > self.timeout
    }

    /// Registers a new session under the next id, in room `main`.
    pub open spec fn connect(self, channel: C, name: Option<Seq<char>>, now: nat) -> Self {
        BrokerView {
            sessions: self.sessions.insert(
                self.next_id,
                SessionView { name, room: "main"@, last_heartbeat: now, channel },
            ),
            next_id: self.next_id + 1,
            timeout: self.timeout,
        }
    }

    /// Forgets `id`. Nothing changes if it is not registered.
    pub open spec fn disconnect(self, id: nat) -> Self {
        if self.live(id) {
            BrokerView { sessions: self.sessions.remove(id), ..self }
        } else {
            self
        }
    }

    /// Moves `id` to `room`. Nothing changes if it is not registered, or is in
    /// that room already.
    pub open spec fn join(self, id: nat, room: Seq<char>) -> Self {
        if self.live(id) && self.sessions[id].room != room {
            BrokerView {
                sessions: self.sessions.insert(id, SessionView { room, ..self.sessions[id] }),
                ..self
            }
        } else {
            self
        }
    }

    /// Names `id`. Nothing changes if it is not registered.
    pub open spec fn set_name(self, id: nat, name: Seq<char>) -> Self {
        if self.live(id) {
            BrokerView {
                sessions: self.sessions.insert(
                    id,
                    SessionView { name: Some(name), ..self.sessions[id] },
                ),
                ..self
            }
        } else {
            self
        }
    }

    /// Notes a sign of life of `id` at `now`. The time of the last one never
    /// goes back: nothing changes if `now` is not later. Nothing changes if
    /// `id` is not registered.
    pub open spec fn heartbeat(self, id: nat, now: nat) -> Self {
        if self.live(id) && now > self.sessions[id].last_heartbeat {
            BrokerView {
                sessions: self.sessions.insert(
                    id,
                    SessionView { last_heartbeat: now, ..self.sessions[id] },
                ),
                ..self
            }
        } else {
            self
        }
    }

    /// Forgets every session that is stale at `now`.
    pub open spec fn sweep(self, now: nat) -> Self {
        BrokerView {
            sessions: self.sessions.remove_keys(Set::new(|id: nat| self.stale(id, now))),
            ..self
        }
    }

    /// What a command makes of the broker's state.
    pub open spec fn apply(self, command: CommandView, now: nat) -> Self {
        match command {
            CommandView::Disconnect { id } => self.disconnect(id),
            CommandView::Join { id, room } => self.join(id, room),
            CommandView::ListRooms { id } => self,
            CommandView::Broadcast { id, text } => self,
            CommandView::SetName { id, name } => self.set_name(id, name),
            CommandView::Heartbeat { id } => self.heartbeat(id, now),
        }
    }

    /// The deliveries that a join causes: none if `id` is not registered; else
    /// the news of the new room to everybody who stays behind in the old one,
    /// and last the confirmation to `id` itself. A session that joins the room
    /// it is in leaves nobody behind.
    pub open spec fn join_deliveries(
        self,
        id: nat,
        room: Seq<char>,
        out: Seq<DeliveryView>,
    ) -> bool {
        if self.live(id) {
            let event = EventView::Joined { room };
            let left_behind = if self.sessions[id].room == room {
                Set::empty()
            } else {
                self.roommates(id)
            };
            &&& out.len() > 0
            &&& out.last() == (DeliveryView { to: id, event })
            &&& fans_out(out.drop_last(), left_behind, event)
        } else {
            out.len() == 0
        }
    }

    /// The deliveries that a broadcast causes: the message, under the sender's
    /// name, to everybody else in the sender's room. A sender that is not
    /// registered reaches nobody.
    pub open spec fn broadcast_deliveries(
        self,
        id: nat,
        text: Seq<char>,
        out: Seq<DeliveryView>,
    ) -> bool {
        fans_out(
            out,
            self.roommates(id),
            EventView::Message { from: self.display_name(id), text },
        )
    }

    /// The deliveries that a request for the rooms causes: the list, to the
    /// session that asked, if it is registered.
    pub open spec fn list_deliveries(self, id: nat, out: Seq<DeliveryView>) -> bool {
        if self.live(id) {
            &&& out.len() == 1
            &&& out[0].to == id
            &&& out[0].event is RoomList
            &&& self.room_listing(out[0].event->rooms)
        } else {
            out.len() == 0
        }
    }

    /// What the history keeps of a broadcast: the sender's room and display
    /// name, the text and the time. Nothing is kept of a broadcast that is
    /// dropped because its sender is not registered.
    pub open spec fn record_of(self, id: nat, text: Seq<char>, now: nat) -> Option<
        MessageRecordView,
    > {
        if self.live(id) {
            Some(
                MessageRecordView {
                    room: self.sessions[id].room,
                    from: self.display_name(id),
                    text,
                    timestamp: now,
                },
            )
        } else {
            None
        }
    }

    /// The evictions that a sweep at `now` reports: each stale session once,
    /// in ascending order of id, with the handle that it was registered with.
    pub open spec fn sweep_evictions(self, now: nat, out: Seq<(nat, C)>) -> bool {
        &&& ascending(evicted_ids(out))
        &&& forall|id: nat| evicted_ids(out).contains(id) <==> self.stale(id, now)
        &&& forall|k: int|
            0 <= k < out.len() ==> (#[trigger] out[k]).1 == self.sessions[out[k].0].channel
    }

    /// The deliveries that a command causes.
    pub open spec fn answers(self, command: CommandView, out: Seq<DeliveryView>) -> bool {
        match command {
            CommandView::Disconnect { id } => out.len() == 0,
            CommandView::Join { id, room } => self.join_deliveries(id, room, out),
            CommandView::ListRooms { id } => self.list_deliveries(id, out),
            CommandView::Broadcast { id, text } => self.broadcast_deliveries(id, text, out),
            CommandView::SetName { id, name } => out.len() == 0,
            CommandView::Heartbeat { id } => out.len() == 0,
        }
    }
}

/// One step in the life of a broker: a connection, a command of a session, or
/// a liveness sweep.
pub enum Step<C> {
    Connect { channel: C, name: Option<Seq<char>>, now: nat },
    Command { command: CommandView, now: nat },
    Sweep { now: nat },
}

/// The broker's state after one step.
pub open spec fn step<C>(state: BrokerView<C>, step: Step<C>) -> BrokerView<C> {
    match step {
        Step::Connect { channel, name, now } => state.connect(channel, name, now),
        Step::Command { command, now } => state.apply(command, now),
        Step::Sweep { now } => state.sweep(now),
    }
}

/// The broker's state after a sequence of steps.
pub open spec fn run<C>(state: BrokerView<C>, steps: Seq<Step<C>>) -> BrokerView<C>
    decreases steps.len(),
{
    if steps.len() == 0 {
        state
    } else {
        step(run(state, steps.drop_last()), steps.last())
    }
}

/// The id that step `at` of a run gives out, if that step is a connection:
/// the next id of the state that the steps before it have led to.
pub open spec fn issued<C>(state: BrokerView<C>, steps: Seq<Step<C>>, at: int) -> nat {
    run(state, steps.take(at)).next_id
}

} // verus!
