//! The broker: the registry of sessions and rooms, and the routing of events.

use crate::model::{evicted_ids, fans_out, targets, BrokerView, MessageRecordView, SessionView};
use crate::protocol::{deliveries_of, Command, Delivery, Event};
use crate::text::{insert_name, names_of, same_text, strictly_sorted};
use vstd::prelude::*;
use vstd::string::StringExecFns;

verus! {

/// What the broker keeps of one registered session.
struct SessionRecord<C> {
    id: u64,
    name: Option<String>,
    room: String,
    last_heartbeat: u64,
    channel: C,
}

/// The text of an optional string.
pub open spec fn name_view(name: Option<String>) -> Option<Seq<char>> {
    match name {
        Some(text) => Some(text@),
        None => None,
    }
}

impl<C> SessionRecord<C> {
    /// The record as a mathematical value.
    spec fn view(&self) -> SessionView<C> {
        SessionView {
            name: name_view(self.name),
            room: self.room@,
            last_heartbeat: self.last_heartbeat as nat,
            channel: self.channel,
        }
    }
}

/// The records stand in the order of their ids.
spec fn ids_ascending<C>(records: Seq<SessionRecord<C>>) -> bool {
    forall|i: int, j: int| 0 <= i < j < records.len() ==> records[i].id < records[j].id
}

/// Whether one of the records has the id.
spec fn holds<C>(records: Seq<SessionRecord<C>>, id: nat) -> bool {
    exists|i: int| 0 <= i < records.len() && (#[trigger] records[i]).id as nat == id
}

/// Where the record with the id stands.
spec fn place<C>(records: Seq<SessionRecord<C>>, id: nat) -> int {
    choose|i: int| 0 <= i < records.len() && (#[trigger] records[i]).id as nat == id
}

/// The records as a map from id to session.
spec fn table<C>(records: Seq<SessionRecord<C>>) -> Map<nat, SessionView<C>> {
    Map::new(|id: nat| holds(records, id), |id: nat| records[place(records, id)].view())
}

/// Each record is found in the table under its id.
proof fn lemma_table_rows<C>(records: Seq<SessionRecord<C>>)
    requires
        ids_ascending(records),
    ensures
        forall|i: int|
            0 <= i < records.len() ==> {
                &&& table(records).contains_key((#[trigger] records[i]).id as nat)
                &&& table(records)[records[i].id as nat] == records[i].view()
            },
        forall|id: nat| table(records).contains_key(id) <==> holds(records, id),
{
    assert forall|i: int| 0 <= i < records.len() implies {
        &&& table(records).contains_key((#[trigger] records[i]).id as nat)
        &&& table(records)[records[i].id as nat] == records[i].view()
    } by {
        let id = records[i].id as nat;
        assert(holds(records, id));
        let j = place(records, id);
        assert(0 <= j < records.len() && records[j].id as nat == id);
        if j < i {
            assert(records[j].id < records[i].id);
        } else if i < j {
            assert(records[i].id < records[j].id);
        }
    }
}

/// A record with a larger id than all others, put last, is one more row.
proof fn lemma_table_push<C>(records: Seq<SessionRecord<C>>, record: SessionRecord<C>)
    requires
        ids_ascending(records),
        forall|i: int| 0 <= i < records.len() ==> (#[trigger] records[i]).id < record.id,
    ensures
        ids_ascending(records.push(record)),
        table(records.push(record)) == table(records).insert(record.id as nat, record.view()),
{
    let more = records.push(record);
    assert(ids_ascending(more));
    lemma_table_rows(records);
    lemma_table_rows(more);
    assert forall|id: nat| table(more).contains_key(id) <==> (table(records).contains_key(id)
        || id == record.id as nat) by {
        if holds(more, id) {
            let i = place(more, id);
            if i < records.len() {
                assert(records[i] == more[i]);
            }
        }
        if holds(records, id) {
            let i = place(records, id);
            assert(more[i] == records[i]);
        }
        if id == record.id as nat {
            assert(more[records.len() as int] == record);
        }
    }
    assert forall|id: nat| table(records).contains_key(id) implies table(more)[id] == table(
        records,
    )[id] by {
        let i = place(records, id);
        assert(more[i] == records[i]);
    }
    assert(more[records.len() as int] == record);
    assert(table(more) =~= table(records).insert(record.id as nat, record.view()));
}

/// Without one record the table is without its row.
proof fn lemma_table_remove<C>(records: Seq<SessionRecord<C>>, at: int)
    requires
        ids_ascending(records),
        0 <= at < records.len(),
    ensures
        ids_ascending(records.remove(at)),
        table(records.remove(at)) == table(records).remove(records[at].id as nat),
{
    let fewer = records.remove(at);
    assert forall|i: int, j: int| 0 <= i < j < fewer.len() implies fewer[i].id < fewer[j].id by {
        let i0 = if i < at { i } else { i + 1 };
        let j0 = if j < at { j } else { j + 1 };
        assert(fewer[i] == records[i0]);
        assert(fewer[j] == records[j0]);
    }
    lemma_table_rows(records);
    lemma_table_rows(fewer);
    let gone = records[at].id as nat;
    assert forall|id: nat| table(fewer).contains_key(id) <==> (table(records).contains_key(id)
        && id != gone) by {
        if holds(fewer, id) {
            let i = place(fewer, id);
            let i0 = if i < at { i } else { i + 1 };
            assert(fewer[i] == records[i0]);
            if i0 < at {
                assert(records[i0].id < records[at].id);
            } else {
                assert(records[at].id < records[i0].id);
            }
        }
        if holds(records, id) && id != gone {
            let i = place(records, id);
            let i1 = if i < at { i } else { i - 1 };
            assert(fewer[i1] == records[i]);
        }
    }
    assert forall|id: nat| table(fewer).contains_key(id) implies table(fewer)[id] == table(
        records,
    )[id] by {
        let i = place(fewer, id);
        let i0 = if i < at { i } else { i + 1 };
        assert(fewer[i] == records[i0]);
    }
    assert(table(fewer) =~= table(records).remove(gone));
}

/// A record changed in place, with its id kept, is its row changed.
proof fn lemma_table_update<C>(records: Seq<SessionRecord<C>>, at: int, record: SessionRecord<C>)
    requires
        ids_ascending(records),
        0 <= at < records.len(),
        record.id == records[at].id,
    ensures
        ids_ascending(records.update(at, record)),
        table(records.update(at, record)) == table(records).insert(
            record.id as nat,
            record.view(),
        ),
{
    let changed = records.update(at, record);
    assert forall|i: int, j: int| 0 <= i < j < changed.len() implies changed[i].id
        < changed[j].id by {
        assert(changed[i].id == records[i].id);
        assert(changed[j].id == records[j].id);
    }
    lemma_table_rows(records);
    lemma_table_rows(changed);
    assert forall|id: nat| table(changed).contains_key(id) <==> table(records).contains_key(
        id,
    ) by {
        if holds(changed, id) {
            let i = place(changed, id);
            assert(records[i].id == changed[i].id);
        }
        if holds(records, id) {
            let i = place(records, id);
            assert(records[i].id == changed[i].id);
        }
    }
    assert forall|id: nat|
        table(records).contains_key(id) && id != record.id as nat implies table(changed)[id]
        == table(records)[id] by {
        let i = place(records, id);
        assert(changed[i] == records[i]);
    }
    assert(changed[at] == record);
    assert(table(changed) =~= table(records).insert(record.id as nat, record.view()));
}

/// Whether the record at `other` is another one than that at `at`, in the same room.
spec fn is_mate<C>(records: Seq<SessionRecord<C>>, at: int, other: int) -> bool {
    other != at && records[other].room@ == records[at].room@
}

/// The places before `end` that are marked, in ascending order.
spec fn chosen(marks: Seq<bool>, end: int) -> Seq<int>
    decreases end,
{
    if end <= 0 {
        Seq::empty()
    } else if marks[end - 1] {
        chosen(marks, end - 1).push(end - 1)
    } else {
        chosen(marks, end - 1)
    }
}

/// `chosen` finds each marked place once, in ascending order, and nothing else.
proof fn lemma_chosen(marks: Seq<bool>, end: int)
    requires
        0 <= end <= marks.len(),
    ensures
        forall|k: int|
            0 <= k < chosen(marks, end).len() ==> {
                &&& 0 <= (#[trigger] chosen(marks, end)[k]) < end
                &&& marks[chosen(marks, end)[k]]
            },
        forall|p: int, q: int|
            0 <= p < q < chosen(marks, end).len() ==> chosen(marks, end)[p] < chosen(
                marks,
                end,
            )[q],
        forall|j: int| 0 <= j < end && marks[j] ==> chosen(marks, end).contains(j),
    decreases end,
{
    if end > 0 {
        lemma_chosen(marks, end - 1);
        let before = chosen(marks, end - 1);
        let all = chosen(marks, end);
        assert forall|j: int| 0 <= j < end && marks[j] implies all.contains(j) by {
            if j < end - 1 {
                let k = choose|k: int| 0 <= k < before.len() && before[k] == j;
                assert(all[k] == j);
            } else {
                assert(all[all.len() - 1] == j);
            }
        }
    }
}

/// For each record, whether it shares a room with the one at `at` and is another.
spec fn mate_marks<C>(records: Seq<SessionRecord<C>>, at: int) -> Seq<bool> {
    Seq::new(records.len(), |j: int| is_mate(records, at, j))
}

/// Whether a record has been silent for longer than the timeout.
spec fn silent<C>(record: SessionRecord<C>, now: u64, timeout: u64) -> bool {
    now - record.last_heartbeat > timeout
}

/// For each record, whether it is silent (`wanted`) or not (`!wanted`).
spec fn silent_marks<C>(
    records: Seq<SessionRecord<C>>,
    now: u64,
    timeout: u64,
    wanted: bool,
) -> Seq<bool> {
    Seq::new(records.len(), |j: int| silent(records[j], now, timeout) == wanted)
}

/// A session that the broker has evicted, with the handle through which it
/// can be told so.
pub struct Evicted<C> {
    pub id: u64,
    pub channel: C,
}

/// A delivered message, as it is handed to the store that keeps the history
/// of each room.
#[derive(Debug, PartialEq, Eq)]
pub struct MessageRecord {
    pub room: String,
    pub from: String,
    pub text: String,
    pub timestamp: u64,
}

impl View for MessageRecord {
    type V = MessageRecordView;

    open spec fn view(&self) -> MessageRecordView {
        MessageRecordView {
            room: self.room@,
            from: self.from@,
            text: self.text@,
            timestamp: self.timestamp as nat,
        }
    }
}

/// The evictions that a list holds, in the list's order.
pub open spec fn evictions_of<C>(v: Seq<Evicted<C>>) -> Seq<(nat, C)> {
    v.map_values(|e: Evicted<C>| (e.id as nat, e.channel))
}

/// The registry of sessions. `C` is the handle through which events reach a
/// session; the broker keeps it and hands it out, and never looks inside.
pub struct Broker<C> {
    sessions: Vec<SessionRecord<C>>,
    next_id: u64,
    timeout: u64,
}

impl<C> View for Broker<C> {
    type V = BrokerView<C>;

    closed spec fn view(&self) -> BrokerView<C> {
        BrokerView {
            sessions: table(self.sessions@),
            next_id: self.next_id as nat,
            timeout: self.timeout as nat,
        }
    }
}

impl<C> Broker<C> {
    /// What holds of every broker between two calls: the records stand in the
    /// order of their ids, and each id has been given out.
    pub closed spec fn wf(&self) -> bool {
        &&& self.next_id >= 1
        &&& ids_ascending(self.sessions@)
        &&& forall|i: int|
            0 <= i < self.sessions@.len() ==> 1 <= (#[trigger] self.sessions@[i]).id
                < self.next_id
    }

    /// The state of a well-formed broker is well-formed.
    pub proof fn lemma_view_wf(&self)
        requires
            self.wf(),
        ensures
            self@.wf(),
    {
        lemma_table_rows(self.sessions@);
        assert forall|id: nat| self@.sessions.contains_key(id) implies 1 <= id
            < self@.next_id by {
            let i = place(self.sessions@, id);
            assert(self.sessions@[i].id as nat == id);
        }
    }

    /// A broker without sessions, which evicts a session after `timeout`
    /// units of time without a sign of life.
    pub fn new(timeout: u64) -> (broker: Self)
        ensures
            broker.wf(),
            broker@ == BrokerView::<C>::initial(timeout as nat),
    {
        let broker = Broker { sessions: Vec::new(), next_id: 1, timeout };
        assert(broker@.sessions =~= Map::empty());
        broker
    }

    /// Where the record of `id` stands, if it is registered.
    fn find(&self, id: u64) -> (found: Option<usize>)
        requires
            self.wf(),
        ensures
            found is Some <==> self@.live(id as nat),
            found matches Some(at) ==> {
                &&& at < self.sessions@.len()
                &&& self.sessions@[at as int].id == id
                &&& self@.sessions[id as nat] == self.sessions@[at as int].view()
            },
    {
        let n: usize = self.sessions.len();
        let mut i: usize = 0;
        while i < n
            invariant
                i <= n,
                n == self.sessions@.len(),
                ids_ascending(self.sessions@),
                forall|k: int| 0 <= k < i ==> (#[trigger] self.sessions@[k]).id != id,
            decreases n - i,
        {
            if self.sessions[i].id == id {
                proof {
                    lemma_table_rows(self.sessions@);
                }
                return Some(i);
            }
            i += 1;
        }
        proof {
            lemma_table_rows(self.sessions@);
        }
        None
    }

    /// Whether an id is left for one more connection.
    pub fn has_free_id(&self) -> (free: bool)
        ensures
            free == (self@.next_id < u64::MAX),
    {
        self.next_id < u64::MAX
    }

    /// Registers a new session: gives it a fresh id and puts it in room
    /// `main`. `name` is the display name that was resolved for the caller, if
    /// any. Returns the id.
    pub fn connect(&mut self, channel: C, name: Option<String>, now: u64) -> (id: u64)
        requires
            old(self).wf(),
            old(self)@.next_id < u64::MAX,
        ensures
            final(self).wf(),
            id as nat == old(self)@.next_id,
            final(self)@ == old(self)@.connect(channel, name_view(name), now as nat),
    {
        let id: u64 = self.next_id;
        let record = SessionRecord {
            id,
            name,
            room: String::from_str("main"),
            last_heartbeat: now,
            channel,
        };
        proof {
            lemma_table_push(self.sessions@, record);
        }
        self.sessions.push(record);
        self.next_id = id + 1;
        id
    }

    /// Forgets a session: it leaves its room and its record is deleted.
    /// Nothing happens if the id is not registered.
    pub fn disconnect(&mut self, id: u64)
        requires
            old(self).wf(),
        ensures
            final(self).wf(),
            final(self)@ == old(self)@.disconnect(id as nat),
    {
        match self.find(id) {
            Some(at) => {
                proof {
                    lemma_table_remove(self.sessions@, at as int);
                }
                let _ = self.sessions.remove(at);
            },
            None => {},
        }
    }

    /// The deliveries that carry `event` to everybody who shares a room with
    /// the session whose record stands at `at`.
    fn fan_out(&self, at: usize, event: &Event) -> (out: Vec<Delivery>)
        requires
            self.wf(),
            at < self.sessions@.len(),
        ensures
            fans_out(
                deliveries_of(out@),
                self@.roommates(self.sessions@[at as int].id as nat),
                event@,
            ),
    {
        let mut out: Vec<Delivery> = Vec::new();
        let n: usize = self.sessions.len();
        let mut i: usize = 0;
        while i < n
            invariant
                i <= n,
                n == self.sessions@.len(),
                at < n,
                out@.len() == chosen(mate_marks(self.sessions@, at as int), i as int).len(),
                forall|k: int|
                    0 <= k < out@.len() ==> {
                        &&& (#[trigger] out@[k]).event@ == event@
                        &&& 0 <= chosen(mate_marks(self.sessions@, at as int), i as int)[k] < n
                        &&& out@[k].to == self.sessions@[chosen(
                            mate_marks(self.sessions@, at as int),
                            i as int,
                        )[k]].id
                    },
            decreases n - i,
        {
            proof {
                lemma_chosen(mate_marks(self.sessions@, at as int), i as int);
            }
            if i != at && self.sessions[i].room == self.sessions[at].room {
                out.push(Delivery { to: self.sessions[i].id, event: event.copy() });
            }
            i += 1;
        }
        proof {
            let records = self.sessions@;
            let id = records[at as int].id as nat;
            let sent = deliveries_of(out@);
            let from = chosen(mate_marks(records, at as int), n as int);
            lemma_table_rows(records);
            lemma_chosen(mate_marks(records, at as int), n as int);
            assert forall|p: int, q: int| 0 <= p < q < targets(sent).len() implies targets(
                sent,
            )[p] < targets(sent)[q] by {
                assert(out@[p].to == records[from[p]].id);
                assert(out@[q].to == records[from[q]].id);
                assert(from[p] < from[q]);
            }
            assert forall|x: nat| targets(sent).contains(x) <==> self@.roommates(id).contains(
                x,
            ) by {
                if targets(sent).contains(x) {
                    let k = choose|k: int| 0 <= k < targets(sent).len() && targets(sent)[k] == x;
                    let j = from[k];
                    assert(out@[k].to == records[j].id);
                    assert(is_mate(records, at as int, j));
                    if j < at {
                        assert(records[j].id < records[at as int].id);
                    } else {
                        assert(records[at as int].id < records[j].id);
                    }
                }
                if self@.roommates(id).contains(x) {
                    let j = place(records, x);
                    assert(records[j].id as nat == x);
                    assert(is_mate(records, at as int, j));
                    assert(mate_marks(records, at as int)[j]);
                    assert(from.contains(j));
                    let k = choose|k: int| 0 <= k < from.len() && from[k] == j;
                    assert(out@[k].to == records[j].id);
                    assert(targets(sent)[k] == x);
                }
            }
        }
        out
    }

    /// Moves a session to a room, which comes to exist with its first member.
    /// Everybody who stays behind in the old room is told, and the session
    /// itself gets the confirmation, also when it was in that room already.
    /// Nothing happens if the id is not registered.
    pub fn join(&mut self, id: u64, room: &str) -> (out: Vec<Delivery>)
        requires
            old(self).wf(),
        ensures
            final(self).wf(),
            final(self)@ == old(self)@.join(id as nat, room@),
            old(self)@.join_deliveries(id as nat, room@, deliveries_of(out@)),
    {
        match self.find(id) {
            None => Vec::new(),
            Some(at) => {
                let event = Event::Joined { room: room.to_owned() };
                let mut out: Vec<Delivery> = Vec::new();
                if !same_text(self.sessions[at].room.as_str(), room) {
                    out = self.fan_out(at, &event);
                    let ghost before = self.sessions@;
                    self.sessions[at].room = room.to_owned();
                    proof {
                        assert(self.sessions@ =~= before.update(
                            at as int,
                            self.sessions@[at as int],
                        ));
                        lemma_table_update(before, at as int, self.sessions@[at as int]);
                    }
                }
                let ghost rest = deliveries_of(out@);
                out.push(Delivery { to: id, event });
                proof {
                    assert(deliveries_of(out@).drop_last() =~= rest);
                }
                out
            },
        }
    }

    /// The rooms that exist, each once, in lexicographic order.
    pub fn list_rooms(&self) -> (rooms: Vec<String>)
        requires
            self.wf(),
        ensures
            self@.room_listing(names_of(rooms@)),
    {
        let mut rooms: Vec<String> = Vec::new();
        let n: usize = self.sessions.len();
        let mut i: usize = 0;
        while i < n
            invariant
                i <= n,
                n == self.sessions@.len(),
                strictly_sorted(names_of(rooms@)),
                forall|t: Seq<char>|
                    names_of(rooms@).contains(t) <==> exists|j: int|
                        0 <= j < i && (#[trigger] self.sessions@[j]).room@ == t,
            decreases n - i,
        {
            let ghost listed = names_of(rooms@);
            insert_name(&mut rooms, self.sessions[i].room.as_str());
            proof {
                assert forall|t: Seq<char>| names_of(rooms@).contains(t) <==> exists|j: int|
                    0 <= j < i + 1 && (#[trigger] self.sessions@[j]).room@ == t by {
                    if listed.contains(t) {
                        let j = choose|j: int|
                            0 <= j < i && (#[trigger] self.sessions@[j]).room@ == t;
                        assert(self.sessions@[j].room@ == t);
                    }
                    if t == self.sessions@[i as int].room@ {
                        assert(self.sessions@[i as int].room@ == t);
                    }
                }
            }
            i += 1;
        }
        proof {
            let records = self.sessions@;
            lemma_table_rows(records);
            assert forall|t: Seq<char>| names_of(rooms@).contains(t) <==> self@.rooms().contains(
                t,
            ) by {
                if names_of(rooms@).contains(t) {
                    let j = choose|j: int| 0 <= j < n && (#[trigger] records[j]).room@ == t;
                    assert(self@.members(t).contains(records[j].id as nat));
                }
                if self@.rooms().contains(t) {
                    let x = choose|x: nat| self@.members(t).contains(x);
                    let j = place(records, x);
                    assert(records[j].room@ == t);
                }
            }
        }
        rooms
    }

    /// Delivers a message, under the sender's name or as `anonymous`, to
    /// everybody else in the sender's room. The sender gets no echo. Nothing
    /// is delivered if the sender is not registered.
    pub fn broadcast(&self, id: u64, text: &str) -> (out: Vec<Delivery>)
        requires
            self.wf(),
        ensures
            self@.broadcast_deliveries(id as nat, text@, deliveries_of(out@)),
    {
        match self.find(id) {
            None => Vec::new(),
            Some(at) => {
                let from = match &self.sessions[at].name {
                    Some(name) => name.clone(),
                    None => String::from_str("anonymous"),
                };
                let event = Event::Message { from, text: text.to_owned() };
                self.fan_out(at, &event)
            },
        }
    }

    /// What the history is to keep of a broadcast of `text` by `id` at `now`:
    /// nothing if the sender is not registered, as the broadcast is dropped then.
    pub fn message_record(&self, id: u64, text: &str, now: u64) -> (record: Option<MessageRecord>)
        requires
            self.wf(),
        ensures
            match record {
                Some(kept) => self@.record_of(id as nat, text@, now as nat) == Some(kept@),
                None => self@.record_of(id as nat, text@, now as nat) is None,
            },
    {
        match self.find(id) {
            None => None,
            Some(at) => {
                let from = match &self.sessions[at].name {
                    Some(name) => name.clone(),
                    None => String::from_str("anonymous"),
                };
                Some(
                    MessageRecord {
                        room: self.sessions[at].room.clone(),
                        from,
                        text: text.to_owned(),
                        timestamp: now,
                    },
                )
            },
        }
    }

    /// Changes the name under which a session's messages appear from now on.
    /// Nothing happens if the id is not registered.
    pub fn set_name(&mut self, id: u64, name: &str)
        requires
            old(self).wf(),
        ensures
            final(self).wf(),
            final(self)@ == old(self)@.set_name(id as nat, name@),
    {
        match self.find(id) {
            None => {},
            Some(at) => {
                let ghost before = self.sessions@;
                self.sessions[at].name = Some(name.to_owned());
                proof {
                    assert(self.sessions@ =~= before.update(at as int, self.sessions@[at as int]));
                    lemma_table_update(before, at as int, self.sessions@[at as int]);
                }
            },
        }
    }

    /// Notes a sign of life of a session at `now`. A time before the last sign
    /// of life changes nothing: the record never goes back in time. Nothing
    /// happens if the id is not registered.
    pub fn heartbeat(&mut self, id: u64, now: u64)
        requires
            old(self).wf(),
        ensures
            final(self).wf(),
            final(self)@ == old(self)@.heartbeat(id as nat, now as nat),
    {
        match self.find(id) {
            None => {},
            Some(at) => {
                if now > self.sessions[at].last_heartbeat {
                    let ghost before = self.sessions@;
                    self.sessions[at].last_heartbeat = now;
                    proof {
                        assert(self.sessions@ =~= before.update(
                            at as int,
                            self.sessions@[at as int],
                        ));
                        lemma_table_update(before, at as int, self.sessions@[at as int]);
                    }
                }
            },
        }
    }

    /// The liveness sweep: evicts every session whose last sign of life lies
    /// more than the timeout before `now`, as a disconnect would, and reports
    /// each with its handle, so that its connection can be closed.
    pub fn sweep(&mut self, now: u64) -> (out: Vec<Evicted<C>>)
        requires
            old(self).wf(),
        ensures
            final(self).wf(),
            final(self)@ == old(self)@.sweep(now as nat),
            old(self)@.sweep_evictions(now as nat, evictions_of(out@)),
    {
        let ghost before = self.sessions@;
        let ghost fresh = silent_marks(before, now, self.timeout, false);
        let ghost stale = silent_marks(before, now, self.timeout, true);
        let mut out: Vec<Evicted<C>> = Vec::new();
        let mut i: usize = 0;
        let ghost mut seen: int = 0;
        while i < self.sessions.len()
            invariant
                self.next_id == old(self).next_id,
                self.timeout == old(self).timeout,
                before == old(self).sessions@,
                fresh == silent_marks(before, now, self.timeout, false),
                stale == silent_marks(before, now, self.timeout, true),
                0 <= seen <= before.len(),
                i == chosen(fresh, seen).len(),
                self.sessions@.len() - i == before.len() - seen,
                forall|m: int|
                    0 <= m < i ==> {
                        &&& 0 <= chosen(fresh, seen)[m] < before.len()
                        &&& (#[trigger] self.sessions@[m]) == before[chosen(fresh, seen)[m]]
                    },
                forall|m: int|
                    i <= m < self.sessions@.len() ==> (#[trigger] self.sessions@[m]) == before[m
                        - i + seen],
                out@.len() == chosen(stale, seen).len(),
                forall|m: int|
                    0 <= m < out@.len() ==> {
                        &&& 0 <= chosen(stale, seen)[m] < before.len()
                        &&& (#[trigger] out@[m]).id == before[chosen(stale, seen)[m]].id
                        &&& out@[m].channel == before[chosen(stale, seen)[m]].channel
                    },
            decreases self.sessions@.len() - i,
        {
            proof {
                lemma_chosen(fresh, seen);
                lemma_chosen(stale, seen);
            }
            let last: u64 = self.sessions[i].last_heartbeat;
            if now > last && now - last > self.timeout {
                let gone = self.sessions.remove(i);
                out.push(Evicted { id: gone.id, channel: gone.channel });
            } else {
                i += 1;
            }
            proof {
                seen = seen + 1;
            }
        }
        proof {
            let pre = old(self)@;
            let records = self.sessions@;
            let kept = chosen(fresh, seen);
            let left = chosen(stale, seen);
            lemma_chosen(fresh, seen);
            lemma_chosen(stale, seen);
            assert forall|p: int, q: int| 0 <= p < q < records.len() implies records[p].id
                < records[q].id by {
                assert(kept[p] < kept[q]);
            }
            lemma_table_rows(before);
            lemma_table_rows(records);
            let stale_ids = Set::new(|id: nat| pre.stale(id, now as nat));
            assert forall|id: nat| table(records).contains_key(id) <==> (table(
                before,
            ).contains_key(id) && !stale_ids.contains(id)) by {
                if holds(records, id) {
                    let m = place(records, id);
                    assert(records[m] == before[kept[m]]);
                    assert(fresh[kept[m]]);
                }
                if holds(before, id) && !stale_ids.contains(id) {
                    let j = place(before, id);
                    assert(fresh[j]);
                    assert(kept.contains(j));
                    let m = choose|m: int| 0 <= m < kept.len() && kept[m] == j;
                    assert(records[m] == before[j]);
                }
            }
            assert forall|id: nat| table(records).contains_key(id) implies table(records)[id]
                == table(before)[id] by {
                let m = place(records, id);
                assert(records[m] == before[kept[m]]);
            }
            assert(table(records) =~= table(before).remove_keys(stale_ids));
            let told = evictions_of(out@);
            assert forall|p: int, q: int| 0 <= p < q < evicted_ids(told).len() implies evicted_ids(
                told,
            )[p] < evicted_ids(told)[q] by {
                assert(out@[p].id == before[left[p]].id);
                assert(out@[q].id == before[left[q]].id);
                assert(left[p] < left[q]);
            }
            assert forall|id: nat| evicted_ids(told).contains(id) <==> pre.stale(
                id,
                now as nat,
            ) by {
                if evicted_ids(told).contains(id) {
                    let m = choose|m: int|
                        0 <= m < evicted_ids(told).len() && evicted_ids(told)[m] == id;
                    assert(out@[m].id == before[left[m]].id);
                    assert(stale[left[m]]);
                }
                if pre.stale(id, now as nat) {
                    let j = place(before, id);
                    assert(stale[j]);
                    assert(left.contains(j));
                    let m = choose|m: int| 0 <= m < left.len() && left[m] == j;
                    assert(out@[m].id == before[j].id);
                    assert(evicted_ids(told)[m] == id);
                }
            }
            assert forall|k: int| 0 <= k < told.len() implies (#[trigger] told[k]).1
                == pre.sessions[told[k].0].channel by {
                assert(out@[k].id == before[left[k]].id);
            }
        }
        out
    }

    /// The answer to a session that asks which rooms exist: the list, for
    /// that session alone. A session that is not registered gets none.
    pub fn rooms_for(&self, id: u64) -> (out: Vec<Delivery>)
        requires
            self.wf(),
        ensures
            self@.list_deliveries(id as nat, deliveries_of(out@)),
    {
        let mut out: Vec<Delivery> = Vec::new();
        if self.find(id).is_some() {
            out.push(Delivery { to: id, event: Event::RoomList { rooms: self.list_rooms() } });
        }
        out
    }

    /// Carries out one command of a session and returns the deliveries that
    /// it causes. `now` is the time at which the command arrived.
    pub fn handle(&mut self, command: &Command, now: u64) -> (out: Vec<Delivery>)
        requires
            old(self).wf(),
        ensures
            final(self).wf(),
            final(self)@ == old(self)@.apply(command@, now as nat),
            old(self)@.answers(command@, deliveries_of(out@)),
    {
        match command {
            Command::Disconnect { id } => {
                self.disconnect(*id);
                Vec::new()
            },
            Command::Join { id, room } => self.join(*id, room.as_str()),
            Command::ListRooms { id } => self.rooms_for(*id),
            Command::Broadcast { id, text } => self.broadcast(*id, text.as_str()),
            Command::SetName { id, name } => {
                self.set_name(*id, name.as_str());
                Vec::new()
            },
            Command::Heartbeat { id } => {
                self.heartbeat(*id, now);
                Vec::new()
            },
        }
    }

    /// Whether a session is registered.
    pub fn is_registered(&self, id: u64) -> (live: bool)
        requires
            self.wf(),
        ensures
            live == self@.live(id as nat),
    {
        self.find(id).is_some()
    }

    /// The room that a session is in, if it is registered.
    pub fn room_of(&self, id: u64) -> (room: Option<String>)
        requires
            self.wf(),
        ensures
            room is Some <==> self@.live(id as nat),
            room matches Some(name) ==> name@ == self@.sessions[id as nat].room,
    {
        match self.find(id) {
            Some(at) => Some(self.sessions[at].room.clone()),
            None => None,
        }
    }

    /// The name under which a session's messages appear, if it is registered:
    /// the name that it has, or `anonymous`.
    pub fn display_name_of(&self, id: u64) -> (name: Option<String>)
        requires
            self.wf(),
        ensures
            name is Some <==> self@.live(id as nat),
            name matches Some(text) ==> text@ == self@.display_name(id as nat),
    {
        match self.find(id) {
            Some(at) => match &self.sessions[at].name {
                Some(name) => Some(name.clone()),
                None => Some(String::from_str("anonymous")),
            },
            None => None,
        }
    }

    /// When a session last gave a sign of life, if it is registered.
    pub fn last_heartbeat_of(&self, id: u64) -> (last: Option<u64>)
        requires
            self.wf(),
        ensures
            last is Some <==> self@.live(id as nat),
            last matches Some(time) ==> time as nat == self@.sessions[id as nat].last_heartbeat,
    {
        match self.find(id) {
            Some(at) => Some(self.sessions[at].last_heartbeat),
            None => None,
        }
    }

    /// The handle through which events reach a session, if it is registered.
    pub fn channel_of(&self, id: u64) -> (channel: Option<&C>)
        requires
            self.wf(),
        ensures
            channel is Some <==> self@.live(id as nat),
            channel matches Some(handle) ==> *handle == self@.sessions[id as nat].channel,
    {
        match self.find(id) {
            Some(at) => Some(&self.sessions[at].channel),
            None => None,
        }
    }

    /// How long a session may stay silent before the sweep evicts it.
    pub fn timeout(&self) -> (timeout: u64)
        ensures
            timeout as nat == self@.timeout,
    {
        self.timeout
    }
}

} // verus!
