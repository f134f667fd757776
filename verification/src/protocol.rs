//! What travels between a session and the broker: the commands that a session
//! issues, the events that the broker emits, and the line protocol that a
//! client speaks.

use crate::text::{names_of, same_text};
use vstd::prelude::*;
use vstd::string::StringExecFns;

verus! {

/// A command from a session to the broker.
#[derive(Debug, PartialEq, Eq)]
pub enum Command {
    /// Forget the session.
    Disconnect { id: u64 },
    /// Move the session to a room.
    Join { id: u64, room: String },
    /// Tell the session which rooms exist.
    ListRooms { id: u64 },
    /// Send a text to the others in the session's room.
    Broadcast { id: u64, text: String },
    /// Change the name under which the session's messages appear.
    SetName { id: u64, name: String },
    /// Note that the session's client is alive.
    Heartbeat { id: u64 },
}

/// A command as a mathematical value.
pub enum CommandView {
    Disconnect { id: nat },
    Join { id: nat, room: Seq<char> },
    ListRooms { id: nat },
    Broadcast { id: nat, text: Seq<char> },
    SetName { id: nat, name: Seq<char> },
    Heartbeat { id: nat },
}

impl View for Command {
    type V = CommandView;

    open spec fn view(&self) -> CommandView {
        match *self {
            Command::Disconnect { id } => CommandView::Disconnect { id: id as nat },
            Command::Join { id, room } => CommandView::Join { id: id as nat, room: room@ },
            Command::ListRooms { id } => CommandView::ListRooms { id: id as nat },
            Command::Broadcast { id, text } => CommandView::Broadcast {
                id: id as nat,
                text: text@,
            },
            Command::SetName { id, name } => CommandView::SetName { id: id as nat, name: name@ },
            Command::Heartbeat { id } => CommandView::Heartbeat { id: id as nat },
        }
    }
}

/// An event from the broker to a session.
#[derive(Debug, PartialEq, Eq)]
pub enum Event {
    /// A session has moved to `room`.
    Joined { room: String },
    /// Somebody in the room said `text`.
    Message { from: String, text: String },
    /// The rooms that exist, in lexicographic order.
    RoomList { rooms: Vec<String> },
}

/// An event as a mathematical value.
pub enum EventView {
    Joined { room: Seq<char> },
    Message { from: Seq<char>, text: Seq<char> },
    RoomList { rooms: Seq<Seq<char>> },
}

impl View for Event {
    type V = EventView;

    open spec fn view(&self) -> EventView {
        match *self {
            Event::Joined { room } => EventView::Joined { room: room@ },
            Event::Message { from, text } => EventView::Message { from: from@, text: text@ },
            Event::RoomList { rooms } => EventView::RoomList { rooms: names_of(rooms@) },
        }
    }
}

/// Copies a list of strings.
pub fn copy_names(names: &Vec<String>) -> (out: Vec<String>)
    ensures
        names_of(out@) == names_of(names@),
{
    let mut out: Vec<String> = Vec::new();
    let n: usize = names.len();
    let mut i: usize = 0;
    while i < n
        invariant
            i <= n,
            n == names@.len(),
            out@.len() == i,
            forall|k: int| 0 <= k < i ==> (#[trigger] out@[k])@ == names@[k]@,
        decreases n - i,
    {
        out.push(names[i].clone());
        i += 1;
    }
    proof {
        assert(names_of(out@) =~= names_of(names@));
    }
    out
}

impl Event {
    /// Copies the event.
    pub fn copy(&self) -> (out: Event)
        ensures
            out@ == self@,
    {
        match self {
            Event::Joined { room } => Event::Joined { room: room.clone() },
            Event::Message { from, text } => Event::Message {
                from: from.clone(),
                text: text.clone(),
            },
            Event::RoomList { rooms } => Event::RoomList { rooms: copy_names(rooms) },
        }
    }
}

/// An event together with the session that is to receive it.
#[derive(Debug, PartialEq, Eq)]
pub struct Delivery {
    pub to: u64,
    pub event: Event,
}

/// A delivery as a mathematical value.
pub struct DeliveryView {
    pub to: nat,
    pub event: EventView,
}

impl View for Delivery {
    type V = DeliveryView;

    open spec fn view(&self) -> DeliveryView {
        DeliveryView { to: self.to as nat, event: self.event@ }
    }
}

/// The deliveries that a list holds, in the list's order.
pub open spec fn deliveries_of(v: Seq<Delivery>) -> Seq<DeliveryView> {
    v.map_values(|d: Delivery| d@)
}

/// What one line from a client asks for.
#[derive(Debug, PartialEq, Eq)]
pub enum Frame {
    /// An empty line, which asks for nothing.
    Empty,
    /// `/list`
    List,
    /// `/join <room>`
    Join { room: String },
    /// `/name <name>`
    Name { name: String },
    /// A line of chat.
    Text { text: String },
    /// A line that starts with `/` and is none of the commands.
    Unknown { line: String },
}

/// A frame as a mathematical value.
pub enum FrameView {
    Empty,
    List,
    Join { room: Seq<char> },
    Name { name: Seq<char> },
    Text { text: Seq<char> },
    Unknown { line: Seq<char> },
}

impl View for Frame {
    type V = FrameView;

    open spec fn view(&self) -> FrameView {
        match *self {
            Frame::Empty => FrameView::Empty,
            Frame::List => FrameView::List,
            Frame::Join { room } => FrameView::Join { room: room@ },
            Frame::Name { name } => FrameView::Name { name: name@ },
            Frame::Text { text } => FrameView::Text { text: text@ },
            Frame::Unknown { line } => FrameView::Unknown { line: line@ },
        }
    }
}

/// Whether `line` begins with the characters of `prefix`.
pub open spec fn starts_with(line: Seq<char>, prefix: Seq<char>) -> bool {
    prefix.len() <= line.len() && line.take(prefix.len() as int) == prefix
}

/// Whether `line` is `prefix` followed by at least one more character.
pub open spec fn has_argument(line: Seq<char>, prefix: Seq<char>) -> bool {
    starts_with(line, prefix) && line.len() > prefix.len()
}

/// The grammar of inbound lines. The command words are case-sensitive, a
/// command's argument is all that follows the one space after its word, and a
/// command without its argument is not a command.
pub open spec fn parse(line: Seq<char>) -> FrameView {
    if line.len() == 0 {
        FrameView::Empty
    } else if line[0] != '/' {
        FrameView::Text { text: line }
    } else if line == "/list"@ {
        FrameView::List
    } else if has_argument(line, "/join "@) {
        FrameView::Join { room: line.skip("/join "@.len() as int) }
    } else if has_argument(line, "/name "@) {
        FrameView::Name { name: line.skip("/name "@.len() as int) }
    } else {
        FrameView::Unknown { line }
    }
}

/// Decides whether a line is a prefix followed by an argument.
fn check_argument(line: &str, prefix: &str) -> (r: bool)
    ensures
        r == has_argument(line@, prefix@),
{
    let n: usize = line.unicode_len();
    let m: usize = prefix.unicode_len();
    if n <= m {
        return false;
    }
    let r = same_text(line.substring_char(0, m), prefix);
    proof {
        assert(line@.subrange(0, m as int) =~= line@.take(m as int));
    }
    r
}

/// The part of a line that follows a prefix.
fn argument_of(line: &str, prefix: &str) -> (arg: String)
    requires
        has_argument(line@, prefix@),
    ensures
        arg@ == line@.skip(prefix@.len() as int),
{
    let n: usize = line.unicode_len();
    let m: usize = prefix.unicode_len();
    proof {
        assert(line@.subrange(m as int, n as int) =~= line@.skip(m as int));
    }
    line.substring_char(m, n).to_owned()
}

/// Reads one line from a client.
pub fn parse_frame(line: &str) -> (frame: Frame)
    ensures
        frame@ == parse(line@),
{
    let n: usize = line.unicode_len();
    if n == 0 {
        return Frame::Empty;
    }
    if line.get_char(0) != '/' {
        return Frame::Text { text: line.to_owned() };
    }
    if same_text(line, "/list") {
        return Frame::List;
    }
    if check_argument(line, "/join ") {
        return Frame::Join { room: argument_of(line, "/join ") };
    }
    if check_argument(line, "/name ") {
        return Frame::Name { name: argument_of(line, "/name ") };
    }
    Frame::Unknown { line: line.to_owned() }
}

/// The names of a list, each on a line of its own.
pub open spec fn join_lines(names: Seq<Seq<char>>) -> Seq<char>
    decreases names.len(),
{
    if names.len() == 0 {
        Seq::empty()
    } else if names.len() == 1 {
        names[0]
    } else {
        join_lines(names.drop_last()) + "\n"@ + names.last()
    }
}

/// The line that shows an event to a client: a notice for a change of room,
/// the speaker and the text for a message, and one room per line for a list
/// of rooms.
pub open spec fn render(event: EventView) -> Seq<char> {
    match event {
        EventView::Joined { room } => "joined "@ + room,
        EventView::Message { from, text } => from + ": "@ + text,
        EventView::RoomList { rooms } => join_lines(rooms),
    }
}

/// Writes the names of a list, each on a line of its own.
pub fn lines_of(names: &Vec<String>) -> (out: String)
    ensures
        out@ == join_lines(names_of(names@)),
{
    let ghost all = names_of(names@);
    let mut out = String::new();
    let n: usize = names.len();
    let mut i: usize = 0;
    while i < n
        invariant
            i <= n,
            n == names@.len(),
            all == names_of(names@),
            out@ == join_lines(all.take(i as int)),
        decreases n - i,
    {
        proof {
            assert(all.take(i + 1).drop_last() =~= all.take(i as int));
            assert(all.take(i + 1).last() == names@[i as int]@);
        }
        if i > 0 {
            out.append("\n");
        }
        out.append(names[i].as_str());
        proof {
            if i == 0 {
                assert(out@ =~= names@[0]@);
            }
        }
        i += 1;
    }
    proof {
        assert(all.take(n as int) =~= all);
    }
    out
}

/// Writes the line that shows an event to a client.
pub fn render_event(event: &Event) -> (out: String)
    ensures
        out@ == render(event@),
{
    match event {
        Event::Joined { room } => {
            let mut out = String::from_str("joined ");
            out.append(room.as_str());
            out
        },
        Event::Message { from, text } => {
            let mut out = from.clone();
            out.append(": ");
            out.append(text.as_str());
            out
        },
        Event::RoomList { rooms } => lines_of(rooms),
    }
}

} // verus!
