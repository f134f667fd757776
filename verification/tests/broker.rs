use chat_broker::broker::{Broker, MessageRecord};
use chat_broker::protocol::{Command, Delivery, Event};

fn message(to: u64, from: &str, text: &str) -> Delivery {
    Delivery { to, event: Event::Message { from: from.to_string(), text: text.to_string() } }
}

fn joined(to: u64, room: &str) -> Delivery {
    Delivery { to, event: Event::Joined { room: room.to_string() } }
}

fn names(list: &[&str]) -> Vec<String> {
    list.iter().map(|s| s.to_string()).collect()
}

#[test]
fn first_ids_are_one_and_two() {
    let mut broker: Broker<&str> = Broker::new(10_000);
    assert_eq!(broker.connect("a", None, 0), 1);
    assert_eq!(broker.connect("b", None, 0), 2);
}

#[test]
fn connect_ids_are_pairwise_distinct() {
    let mut broker: Broker<u32> = Broker::new(10_000);
    let mut seen: Vec<u64> = Vec::new();
    for round in 0..50u32 {
        let id = broker.connect(round, None, 0);
        assert!(!seen.contains(&id));
        assert_ne!(id, 0);
        seen.push(id);
        if round % 3 == 0 {
            broker.disconnect(id);
        }
    }
}

#[test]
fn an_id_is_not_reused_after_disconnect() {
    let mut broker: Broker<()> = Broker::new(10_000);
    let first = broker.connect((), None, 0);
    broker.disconnect(first);
    let second = broker.connect((), None, 0);
    assert_eq!(first, 1);
    assert_eq!(second, 2);
    assert!(!broker.is_registered(first));
}

#[test]
fn connect_defaults_to_room_main() {
    let mut broker: Broker<()> = Broker::new(10_000);
    let id = broker.connect((), None, 7);
    assert!(broker.is_registered(id));
    assert_eq!(broker.room_of(id), Some("main".to_string()));
    assert_eq!(broker.display_name_of(id), Some("anonymous".to_string()));
    assert_eq!(broker.last_heartbeat_of(id), Some(7));
    assert_eq!(broker.list_rooms(), names(&["main"]));
}

#[test]
fn connect_keeps_the_resolved_name_and_the_channel() {
    let mut broker: Broker<String> = Broker::new(10_000);
    let id = broker.connect("wire".to_string(), Some("Bob".to_string()), 0);
    assert_eq!(broker.display_name_of(id), Some("Bob".to_string()));
    assert_eq!(broker.channel_of(id), Some(&"wire".to_string()));
    assert_eq!(broker.channel_of(id + 1), None);
}

#[test]
fn has_free_id_on_a_new_broker() {
    let broker: Broker<()> = Broker::new(1);
    assert!(broker.has_free_id());
    assert_eq!(broker.timeout(), 1);
}

#[test]
fn scenario_hello_reaches_the_other_session_only() {
    let mut broker: Broker<()> = Broker::new(10_000);
    let one = broker.connect((), None, 0);
    let two = broker.connect((), None, 0);
    assert_eq!(broker.room_of(one), Some("main".to_string()));
    assert_eq!(broker.room_of(two), Some("main".to_string()));
    let out = broker.broadcast(one, "hello");
    assert_eq!(out, vec![message(two, "anonymous", "hello")]);
    assert!(out.iter().all(|d| d.to != one));
}

#[test]
fn scenario_join_lobby_lists_both_rooms() {
    let mut broker: Broker<()> = Broker::new(10_000);
    let one = broker.connect((), None, 0);
    let two = broker.connect((), None, 0);
    let out = broker.join(one, "lobby");
    assert_eq!(out, vec![joined(two, "lobby"), joined(one, "lobby")]);
    assert_eq!(broker.list_rooms(), names(&["lobby", "main"]));
    assert_eq!(broker.room_of(one), Some("lobby".to_string()));
    assert_eq!(broker.room_of(two), Some("main".to_string()));
}

#[test]
fn scenario_join_lobby_empties_main() {
    let mut broker: Broker<()> = Broker::new(10_000);
    let one = broker.connect((), None, 0);
    let out = broker.join(one, "lobby");
    assert_eq!(out, vec![joined(one, "lobby")]);
    assert_eq!(broker.list_rooms(), names(&["lobby"]));
}

#[test]
fn scenario_name_alice_then_hi() {
    let mut broker: Broker<()> = Broker::new(10_000);
    let one = broker.connect((), None, 0);
    let two = broker.connect((), None, 0);
    broker.set_name(one, "Alice");
    assert_eq!(broker.broadcast(one, "hi"), vec![message(two, "Alice", "hi")]);
    assert_eq!(broker.broadcast(two, "yo"), vec![message(one, "anonymous", "yo")]);
}

#[test]
fn scenario_list_goes_to_the_asker_only() {
    let mut broker: Broker<()> = Broker::new(10_000);
    let one = broker.connect((), None, 0);
    let two = broker.connect((), None, 0);
    broker.join(two, "lobby");
    let out = broker.rooms_for(one);
    assert_eq!(
        out,
        vec![Delivery { to: one, event: Event::RoomList { rooms: names(&["lobby", "main"]) } }]
    );
}

#[test]
fn rooms_are_listed_once_in_lexicographic_order() {
    let mut broker: Broker<()> = Broker::new(10_000);
    for room in ["zoo", "b", "a", "ab", "B", "lobby", "a", "zoo"] {
        let id = broker.connect((), None, 0);
        broker.join(id, room);
    }
    assert_eq!(broker.list_rooms(), names(&["B", "a", "ab", "b", "lobby", "zoo"]));
}

#[test]
fn no_rooms_without_sessions() {
    let broker: Broker<()> = Broker::new(10_000);
    assert_eq!(broker.list_rooms(), Vec::<String>::new());
}

#[test]
fn join_moves_to_exactly_one_room() {
    let mut broker: Broker<()> = Broker::new(10_000);
    let one = broker.connect((), None, 0);
    let two = broker.connect((), None, 0);
    let three = broker.connect((), None, 0);
    broker.join(one, "r");
    broker.join(two, "r");
    assert_eq!(broker.room_of(one), Some("r".to_string()));
    assert_eq!(broker.broadcast(one, "x"), vec![message(two, "anonymous", "x")]);
    assert_eq!(broker.broadcast(three, "y"), Vec::<Delivery>::new());
    broker.join(three, "r");
    assert_eq!(broker.list_rooms(), names(&["r"]));
}

#[test]
fn join_tells_everybody_who_stays_behind_in_id_order() {
    let mut broker: Broker<()> = Broker::new(10_000);
    let one = broker.connect((), None, 0);
    let two = broker.connect((), None, 0);
    let three = broker.connect((), None, 0);
    let four = broker.connect((), None, 0);
    broker.join(four, "elsewhere");
    let out = broker.join(two, "lobby");
    assert_eq!(out, vec![joined(one, "lobby"), joined(three, "lobby"), joined(two, "lobby")]);
}

#[test]
fn join_of_the_current_room_only_confirms() {
    let mut broker: Broker<()> = Broker::new(10_000);
    let one = broker.connect((), None, 0);
    let _two = broker.connect((), None, 0);
    let out = broker.join(one, "main");
    assert_eq!(out, vec![joined(one, "main")]);
    assert_eq!(broker.room_of(one), Some("main".to_string()));
    assert_eq!(broker.list_rooms(), names(&["main"]));
}

#[test]
fn join_of_an_unknown_session_is_dropped() {
    let mut broker: Broker<()> = Broker::new(10_000);
    let one = broker.connect((), None, 0);
    assert_eq!(broker.join(one + 5, "lobby"), Vec::<Delivery>::new());
    assert_eq!(broker.list_rooms(), names(&["main"]));
}

#[test]
fn broadcast_stays_inside_the_room() {
    let mut broker: Broker<()> = Broker::new(10_000);
    let one = broker.connect((), None, 0);
    let two = broker.connect((), None, 0);
    let three = broker.connect((), None, 0);
    let four = broker.connect((), None, 0);
    broker.join(three, "lobby");
    let out = broker.broadcast(one, "hi");
    assert_eq!(out, vec![message(two, "anonymous", "hi"), message(four, "anonymous", "hi")]);
    assert_eq!(broker.broadcast(three, "alone"), Vec::<Delivery>::new());
}

#[test]
fn broadcast_of_a_disconnected_session_is_dropped() {
    let mut broker: Broker<()> = Broker::new(10_000);
    let one = broker.connect((), None, 0);
    let _two = broker.connect((), None, 0);
    broker.disconnect(one);
    assert_eq!(broker.broadcast(one, "late"), Vec::<Delivery>::new());
}

#[test]
fn set_name_does_not_touch_unknown_sessions() {
    let mut broker: Broker<()> = Broker::new(10_000);
    let one = broker.connect((), None, 0);
    broker.set_name(one + 1, "Ghost");
    assert_eq!(broker.display_name_of(one), Some("anonymous".to_string()));
    assert_eq!(broker.display_name_of(one + 1), None);
    broker.set_name(one, "Ann");
    broker.set_name(one, "Anna");
    assert_eq!(broker.display_name_of(one), Some("Anna".to_string()));
}

#[test]
fn disconnect_twice_is_disconnect_once() {
    let mut broker: Broker<()> = Broker::new(10_000);
    let one = broker.connect((), None, 0);
    let two = broker.connect((), None, 0);
    broker.join(one, "lobby");
    broker.disconnect(one);
    let rooms = broker.list_rooms();
    let reach = broker.broadcast(two, "x");
    broker.disconnect(one);
    assert_eq!(broker.list_rooms(), rooms);
    assert_eq!(broker.list_rooms(), names(&["main"]));
    assert_eq!(broker.broadcast(two, "x"), reach);
    assert!(!broker.is_registered(one));
    assert!(broker.is_registered(two));
    assert_eq!(broker.connect((), None, 0), 3);
}

#[test]
fn disconnect_of_an_unknown_session_changes_nothing() {
    let mut broker: Broker<()> = Broker::new(10_000);
    let one = broker.connect((), None, 0);
    broker.disconnect(99);
    broker.disconnect(0);
    assert!(broker.is_registered(one));
    assert_eq!(broker.list_rooms(), names(&["main"]));
}

#[test]
fn heartbeat_moves_forward_only() {
    let mut broker: Broker<()> = Broker::new(10_000);
    let one = broker.connect((), None, 100);
    broker.heartbeat(one, 250);
    assert_eq!(broker.last_heartbeat_of(one), Some(250));
    broker.heartbeat(one, 200);
    assert_eq!(broker.last_heartbeat_of(one), Some(250));
    broker.heartbeat(one + 1, 900);
    assert_eq!(broker.last_heartbeat_of(one + 1), None);
}

#[test]
fn sweep_evicts_a_silent_session() {
    let mut broker: Broker<&str> = Broker::new(10_000);
    let one = broker.connect("a", None, 0);
    let two = broker.connect("b", None, 0);
    broker.join(one, "lobby");
    broker.heartbeat(two, 6_000);
    let out = broker.sweep(10_001);
    assert_eq!(out.len(), 1);
    assert_eq!(out[0].id, one);
    assert_eq!(out[0].channel, "a");
    assert!(!broker.is_registered(one));
    assert!(broker.is_registered(two));
    assert_eq!(broker.list_rooms(), names(&["main"]));
}

#[test]
fn sweep_waits_for_more_than_the_timeout() {
    let mut broker: Broker<()> = Broker::new(10_000);
    let one = broker.connect((), None, 5);
    assert_eq!(broker.sweep(10_005).len(), 0);
    assert!(broker.is_registered(one));
    assert_eq!(broker.sweep(3).len(), 0);
    assert!(broker.is_registered(one));
    let out = broker.sweep(10_006);
    assert_eq!(out.len(), 1);
    assert_eq!(out[0].id, one);
    assert_eq!(broker.sweep(10_006).len(), 0);
}

#[test]
fn sweep_reports_evictions_in_id_order() {
    let mut broker: Broker<u8> = Broker::new(10);
    let one = broker.connect(1, None, 0);
    let two = broker.connect(2, None, 0);
    let three = broker.connect(3, None, 0);
    let four = broker.connect(4, None, 0);
    broker.heartbeat(two, 50);
    let out = broker.sweep(55);
    let ids: Vec<u64> = out.iter().map(|e| e.id).collect();
    let channels: Vec<u8> = out.iter().map(|e| e.channel).collect();
    assert_eq!(ids, vec![one, three, four]);
    assert_eq!(channels, vec![1, 3, 4]);
    assert!(broker.is_registered(two));
    assert_eq!(broker.connect(5, None, 60), 5);
}

#[test]
fn sweep_with_timeout_zero_and_late_clock() {
    let mut broker: Broker<()> = Broker::new(0);
    let one = broker.connect((), None, u64::MAX - 1);
    assert_eq!(broker.sweep(u64::MAX - 1).len(), 0);
    assert_eq!(broker.sweep(u64::MAX).len(), 1);
    assert!(!broker.is_registered(one));
}

#[test]
fn eviction_is_a_disconnect() {
    let mut swept: Broker<()> = Broker::new(10);
    let mut dropped: Broker<()> = Broker::new(10);
    for broker in [&mut swept, &mut dropped] {
        let one = broker.connect((), None, 0);
        let two = broker.connect((), None, 100);
        broker.join(one, "lobby");
        broker.set_name(two, "Zed");
    }
    swept.sweep(100);
    dropped.disconnect(1);
    assert_eq!(swept.list_rooms(), dropped.list_rooms());
    assert_eq!(swept.is_registered(1), dropped.is_registered(1));
    assert_eq!(swept.room_of(2), dropped.room_of(2));
    assert_eq!(swept.display_name_of(2), dropped.display_name_of(2));
}

#[test]
fn handle_carries_out_each_command() {
    let mut broker: Broker<()> = Broker::new(10_000);
    let one = broker.connect((), None, 0);
    let two = broker.connect((), None, 0);
    assert_eq!(
        broker.handle(&Command::SetName { id: one, name: "Alice".to_string() }, 1),
        Vec::<Delivery>::new()
    );
    assert_eq!(
        broker.handle(&Command::Broadcast { id: one, text: "hi".to_string() }, 2),
        vec![message(two, "Alice", "hi")]
    );
    assert_eq!(
        broker.handle(&Command::Join { id: one, room: "lobby".to_string() }, 3),
        vec![joined(two, "lobby"), joined(one, "lobby")]
    );
    assert_eq!(
        broker.handle(&Command::ListRooms { id: two }, 4),
        vec![Delivery { to: two, event: Event::RoomList { rooms: names(&["lobby", "main"]) } }]
    );
    assert_eq!(broker.handle(&Command::Heartbeat { id: two }, 77), Vec::<Delivery>::new());
    assert_eq!(broker.last_heartbeat_of(two), Some(77));
    assert_eq!(broker.last_heartbeat_of(one), Some(0));
    assert_eq!(broker.handle(&Command::Disconnect { id: one }, 78), Vec::<Delivery>::new());
    assert!(!broker.is_registered(one));
    assert_eq!(broker.handle(&Command::ListRooms { id: one }, 79), Vec::<Delivery>::new());
    assert_eq!(broker.handle(&Command::Disconnect { id: one }, 80), Vec::<Delivery>::new());
    assert_eq!(broker.list_rooms(), names(&["main"]));
}

#[test]
fn message_record_names_room_and_speaker() {
    let mut broker: Broker<()> = Broker::new(10_000);
    let one = broker.connect((), None, 0);
    let two = broker.connect((), Some("Bob".to_string()), 0);
    broker.join(two, "lobby");
    assert_eq!(
        broker.message_record(one, "hi", 42),
        Some(MessageRecord {
            room: "main".to_string(),
            from: "anonymous".to_string(),
            text: "hi".to_string(),
            timestamp: 42,
        })
    );
    assert_eq!(
        broker.message_record(two, "yo", 43),
        Some(MessageRecord {
            room: "lobby".to_string(),
            from: "Bob".to_string(),
            text: "yo".to_string(),
            timestamp: 43,
        })
    );
    broker.disconnect(one);
    assert_eq!(broker.message_record(one, "late", 44), None);
}
