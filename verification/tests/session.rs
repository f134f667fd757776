use chat_broker::broker::Broker;
use chat_broker::protocol::{Command, Delivery, Event};
use chat_broker::session::{Action, Phase, Session, CLIENT_TIMEOUT, HEARTBEAT_INTERVAL};

fn active(id: u64, now: u64) -> Session {
    let mut session = Session::new(now, CLIENT_TIMEOUT);
    session.activate(id, now);
    session
}

fn forward(command: Command) -> Action {
    Action::Forward { command }
}

fn deliver(broker: &mut Broker<()>, actions: Vec<Action>, now: u64) -> Vec<Delivery> {
    let mut out = Vec::new();
    for action in actions {
        if let Action::Forward { command } = action {
            out.extend(broker.handle(&command, now));
        }
    }
    out
}

#[test]
fn timing_constants() {
    assert_eq!(HEARTBEAT_INTERVAL, 5_000);
    assert_eq!(CLIENT_TIMEOUT, 10_000);
}

#[test]
fn new_session_is_connecting_in_main() {
    let session = Session::new(42, 10_000);
    assert_eq!(session.phase(), Phase::Connecting);
    assert_eq!(session.id(), 0);
    assert_eq!(session.last_heartbeat(), 42);
    assert_eq!(session.room(), "main");
    assert_eq!(session.name(), None);
}

#[test]
fn activate_registers_once() {
    let mut session = Session::new(10, 10_000);
    session.activate(7, 20);
    assert_eq!(session.phase(), Phase::Active);
    assert_eq!(session.id(), 7);
    assert_eq!(session.last_heartbeat(), 20);
    session.activate(9, 30);
    assert_eq!(session.id(), 7);
    assert_eq!(session.last_heartbeat(), 20);
}

#[test]
fn frames_before_registration_are_dropped() {
    let mut session = Session::new(0, 10_000);
    assert_eq!(session.on_frame("hello", 5), Vec::<Action>::new());
    assert_eq!(session.on_pong(5), Vec::<Action>::new());
    assert_eq!(session.on_tick(50_000), Vec::<Action>::new());
    assert_eq!(session.last_heartbeat(), 0);
    assert_eq!(session.phase(), Phase::Connecting);
}

#[test]
fn chat_line_becomes_a_broadcast() {
    let mut session = active(3, 0);
    let out = session.on_frame("hello", 100);
    assert_eq!(
        out,
        vec![
            forward(Command::Heartbeat { id: 3 }),
            forward(Command::Broadcast { id: 3, text: "hello".to_string() }),
        ]
    );
    assert_eq!(session.last_heartbeat(), 100);
}

#[test]
fn empty_line_is_only_a_sign_of_life() {
    let mut session = active(3, 0);
    assert_eq!(session.on_frame("", 100), vec![forward(Command::Heartbeat { id: 3 })]);
    assert_eq!(session.last_heartbeat(), 100);
}

#[test]
fn list_join_and_name_become_commands() {
    let mut session = active(4, 0);
    assert_eq!(
        session.on_frame("/list", 1),
        vec![forward(Command::Heartbeat { id: 4 }), forward(Command::ListRooms { id: 4 })]
    );
    assert_eq!(
        session.on_frame("/join lobby", 2),
        vec![
            forward(Command::Heartbeat { id: 4 }),
            forward(Command::Join { id: 4, room: "lobby".to_string() }),
        ]
    );
    assert_eq!(session.room(), "lobby");
    assert_eq!(
        session.on_frame("/name Alice", 3),
        vec![
            forward(Command::Heartbeat { id: 4 }),
            forward(Command::SetName { id: 4, name: "Alice".to_string() }),
        ]
    );
    assert_eq!(session.name(), Some("Alice"));
}

#[test]
fn unknown_command_is_answered_and_not_broadcast() {
    let mut session = active(4, 0);
    let out = session.on_frame("/quit now", 1);
    assert_eq!(
        out,
        vec![
            forward(Command::Heartbeat { id: 4 }),
            Action::Send { line: "!!! unknown command: /quit now".to_string() },
        ]
    );
    assert_eq!(session.phase(), Phase::Active);
    assert_eq!(session.room(), "main");
}

#[test]
fn pong_is_a_sign_of_life() {
    let mut session = active(2, 0);
    assert_eq!(session.on_pong(900), vec![forward(Command::Heartbeat { id: 2 })]);
    assert_eq!(session.last_heartbeat(), 900);
    assert_eq!(session.on_pong(800), vec![forward(Command::Heartbeat { id: 2 })]);
    assert_eq!(session.last_heartbeat(), 900);
}

#[test]
fn tick_pings_a_lively_client() {
    let mut session = active(2, 1_000);
    assert_eq!(session.on_tick(6_000), vec![Action::Ping]);
    assert_eq!(session.on_tick(11_000), vec![Action::Ping]);
    assert_eq!(session.on_tick(500), vec![Action::Ping]);
    assert_eq!(session.phase(), Phase::Active);
}

#[test]
fn tick_gives_up_a_silent_client() {
    let mut session = active(2, 1_000);
    assert_eq!(
        session.on_tick(11_001),
        vec![forward(Command::Disconnect { id: 2 }), Action::Close]
    );
    assert_eq!(session.phase(), Phase::Closing);
    assert_eq!(session.on_tick(20_000), Vec::<Action>::new());
}

#[test]
fn any_frame_postpones_the_timeout() {
    let mut session = active(2, 0);
    session.on_frame("", 9_000);
    assert_eq!(session.on_tick(15_000), vec![Action::Ping]);
    assert_eq!(
        session.on_tick(19_001),
        vec![forward(Command::Disconnect { id: 2 }), Action::Close]
    );
}

#[test]
fn close_takes_leave_exactly_once() {
    let mut session = active(5, 0);
    assert_eq!(session.close(), vec![forward(Command::Disconnect { id: 5 }), Action::Close]);
    assert_eq!(session.phase(), Phase::Closing);
    assert_eq!(session.close(), Vec::<Action>::new());
    assert_eq!(session.on_frame("hello", 1), Vec::<Action>::new());
    assert_eq!(session.connection_lost(), Vec::<Action>::new());
    assert_eq!(session.phase(), Phase::Closed);
    assert_eq!(session.close(), Vec::<Action>::new());
    assert_eq!(session.connection_lost(), Vec::<Action>::new());
    assert_eq!(session.phase(), Phase::Closed);
}

#[test]
fn lost_connection_of_an_active_session_takes_leave() {
    let mut session = active(5, 0);
    assert_eq!(session.connection_lost(), vec![forward(Command::Disconnect { id: 5 })]);
    assert_eq!(session.phase(), Phase::Closed);
    session.activate(6, 1);
    assert_eq!(session.phase(), Phase::Closed);
}

#[test]
fn close_during_the_handshake_needs_no_farewell() {
    let mut session = Session::new(0, 10_000);
    assert_eq!(session.close(), vec![Action::Close]);
    assert_eq!(session.phase(), Phase::Closing);
    session.activate(1, 1);
    assert_eq!(session.phase(), Phase::Closing);
    let mut other = Session::new(0, 10_000);
    assert_eq!(other.connection_lost(), Vec::<Action>::new());
    assert_eq!(other.phase(), Phase::Closed);
}

#[test]
fn events_are_shown_while_active_only() {
    let event = Event::Message { from: "Alice".to_string(), text: "hi".to_string() };
    let mut session = Session::new(0, 10_000);
    assert_eq!(session.on_event(&event), None);
    session.activate(1, 0);
    assert_eq!(session.on_event(&event), Some("Alice: hi".to_string()));
    assert_eq!(
        session.on_event(&Event::Joined { room: "lobby".to_string() }),
        Some("joined lobby".to_string())
    );
    session.close();
    assert_eq!(session.on_event(&event), None);
    session.connection_lost();
    assert_eq!(session.on_event(&event), None);
}

#[test]
fn scenario_hello_through_sessions() {
    let mut broker: Broker<()> = Broker::new(CLIENT_TIMEOUT);
    let mut one = active(broker.connect((), None, 0), 0);
    let two = active(broker.connect((), None, 0), 0);
    let actions = one.on_frame("hello", 10);
    let out = deliver(&mut broker, actions, 10);
    assert_eq!(out.len(), 1);
    assert_eq!(out[0].to, two.id());
    assert_eq!(two.on_event(&out[0].event), Some("anonymous: hello".to_string()));
    assert_eq!(broker.last_heartbeat_of(one.id()), Some(10));
}

#[test]
fn scenario_join_lobby_through_sessions() {
    let mut broker: Broker<()> = Broker::new(CLIENT_TIMEOUT);
    let mut one = active(broker.connect((), None, 0), 0);
    let two = active(broker.connect((), None, 0), 0);
    let actions = one.on_frame("/join lobby", 10);
    let out = deliver(&mut broker, actions, 10);
    assert_eq!(broker.list_rooms(), vec!["lobby", "main"]);
    assert_eq!(out.len(), 2);
    assert_eq!(out[1].to, one.id());
    assert_eq!(one.on_event(&out[1].event), Some("joined lobby".to_string()));
    broker.disconnect(two.id());
    assert_eq!(broker.list_rooms(), vec!["lobby"]);
}

#[test]
fn scenario_name_through_sessions() {
    let mut broker: Broker<()> = Broker::new(CLIENT_TIMEOUT);
    let mut one = active(broker.connect((), None, 0), 0);
    let two = active(broker.connect((), None, 0), 0);
    let actions = one.on_frame("/name Alice", 10);
    assert_eq!(deliver(&mut broker, actions, 10), Vec::<Delivery>::new());
    let actions = one.on_frame("hi", 11);
    let out = deliver(&mut broker, actions, 11);
    assert_eq!(
        out,
        vec![Delivery {
            to: two.id(),
            event: Event::Message { from: "Alice".to_string(), text: "hi".to_string() },
        }]
    );
}

#[test]
fn scenario_list_through_sessions() {
    let mut broker: Broker<()> = Broker::new(CLIENT_TIMEOUT);
    let mut one = active(broker.connect((), None, 0), 0);
    let mut two = active(broker.connect((), None, 0), 0);
    let actions = two.on_frame("/join lobby", 5);
    deliver(&mut broker, actions, 5);
    let actions = one.on_frame("/list", 10);
    let out = deliver(&mut broker, actions, 10);
    assert_eq!(
        out,
        vec![Delivery {
            to: one.id(),
            event: Event::RoomList { rooms: vec!["lobby".to_string(), "main".to_string()] },
        }]
    );
    assert_eq!(one.on_event(&out[0].event), Some("lobby\nmain".to_string()));
}

#[test]
fn scenario_silent_session_is_evicted_and_closed() {
    let mut broker: Broker<u8> = Broker::new(CLIENT_TIMEOUT);
    let mut one = active(broker.connect(1, None, 0), 0);
    let mut two = active(broker.connect(2, None, 0), 0);
    let actions = two.on_pong(8_000);
    for action in actions {
        if let Action::Forward { command } = action {
            broker.handle(&command, 8_000);
        }
    }
    let evicted = broker.sweep(10_001);
    assert_eq!(evicted.len(), 1);
    assert_eq!(evicted[0].id, one.id());
    assert_eq!(evicted[0].channel, 1);
    let actions = one.close();
    assert_eq!(actions, vec![forward(Command::Disconnect { id: 1 }), Action::Close]);
    for action in actions {
        if let Action::Forward { command } = action {
            assert_eq!(broker.handle(&command, 10_001), Vec::<Delivery>::new());
        }
    }
    assert!(!broker.is_registered(1));
    assert!(broker.is_registered(2));
    assert_eq!(two.phase(), Phase::Active);
}
