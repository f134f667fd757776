//! What holds of the broker whatever is asked of it.

use crate::model::{ascending, fans_out, issued, run, step, targets, BrokerView, Step};
use crate::protocol::{CommandView, DeliveryView, EventView};
use crate::session::{farewells, is_farewell, ActionView, Input, SessionState};
use crate::text::{lemma_lex_irreflexive, lemma_lex_total, lex_lt, strictly_sorted};
use vstd::prelude::*;

verus! {

/// A step keeps the state well-formed, never lowers the next id, and keeps
/// the timeout; a connection raises the next id by one.
pub proof fn lemma_step_wf<C>(state: BrokerView<C>, s: Step<C>)
    requires
        state.wf(),
    ensures
        step(state, s).wf(),
        step(state, s).next_id >= state.next_id,
        s is Connect ==> step(state, s).next_id == state.next_id + 1,
        step(state, s).timeout == state.timeout,
{
}

/// A run keeps the state well-formed and never lowers the next id.
pub proof fn lemma_run_wf<C>(state: BrokerView<C>, steps: Seq<Step<C>>)
    requires
        state.wf(),
    ensures
        run(state, steps).wf(),
        run(state, steps).next_id >= state.next_id,
    decreases steps.len(),
{
    if steps.len() > 0 {
        lemma_run_wf(state, steps.drop_last());
        lemma_step_wf(run(state, steps.drop_last()), steps.last());
    }
}

/// Along a run the next id never goes down, and it has gone up after a
/// connection.
pub proof fn lemma_next_id_grows<C>(state: BrokerView<C>, steps: Seq<Step<C>>, i: int, j: int)
    requires
        state.wf(),
        0 <= i <= j <= steps.len(),
    ensures
        issued(state, steps, i) <= issued(state, steps, j),
        i < j && steps[i] is Connect ==> issued(state, steps, i) < issued(state, steps, j),
    decreases j - i,
{
    if i < j {
        lemma_next_id_grows(state, steps, i, j - 1);
        assert(steps.take(j).drop_last() =~= steps.take(j - 1));
        assert(steps.take(j).last() == steps[j - 1]);
        lemma_run_wf(state, steps.take(j - 1));
        lemma_step_wf(run(state, steps.take(j - 1)), steps[j - 1]);
    }
}

/// Whatever happens between them, two connections get different ids, and
/// the id that a connection gets is not registered at that time: an id is
/// never used again.
pub proof fn lemma_connect_ids_distinct<C>(
    state: BrokerView<C>,
    steps: Seq<Step<C>>,
    i: int,
    j: int,
)
    requires
        state.wf(),
        0 <= i < j < steps.len(),
        steps[i] is Connect,
        steps[j] is Connect,
    ensures
        issued(state, steps, i) != issued(state, steps, j),
        !run(state, steps.take(j)).live(issued(state, steps, j)),
{
    lemma_next_id_grows(state, steps, i, j);
    lemma_run_wf(state, steps.take(j));
}

/// A registered session is in exactly one room.
pub proof fn lemma_one_room<C>(state: BrokerView<C>, id: nat)
    requires
        state.live(id),
    ensures
        state.members(state.sessions[id].room).contains(id),
        forall|room: Seq<char>| #[trigger]
            state.members(room).contains(id) ==> room == state.sessions[id].room,
{
}

/// The members of a room are registered sessions, and a room exists exactly
/// while it has a member.
pub proof fn lemma_members_live<C>(state: BrokerView<C>, room: Seq<char>)
    ensures
        forall|id: nat| #[trigger] state.members(room).contains(id) ==> state.live(id),
        state.rooms().contains(room) <==> exists|id: nat| state.members(room).contains(id),
{
}

/// While a session is registered, the time of its last sign of life never
/// goes back.
pub proof fn lemma_heartbeat_monotonic<C>(state: BrokerView<C>, s: Step<C>, id: nat)
    requires
        state.wf(),
        state.live(id),
        step(state, s).live(id),
    ensures
        step(state, s).sessions[id].last_heartbeat >= state.sessions[id].last_heartbeat,
{
}

/// After a join the session is a member of the room that it asked for and of
/// no other. The room that it left has gone if it was the only one there,
/// and exists on if somebody stayed behind.
pub proof fn lemma_join_moves<C>(state: BrokerView<C>, id: nat, room: Seq<char>)
    requires
        state.live(id),
    ensures
        state.join(id, room).members(room).contains(id),
        state.join(id, room).rooms().contains(room),
        forall|other: Seq<char>| #[trigger]
            state.join(id, room).members(other).contains(id) ==> other == room,
        state.sessions[id].room != room ==> (state.join(id, room).rooms().contains(
            state.sessions[id].room,
        ) <==> exists|mate: nat| state.roommates(id).contains(mate)),
{
    let after = state.join(id, room);
    let left = state.sessions[id].room;
    assert(after.members(room).contains(id));
    if left != room {
        if after.rooms().contains(left) {
            let mate = choose|mate: nat| after.members(left).contains(mate);
            assert(state.roommates(id).contains(mate));
        }
        if exists|mate: nat| state.roommates(id).contains(mate) {
            let mate = choose|mate: nat| state.roommates(id).contains(mate);
            assert(after.members(left).contains(mate));
        }
    }
}

/// A broadcast reaches every member of the sender's room but the sender,
/// and nobody in another room; what it delivers is the text under the
/// sender's name.
pub proof fn lemma_broadcast_reach<C>(
    state: BrokerView<C>,
    id: nat,
    text: Seq<char>,
    out: Seq<DeliveryView>,
)
    requires
        state.live(id),
        state.broadcast_deliveries(id, text, out),
    ensures
        forall|to: nat|
            targets(out).contains(to) <==> (to != id && state.members(
                state.sessions[id].room,
            ).contains(to)),
        forall|k: int|
            0 <= k < out.len() ==> {
                &&& (#[trigger] out[k]).to != id
                &&& state.live(out[k].to)
                &&& state.sessions[out[k].to].room == state.sessions[id].room
                &&& out[k].event == (EventView::Message { from: state.display_name(id), text })
            },
{
    assert forall|k: int| 0 <= k < out.len() implies {
        &&& (#[trigger] out[k]).to != id
        &&& state.live(out[k].to)
        &&& state.sessions[out[k].to].room == state.sessions[id].room
    } by {
        let to = out[k].to;
        assert(targets(out)[k] == to);
        assert(targets(out).contains(to));
        assert(state.roommates(id).contains(to));
    }
}

/// To disconnect a session twice is to disconnect it once, and to
/// disconnect a session that is not registered changes nothing.
pub proof fn lemma_disconnect_idempotent<C>(state: BrokerView<C>, id: nat)
    ensures
        state.disconnect(id).disconnect(id) == state.disconnect(id),
        !state.disconnect(id).live(id),
        !state.live(id) ==> state.disconnect(id) == state,
{
}

/// A sweep evicts every session that has been silent for longer than the
/// timeout, whatever else is true of it, and leaves every other session as
/// it is.
pub proof fn lemma_sweep_evicts<C>(state: BrokerView<C>, now: nat, id: nat)
    requires
        state.live(id),
    ensures
        state.stale(id, now) ==> !state.sweep(now).live(id),
        !state.stale(id, now) ==> state.sweep(now).live(id) && state.sweep(now).sessions[id]
            == state.sessions[id],
{
}

/// Whether a step is a sign of life of `id`.
pub open spec fn is_heartbeat_of<C>(s: Step<C>, id: nat) -> bool {
    match s {
        Step::Command { command, now } => command == (CommandView::Heartbeat { id }),
        _ => false,
    }
}

/// Only a sign of life of its own changes what a registered session's last
/// sign of life was: a run without one leaves it as it is, while the session
/// stays registered.
pub proof fn lemma_silence_keeps_heartbeat<C>(state: BrokerView<C>, steps: Seq<Step<C>>, id: nat)
    requires
        state.wf(),
        state.live(id),
        forall|k: int| 0 <= k < steps.len() ==> !is_heartbeat_of(#[trigger] steps[k], id),
    ensures
        run(state, steps).wf(),
        run(state, steps).timeout == state.timeout,
        id < run(state, steps).next_id,
        run(state, steps).live(id) ==> run(state, steps).sessions[id].last_heartbeat
            == state.sessions[id].last_heartbeat,
    decreases steps.len(),
{
    if steps.len() > 0 {
        let before = steps.drop_last();
        assert forall|k: int| 0 <= k < before.len() implies !is_heartbeat_of(
            #[trigger] before[k],
            id,
        ) by {
            assert(before[k] == steps[k]);
        }
        lemma_silence_keeps_heartbeat(state, before, id);
        assert(!is_heartbeat_of(steps[steps.len() - 1], id));
        lemma_step_wf(run(state, before), steps.last());
    }
}

/// A session that gives no sign of life for longer than the timeout is
/// evicted by the next sweep, whatever else happens in the meantime.
pub proof fn lemma_silence_is_swept<C>(
    state: BrokerView<C>,
    steps: Seq<Step<C>>,
    id: nat,
    now: nat,
)
    requires
        state.wf(),
        state.live(id),
        forall|k: int| 0 <= k < steps.len() ==> !is_heartbeat_of(#[trigger] steps[k], id),
        now - state.sessions[id].last_heartbeat > state.timeout,
    ensures
        !step(run(state, steps), Step::Sweep { now }).live(id),
{
    lemma_silence_keeps_heartbeat(state, steps, id);
}

/// An eviction is a disconnect: a sweep that finds one stale session leaves
/// the broker as a disconnect of that session would.
pub proof fn lemma_sweep_is_disconnect<C>(state: BrokerView<C>, now: nat, id: nat)
    requires
        state.stale(id, now),
        forall|other: nat| state.stale(other, now) ==> other == id,
    ensures
        state.sweep(now) == state.disconnect(id),
{
    assert(state.sweep(now).sessions =~= state.disconnect(id).sessions);
}

/// Two ascending lists of the same ids are the same list.
pub proof fn lemma_ascending_unique(a: Seq<nat>, b: Seq<nat>)
    requires
        ascending(a),
        ascending(b),
        forall|id: nat| a.contains(id) <==> b.contains(id),
    ensures
        a == b,
    decreases a.len(),
{
    if a.len() == 0 {
        if b.len() > 0 {
            assert(b.contains(b[0]));
        }
        assert(a =~= b);
    } else {
        let top = a.last();
        assert(a.contains(top));
        let at = choose|at: int| 0 <= at < b.len() && b[at] == top;
        assert(b.contains(b.last()));
        let back = choose|back: int| 0 <= back < a.len() && a[back] == b.last();
        assert(at == b.len() - 1);
        let a0 = a.drop_last();
        let b0 = b.drop_last();
        assert forall|id: nat| a0.contains(id) <==> b0.contains(id) by {
            if a0.contains(id) {
                let k = choose|k: int| 0 <= k < a0.len() && a0[k] == id;
                assert(a[k] == id);
                assert(a.contains(id));
                let m = choose|m: int| 0 <= m < b.len() && b[m] == id;
                assert(b0[m] == id);
            }
            if b0.contains(id) {
                let k = choose|k: int| 0 <= k < b0.len() && b0[k] == id;
                assert(b[k] == id);
                assert(b.contains(id));
                let m = choose|m: int| 0 <= m < a.len() && a[m] == id;
                assert(a0[m] == id);
            }
        }
        lemma_ascending_unique(a0, b0);
        assert(a =~= a0.push(top));
        assert(b =~= b0.push(top));
    }
}

/// The deliveries of a fan-out are determined: two lists that carry the same
/// event to the same sessions, each in ascending order, are the same list.
pub proof fn lemma_fans_out_unique(
    a: Seq<DeliveryView>,
    b: Seq<DeliveryView>,
    to: Set<nat>,
    event: EventView,
)
    requires
        fans_out(a, to, event),
        fans_out(b, to, event),
    ensures
        a == b,
{
    assert forall|id: nat| targets(a).contains(id) <==> targets(b).contains(id) by {
        assert(targets(a).contains(id) <==> to.contains(id));
        assert(targets(b).contains(id) <==> to.contains(id));
    }
    lemma_ascending_unique(targets(a), targets(b));
    assert(a.len() == b.len());
    assert forall|k: int| 0 <= k < a.len() implies a[k] == b[k] by {
        assert(targets(a)[k] == targets(b)[k]);
    }
    assert(a =~= b);
}

/// Two sorted lists of the same names are the same list.
pub proof fn lemma_sorted_unique(a: Seq<Seq<char>>, b: Seq<Seq<char>>)
    requires
        strictly_sorted(a),
        strictly_sorted(b),
        forall|name: Seq<char>| a.contains(name) <==> b.contains(name),
    ensures
        a == b,
    decreases a.len(),
{
    if a.len() == 0 {
        if b.len() > 0 {
            assert(b.contains(b[0]));
        }
        assert(a =~= b);
    } else {
        let top = a.last();
        assert(a.contains(top));
        let at = choose|at: int| 0 <= at < b.len() && b[at] == top;
        assert(b.contains(b.last()));
        let back = choose|back: int| 0 <= back < a.len() && a[back] == b.last();
        lemma_lex_irreflexive(top);
        lemma_lex_total(top, b.last());
        assert(at == b.len() - 1) by {
            if at < b.len() - 1 {
                assert(lex_lt(b[at], b[b.len() - 1]));
                if back < a.len() - 1 {
                    assert(lex_lt(a[back], a[a.len() - 1]));
                }
            }
        }
        let a0 = a.drop_last();
        let b0 = b.drop_last();
        assert forall|name: Seq<char>| a0.contains(name) <==> b0.contains(name) by {
            if a0.contains(name) {
                let k = choose|k: int| 0 <= k < a0.len() && a0[k] == name;
                assert(a[k] == name);
                assert(lex_lt(a[k], a[a.len() - 1]));
                assert(a.contains(name));
                let m = choose|m: int| 0 <= m < b.len() && b[m] == name;
                assert(b0[m] == name);
            }
            if b0.contains(name) {
                let k = choose|k: int| 0 <= k < b0.len() && b0[k] == name;
                assert(b[k] == name);
                assert(lex_lt(b[k], b[b.len() - 1]));
                assert(b.contains(name));
                let m = choose|m: int| 0 <= m < a.len() && a[m] == name;
                assert(a0[m] == name);
            }
        }
        lemma_sorted_unique(a0, b0);
        assert(a =~= a0.push(top));
        assert(b =~= b0.push(top));
    }
}

/// The list of rooms is determined: two lists of the rooms that exist, each
/// in lexicographic order, are the same list.
pub proof fn lemma_room_listing_unique<C>(
    state: BrokerView<C>,
    a: Seq<Seq<char>>,
    b: Seq<Seq<char>>,
)
    requires
        state.room_listing(a),
        state.room_listing(b),
    ensures
        a == b,
{
    assert forall|name: Seq<char>| a.contains(name) <==> b.contains(name) by {
        assert(a.contains(name) <==> state.rooms().contains(name));
        assert(b.contains(name) <==> state.rooms().contains(name));
    }
    lemma_sorted_unique(a, b);
}

/// The farewells among no, one and two actions.
proof fn lemma_farewells_few(a: ActionView, b: ActionView)
    ensures
        farewells(Seq::empty()) == 0,
        farewells(seq![a]) == if is_farewell(a) { 1nat } else { 0nat },
        farewells(seq![a, b]) == (if is_farewell(a) { 1nat } else { 0nat }) + (if is_farewell(b) {
            1nat
        } else {
            0nat
        }),
{
    assert(seq![a].drop_last() =~= Seq::empty());
    assert(seq![a, b].drop_last() =~= seq![a]);
    reveal_with_fuel(farewells, 3);
}

/// A session takes leave of the broker in the step in which it stops being
/// active, and in no other; and a session that is ending stays so.
pub proof fn lemma_step_farewell(state: SessionState, input: Input)
    ensures
        farewells(state.emits(input)) == if state.phase is Active && state.step(input).ending() {
            1nat
        } else {
            0nat
        },
        state.phase is Active ==> state.step(input).phase is Active || state.step(input).ending(),
        state.ending() ==> state.step(input).ending(),
{
    let beat = state.beat();
    let bye = state.farewell();
    let out = state.emits(input);
    lemma_farewells_few(beat, beat);
    lemma_farewells_few(bye, ActionView::Close);
    lemma_farewells_few(ActionView::Close, ActionView::Close);
    lemma_farewells_few(ActionView::Ping, ActionView::Ping);
    if out.len() == 2 {
        lemma_farewells_few(out[0], out[1]);
        assert(out =~= seq![out[0], out[1]]);
    }
}

/// However its life goes, a session takes leave of the broker at most once:
/// an active session exactly once by the time it is ending, and a session
/// that is ending never again.
pub proof fn lemma_one_farewell(state: SessionState, inputs: Seq<Input>)
    ensures
        state.farewells_in_run(inputs) <= 1,
        state.ending() ==> state.farewells_in_run(inputs) == 0 && state.run(inputs).ending(),
        state.phase is Active ==> state.farewells_in_run(inputs) == if state.run(
            inputs,
        ).ending() {
            1nat
        } else {
            0nat
        },
    decreases inputs.len(),
{
    if inputs.len() > 0 {
        lemma_step_farewell(state, inputs[0]);
        lemma_one_farewell(state.step(inputs[0]), inputs.drop_first());
    }
}

/// A client that has been silent for longer than the timeout is given up at
/// the next tick of the ping timer: the session takes leave of the broker
/// and has the connection closed.
pub proof fn lemma_silence_ends_session(state: SessionState, now: nat)
    requires
        state.phase is Active,
        now - state.last_heartbeat > state.timeout,
    ensures
        state.after_tick(now).phase is Closing,
        state.tick_actions(now) == seq![state.farewell(), ActionView::Close],
{
}

} // verus!
