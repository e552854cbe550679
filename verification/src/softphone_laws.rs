//! What holds of a softphone as a whole.

use vstd::prelude::*;

use crate::client_laws::law_quiet_until_timeout;
use crate::client_model::{CallState, ClientModel, EventModel};
use crate::softphone_model::{calls_upto, with_index, PhoneModel};
use crate::table::lemma_ids_below;
use crate::time::Instant;

verus! {

/// One call at a time has the audio: a call that becomes active is connected if
/// it was on hold, the connected call that was active before is on hold, and
/// the audio of the one is not played as that of the other. The depth of the
/// buffer that was learnt stays.
pub proof fn law_switching_holds_the_other(m: PhoneModel, idx: usize, call: u16, now: Instant)
    requires
        m.wf(),
        idx < m.clients.len(),
    ensures
        ({
            let after = m.make_active(idx, call, now);
            &&& after.active == Some((idx, call))
            &&& m.state_of(idx, call) == Some(CallState::Held) ==> after.state_of(idx, call)
                == Some(CallState::Up)
            &&& m.active != Some((idx, call)) && m.active_up() ==> after.state_of(
                (m.active->0).0,
                (m.active->0).1,
            ) == Some(CallState::Held)
            &&& m.active != Some((idx, call)) ==> after.jb == m.jb.cleared()
                && after.last_pcm.len() == 0
            &&& after.jb.target_ms == m.jb.target_ms
        }),
{
    let a = m.previous_held(idx, call, now);
    let b = a.taken_up(idx, call, now);
    assert(a.state_of(idx, call) == m.state_of(idx, call));
    if m.displaced(idx, call) is Some {
        let (p, pcall) = m.displaced(idx, call)->0;
        assert(a.state_of(p, pcall) == Some(CallState::Held));
        assert(b.state_of(p, pcall) == Some(CallState::Held));
    }
}

/// Audio of a call that is not the active one is dropped.
pub proof fn law_only_active_audio(
    m: PhoneModel,
    idx: usize,
    call: u16,
    ts: u32,
    ulaw: Seq<u8>,
    now: Instant,
)
    requires
        m.active != Some((idx, call)),
    ensures
        m.on_event(idx, EventModel::Voice { call, ts, ulaw }, now) == m,
{
    reveal(PhoneModel::on_event);
}

/// The end of the active call leaves no call active and no audio behind.
pub proof fn law_ended_call_is_not_active(
    m: PhoneModel,
    idx: usize,
    call: u16,
    reason: Seq<char>,
    now: Instant,
)
    ensures
        ({
            let after = m.on_event(idx, EventModel::Ended { call, reason }, now);
            &&& after.active != Some((idx, call))
            &&& m.active == Some((idx, call)) ==> after.active is None && after.jb.frames.dom().len()
                == 0 && after.last_pcm.len() == 0
            &&& m.active != Some((idx, call)) ==> after.active == m.active && after.jb == m.jb
        }),
{
    reveal(PhoneModel::on_event);
}

/// The microphone is heard by the active call alone, and only while it is
/// connected.
pub proof fn law_microphone_goes_to_active(
    m: PhoneModel,
    frames: Seq<Seq<i16>>,
    now: Instant,
    other: int,
)
    requires
        m.wf(),
        0 <= other < m.clients.len(),
        !m.active_up() || (m.active->0).0 != other,
    ensures
        m.on_mic(frames, now).clients[other] == m.clients[other],
        !m.active_up() ==> m.on_mic(frames, now) == m,
{
}

// --- exchanges do not disturb each other --------------------------------------

/// The active call, if there is one, is not on this exchange.
pub open spec fn active_elsewhere(m: PhoneModel, j: int) -> bool {
    m.active is None || (m.active->0).0 != j
}

#[verifier::rlimit(40)]
proof fn lemma_event_elsewhere(m: PhoneModel, idx: usize, ev: EventModel, now: Instant, j: int)
    requires
        idx < m.clients.len(),
        m.active is Some ==> (m.active->0).0 < m.clients.len(),
        0 <= j < m.clients.len(),
        j != idx,
        active_elsewhere(m, j),
    ensures
        ({
            let after = m.on_event(idx, ev, now);
            &&& after.clients.len() == m.clients.len()
            &&& after.clients[j] == m.clients[j]
            &&& active_elsewhere(after, j)
            &&& after.active is Some ==> (after.active->0).0 < m.clients.len()
        }),
{
    reveal(PhoneModel::on_event);
}

proof fn lemma_events_elsewhere(
    m: PhoneModel,
    idx: usize,
    evs: Seq<EventModel>,
    now: Instant,
    j: int,
)
    requires
        idx < m.clients.len(),
        m.active is Some ==> (m.active->0).0 < m.clients.len(),
        0 <= j < m.clients.len(),
        j != idx,
        active_elsewhere(m, j),
    ensures
        ({
            let after = m.on_events(idx, evs, now);
            &&& after.clients.len() == m.clients.len()
            &&& after.clients[j] == m.clients[j]
            &&& active_elsewhere(after, j)
            &&& after.active is Some ==> (after.active->0).0 < m.clients.len()
        }),
    decreases evs.len(),
{
    if evs.len() > 0 {
        lemma_events_elsewhere(m, idx, evs.drop_last(), now, j);
        lemma_event_elsewhere(m.on_events(idx, evs.drop_last(), now), idx, evs.last(), now, j);
    }
}

/// A datagram from one exchange changes nothing on another, unless the active
/// call is there and another takes its place.
pub proof fn law_exchanges_stand_apart(
    m: PhoneModel,
    idx: usize,
    dg: Seq<u8>,
    now: Instant,
    j: int,
)
    requires
        m.wf(),
        idx < m.clients.len(),
        0 <= j < m.clients.len(),
        j != idx,
        active_elsewhere(m, j),
    ensures
        m.on_datagram(idx, dg, now).clients[j] == m.clients[j],
        active_elsewhere(m.on_datagram(idx, dg, now), j),
{
    reveal(PhoneModel::settled);
    let a = m.with_client(idx, m.clients[idx as int].on_datagram(dg, now));
    let b = a.flushed(idx);
    let c = b.clients[idx as int];
    let d = b.with_client(idx, ClientModel { events: Seq::empty(), ..c });
    lemma_events_elsewhere(d, idx, c.events, now, j);
}

// --- time ---------------------------------------------------------------------

proof fn lemma_settled_quiet(m: PhoneModel, idx: usize, now: Instant)
    requires
        idx < m.clients.len(),
        m.clients[idx as int].out.len() == 0,
        m.clients[idx as int].events.len() == 0,
    ensures
        m.settled(idx, now) == m,
{
    reveal(PhoneModel::settled);
    let c = m.clients[idx as int];
    assert(c.out =~= Seq::empty());
    assert(c.events =~= Seq::empty());
    assert(m.flushed(idx) =~= m);
    assert(m.with_client(idx, ClientModel { events: Seq::empty(), ..c }) =~= m);
}

proof fn lemma_quiet_upto(m: PhoneModel, t: Instant, now: Instant, n: nat)
    requires
        n <= m.clients.len() <= usize::MAX,
        m.quiet_before(t),
        now.nanos < t.nanos,
        forall|i: int|
            0 <= i < m.clients.len() ==> (#[trigger] m.clients[i]).out.len() == 0
                && m.clients[i].events.len() == 0,
    ensures
        m.on_timeout_upto(n, now) == m,
    decreases n,
{
    if n > 0 {
        lemma_quiet_upto(m, t, now, (n - 1) as nat);
        let c = m.clients[n - 1];
        law_quiet_until_timeout(c, t, now);
        assert(m.with_client((n - 1) as usize, c) =~= m);
        lemma_settled_quiet(m, (n - 1) as usize, now);
    }
}

/// The driver may sleep until [`crate::softphone::Phone::next_wake`]: before
/// that, nothing would happen.
pub proof fn law_quiet_until_wake(m: PhoneModel, t: Instant, now: Instant)
    requires
        m.wf(),
        m.quiet_before(t),
        now.nanos < t.nanos,
        forall|i: int|
            0 <= i < m.clients.len() ==> (#[trigger] m.clients[i]).out.len() == 0
                && m.clients[i].events.len() == 0,
    ensures
        m.on_timeout(now) == m,
{
    lemma_quiet_upto(m, t, now, m.clients.len());
}

// --- the list -----------------------------------------------------------------

proof fn lemma_calls_upto(clients: Seq<ClientModel>, n: nat, idx: usize, call: u16)
    requires
        n <= clients.len() <= usize::MAX,
    ensures
        calls_upto(clients, n).contains((idx, call)) <==> idx < n
            && clients[idx as int].calls.contains_key(call),
    decreases n,
{
    if n > 0 {
        lemma_calls_upto(clients, (n - 1) as nat, idx, call);
        let before = calls_upto(clients, (n - 1) as nat);
        let ids = clients[n - 1].call_ids();
        let mine = with_index((n - 1) as usize, ids);
        lemma_ids_below(clients[n - 1].calls, 0x1_0000);
        let all = before + mine;
        if all.contains((idx, call)) {
            let i = choose|i: int| 0 <= i < all.len() && all[i] == (idx, call);
            if i < before.len() {
                assert(before[i] == (idx, call));
                assert(before.contains((idx, call)));
            } else {
                assert(mine[i - before.len()] == (idx, call));
                assert(ids[i - before.len()] == call);
                assert(ids.contains(call));
            }
        }
        if before.contains((idx, call)) {
            let i = choose|i: int| 0 <= i < before.len() && before[i] == (idx, call);
            assert(all[i] == (idx, call));
        }
        if idx == n - 1 && clients[n - 1].calls.contains_key(call) {
            assert(ids.contains(call));
            let i = choose|i: int| 0 <= i < ids.len() && ids[i] == call;
            assert(all[before.len() + i] == (idx, call));
        }
    } else {
        assert(!calls_upto(clients, 0).contains((idx, call)));
    }
}

/// The list holds the live calls, and nothing else.
pub proof fn law_list_is_complete(m: PhoneModel, idx: usize, call: u16)
    requires
        m.wf(),
    ensures
        m.calls_index().contains((idx, call)) <==> idx < m.clients.len() && m.state_of(
            idx,
            call,
        ) is Some,
{
    lemma_calls_upto(m.clients, m.clients.len(), idx, call);
}

/// The first of two calls comes earlier in the list.
pub open spec fn listed_before(a: (usize, u16), b: (usize, u16)) -> bool {
    a.0 < b.0 || a.0 == b.0 && a.1 < b.1
}

proof fn lemma_list_order(clients: Seq<ClientModel>, n: nat)
    requires
        n <= clients.len() <= usize::MAX,
    ensures
        forall|i: int|
            0 <= i < calls_upto(clients, n).len() ==> (#[trigger] calls_upto(clients, n)[i]).0 < n,
        forall|i: int, j: int|
            0 <= i < j < calls_upto(clients, n).len() ==> listed_before(
                #[trigger] calls_upto(clients, n)[i],
                #[trigger] calls_upto(clients, n)[j],
            ),
    decreases n,
{
    if n > 0 {
        lemma_list_order(clients, (n - 1) as nat);
        lemma_ids_below(clients[n - 1].calls, 0x1_0000);
        let before = calls_upto(clients, (n - 1) as nat);
        let mine = with_index((n - 1) as usize, clients[n - 1].call_ids());
        let all = calls_upto(clients, n);
        assert(all == before + mine);
        assert forall|i: int| 0 <= i < all.len() implies (#[trigger] all[i]).0 < n by {
            if i < before.len() {
                assert(all[i] == before[i]);
            } else {
                assert(all[i] == mine[i - before.len()]);
            }
        }
        assert forall|i: int, j: int| 0 <= i < j < all.len() implies listed_before(
            #[trigger] all[i],
            #[trigger] all[j],
        ) by {
            if j < before.len() {
                assert(all[i] == before[i] && all[j] == before[j]);
            } else if i < before.len() {
                assert(all[i] == before[i] && all[j] == mine[j - before.len()]);
            } else {
                assert(all[i] == mine[i - before.len()] && all[j] == mine[j - before.len()]);
            }
        }
    }
}

/// The list goes by exchange, and by call number within one; no call is in it
/// twice.
pub proof fn law_list_is_in_order(m: PhoneModel, i: int, j: int)
    requires
        m.wf(),
        0 <= i < j < m.calls_index().len(),
    ensures
        ({
            let (e, a) = m.calls_index()[i];
            let (f, b) = m.calls_index()[j];
            e < f || e == f && a < b
        }),
{
    lemma_list_order(m.clients, m.clients.len());
}

proof fn lemma_first_ringing(m: PhoneModel, list: Seq<(usize, u16)>, i: int)
    requires
        0 <= i < list.len(),
        m.rings_inbound(list[i].0, list[i].1),
    ensures
        m.first_ringing(list) is Some,
        exists|j: int| 0 <= j <= i && #[trigger] list[j] == m.first_ringing(list)->0,
    decreases list.len(),
{
    if m.rings_inbound(list[0].0, list[0].1) {
        assert(list[0] == m.first_ringing(list)->0);
    } else {
        let rest = list.drop_first();
        assert(rest[i - 1] == list[i]);
        lemma_first_ringing(m, rest, i - 1);
        let j = choose|j: int| 0 <= j <= i - 1 && #[trigger] rest[j] == m.first_ringing(rest)->0;
        assert(list[j + 1] == m.first_ringing(list)->0);
    }
}

proof fn lemma_found_rings(m: PhoneModel, list: Seq<(usize, u16)>)
    requires
        m.first_ringing(list) is Some,
    ensures
        list.contains(m.first_ringing(list)->0),
        m.rings_inbound((m.first_ringing(list)->0).0, (m.first_ringing(list)->0).1),
    decreases list.len(),
{
    if list.len() > 0 {
        if m.rings_inbound(list[0].0, list[0].1) {
            assert(list[0] == m.first_ringing(list)->0);
        } else {
            let rest = list.drop_first();
            lemma_found_rings(m, rest);
            let j = choose|j: int| 0 <= j < rest.len() && rest[j] == m.first_ringing(rest)->0;
            assert(list[j + 1] == m.first_ringing(list)->0);
        }
    }
}

/// Whoever waits for an answer is found: if an inbound call rings, the one that
/// is found is an inbound call that rings, and none that rings comes before it
/// in the list. If none is found, no inbound call rings.
pub proof fn law_waiting_caller_is_found(m: PhoneModel, idx: usize, call: u16)
    requires
        m.wf(),
        idx < m.clients.len(),
    ensures
        m.rings_inbound(idx, call) ==> m.find_ringing() is Some && !listed_before(
            (idx, call),
            m.find_ringing()->0,
        ),
        m.find_ringing() is Some ==> (m.find_ringing()->0).0 < m.clients.len()
            && m.rings_inbound((m.find_ringing()->0).0, (m.find_ringing()->0).1),
{
    let list = m.calls_index();
    lemma_list_order(m.clients, m.clients.len());
    if m.rings_inbound(idx, call) {
        lemma_calls_upto(m.clients, m.clients.len(), idx, call);
        let i = choose|i: int| 0 <= i < list.len() && list[i] == (idx, call);
        lemma_first_ringing(m, list, i);
        let j = choose|j: int| 0 <= j <= i && #[trigger] list[j] == m.first_ringing(list)->0;
        if j < i {
            assert(listed_before(list[j], list[i]));
        }
    }
    if m.find_ringing() is Some {
        lemma_found_rings(m, list);
        let k = choose|k: int| 0 <= k < list.len() && list[k] == m.first_ringing(list)->0;
        assert(list[k].0 < m.clients.len());
    }
}

} // verus!
