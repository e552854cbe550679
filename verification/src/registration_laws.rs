//! What an account says to its exchange and hears from it: the registration, its
//! renewal, the keepalives, the qualifies, and all that the passing of time
//! sends.

use vstd::prelude::*;
use vstd::utf8::*;

use crate::call_laws::{
    holds_u16, law_offer_is_read, law_token_is_read, md5_offered, no_token, says, sends,
};
use crate::client_laws::{
    law_lost_call_ends, lemma_quiet_window, lemma_retransmit_calls_keeps, timers_of_registration,
};
use crate::client_model::{CallModel, ClientModel, EventModel, RegState};
use crate::frame::{full_frame, law_command_roundtrip, FrameModel};
use crate::frame_laws::{lacks, law_search_finds_the_first, leads, lemma_leader_is_found};
use crate::ie::{all_fit, IeModel};
use crate::leg::{resends, some_hopeless, LegModel};
use crate::leg_laws::{keeps, law_leg_speaks, law_reliable_frame_is_kept, speaks};
use crate::time::Instant;

verus! {

/// A new account is idle, wants to register at once, has no calls, nothing to
/// send and nothing to tell, and will hold its way open in 15 s.
pub proof fn law_new_account(cfg: crate::client_model::ConfigModel, now: Instant)
    requires
        now.in_range(),
    ensures
        ({
            let m = ClientModel::new(cfg, now);
            &&& m.cfg == cfg && m.refresh == cfg.refresh && m.start == now && m.next_reg == now
            &&& m.reg == LegModel::new(1)
            &&& m.reg_state == RegState::Idle && m.calltoken is None
            &&& m.next_keepalive.nanos == now.nanos + 15_000_000_000
            &&& m.calls.dom().len() == 0 && m.remote_index.dom().len() == 0
            &&& m.callno_next == 16 && m.qualify_next == 0x2000
            &&& m.out.len() == 0 && m.events.len() == 0
        }),
{
}

// --- requests -----------------------------------------------------------------

/// The elements of a registration request: who, for how long, and the token, if
/// there is one yet.
pub open spec fn asks_to_register(
    ies: Seq<IeModel>,
    username: Seq<char>,
    refresh: u16,
    token: Seq<u8>,
) -> bool {
    &&& says(ies, 6, username)
    &&& holds_u16(ies, 19, refresh)
    &&& leads(ies, IeModel { kind: 54, data: token })
}

/// The token, or no octets.
pub open spec fn token_octets(token: Option<Seq<u8>>) -> Seq<u8> {
    match token {
        Some(t) => t,
        None => Seq::empty(),
    }
}

proof fn lemma_leads_at(ies: Seq<IeModel>, i: int)
    requires
        0 <= i < ies.len(),
        forall|j: int| 0 <= j < i ==> (#[trigger] ies[j]).kind != ies[i].kind,
    ensures
        leads(ies, ies[i]),
{
}

proof fn lemma_reg_ies(m: ClientModel)
    requires
        encode_utf8(m.cfg.username).len() <= 255,
        token_octets(m.calltoken).len() <= 255,
    ensures
        asks_to_register(m.reg_ies(), m.cfg.username, m.refresh, token_octets(m.calltoken)),
        m.reg_ies().len() == 3,
        all_fit(m.reg_ies()),
{
    let ies = m.reg_ies();
    lemma_leads_at(ies, 0);
    lemma_leads_at(ies, 1);
    lemma_leads_at(ies, 2);
    assert(leads(ies, ies[1]));
    assert forall|i: int| 0 <= i < ies.len() implies (#[trigger] ies[i]).fits() by {}
}

/// A registration that is due starts with a request of a fresh leg that names
/// the account and how long it wants to be registered, with an empty token; it
/// is kept, the next one waits at least 10 s, and the driver is told.
pub proof fn law_registration_is_asked_for(m: ClientModel, now: Instant)
    requires
        m.wf(),
        now.in_range(),
        m.reg.outstanding.len() == 0,
        now.nanos >= m.next_reg.nanos,
        encode_utf8(m.cfg.username).len() <= 255,
    ensures
        ({
            let after = m.on_timeout(now);
            let dg = after.out[m.out.len() as int];
            let f = FrameModel::parse(dg);
            &&& f is Some
            &&& speaks(dg, LegModel::new(1), m.ts(now), 6, 13, f->0.ies)
            &&& f->0.ies.len() == 3
            &&& asks_to_register(f->0.ies, m.cfg.username, m.refresh, Seq::empty())
            &&& keeps(LegModel::new(1), after.reg, dg, m.ts(now), now)
            &&& after.reg_state == RegState::Registering
            &&& after.calltoken is None
            &&& after.next_reg.nanos == now.nanos + 10_000_000_000
            &&& after.next_keepalive == m.next_keepalive
            &&& after.refresh == m.refresh
            &&& after.events.len() > m.events.len()
            &&& after.events[m.events.len() as int] == EventModel::Log("REGREQ sended"@)
        }),
{
    let fresh = ClientModel {
        reg: LegModel::new(m.reg.local),
        calltoken: None,
        reg_state: RegState::Registering,
        ..m
    };
    let ies = fresh.reg_ies();
    lemma_reg_ies(fresh);
    law_leg_speaks(LegModel::new(1), m.ts(now), 6, 13, ies);
    law_reliable_frame_is_kept(LegModel::new(1), m.ts(now), 6, 13, ies, now);
    let s = m.start_registration(now);
    lemma_quiet_window(s.reg.outstanding, now);
    assert(s.reg.checked_at(now) =~= s.reg);
    assert(s.out + Seq::<Seq<u8>>::empty() =~= s.out);
    assert(s.retransmit_reg(now) =~= s);
    lemma_retransmit_calls_keeps(s, now);
    lemma_events_grow(s, now);
    let after = m.on_timeout(now);
    assert(after == s.retransmit_calls(now));
    let n = m.events.len() as int;
    assert(after.events.take(s.events.len() as int)[n] == s.events[n]);
    assert(after.events[n] == s.events[n]);
    assert(after.out[m.out.len() as int] == s.out.last());
}

/// The windows of the calls tell the driver of the calls that end, behind what
/// was told before.
proof fn lemma_events_grow(m: ClientModel, now: Instant)
    ensures
        ({
            let after = m.retransmit_calls(now);
            &&& after.events.len() >= m.events.len()
            &&& after.events.take(m.events.len() as int) == m.events
            &&& forall|i: int|
                m.events.len() <= i < after.events.len() ==> (#[trigger] after.events[i]) is Ended
                    && after.events[i]->Ended_reason == "reliability timeout"@
            &&& after.calltoken == m.calltoken && after.refresh == m.refresh
            &&& after.cfg == m.cfg && after.start == m.start
            &&& after.callno_next == m.callno_next
        }),
{
    let ids = m.call_ids();
    let checked = ClientModel {
        calls: m.calls.map_values(|c: CallModel| CallModel { leg: c.leg.checked_at(now), ..c }),
        out: m.out + m.calls_resends(ids, now),
        ..m
    };
    lemma_drops_grow(
        checked,
        ids.filter(|k: u16| m.call_hopeless(k, now)),
        "reliability timeout"@,
    );
}

proof fn lemma_drops_grow(m: ClientModel, ids: Seq<u16>, reason: Seq<char>)
    ensures
        ({
            let after = m.drop_calls(ids, reason);
            &&& after.events.len() >= m.events.len()
            &&& after.events.take(m.events.len() as int) == m.events
            &&& forall|i: int|
                m.events.len() <= i < after.events.len() ==> (#[trigger] after.events[i]) is Ended
                    && after.events[i]->Ended_reason == reason
            &&& after.calltoken == m.calltoken && after.refresh == m.refresh
            &&& after.cfg == m.cfg && after.start == m.start
            &&& after.callno_next == m.callno_next
        }),
    decreases ids.len(),
{
    if ids.len() > 0 {
        lemma_drops_grow(m, ids.drop_last(), reason);
        let b = m.drop_calls(ids.drop_last(), reason);
        let after = m.drop_calls(ids, reason);
        assert(after.events.take(m.events.len() as int) =~= b.events.take(m.events.len() as int));
    } else {
        assert(m.events.take(m.events.len() as int) =~= m.events);
    }
}

// --- what the passing of time does ---------------------------------------------

/// A keepalive: a `POKE` from number 2 to nobody in particular.
pub open spec fn is_keepalive(dg: Seq<u8>, ts: u32) -> bool {
    FrameModel::parse(dg) == Some(
        FrameModel {
            src_call: 2,
            dst_call: 0,
            retransmit: false,
            timestamp: ts,
            oseq: 0,
            iseq: 0,
            frametype: 6,
            subclass: 30,
            ies: Seq::empty(),
            media_payload: Seq::empty(),
        },
    )
}

/// All that a look at the clock sends, in this order: the registration request,
/// if one is due and nothing is in flight; or else the keepalive, if the account
/// is registered and one is due, which puts the next one off by 15 s; what is
/// due of the registration; and what is due of the calls.
pub proof fn law_what_a_look_at_the_clock_sends(m: ClientModel, now: Instant)
    requires
        m.wf(),
        now.in_range(),
    ensures
        ({
            let after = m.on_timeout(now);
            let starts = m.reg.outstanding.len() == 0 && now.nanos >= m.next_reg.nanos;
            let pokes = !starts && m.reg_state == RegState::Registered && now.nanos
                >= m.next_keepalive.nanos;
            let first = after.out[m.out.len() as int];
            let rest = resends(m.reg.outstanding, now) + m.calls_resends(m.call_ids(), now);
            &&& !starts && !pokes ==> after.out == m.out + rest
            &&& starts || pokes ==> after.out == m.out.push(first) + rest
            &&& pokes ==> is_keepalive(first, m.ts(now))
            &&& pokes ==> after.next_keepalive.nanos == now.nanos + 15_000_000_000
            &&& !pokes ==> after.next_keepalive == m.next_keepalive
        }),
{
    let c = timers_of_registration(m, now);
    let after = m.on_timeout(now);
    assert(after == c.retransmit_calls(now));
    lemma_retransmit_calls_keeps(c, now);
    assert(c.calls == m.calls);
    assert(c.call_ids() == m.call_ids());
    lemma_resends_of_calls(c, m, m.call_ids(), now);
    let starts = m.reg.outstanding.len() == 0 && now.nanos >= m.next_reg.nanos;
    let pokes = !starts && m.reg_state == RegState::Registered && now.nanos
        >= m.next_keepalive.nanos;
    let tail = m.calls_resends(m.call_ids(), now);
    let again = resends(m.reg.outstanding, now);
    if starts {
        let s = m.start_registration(now);
        lemma_quiet_window(s.reg.outstanding, now);
        assert(again =~= Seq::<Seq<u8>>::empty());
        assert(s.out + resends(s.reg.outstanding, now) =~= s.out);
        assert(c.out == s.out);
        assert(after.out =~= m.out.push(s.out.last()) + (again + tail));
        assert(after.out[m.out.len() as int] == s.out.last());
    } else if pokes {
        let poke = FrameModel::new(2, 0, m.ts(now), 0, 0, 6, 30, Seq::empty());
        law_command_roundtrip(poke);
        assert(poke.narrowed() =~= poke);
        assert(c.out == m.out.push(poke.wire()) + again);
        assert(after.out =~= m.out.push(poke.wire()) + (again + tail));
        assert(after.out[m.out.len() as int] == poke.wire());
    } else {
        assert(after.out =~= m.out + (again + tail));
    }
}

proof fn lemma_resends_of_calls(a: ClientModel, b: ClientModel, ids: Seq<u16>, now: Instant)
    requires
        a.calls == b.calls,
    ensures
        a.calls_resends(ids, now) == b.calls_resends(ids, now),
    decreases ids.len(),
{
    if ids.len() > 0 {
        lemma_resends_of_calls(a, b, ids.drop_last(), now);
    }
}

/// What is due of the calls is what is due of each, one call after the other in
/// the order of their numbers; and every call is asked.
pub proof fn law_every_call_is_asked(m: ClientModel, ids: Seq<u16>, k: u16, now: Instant)
    ensures
        m.calls_resends(Seq::empty(), now).len() == 0,
        m.calls_resends(ids.push(k), now) == m.calls_resends(ids, now) + resends(
            m.calls[k].leg.outstanding,
            now,
        ),
        m.call_ids().contains(k) <==> m.calls.contains_key(k),
        forall|i: int, j: int|
            0 <= i < j < m.call_ids().len() ==> m.call_ids()[i] < m.call_ids()[j],
{
    assert(ids.push(k).drop_last() =~= ids);
    crate::table::lemma_ids_below(m.calls, 0x1_0000);
}

/// What becomes of the registration when nothing starts: its window is checked;
/// and if it is given up, nothing is in flight any more, the account is idle,
/// tries again in 5 s, and the driver is told.
pub proof fn law_registration_after_a_look_at_the_clock(m: ClientModel, now: Instant)
    requires
        m.wf(),
        now.in_range(),
        m.reg.outstanding.len() > 0 || now.nanos < m.next_reg.nanos,
    ensures
        ({
            let after = m.on_timeout(now);
            let lost = some_hopeless(m.reg.outstanding, now);
            &&& !lost ==> after.reg == m.reg.checked_at(now) && after.reg_state == m.reg_state
                && after.next_reg == m.next_reg && (after.events.len() > m.events.len()
                ==> after.events[m.events.len() as int] is Ended)
            &&& lost ==> after.reg == (LegModel { outstanding: Seq::empty(), ..m.reg })
                && after.reg_state == RegState::Idle && after.next_reg.nanos == now.nanos
                + 5_000_000_000 && after.events.len() > m.events.len() && after.events[
            m.events.len() as int] == (EventModel::RegisterLost {
                reason: "no ACK after retransmissions"@,
            })
            &&& after.events.take(m.events.len() as int) == m.events
            &&& after.calltoken == m.calltoken && after.refresh == m.refresh
            &&& after.cfg == m.cfg && after.start == m.start
            &&& after.remote_index.dom().subset_of(m.remote_index.dom())
        }),
{
    let c = timers_of_registration(m, now);
    let after = m.on_timeout(now);
    assert(after == c.retransmit_calls(now));
    lemma_retransmit_calls_keeps(c, now);
    lemma_events_grow(c, now);
    assert(after.events.take(m.events.len() as int) =~= c.events.take(m.events.len() as int));
    assert(c.events.take(m.events.len() as int) =~= m.events);
    assert(c.events == after.events.take(c.events.len() as int));
    if some_hopeless(m.reg.outstanding, now) {
        assert(c.reg =~= (LegModel { outstanding: Seq::empty(), ..m.reg }));
        assert(after.events[m.events.len() as int] == c.events[m.events.len() as int]);
    }
    lemma_index_shrinks(c, now);
}

proof fn lemma_index_shrinks(m: ClientModel, now: Instant)
    ensures
        m.retransmit_calls(now).remote_index.dom().subset_of(m.remote_index.dom()),
{
    let ids = m.call_ids();
    let checked = ClientModel {
        calls: m.calls.map_values(|c: CallModel| CallModel { leg: c.leg.checked_at(now), ..c }),
        out: m.out + m.calls_resends(ids, now),
        ..m
    };
    lemma_drops_shrink(
        checked,
        ids.filter(|k: u16| m.call_hopeless(k, now)),
        "reliability timeout"@,
    );
}

proof fn lemma_drops_shrink(m: ClientModel, ids: Seq<u16>, reason: Seq<char>)
    ensures
        m.drop_calls(ids, reason).remote_index.dom().subset_of(m.remote_index.dom()),
    decreases ids.len(),
{
    if ids.len() > 0 {
        lemma_drops_shrink(m, ids.drop_last(), reason);
    }
}

/// A call is given up exactly if one of its frames was sent again five times and
/// has waited in vain once more; then it ends, and the driver is told. Any other
/// call stays, with its window checked and nothing else changed.
pub proof fn law_calls_after_a_look_at_the_clock(m: ClientModel, now: Instant, k: u16)
    requires
        m.wf(),
        m.calls.contains_key(k),
    ensures
        ({
            let after = m.on_timeout(now);
            let lost = exists|i: int|
                0 <= i < m.calls[k].leg.outstanding.len() && (
                #[trigger] m.calls[k].leg.outstanding[i]).deadline.nanos <= now.nanos
                    && m.calls[k].leg.outstanding[i].tries >= 5;
            &&& lost ==> !after.calls.contains_key(k) && after.events.contains(
                EventModel::Ended { call: k, reason: "reliability timeout"@ },
            )
            &&& !lost ==> after.calls.contains_key(k) && after.calls[k] == (CallModel {
                leg: m.calls[k].leg.checked_at(now),
                ..m.calls[k]
            })
        }),
{
    law_lost_call_ends(m, now, k);
    let w = m.calls[k].leg.outstanding;
    if exists|i: int|
        0 <= i < w.len() && (#[trigger] w[i]).deadline.nanos <= now.nanos && w[i].tries >= 5 {
        let i = choose|i: int|
            0 <= i < w.len() && (#[trigger] w[i]).deadline.nanos <= now.nanos && w[i].tries >= 5;
        assert(w[i].hopeless(now));
    }
    if some_hopeless(w, now) {
        let i = choose|i: int| 0 <= i < w.len() && (#[trigger] w[i]).hopeless(now);
        assert(w[i].deadline.nanos <= now.nanos && w[i].tries >= 5);
    }
}

// --- frames of the registration -------------------------------------------------

/// The datagram is a full frame of the registration, and not a request for a new
/// call nor a token that the registration waits for.
pub open spec fn reaches_registration(m: ClientModel, dg: Seq<u8>, f: FrameModel) -> bool {
    &&& full_frame(dg)
    &&& FrameModel::parse(dg) == Some(f)
    &&& f.dst_call == 1
    &&& !(f.frametype == 6 && f.subclass == 1)
    &&& no_token(f.ies) || m.calltoken is Some
}

proof fn lemma_reached(m: ClientModel, dg: Seq<u8>, f: FrameModel, now: Instant)
    requires
        m.wf(),
        reaches_registration(m, dg, f),
    ensures
        m.on_datagram(dg, now) == m.on_reg_frame(f, now),
{
    reveal(ClientModel::on_frame);
    law_token_is_read(f.ies, IeModel { kind: 54, data: Seq::empty() });
    assert(!m.calls.contains_key(1));
}

/// The registration is confirmed: whatever the refresh was, it is what the
/// exchange grants, if it grants more than nothing, and is left as it was
/// otherwise; the registration is renewed after four fifths of it, and the way
/// is held open in 15 s; the frame is acknowledged, and the driver is told.
pub proof fn law_granted_refresh_is_taken(
    m: ClientModel,
    dg: Seq<u8>,
    f: FrameModel,
    e: IeModel,
    now: Instant,
)
    requires
        m.wf(),
        now.in_range(),
        reaches_registration(m, dg, f),
        f.subclass == 15,
    ensures
        ({
            let after = m.on_datagram(dg, now);
            let granted = e.data[0] * 0x100 + e.data[1];
            let leg = m.reg.received(f);
            let read = leads(f.ies, e) && e.kind == 19 && e.data.len() == 2;
            &&& read && granted > 0 ==> after.refresh == granted && after.next_reg.nanos
                == now.nanos + granted * 4 / 5 * 1_000_000_000
            &&& read && granted == 0 || lacks(f.ies, 19) || leads(f.ies, e) && e.kind == 19
                && e.data.len() != 2 ==> after.refresh == m.refresh
            &&& after.next_reg.nanos == now.nanos + after.refresh * 4 / 5 * 1_000_000_000
            &&& after.next_keepalive.nanos == now.nanos + 15_000_000_000
            &&& after.reg_state == RegState::Registered
            &&& sends(m, after, after.out.last())
            &&& speaks(after.out.last(), leg, m.ts(now), 6, 4, Seq::empty())
            &&& after.events == m.events.push(EventModel::Registered)
            &&& after == (ClientModel {
                reg: leg,
                refresh: after.refresh,
                reg_state: after.reg_state,
                next_reg: after.next_reg,
                next_keepalive: after.next_keepalive,
                out: after.out,
                events: after.events,
                ..m
            })
        }),
{
    lemma_reached(m, dg, f, now);
    law_search_finds_the_first(f.ies, 19);
    if leads(f.ies, e) && e.kind == 19 {
        lemma_leader_is_found(f.ies, e);
    }
    law_leg_speaks(m.reg.received(f), m.ts(now), 6, 4, Seq::empty());
}

/// The registration is rejected: the account is idle, forgets its token and
/// tries again in 5 s; the frame is acknowledged, and the driver is told, with
/// the first octet of the cause code, if there is one.
pub proof fn law_rejection_is_told(
    m: ClientModel,
    dg: Seq<u8>,
    f: FrameModel,
    e: IeModel,
    now: Instant,
)
    requires
        m.wf(),
        now.in_range(),
        reaches_registration(m, dg, f),
        f.subclass == 16,
    ensures
        ({
            let after = m.on_datagram(dg, now);
            let leg = m.reg.received(f);
            &&& sends(m, after, after.out.last())
            &&& speaks(after.out.last(), leg, m.ts(now), 6, 4, Seq::empty())
            &&& after.next_reg.nanos == now.nanos + 5_000_000_000
            &&& after.events.len() == m.events.len() + 1
            &&& after.events.drop_last() == m.events
            &&& after.events.last() is RegisterLost
            &&& leads(f.ies, e) && e.kind == 42 && e.data.len() > 0
                ==> after.events.last()->RegisterLost_reason == "REGREJ causecode=Some("@
                + crate::text::decimal(e.data[0] as nat) + ")"@
            &&& lacks(f.ies, 42) || leads(f.ies, e) && e.kind == 42 && e.data.len() == 0
                ==> after.events.last()->RegisterLost_reason == "REGREJ causecode=None"@
            &&& after == (ClientModel {
                reg: leg,
                reg_state: RegState::Idle,
                calltoken: None,
                next_reg: after.next_reg,
                out: after.out,
                events: after.events,
                ..m
            })
        }),
{
    lemma_reached(m, dg, f, now);
    law_search_finds_the_first(f.ies, 42);
    if leads(f.ies, e) && e.kind == 42 {
        lemma_leader_is_found(f.ies, e);
    }
    law_leg_speaks(m.reg.received(f), m.ts(now), 6, 4, Seq::empty());
    let after = m.on_datagram(dg, now);
    assert(after.events.drop_last() =~= m.events);
    reveal_strlit("REGREJ causecode=");
    reveal_strlit("Some(");
    reveal_strlit("REGREJ causecode=Some(");
    reveal_strlit("None");
    reveal_strlit("REGREJ causecode=None");
    assert("REGREJ causecode="@ + "None"@ =~= "REGREJ causecode=None"@);
    if leads(f.ies, e) && e.kind == 42 && e.data.len() > 0 {
        let d = crate::text::decimal(e.data[0] as nat);
        assert("REGREJ causecode="@ + ("Some("@ + d + ")"@) =~= "REGREJ causecode=Some("@ + d
            + ")"@);
    }
}

/// The registration is challenged: it asks again, naming the account, the
/// refresh and the token as before, with the MD5 of the challenge and the
/// secret; the request is kept. Without an offer of MD5, or without a challenge,
/// nothing is sent, and this is logged.
pub proof fn law_registration_is_challenged(
    m: ClientModel,
    dg: Seq<u8>,
    f: FrameModel,
    c: IeModel,
    now: Instant,
)
    requires
        m.wf(),
        now.in_range(),
        reaches_registration(m, dg, f),
        f.subclass == 14,
        encode_utf8(m.cfg.username).len() <= 255,
        token_octets(m.calltoken).len() <= 255,
    ensures
        ({
            let after = m.on_datagram(dg, now);
            let leg = m.reg.received(f);
            let answer = crate::md5_answer(c.to_str(), m.cfg.secret);
            let g = FrameModel::parse(after.out.last());
            &&& md5_offered(f.ies) && leads(f.ies, c) && c.kind == 15 && encode_utf8(answer).len()
                <= 255 ==> {
                &&& sends(m, after, after.out.last())
                &&& g is Some
                &&& speaks(after.out.last(), leg, m.ts(now), 6, 13, g->0.ies)
                &&& g->0.ies.len() == 4
                &&& asks_to_register(
                    g->0.ies,
                    m.cfg.username,
                    m.refresh,
                    token_octets(m.calltoken),
                )
                &&& says(g->0.ies, 16, answer)
                &&& keeps(leg, after.reg, after.out.last(), m.ts(now), now)
                &&& after == (ClientModel { reg: after.reg, out: after.out, ..m })
            }
            &&& !md5_offered(f.ies) || lacks(f.ies, 15) ==> {
                &&& after.events.len() == m.events.len() + 1
                &&& after.events.drop_last() == m.events
                &&& after.events.last() is Log
                &&& after == (ClientModel { reg: leg, events: after.events, ..m })
            }
        }),
{
    lemma_reached(m, dg, f, now);
    law_offer_is_read(f.ies);
    law_search_finds_the_first(f.ies, 15);
    let leg = m.reg.received(f);
    let after = m.on_datagram(dg, now);
    let h = ClientModel { reg: leg, ..m };
    if leads(f.ies, c) && c.kind == 15 {
        lemma_leader_is_found(f.ies, c);
        let answer = crate::md5_answer(c.to_str(), m.cfg.secret);
        if md5_offered(f.ies) && encode_utf8(answer).len() <= 255 {
            lemma_reg_ies(h);
            let ies = h.reg_ies().insert(1, IeModel { kind: 16, data: encode_utf8(answer) });
            assert(ies[0] == h.reg_ies()[0] && ies[2] == h.reg_ies()[1] && ies[3]
                == h.reg_ies()[2]);
            assert(ies.len() == 4);
            lemma_leads_at(ies, 0);
            lemma_leads_at(ies, 1);
            lemma_leads_at(ies, 2);
            lemma_leads_at(ies, 3);
            assert(leads(ies, ies[2]));
            assert forall|i: int| 0 <= i < ies.len() implies (#[trigger] ies[i]).fits() by {
                assert(i == 0 || i == 1 || i == 2 || i == 3);
                assert(h.reg_ies()[0].fits() && h.reg_ies()[1].fits() && h.reg_ies()[2].fits());
            }
            law_leg_speaks(leg, m.ts(now), 6, 13, ies);
            law_reliable_frame_is_kept(leg, m.ts(now), 6, 13, ies, now);
            assert(after == h.send_reg(13, ies, now));
        }
    }
    assert(m.events.push(after.events.last()).drop_last() =~= m.events);
}

/// An `ACK` or a token that comes too late is only heard; anything else on the
/// registration is heard and logged.
pub proof fn law_other_frames_of_the_registration(
    m: ClientModel,
    dg: Seq<u8>,
    f: FrameModel,
    now: Instant,
)
    requires
        m.wf(),
        reaches_registration(m, dg, f),
        f.subclass != 14 && f.subclass != 15 && f.subclass != 16,
    ensures
        ({
            let after = m.on_datagram(dg, now);
            let h = ClientModel { reg: m.reg.received(f), ..m };
            &&& f.subclass == 4 || f.subclass == 40 ==> after == h
            &&& f.subclass != 4 && f.subclass != 40 ==> after.events.len() == m.events.len() + 1
                && after.events.drop_last() == m.events && after.events.last() is Log && after == (
            ClientModel { events: after.events, ..h })
        }),
{
    lemma_reached(m, dg, f, now);
    let after = m.on_datagram(dg, now);
    assert(m.events.push(after.events.last()).drop_last() =~= m.events);
}

/// A registration that gets its token asks again, unchanged but for the token: a
/// fresh leg, the same account and refresh; the token is remembered, and nothing
/// else changes.
pub proof fn law_token_for_the_registration(
    m: ClientModel,
    dg: Seq<u8>,
    f: FrameModel,
    token: Seq<u8>,
    now: Instant,
)
    requires
        m.wf(),
        now.in_range(),
        full_frame(dg),
        FrameModel::parse(dg) == Some(f),
        f.dst_call == 1,
        m.calltoken is None,
        leads(f.ies, IeModel { kind: 54, data: token }),
        0 < token.len() <= 255,
        encode_utf8(m.cfg.username).len() <= 255,
    ensures
        ({
            let after = m.on_datagram(dg, now);
            let g = FrameModel::parse(after.out.last());
            &&& sends(m, after, after.out.last())
            &&& g is Some
            &&& speaks(after.out.last(), LegModel::new(1), m.ts(now), 6, 13, g->0.ies)
            &&& g->0.ies.len() == 3
            &&& asks_to_register(g->0.ies, m.cfg.username, m.refresh, token)
            &&& keeps(LegModel::new(1), after.reg, after.out.last(), m.ts(now), now)
            &&& after == (ClientModel {
                reg: after.reg,
                calltoken: Some(token),
                out: after.out,
                ..m
            })
        }),
{
    reveal(ClientModel::on_frame);
    law_token_is_read(f.ies, IeModel { kind: 54, data: token });
    let fresh = ClientModel { calltoken: Some(token), reg: LegModel::new(1), ..m };
    lemma_reg_ies(fresh);
    law_leg_speaks(LegModel::new(1), m.ts(now), 6, 13, fresh.reg_ies());
    law_reliable_frame_is_kept(LegModel::new(1), m.ts(now), 6, 13, fresh.reg_ies(), now);
    assert(m.on_datagram(dg, now) == m.resend_reg_with_token(token, now));
}

/// A qualify is answered at once with a `PONG` from the number whose turn it is
/// to the number that asked: the same timestamp, and the sequence number after
/// the one that asked. Nothing else changes.
pub proof fn law_qualify_is_answered(m: ClientModel, dg: Seq<u8>, f: FrameModel, now: Instant)
    requires
        m.wf(),
        full_frame(dg),
        FrameModel::parse(dg) == Some(f),
        f.frametype == 6,
        f.subclass == 30 || f.subclass == 2,
        f.dst_call == 0,
    ensures
        ({
            let after = m.on_datagram(dg, now);
            &&& sends(m, after, after.out.last())
            &&& FrameModel::parse(after.out.last()) == Some(
                FrameModel {
                    src_call: m.qualify_next,
                    dst_call: f.src_call,
                    retransmit: false,
                    timestamp: f.timestamp,
                    oseq: 0,
                    iseq: ((f.oseq + 1) % 256) as u8,
                    frametype: 6,
                    subclass: 3,
                    ies: Seq::empty(),
                    media_payload: Seq::empty(),
                },
            )
            &&& after == (ClientModel {
                out: after.out,
                qualify_next: if m.qualify_next == 0x2FFF {
                    0x2000
                } else {
                    (m.qualify_next + 1) as u16
                },
                ..m
            })
        }),
{
    reveal(ClientModel::on_frame);
    crate::frame_laws::law_full_frame_is_read(dg);
    assert(f.src_call < 0x8000);
    law_command_roundtrip(m.pong(f));
    assert(m.pong(f).narrowed() =~= m.pong(f));
}

/// The instant at which the driver is to come back is that of the first timer:
/// the next registration, the next keepalive of an account that is registered,
/// or the end of the wait of a frame in flight; and none of them is earlier.
pub proof fn law_first_timer(m: ClientModel, t: Instant)
    requires
        m.has_timer(t),
        m.quiet_before(t),
    ensures
        t.nanos <= m.next_reg.nanos,
        m.reg_state == RegState::Registered ==> t.nanos <= m.next_keepalive.nanos,
        forall|i: int|
            0 <= i < m.reg.outstanding.len() ==> t.nanos <= (
            #[trigger] m.reg.outstanding[i]).deadline.nanos,
        forall|k: u16, i: int|
            m.calls.contains_key(k) && 0 <= i < m.calls[k].leg.outstanding.len() ==> t.nanos <= (
            #[trigger] m.calls[k].leg.outstanding[i]).deadline.nanos,
        t == m.next_reg || m.reg_state == RegState::Registered && t == m.next_keepalive || (
        exists|i: int|
            0 <= i < m.reg.outstanding.len() && (#[trigger] m.reg.outstanding[i]).deadline == t)
            || (exists|k: u16, i: int|
            m.calls.contains_key(k) && 0 <= i < m.calls[k].leg.outstanding.len() && (
            #[trigger] m.calls[k].leg.outstanding[i]).deadline == t),
{
}

/// The passing of time connects no call and brings none, no audio and no digit:
/// it tells only of requests, of a lost registration and of calls that end.
pub proof fn law_time_connects_nothing(m: ClientModel, now: Instant)
    ensures
        ({
            let after = m.on_timeout(now);
            &&& after.events.len() >= m.events.len()
            &&& after.events.take(m.events.len() as int) == m.events
            &&& forall|i: int|
                m.events.len() <= i < after.events.len() ==> (#[trigger] after.events[i]) is Log
                    || after.events[i] is RegisterLost || after.events[i] is Ended
        }),
{
    let c = timers_of_registration(m, now);
    let after = m.on_timeout(now);
    assert(after == c.retransmit_calls(now));
    lemma_events_grow(c, now);
    assert(after.events.take(c.events.len() as int) == c.events);
    assert forall|i: int| 0 <= i < c.events.len() implies after.events[i] == c.events[i] by {
        assert(after.events.take(c.events.len() as int)[i] == c.events[i]);
    }
    assert(after.events.take(m.events.len() as int) =~= m.events);
}

} // verus!
