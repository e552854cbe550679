//! What holds of the state machine as a whole.

use vstd::prelude::*;
use vstd::set_lib::{lemma_int_range, lemma_len_subset, lemma_map_size, set_int_range};
use vstd::utf8::*;

use crate::client::{commanded, Command};
use crate::client_model::{
    callno_after, callno_search, cause_code, dtmf_code, full_ts, is_iax, new_ies, offers_md5, qualify_after,
    text_of, token_of, ts_candidate, ts_gap, CallModel, CallState, ClientModel, ConfigModel, Dir,
    EventModel, RegState, CALLNO_CALL_BASE, CALLNO_CALL_LAST, CALLNO_COUNT, CALLNO_KEEPALIVE,
    CALLNO_QUALIFY_BASE, CALLNO_QUALIFY_LAST, CALLNO_REG, CALLNO_TRIES, KEEPALIVE_EVERY, REG_GUARD,
    REG_RETRY,
};
use crate::consts::{control, frametype, iax, ie as iet};
use crate::frame::{full_frame, FrameModel, MiniModel};
use crate::ie::{all_fit, first_of, IeModel};
use crate::leg::{
    lemma_kept_from, resends, some_hopeless, LegModel, OutstandingModel, RETX_AFTER,
};
use crate::table::lemma_ids_below;
use crate::text::debug_option;
use crate::time::Instant;

verus! {

// --- the invariant ----------------------------------------------------------

proof fn lemma_leg_sent_wf(leg: LegModel, ts: u32, ft: u8, sc: u8, ies: Seq<IeModel>, now: Instant)
    requires
        leg.wf(),
    ensures
        leg.sent(ts, ft, sc, ies, now).wf(),
        leg.sent(ts, ft, sc, ies, now).local == leg.local,
{
    assert(leg.frame(ts, ft, sc, ies).wire().len() >= 12);
}

proof fn lemma_leg_received_wf(leg: LegModel, f: FrameModel)
    requires
        leg.wf(),
    ensures
        leg.received(f).wf(),
        leg.received(f).local == leg.local,
{
    let is_ack = is_iax(f, iax::ACK);
    let after = leg.received(f).outstanding;
    assert forall|i: int| 0 <= i < after.len() implies (#[trigger] after[i]).wf() by {
        lemma_kept_from(
            leg.outstanding,
            |o: OutstandingModel| !o.acked(f.iseq, f.timestamp, is_ack),
            i,
        );
    }
}

proof fn lemma_with_leg_wf(m: ClientModel, local: u16, leg: LegModel)
    requires
        m.wf(),
        m.calls.contains_key(local),
        leg.wf(),
        leg.local == local,
    ensures
        m.with_leg(local, leg).wf(),
{
}

proof fn lemma_send_call_wf(
    m: ClientModel,
    local: u16,
    ft: u8,
    sc: u8,
    ies: Seq<IeModel>,
    now: Instant,
)
    requires
        m.wf(),
        m.calls.contains_key(local),
    ensures
        m.send_call(local, ft, sc, ies, now).wf(),
        m.send_call(local, ft, sc, ies, now).calls.dom() == m.calls.dom(),
{
    lemma_leg_sent_wf(m.calls[local].leg, m.ts(now), ft, sc, ies, now);
    assert(m.calls.dom().insert(local) =~= m.calls.dom());
}

proof fn lemma_send_reg_wf(m: ClientModel, sc: u8, ies: Seq<IeModel>, now: Instant)
    requires
        m.wf(),
    ensures
        m.send_reg(sc, ies, now).wf(),
{
    lemma_leg_sent_wf(m.reg, m.ts(now), frametype::IAX, sc, ies, now);
}

proof fn lemma_drop_call_wf(m: ClientModel, local: u16, reason: Seq<char>)
    requires
        m.wf(),
    ensures
        m.drop_call(local, reason).wf(),
{
}

proof fn lemma_drop_calls_wf(m: ClientModel, ids: Seq<u16>, reason: Seq<char>)
    requires
        m.wf(),
    ensures
        m.drop_calls(ids, reason).wf(),
    decreases ids.len(),
{
    if ids.len() > 0 {
        lemma_drop_calls_wf(m, ids.drop_last(), reason);
        lemma_drop_call_wf(m.drop_calls(ids.drop_last(), reason), ids.last(), reason);
    }
}

/// A search for a call number ends within the numbers for calls.
proof fn lemma_callno_range(calls: Map<u16, CallModel>, cursor: u16, tries: nat)
    requires
        CALLNO_CALL_BASE <= cursor <= CALLNO_CALL_LAST,
    ensures
        CALLNO_CALL_BASE <= callno_search(calls, cursor, tries).0 <= CALLNO_CALL_LAST,
        CALLNO_CALL_BASE <= callno_search(calls, cursor, tries).1 <= CALLNO_CALL_LAST,
    decreases tries,
{
    if tries > 0 && calls.contains_key(cursor) {
        lemma_callno_range(calls, callno_after(cursor), (tries - 1) as nat);
    }
}

/// The invariant holds of a new client.
pub proof fn law_new_has_invariant(cfg: ConfigModel, now: Instant)
    ensures
        ClientModel::new(cfg, now).wf(),
{
}

/// The passing of time keeps the invariant.
pub proof fn law_timeout_keeps_invariant(m: ClientModel, now: Instant)
    requires
        m.wf(),
    ensures
        m.on_timeout(now).wf(),
{
    let a = if m.reg.outstanding.len() == 0 && now.nanos >= m.next_reg.nanos {
        m.start_registration(now)
    } else {
        m
    };
    assert(a.wf()) by {
        let fresh = ClientModel {
            reg: LegModel::new(m.reg.local),
            calltoken: None,
            reg_state: RegState::Registering,
            ..m
        };
        lemma_send_reg_wf(fresh, iax::REGREQ, fresh.reg_ies(), now);
    }
    let c = timers_of_registration(m, now);
    assert(c.wf());
    lemma_retransmit_calls_wf(c, now);
}

proof fn lemma_retransmit_calls_wf(m: ClientModel, now: Instant)
    requires
        m.wf(),
    ensures
        m.retransmit_calls(now).wf(),
{
    let checked = ClientModel {
        calls: m.calls.map_values(|c: CallModel| CallModel { leg: c.leg.checked_at(now), ..c }),
        out: m.out + m.calls_resends(m.call_ids(), now),
        ..m
    };
    assert forall|k: u16| #[trigger] checked.calls.contains_key(k) implies checked.calls[k].leg.wf()
        && checked.calls[k].leg.local == k && CALLNO_CALL_BASE <= k <= CALLNO_CALL_LAST by {
        assert(m.calls.contains_key(k));
    }
    assert(checked.wf());
    lemma_drop_calls_wf(
        checked,
        m.call_ids().filter(|k: u16| m.call_hopeless(k, now)),
        "reliability timeout"@,
    );
}

proof fn lemma_dial_wf(m: ClientModel, number: Seq<char>, now: Instant)
    requires
        m.wf(),
    ensures
        m.dial(number, now).wf(),
{
    lemma_callno_range(m.calls, m.callno_next, CALLNO_TRIES as nat);
    let local = m.next_callno();
    let call = CallModel::new(
        LegModel::new(local),
        CallState::Trying,
        Dir::Out,
        number,
        m.cfg.audio_format,
    );
    let started = m.callno_taken().with_call(local, call);
    assert(started.wf());
    lemma_send_call_wf(
        started,
        local,
        frametype::IAX,
        iax::NEW,
        new_ies(m.cfg, number, Seq::empty()),
        now,
    );
}

/// Every command keeps the invariant.
pub proof fn law_command_keeps_invariant(m: ClientModel, cmd: Command, now: Instant)
    requires
        m.wf(),
    ensures
        commanded(m, cmd, now).wf(),
{
    match cmd {
        Command::Dial { number } => lemma_dial_wf(m, number@, now),
        Command::Answer { call } => {
            if m.calls.contains_key(call) {
                lemma_send_call_wf(
                    m,
                    call,
                    frametype::CONTROL,
                    control::ANSWER,
                    Seq::empty(),
                    now,
                );
            }
        },
        Command::Hangup { call } => {},
        Command::Hold { call } => {
            if m.calls.contains_key(call) {
                lemma_send_call_wf(m, call, frametype::CONTROL, control::HOLD, Seq::empty(), now);
            }
        },
        Command::Unhold { call } => {
            if m.calls.contains_key(call) {
                lemma_send_call_wf(m, call, frametype::CONTROL, control::UNHOLD, Seq::empty(), now);
            }
        },
        Command::SendVoice { call, ulaw } => {},
        Command::Dtmf { call, digit } => {
            if m.calls.contains_key(call) && dtmf_code(digit) is Some {
                lemma_send_call_wf(m, call, frametype::DTMF, dtmf_code(digit)->0, Seq::empty(), now);
            }
        },
    }
}

proof fn lemma_incoming_wf(m: ClientModel, f: FrameModel, now: Instant)
    requires
        m.wf(),
    ensures
        m.on_incoming_new(f, now).wf(),
{
    lemma_callno_range(m.calls, m.callno_next, CALLNO_TRIES as nat);
    let local = m.next_callno();
    let caller = text_of(f.ies, iet::CALLING_NUMBER);
    let call = CallModel::new(
        LegModel::new(local).note_recv(f),
        CallState::Ringing,
        Dir::In,
        caller,
        m.cfg.audio_format,
    );
    let a = ClientModel {
        remote_index: m.remote_index.insert(f.src_call, local),
        ..m.callno_taken().with_call(local, call)
    };
    assert(a.wf());
    let ies = seq![IeModel::of_u32(iet::FORMAT, m.cfg.audio_format)];
    lemma_send_call_wf(a, local, frametype::IAX, iax::ACCEPT, ies, now);
    let b = a.send_call(local, frametype::IAX, iax::ACCEPT, ies, now);
    lemma_send_call_wf(b, local, frametype::CONTROL, control::RINGING, Seq::empty(), now);
}

proof fn lemma_reg_frame_wf(m: ClientModel, f: FrameModel, now: Instant)
    requires
        m.wf(),
    ensures
        m.on_reg_frame(f, now).wf(),
{
    lemma_leg_received_wf(m.reg, f);
    let a = ClientModel { reg: m.reg.received(f), ..m };
    assert(a.wf());
    if f.subclass == iax::REGAUTH {
        match first_of(f.ies, iet::CHALLENGE) {
            None => {},
            Some(c) => {
                lemma_send_reg_wf(
                    a,
                    iax::REGREQ,
                    a.reg_ies().insert(
                        1,
                        IeModel::of_str(
                            iet::MD5_RESULT,
                            crate::md5_answer(c.to_str(), a.cfg.secret),
                        ),
                    ),
                    now,
                );
            },
        }
    }
}

proof fn lemma_call_frame_wf(m: ClientModel, local: u16, f: FrameModel, now: Instant)
    requires
        m.wf(),
        m.calls.contains_key(local),
    ensures
        m.on_call_frame(local, f, now).wf(),
{
    reveal(ClientModel::on_counted);
    lemma_leg_received_wf(m.calls[local].leg, f);
    let a = m.counted(local, f);
    assert(a.wf());
    assert(a.calls.contains_key(local));
    if is_iax(f, iax::AUTHREQ) && a.calls[local].dir == Dir::Out {
        match first_of(f.ies, iet::CHALLENGE) {
            None => {},
            Some(c) => {
                lemma_send_call_wf(
                    a,
                    local,
                    frametype::IAX,
                    iax::AUTHREP,
                    seq![
                        IeModel::of_str(
                            iet::MD5_RESULT,
                            crate::md5_answer(c.to_str(), a.cfg.secret),
                        ),
                    ],
                    now,
                );
            },
        }
    } else {
        lemma_plain_call_frame_wf(a, local, f, now);
    }
}

#[verifier::rlimit(60)]
proof fn lemma_plain_call_frame_wf(m: ClientModel, local: u16, f: FrameModel, now: Instant)
    requires
        m.wf(),
        m.calls.contains_key(local),
        !(is_iax(f, iax::AUTHREQ) && m.calls[local].dir == Dir::Out),
    ensures
        m.on_counted(local, f, now).wf(),
{
    reveal(ClientModel::on_counted);
}

/// Every datagram keeps the invariant.
#[verifier::rlimit(60)]
pub proof fn law_datagram_keeps_invariant(m: ClientModel, dg: Seq<u8>, now: Instant)
    requires
        m.wf(),
    ensures
        m.on_datagram(dg, now).wf(),
{
    reveal(ClientModel::on_frame);
    if full_frame(dg) && FrameModel::parse(dg) is Some {
        let f = FrameModel::parse(dg)->0;
        if ClientModel::is_qualify(f) {
        } else if m.token_for_reg(f) {
            let fresh = ClientModel {
                calltoken: token_of(f.ies),
                reg: LegModel::new(m.reg.local),
                ..m
            };
            lemma_send_reg_wf(fresh, iax::REGREQ, fresh.reg_ies(), now);
        } else if m.token_for_call(f) {
            let local = f.dst_call;
            let a = m.with_leg(local, LegModel::new(m.calls[local].leg.local));
            lemma_with_leg_wf(m, local, LegModel::new(m.calls[local].leg.local));
            lemma_send_call_wf(
                a,
                local,
                frametype::IAX,
                iax::NEW,
                new_ies(m.cfg, m.calls[local].peer, token_of(f.ies)->0),
                now,
            );
        } else if is_iax(f, iax::NEW) {
            lemma_incoming_wf(m, f, now);
        } else if f.dst_call == m.reg.local {
            lemma_reg_frame_wf(m, f, now);
        } else if m.calls.contains_key(f.dst_call) {
            lemma_call_frame_wf(m, f.dst_call, f, now);
        }
    }
}

// --- time -------------------------------------------------------------------

/// Nothing is left to do at the instant `now`.
spec fn nothing_due(m: ClientModel, now: Instant) -> bool {
    &&& m.reg.outstanding.len() > 0 || now.nanos < m.next_reg.nanos
    &&& m.reg_state == RegState::Registered ==> now.nanos < m.next_keepalive.nanos
    &&& forall|i: int|
        0 <= i < m.reg.outstanding.len() ==> !(#[trigger] m.reg.outstanding[i]).due(now)
    &&& forall|k: u16, i: int| #[trigger]
        m.calls.contains_key(k) && 0 <= i < m.calls[k].leg.outstanding.len() ==> !(
        #[trigger] m.calls[k].leg.outstanding[i]).due(now)
}

proof fn lemma_nothing_due(m: ClientModel, now: Instant)
    requires
        nothing_due(m, now),
    ensures
        m.on_timeout(now) == m,
{
    lemma_quiet_window(m.reg.outstanding, now);
    assert(m.reg.checked_at(now) =~= m.reg);
    assert(m.out + Seq::<Seq<u8>>::empty() =~= m.out);
    assert(m.retransmit_reg(now) =~= m);
    let ids = m.call_ids();
    lemma_ids_below(m.calls, 0x1_0000);
    assert forall|k: u16| #[trigger] m.calls.contains_key(k) implies resends(
        m.calls[k].leg.outstanding,
        now,
    ).len() == 0 && !m.call_hopeless(k, now) && m.calls[k].leg.checked_at(now) == m.calls[k].leg by {
        lemma_quiet_window(m.calls[k].leg.outstanding, now);
        assert(m.calls[k].leg.checked_at(now) =~= m.calls[k].leg);
    }
    assert(m.calls.map_values(|c: CallModel| CallModel { leg: c.leg.checked_at(now), ..c })
        =~= m.calls);
    assert forall|k: u16| #[trigger] ids.contains(k) implies m.calls.contains_key(k) by {}
    lemma_no_resends(m, ids, now);
    let gone = |k: u16| m.call_hopeless(k, now);
    if ids.filter(gone).len() > 0 {
        let j = lemma_kept_from(ids, gone, 0);
        assert(ids.contains(ids[j]));
    }
    assert(ids.filter(gone) =~= Seq::empty());
    assert(m.retransmit_calls(now) =~= m);
}

/// A driver may sleep until [`crate::PbxClient::poll_timeout`]: before the
/// first instant at which something falls due, the passing of time changes
/// nothing.
pub proof fn law_quiet_until_timeout(m: ClientModel, t: Instant, now: Instant)
    requires
        m.quiet_before(t),
        now.nanos < t.nanos,
    ensures
        m.on_timeout(now) == m,
{
    lemma_nothing_due(m, now);
}

/// A new account registers at the first look at the clock: one request goes
/// out, it is kept until it is acknowledged, and nothing else happens.
pub proof fn law_registers_at_once(cfg: ConfigModel, made: Instant, now: Instant)
    requires
        made.nanos <= now.nanos,
        now.in_range(),
    ensures
        ({
            let m = ClientModel::new(cfg, made);
            let f = m.reg.frame(m.ts(now), frametype::IAX, iax::REGREQ, m.reg_ies());
            &&& m.on_timeout(now) == m.start_registration(now)
            &&& m.on_timeout(now).reg_state == RegState::Registering
            &&& m.on_timeout(now).out == seq![f.wire()]
            &&& m.on_timeout(now).reg.outstanding.len() == 1
            &&& m.on_timeout(now).reg.outstanding[0].bytes == f.wire()
        }),
{
    let m = ClientModel::new(cfg, made);
    let s = m.start_registration(now);
    let due = now.after(RETX_AFTER as int);
    assert(s.quiet_before(due));
    law_quiet_until_timeout(s, due, now);
    assert(s.out =~= seq![s.out[0]]);
}

pub proof fn lemma_quiet_window(w: Seq<OutstandingModel>, now: Instant)
    requires
        forall|i: int| 0 <= i < w.len() ==> !(#[trigger] w[i]).due(now),
    ensures
        resends(w, now) == Seq::<Seq<u8>>::empty(),
        !some_hopeless(w, now),
        w.map_values(|o: OutstandingModel| o.checked_at(now)) == w,
    decreases w.len(),
{
    assert(w.map_values(|o: OutstandingModel| o.checked_at(now)) =~= w);
    if w.len() > 0 {
        let before = w.drop_last();
        assert forall|i: int| 0 <= i < before.len() implies !(#[trigger] before[i]).due(now) by {
            assert(before[i] == w[i]);
        }
        lemma_quiet_window(before, now);
        assert(w.last() == w[w.len() - 1]);
    }
}

proof fn lemma_no_resends(m: ClientModel, ids: Seq<u16>, now: Instant)
    requires
        forall|k: u16| #[trigger]
            ids.contains(k) ==> resends(m.calls[k].leg.outstanding, now).len() == 0,
    ensures
        m.calls_resends(ids, now) == Seq::<Seq<u8>>::empty(),
    decreases ids.len(),
{
    if ids.len() > 0 {
        let before = ids.drop_last();
        assert forall|k: u16| #[trigger] before.contains(k) implies resends(
            m.calls[k].leg.outstanding,
            now,
        ).len() == 0 by {
            let i = choose|i: int| 0 <= i < before.len() && before[i] == k;
            assert(ids[i] == k);
            assert(ids.contains(k));
        }
        lemma_no_resends(m, before, now);
        assert(ids.contains(ids.last()));
        assert(m.calls_resends(ids, now) =~= Seq::<Seq<u8>>::empty());
    }
}

// --- lost peers -------------------------------------------------------------

proof fn lemma_drop_calls_effect(m: ClientModel, ids: Seq<u16>, reason: Seq<char>)
    ensures
        forall|k: u16| #[trigger]
            m.drop_calls(ids, reason).calls.contains_key(k) <==> m.calls.contains_key(k)
                && !ids.contains(k),
        forall|k: u16| #[trigger]
            m.drop_calls(ids, reason).calls.contains_key(k) ==> m.drop_calls(ids, reason).calls[k]
                == m.calls[k],
        forall|k: u16|
            m.calls.contains_key(k) && ids.contains(k) ==> #[trigger] m.drop_calls(
                ids,
                reason,
            ).events.contains(EventModel::Ended { call: k, reason }),
    decreases ids.len(),
{
    if ids.len() > 0 {
        let before = ids.drop_last();
        let last = ids.last();
        lemma_drop_calls_effect(m, before, reason);
        let a = m.drop_calls(before, reason);
        let b = m.drop_calls(ids, reason);
        assert forall|k: u16| #[trigger] ids.contains(k) <==> before.contains(k) || k == last by {
            if before.contains(k) {
                let i = choose|i: int| 0 <= i < before.len() && before[i] == k;
                assert(ids[i] == k);
            }
            if ids.contains(k) && k != last {
                let i = choose|i: int| 0 <= i < ids.len() && ids[i] == k;
                assert(before[i] == k);
            }
            assert(ids[ids.len() - 1] == last);
        }
        assert forall|k: u16|
            m.calls.contains_key(k) && ids.contains(k) implies #[trigger] b.events.contains(
            EventModel::Ended { call: k, reason },
        ) by {
            let ev = EventModel::Ended { call: k, reason };
            if before.contains(k) {
                assert(a.events.contains(ev));
                let i = choose|i: int| 0 <= i < a.events.len() && a.events[i] == ev;
                assert(b.events[i] == ev);
            } else {
                assert(a.calls.contains_key(k));
                assert(b.events[a.events.len() as int] == ev);
            }
        }
    }
}

/// When the peer of a call leaves a frame unacknowledged after the last
/// retransmission, the call ends and the driver is told; the other calls go on,
/// with what was due on them sent again.
pub proof fn law_lost_call_ends(m: ClientModel, now: Instant, k: u16)
    requires
        m.calls.contains_key(k),
    ensures
        m.on_timeout(now).calls.contains_key(k) <==> !m.call_hopeless(k, now),
        m.call_hopeless(k, now) ==> m.on_timeout(now).events.contains(
            EventModel::Ended { call: k, reason: "reliability timeout"@ },
        ),
        !m.call_hopeless(k, now) ==> m.on_timeout(now).calls[k] == (CallModel {
            leg: m.calls[k].leg.checked_at(now),
            ..m.calls[k]
        }),
{
    let c = timers_of_registration(m, now);
    assert(m.on_timeout(now) == c.retransmit_calls(now));
    assert(c.calls == m.calls);
    let ids = c.call_ids();
    lemma_ids_below(c.calls, 0x1_0000);
    let gone = |j: u16| c.call_hopeless(j, now);
    let dead = ids.filter(gone);
    let checked = ClientModel {
        calls: c.calls.map_values(|x: CallModel| CallModel { leg: x.leg.checked_at(now), ..x }),
        out: c.out + c.calls_resends(ids, now),
        ..c
    };
    lemma_drop_calls_effect(checked, dead, "reliability timeout"@);
    assert(checked.calls.contains_key(k));
    assert(ids.contains(k));
    let i = choose|i: int| 0 <= i < ids.len() && ids[i] == k;
    assert(dead.contains(k) <==> gone(k)) by {
        if gone(k) {
            crate::leg::lemma_kept(ids, gone, i);
        }
        if dead.contains(k) {
            let n = choose|n: int| 0 <= n < dead.len() && dead[n] == k;
            let _ = lemma_kept_from(ids, gone, n);
        }
    }
}

/// What the passing of time does before the calls are looked at.
pub open spec fn timers_of_registration(m: ClientModel, now: Instant) -> ClientModel {
    let a = if m.reg.outstanding.len() == 0 && now.nanos >= m.next_reg.nanos {
        m.start_registration(now)
    } else {
        m
    };
    let b = if a.reg_state == RegState::Registered && now.nanos >= a.next_keepalive.nanos {
        ClientModel {
            next_keepalive: now.after(KEEPALIVE_EVERY as int),
            ..a.push(
                FrameModel::new(
                    CALLNO_KEEPALIVE,
                    0,
                    a.ts(now),
                    0,
                    0,
                    frametype::IAX,
                    iax::POKE,
                    Seq::empty(),
                ).wire(),
            )
        }
    } else {
        a
    };
    b.retransmit_reg(now)
}

proof fn lemma_drop_calls_keeps(m: ClientModel, ids: Seq<u16>, reason: Seq<char>)
    ensures
        ({
            let after = m.drop_calls(ids, reason);
            &&& after.reg == m.reg
            &&& after.reg_state == m.reg_state
            &&& after.next_reg == m.next_reg
            &&& after.next_keepalive == m.next_keepalive
            &&& after.qualify_next == m.qualify_next
            &&& after.out == m.out
        }),
    decreases ids.len(),
{
    if ids.len() > 0 {
        lemma_drop_calls_keeps(m, ids.drop_last(), reason);
    }
}

/// The windows of the calls are the last thing that a look at the clock deals
/// with, and they touch nothing but the calls.
pub proof fn lemma_retransmit_calls_keeps(m: ClientModel, now: Instant)
    ensures
        ({
            let after = m.retransmit_calls(now);
            &&& after.reg == m.reg
            &&& after.reg_state == m.reg_state
            &&& after.next_reg == m.next_reg
            &&& after.next_keepalive == m.next_keepalive
            &&& after.qualify_next == m.qualify_next
            &&& after.out == m.out + m.calls_resends(m.call_ids(), now)
            &&& forall|k: u16| #[trigger]
                after.calls.contains_key(k) ==> m.calls.contains_key(k)
        }),
{
    let ids = m.call_ids();
    let checked = ClientModel {
        calls: m.calls.map_values(|c: CallModel| CallModel { leg: c.leg.checked_at(now), ..c }),
        out: m.out + m.calls_resends(ids, now),
        ..m
    };
    let dead = ids.filter(|k: u16| m.call_hopeless(k, now));
    lemma_drop_calls_keeps(checked, dead, "reliability timeout"@);
    lemma_drop_calls_effect(checked, dead, "reliability timeout"@);
}

/// In a window that was checked, and has no hopeless frame, nothing is due.
proof fn lemma_checked_window(w: Seq<OutstandingModel>, now: Instant)
    requires
        now.in_range(),
        !some_hopeless(w, now),
    ensures
        ({
            let after = w.map_values(|o: OutstandingModel| o.checked_at(now));
            forall|i: int| 0 <= i < after.len() ==> !(#[trigger] after[i]).due(now)
        }),
{
    let after = w.map_values(|o: OutstandingModel| o.checked_at(now));
    assert forall|i: int| 0 <= i < after.len() implies !(#[trigger] after[i]).due(now) by {
        assert(!w[i].hopeless(now));
    }
}

/// One look at the clock deals with all that is due: a second one at the same
/// instant sends nothing, tells nothing and leaves the state as it is.
pub proof fn law_second_timeout_changes_nothing(m: ClientModel, now: Instant)
    requires
        now.in_range(),
    ensures
        m.on_timeout(now).on_timeout(now) == m.on_timeout(now),
{
    let c = timers_of_registration(m, now);
    let after = m.on_timeout(now);
    assert(after == c.retransmit_calls(now));
    lemma_retransmit_calls_keeps(c, now);
    assert(c.calls == m.calls);
    let started = if m.reg.outstanding.len() == 0 && now.nanos >= m.next_reg.nanos {
        m.start_registration(now)
    } else {
        m
    };
    if !some_hopeless(started.reg.outstanding, now) {
        lemma_checked_window(started.reg.outstanding, now);
    }
    assert forall|k: u16, i: int| #[trigger]
        after.calls.contains_key(k) && 0 <= i < after.calls[k].leg.outstanding.len() implies !(
    #[trigger] after.calls[k].leg.outstanding[i]).due(now) by {
        law_lost_call_ends(m, now, k);
        lemma_checked_window(m.calls[k].leg.outstanding, now);
    }
    lemma_nothing_due(after, now);
}

/// A registration that is due, with nothing in flight, starts at the next look
/// at the clock: the request goes out before anything else, and it is kept
/// until it is acknowledged.
pub proof fn law_due_registration_starts(m: ClientModel, now: Instant)
    requires
        m.reg.outstanding.len() == 0,
        now.nanos >= m.next_reg.nanos,
        now.in_range(),
    ensures
        ({
            let after = m.on_timeout(now);
            let request = m.start_registration(now).out.last();
            &&& after.reg_state == RegState::Registering
            &&& after.reg == m.start_registration(now).reg
            &&& after.reg.outstanding.len() == 1
            &&& after.reg.outstanding[0].bytes == request
            &&& after.next_reg.nanos == now.nanos + REG_GUARD
            &&& after.out.len() > m.out.len()
            &&& after.out.take(m.out.len() as int) == m.out
            &&& after.out[m.out.len() as int] == request
        }),
{
    let s = m.start_registration(now);
    lemma_quiet_window(s.reg.outstanding, now);
    assert(s.reg.checked_at(now) =~= s.reg);
    assert(s.out + Seq::<Seq<u8>>::empty() =~= s.out);
    assert(s.retransmit_reg(now) =~= s);
    lemma_retransmit_calls_keeps(s, now);
    assert(m.on_timeout(now) == s.retransmit_calls(now));
    assert(m.on_timeout(now).out.take(m.out.len() as int) =~= m.out);
}

/// When the exchange leaves a registration frame unacknowledged after the last
/// retransmission, the driver is told, nothing stays in flight, and a new
/// registration starts [`crate::client_model::REG_RETRY`] later.
pub proof fn law_lost_registration_restarts(m: ClientModel, now: Instant, later: Instant)
    requires
        some_hopeless(m.reg.outstanding, now),
        now.in_range(),
        later.nanos >= now.nanos + REG_RETRY,
        later.in_range(),
    ensures
        ({
            let lost = m.retransmit_reg(now);
            &&& lost.reg_state == RegState::Idle
            &&& lost.reg.outstanding.len() == 0
            &&& lost.next_reg.nanos == now.nanos + REG_RETRY
            &&& lost.events.last() == (EventModel::RegisterLost {
                reason: "no ACK after retransmissions"@,
            })
            &&& lost.on_timeout(later).reg_state == RegState::Registering
            &&& lost.on_timeout(later).reg == lost.start_registration(later).reg
        }),
{
    law_due_registration_starts(m.retransmit_reg(now), later);
}

/// When the exchange rejects the registration, the driver is told, the token is
/// forgotten, and a new registration starts
/// [`crate::client_model::REG_RETRY`] later, once nothing is in flight.
pub proof fn law_rejected_registration_restarts(
    m: ClientModel,
    f: FrameModel,
    now: Instant,
    later: Instant,
)
    requires
        m.wf(),
        f.subclass == iax::REGREJ,
        f.dst_call == m.reg.local,
        !m.token_for_reg(f),
        now.in_range(),
        later.nanos >= now.nanos + REG_RETRY,
        later.in_range(),
    ensures
        ({
            let after = m.on_frame(f, now);
            &&& after.reg_state == RegState::Idle
            &&& after.calltoken is None
            &&& after.next_reg.nanos == now.nanos + REG_RETRY
            &&& after.reg == m.reg.received(f)
            &&& after.calls == m.calls
            &&& after.out == m.out.push(m.reg.received(f).ack(m.ts(now)))
            &&& after.events == m.events.push(
                EventModel::RegisterLost {
                    reason: "REGREJ causecode="@ + debug_option(cause_code(f.ies)),
                },
            )
            &&& after.reg.outstanding.len() == 0 ==> {
                &&& after.on_timeout(later).reg_state == RegState::Registering
                &&& after.on_timeout(later).reg == after.start_registration(later).reg
            }
        }),
{
    reveal(ClientModel::on_frame);
    let after = m.on_frame(f, now);
    assert(!m.calls.contains_key(f.dst_call));
    if after.reg.outstanding.len() == 0 {
        law_due_registration_starts(after, later);
    }
}

// --- call numbers -----------------------------------------------------------

/// Steps from `cursor` to `n` in the cycle of the numbers for calls.
pub open spec fn callno_distance(cursor: u16, n: u16) -> int {
    if n >= cursor {
        n - cursor
    } else {
        n - cursor + (CALLNO_CALL_LAST - CALLNO_CALL_BASE + 1)
    }
}

proof fn lemma_search_finds(calls: Map<u16, CallModel>, cursor: u16, tries: nat, n: u16)
    requires
        CALLNO_CALL_BASE <= cursor <= CALLNO_CALL_LAST,
        CALLNO_CALL_BASE <= n <= CALLNO_CALL_LAST,
        !calls.contains_key(n),
        callno_distance(cursor, n) < tries,
    ensures
        !calls.contains_key(callno_search(calls, cursor, tries).0),
    decreases tries,
{
    if calls.contains_key(cursor) {
        lemma_search_finds(calls, callno_after(cursor), (tries - 1) as nat, n);
    }
}

/// With fewer live calls than numbers, one number is free.
pub proof fn lemma_some_number_is_free(m: ClientModel) -> (n: u16)
    requires
        m.wf(),
        m.calls.dom().len() < CALLNO_COUNT,
    ensures
        CALLNO_CALL_BASE <= n <= CALLNO_CALL_LAST,
        !m.calls.contains_key(n),
{
    let all = set_int_range(CALLNO_CALL_BASE as int, CALLNO_CALL_LAST + 1);
    let to_number = |i: int| i as u16;
    let numbers = all.map(to_number);
    lemma_int_range(CALLNO_CALL_BASE as int, CALLNO_CALL_LAST + 1);
    lemma_map_size(all, numbers, to_number);
    assert forall|k: u16| CALLNO_CALL_BASE <= k <= CALLNO_CALL_LAST implies #[trigger]
        numbers.contains(k) by {
        assert(all.contains(k as int));
        assert(to_number(k as int) == k);
    }
    assert(m.calls.dom().subset_of(numbers));
    lemma_len_subset(m.calls.dom(), numbers);
    if forall|k: u16| CALLNO_CALL_BASE <= k <= CALLNO_CALL_LAST ==> #[trigger]
        m.calls.contains_key(k) {
        assert(numbers.subset_of(m.calls.dom()));
        lemma_len_subset(numbers, m.calls.dom());
    }
    choose|k: u16| CALLNO_CALL_BASE <= k <= CALLNO_CALL_LAST && !#[trigger] m.calls.contains_key(k)
}

/// A new call gets a number that no live call has, as long as there are fewer
/// live calls than numbers; it is never the number of the registration, of the
/// keepalives or of a qualify; and to take it touches no call.
pub proof fn law_new_call_number_is_free(m: ClientModel)
    requires
        m.wf(),
        m.calls.dom().len() < CALLNO_COUNT,
    ensures
        !m.calls.contains_key(m.next_callno()),
        CALLNO_CALL_BASE <= m.next_callno() <= CALLNO_CALL_LAST,
        m.next_callno() != m.reg.local,
        m.next_callno() != CALLNO_KEEPALIVE,
        m.next_callno() < CALLNO_QUALIFY_BASE,
        m.callno_taken().calls == m.calls,
        m.callno_taken().wf(),
{
    let n = lemma_some_number_is_free(m);
    lemma_search_finds(m.calls, m.callno_next, CALLNO_TRIES as nat, n);
    lemma_callno_range(m.calls, m.callno_next, CALLNO_TRIES as nat);
}

proof fn lemma_search_result(calls: Map<u16, CallModel>, cursor: u16, tries: nat)
    ensures
        ({
            let n = callno_search(calls, cursor, tries).0;
            !calls.contains_key(n) || n == CALLNO_CALL_BASE
        }),
    decreases tries,
{
    if tries > 0 && calls.contains_key(cursor) {
        lemma_search_result(calls, callno_after(cursor), (tries - 1) as nat);
    }
}

/// A new call does not get the number of the live call `other`.
proof fn lemma_new_number_spares(m: ClientModel, other: u16)
    requires
        m.wf(),
        m.calls.contains_key(other),
        m.calls.dom().len() < CALLNO_COUNT || other != CALLNO_CALL_BASE,
    ensures
        m.next_callno() != other,
{
    lemma_search_result(m.calls, m.callno_next, CALLNO_TRIES as nat);
    if m.calls.dom().len() < CALLNO_COUNT {
        law_new_call_number_is_free(m);
    }
}

/// The call number of the answer to the qualify that comes `k` qualifies later.
pub open spec fn qualify_later(n: u16, k: nat) -> u16
    decreases k,
{
    if k == 0 {
        n
    } else {
        qualify_after(qualify_later(n, (k - 1) as nat))
    }
}

proof fn lemma_qualify_later(n: u16, k: nat)
    requires
        CALLNO_QUALIFY_BASE <= n <= CALLNO_QUALIFY_LAST,
    ensures
        qualify_later(n, k) == CALLNO_QUALIFY_BASE + (n - CALLNO_QUALIFY_BASE + k) % 0x1000,
    decreases k,
{
    if k > 0 {
        lemma_qualify_later(n, (k - 1) as nat);
    }
}

/// The answers to qualifies take turns through their 4096 call numbers: every
/// number comes once before the first one comes again, and none of them is that
/// of the registration, of the keepalives or of a call.
pub proof fn law_qualify_numbers_rotate(n: u16)
    requires
        CALLNO_QUALIFY_BASE <= n <= CALLNO_QUALIFY_LAST,
    ensures
        forall|k: nat|
            CALLNO_QUALIFY_BASE <= #[trigger] qualify_later(n, k) <= CALLNO_QUALIFY_LAST,
        forall|k: nat| #[trigger]
            qualify_later(n, k) != CALLNO_REG && qualify_later(n, k) != CALLNO_KEEPALIVE
                && qualify_later(n, k) > CALLNO_CALL_LAST,
        forall|i: nat, j: nat|
            i < j < 0x1000 ==> #[trigger] qualify_later(n, i) != #[trigger] qualify_later(n, j),
        qualify_later(n, 0x1000) == n,
{
    assert forall|k: nat|
        CALLNO_QUALIFY_BASE <= #[trigger] qualify_later(n, k) <= CALLNO_QUALIFY_LAST by {
        lemma_qualify_later(n, k);
    }
    assert forall|i: nat, j: nat| i < j < 0x1000 implies #[trigger] qualify_later(n, i)
        != #[trigger] qualify_later(n, j) by {
        lemma_qualify_later(n, i);
        lemma_qualify_later(n, j);
    }
    lemma_qualify_later(n, 0x1000);
}

/// A client after frames that arrived one by one, each at its instant.
pub open spec fn after_frames(m: ClientModel, fs: Seq<(FrameModel, Instant)>) -> ClientModel
    decreases fs.len(),
{
    if fs.len() == 0 {
        m
    } else {
        after_frames(m, fs.drop_last()).on_frame(fs.last().0, fs.last().1)
    }
}

/// The answer to the `i`-th of the qualifies that a client gets.
pub open spec fn nth_pong(m: ClientModel, fs: Seq<(FrameModel, Instant)>, i: int) -> FrameModel {
    ClientModel { qualify_next: qualify_later(m.qualify_next, i as nat), ..m }.pong(fs[i].0)
}

/// Qualifies that follow each other are answered one by one, each from the next
/// number of the cycle, and nothing else changes; two answers share a number
/// only if they are a whole cycle of 4096 answers apart.
pub proof fn law_qualify_answers_rotate(m: ClientModel, fs: Seq<(FrameModel, Instant)>)
    requires
        m.wf(),
        forall|i: int| 0 <= i < fs.len() ==> ClientModel::is_qualify((#[trigger] fs[i]).0),
    ensures
        after_frames(m, fs) == (ClientModel {
            out: m.out + Seq::new(fs.len(), |i: int| nth_pong(m, fs, i).wire()),
            qualify_next: qualify_later(m.qualify_next, fs.len()),
            ..m
        }),
        forall|i: int|
            0 <= i < fs.len() ==> CALLNO_QUALIFY_BASE <= (#[trigger] nth_pong(m, fs, i)).src_call
                <= CALLNO_QUALIFY_LAST,
        forall|i: int, j: int|
            0 <= i < j < fs.len() ==> ((#[trigger] nth_pong(m, fs, i)).src_call == (
            #[trigger] nth_pong(m, fs, j)).src_call <==> (j - i) % 0x1000 == 0),
    decreases fs.len(),
{
    assert forall|i: int| 0 <= i < fs.len() implies CALLNO_QUALIFY_BASE <= (
    #[trigger] nth_pong(m, fs, i)).src_call <= CALLNO_QUALIFY_LAST by {
        lemma_qualify_later(m.qualify_next, i as nat);
    }
    assert forall|i: int, j: int| 0 <= i < j < fs.len() implies ((
    #[trigger] nth_pong(m, fs, i)).src_call == (#[trigger] nth_pong(m, fs, j)).src_call <==> (j
        - i) % 0x1000 == 0) by {
        lemma_qualify_later(m.qualify_next, i as nat);
        lemma_qualify_later(m.qualify_next, j as nat);
    }
    let pongs = Seq::new(fs.len(), |i: int| nth_pong(m, fs, i).wire());
    if fs.len() > 0 {
        let before = fs.drop_last();
        assert forall|i: int| 0 <= i < before.len() implies ClientModel::is_qualify(
            (#[trigger] before[i]).0,
        ) by {
            assert(before[i] == fs[i]);
        }
        law_qualify_answers_rotate(m, before);
        assert(pongs.drop_last() =~= Seq::new(
            before.len(),
            |i: int| nth_pong(m, before, i).wire(),
        ));
        assert(ClientModel::is_qualify(fs[fs.len() - 1].0));
        reveal(ClientModel::on_frame);
        assert(m.out + pongs =~= (m.out + pongs.drop_last()).push(pongs.last()));
    } else {
        assert(m.out + pongs =~= m.out);
    }
}

/// Only a qualify moves the cycle of the numbers on.
#[verifier::rlimit(60)]
pub proof fn law_only_qualifies_turn_the_cycle(
    m: ClientModel,
    dg: Seq<u8>,
    cmd: Command,
    now: Instant,
)
    ensures
        m.on_timeout(now).qualify_next == m.qualify_next,
        commanded(m, cmd, now).qualify_next == m.qualify_next,
        m.on_datagram(dg, now).qualify_next == if full_frame(dg) && FrameModel::parse(dg) is Some
            && ClientModel::is_qualify(FrameModel::parse(dg)->0) {
            qualify_after(m.qualify_next)
        } else {
            m.qualify_next
        },
{
    reveal(ClientModel::on_frame);
    reveal(ClientModel::on_counted);
    lemma_retransmit_calls_keeps(timers_of_registration(m, now), now);
}

// --- qualifies and lag requests ---------------------------------------------

/// A qualify is answered with a `PONG` that echoes its timestamp and
/// acknowledges it, and changes nothing but the number of the next answer.
pub proof fn law_qualify_is_echoed(m: ClientModel, f: FrameModel, now: Instant)
    requires
        m.wf(),
        ClientModel::is_qualify(f),
        f.src_call < 0x8000,
    ensures
        ({
            let after = m.on_frame(f, now);
            let answer = FrameModel::parse(after.out.last());
            &&& after.out == m.out.push(m.pong(f).wire())
            &&& answer is Some
            &&& is_iax(answer->0, iax::PONG)
            &&& answer->0.timestamp == f.timestamp
            &&& answer->0.src_call == m.qualify_next
            &&& answer->0.dst_call == f.src_call
            &&& answer->0.iseq == crate::leg::next_seq(f.oseq)
            &&& after == (ClientModel {
                out: after.out,
                qualify_next: qualify_after(m.qualify_next),
                ..m
            })
        }),
{
    assert(m.on_frame(f, now) == (ClientModel {
        qualify_next: qualify_after(m.qualify_next),
        ..m.push(m.pong(f).wire())
    })) by {
        reveal(ClientModel::on_frame);
    }
    crate::frame::law_command_roundtrip(m.pong(f));
}

/// A frame of a call that is no request for another one goes to the call.
proof fn lemma_routed_to_call(m: ClientModel, f: FrameModel, now: Instant)
    requires
        m.wf(),
        m.calls.contains_key(f.dst_call),
        token_of(f.ies) is None,
        !is_iax(f, iax::NEW),
    ensures
        m.on_frame(f, now) == m.counted(f.dst_call, f).on_counted(f.dst_call, f, now),
{
    reveal(ClientModel::on_frame);
    assert(CALLNO_CALL_BASE <= f.dst_call);
}

/// The answer to a request on a call.
proof fn lemma_request_echoed(m: ClientModel, local: u16, f: FrameModel, now: Instant, sc: u8)
    requires
        is_iax(f, iax::LAGRQ) && sc == iax::LAGRP || is_iax(f, iax::PING) && sc == iax::PONG,
    ensures
        m.on_counted(local, f, now) == m.echo_call(local, f.timestamp, sc),
{
    reveal(ClientModel::on_counted);
}

/// A lag request or a ping on a call is answered with the same timestamp, and
/// the answer acknowledges it: its sequence number is one past the request's.
pub proof fn law_call_request_is_echoed(m: ClientModel, f: FrameModel, now: Instant)
    requires
        m.wf(),
        m.calls.contains_key(f.dst_call),
        is_iax(f, iax::LAGRQ) || is_iax(f, iax::PING),
        token_of(f.ies) is None,
        0 < f.src_call < 0x8000,
    ensures
        ({
            let after = m.on_frame(f, now);
            let answer = FrameModel::parse(after.out.last());
            &&& after.out.len() == m.out.len() + 1
            &&& after.out.drop_last() == m.out
            &&& after.events == m.events
            &&& answer is Some
            &&& is_iax(
                answer->0,
                if f.subclass == iax::LAGRQ {
                    iax::LAGRP
                } else {
                    iax::PONG
                },
            )
            &&& answer->0.timestamp == f.timestamp
            &&& answer->0.iseq == crate::leg::next_seq(f.oseq)
            &&& answer->0.src_call == f.dst_call
            &&& answer->0.dst_call == f.src_call
        }),
{
    let local = f.dst_call;
    let c = m.counted(local, f);
    let leg = c.calls[local].leg;
    let sc = if f.subclass == iax::LAGRQ {
        iax::LAGRP
    } else {
        iax::PONG
    };
    lemma_routed_to_call(m, f, now);
    lemma_request_echoed(c, local, f, now, sc);
    assert(leg.local == local && leg.remote == f.src_call && leg.iseq == crate::leg::next_seq(
        f.oseq,
    ));
    let answer = leg.frame(f.timestamp, frametype::IAX, sc, Seq::empty());
    crate::frame::law_command_roundtrip(answer);
    assert(c.echo_call(local, f.timestamp, sc).out == m.out.push(answer.wire()));
    assert(m.out.push(answer.wire()).drop_last() =~= m.out);
}

// --- call tokens ------------------------------------------------------------

/// A call token makes the registration start over: the request goes out again
/// with the same elements but for the token, on a leg that starts afresh.
pub proof fn law_token_repeats_registration(m: ClientModel, f: FrameModel, now: Instant)
    requires
        m.token_for_reg(f),
        !ClientModel::is_qualify(f),
    ensures
        ({
            let after = m.on_frame(f, now);
            let ies = m.reg_ies().update(
                2,
                IeModel { kind: iet::CALLTOKEN, data: token_of(f.ies)->0 },
            );
            &&& m.reg_ies()[2] == IeModel::of_nothing(iet::CALLTOKEN)
            &&& after.out == m.out.push(
                FrameModel::new(
                    m.reg.local,
                    0,
                    m.ts(now),
                    0,
                    0,
                    frametype::IAX,
                    iax::REGREQ,
                    ies,
                ).wire(),
            )
            &&& after.reg.outstanding.len() == 1
            &&& after.calls == m.calls
        }),
{
    reveal(ClientModel::on_frame);
    let ies = m.reg_ies().update(2, IeModel { kind: iet::CALLTOKEN, data: token_of(f.ies)->0 });
    let fresh = ClientModel { calltoken: token_of(f.ies), reg: LegModel::new(m.reg.local), ..m };
    assert(fresh.reg_ies() =~= ies);
}

/// A call token makes an outbound call start over: its `NEW` goes out again
/// with the same elements but for the token, on a leg that starts afresh.
pub proof fn law_token_repeats_call(m: ClientModel, f: FrameModel, now: Instant)
    requires
        m.wf(),
        m.token_for_call(f),
        !ClientModel::is_qualify(f),
    ensures
        ({
            let after = m.on_frame(f, now);
            let c = m.calls[f.dst_call];
            let ies = new_ies(m.cfg, c.peer, Seq::empty()).update(
                7,
                IeModel { kind: iet::CALLTOKEN, data: token_of(f.ies)->0 },
            );
            &&& after.out == m.out.push(
                FrameModel::new(
                    f.dst_call,
                    0,
                    m.ts(now),
                    0,
                    0,
                    frametype::IAX,
                    iax::NEW,
                    ies,
                ).wire(),
            )
            &&& after.calls[f.dst_call].leg.outstanding.len() == 1
            &&& after.calls[f.dst_call].state == CallState::Trying
        }),
{
    reveal(ClientModel::on_frame);
    let c = m.calls[f.dst_call];
    assert(new_ies(m.cfg, c.peer, token_of(f.ies)->0) =~= new_ies(
        m.cfg,
        c.peer,
        Seq::empty(),
    ).update(7, IeModel { kind: iet::CALLTOKEN, data: token_of(f.ies)->0 }));
}

// --- timestamps -------------------------------------------------------------

/// Whatever a mini frame's timestamp is completed to, its low 16 bits are those
/// of the frame.
#[verifier::rlimit(40)]
pub proof fn law_timestamp_low_bits(last: u32, ts16: u16, seen: bool)
    ensures
        full_ts(last, ts16, seen) % 0x1_0000 == ts16,
{
    lemma_candidates(last, ts16);
}

/// The candidates for a timestamp, without a remainder.
proof fn lemma_candidates(last: u32, ts16: u16)
    ensures
        ({
            let h = last / 0x1_0000;
            let c = h * 0x1_0000 + ts16;
            &&& ts_candidate(last, ts16, 0) == c
            &&& ts_candidate(last, ts16, -1) == if h >= 1 {
                c - 0x1_0000
            } else {
                c + 0xFFFF_0000
            }
            &&& ts_candidate(last, ts16, 1) == if h < 0xFFFF {
                c + 0x1_0000
            } else {
                c - 0xFFFF_0000
            }
        }),
{
    let h = last / 0x1_0000;
    assert(0 <= h <= 0xFFFF);
}

/// Of the candidates, the one that lies in the half range is the nearest.
proof fn lemma_nearest(last: int, t: int, lower: int, same: int, upper: int)
    requires
        0 <= last < 0x1_0000_0000,
        0 <= t < 0x1_0000_0000,
        -0x8000 <= t - last < 0x8000,
        lower == same - 0x1_0000 || lower == same + 0xFFFF_0000 && same < 0x1_0000,
        upper == same + 0x1_0000 || upper == same - 0xFFFF_0000 && same >= 0xFFFF_0000,
        same - 0xFFFF <= last <= same + 0xFFFF,
        0 <= same < 0x1_0000_0000,
        t == lower || t == same || t == upper,
    ensures
        ({
            let best = if ts_gap(lower, last) <= ts_gap(same, last) {
                lower
            } else {
                same
            };
            t == if ts_gap(best, last) <= ts_gap(upper, last) {
                best
            } else {
                upper
            }
        }),
{
}

/// A mini frame's timestamp is completed to the true one, whenever that lies at
/// most half the 16-bit range before the last full timestamp, or less than half
/// of it after.
pub proof fn law_timestamp_is_completed(last: u32, t: u32)
    requires
        -0x8000 <= t - last < 0x8000,
    ensures
        full_ts(last, (t % 0x1_0000) as u16, true) == t,
{
    let ts16 = (t % 0x1_0000) as u16;
    let lower = ts_candidate(last, ts16, -1);
    let same = ts_candidate(last, ts16, 0);
    let upper = ts_candidate(last, ts16, 1);
    lemma_candidates(last, ts16);
    let h = last / 0x1_0000;
    let k = t / 0x1_0000;
    assert(last == h * 0x1_0000 + last % 0x1_0000);
    assert(t == k * 0x1_0000 + ts16);
    assert(-1 <= k - h <= 1);
    assert(k == h ==> t == same);
    assert(k == h - 1 ==> t == lower);
    assert(k == h + 1 ==> t == upper);
    lemma_nearest(last as int, t as int, lower as int, same as int, upper as int);
}

/// The timestamp that a mini frame's is completed to is the nearest to the last
/// full timestamp of all those that end in the frame's 16 bits; of two that are
/// equally near it is the lower.
pub proof fn law_timestamp_is_nearest(last: u32, ts16: u16, t: u32)
    requires
        t % 0x1_0000 == ts16,
    ensures
        ({
            let full = full_ts(last, ts16, true);
            &&& ts_gap(full as int, last as int) <= ts_gap(t as int, last as int)
            &&& ts_gap(full as int, last as int) == ts_gap(t as int, last as int) ==> full <= t
        }),
{
    lemma_candidates(last, ts16);
    let h = last / 0x1_0000;
    let k = t / 0x1_0000;
    let same = ts_candidate(last, ts16, 0);
    assert(last == h * 0x1_0000 + last % 0x1_0000);
    assert(t == k * 0x1_0000 + ts16);
    assert(ts_gap(same as int, last as int) <= 0xFFFF);
    if k <= h - 2 {
        assert(ts_gap(t as int, last as int) > 0x1_0000);
    } else if k >= h + 2 {
        assert(ts_gap(t as int, last as int) > 0x1_0000);
    } else {
        assert(k == h ==> t == same);
        assert(k == h - 1 ==> t == ts_candidate(last, ts16, -1));
        assert(k == h + 1 ==> t == ts_candidate(last, ts16, 1));
    }
}

// --- calls do not disturb each other ----------------------------------------

/// The call that a datagram is addressed to, if any.
pub open spec fn addressee(m: ClientModel, dg: Seq<u8>) -> Option<u16> {
    if full_frame(dg) {
        match FrameModel::parse(dg) {
            Some(f) => Some(f.dst_call),
            None => None,
        }
    } else {
        match MiniModel::parse(dg) {
            Some(f) => if m.remote_index.contains_key(f.src_call) {
                Some(m.remote_index[f.src_call])
            } else {
                None
            },
            None => None,
        }
    }
}

/// The datagram brings a new call.
pub open spec fn brings_call(m: ClientModel, dg: Seq<u8>) -> bool {
    let f = FrameModel::parse(dg);
    full_frame(dg) && f is Some && is_iax(f->0, iax::NEW) && !m.token_for_reg(f->0)
        && !m.token_for_call(f->0)
}

/// A datagram touches no call but the one that it is addressed to. The one
/// exception is a new call when every number is taken: it gets the lowest
/// number.
#[verifier::rlimit(60)]
pub proof fn law_datagram_leaves_other_calls(
    m: ClientModel,
    dg: Seq<u8>,
    now: Instant,
    other: u16,
)
    requires
        m.wf(),
        m.calls.contains_key(other),
        addressee(m, dg) != Some(other),
        brings_call(m, dg) ==> m.calls.dom().len() < CALLNO_COUNT || other != CALLNO_CALL_BASE,
    ensures
        m.on_datagram(dg, now).calls.contains_key(other),
        m.on_datagram(dg, now).calls[other] == m.calls[other],
{
    reveal(ClientModel::on_frame);
    reveal(ClientModel::on_counted);
    if brings_call(m, dg) {
        lemma_new_number_spares(m, other);
    }
}

/// The call that a command names, if any.
pub open spec fn commanded_call(cmd: Command) -> Option<u16> {
    match cmd {
        Command::Dial { .. } => None,
        Command::Answer { call } => Some(call),
        Command::Hangup { call } => Some(call),
        Command::Hold { call } => Some(call),
        Command::Unhold { call } => Some(call),
        Command::SendVoice { call, .. } => Some(call),
        Command::Dtmf { call, .. } => Some(call),
    }
}

/// A command touches no call but the one that it names, and never the
/// registration. The one exception is a number that is dialled when every call
/// number is taken: the call gets the lowest one.
#[verifier::rlimit(60)]
pub proof fn law_command_leaves_other_calls(
    m: ClientModel,
    cmd: Command,
    now: Instant,
    other: u16,
)
    requires
        m.wf(),
        m.calls.contains_key(other),
        commanded_call(cmd) != Some(other),
        cmd is Dial ==> m.calls.dom().len() < CALLNO_COUNT || other != CALLNO_CALL_BASE,
    ensures
        commanded(m, cmd, now).calls.contains_key(other),
        commanded(m, cmd, now).calls[other] == m.calls[other],
        commanded(m, cmd, now).reg == m.reg,
        commanded(m, cmd, now).reg_state == m.reg_state,
{
    if cmd is Dial {
        lemma_new_number_spares(m, other);
    }
}

/// A datagram that is not addressed to the registration leaves it as it is,
/// and one that is addressed to it, and brings no new call, leaves the calls
/// as they are.
#[verifier::rlimit(60)]
pub proof fn law_registration_stands_apart(m: ClientModel, dg: Seq<u8>, now: Instant)
    requires
        m.wf(),
    ensures
        ({
            let after = m.on_datagram(dg, now);
            let f = FrameModel::parse(dg);
            &&& !(full_frame(dg) && f is Some && f->0.dst_call == m.reg.local) ==> after.reg
                == m.reg && after.reg_state == m.reg_state && after.calltoken == m.calltoken
                && after.refresh == m.refresh && after.next_reg == m.next_reg
            &&& full_frame(dg) && f is Some && f->0.dst_call == m.reg.local && !is_iax(
                f->0,
                iax::NEW,
            ) ==> after.calls == m.calls && after.remote_index == m.remote_index
        }),
{
    reveal(ClientModel::on_frame);
    reveal(ClientModel::on_counted);
}

/// A call that ends is gone: nothing is filed under its number, and no number
/// of the peer leads to it, so no audio can reach it.
pub proof fn law_ended_call_is_gone(m: ClientModel, call: u16, reason: Seq<char>, mini: MiniModel)
    requires
        m.wf(),
    ensures
        ({
            let after = m.drop_call(call, reason);
            &&& !after.calls.contains_key(call)
            &&& !after.remote_index.contains_value(call)
            &&& m.calls.contains_key(call) ==> after.events.last() == (EventModel::Ended {
                call,
                reason,
            })
            &&& m.remote_index.contains_key(mini.src_call) && m.remote_index[mini.src_call] == call
                ==> after.on_mini(mini) == after
        }),
{
    let after = m.drop_call(call, reason);
    if after.remote_index.contains_value(call) {
        let k = choose|k: u16| #[trigger]
            after.remote_index.contains_key(k) && after.remote_index[k] == call;
        assert(after.remote_index.contains_key(k));
    }
}

// --- audio and digits -------------------------------------------------------

/// Audio reaches the driver only from a call that is connected.
#[verifier::rlimit(60)]
pub proof fn law_audio_only_when_connected(m: ClientModel, dg: Seq<u8>, now: Instant, i: int)
    requires
        m.wf(),
        m.events.len() <= i < m.on_datagram(dg, now).events.len(),
        m.on_datagram(dg, now).events[i] is Voice,
    ensures
        m.calls.contains_key(m.on_datagram(dg, now).events[i]->Voice_call),
        m.calls[m.on_datagram(dg, now).events[i]->Voice_call].state == CallState::Up,
{
    reveal(ClientModel::on_frame);
    reveal(ClientModel::on_counted);
}

/// What a full audio frame tells the driver of a connected call.
#[verifier::rlimit(60)]
proof fn lemma_full_audio_received(b: ClientModel, dg: Seq<u8>, f: FrameModel, arrival: Instant)
    requires
        b.wf(),
        full_frame(dg),
        FrameModel::parse(dg) == Some(f),
        f.frametype == frametype::VOICE,
        f.ies.len() == 0,
        b.calls.contains_key(f.dst_call),
        b.calls[f.dst_call].state == CallState::Up,
    ensures
        b.on_datagram(dg, arrival).events == b.events.push(
            EventModel::Voice { call: f.dst_call, ts: f.timestamp, ulaw: f.media_payload },
        ),
{
    reveal(ClientModel::on_frame);
    reveal(ClientModel::on_counted);
    assert(token_of(f.ies) is None);
    assert(b.on_frame(f, arrival) == b.on_call_frame(f.dst_call, f, arrival));
}

/// What a digit's frame tells the driver.
#[verifier::rlimit(60)]
proof fn lemma_digit_received(b: ClientModel, dg: Seq<u8>, f: FrameModel, arrival: Instant)
    requires
        b.wf(),
        full_frame(dg),
        FrameModel::parse(dg) == Some(f),
        f.frametype == frametype::DTMF,
        f.ies.len() == 0,
        b.calls.contains_key(f.dst_call),
    ensures
        b.on_datagram(dg, arrival).events == b.events.push(
            EventModel::Dtmf { call: f.dst_call, digit: f.subclass as char },
        ),
{
    reveal(ClientModel::on_frame);
    reveal(ClientModel::on_counted);
    assert(token_of(f.ies) is None);
    assert(b.on_frame(f, arrival) == b.on_call_frame(f.dst_call, f, arrival));
}

/// The frame that the first audio of a connection goes out in.
proof fn lemma_first_audio_sent(
    a: ClientModel,
    call: u16,
    ulaw: Seq<u8>,
    now: Instant,
) -> (r: (Seq<u8>, FrameModel))
    requires
        a.calls.contains_key(call),
        a.calls[call].state == CallState::Up,
        !a.calls[call].sent_format,
        a.calls[call].leg.remote < 0x8000,
    ensures
        a.send_voice(call, ulaw, now).out == a.out.push(r.0),
        a.send_voice(call, ulaw, now).calls[call].sent_format,
        full_frame(r.0),
        FrameModel::parse(r.0) == Some(r.1),
        r.1.frametype == frametype::VOICE,
        r.1.ies.len() == 0,
        r.1.dst_call == a.calls[call].leg.remote,
        r.1.timestamp == a.ts(now),
        r.1.media_payload == ulaw,
{
    let c = a.calls[call];
    let f = c.leg.frame(a.ts(now), frametype::VOICE, (c.fmt % 256) as u8, Seq::empty());
    crate::frame::law_media_roundtrip(f, ulaw);
    (
        f.wire_media(ulaw),
        FrameModel { ies: Seq::empty(), media_payload: ulaw, ..f.narrowed() },
    )
}

/// The mini frame that audio goes out in once the format is declared.
proof fn lemma_audio_sent(a: ClientModel, call: u16, ulaw: Seq<u8>, now: Instant) -> (r: (
    Seq<u8>,
    MiniModel,
))
    requires
        a.calls.contains_key(call),
        a.calls[call].state == CallState::Up,
        a.calls[call].sent_format,
        a.calls[call].leg.local == call,
        call < 0x8000,
    ensures
        a.send_voice(call, ulaw, now).out == a.out.push(r.0),
        !full_frame(r.0),
        MiniModel::parse(r.0) == Some(r.1),
        r.1.src_call == call,
        r.1.timestamp16 == a.ts(now) % 0x1_0000,
        r.1.payload == ulaw,
{
    let mini = MiniModel {
        src_call: call,
        timestamp16: (a.ts(now) % 0x1_0000) as u16,
        payload: ulaw,
    };
    crate::frame::law_mini_roundtrip(mini);
    (mini.wire(), mini)
}

/// What a mini frame tells the driver of a connected call.
proof fn lemma_audio_received(b: ClientModel, dg: Seq<u8>, m: MiniModel, t: u32, arrival: Instant)
    requires
        b.wf(),
        !full_frame(dg),
        MiniModel::parse(dg) == Some(m),
        b.remote_index.contains_key(m.src_call),
        b.calls[b.remote_index[m.src_call]].state == CallState::Up,
        b.calls[b.remote_index[m.src_call]].voice_ts_seen,
        m.timestamp16 == t % 0x1_0000,
        -0x8000 <= t - b.calls[b.remote_index[m.src_call]].last_voice_ts < 0x8000,
    ensures
        b.on_datagram(dg, arrival).events == b.events.push(
            EventModel::Voice { call: b.remote_index[m.src_call], ts: t, ulaw: m.payload },
        ),
{
    law_timestamp_is_completed(b.calls[b.remote_index[m.src_call]].last_voice_ts, t);
    assert(b.on_datagram(dg, arrival) == b.on_mini(m));
}

/// The frame that a digit goes out in.
proof fn lemma_digit_sent(a: ClientModel, call: u16, digit: char, now: Instant) -> (r: (
    Seq<u8>,
    FrameModel,
))
    requires
        a.calls.contains_key(call),
        dtmf_code(digit) is Some,
        a.calls[call].leg.remote < 0x8000,
    ensures
        a.send_dtmf(call, digit, now).out == a.out.push(r.0),
        full_frame(r.0),
        FrameModel::parse(r.0) == Some(r.1),
        r.1.frametype == frametype::DTMF,
        r.1.ies.len() == 0,
        r.1.dst_call == a.calls[call].leg.remote,
        r.1.subclass == dtmf_code(digit)->0,
{
    let c = a.calls[call];
    let f = c.leg.frame(a.ts(now), frametype::DTMF, dtmf_code(digit)->0, Seq::empty());
    crate::frame::law_media_roundtrip(f, Seq::empty());
    assert(f.wire() =~= f.wire_media(Seq::empty()));
    (
        f.wire(),
        FrameModel { ies: Seq::empty(), media_payload: Seq::empty(), ..f.narrowed() },
    )
}

/// What one side sends as audio, the other side's driver gets, octet for octet:
/// the first time in a full frame that also declares the format.
pub proof fn law_first_audio_arrives(
    a: ClientModel,
    b: ClientModel,
    call: u16,
    ulaw: Seq<u8>,
    now: Instant,
    arrival: Instant,
)
    requires
        a.wf(),
        b.wf(),
        a.calls.contains_key(call),
        a.calls[call].state == CallState::Up,
        !a.calls[call].sent_format,
        b.calls.contains_key(a.calls[call].leg.remote),
        b.calls[a.calls[call].leg.remote].state == CallState::Up,
    ensures
        ({
            let sent = a.send_voice(call, ulaw, now);
            let got = b.on_datagram(sent.out.last(), arrival);
            &&& sent.out.len() == a.out.len() + 1
            &&& sent.calls[call].sent_format
            &&& got.events == b.events.push(
                EventModel::Voice {
                    call: a.calls[call].leg.remote,
                    ts: a.ts(now),
                    ulaw,
                },
            )
        }),
{
    assert(a.calls[call].leg.remote <= CALLNO_CALL_LAST);
    let (dg, f) = lemma_first_audio_sent(a, call, ulaw, now);
    lemma_full_audio_received(b, dg, f, arrival);
}

/// What one side sends as audio, the other side's driver gets, octet for octet:
/// once the format is declared in a mini frame, whose timestamp is completed
/// to the sender's if that lies near the last one.
pub proof fn law_audio_arrives(
    a: ClientModel,
    b: ClientModel,
    call: u16,
    ulaw: Seq<u8>,
    now: Instant,
    arrival: Instant,
)
    requires
        a.wf(),
        b.wf(),
        a.calls.contains_key(call),
        a.calls[call].state == CallState::Up,
        a.calls[call].sent_format,
        b.remote_index.contains_key(call),
        b.calls[b.remote_index[call]].state == CallState::Up,
        b.calls[b.remote_index[call]].voice_ts_seen,
        -0x8000 <= a.ts(now) - b.calls[b.remote_index[call]].last_voice_ts < 0x8000,
    ensures
        ({
            let sent = a.send_voice(call, ulaw, now);
            let got = b.on_datagram(sent.out.last(), arrival);
            &&& sent.out.len() == a.out.len() + 1
            &&& got.events == b.events.push(
                EventModel::Voice { call: b.remote_index[call], ts: a.ts(now), ulaw },
            )
        }),
{
    let (dg, m) = lemma_audio_sent(a, call, ulaw, now);
    lemma_audio_received(b, dg, m, a.ts(now), arrival);
}

/// A digit that one side sends, the other side's driver gets: the upper-case
/// form of what was asked for.
pub proof fn law_digit_arrives(
    a: ClientModel,
    b: ClientModel,
    call: u16,
    digit: char,
    now: Instant,
    arrival: Instant,
)
    requires
        a.wf(),
        b.wf(),
        a.calls.contains_key(call),
        dtmf_code(digit) is Some,
        b.calls.contains_key(a.calls[call].leg.remote),
    ensures
        ({
            let sent = a.send_dtmf(call, digit, now);
            let got = b.on_datagram(sent.out.last(), arrival);
            &&& sent.out.len() == a.out.len() + 1
            &&& got.events == b.events.push(
                EventModel::Dtmf {
                    call: a.calls[call].leg.remote,
                    digit: dtmf_code(digit)->0 as char,
                },
            )
        }),
{
    assert(a.calls[call].leg.remote <= CALLNO_CALL_LAST);
    let (dg, f) = lemma_digit_sent(a, call, digit, now);
    lemma_digit_received(b, dg, f, arrival);
}

// --- calls and registrations end to end -------------------------------------

/// The elements of a `NEW` can be encoded faithfully.
proof fn lemma_new_ies_fit(cfg: ConfigModel, called: Seq<char>, token: Seq<u8>)
    requires
        encode_utf8(cfg.username).len() <= 255,
        encode_utf8(called).len() <= 255,
        token.len() <= 255,
    ensures
        all_fit(new_ies(cfg, called, token)),
        text_of(new_ies(cfg, called, token), iet::CALLED_NUMBER) == called,
        text_of(new_ies(cfg, called, token), iet::CALLING_NUMBER) == cfg.username,
        first_of(new_ies(cfg, called, token), iet::CALLTOKEN) == Some(
            (IeModel { kind: iet::CALLTOKEN, data: token }),
        ),
{
    let ies = new_ies(cfg, called, token);
    reveal_strlit("iax2");
    is_ascii_chars_encode_utf8("iax2"@);
    assert forall|i: int| 0 <= i < ies.len() implies (#[trigger] ies[i]).fits() by {}
    reveal_with_fuel(first_of, 9);
    let a = ies.drop_first();
    let b = a.drop_first();
    let c = b.drop_first();
    let d = c.drop_first();
    let e = d.drop_first();
    let f = e.drop_first();
    let g = f.drop_first();
    assert(a[0] == ies[1] && b[0] == ies[2] && c[0] == ies[3] && d[0] == ies[4] && e[0] == ies[5]
        && f[0] == ies[6] && g[0] == ies[7]);
    crate::ie::law_value_roundtrip(iet::CALLED_NUMBER, 0, 0, called);
    crate::ie::law_value_roundtrip(iet::CALLING_NUMBER, 0, 0, cfg.username);
}

/// What one side dials, the other side's driver sees ring, with the number that
/// was dialled and the caller's name. Names and numbers are at most 255 octets
/// long, as an element is.
pub proof fn law_dialled_call_rings(
    a: ClientModel,
    b: ClientModel,
    number: Seq<char>,
    now: Instant,
    arrival: Instant,
)
    requires
        a.wf(),
        b.wf(),
        encode_utf8(a.cfg.username).len() <= 255,
        encode_utf8(number).len() <= 255,
    ensures
        ({
            let sent = a.dial(number, now);
            let got = b.on_datagram(sent.out.last(), arrival);
            let local = b.next_callno();
            &&& sent.out.len() == a.out.len() + 1
            &&& sent.calls[a.next_callno()].state == CallState::Trying
            &&& got.events == b.events.push(
                EventModel::Incoming { call: local, from: a.cfg.username, to: number },
            )
            &&& got.calls[local].state == CallState::Ringing
            &&& got.calls[local].leg.remote == a.next_callno()
            &&& got.remote_index[a.next_callno()] == local
        }),
{
    lemma_new_ies_fit(a.cfg, number, Seq::empty());
    lemma_callno_range(a.calls, a.callno_next, CALLNO_TRIES as nat);
    let local = a.next_callno();
    let f = LegModel::new(local).frame(
        a.ts(now),
        frametype::IAX,
        iax::NEW,
        new_ies(a.cfg, number, Seq::empty()),
    );
    crate::frame::law_command_roundtrip(f);
    assert(f.narrowed() =~= f);
    assert(a.dial(number, now).out =~= a.out.push(f.wire()));
    lemma_new_received(b, f.wire(), f, arrival);
}

/// What a `NEW` without a token does.
proof fn lemma_new_received(b: ClientModel, dg: Seq<u8>, f: FrameModel, arrival: Instant)
    requires
        full_frame(dg),
        FrameModel::parse(dg) == Some(f),
        is_iax(f, iax::NEW),
        token_of(f.ies) is None,
        f.src_call != 0,
    ensures
        ({
            let got = b.on_datagram(dg, arrival);
            let local = b.next_callno();
            &&& got.events == b.events.push(
                EventModel::Incoming {
                    call: local,
                    from: text_of(f.ies, iet::CALLING_NUMBER),
                    to: text_of(f.ies, iet::CALLED_NUMBER),
                },
            )
            &&& got.calls[local].state == CallState::Ringing
            &&& got.calls[local].leg.remote == f.src_call
            &&& got.remote_index[f.src_call] == local
        }),
{
    reveal(ClientModel::on_frame);
    assert(b.on_datagram(dg, arrival) == b.on_incoming_new(f, arrival));
}

/// What a frame of a call that is a command does when it arrives.
proof fn lemma_command_received(b: ClientModel, f: FrameModel, arrival: Instant)
    requires
        b.wf(),
        !crate::frame::carries_media(f.frametype),
        f.media_payload.len() == 0,
        !f.retransmit,
        all_fit(f.ies),
        token_of(f.ies) is None,
        !is_iax(f, iax::NEW),
        f.src_call < 0x8000,
        f.subclass < 128,
        b.calls.contains_key(f.dst_call),
    ensures
        b.on_datagram(f.wire(), arrival) == b.counted(f.dst_call, f).on_counted(
            f.dst_call,
            f,
            arrival,
        ),
{
    assert(f.dst_call <= CALLNO_CALL_LAST);
    crate::frame::law_command_roundtrip(f);
    assert(f.narrowed() =~= f);
    assert(full_frame(f.wire()));
    lemma_routed_to_call(b, f, arrival);
}

/// A call that one side answers is connected on the other side too.
pub proof fn law_answered_call_connects(
    a: ClientModel,
    b: ClientModel,
    call: u16,
    now: Instant,
    arrival: Instant,
)
    requires
        a.wf(),
        b.wf(),
        a.calls.contains_key(call),
        a.calls[call].dir == Dir::In,
        a.calls[call].state == CallState::Ringing,
        b.calls.contains_key(a.calls[call].leg.remote),
    ensures
        ({
            let sent = a.answer(call, now);
            let got = b.on_datagram(sent.out.last(), arrival);
            let there = a.calls[call].leg.remote;
            &&& sent.out.len() == a.out.len() + 1
            &&& sent.calls[call].state == CallState::Up
            &&& sent.events == a.events.push(EventModel::Answered { call })
            &&& got.calls.contains_key(there)
            &&& got.calls[there].state == CallState::Up
            &&& got.events == b.events.push(EventModel::Answered { call: there })
        }),
{
    let f = a.calls[call].leg.frame(
        a.ts(now),
        frametype::CONTROL,
        control::ANSWER,
        Seq::empty(),
    );
    assert(a.answer(call, now).out == a.out.push(f.wire()));
    lemma_command_received(b, f, arrival);
    lemma_answer_counted(b.counted(f.dst_call, f), f.dst_call, f, arrival);
}

proof fn lemma_answer_counted(m: ClientModel, local: u16, f: FrameModel, now: Instant)
    requires
        f.frametype == frametype::CONTROL,
        f.subclass == control::ANSWER,
        m.calls.contains_key(local),
    ensures
        m.on_counted(local, f, now).calls.contains_key(local),
        m.on_counted(local, f, now).calls[local].state == CallState::Up,
        m.on_counted(local, f, now).events == m.events.push(EventModel::Answered { call: local }),
{
    reveal(ClientModel::on_counted);
}

/// A call that one side hangs up ends on both sides, and both drivers are told.
pub proof fn law_hangup_ends_both_sides(
    a: ClientModel,
    b: ClientModel,
    call: u16,
    now: Instant,
    arrival: Instant,
)
    requires
        a.wf(),
        b.wf(),
        a.calls.contains_key(call),
        b.calls.contains_key(a.calls[call].leg.remote),
    ensures
        ({
            let sent = a.hangup(call, now);
            let got = b.on_datagram(sent.out.last(), arrival);
            let there = a.calls[call].leg.remote;
            &&& sent.out.len() == a.out.len() + 1
            &&& !sent.calls.contains_key(call)
            &&& sent.events == a.events.push(
                EventModel::Ended { call, reason: "local hangup"@ },
            )
            &&& !got.calls.contains_key(there)
            &&& got.events == b.events.push(
                EventModel::Ended { call: there, reason: "hangup by remote"@ },
            )
        }),
{
    let cause = IeModel::of_str(iet::CAUSE, "Normal Clearing"@);
    let f = a.calls[call].leg.frame(a.ts(now), frametype::IAX, iax::HANGUP, seq![cause]);
    reveal_strlit("Normal Clearing");
    is_ascii_chars_encode_utf8("Normal Clearing"@);
    assert(f.ies[0] == cause);
    assert(all_fit(f.ies));
    assert(first_of(f.ies, iet::CALLTOKEN) is None) by {
        reveal_with_fuel(first_of, 2);
    }
    assert(a.hangup(call, now).out == a.out.push(f.wire()));
    lemma_command_received(b, f, arrival);
    lemma_hangup_counted(b.counted(f.dst_call, f), f.dst_call, f, arrival);
}

proof fn lemma_hangup_counted(m: ClientModel, local: u16, f: FrameModel, now: Instant)
    requires
        is_iax(f, iax::HANGUP),
        m.calls.contains_key(local),
    ensures
        !m.on_counted(local, f, now).calls.contains_key(local),
        m.on_counted(local, f, now).events == m.events.push(
            EventModel::Ended { call: local, reason: "hangup by remote"@ },
        ),
{
    reveal(ClientModel::on_counted);
}

/// Comfort noise is acknowledged, and nothing more: no audio, no event.
pub proof fn law_comfort_noise_is_silent(m: ClientModel, f: FrameModel, now: Instant)
    requires
        m.wf(),
        m.calls.contains_key(f.dst_call),
        f.frametype == frametype::CNG,
        token_of(f.ies) is None,
    ensures
        m.on_frame(f, now).events == m.events,
        m.on_frame(f, now).out == m.out.push(
            m.counted(f.dst_call, f).calls[f.dst_call].leg.ack(m.ts(now)),
        ),
{
    lemma_routed_to_call(m, f, now);
    reveal(ClientModel::on_counted);
}

/// A challenge that offers MD5 is answered with a request that is sent reliably,
/// acknowledges the challenge, and holds the digest of the challenge and the
/// account's secret beside the account's name.
pub proof fn law_challenge_is_answered(m: ClientModel, f: FrameModel, now: Instant, c: IeModel)
    requires
        m.wf(),
        is_iax(f, iax::REGAUTH),
        f.dst_call == m.reg.local,
        token_of(f.ies) is None,
        offers_md5(f.ies),
        first_of(f.ies, iet::CHALLENGE) == Some(c),
    ensures
        ({
            let after = m.on_frame(f, now);
            let request = m.reg.received(f).frame(
                m.ts(now),
                frametype::IAX,
                iax::REGREQ,
                m.reg_ies().insert(
                    1,
                    IeModel::of_str(
                        iet::MD5_RESULT,
                        crate::md5_answer(c.to_str(), m.cfg.secret),
                    ),
                ),
            );
            &&& after.out == m.out.push(request.wire())
            &&& after.reg.outstanding.last().bytes == request.wire()
            &&& request.iseq == crate::leg::next_seq(f.oseq)
            &&& text_of(request.ies, iet::MD5_RESULT) == crate::md5_answer(
                c.to_str(),
                m.cfg.secret,
            )
            &&& text_of(request.ies, iet::USERNAME) == m.cfg.username
        }),
{
    reveal(ClientModel::on_frame);
    let a = ClientModel { reg: m.reg.received(f), ..m };
    let answer = crate::md5_answer(c.to_str(), m.cfg.secret);
    let ies = a.reg_ies().insert(1, IeModel::of_str(iet::MD5_RESULT, answer));
    assert(m.on_frame(f, now) == m.on_reg_frame(f, now));
    assert(ies[0] == IeModel::of_str(iet::USERNAME, m.cfg.username));
    assert(ies.drop_first()[0] == ies[1]);
    reveal_with_fuel(first_of, 3);
    crate::ie::law_value_roundtrip(iet::MD5_RESULT, 0, 0, answer);
    crate::ie::law_value_roundtrip(iet::USERNAME, 0, 0, m.cfg.username);
}

/// An outbound call that is challenged answers with the digest of the challenge
/// and the account's secret, in a frame that is sent reliably and acknowledges
/// the challenge.
pub proof fn law_call_challenge_is_answered(
    m: ClientModel,
    f: FrameModel,
    now: Instant,
    c: IeModel,
)
    requires
        m.wf(),
        is_iax(f, iax::AUTHREQ),
        m.calls.contains_key(f.dst_call),
        m.calls[f.dst_call].dir == Dir::Out,
        token_of(f.ies) is None,
        offers_md5(f.ies),
        first_of(f.ies, iet::CHALLENGE) == Some(c),
    ensures
        ({
            let after = m.on_frame(f, now);
            let reply = m.calls[f.dst_call].leg.received(f).frame(
                m.ts(now),
                frametype::IAX,
                iax::AUTHREP,
                seq![
                    IeModel::of_str(
                        iet::MD5_RESULT,
                        crate::md5_answer(c.to_str(), m.cfg.secret),
                    ),
                ],
            );
            &&& after.out == m.out.push(reply.wire())
            &&& after.calls[f.dst_call].leg.outstanding.last().bytes == reply.wire()
            &&& reply.iseq == crate::leg::next_seq(f.oseq)
            &&& after.events == m.events
        }),
{
    lemma_routed_to_call(m, f, now);
    reveal(ClientModel::on_counted);
}

/// A confirmed registration is told to the driver, acknowledged, and renewed
/// after four fifths of the refresh that the exchange granted.
pub proof fn law_confirmed_registration(m: ClientModel, f: FrameModel, now: Instant)
    requires
        is_iax(f, iax::REGACK),
        f.dst_call == m.reg.local,
        token_of(f.ies) is None,
        now.in_range(),
    ensures
        ({
            let after = m.on_frame(f, now);
            &&& after.reg_state == RegState::Registered
            &&& after.events == m.events.push(EventModel::Registered)
            &&& after.out == m.out.push(m.reg.received(f).ack(m.ts(now)))
            &&& after.next_reg.nanos == now.nanos + after.refresh * 4 / 5 * 1_000_000_000
            &&& after.refresh == m.refresh_after(f)
        }),
{
    reveal(ClientModel::on_frame);
}

} // verus!
