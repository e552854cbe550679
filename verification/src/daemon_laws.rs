//! What the telephone that stays registered says and does, as its exchange and
//! its user see it.

use vstd::prelude::*;
use vstd::utf8::*;

use crate::action::ActionModel;
use crate::call_laws::{
    holds_u32, law_offer_is_read, law_token_is_read, md5_offered, no_token, says,
};
use crate::client_model::{cause_code, text_of};
use crate::frame::{
    full_frame, law_command_roundtrip, law_media_roundtrip, law_mini_roundtrip, FrameModel,
    MiniModel,
};
use crate::frame_laws::{
    lacks, law_full_frame_is_read, law_search_finds_the_first, leads, lemma_leader_is_found,
};
use crate::g711::{pcm_block, ulaw_block};
use crate::ie::{all_fit, IeModel};
use crate::leg::LegModel;
use crate::leg_laws::{law_leg_speaks, speaks};
use crate::regdaemon::{registration_ies, DaemonModel, OneCallModel, PendingModel};
use crate::registration_laws::{asks_to_register, token_octets};
use crate::text::{debug_option, decimal, hex2};
use crate::time::Instant;

verus! {

/// A datagram for the exchange.
pub open spec fn to_exchange(datagram: Seq<u8>) -> ActionModel {
    ActionModel::Send { pbx: 0, datagram }
}

/// The leg after it built one more frame.
pub open spec fn one_further(leg: LegModel) -> LegModel {
    LegModel { oseq: ((leg.oseq + 1) % 256) as u8, ..leg }
}

/// These octets wait for their acknowledgement, for 700 ms, and were not sent
/// again yet.
pub open spec fn waits_for(p: Option<PendingModel>, bytes: Seq<u8>, now: Instant) -> bool {
    &&& p is Some
    &&& p->0.bytes == bytes
    &&& p->0.deadline.nanos == now.nanos + 700_000_000
    &&& p->0.tries == 0
}

/// A new telephone is not registered, has no call, and registers at once; its
/// timestamps count milliseconds from now.
pub proof fn law_new_telephone(
    username: Seq<char>,
    secret: Seq<char>,
    refresh: u16,
    now: Instant,
    later: Instant,
)
    requires
        later.nanos >= now.nanos,
    ensures
        ({
            let m = DaemonModel::new(username, secret, refresh, now);
            &&& m.username == username && m.secret == secret && m.refresh == refresh
            &&& m.start == now && m.next_reg == now && m.reg == LegModel::new(1)
            &&& m.call is None && m.calltoken is None && m.pending is None && !m.registered
            &&& m.todo.len() == 0
            &&& m.ts(later) == (later.nanos - now.nanos) / 1_000_000 % 0x1_0000_0000
        }),
{
}

proof fn lemma_leads_at(ies: Seq<IeModel>, i: int)
    requires
        0 <= i < ies.len(),
        forall|j: int| 0 <= j < i ==> (#[trigger] ies[j]).kind != ies[i].kind,
    ensures
        leads(ies, ies[i]),
{
}

proof fn lemma_request(username: Seq<char>, refresh: u16, token: Option<Seq<u8>>)
    requires
        encode_utf8(username).len() <= 255,
        token_octets(token).len() <= 255,
    ensures
        asks_to_register(
            registration_ies(username, refresh, token),
            username,
            refresh,
            token_octets(token),
        ),
        all_fit(registration_ies(username, refresh, token)),
        registration_ies(username, refresh, token).len() == 3,
{
    let ies = registration_ies(username, refresh, token);
    lemma_leads_at(ies, 0);
    lemma_leads_at(ies, 1);
    lemma_leads_at(ies, 2);
    assert(leads(ies, ies[1]));
    assert forall|i: int| 0 <= i < ies.len() implies (#[trigger] ies[i]).fits() by {}
}

// --- the clocks -----------------------------------------------------------------

/// With nothing in flight, a registration that is due is asked for from a fresh
/// leg, with the name, the refresh and an empty token; it waits for its
/// acknowledgement, and the next one waits at least 10 s. One line is printed.
pub proof fn law_telephone_registers(m: DaemonModel, now: Instant)
    requires
        now.in_range(),
        m.pending is None,
        now.nanos >= m.next_reg.nanos,
        encode_utf8(m.username).len() <= 255,
    ensures
        ({
            let after = m.on_house(now);
            let line = after.todo[m.todo.len() as int];
            let send = after.todo[m.todo.len() as int + 1];
            let dg = send->Send_datagram;
            let f = FrameModel::parse(dg);
            &&& line == ActionModel::Say(
                if m.registered {
                    "[>] REGREQ (refresh)"@
                } else {
                    "[>] REGREQ (initial)"@
                },
            )
            &&& send == to_exchange(dg)
            &&& f is Some
            &&& speaks(dg, LegModel::new(m.reg.local), m.ts(now), 6, 13, f->0.ies)
            &&& f->0.ies.len() == 3
            &&& asks_to_register(f->0.ies, m.username, m.refresh, Seq::empty())
            &&& waits_for(after.pending, dg, now)
            &&& after.next_reg.nanos == now.nanos + 10_000_000_000
            &&& after == (DaemonModel {
                reg: one_further(LegModel::new(m.reg.local)),
                calltoken: None,
                pending: after.pending,
                next_reg: after.next_reg,
                todo: m.todo.push(line).push(send),
                ..m
            })
        }),
{
    let leg = LegModel::new(m.reg.local);
    let ies = registration_ies(m.username, m.refresh, None);
    lemma_request(m.username, m.refresh, None);
    law_leg_speaks(leg, m.ts(now), 6, 13, ies);
    let after = m.on_house(now);
    assert(after == m.reregistered(now));
}

/// The frame in flight: while its wait lasts nothing happens; then it is sent
/// again, as it was, up to five times, 700 ms apart; and then it is given up,
/// the telephone is not registered any more and tries again in 3 s.
pub proof fn law_frame_in_flight(m: DaemonModel, now: Instant)
    requires
        now.in_range(),
        m.wf(),
    ensures
        ({
            let after = m.on_house(now);
            let p = m.pending->0;
            let warning = ActionModel::Warn("[!] no ACK after "@ + decimal(5) + " retransmissions"@);
            &&& m.pending is Some && now.nanos < p.deadline.nanos ==> after == m
            &&& m.pending is Some && now.nanos >= p.deadline.nanos && p.tries < 5 ==> after == (
            DaemonModel {
                pending: Some(
                    PendingModel {
                        bytes: p.bytes,
                        deadline: Instant { nanos: (now.nanos + 700_000_000) as u64 },
                        tries: (p.tries + 1) as u32,
                    },
                ),
                todo: m.todo.push(to_exchange(p.bytes)),
                ..m
            })
            &&& m.pending is Some && now.nanos >= p.deadline.nanos && p.tries >= 5 ==> after == (
            DaemonModel {
                pending: None,
                registered: false,
                next_reg: Instant { nanos: (now.nanos + 3_000_000_000) as u64 },
                todo: m.todo.push(warning),
                ..m
            })
            &&& m.pending is None && now.nanos < m.next_reg.nanos ==> after == m
        }),
{
}

/// A telephone that is registered holds its way open with a `POKE` from number
/// 4; one that is not sends none.
pub proof fn law_telephone_keepalive(m: DaemonModel, now: Instant)
    ensures
        ({
            let after = m.on_keepalive(now);
            let dg = after.todo.last()->Send_datagram;
            &&& !m.registered ==> after == m
            &&& m.registered ==> after == (DaemonModel {
                todo: m.todo.push(to_exchange(dg)),
                ..m
            }) && FrameModel::parse(dg) == Some(
                FrameModel {
                    src_call: 4,
                    dst_call: 0,
                    retransmit: false,
                    timestamp: m.ts(now),
                    oseq: 0,
                    iseq: 0,
                    frametype: 6,
                    subclass: 30,
                    ies: Seq::empty(),
                    media_payload: Seq::empty(),
                },
            )
        }),
{
    let poke = FrameModel::new(4, 0, m.ts(now), 0, 0, 6, 30, Seq::empty());
    law_command_roundtrip(poke);
    assert(poke.narrowed() =~= poke);
}

/// What is recorded goes out frame by frame while there is an answered call: the
/// first in a full frame of u-law, which is counted, the rest in mini frames
/// with the low half of the timestamp; without an answered call nothing does.
pub proof fn law_telephone_speaks(
    m: DaemonModel,
    frames: Seq<Seq<i16>>,
    pcm: Seq<i16>,
    now: Instant,
)
    requires
        m.call is Some ==> m.call->0.leg.local < 0x8000 && m.call->0.leg.remote < 0x8000,
    ensures
        m.on_mic(Seq::empty(), now) == m,
        !(m.call is Some && m.call->0.answered) ==> m.on_mic(frames, now) == m,
        m.call is Some && m.call->0.answered ==> m.on_mic(frames.push(pcm), now) == m.on_mic(
            frames,
            now,
        ).voiced(pcm, now),
        m.call is Some ==> ({
            let after = m.voiced(pcm, now);
            let c = m.call->0;
            let dg = after.todo.last()->Send_datagram;
            &&& after == (DaemonModel {
                call: after.call,
                todo: m.todo.push(to_exchange(dg)),
                ..m
            })
            &&& !c.sent_format ==> after.call == Some(
                OneCallModel { leg: one_further(c.leg), sent_format: true, answered: c.answered },
            ) && FrameModel::parse(dg) == Some(
                FrameModel {
                    src_call: c.leg.local,
                    dst_call: c.leg.remote,
                    retransmit: false,
                    timestamp: m.ts(now),
                    oseq: c.leg.oseq,
                    iseq: c.leg.iseq,
                    frametype: 2,
                    subclass: 4,
                    ies: Seq::empty(),
                    media_payload: ulaw_block(pcm),
                },
            )
            &&& c.sent_format ==> after.call == m.call && MiniModel::parse(dg) == Some(
                MiniModel {
                    src_call: c.leg.local,
                    timestamp16: (m.ts(now) % 0x1_0000) as u16,
                    payload: ulaw_block(pcm),
                },
            )
        }),
{
    assert(frames.push(pcm).drop_last() =~= frames);
    if m.call is Some {
        let c = m.call->0;
        let f = c.leg.frame(m.ts(now), 2, 4, Seq::empty());
        law_media_roundtrip(f, ulaw_block(pcm));
        assert(f.narrowed() =~= f);
        law_mini_roundtrip(
            MiniModel {
                src_call: c.leg.local,
                timestamp16: (m.ts(now) % 0x1_0000) as u16,
                payload: ulaw_block(pcm),
            },
        );
    }
}

// --- datagrams --------------------------------------------------------------------

/// The telephone after a full frame of its registration or of its call took what
/// is in flight off its hands; a frame of anyone else does not.
pub open spec fn relieved(m: DaemonModel, f: FrameModel) -> DaemonModel {
    DaemonModel {
        pending: if f.dst_call == m.reg.local || (m.call is Some && f.dst_call
            == m.call->0.leg.local) {
            None
        } else {
            m.pending
        },
        ..m
    }
}

/// The datagram is this full frame.
pub open spec fn is_frame(dg: Seq<u8>, f: FrameModel) -> bool {
    full_frame(dg) && FrameModel::parse(dg) == Some(f)
}

/// A mini frame is played, decoded, if there is a call, and dropped otherwise;
/// what is no frame is ignored.
pub proof fn law_telephone_hears_audio(m: DaemonModel, dg: Seq<u8>, p: MiniModel, now: Instant)
    ensures
        !full_frame(dg) && MiniModel::parse(dg) == Some(p) && m.call is Some ==> m.on_datagram(
            dg,
            now,
        ) == (DaemonModel { todo: m.todo.push(ActionModel::Play(pcm_block(p.payload))), ..m }),
        !full_frame(dg) && (m.call is None || MiniModel::parse(dg) is None) ==> m.on_datagram(
            dg,
            now,
        ) == m,
        full_frame(dg) && FrameModel::parse(dg) is None ==> m.on_datagram(dg, now) == m,
{
}

/// A qualify is answered with a `PONG` of the same timestamp to the number that
/// asked, from the number that was asked or from 3, whichever is higher; one
/// line is printed.
#[verifier::rlimit(40)]
pub proof fn law_telephone_answers_a_qualify(
    m: DaemonModel,
    dg: Seq<u8>,
    f: FrameModel,
    now: Instant,
)
    requires
        is_frame(dg, f),
        f.frametype == 6 && (f.subclass == 30 || f.subclass == 2),
    ensures
        ({
            let after = m.on_datagram(dg, now);
            let line = ActionModel::Say(
                (if f.subclass == 30 {
                    "[i] qualify POKE"@
                } else {
                    "[i] qualify PING"@
                }) + " dal PBX (src_call="@ + decimal(f.src_call as nat) + ") -> PONG"@,
            );
            let pong = after.todo[m.todo.len() as int + 1]->Send_datagram;
            &&& after == (DaemonModel {
                todo: m.todo.push(line).push(to_exchange(pong)),
                ..relieved(m, f)
            })
            &&& FrameModel::parse(pong) == Some(
                FrameModel {
                    src_call: if f.dst_call > 3 {
                        f.dst_call
                    } else {
                        3
                    },
                    dst_call: f.src_call,
                    retransmit: false,
                    timestamp: f.timestamp,
                    oseq: 0,
                    iseq: ((f.oseq + 1) % 256) as u8,
                    frametype: 6,
                    subclass: 3,
                    ies: Seq::empty(),
                    media_payload: Seq::empty(),
                },
            )
        }),
{
    assert(f.src_call < 0x8000 && f.dst_call < 0x8000) by {
        law_full_frame_is_read(dg);
    }
    let pong = FrameModel::new(
        if f.dst_call > 3 {
            f.dst_call
        } else {
            3
        },
        f.src_call,
        f.timestamp,
        0,
        ((f.oseq + 1) % 256) as u8,
        6,
        3,
        Seq::empty(),
    );
    law_command_roundtrip(pong);
    assert(pong.narrowed() =~= pong);
}

/// A call that arrives while there is none is accepted in u-law and answered,
/// from a leg of its own that has heard it; the answer waits for its
/// acknowledgement; the audio is dropped, and two lines are printed.
#[verifier::rlimit(60)]
pub proof fn law_telephone_takes_a_call(m: DaemonModel, dg: Seq<u8>, f: FrameModel, now: Instant)
    requires
        now.in_range(),
        is_frame(dg, f),
        f.frametype == 6 && f.subclass == 1,
        m.call is None,
    ensures
        ({
            let after = m.on_datagram(dg, now);
            let n = m.todo.len() as int;
            let leg = LegModel::new(2).note_recv(f);
            let accept = after.todo[n + 1]->Send_datagram;
            let answer = after.todo[n + 2]->Send_datagram;
            let a = FrameModel::parse(accept);
            &&& after.todo == m.todo.push(after.todo[n]).push(to_exchange(accept)).push(
                to_exchange(answer),
            ).push(ActionModel::FlushAudio).push(after.todo[n + 4])
            &&& after.todo[n] == ActionModel::Say(
                "[☎] INCOMING CALL FROM '"@ + text_of(f.ies, 2) + "' to '"@ + text_of(f.ies, 1)
                    + "'"@,
            )
            &&& after.todo[n + 4] == ActionModel::Say("[✓] ANSWERED — audio on"@)
            &&& a is Some
            &&& speaks(accept, leg, m.ts(now), 6, 7, a->0.ies)
            &&& a->0.ies.len() == 1
            &&& holds_u32(a->0.ies, 9, 4)
            &&& speaks(answer, one_further(leg), m.ts(now), 4, 4, Seq::empty())
            &&& after.call == Some(
                OneCallModel {
                    leg: one_further(one_further(leg)),
                    answered: true,
                    sent_format: false,
                },
            )
            &&& waits_for(after.pending, answer, now)
            &&& after == (DaemonModel {
                call: after.call,
                pending: after.pending,
                todo: after.todo,
                ..m
            })
        }),
{
    let leg = LegModel::new(2).note_recv(f);
    let ies = seq![IeModel::of_u32(9, 4)];
    assert(ies[0].fits());
    lemma_leads_at(ies, 0);
    law_leg_speaks(leg, m.ts(now), 6, 7, ies);
    law_leg_speaks(one_further(leg), m.ts(now), 4, 4, Seq::empty());
    let after = m.on_datagram(dg, now);
    let accept = leg.frame(m.ts(now), 6, 7, ies).wire();
    let answer = one_further(leg).frame(m.ts(now), 4, 4, Seq::empty()).wire();
    let n = m.todo.len() as int;
    assert(after.todo[n + 1] == to_exchange(accept));
    assert(after.todo[n + 2] == to_exchange(answer));
    assert(after.todo =~= m.todo.push(after.todo[n]).push(to_exchange(accept)).push(
        to_exchange(answer),
    ).push(ActionModel::FlushAudio).push(after.todo[n + 4]));
}

/// A second call is refused as busy, from number 99 to the number that called,
/// with the sequence number after its own; the call that there is goes on.
pub proof fn law_telephone_is_busy(m: DaemonModel, dg: Seq<u8>, f: FrameModel, now: Instant)
    requires
        is_frame(dg, f),
        f.frametype == 6 && f.subclass == 1,
        m.call is Some,
    ensures
        ({
            let after = m.on_datagram(dg, now);
            let dg2 = after.todo.last()->Send_datagram;
            &&& after == (DaemonModel {
                todo: m.todo.push(to_exchange(dg2)),
                ..relieved(m, f)
            })
            &&& FrameModel::parse(dg2) == Some(
                FrameModel {
                    src_call: 99,
                    dst_call: f.src_call,
                    retransmit: false,
                    timestamp: m.ts(now),
                    oseq: 0,
                    iseq: ((f.oseq + 1) % 256) as u8,
                    frametype: 6,
                    subclass: 6,
                    ies: seq![IeModel { kind: 22, data: encode_utf8("Busy"@) }],
                    media_payload: Seq::empty(),
                },
            )
        }),
{
    assert(f.src_call < 0x8000 && f.dst_call < 0x8000) by {
        law_full_frame_is_read(dg);
    }
    let ies = seq![IeModel { kind: 22, data: encode_utf8("Busy"@) }];
    let rej = FrameModel::new(
        99,
        f.src_call,
        m.ts(now),
        0,
        ((f.oseq + 1) % 256) as u8,
        6,
        6,
        ies,
    );
    reveal_strlit("Busy");
    is_ascii_chars_encode_utf8("Busy"@);
    assert(ies[0].fits());
    assert(all_fit(rej.ies));
    law_command_roundtrip(rej);
    assert(rej.narrowed() =~= rej);
}

/// The frame is no qualify and no request for a call.
pub open spec fn is_plain(f: FrameModel) -> bool {
    !(f.frametype == 6 && (f.subclass == 30 || f.subclass == 2 || f.subclass == 1))
}

/// The first token that comes is taken, and the registration is asked for again
/// from a fresh leg, unchanged but for the token.
pub proof fn law_telephone_gets_a_token(
    m: DaemonModel,
    dg: Seq<u8>,
    f: FrameModel,
    token: Seq<u8>,
    now: Instant,
)
    requires
        now.in_range(),
        is_frame(dg, f),
        is_plain(f),
        m.calltoken is None,
        leads(f.ies, IeModel { kind: 54, data: token }),
        0 < token.len() <= 255,
        encode_utf8(m.username).len() <= 255,
    ensures
        ({
            let after = m.on_datagram(dg, now);
            let sent = after.todo.last()->Send_datagram;
            let g = FrameModel::parse(sent);
            &&& g is Some
            &&& speaks(sent, LegModel::new(m.reg.local), m.ts(now), 6, 13, g->0.ies)
            &&& g->0.ies.len() == 3
            &&& asks_to_register(g->0.ies, m.username, m.refresh, token)
            &&& waits_for(after.pending, sent, now)
            &&& after == (DaemonModel {
                reg: one_further(LegModel::new(m.reg.local)),
                calltoken: Some(token),
                pending: after.pending,
                todo: m.todo.push(to_exchange(sent)),
                ..m
            })
        }),
{
    law_token_is_read(f.ies, IeModel { kind: 54, data: token });
    lemma_request(m.username, m.refresh, Some(token));
    law_leg_speaks(
        LegModel::new(m.reg.local),
        m.ts(now),
        6,
        13,
        registration_ies(m.username, m.refresh, Some(token)),
    );
}

/// The frame goes to the registration.
pub open spec fn for_registration(m: DaemonModel, dg: Seq<u8>, f: FrameModel) -> bool {
    &&& is_frame(dg, f)
    &&& is_plain(f)
    &&& no_token(f.ies) || m.calltoken is Some
    &&& f.dst_call == m.reg.local
}

/// The registration is confirmed: what the exchange grants is taken if it is
/// more than nothing, and the registration is renewed after four fifths of it;
/// the frame is acknowledged, and one line is printed.
pub proof fn law_telephone_is_registered(
    m: DaemonModel,
    dg: Seq<u8>,
    f: FrameModel,
    e: IeModel,
    now: Instant,
)
    requires
        now.in_range(),
        for_registration(m, dg, f),
        f.subclass == 15,
    ensures
        ({
            let after = m.on_datagram(dg, now);
            let n = m.todo.len() as int;
            let ack = after.todo[n]->Send_datagram;
            let leg = m.reg.note_recv(f);
            let granted = e.data[0] * 0x100 + e.data[1];
            let read = leads(f.ies, e) && e.kind == 19 && e.data.len() == 2;
            &&& read && granted > 0 ==> after.refresh == granted
            &&& read && granted == 0 || lacks(f.ies, 19) || leads(f.ies, e) && e.kind == 19
                && e.data.len() != 2 ==> after.refresh == m.refresh
            &&& after.next_reg.nanos == now.nanos + after.refresh * 4 / 5 * 1_000_000_000
            &&& speaks(ack, leg, m.ts(now), 6, 4, Seq::empty())
            &&& after.todo[n + 1] == ActionModel::Say(
                "[✓] REGISTERED (refresh "@ + decimal(after.refresh as nat) + "s, next ~"@
                    + decimal((after.refresh * 4 / 5) as nat) + "s)"@,
            )
            &&& after == (DaemonModel {
                reg: leg,
                refresh: after.refresh,
                registered: true,
                next_reg: after.next_reg,
                pending: None,
                todo: m.todo.push(to_exchange(ack)).push(after.todo[n + 1]),
                ..m
            })
        }),
{
    law_token_is_read(f.ies, IeModel { kind: 54, data: Seq::empty() });
    law_search_finds_the_first(f.ies, 19);
    if leads(f.ies, e) && e.kind == 19 {
        lemma_leader_is_found(f.ies, e);
    }
    law_leg_speaks(m.reg.note_recv(f), m.ts(now), 6, 4, Seq::empty());
}

/// The registration is refused: the telephone is not registered, forgets its
/// token and tries again in 5 s; the frame is acknowledged.
pub proof fn law_telephone_is_refused(m: DaemonModel, dg: Seq<u8>, f: FrameModel, now: Instant)
    requires
        now.in_range(),
        for_registration(m, dg, f),
        f.subclass == 16,
    ensures
        ({
            let after = m.on_datagram(dg, now);
            let n = m.todo.len() as int;
            let ack = after.todo[n + 1]->Send_datagram;
            let leg = m.reg.note_recv(f);
            &&& after.todo[n] == ActionModel::Warn(
                "[x] REGREJ causecode="@ + debug_option(cause_code(f.ies)) + " — I will retry "@,
            )
            &&& speaks(ack, leg, m.ts(now), 6, 4, Seq::empty())
            &&& after.next_reg.nanos == now.nanos + 5_000_000_000
            &&& after == (DaemonModel {
                reg: leg,
                calltoken: None,
                registered: false,
                next_reg: after.next_reg,
                pending: None,
                todo: m.todo.push(after.todo[n]).push(to_exchange(ack)),
                ..m
            })
        }),
{
    law_token_is_read(f.ies, IeModel { kind: 54, data: Seq::empty() });
    law_leg_speaks(m.reg.note_recv(f), m.ts(now), 6, 4, Seq::empty());
}

/// The registration is challenged: it is asked for again, with the MD5 of the
/// challenge and the secret beside the name, the refresh and the token. Without
/// an offer of MD5, or without a challenge, nothing is sent.
pub proof fn law_telephone_is_challenged(
    m: DaemonModel,
    dg: Seq<u8>,
    f: FrameModel,
    c: IeModel,
    now: Instant,
)
    requires
        now.in_range(),
        for_registration(m, dg, f),
        f.subclass == 14,
        encode_utf8(m.username).len() <= 255,
        token_octets(m.calltoken).len() <= 255,
    ensures
        ({
            let after = m.on_datagram(dg, now);
            let leg = m.reg.note_recv(f);
            let answer = crate::md5_answer(c.to_str(), m.secret);
            let sent = after.todo.last()->Send_datagram;
            let g = FrameModel::parse(sent);
            &&& md5_offered(f.ies) && leads(f.ies, c) && c.kind == 15 && encode_utf8(answer).len()
                <= 255 ==> {
                &&& g is Some
                &&& speaks(sent, leg, m.ts(now), 6, 13, g->0.ies)
                &&& g->0.ies.len() == 4
                &&& asks_to_register(g->0.ies, m.username, m.refresh, token_octets(m.calltoken))
                &&& says(g->0.ies, 16, answer)
                &&& waits_for(after.pending, sent, now)
                &&& after == (DaemonModel {
                    reg: one_further(leg),
                    pending: after.pending,
                    todo: m.todo.push(to_exchange(sent)),
                    ..m
                })
            }
            &&& !md5_offered(f.ies) || lacks(f.ies, 15) ==> after == (DaemonModel {
                reg: leg,
                pending: None,
                todo: m.todo.push(
                    ActionModel::Warn(
                        if !md5_offered(f.ies) {
                            "[x] no MD5 in REGAUTH"@
                        } else {
                            "[x] REGAUTH without challenge"@
                        },
                    ),
                ),
                ..m
            })
        }),
{
    law_token_is_read(f.ies, IeModel { kind: 54, data: Seq::empty() });
    law_offer_is_read(f.ies);
    law_search_finds_the_first(f.ies, 15);
    let leg = m.reg.note_recv(f);
    if leads(f.ies, c) && c.kind == 15 {
        lemma_leader_is_found(f.ies, c);
        let answer = crate::md5_answer(c.to_str(), m.secret);
        if md5_offered(f.ies) && encode_utf8(answer).len() <= 255 {
            let base = registration_ies(m.username, m.refresh, m.calltoken);
            lemma_request(m.username, m.refresh, m.calltoken);
            let ies = base.insert(1, IeModel { kind: 16, data: encode_utf8(answer) });
            assert(ies[0] == base[0] && ies[2] == base[1] && ies[3] == base[2]);
            assert(ies.len() == 4);
            lemma_leads_at(ies, 0);
            lemma_leads_at(ies, 1);
            lemma_leads_at(ies, 2);
            lemma_leads_at(ies, 3);
            assert(leads(ies, ies[2]));
            assert forall|i: int| 0 <= i < ies.len() implies (#[trigger] ies[i]).fits() by {
                assert(i == 0 || i == 1 || i == 2 || i == 3);
                assert(base[0].fits() && base[1].fits() && base[2].fits());
            }
            law_leg_speaks(leg, m.ts(now), 6, 13, ies);
        }
    }
}

/// An `ACK` or a token that comes too late is only heard; anything else on the
/// registration is heard and printed.
pub proof fn law_telephone_other_registration_frames(
    m: DaemonModel,
    dg: Seq<u8>,
    f: FrameModel,
    now: Instant,
)
    requires
        for_registration(m, dg, f),
        f.subclass != 14 && f.subclass != 15 && f.subclass != 16,
    ensures
        ({
            let after = m.on_datagram(dg, now);
            let h = DaemonModel { reg: m.reg.note_recv(f), pending: None, ..m };
            &&& f.subclass == 4 || f.subclass == 40 ==> after == h
            &&& f.subclass != 4 && f.subclass != 40 ==> after == (DaemonModel {
                todo: m.todo.push(
                    ActionModel::Say("[i] reg leg subclass=0x"@ + hex2(f.subclass)),
                ),
                ..h
            })
        }),
{
    law_token_is_read(f.ies, IeModel { kind: 54, data: Seq::empty() });
}

/// A frame of the call: audio is played and acknowledged; an `ACK` is only heard;
/// a `HANGUP` ends the call, is acknowledged, and drops the audio; a signal is
/// acknowledged; anything else is printed and acknowledged.
pub proof fn law_telephone_hears_the_call(
    m: DaemonModel,
    dg: Seq<u8>,
    f: FrameModel,
    now: Instant,
)
    requires
        is_frame(dg, f),
        is_plain(f),
        no_token(f.ies) || m.calltoken is Some,
        m.call is Some,
        f.dst_call == m.call->0.leg.local,
        f.dst_call != m.reg.local,
    ensures
        ({
            let after = m.on_datagram(dg, now);
            let n = m.todo.len() as int;
            let leg = m.call->0.leg.note_recv(f);
            let h = DaemonModel {
                call: Some(OneCallModel { leg, ..m.call->0 }),
                pending: None,
                ..m
            };
            let is_ack = f.frametype == 6 && f.subclass == 4;
            let is_end = f.frametype == 6 && f.subclass == 5;
            let first = after.todo[n]->Send_datagram;
            let second = after.todo[n + 1]->Send_datagram;
            &&& is_ack ==> after == h
            &&& f.frametype == 2 ==> speaks(second, leg, m.ts(now), 6, 4, Seq::empty()) && after
                == (DaemonModel {
                todo: m.todo.push(ActionModel::Play(pcm_block(f.media_payload))).push(
                    to_exchange(second),
                ),
                ..h
            })
            &&& is_end ==> speaks(second, leg, m.ts(now), 6, 4, Seq::empty()) && after == (
            DaemonModel {
                call: None,
                todo: m.todo.push(ActionModel::Say("[i] Call closed by remote party"@)).push(
                    to_exchange(second),
                ).push(
                    ActionModel::FlushAudio,
                ),
                ..h
            })
            &&& f.frametype == 4 ==> speaks(first, leg, m.ts(now), 6, 4, Seq::empty()) && after
                == (DaemonModel { todo: m.todo.push(to_exchange(first)), ..h })
            &&& !is_ack && !is_end && f.frametype != 2 && f.frametype != 4 ==> speaks(
                second,
                leg,
                m.ts(now),
                6,
                4,
                Seq::empty(),
            ) && after == (DaemonModel {
                todo: m.todo.push(
                    ActionModel::Say(
                        "[i] call leg ft=0x"@ + hex2(f.frametype) + " sc=0x"@ + hex2(f.subclass),
                    ),
                ).push(to_exchange(second)),
                ..h
            })
        }),
{
    law_token_is_read(f.ies, IeModel { kind: 54, data: Seq::empty() });
    law_leg_speaks(m.call->0.leg.note_recv(f), m.ts(now), 6, 4, Seq::empty());
}

/// A frame for nobody changes nothing; it is printed, unless it is an `ACK`, a
/// `PONG` or an `INVAL`.
pub proof fn law_telephone_stray_frames(m: DaemonModel, dg: Seq<u8>, f: FrameModel, now: Instant)
    requires
        is_frame(dg, f),
        is_plain(f),
        no_token(f.ies) || m.calltoken is Some,
        f.dst_call != m.reg.local,
        m.call is Some ==> f.dst_call != m.call->0.leg.local,
    ensures
        ({
            let after = m.on_datagram(dg, now);
            let benign = f.frametype == 6 && (f.subclass == 4 || f.subclass == 3 || f.subclass
                == 10);
            &&& benign ==> after == m
            &&& !benign ==> after == (DaemonModel {
                todo: m.todo.push(
                    ActionModel::Say(
                        "[i] Out of leg frame: dst_call="@ + decimal(f.dst_call as nat) + " ft=0x"@
                            + hex2(f.frametype) + " sc=0x"@ + hex2(f.subclass),
                    ),
                ),
                ..m
            })
        }),
{
    law_token_is_read(f.ies, IeModel { kind: 54, data: Seq::empty() });
}

} // verus!
