//! What the two diagnostic sessions say and do: the registration handshake and
//! the call with live audio.

use vstd::prelude::*;
use vstd::utf8::*;

use crate::action::ActionModel;
use crate::call_laws::{
    holds_u16, holds_u32, law_offer_is_read, law_token_is_read, md5_offered, no_token, says,
};
use crate::calltest::{new_call_ies, CallTestModel, SECONDS_DEFAULT};
use crate::client_model::{cause_code, u32_of};
use crate::daemon_laws::{is_frame, one_further, to_exchange};
use crate::frame::{
    full_frame, law_command_roundtrip, law_media_roundtrip, law_mini_roundtrip, FrameModel,
    MiniModel,
};
use crate::frame_laws::{lacks, law_search_finds_the_first, leads, lemma_leader_is_found};
use crate::g711::{pcm_block, ulaw_block};
use crate::ie::{all_fit, IeModel};
use crate::leg::LegModel;
use crate::leg_laws::{law_leg_speaks, speaks};
use crate::regtest::{regreq_ies, SessionModel, RETRANSMIT_AFTER_MS};
use crate::registration_laws::{asks_to_register, token_octets};
use crate::text::{debug_list, debug_option, debug_text, debug_u32, decimal, hex2};
use crate::time::Instant;

verus! {

proof fn lemma_leads_at(ies: Seq<IeModel>, i: int)
    requires
        0 <= i < ies.len(),
        forall|j: int| 0 <= j < i ==> (#[trigger] ies[j]).kind != ies[i].kind,
    ensures
        leads(ies, ies[i]),
{
}

// --- the registration handshake ---------------------------------------------------

proof fn lemma_request(
    username: Seq<char>,
    answer: Option<Seq<char>>,
    refresh: u16,
    token: Option<Seq<u8>>,
) -> (ies: Seq<IeModel>)
    requires
        encode_utf8(username).len() <= 255,
        answer is Some ==> encode_utf8(answer->0).len() <= 255,
        token_octets(token).len() <= 255,
    ensures
        ies == regreq_ies(
            username,
            match answer {
                Some(a) => seq![IeModel { kind: 16, data: encode_utf8(a) }],
                None => Seq::empty(),
            },
            refresh,
            token,
        ),
        asks_to_register(ies, username, refresh, token_octets(token)),
        answer is Some ==> says(ies, 16, answer->0),
        all_fit(ies),
        ies.len() == if answer is Some {
            4nat
        } else {
            3nat
        },
{
    let extra = match answer {
        Some(a) => seq![IeModel { kind: 16, data: encode_utf8(a) }],
        None => Seq::empty(),
    };
    let ies = regreq_ies(username, extra, refresh, token);
    let n = ies.len() as int;
    lemma_leads_at(ies, 0);
    if answer is Some {
        lemma_leads_at(ies, 1);
    }
    lemma_leads_at(ies, n - 2);
    lemma_leads_at(ies, n - 1);
    assert(leads(ies, ies[n - 2]));
    assert forall|i: int| 0 <= i < ies.len() implies (#[trigger] ies[i]).fits() by {
        assert(i == 0 || i == n - 2 || i == n - 1 || (answer is Some && i == 1));
    }
    ies
}

/// The line about a frame of the handshake that a leg sent.
pub open spec fn line_about(label: Seq<char>, leg: LegModel, dg: Seq<u8>) -> Seq<char> {
    "[>] "@ + label + ": oseq="@ + decimal(leg.oseq as nat) + " iseq="@ + decimal(leg.iseq as nat)
        + " dst_call="@ + decimal(leg.remote as nat) + " ("@ + decimal(dg.len()) + " byte)"@
}

/// The session after a request to register went out on this leg, with this
/// token, and waits for its answer; if the exchange challenged it, with the
/// answer to that. The line about it tells its label, its numbers and its size.
pub open spec fn asks_again(
    m: SessionModel,
    leg: LegModel,
    answer: Option<Seq<char>>,
    label: Seq<char>,
    now: Instant,
    after: SessionModel,
) -> bool {
    let sent = after.todo.last();
    let dg = sent->Report_datagram;
    let g = FrameModel::parse(dg);
    &&& sent == (ActionModel::Report { label, line: line_about(label, leg, dg), datagram: dg })
    &&& g is Some
    &&& speaks(dg, leg, m.ts(now), 6, 13, g->0.ies)
    &&& asks_to_register(g->0.ies, m.username, m.refresh, token_octets(after.calltoken))
    &&& answer is Some ==> g->0.ies.len() == 4 && says(g->0.ies, 16, answer->0)
    &&& answer is None ==> g->0.ies.len() == 3
    &&& after.pending.wire() == dg
    &&& after.leg == one_further(leg)
    &&& after.attempts == 0
    &&& after.username == m.username && after.secret == m.secret && after.refresh == m.refresh
        && after.start == m.start
}

/// A handshake starts with a request from number 1, without a token; timestamps
/// count milliseconds from then.
pub proof fn law_handshake_begins(
    username: Seq<char>,
    secret: Seq<char>,
    refresh: u16,
    now: Instant,
    later: Instant,
)
    requires
        encode_utf8(username).len() <= 255,
        later.nanos >= now.nanos,
    ensures
        ({
            let m = SessionModel::begin(username, secret, refresh, now);
            &&& m.username == username && m.secret == secret && m.refresh == refresh
            &&& m.todo.len() == 1
            &&& m.calltoken is None
            &&& asks_again(m, LegModel::new(1), None, "REGREQ (init)"@, now, m)
            &&& m.ts(now) == 0
            &&& m.ts(later) == (later.nanos - now.nanos) / 1_000_000 % 0x1_0000_0000
        }),
{
    let ies = lemma_request(username, None, refresh, None);
    law_leg_speaks(LegModel::new(1), 0, 6, 13, ies);
    assert(SessionModel::begin(username, secret, refresh, now).ts(now) == 0);
}

/// After a wait in vain, of a second, the request goes out again, marked as a repeat and with
/// a new timestamp; the fifth wait in vain is the last.
pub proof fn law_handshake_waits(m: SessionModel, now: Instant)
    requires
        m.attempts < 5,
        m.pending.src_call < 0x8000 && m.pending.dst_call < 0x8000,
        m.pending.subclass < 0x80,
        m.pending.media_payload.len() == 0,
        !crate::frame::carries_media(m.pending.frametype),
        all_fit(m.pending.ies),
    ensures
        RETRANSMIT_AFTER_MS == 1000,
        ({
            let after = m.on_silence(now);
            let n = m.todo.len() as int;
            let f = FrameModel { retransmit: true, timestamp: m.ts(now), ..m.pending };
            &&& m.attempts < 4 ==> {
                &&& after.todo[n] is Report
                &&& FrameModel::parse(after.todo[n]->Report_datagram) == Some(f)
                &&& after == (SessionModel {
                    attempts: (m.attempts + 1) as u32,
                    pending: f,
                    todo: m.todo.push(after.todo[n]),
                    ..m
                })
            }
            &&& m.attempts == 4 ==> {
                &&& after.todo[n] is Warn
                &&& after == (SessionModel {
                    attempts: 5,
                    todo: m.todo.push(after.todo[n]).push(ActionModel::Exit(1)),
                    ..m
                })
            }
        }),
{
    let f = FrameModel { retransmit: true, timestamp: m.ts(now), ..m.pending };
    law_command_roundtrip(f);
    assert(f.narrowed() =~= f);
}

/// The first token that comes is taken, and the request goes out again from a
/// fresh leg, with it.
pub proof fn law_handshake_gets_a_token(
    m: SessionModel,
    dg: Seq<u8>,
    f: FrameModel,
    token: Seq<u8>,
    now: Instant,
)
    requires
        is_frame(dg, f),
        f.frametype == 6,
        m.calltoken is None,
        leads(f.ies, IeModel { kind: 54, data: token }),
        0 < token.len() <= 255,
        encode_utf8(m.username).len() <= 255,
    ensures
        ({
            let after = m.on_datagram(dg, now);
            &&& after.calltoken == Some(token)
            &&& after.todo.len() == m.todo.len() + 2
            &&& after.todo.take(m.todo.len() as int) == m.todo
            &&& after.todo[m.todo.len() as int] == ActionModel::Say(
                "[i] received call-token ricevuto ("@ + decimal(token.len())
                    + " byte), resend REGREQ (refresh)"@,
            )
            &&& asks_again(
                m,
                LegModel::new(m.leg.local),
                None,
                "REGREQ (with call-token)"@,
                now,
                after,
            )
        }),
{
    law_token_is_read(f.ies, IeModel { kind: 54, data: token });
    let ies = lemma_request(m.username, None, m.refresh, Some(token));
    law_leg_speaks(LegModel::new(m.leg.local), m.ts(now), 6, 13, ies);
    assert(m.on_datagram(dg, now).todo.take(m.todo.len() as int) =~= m.todo);
}

/// The frame is one of the handshake.
pub open spec fn for_handshake(m: SessionModel, dg: Seq<u8>, f: FrameModel) -> bool {
    &&& is_frame(dg, f)
    &&& f.frametype == 6
    &&& no_token(f.ies) || m.calltoken is Some
}

/// A challenge is answered with the MD5 of it and the secret, on the same leg;
/// without an offer of MD5, or without a challenge, the session ends in failure.
pub proof fn law_handshake_is_challenged(
    m: SessionModel,
    dg: Seq<u8>,
    f: FrameModel,
    c: IeModel,
    now: Instant,
)
    requires
        for_handshake(m, dg, f),
        f.subclass == 14,
        encode_utf8(m.username).len() <= 255,
        token_octets(m.calltoken).len() <= 255,
    ensures
        ({
            let after = m.on_datagram(dg, now);
            let n = m.todo.len() as int;
            let leg = m.leg.note_recv(f);
            let answer = crate::md5_answer(c.to_str(), m.secret);
            &&& after.todo[n] is Say
            &&& md5_offered(f.ies) && leads(f.ies, c) && c.kind == 15 && encode_utf8(answer).len()
                <= 255 ==> {
                &&& after.calltoken == m.calltoken
                &&& after.todo == m.todo.push(after.todo[n]).push(after.todo[n + 1])
                &&& asks_again(
                    m,
                    leg,
                    Some(answer),
                    "REGREQ (authenticated MD5)"@,
                    now,
                    after,
                )
            }
            &&& !md5_offered(f.ies) || lacks(f.ies, 15) ==> {
                &&& after.todo[n + 1] is Warn
                &&& after == (SessionModel {
                    leg,
                    attempts: 0,
                    todo: m.todo.push(after.todo[n]).push(after.todo[n + 1]).push(
                        ActionModel::Exit(1),
                    ),
                    ..m
                })
            }
        }),
{
    law_token_is_read(f.ies, IeModel { kind: 54, data: Seq::empty() });
    law_offer_is_read(f.ies);
    law_search_finds_the_first(f.ies, 15);
    if leads(f.ies, c) && c.kind == 15 {
        lemma_leader_is_found(f.ies, c);
        let answer = crate::md5_answer(c.to_str(), m.secret);
        if md5_offered(f.ies) && encode_utf8(answer).len() <= 255 {
            let ies = lemma_request(m.username, Some(answer), m.refresh, m.calltoken);
            law_leg_speaks(m.leg.note_recv(f), m.ts(now), 6, 13, ies);
        }
    }
}

/// A confirmation is acknowledged and ends the session in success, a refusal is
/// acknowledged and ends it in failure; any other frame is printed, and the
/// session waits on.
pub proof fn law_handshake_ends(m: SessionModel, dg: Seq<u8>, f: FrameModel, now: Instant)
    requires
        for_handshake(m, dg, f),
        f.subclass != 14,
    ensures
        ({
            let after = m.on_datagram(dg, now);
            let n = after.todo.len() as int;
            let k = m.todo.len() as int;
            let leg = m.leg.note_recv(f);
            let ended = f.subclass == 15 || f.subclass == 16;
            let ack = after.todo[n - 2];
            &&& after.todo.len() > k && after.todo.take(k) == m.todo
            &&& after == (SessionModel { leg, attempts: 0, todo: after.todo, ..m })
            &&& ended ==> n >= k + 2 && ack is Report && speaks(
                ack->Report_datagram,
                leg,
                m.ts(now),
                6,
                4,
                Seq::empty(),
            ) && after.todo[n - 1] == ActionModel::Exit(
                if f.subclass == 15 {
                    0
                } else {
                    1
                },
            ) && forall|i: int|
                k <= i < n - 2 ==> if f.subclass == 15 {
                    #[trigger] after.todo[i] is Say
                } else {
                    after.todo[i] is Warn
                }
            &&& !ended ==> n == k + 1 && after.todo[k] is Say
        }),
{
    law_token_is_read(f.ies, IeModel { kind: 54, data: Seq::empty() });
    law_leg_speaks(m.leg.note_recv(f), m.ts(now), 6, 4, Seq::empty());
    assert(m.on_datagram(dg, now).todo.take(m.todo.len() as int) =~= m.todo);
}

/// What is printed of the end of a handshake: that it was confirmed, then the
/// size of the exchange's clock and the refresh it grants, if it tells them; or
/// that it was refused, the cause and its code, and the kinds of all elements.
pub proof fn law_handshake_tells(
    m: SessionModel,
    dg: Seq<u8>,
    f: FrameModel,
    clock: IeModel,
    granted: IeModel,
    cause: IeModel,
    now: Instant,
)
    requires
        for_handshake(m, dg, f),
        leads(f.ies, clock) && clock.kind == 31 || lacks(f.ies, 31),
        leads(f.ies, granted) && granted.kind == 19 && granted.data.len() == 2 || lacks(f.ies, 19),
        leads(f.ies, cause) && cause.kind == 22 || lacks(f.ies, 22),
    ensures
        ({
            let after = m.on_datagram(dg, now);
            let n = after.todo.len() as int;
            let printed = after.todo.subrange(m.todo.len() as int, n - 2);
            let first = seq![ActionModel::Say("[✓] REGACK — registration success!"@)];
            let second = if lacks(f.ies, 31) {
                Seq::empty()
            } else {
                seq![
                    ActionModel::Say(
                        "    datetime IE: "@ + decimal(clock.data.len()) + " byte"@,
                    ),
                ]
            };
            let third = if lacks(f.ies, 19) {
                Seq::empty()
            } else {
                seq![
                    ActionModel::Say(
                        "    best refresh: "@ + decimal(
                            (granted.data[0] * 0x100 + granted.data[1]) as nat,
                        ) + "s"@,
                    ),
                ]
            };
            let text = if lacks(f.ies, 22) {
                None
            } else {
                Some(cause.to_str())
            };
            &&& f.subclass == 15 ==> printed == first + second + third
            &&& f.subclass == 16 ==> printed == seq![
                ActionModel::Warn(
                    "[x] REGREJ — registration refused. cause="@ + debug_text(text)
                        + " causecode="@ + debug_option(cause_code(f.ies)),
                ),
                ActionModel::Warn(
                    "    IE (types): "@ + debug_list(f.ies.map_values(|i: IeModel| i.kind)),
                ),
            ]
            &&& f.subclass != 14 && f.subclass != 15 && f.subclass != 16 ==> after.todo.last()
                == ActionModel::Say(
                "[i] frame IAX subclass=0x"@ + hex2(f.subclass) + " (ignored)"@,
            )
        }),
{
    law_token_is_read(f.ies, IeModel { kind: 54, data: Seq::empty() });
    law_search_finds_the_first(f.ies, 31);
    law_search_finds_the_first(f.ies, 19);
    law_search_finds_the_first(f.ies, 22);
    if leads(f.ies, clock) {
        lemma_leader_is_found(f.ies, clock);
    }
    if leads(f.ies, granted) {
        lemma_leader_is_found(f.ies, granted);
    }
    if leads(f.ies, cause) {
        lemma_leader_is_found(f.ies, cause);
    }
}

/// What is no frame of the handshake starts the wait anew and does nothing else,
/// but for a line about a full frame that cannot be read.
pub proof fn law_handshake_ignores_the_rest(
    m: SessionModel,
    dg: Seq<u8>,
    f: FrameModel,
    now: Instant,
)
    ensures
        ({
            let after = m.on_datagram(dg, now);
            let h = SessionModel { attempts: 0, ..m };
            &&& !full_frame(dg) ==> after == h
            &&& is_frame(dg, f) && f.frametype != 6 ==> after == h
            &&& full_frame(dg) && FrameModel::parse(dg) is None ==> after.todo.last() is Warn
                && after == (SessionModel { todo: m.todo.push(after.todo.last()), ..h })
        }),
{
}

// --- the call with live audio -------------------------------------------------------

/// The elements ask for a call of this name to this number, in u-law, with
/// u-law and A-law understood, and this token.
pub open spec fn asks_for_live_call(
    ies: Seq<IeModel>,
    username: Seq<char>,
    called: Seq<char>,
    token: Seq<u8>,
) -> bool {
    &&& ies.len() == 8
    &&& holds_u16(ies, 11, 2)
    &&& says(ies, 2, username)
    &&& says(ies, 4, "iax2-spike"@)
    &&& says(ies, 6, username)
    &&& holds_u32(ies, 8, 12)
    &&& holds_u32(ies, 9, 4)
    &&& says(ies, 1, called)
    &&& leads(ies, IeModel { kind: 54, data: token })
}

proof fn lemma_new(username: Seq<char>, called: Seq<char>, token: Option<Seq<u8>>)
    requires
        encode_utf8(username).len() <= 255,
        encode_utf8(called).len() <= 255,
        token_octets(token).len() <= 255,
    ensures
        asks_for_live_call(
            new_call_ies(username, called, token),
            username,
            called,
            token_octets(token),
        ),
        all_fit(new_call_ies(username, called, token)),
{
    let ies = new_call_ies(username, called, token);
    assert(4u32 | 8u32 == 12u32) by (bit_vector);
    reveal_strlit("iax2-spike");
    is_ascii_chars_encode_utf8("iax2-spike"@);
    lemma_leads_at(ies, 0);
    lemma_leads_at(ies, 1);
    lemma_leads_at(ies, 2);
    lemma_leads_at(ies, 3);
    lemma_leads_at(ies, 4);
    lemma_leads_at(ies, 5);
    lemma_leads_at(ies, 6);
    lemma_leads_at(ies, 7);
    assert(leads(ies, ies[0]) && leads(ies, ies[4]) && leads(ies, ies[5]));
    assert forall|i: int| 0 <= i < ies.len() implies (#[trigger] ies[i]).fits() by {}
}

/// The line about a datagram of the call that was sent.
pub open spec fn size_line(label: Seq<char>, dg: Seq<u8>) -> Seq<char> {
    "[>] "@ + label + " ("@ + decimal(dg.len()) + " byte)"@
}

/// The session after a request for the call went out on this leg.
pub open spec fn calls_again(
    m: CallTestModel,
    leg: LegModel,
    label: Seq<char>,
    now: Instant,
    after: CallTestModel,
) -> bool {
    let sent = after.todo.last();
    let dg = sent->Report_datagram;
    let g = FrameModel::parse(dg);
    &&& sent == (ActionModel::Report { label, line: size_line(label, dg), datagram: dg })
    &&& g is Some
    &&& speaks(dg, leg, m.ts(now), 6, 1, g->0.ies)
    &&& asks_for_live_call(g->0.ies, m.username, m.called, token_octets(after.calltoken))
    &&& after.leg == one_further(leg)
    &&& after.username == m.username && after.secret == m.secret && after.called == m.called
        && after.start == m.start && after.answered == m.answered && after.sent_format
        == m.sent_format
}

/// A call starts with a request from number 1, without a token; it is not
/// answered, and timestamps count milliseconds from then.
pub proof fn law_live_call_begins(
    username: Seq<char>,
    secret: Seq<char>,
    called: Seq<char>,
    now: Instant,
    later: Instant,
)
    requires
        encode_utf8(username).len() <= 255,
        encode_utf8(called).len() <= 255,
        later.nanos >= now.nanos,
    ensures
        ({
            let m = CallTestModel::begin(username, secret, called, now);
            &&& m.username == username && m.secret == secret && m.called == called
            &&& m.todo.len() == 1
            &&& m.calltoken is None
            &&& !m.answered && !m.sent_format
            &&& calls_again(m, LegModel::new(1), "NEW (initial)"@, now, m)
            &&& m.ts(later) == (later.nanos - now.nanos) / 1_000_000 % 0x1_0000_0000
        }),
{
    lemma_new(username, called, None);
    let m = CallTestModel::begin(username, secret, called, now);
    law_leg_speaks(LegModel::new(1), m.ts(now), 6, 1, new_call_ies(username, called, None));
}

/// The first token that comes is taken, and the call is asked for again from a
/// fresh leg, with it.
pub proof fn law_live_call_gets_a_token(
    m: CallTestModel,
    dg: Seq<u8>,
    f: FrameModel,
    token: Seq<u8>,
    now: Instant,
)
    requires
        is_frame(dg, f),
        m.calltoken is None,
        leads(f.ies, IeModel { kind: 54, data: token }),
        0 < token.len() <= 255,
        encode_utf8(m.username).len() <= 255,
        encode_utf8(m.called).len() <= 255,
    ensures
        ({
            let after = m.on_datagram(dg, now);
            &&& after.calltoken == Some(token)
            &&& after.todo == m.todo.push(after.todo[m.todo.len() as int]).push(after.todo.last())
            &&& after.todo[m.todo.len() as int] is Say
            &&& calls_again(m, LegModel::new(m.leg.local), "NEW (with call-token)"@, now, after)
        }),
{
    law_token_is_read(f.ies, IeModel { kind: 54, data: token });
    lemma_new(m.username, m.called, Some(token));
    law_leg_speaks(
        LegModel::new(m.leg.local),
        m.ts(now),
        6,
        1,
        new_call_ies(m.username, m.called, Some(token)),
    );
}

/// What is recorded goes out frame by frame once the call is answered: the first
/// in a full frame of u-law, which is counted, the rest in mini frames with the
/// low half of the timestamp.
pub proof fn law_live_call_speaks(
    m: CallTestModel,
    frames: Seq<Seq<i16>>,
    pcm: Seq<i16>,
    now: Instant,
)
    requires
        m.leg.local < 0x8000 && m.leg.remote < 0x8000,
    ensures
        m.on_mic(Seq::empty(), now) == m,
        m.answered ==> m.on_mic(frames.push(pcm), now) == m.on_mic(frames, now).voiced(pcm, now),
        ({
            let after = m.voiced(pcm, now);
            let dg = after.todo.last()->Send_datagram;
            &&& !m.sent_format ==> after == (CallTestModel {
                leg: one_further(m.leg),
                sent_format: true,
                todo: m.todo.push(to_exchange(dg)),
                ..m
            }) && FrameModel::parse(dg) == Some(
                FrameModel {
                    src_call: m.leg.local,
                    dst_call: m.leg.remote,
                    retransmit: false,
                    timestamp: m.ts(now),
                    oseq: m.leg.oseq,
                    iseq: m.leg.iseq,
                    frametype: 2,
                    subclass: 4,
                    ies: Seq::empty(),
                    media_payload: ulaw_block(pcm),
                },
            )
            &&& m.sent_format ==> after == (CallTestModel {
                todo: m.todo.push(to_exchange(dg)),
                ..m
            }) && MiniModel::parse(dg) == Some(
                MiniModel {
                    src_call: m.leg.local,
                    timestamp16: (m.ts(now) % 0x1_0000) as u16,
                    payload: ulaw_block(pcm),
                },
            )
        }),
{
    assert(frames.push(pcm).drop_last() =~= frames);
    let f = m.leg.frame(m.ts(now), 2, 4, Seq::empty());
    law_media_roundtrip(f, ulaw_block(pcm));
    assert(f.narrowed() =~= f);
    law_mini_roundtrip(
        MiniModel {
            src_call: m.leg.local,
            timestamp16: (m.ts(now) % 0x1_0000) as u16,
            payload: ulaw_block(pcm),
        },
    );
}

/// When the call's time is over, 15 s if no other is asked for, it is hung up, and
/// the session ends.
pub proof fn law_live_call_runs_out(m: CallTestModel, now: Instant)
    ensures
        SECONDS_DEFAULT == 15,
        ({
            let after = m.on_deadline(now);
            let n = m.todo.len() as int;
            let dg = after.todo[n + 1]->Send_datagram;
            let g = FrameModel::parse(dg);
            &&& after.todo[n] is Say && after.todo[n + 2] is Say
            &&& g is Some
            &&& speaks(dg, m.leg, m.ts(now), 6, 5, g->0.ies)
            &&& g->0.ies.len() == 1
            &&& says(g->0.ies, 22, "Normal Clearing"@)
            &&& after == (CallTestModel {
                leg: one_further(m.leg),
                todo: m.todo.push(after.todo[n]).push(to_exchange(dg)).push(
                    after.todo[n + 2],
                ).push(ActionModel::Exit(0)),
                ..m
            })
        }),
{
    let ies = seq![IeModel { kind: 22, data: encode_utf8("Normal Clearing"@) }];
    reveal_strlit("Normal Clearing");
    is_ascii_chars_encode_utf8("Normal Clearing"@);
    assert(ies[0].fits());
    lemma_leads_at(ies, 0);
    law_leg_speaks(m.leg, m.ts(now), 6, 5, ies);
}

/// The frame is one of the call.
pub open spec fn for_live_call(m: CallTestModel, dg: Seq<u8>, f: FrameModel) -> bool {
    &&& is_frame(dg, f)
    &&& no_token(f.ies) || m.calltoken is Some
}

/// The session heard a frame.
pub open spec fn heard_live(m: CallTestModel, f: FrameModel) -> CallTestModel {
    CallTestModel { leg: m.leg.note_recv(f), ..m }
}

/// Audio is played and acknowledged, in either kind of frame a warning about a
/// format other than u-law coming first; a mini frame is played alone.
pub proof fn law_live_call_hears(
    m: CallTestModel,
    dg: Seq<u8>,
    f: FrameModel,
    p: MiniModel,
    now: Instant,
)
    ensures
        !full_frame(dg) && MiniModel::parse(dg) == Some(p) ==> m.on_datagram(dg, now) == (
        CallTestModel { todo: m.todo.push(ActionModel::Play(pcm_block(p.payload))), ..m }),
        !full_frame(dg) && MiniModel::parse(dg) is None ==> m.on_datagram(dg, now) == m,
        full_frame(dg) && FrameModel::parse(dg) is None ==> m.on_datagram(dg, now) == m,
        for_live_call(m, dg, f) && f.frametype == 2 ==> ({
            let after = m.on_datagram(dg, now);
            let ack = after.todo.last()->Send_datagram;
            let warned = if f.subclass == 4 {
                m.todo
            } else {
                m.todo.push(after.todo[m.todo.len() as int])
            };
            &&& f.subclass != 4 ==> after.todo[m.todo.len() as int] is Warn
            &&& speaks(ack, m.leg.note_recv(f), m.ts(now), 6, 4, Seq::empty())
            &&& after == (CallTestModel {
                todo: warned.push(ActionModel::Play(pcm_block(f.media_payload))).push(
                    to_exchange(ack),
                ),
                ..heard_live(m, f)
            })
        }),
{
    law_token_is_read(f.ies, IeModel { kind: 54, data: Seq::empty() });
    law_leg_speaks(m.leg.note_recv(f), m.ts(now), 6, 4, Seq::empty());
}

/// A challenge is answered with the MD5 of it and the secret; without an offer
/// of MD5, or without a challenge, the session ends.
pub proof fn law_live_call_is_challenged(
    m: CallTestModel,
    dg: Seq<u8>,
    f: FrameModel,
    c: IeModel,
    now: Instant,
)
    requires
        for_live_call(m, dg, f),
        f.frametype == 6 && f.subclass == 8,
    ensures
        ({
            let after = m.on_datagram(dg, now);
            let n = m.todo.len() as int;
            let leg = m.leg.note_recv(f);
            let answer = crate::md5_answer(c.to_str(), m.secret);
            let dg2 = after.todo[n]->Report_datagram;
            let g = FrameModel::parse(dg2);
            &&& md5_offered(f.ies) && leads(f.ies, c) && c.kind == 15 && encode_utf8(answer).len()
                <= 255 ==> {
                &&& after.todo[n] == (ActionModel::Report {
                    label: "AUTHREP (MD5)"@,
                    line: size_line("AUTHREP (MD5)"@, dg2),
                    datagram: dg2,
                })
                &&& g is Some
                &&& speaks(dg2, leg, m.ts(now), 6, 9, g->0.ies)
                &&& g->0.ies.len() == 1
                &&& says(g->0.ies, 16, answer)
                &&& after == (CallTestModel {
                    leg: one_further(leg),
                    todo: m.todo.push(after.todo[n]),
                    ..m
                })
            }
            &&& !md5_offered(f.ies) || lacks(f.ies, 15) ==> {
                &&& after.todo[n] is Warn && after.todo[n + 1] is Say
                &&& after == (CallTestModel {
                    todo: m.todo.push(after.todo[n]).push(after.todo[n + 1]).push(
                        ActionModel::Exit(0),
                    ),
                    ..heard_live(m, f)
                })
            }
        }),
{
    law_token_is_read(f.ies, IeModel { kind: 54, data: Seq::empty() });
    law_offer_is_read(f.ies);
    law_search_finds_the_first(f.ies, 15);
    if leads(f.ies, c) && c.kind == 15 {
        lemma_leader_is_found(f.ies, c);
        let answer = crate::md5_answer(c.to_str(), m.secret);
        if encode_utf8(answer).len() <= 255 {
            let ies = seq![IeModel { kind: 16, data: encode_utf8(answer) }];
            assert(ies[0].fits());
            lemma_leads_at(ies, 0);
            law_leg_speaks(m.leg.note_recv(f), m.ts(now), 6, 9, ies);
        }
    }
}

/// What is printed of a frame of the call.
pub open spec fn told_of(f: FrameModel) -> ActionModel {
    if f.frametype == 6 && f.subclass == 6 {
        ActionModel::Warn("[x] REJECT causecode="@ + debug_option(cause_code(f.ies)))
    } else if f.frametype == 6 && f.subclass == 7 {
        ActionModel::Say("[✓] ACCEPT format="@ + debug_u32(u32_of(f.ies, 9)))
    } else if f.frametype == 6 && f.subclass == 5 {
        ActionModel::Say("[i] HANGUP"@)
    } else if f.frametype == 4 && f.subclass == 3 {
        ActionModel::Say("[i] RINGING…"@)
    } else if f.frametype == 4 && f.subclass == 4 {
        ActionModel::Say("[✓] ANSWER — speak please, you must be hear your echo"@)
    } else if f.frametype == 4 && f.subclass == 5 {
        ActionModel::Say("[x] BUSY"@)
    } else {
        ActionModel::Say(
            "[i] not processed ft=0x"@ + hex2(f.frametype) + " sc=0x"@ + hex2(f.subclass),
        )
    }
}

/// The rest of the call: an answer opens the microphone; a qualify is answered
/// with its own timestamp; an `ACK` and a `PONG` are only heard; what ends the
/// call ends the session; all else is printed. What is printed is acknowledged.
pub proof fn law_live_call_goes_on(m: CallTestModel, dg: Seq<u8>, f: FrameModel, now: Instant)
    requires
        for_live_call(m, dg, f),
        f.frametype != 2 && !(f.frametype == 6 && f.subclass == 8),
    ensures
        ({
            let after = m.on_datagram(dg, now);
            let n = m.todo.len() as int;
            let h = heard_live(m, f);
            let quiet = f.frametype == 6 && (f.subclass == 4 || f.subclass == 3);
            let qualify = f.frametype == 6 && (f.subclass == 2 || f.subclass == 30);
            let answer = f.frametype == 4 && f.subclass == 4;
            let ends = f.frametype == 6 && (f.subclass == 5 || f.subclass == 6) || f.frametype == 4
                && f.subclass == 5;
            let pong = after.todo[n]->Send_datagram;
            let ack = after.todo[n + 1]->Send_datagram;
            let printed = m.todo.push(after.todo[n]).push(to_exchange(ack));
            &&& quiet ==> after == h
            &&& qualify ==> speaks(pong, h.leg, f.timestamp, 6, 3, Seq::empty()) && after == (
            CallTestModel { todo: m.todo.push(to_exchange(pong)), ..h })
            &&& !quiet && !qualify ==> after.todo[n] == told_of(f) && speaks(
                ack,
                h.leg,
                m.ts(now),
                6,
                4,
                Seq::empty(),
            )
            &&& ends ==> after.todo[n + 2] is Say && after == (CallTestModel {
                todo: printed.push(after.todo[n + 2]).push(ActionModel::Exit(0)),
                ..h
            })
            &&& answer ==> after == (CallTestModel { answered: true, todo: printed, ..h })
            &&& !quiet && !qualify && !ends && !answer ==> after == (CallTestModel {
                todo: printed,
                ..h
            })
        }),
{
    law_token_is_read(f.ies, IeModel { kind: 54, data: Seq::empty() });
    law_leg_speaks(m.leg.note_recv(f), m.ts(now), 6, 4, Seq::empty());
    law_leg_speaks(m.leg.note_recv(f), f.timestamp, 6, 3, Seq::empty());
}

} // verus!
