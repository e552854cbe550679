//! What the commands of the driver and the frames of the peer do to a call, as
//! the peer and the driver see it: which frame goes out, what it reads as, what
//! is told, and what stays as it was.

use vstd::prelude::*;
use vstd::utf8::*;

use crate::client::{commanded, Command};
use crate::client_laws::{callno_distance, lemma_some_number_is_free};
use crate::client_model::{
    callno_after, callno_search, dtmf_code, new_ies, offers_md5, text_of, token_of,
    CallModel, CallState, ClientModel, ConfigModel, Dir, EventModel,
};
use crate::frame::{full_frame, law_media_roundtrip, law_mini_roundtrip, FrameModel, MiniModel};
use crate::frame_laws::{lacks, law_search_finds_the_first, leads, lemma_leader_is_found};
use crate::ie::{all_fit, first_of, IeModel};
use crate::leg::LegModel;
use crate::leg_laws::{keeps, law_leg_speaks, law_reliable_frame_is_kept, speaks};
use crate::time::Instant;

verus! {

// --- pieces -------------------------------------------------------------------

/// A frame's timestamp is the milliseconds since the client was made, in 32
/// bits.
pub proof fn law_clock_of_a_client(m: ClientModel, now: Instant)
    ensures
        now.nanos >= m.start.nanos ==> m.ts(now) == (now.nanos - m.start.nanos) / 1_000_000
            % 0x1_0000_0000,
        now.nanos < m.start.nanos ==> m.ts(now) == 0,
{
}

/// The element at a place leads if none of its kind stands before it.
proof fn lemma_leads_at(ies: Seq<IeModel>, i: int)
    requires
        0 <= i < ies.len(),
        forall|j: int| 0 <= j < i ==> (#[trigger] ies[j]).kind != ies[i].kind,
    ensures
        leads(ies, ies[i]),
{
}

/// There is no call token among the elements, or only an empty one.
pub open spec fn no_token(ies: Seq<IeModel>) -> bool {
    forall|e: IeModel| #[trigger] leads(ies, e) && e.kind == 54 ==> e.data.len() == 0
}

/// A token is the data of the first token element, unless it is empty.
pub proof fn law_token_is_read(ies: Seq<IeModel>, e: IeModel)
    ensures
        no_token(ies) <==> token_of(ies) is None,
        leads(ies, e) && e.kind == 54 && e.data.len() > 0 ==> token_of(ies) == Some(e.data),
{
    law_search_finds_the_first(ies, 54);
    if leads(ies, e) && e.kind == 54 {
        lemma_leader_is_found(ies, e);
    }
    if no_token(ies) && first_of(ies, 54) is Some {
        assert(leads(ies, first_of(ies, 54)->0));
    }
    if token_of(ies) is None {
        assert forall|x: IeModel| #[trigger] leads(ies, x) && x.kind == 54 implies x.data.len()
            == 0 by {
            lemma_leader_is_found(ies, x);
        }
    }
}

/// The elements hold this text under this kind.
pub open spec fn says(ies: Seq<IeModel>, kind: u8, s: Seq<char>) -> bool {
    leads(ies, IeModel { kind, data: encode_utf8(s) })
}

/// The elements hold this 32-bit number under this kind, the high octet first.
pub open spec fn holds_u32(ies: Seq<IeModel>, kind: u8, v: u32) -> bool {
    exists|e: IeModel| #[trigger]
        leads(ies, e) && e.kind == kind && e.data.len() == 4 && v == e.data[0] * 0x100_0000
            + e.data[1] * 0x1_0000 + e.data[2] * 0x100 + e.data[3]
}

/// The elements hold this 16-bit number under this kind, the high octet first.
pub open spec fn holds_u16(ies: Seq<IeModel>, kind: u8, v: u16) -> bool {
    exists|e: IeModel| #[trigger]
        leads(ies, e) && e.kind == kind && e.data.len() == 2 && v == e.data[0] * 0x100 + e.data[1]
}

/// The eight elements of a request for a call: the version, who calls, under
/// which account, in which format, whom, and the token.
pub open spec fn asks_for_call(
    ies: Seq<IeModel>,
    cfg: ConfigModel,
    number: Seq<char>,
    token: Seq<u8>,
) -> bool {
    &&& ies.len() == 8
    &&& holds_u16(ies, 11, 2)
    &&& says(ies, 2, cfg.username)
    &&& says(ies, 4, "iax2"@)
    &&& says(ies, 6, cfg.username)
    &&& holds_u32(ies, 8, cfg.audio_format)
    &&& holds_u32(ies, 9, cfg.audio_format)
    &&& says(ies, 1, number)
    &&& leads(ies, IeModel { kind: 54, data: token })
}

proof fn lemma_asks_for_call(cfg: ConfigModel, number: Seq<char>, token: Seq<u8>)
    requires
        encode_utf8(cfg.username).len() <= 255,
        encode_utf8(number).len() <= 255,
        token.len() <= 255,
    ensures
        asks_for_call(new_ies(cfg, number, token), cfg, number, token),
        all_fit(new_ies(cfg, number, token)),
{
    let ies = new_ies(cfg, number, token);
    reveal_strlit("iax2");
    is_ascii_chars_encode_utf8("iax2"@);
    assert forall|i: int| 0 <= i < ies.len() implies (#[trigger] ies[i]).fits() by {}
    lemma_leads_at(ies, 0);
    lemma_leads_at(ies, 1);
    lemma_leads_at(ies, 2);
    lemma_leads_at(ies, 3);
    lemma_leads_at(ies, 4);
    lemma_leads_at(ies, 5);
    lemma_leads_at(ies, 6);
    lemma_leads_at(ies, 7);
    assert(leads(ies, ies[0]) && leads(ies, ies[4]) && leads(ies, ies[5]));
}

// --- numbers of calls ---------------------------------------------------------

/// The numbers are given out in turn from the cursor: a number that is free is
/// taken, and the cursor goes on to the next, from 0x1FFF back to 16.
pub proof fn law_free_number_is_taken_in_turn(m: ClientModel)
    requires
        m.wf(),
        !m.calls.contains_key(m.callno_next),
    ensures
        m.next_callno() == m.callno_next,
        m.callno_taken() == (ClientModel {
            callno_next: if m.callno_next == 0x1FFF {
                16
            } else {
                (m.callno_next + 1) as u16
            },
            ..m
        }),
{
}

/// A number that is taken is passed over: the search goes on with the next one.
pub proof fn law_taken_number_is_passed_over(m: ClientModel)
    requires
        m.wf(),
        m.calls.contains_key(m.callno_next),
        m.calls.dom().len() < 8176,
    ensures
        ({
            let next = ClientModel {
                callno_next: if m.callno_next == 0x1FFF {
                    16
                } else {
                    (m.callno_next + 1) as u16
                },
                ..m
            };
            &&& m.next_callno() == next.next_callno()
            &&& m.callno_taken() == next.callno_taken()
        }),
{
    let n = lemma_some_number_is_free(m);
    lemma_search_settles(m.calls, callno_after(m.callno_next), 0x6FFF, n);
}

/// A search that may go on long enough to reach a free number finds the same one
/// if it may go on longer.
proof fn lemma_search_settles(calls: Map<u16, CallModel>, cursor: u16, tries: nat, n: u16)
    requires
        16 <= cursor <= 0x1FFF,
        16 <= n <= 0x1FFF,
        !calls.contains_key(n),
        callno_distance(cursor, n) < tries,
    ensures
        callno_search(calls, cursor, tries) == callno_search(calls, cursor, tries + 1),
    decreases tries,
{
    if calls.contains_key(cursor) {
        lemma_search_settles(calls, callno_after(cursor), (tries - 1) as nat, n);
    }
}

// --- commands -----------------------------------------------------------------

/// One datagram more is to be sent, and it is this one.
pub open spec fn sends(before: ClientModel, after: ClientModel, dg: Seq<u8>) -> bool {
    after.out == before.out.push(dg)
}

/// Nothing but the calls, what is to be sent and what is to be told differs, and
/// of the calls only this one.
pub open spec fn only_call(before: ClientModel, after: ClientModel, call: u16) -> bool {
    &&& after == (ClientModel {
        calls: after.calls,
        out: after.out,
        events: after.events,
        ..before
    })
    &&& after.calls == before.calls.insert(call, after.calls[call])
}

/// A frame on a call goes out reliably: it reads as a frame of the call's leg,
/// and the leg keeps it.
pub open spec fn goes_out(
    before: ClientModel,
    after: ClientModel,
    call: u16,
    ft: u8,
    sc: u8,
    ies: Seq<IeModel>,
    now: Instant,
) -> bool {
    let dg = after.out.last();
    let leg = before.calls[call].leg;
    &&& sends(before, after, dg)
    &&& speaks(dg, leg, before.ts(now), ft, sc, ies)
    &&& keeps(leg, after.calls[call].leg, dg, before.ts(now), now)
}

/// A number that is dialled is asked for in a `NEW` of a fresh leg that names
/// the account, the formats and the number, with an empty token; the call tries,
/// is outbound, and the driver is told.
pub proof fn law_dialling_asks_for_a_call(m: ClientModel, number: String, now: Instant)
    requires
        m.wf(),
        now.in_range(),
        encode_utf8(m.cfg.username).len() <= 255,
        encode_utf8(number@).len() <= 255,
    ensures
        ({
            let after = commanded(m, Command::Dial { number }, now);
            let n = m.next_callno();
            let dg = after.out.last();
            let f = FrameModel::parse(dg);
            &&& sends(m, after, dg)
            &&& f is Some
            &&& speaks(dg, LegModel::new(n), m.ts(now), 6, 1, f->0.ies)
            &&& asks_for_call(f->0.ies, m.cfg, number@, Seq::empty())
            &&& after.calls == m.calls.insert(n, after.calls[n])
            &&& after.calls[n] == (CallModel {
                leg: after.calls[n].leg,
                state: CallState::Trying,
                dir: Dir::Out,
                peer: number@,
                fmt: m.cfg.audio_format,
                sent_format: false,
                last_voice_ts: 0,
                voice_ts_seen: false,
            })
            &&& keeps(LegModel::new(n), after.calls[n].leg, dg, m.ts(now), now)
            &&& after.events == m.events.push(EventModel::Dialing { call: n, to: number@ })
            &&& after == (ClientModel {
                calls: after.calls,
                out: after.out,
                events: after.events,
                callno_next: after.callno_next,
                ..m
            })
        }),
{
    let n = m.next_callno();
    let leg = LegModel::new(n);
    let ies = new_ies(m.cfg, number@, Seq::empty());
    let after = commanded(m, Command::Dial { number }, now);
    lemma_asks_for_call(m.cfg, number@, Seq::empty());
    law_leg_speaks(leg, m.ts(now), 6, 1, ies);
    law_reliable_frame_is_kept(leg, m.ts(now), 6, 1, ies, now);
    assert(after.out =~= m.out.push(leg.frame(m.ts(now), 6, 1, ies).wire()));
    assert(after.calls =~= m.calls.insert(n, after.calls[n]));
}

/// An inbound call that rings is answered with a reliable `ANSWER`, is up, and
/// declares its format anew; the driver is told. On any other call the command
/// does nothing.
pub proof fn law_answering(m: ClientModel, call: u16, now: Instant)
    requires
        m.wf(),
        now.in_range(),
    ensures
        ({
            let after = commanded(m, Command::Answer { call }, now);
            let waits = m.calls.contains_key(call) && m.calls[call].dir == Dir::In
                && m.calls[call].state == CallState::Ringing;
            &&& !waits ==> after == m
            &&& waits ==> {
                &&& goes_out(m, after, call, 4, 4, Seq::empty(), now)
                &&& only_call(m, after, call)
                &&& after.calls[call] == (CallModel {
                    leg: after.calls[call].leg,
                    state: CallState::Up,
                    sent_format: false,
                    ..m.calls[call]
                })
                &&& after.events == m.events.push(EventModel::Answered { call })
            }
        }),
{
    let leg = m.calls[call].leg;
    law_leg_speaks(leg, m.ts(now), 4, 4, Seq::empty());
    law_reliable_frame_is_kept(leg, m.ts(now), 4, 4, Seq::empty(), now);
    let after = commanded(m, Command::Answer { call }, now);
    if m.calls.contains_key(call) {
        assert(after.calls =~= m.calls.insert(call, after.calls[call]));
    }
}

/// A call that is hung up ends with a `HANGUP` that tells the cause; it and the
/// way to it are forgotten, and the driver is told. A call that is not there is
/// not hung up.
pub proof fn law_hanging_up(m: ClientModel, call: u16, now: Instant)
    requires
        m.wf(),
    ensures
        ({
            let after = commanded(m, Command::Hangup { call }, now);
            let dg = after.out.last();
            &&& !m.calls.contains_key(call) ==> after == m
            &&& m.calls.contains_key(call) ==> {
                &&& sends(m, after, dg)
                &&& speaks(
                    dg,
                    m.calls[call].leg,
                    m.ts(now),
                    6,
                    5,
                    seq![IeModel { kind: 22, data: encode_utf8("Normal Clearing"@) }],
                )
                &&& after.calls == m.calls.remove(call)
                &&& forall|k: u16| #[trigger]
                    after.remote_index.contains_key(k) <==> m.remote_index.contains_key(k)
                        && m.remote_index[k] != call
                &&& forall|k: u16| #[trigger]
                    after.remote_index.contains_key(k) ==> after.remote_index[k]
                        == m.remote_index[k]
                &&& after.events == m.events.push(
                    EventModel::Ended { call, reason: "local hangup"@ },
                )
                &&& after == (ClientModel {
                    calls: after.calls,
                    remote_index: after.remote_index,
                    out: after.out,
                    events: after.events,
                    ..m
                })
            }
        }),
{
    let ies = seq![IeModel { kind: 22, data: encode_utf8("Normal Clearing"@) }];
    reveal_strlit("Normal Clearing");
    is_ascii_chars_encode_utf8("Normal Clearing"@);
    assert(ies[0].fits());
    assert(all_fit(ies));
    law_leg_speaks(m.calls[call].leg, m.ts(now), 6, 5, ies);
}

/// Hold and unhold: a reliable `HOLD` or `UNHOLD` goes out, and the call is on
/// hold, or up. Nothing is told. On a call that is not there they do nothing.
pub proof fn law_holding(m: ClientModel, call: u16, now: Instant)
    requires
        m.wf(),
        now.in_range(),
    ensures
        ({
            let held = commanded(m, Command::Hold { call }, now);
            let up = commanded(m, Command::Unhold { call }, now);
            &&& !m.calls.contains_key(call) ==> held == m && up == m
            &&& m.calls.contains_key(call) ==> {
                &&& goes_out(m, held, call, 4, 16, Seq::empty(), now)
                &&& goes_out(m, up, call, 4, 17, Seq::empty(), now)
                &&& only_call(m, held, call) && only_call(m, up, call)
                &&& held.events == m.events && up.events == m.events
                &&& held.calls[call] == (CallModel {
                    leg: held.calls[call].leg,
                    state: CallState::Held,
                    ..m.calls[call]
                })
                &&& up.calls[call] == (CallModel {
                    leg: up.calls[call].leg,
                    state: CallState::Up,
                    ..m.calls[call]
                })
            }
        }),
{
    let leg = m.calls[call].leg;
    law_leg_speaks(leg, m.ts(now), 4, 16, Seq::empty());
    law_reliable_frame_is_kept(leg, m.ts(now), 4, 16, Seq::empty(), now);
    law_leg_speaks(leg, m.ts(now), 4, 17, Seq::empty());
    law_reliable_frame_is_kept(leg, m.ts(now), 4, 17, Seq::empty(), now);
    let held = commanded(m, Command::Hold { call }, now);
    let up = commanded(m, Command::Unhold { call }, now);
    if m.calls.contains_key(call) {
        assert(held.calls =~= m.calls.insert(call, held.calls[call]));
        assert(up.calls =~= m.calls.insert(call, up.calls[call]));
    }
}

/// The digits of a telephone keypad.
pub open spec fn keypad(c: char) -> bool {
    '0' <= c <= '9' || c == '*' || c == '#' || 'A' <= c <= 'D'
}

/// A digit of the keypad goes out reliably as the subclass of a `DTMF` frame; so
/// does a small letter, as its capital. Nothing is told. Anything else, or a
/// call that is not there, sends nothing.
pub proof fn law_sending_a_digit(m: ClientModel, call: u16, digit: char, now: Instant)
    requires
        m.wf(),
        now.in_range(),
    ensures
        ({
            let after = commanded(m, Command::Dtmf { call, digit }, now);
            let small = 'a' <= digit <= 'd';
            let code = if small {
                digit as u32 - 32
            } else {
                digit as u32 as int
            };
            let sendable = m.calls.contains_key(call) && (keypad(digit) || small);
            &&& !sendable ==> after == m
            &&& sendable ==> {
                &&& goes_out(m, after, call, 1, code as u8, Seq::empty(), now)
                &&& only_call(m, after, call)
                &&& after.events == m.events
                &&& after.calls[call] == (CallModel {
                    leg: after.calls[call].leg,
                    ..m.calls[call]
                })
            }
        }),
{
    let leg = m.calls[call].leg;
    let after = commanded(m, Command::Dtmf { call, digit }, now);
    if dtmf_code(digit) is Some {
        let d = dtmf_code(digit)->0;
        law_leg_speaks(leg, m.ts(now), 1, d, Seq::empty());
        law_reliable_frame_is_kept(leg, m.ts(now), 1, d, Seq::empty(), now);
        if m.calls.contains_key(call) {
            assert(after.calls =~= m.calls.insert(call, after.calls[call]));
        }
    }
}

/// Audio of a call that is up goes out octet for octet: the first after it was
/// connected in a full frame of the call's format, which is counted but not
/// kept, and the rest in mini frames with the low half of the timestamp, which
/// change nothing. A call that is not up sends no audio.
#[verifier::spinoff_prover]
#[verifier::rlimit(60)]
pub proof fn law_sending_audio(m: ClientModel, call: u16, ulaw: Vec<u8>, now: Instant)
    requires
        m.wf(),
    ensures
        ({
            let after = commanded(m, Command::SendVoice { call, ulaw }, now);
            let dg = after.out.last();
            let up = m.calls.contains_key(call) && m.calls[call].state == CallState::Up;
            let leg = m.calls[call].leg;
            &&& !up ==> after == m
            &&& up ==> sends(m, after, dg) && after.events == m.events
            &&& up && !m.calls[call].sent_format ==> {
                &&& FrameModel::parse(dg) == Some(
                    FrameModel {
                        src_call: call,
                        dst_call: (leg.remote % 0x8000) as u16,
                        retransmit: false,
                        timestamp: m.ts(now),
                        oseq: leg.oseq,
                        iseq: leg.iseq,
                        frametype: 2,
                        subclass: (m.calls[call].fmt % 0x80) as u8,
                        ies: Seq::empty(),
                        media_payload: ulaw@,
                    },
                )
                &&& only_call(m, after, call)
                &&& after.calls[call] == (CallModel {
                    leg: LegModel { oseq: ((leg.oseq + 1) % 256) as u8, ..leg },
                    sent_format: true,
                    ..m.calls[call]
                })
            }
            &&& up && m.calls[call].sent_format ==> {
                &&& MiniModel::parse(dg) == Some(
                    MiniModel {
                        src_call: call,
                        timestamp16: (m.ts(now) % 0x1_0000) as u16,
                        payload: ulaw@,
                    },
                )
                &&& after == (ClientModel { out: after.out, ..m })
            }
        }),
{
    let after = commanded(m, Command::SendVoice { call, ulaw }, now);
    if m.calls.contains_key(call) && m.calls[call].state == CallState::Up {
        let c = m.calls[call];
        if !c.sent_format {
            let f = c.leg.frame(m.ts(now), 2, (c.fmt % 256) as u8, Seq::empty());
            assert(FrameModel::parse(f.wire_media(ulaw@)) == Some(
                FrameModel { media_payload: ulaw@, ..f.narrowed() },
            )) by {
                law_media_roundtrip(f, ulaw@);
            }
            assert(c.fmt % 256 % 128 == c.fmt % 128);
            assert(after.calls =~= m.calls.insert(call, after.calls[call]));
        } else {
            law_mini_roundtrip(
                MiniModel {
                    src_call: call,
                    timestamp16: (m.ts(now) % 0x1_0000) as u16,
                    payload: ulaw@,
                },
            );
        }
    }
}

// --- frames of a call ---------------------------------------------------------

/// The datagram is a full frame of the live call `k`, and not a request for a
/// new call nor a token that the call waits for.
pub open spec fn reaches(m: ClientModel, dg: Seq<u8>, f: FrameModel, k: u16) -> bool {
    &&& full_frame(dg)
    &&& FrameModel::parse(dg) == Some(f)
    &&& f.dst_call == k
    &&& m.calls.contains_key(k)
    &&& !(f.frametype == 6 && f.subclass == 1)
    &&& no_token(f.ies) || m.calls[k].dir != Dir::Out || m.calls[k].state != CallState::Trying
}

/// What every frame of a call does: its leg hears it, and the peer's number
/// leads to the call.
pub open spec fn heard(m: ClientModel, k: u16, f: FrameModel) -> ClientModel {
    ClientModel {
        calls: m.calls.insert(k, CallModel { leg: m.calls[k].leg.received(f), ..m.calls[k] }),
        remote_index: if f.src_call != 0 {
            m.remote_index.insert(f.src_call, k)
        } else {
            m.remote_index
        },
        ..m
    }
}

/// The frame is acknowledged: an `ACK` of the leg that has heard it goes out.
pub open spec fn acknowledges(before: ClientModel, after: ClientModel, leg: LegModel, now: Instant) -> bool {
    &&& sends(before, after, after.out.last())
    &&& speaks(after.out.last(), leg, before.ts(now), 6, 4, Seq::empty())
}

proof fn lemma_reached(m: ClientModel, dg: Seq<u8>, f: FrameModel, k: u16, now: Instant)
    requires
        m.wf(),
        reaches(m, dg, f, k),
    ensures
        m.on_datagram(dg, now) == heard(m, k, f).on_counted(k, f, now),
{
    reveal(ClientModel::on_frame);
    law_token_is_read(f.ies, IeModel { kind: 54, data: Seq::empty() });
    assert(16 <= k);
    assert(m.counted(k, f) =~= heard(m, k, f));
}

/// A full frame of audio is acknowledged, and its timestamp is remembered as
/// the one that mini frames follow; the driver gets the audio if the call is
/// up.
pub proof fn law_full_audio_arrives(
    m: ClientModel,
    dg: Seq<u8>,
    f: FrameModel,
    k: u16,
    now: Instant,
)
    requires
        m.wf(),
        reaches(m, dg, f, k),
        f.frametype == 2,
    ensures
        ({
            let after = m.on_datagram(dg, now);
            let h = heard(m, k, f);
            &&& acknowledges(m, after, h.calls[k].leg, now)
            &&& after.calls == h.calls.insert(
                k,
                CallModel { last_voice_ts: f.timestamp, voice_ts_seen: true, ..h.calls[k] },
            )
            &&& after.events == if m.calls[k].state == CallState::Up {
                m.events.push(
                    EventModel::Voice { call: k, ts: f.timestamp, ulaw: f.media_payload },
                )
            } else {
                m.events
            }
            &&& after == (ClientModel {
                calls: after.calls,
                out: after.out,
                events: after.events,
                ..h
            })
        }),
{
    lemma_reached(m, dg, f, k, now);
    reveal(ClientModel::on_counted);
    law_leg_speaks(heard(m, k, f).calls[k].leg, m.ts(now), 6, 4, Seq::empty());
}

/// A call that the peer accepts takes the format that the peer chose, if it
/// chose one; the frame is acknowledged, and nothing is told.
pub proof fn law_accepted_call_takes_the_format(
    m: ClientModel,
    dg: Seq<u8>,
    f: FrameModel,
    k: u16,
    e: IeModel,
    now: Instant,
)
    requires
        m.wf(),
        reaches(m, dg, f, k),
        f.frametype == 6,
        f.subclass == 7,
    ensures
        ({
            let after = m.on_datagram(dg, now);
            let h = heard(m, k, f);
            &&& acknowledges(m, after, h.calls[k].leg, now)
            &&& after.calls == h.calls.insert(
                k,
                CallModel { fmt: after.calls[k].fmt, ..h.calls[k] },
            )
            &&& leads(f.ies, e) && e.kind == 9 && e.data.len() == 4 ==> after.calls[k].fmt
                == e.data[0] * 0x100_0000 + e.data[1] * 0x1_0000 + e.data[2] * 0x100 + e.data[3]
            &&& leads(f.ies, e) && e.kind == 9 && e.data.len() != 4 ==> after.calls[k].fmt
                == m.calls[k].fmt
            &&& lacks(f.ies, 9) ==> after.calls[k].fmt == m.calls[k].fmt
            &&& after == (ClientModel { calls: after.calls, out: after.out, ..h })
        }),
{
    lemma_reached(m, dg, f, k, now);
    reveal(ClientModel::on_counted);
    law_leg_speaks(heard(m, k, f).calls[k].leg, m.ts(now), 6, 4, Seq::empty());
    law_search_finds_the_first(f.ies, 9);
    if leads(f.ies, e) && e.kind == 9 {
        lemma_leader_is_found(f.ies, e);
    }
}

/// The peer rings: the call is ringing, the frame is acknowledged, and the
/// driver is told.
pub proof fn law_peer_rings(m: ClientModel, dg: Seq<u8>, f: FrameModel, k: u16, now: Instant)
    requires
        m.wf(),
        reaches(m, dg, f, k),
        f.frametype == 4,
        f.subclass == 3,
    ensures
        ({
            let after = m.on_datagram(dg, now);
            let h = heard(m, k, f);
            &&& acknowledges(m, after, h.calls[k].leg, now)
            &&& after.calls == h.calls.insert(
                k,
                CallModel { state: CallState::Ringing, ..h.calls[k] },
            )
            &&& after.events == m.events.push(EventModel::Ringing { call: k })
            &&& after == (ClientModel {
                calls: after.calls,
                out: after.out,
                events: after.events,
                ..h
            })
        }),
{
    lemma_reached(m, dg, f, k, now);
    reveal(ClientModel::on_counted);
    law_leg_speaks(heard(m, k, f).calls[k].leg, m.ts(now), 6, 4, Seq::empty());
}

/// The peer answers: the call is up and declares its format anew, the frame is
/// acknowledged, and the driver is told.
pub proof fn law_peer_answers(m: ClientModel, dg: Seq<u8>, f: FrameModel, k: u16, now: Instant)
    requires
        m.wf(),
        reaches(m, dg, f, k),
        f.frametype == 4,
        f.subclass == 4,
    ensures
        ({
            let after = m.on_datagram(dg, now);
            let h = heard(m, k, f);
            &&& acknowledges(m, after, h.calls[k].leg, now)
            &&& after.calls == h.calls.insert(
                k,
                CallModel { state: CallState::Up, sent_format: false, ..h.calls[k] },
            )
            &&& after.events == m.events.push(EventModel::Answered { call: k })
            &&& after == (ClientModel {
                calls: after.calls,
                out: after.out,
                events: after.events,
                ..h
            })
        }),
{
    lemma_reached(m, dg, f, k, now);
    reveal(ClientModel::on_counted);
    law_leg_speaks(heard(m, k, f).calls[k].leg, m.ts(now), 6, 4, Seq::empty());
}

/// The peer ends the call, by a `HANGUP`, a `REJECT` or because it is busy: the
/// frame is acknowledged, the call and every way to it are forgotten, and the
/// driver is told why.
pub proof fn law_peer_ends_the_call(
    m: ClientModel,
    dg: Seq<u8>,
    f: FrameModel,
    k: u16,
    now: Instant,
)
    requires
        m.wf(),
        reaches(m, dg, f, k),
        f.frametype == 6 && f.subclass == 5 || f.frametype == 6 && f.subclass == 6 || f.frametype
            == 4 && f.subclass == 5,
    ensures
        ({
            let after = m.on_datagram(dg, now);
            let h = heard(m, k, f);
            &&& acknowledges(m, after, h.calls[k].leg, now)
            &&& after.calls == m.calls.remove(k)
            &&& forall|n: u16| #[trigger]
                after.remote_index.contains_key(n) <==> m.remote_index.contains_key(n)
                    && m.remote_index[n] != k && (n != f.src_call || n == 0)
            &&& forall|n: u16| #[trigger]
                after.remote_index.contains_key(n) ==> after.remote_index[n] == m.remote_index[n]
            &&& after.events.len() == m.events.len() + 1
            &&& after.events.drop_last() == m.events
            &&& after.events.last() is Ended
            &&& after.events.last()->Ended_call == k
            &&& f.frametype == 6 && f.subclass == 5 ==> after.events.last()->Ended_reason
                == "hangup by remote"@
            &&& f.frametype == 4 ==> after.events.last()->Ended_reason == "busy"@
            &&& after == (ClientModel {
                calls: after.calls,
                remote_index: after.remote_index,
                out: after.out,
                events: after.events,
                ..m
            })
        }),
{
    lemma_reached(m, dg, f, k, now);
    reveal(ClientModel::on_counted);
    let h = heard(m, k, f);
    let after = m.on_datagram(dg, now);
    law_leg_speaks(h.calls[k].leg, m.ts(now), 6, 4, Seq::empty());
    assert(after.calls =~= m.calls.remove(k));
    assert(after.events.drop_last() =~= m.events);
}

/// A refusal tells the first octet of its cause code, if there is one.
pub proof fn law_refusal_tells_its_cause(
    m: ClientModel,
    dg: Seq<u8>,
    f: FrameModel,
    k: u16,
    e: IeModel,
    now: Instant,
)
    requires
        m.wf(),
        reaches(m, dg, f, k),
        f.frametype == 6 && f.subclass == 6,
    ensures
        ({
            let reason = m.on_datagram(dg, now).events.last()->Ended_reason;
            &&& leads(f.ies, e) && e.kind == 42 && e.data.len() > 0 ==> reason
                == "refused causecode=Some("@ + crate::text::decimal(e.data[0] as nat) + ")"@
            &&& lacks(f.ies, 42) || leads(f.ies, e) && e.kind == 42 && e.data.len() == 0 ==> reason
                == "refused causecode=None"@
        }),
{
    lemma_reached(m, dg, f, k, now);
    reveal(ClientModel::on_counted);
    law_search_finds_the_first(f.ies, 42);
    if leads(f.ies, e) && e.kind == 42 {
        lemma_leader_is_found(f.ies, e);
    }
    reveal_strlit("refused causecode=");
    reveal_strlit("Some(");
    reveal_strlit("refused causecode=Some(");
    reveal_strlit("None");
    reveal_strlit("refused causecode=None");
    assert("refused causecode="@ + "None"@ =~= "refused causecode=None"@);
    if leads(f.ies, e) && e.kind == 42 && e.data.len() > 0 {
        let d = crate::text::decimal(e.data[0] as nat);
        assert("refused causecode="@ + ("Some("@ + d + ")"@) =~= "refused causecode=Some("@ + d
            + ")"@);
    }
}

/// Acknowledgements and answers to pings and lag requests are heard, and that is
/// all: nothing is sent and nothing is told.
pub proof fn law_quiet_frames(m: ClientModel, dg: Seq<u8>, f: FrameModel, k: u16, now: Instant)
    requires
        m.wf(),
        reaches(m, dg, f, k),
        f.frametype == 6,
        f.subclass == 4 || f.subclass == 3 || f.subclass == 12,
    ensures
        m.on_datagram(dg, now) == heard(m, k, f),
{
    lemma_reached(m, dg, f, k, now);
    reveal(ClientModel::on_counted);
}

/// A ping and a lag request on a call are answered with a `PONG` and a `LAGRP`
/// of the same timestamp, which are counted but not kept; nothing is told.
pub proof fn law_requests_on_a_call(m: ClientModel, dg: Seq<u8>, f: FrameModel, k: u16, now: Instant)
    requires
        m.wf(),
        reaches(m, dg, f, k),
        f.frametype == 6,
        f.subclass == 2 || f.subclass == 11,
    ensures
        ({
            let after = m.on_datagram(dg, now);
            let h = heard(m, k, f);
            let leg = h.calls[k].leg;
            &&& sends(m, after, after.out.last())
            &&& speaks(
                after.out.last(),
                leg,
                f.timestamp,
                6,
                if f.subclass == 2 {
                    3
                } else {
                    12
                },
                Seq::empty(),
            )
            &&& after.calls == h.calls.insert(
                k,
                CallModel {
                    leg: LegModel { oseq: ((leg.oseq + 1) % 256) as u8, ..leg },
                    ..h.calls[k]
                },
            )
            &&& after == (ClientModel { calls: after.calls, out: after.out, ..h })
        }),
{
    lemma_reached(m, dg, f, k, now);
    reveal(ClientModel::on_counted);
    let leg = heard(m, k, f).calls[k].leg;
    law_leg_speaks(leg, f.timestamp, 6, 3, Seq::empty());
    law_leg_speaks(leg, f.timestamp, 6, 12, Seq::empty());
}

/// A digit of the peer is acknowledged, and the driver gets the character of its
/// subclass; comfort noise and the other signals are only acknowledged.
pub proof fn law_digits_noise_and_signals(
    m: ClientModel,
    dg: Seq<u8>,
    f: FrameModel,
    k: u16,
    now: Instant,
)
    requires
        m.wf(),
        reaches(m, dg, f, k),
        f.frametype == 1 || f.frametype == 10 || f.frametype == 4 && !(3 <= f.subclass <= 5),
    ensures
        ({
            let after = m.on_datagram(dg, now);
            let h = heard(m, k, f);
            &&& acknowledges(m, after, h.calls[k].leg, now)
            &&& after.events == if f.frametype == 1 {
                m.events.push(EventModel::Dtmf { call: k, digit: f.subclass as char })
            } else {
                m.events
            }
            &&& after == (ClientModel { out: after.out, events: after.events, ..h })
        }),
{
    lemma_reached(m, dg, f, k, now);
    reveal(ClientModel::on_counted);
    law_leg_speaks(heard(m, k, f).calls[k].leg, m.ts(now), 6, 4, Seq::empty());
}

/// A frame of any other kind is acknowledged and logged, and changes nothing
/// else; so is a challenge of an inbound call.
pub proof fn law_other_frames_are_logged(
    m: ClientModel,
    dg: Seq<u8>,
    f: FrameModel,
    k: u16,
    now: Instant,
)
    requires
        m.wf(),
        reaches(m, dg, f, k),
        f.frametype != 1 && f.frametype != 2 && f.frametype != 4 && f.frametype != 10,
        f.frametype == 6 ==> f.subclass == 10 || f.subclass == 9 || f.subclass > 12 || f.subclass
            == 0 || f.subclass == 8 && m.calls[k].dir == Dir::In,
    ensures
        ({
            let after = m.on_datagram(dg, now);
            let h = heard(m, k, f);
            &&& acknowledges(m, after, h.calls[k].leg, now)
            &&& after.events.len() == m.events.len() + 1
            &&& after.events.drop_last() == m.events
            &&& after.events.last() is Log
            &&& after == (ClientModel { out: after.out, events: after.events, ..h })
        }),
{
    lemma_reached(m, dg, f, k, now);
    reveal(ClientModel::on_counted);
    law_leg_speaks(heard(m, k, f).calls[k].leg, m.ts(now), 6, 4, Seq::empty());
    assert(m.on_datagram(dg, now).events.drop_last() =~= m.events);
}

/// The frame offers MD5: the second bit of its authentication methods.
pub open spec fn md5_offered(ies: Seq<IeModel>) -> bool {
    exists|e: IeModel| #[trigger]
        leads(ies, e) && e.kind == 14 && e.data.len() == 2 && e.data[1] / 2 % 2 == 1
}

/// What is offered is read from the authentication methods.
pub proof fn law_offer_is_read(ies: Seq<IeModel>)
    ensures
        offers_md5(ies) <==> md5_offered(ies),
{
    law_search_finds_the_first(ies, 14);
    if offers_md5(ies) {
        let e = first_of(ies, 14)->0;
        let v: u16 = e.to_u16()->0;
        assert((v & 2 != 0) == (v / 2 % 2 == 1)) by (bit_vector);
        assert(v == e.data[0] * 256 + e.data[1]);
        assert(v / 2 % 2 == e.data[1] / 2 % 2);
        assert(leads(ies, e));
    }
    if md5_offered(ies) {
        let e = choose|e: IeModel| #[trigger]
            leads(ies, e) && e.kind == 14 && e.data.len() == 2 && e.data[1] / 2 % 2 == 1;
        lemma_leader_is_found(ies, e);
        let v: u16 = e.to_u16()->0;
        assert((v & 2 != 0) == (v / 2 % 2 == 1)) by (bit_vector);
        assert(v == e.data[0] * 256 + e.data[1]);
        assert(v / 2 % 2 == e.data[1] / 2 % 2);
    }
}

/// An outbound call that is challenged answers with the MD5 of the challenge and
/// the secret, and nothing else, in a reliable `AUTHREP`; if the peer does not
/// offer MD5, or gives no challenge, it answers nothing, and this is logged.
pub proof fn law_call_is_challenged(
    m: ClientModel,
    dg: Seq<u8>,
    f: FrameModel,
    k: u16,
    c: IeModel,
    now: Instant,
)
    requires
        m.wf(),
        now.in_range(),
        reaches(m, dg, f, k),
        f.frametype == 6,
        f.subclass == 8,
        m.calls[k].dir == Dir::Out,
    ensures
        ({
            let after = m.on_datagram(dg, now);
            let h = heard(m, k, f);
            let answer = crate::md5_answer(c.to_str(), m.cfg.secret);
            &&& md5_offered(f.ies) && leads(f.ies, c) && c.kind == 15 ==> {
                &&& encode_utf8(answer).len() <= 255 ==> goes_out(
                    h,
                    after,
                    k,
                    6,
                    9,
                    seq![IeModel { kind: 16, data: encode_utf8(answer) }],
                    now,
                )
                &&& after.events == m.events
                &&& after.calls == h.calls.insert(
                    k,
                    CallModel { leg: after.calls[k].leg, ..h.calls[k] },
                )
                &&& after == (ClientModel { calls: after.calls, out: after.out, ..h })
            }
            &&& !md5_offered(f.ies) || lacks(f.ies, 15) ==> {
                &&& after.events.len() == m.events.len() + 1
                &&& after.events.drop_last() == m.events
                &&& after.events.last() is Log
                &&& after == (ClientModel { events: after.events, ..h })
            }
        }),
{
    lemma_reached(m, dg, f, k, now);
    reveal(ClientModel::on_counted);
    law_offer_is_read(f.ies);
    law_search_finds_the_first(f.ies, 15);
    let h = heard(m, k, f);
    let after = m.on_datagram(dg, now);
    if leads(f.ies, c) && c.kind == 15 {
        lemma_leader_is_found(f.ies, c);
        let answer = crate::md5_answer(c.to_str(), m.cfg.secret);
        let ies = seq![IeModel { kind: 16, data: encode_utf8(answer) }];
        law_reliable_frame_is_kept(h.calls[k].leg, m.ts(now), 6, 9, ies, now);
        if encode_utf8(answer).len() <= 255 {
            assert(ies[0].fits());
            law_leg_speaks(h.calls[k].leg, m.ts(now), 6, 9, ies);
        }
    }
    assert(m.events.push(after.events.last()).drop_last() =~= m.events);
}

// --- calls that arrive --------------------------------------------------------

/// The text of an element: what the first of the kind says, or nothing.
pub proof fn law_text_is_read(ies: Seq<IeModel>, e: IeModel, kind: u8)
    ensures
        leads(ies, e) && e.kind == kind ==> text_of(ies, kind) == e.to_str(),
        lacks(ies, kind) ==> text_of(ies, kind).len() == 0,
{
    law_search_finds_the_first(ies, kind);
    if leads(ies, e) && e.kind == kind {
        lemma_leader_is_found(ies, e);
    }
}

/// A call that arrives gets a number and a leg of its own that has heard the
/// request; it is accepted in the account's format, then rings, both reliably;
/// the peer's number leads to it; and the driver is told who calls whom.
#[verifier::rlimit(60)]
pub proof fn law_call_arrives(m: ClientModel, dg: Seq<u8>, f: FrameModel, now: Instant)
    requires
        m.wf(),
        now.in_range(),
        full_frame(dg),
        FrameModel::parse(dg) == Some(f),
        f.frametype == 6 && f.subclass == 1,
        no_token(f.ies),
    ensures
        ({
            let after = m.on_datagram(dg, now);
            let n = m.next_callno();
            let a = after.out[m.out.len() as int];
            let r = after.out[m.out.len() as int + 1];
            let caller = text_of(f.ies, 2);
            let leg = LegModel::new(n).note_recv(f);
            &&& after.out == m.out.push(a).push(r)
            &&& FrameModel::parse(a) is Some
            &&& speaks(a, leg, m.ts(now), 6, 7, FrameModel::parse(a)->0.ies)
            &&& FrameModel::parse(a)->0.ies.len() == 1
            &&& holds_u32(FrameModel::parse(a)->0.ies, 9, m.cfg.audio_format)
            &&& after.calls == m.calls.insert(n, after.calls[n])
            &&& exists|mid: LegModel| #[trigger]
                keeps(leg, mid, a, m.ts(now), now) && speaks(
                    r,
                    mid,
                    m.ts(now),
                    4,
                    3,
                    Seq::empty(),
                ) && keeps(mid, after.calls[n].leg, r, m.ts(now), now)
            &&& after.calls[n] == (CallModel {
                leg: after.calls[n].leg,
                state: CallState::Ringing,
                dir: Dir::In,
                peer: caller,
                fmt: m.cfg.audio_format,
                sent_format: false,
                last_voice_ts: 0,
                voice_ts_seen: false,
            })
            &&& after.remote_index == m.remote_index.insert(f.src_call, n)
            &&& after.events == m.events.push(
                EventModel::Incoming { call: n, from: caller, to: text_of(f.ies, 1) },
            )
            &&& after == (ClientModel {
                calls: after.calls,
                remote_index: after.remote_index,
                callno_next: after.callno_next,
                out: after.out,
                events: after.events,
                ..m
            })
        }),
{
    lemma_new_is_routed(m, dg, f, now);
    let n = m.next_callno();
    let leg = LegModel::new(n).note_recv(f);
    let ts = m.ts(now);
    let ies = seq![IeModel::of_u32(9, m.cfg.audio_format)];
    let mid = leg.sent(ts, 6, 7, ies, now);
    let a = leg.frame(ts, 6, 7, ies).wire();
    let r = mid.frame(ts, 4, 3, Seq::empty()).wire();
    lemma_accepts_and_rings(leg, ts, m.cfg.audio_format, now);
    let after = m.on_incoming_new(f, now);
    assert(after.calls[n].leg == mid.sent(ts, 4, 3, Seq::empty(), now));
    assert(after.calls =~= m.calls.insert(n, after.calls[n]));
    assert(after.out =~= m.out.push(a).push(r));
    assert(after.out[m.out.len() as int] == a && after.out[m.out.len() as int + 1] == r);
}

proof fn lemma_new_is_routed(m: ClientModel, dg: Seq<u8>, f: FrameModel, now: Instant)
    requires
        full_frame(dg),
        FrameModel::parse(dg) == Some(f),
        f.frametype == 6 && f.subclass == 1,
        no_token(f.ies),
    ensures
        m.on_datagram(dg, now) == m.on_incoming_new(f, now),
{
    reveal(ClientModel::on_frame);
    law_token_is_read(f.ies, IeModel { kind: 54, data: Seq::empty() });
}

proof fn lemma_accepts_and_rings(leg: LegModel, ts: u32, fmt: u32, now: Instant)
    requires
        now.in_range(),
    ensures
        ({
            let ies = seq![IeModel::of_u32(9, fmt)];
            let mid = leg.sent(ts, 6, 7, ies, now);
            let a = leg.frame(ts, 6, 7, ies).wire();
            let r = mid.frame(ts, 4, 3, Seq::empty()).wire();
            &&& speaks(a, leg, ts, 6, 7, ies)
            &&& holds_u32(ies, 9, fmt)
            &&& keeps(leg, mid, a, ts, now)
            &&& speaks(r, mid, ts, 4, 3, Seq::empty())
            &&& keeps(mid, mid.sent(ts, 4, 3, Seq::empty(), now), r, ts, now)
        }),
{
    let ies = seq![IeModel::of_u32(9, fmt)];
    assert(ies[0].fits());
    lemma_leads_at(ies, 0);
    law_leg_speaks(leg, ts, 6, 7, ies);
    law_reliable_frame_is_kept(leg, ts, 6, 7, ies, now);
    let mid = leg.sent(ts, 6, 7, ies, now);
    law_leg_speaks(mid, ts, 4, 3, Seq::empty());
    law_reliable_frame_is_kept(mid, ts, 4, 3, Seq::empty(), now);
}

/// An outbound call that gets a token asks again, unchanged but for the token:
/// a fresh leg under the same number, the same elements, and nothing is told.
pub proof fn law_token_for_a_call(
    m: ClientModel,
    dg: Seq<u8>,
    f: FrameModel,
    k: u16,
    token: Seq<u8>,
    now: Instant,
)
    requires
        m.wf(),
        now.in_range(),
        full_frame(dg),
        FrameModel::parse(dg) == Some(f),
        f.dst_call == k,
        m.calls.contains_key(k),
        m.calls[k].dir == Dir::Out,
        m.calls[k].state == CallState::Trying,
        leads(f.ies, IeModel { kind: 54, data: token }),
        0 < token.len() <= 255,
        encode_utf8(m.cfg.username).len() <= 255,
        encode_utf8(m.calls[k].peer).len() <= 255,
    ensures
        ({
            let after = m.on_datagram(dg, now);
            let g = FrameModel::parse(after.out.last());
            &&& sends(m, after, after.out.last())
            &&& g is Some
            &&& speaks(after.out.last(), LegModel::new(k), m.ts(now), 6, 1, g->0.ies)
            &&& asks_for_call(g->0.ies, m.cfg, m.calls[k].peer, token)
            &&& keeps(LegModel::new(k), after.calls[k].leg, after.out.last(), m.ts(now), now)
            &&& only_call(m, after, k)
            &&& after.calls[k] == (CallModel { leg: after.calls[k].leg, ..m.calls[k] })
            &&& after.events == m.events
        }),
{
    reveal(ClientModel::on_frame);
    law_token_is_read(f.ies, IeModel { kind: 54, data: token });
    assert(16 <= k);
    let after = m.on_datagram(dg, now);
    assert(after == m.resend_new_with_token(k, token, now));
    let leg = LegModel::new(k);
    let ies = new_ies(m.cfg, m.calls[k].peer, token);
    lemma_asks_for_call(m.cfg, m.calls[k].peer, token);
    law_leg_speaks(leg, m.ts(now), 6, 1, ies);
    law_reliable_frame_is_kept(leg, m.ts(now), 6, 1, ies, now);
    assert(after.calls =~= m.calls.insert(k, after.calls[k]));
}

/// A frame that no leg is addressed by changes nothing; it is logged, unless it
/// is an `ACK`, a `PONG` or an `INVAL`.
pub proof fn law_stray_frames(m: ClientModel, dg: Seq<u8>, f: FrameModel, now: Instant)
    requires
        m.wf(),
        full_frame(dg),
        FrameModel::parse(dg) == Some(f),
        f.dst_call != 1,
        !m.calls.contains_key(f.dst_call),
        !(f.frametype == 6 && f.subclass == 1),
        !(f.frametype == 6 && (f.subclass == 2 || f.subclass == 30) && f.dst_call == 0),
    ensures
        ({
            let after = m.on_datagram(dg, now);
            &&& f.frametype == 6 && (f.subclass == 4 || f.subclass == 3 || f.subclass == 10)
                ==> after == m
            &&& !(f.frametype == 6 && (f.subclass == 4 || f.subclass == 3 || f.subclass == 10))
                ==> after.events.len() == m.events.len() + 1 && after.events.drop_last()
                == m.events && after.events.last() is Log && after == (ClientModel {
                events: after.events,
                ..m
            })
        }),
{
    reveal(ClientModel::on_frame);
    assert(m.events.push(m.on_datagram(dg, now).events.last()).drop_last() =~= m.events);
}

/// What is no frame is ignored.
pub proof fn law_garbage_is_ignored(m: ClientModel, dg: Seq<u8>, now: Instant)
    requires
        dg.len() < 4 || dg[0] >= 0x80 && FrameModel::parse(dg) is None,
    ensures
        m.on_datagram(dg, now) == m,
{
}

} // verus!
