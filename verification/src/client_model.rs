//! What the state machine of one account does, as functions of its state.

use vstd::prelude::*;

use crate::consts::{authmethod, control, frametype, iax, ie as iet, IAX_PROTO_VERSION};
use crate::frame::{full_frame, FrameModel, MiniModel};
use crate::ie::{first_of, IeModel};
use crate::leg::{resends, some_hopeless, LegModel};
use crate::md5_answer;
use crate::table::ids_of;
use crate::text;
use crate::time::Instant;

verus! {

/// Pause between two keepalives: 15 s.
pub const KEEPALIVE_EVERY: u64 = 15_000_000_000;

/// Shortest pause between two registration requests: 10 s.
pub const REG_GUARD: u64 = 10_000_000_000;

/// Pause before a new attempt after a failed registration: 5 s.
pub const REG_RETRY: u64 = 5_000_000_000;

/// Call number of the registration leg.
pub const CALLNO_REG: u16 = 1;

/// Call number of the keepalives.
pub const CALLNO_KEEPALIVE: u16 = 2;

/// Lowest call number of a call.
pub const CALLNO_CALL_BASE: u16 = 16;

/// Highest call number of a call.
pub const CALLNO_CALL_LAST: u16 = 0x1FFF;

/// How many call numbers there are for calls.
pub const CALLNO_COUNT: u16 = 8176;

/// How many call numbers are tried before the search for a free one ends.
pub const CALLNO_TRIES: u16 = 0x7000;

/// Lowest call number of the answers to a qualify.
pub const CALLNO_QUALIFY_BASE: u16 = 0x2000;

/// Highest call number of the answers to a qualify.
pub const CALLNO_QUALIFY_LAST: u16 = 0x2FFF;

/// State of the registration.
#[derive(Debug, Clone, Copy, PartialEq, Eq, Structural)]
pub enum RegState {
    Idle,
    Registering,
    Registered,
}

/// State of a call.
#[derive(Debug, Clone, Copy, PartialEq, Eq, Structural)]
pub enum CallState {
    /// Outbound: the `NEW` is sent, acceptance or authentication is awaited.
    Trying,
    /// Ringing: here, if the call is inbound; at the peer, if it is outbound.
    Ringing,
    /// Connected: audio flows.
    Up,
    /// On hold, put there from this side.
    Held,
}

/// Which side placed a call.
#[derive(Debug, Clone, Copy, PartialEq, Eq, Structural)]
pub enum Dir {
    In,
    Out,
}

/// What an account's configuration holds.
#[verifier::ext_equal]
pub ghost struct ConfigModel {
    pub name: Seq<char>,
    pub username: Seq<char>,
    pub secret: Seq<char>,
    pub refresh: u16,
    pub audio_format: u32,
}

/// What an event tells the driver.
#[verifier::ext_equal]
pub ghost enum EventModel {
    Registered,
    RegisterLost { reason: Seq<char> },
    Incoming { call: u16, from: Seq<char>, to: Seq<char> },
    Dialing { call: u16, to: Seq<char> },
    Ringing { call: u16 },
    Answered { call: u16 },
    Voice { call: u16, ts: u32, ulaw: Seq<u8> },
    Ended { call: u16, reason: Seq<char> },
    Dtmf { call: u16, digit: char },
    Log(Seq<char>),
}

/// What is known of a call.
#[verifier::ext_equal]
pub ghost struct CallModel {
    pub leg: LegModel,
    pub state: CallState,
    pub dir: Dir,
    pub peer: Seq<char>,
    pub fmt: u32,
    pub sent_format: bool,
    pub last_voice_ts: u32,
    pub voice_ts_seen: bool,
}

/// The whole state of one account.
#[verifier::ext_equal]
pub ghost struct ClientModel {
    pub cfg: ConfigModel,
    pub start: Instant,
    pub reg: LegModel,
    pub reg_state: RegState,
    pub refresh: u16,
    pub calltoken: Option<Seq<u8>>,
    pub next_reg: Instant,
    pub next_keepalive: Instant,
    pub calls: Map<u16, CallModel>,
    pub remote_index: Map<u16, u16>,
    pub callno_next: u16,
    pub qualify_next: u16,
    pub out: Seq<Seq<u8>>,
    pub events: Seq<EventModel>,
}

// --- timestamps of mini frames ----------------------------------------------

/// Distance between two timestamps.
pub open spec fn ts_gap(a: int, b: int) -> int {
    if a >= b {
        a - b
    } else {
        b - a
    }
}

/// The 32-bit timestamps with the given low half whose high half is that of
/// `last`, one less and one more (modulo 2^32).
pub open spec fn ts_candidate(last: u32, ts16: u16, step: int) -> u32 {
    ((last / 0x1_0000 * 0x1_0000 + ts16 + step * 0x1_0000) % 0x1_0000_0000) as u32
}

/// The full timestamp of a mini frame: of the candidates the one nearest to
/// the last full timestamp, on a tie the lower candidate; without a last full
/// timestamp the 16 bits as they are.
pub open spec fn full_ts(last: u32, ts16: u16, seen: bool) -> u32 {
    let lower = ts_candidate(last, ts16, -1);
    let same = ts_candidate(last, ts16, 0);
    let upper = ts_candidate(last, ts16, 1);
    let best = if ts_gap(lower as int, last as int) <= ts_gap(same as int, last as int) {
        lower
    } else {
        same
    };
    if !seen {
        ts16 as u32
    } else if ts_gap(best as int, last as int) <= ts_gap(upper as int, last as int) {
        best
    } else {
        upper
    }
}

// --- call numbers -----------------------------------------------------------

/// The call number after `n`, in the cycle of the numbers for calls.
pub open spec fn callno_after(n: u16) -> u16 {
    if n >= CALLNO_CALL_LAST {
        CALLNO_CALL_BASE
    } else {
        (n + 1) as u16
    }
}

/// The call number after `n`, in the cycle of the numbers for qualifies.
pub open spec fn qualify_after(n: u16) -> u16 {
    if n >= CALLNO_QUALIFY_LAST {
        CALLNO_QUALIFY_BASE
    } else {
        (n + 1) as u16
    }
}

/// The number that a search of at most `tries` steps from `cursor` finds, and
/// where the next search starts. A search that finds none gives the lowest
/// number.
pub open spec fn callno_search(calls: Map<u16, CallModel>, cursor: u16, tries: nat) -> (u16, u16)
    decreases tries,
{
    if tries == 0 {
        (CALLNO_CALL_BASE, cursor)
    } else if !calls.contains_key(cursor) {
        (cursor, callno_after(cursor))
    } else {
        callno_search(calls, callno_after(cursor), (tries - 1) as nat)
    }
}

/// A table without the entries that lead to `local`.
pub open spec fn without_target(index: Map<u16, u16>, local: u16) -> Map<u16, u16> {
    Map::new(|k: u16| index.contains_key(k) && index[k] != local, |k: u16| index[k])
}

// --- pieces of frames -------------------------------------------------------

/// The character of a DTMF digit that can be sent, as the subclass of its
/// frame: `0` to `9`, `*`, `#` and `A` to `D` in either case.
pub open spec fn dtmf_code(digit: char) -> Option<u8> {
    if '0' <= digit <= '9' || digit == '*' || digit == '#' || 'A' <= digit <= 'D' {
        Some(digit as u8)
    } else if 'a' <= digit <= 'd' {
        Some((digit as u8 - 32) as u8)
    } else {
        None
    }
}

/// The text of an element, empty if there is none of the kind.
pub open spec fn text_of(ies: Seq<IeModel>, kind: u8) -> Seq<char> {
    match first_of(ies, kind) {
        Some(i) => i.to_str(),
        None => Seq::empty(),
    }
}

/// The 16-bit number of an element, if there is one of the kind.
pub open spec fn u16_of(ies: Seq<IeModel>, kind: u8) -> Option<u16> {
    match first_of(ies, kind) {
        Some(i) => i.to_u16(),
        None => None,
    }
}

/// The 32-bit number of an element, if there is one of the kind.
pub open spec fn u32_of(ies: Seq<IeModel>, kind: u8) -> Option<u32> {
    match first_of(ies, kind) {
        Some(i) => i.to_u32(),
        None => None,
    }
}

/// The first octet of the cause code element.
pub open spec fn cause_code(ies: Seq<IeModel>) -> Option<u8> {
    match first_of(ies, iet::CAUSECODE) {
        Some(i) => if i.data.len() > 0 {
            Some(i.data[0])
        } else {
            None
        },
        None => None,
    }
}

/// The frame offers MD5 authentication.
pub open spec fn offers_md5(ies: Seq<IeModel>) -> bool {
    match u16_of(ies, iet::AUTHMETHODS) {
        Some(m) => m & authmethod::MD5 != 0,
        None => false,
    }
}

/// A call token that is not empty.
pub open spec fn token_of(ies: Seq<IeModel>) -> Option<Seq<u8>> {
    match first_of(ies, iet::CALLTOKEN) {
        Some(i) => if i.data.len() > 0 {
            Some(i.data)
        } else {
            None
        },
        None => None,
    }
}

/// The elements of a `NEW`, with a call token.
pub open spec fn new_ies(cfg: ConfigModel, called: Seq<char>, token: Seq<u8>) -> Seq<IeModel> {
    seq![
        IeModel::of_u16(iet::VERSION, IAX_PROTO_VERSION),
        IeModel::of_str(iet::CALLING_NUMBER, cfg.username),
        IeModel::of_str(iet::CALLING_NAME, "iax2"@),
        IeModel::of_str(iet::USERNAME, cfg.username),
        IeModel::of_u32(iet::CAPABILITY, cfg.audio_format),
        IeModel::of_u32(iet::FORMAT, cfg.audio_format),
        IeModel::of_str(iet::CALLED_NUMBER, called),
        IeModel { kind: iet::CALLTOKEN, data: token },
    ]
}

/// The frame is of type `IAX` with this subclass.
pub open spec fn is_iax(f: FrameModel, sc: u8) -> bool {
    f.frametype == frametype::IAX && f.subclass == sc
}

/// The frame is of type `CONTROL` with this subclass.
pub open spec fn is_control(f: FrameModel, sc: u8) -> bool {
    f.frametype == frametype::CONTROL && f.subclass == sc
}

impl CallModel {
    /// A call that starts.
    pub open spec fn new(leg: LegModel, state: CallState, dir: Dir, peer: Seq<char>, fmt: u32) -> CallModel {
        CallModel {
            leg,
            state,
            dir,
            peer,
            fmt,
            sent_format: false,
            last_voice_ts: 0,
            voice_ts_seen: false,
        }
    }
}

impl ClientModel {
    /// The state of a new account at the instant `now`.
    pub open spec fn new(cfg: ConfigModel, now: Instant) -> ClientModel {
        ClientModel {
            cfg,
            start: now,
            reg: LegModel::new(CALLNO_REG),
            reg_state: RegState::Idle,
            refresh: cfg.refresh,
            calltoken: None,
            next_reg: now,
            next_keepalive: now.after(KEEPALIVE_EVERY as int),
            calls: Map::empty(),
            remote_index: Map::empty(),
            callno_next: CALLNO_CALL_BASE,
            qualify_next: CALLNO_QUALIFY_BASE,
            out: Seq::empty(),
            events: Seq::empty(),
        }
    }

    /// What every operation keeps:
    /// the registration leg has its own number;
    /// calls are filed under their own call number, which is one for calls;
    /// frames in flight are whole;
    /// audio is routed to live calls only;
    /// the two cursors stay in their ranges.
    pub open spec fn wf(self) -> bool {
        &&& self.reg.local == CALLNO_REG
        &&& self.reg.wf()
        &&& forall|k: u16| #[trigger]
            self.calls.contains_key(k) ==> self.calls[k].leg.local == k && self.calls[k].leg.wf()
                && CALLNO_CALL_BASE <= k <= CALLNO_CALL_LAST
        &&& forall|k: u16| #[trigger]
            self.remote_index.contains_key(k) ==> self.calls.contains_key(self.remote_index[k])
        &&& CALLNO_CALL_BASE <= self.callno_next <= CALLNO_CALL_LAST
        &&& CALLNO_QUALIFY_BASE <= self.qualify_next <= CALLNO_QUALIFY_LAST
    }

    /// Milliseconds since the start, as a frame's timestamp holds them.
    pub open spec fn ts(self, now: Instant) -> u32 {
        (now.ms_since(self.start) % 0x1_0000_0000) as u32
    }

    /// The calls, in ascending order of their numbers.
    pub open spec fn call_ids(self) -> Seq<u16> {
        ids_of(self.calls)
    }

    /// With one more datagram to send.
    pub open spec fn push(self, bytes: Seq<u8>) -> ClientModel {
        ClientModel { out: self.out.push(bytes), ..self }
    }

    /// With one more event for the driver.
    pub open spec fn emit(self, ev: EventModel) -> ClientModel {
        ClientModel { events: self.events.push(ev), ..self }
    }

    /// With this call filed under this number.
    pub open spec fn with_call(self, local: u16, c: CallModel) -> ClientModel {
        ClientModel { calls: self.calls.insert(local, c), ..self }
    }

    /// With another leg for a call.
    pub open spec fn with_leg(self, local: u16, leg: LegModel) -> ClientModel {
        self.with_call(local, CallModel { leg, ..self.calls[local] })
    }

    /// The elements of a registration request.
    pub open spec fn reg_ies(self) -> Seq<IeModel> {
        seq![
            IeModel::of_str(iet::USERNAME, self.cfg.username),
            IeModel::of_u16(iet::REFRESH, self.refresh),
            IeModel {
                kind: iet::CALLTOKEN,
                data: match self.calltoken {
                    Some(t) => t,
                    None => Seq::empty(),
                },
            },
        ]
    }

    /// After a reliable frame was sent on the registration leg.
    pub open spec fn send_reg(self, sc: u8, ies: Seq<IeModel>, now: Instant) -> ClientModel {
        ClientModel {
            reg: self.reg.sent(self.ts(now), frametype::IAX, sc, ies, now),
            ..self.push(self.reg.frame(self.ts(now), frametype::IAX, sc, ies).wire())
        }
    }

    /// After a reliable frame was sent on a call.
    pub open spec fn send_call(
        self,
        local: u16,
        ft: u8,
        sc: u8,
        ies: Seq<IeModel>,
        now: Instant,
    ) -> ClientModel {
        let leg = self.calls[local].leg;
        self.push(leg.frame(self.ts(now), ft, sc, ies).wire()).with_leg(
            local,
            leg.sent(self.ts(now), ft, sc, ies, now),
        )
    }

    /// After a frame that is not kept was sent on a call.
    pub open spec fn echo_call(self, local: u16, ts: u32, sc: u8) -> ClientModel {
        let leg = self.calls[local].leg;
        self.push(leg.frame(ts, frametype::IAX, sc, Seq::empty()).wire()).with_leg(
            local,
            leg.advanced(),
        )
    }

    /// After a frame on a call was acknowledged.
    pub open spec fn ack_call(self, local: u16, now: Instant) -> ClientModel {
        self.push(self.calls[local].leg.ack(self.ts(now)))
    }

    // --- timers ---------------------------------------------------------

    /// After a registration was started.
    pub open spec fn start_registration(self, now: Instant) -> ClientModel {
        let fresh = ClientModel {
            reg: LegModel::new(self.reg.local),
            calltoken: None,
            reg_state: RegState::Registering,
            ..self
        };
        ClientModel {
            next_reg: now.after(REG_GUARD as int),
            ..fresh.send_reg(iax::REGREQ, fresh.reg_ies(), now)
        }.emit(EventModel::Log("REGREQ sended"@))
    }

    /// After the window of the registration leg was checked.
    pub open spec fn retransmit_reg(self, now: Instant) -> ClientModel {
        let m = ClientModel {
            reg: self.reg.checked_at(now),
            out: self.out + resends(self.reg.outstanding, now),
            ..self
        };
        if some_hopeless(self.reg.outstanding, now) {
            ClientModel {
                reg: LegModel { outstanding: Seq::empty(), ..m.reg },
                reg_state: RegState::Idle,
                next_reg: now.after(REG_RETRY as int),
                ..m
            }.emit(EventModel::RegisterLost { reason: "no ACK after retransmissions"@ })
        } else {
            m
        }
    }

    /// The datagrams that the given calls send again.
    pub open spec fn calls_resends(self, ids: Seq<u16>, now: Instant) -> Seq<Seq<u8>>
        decreases ids.len(),
    {
        if ids.len() == 0 {
            Seq::empty()
        } else {
            self.calls_resends(ids.drop_last(), now) + resends(
                self.calls[ids.last()].leg.outstanding,
                now,
            )
        }
    }

    /// The call has a frame that was sent often enough.
    pub open spec fn call_hopeless(self, local: u16, now: Instant) -> bool {
        some_hopeless(self.calls[local].leg.outstanding, now)
    }

    /// After the given calls were ended, in order.
    pub open spec fn drop_calls(self, ids: Seq<u16>, reason: Seq<char>) -> ClientModel
        decreases ids.len(),
    {
        if ids.len() == 0 {
            self
        } else {
            self.drop_calls(ids.drop_last(), reason).drop_call(ids.last(), reason)
        }
    }

    /// After the windows of all calls were checked, in ascending order.
    pub open spec fn retransmit_calls(self, now: Instant) -> ClientModel {
        let ids = self.call_ids();
        let m = ClientModel {
            calls: self.calls.map_values(
                |c: CallModel| CallModel { leg: c.leg.checked_at(now), ..c },
            ),
            out: self.out + self.calls_resends(ids, now),
            ..self
        };
        m.drop_calls(
            ids.filter(|k: u16| self.call_hopeless(k, now)),
            "reliability timeout"@,
        )
    }

    /// After the driver reported the time.
    pub open spec fn on_timeout(self, now: Instant) -> ClientModel {
        let m = if self.reg.outstanding.len() == 0 && now.nanos >= self.next_reg.nanos {
            self.start_registration(now)
        } else {
            self
        };
        let m = if m.reg_state == RegState::Registered && now.nanos >= m.next_keepalive.nanos {
            ClientModel {
                next_keepalive: now.after(KEEPALIVE_EVERY as int),
                ..m.push(
                    FrameModel::new(
                        CALLNO_KEEPALIVE,
                        0,
                        m.ts(now),
                        0,
                        0,
                        frametype::IAX,
                        iax::POKE,
                        Seq::empty(),
                    ).wire(),
                )
            }
        } else {
            m
        };
        m.retransmit_reg(now).retransmit_calls(now)
    }

    /// `t` is one of the instants at which something falls due.
    pub open spec fn has_timer(self, t: Instant) -> bool {
        ||| t == self.next_reg
        ||| self.reg_state == RegState::Registered && t == self.next_keepalive
        ||| exists|i: int|
            0 <= i < self.reg.outstanding.len() && (#[trigger] self.reg.outstanding[i]).deadline
                == t
        ||| exists|k: u16, i: int| #[trigger]
            self.calls.contains_key(k) && 0 <= i < self.calls[k].leg.outstanding.len() && (
            #[trigger] self.calls[k].leg.outstanding[i]).deadline == t
    }

    /// Nothing falls due before `t`.
    pub open spec fn quiet_before(self, t: Instant) -> bool {
        &&& t.nanos <= self.next_reg.nanos
        &&& self.reg_state == RegState::Registered ==> t.nanos <= self.next_keepalive.nanos
        &&& forall|i: int|
            0 <= i < self.reg.outstanding.len() ==> t.nanos <= (
            #[trigger] self.reg.outstanding[i]).deadline.nanos
        &&& forall|k: u16, i: int| #[trigger]
            self.calls.contains_key(k) && 0 <= i < self.calls[k].leg.outstanding.len() ==> t.nanos
                <= (#[trigger] self.calls[k].leg.outstanding[i]).deadline.nanos
    }

    // --- calls ----------------------------------------------------------

    /// After a call ended.
    pub open spec fn drop_call(self, local: u16, reason: Seq<char>) -> ClientModel {
        if self.calls.contains_key(local) {
            ClientModel {
                calls: self.calls.remove(local),
                remote_index: without_target(self.remote_index, local),
                ..self
            }.emit(EventModel::Ended { call: local, reason })
        } else {
            self
        }
    }

    /// The number of the next call.
    pub open spec fn next_callno(self) -> u16 {
        callno_search(self.calls, self.callno_next, CALLNO_TRIES as nat).0
    }

    /// After a number for a call was taken.
    pub open spec fn callno_taken(self) -> ClientModel {
        ClientModel {
            callno_next: callno_search(self.calls, self.callno_next, CALLNO_TRIES as nat).1,
            ..self
        }
    }

    /// After a number was dialled.
    pub open spec fn dial(self, number: Seq<char>, now: Instant) -> ClientModel {
        let local = self.next_callno();
        let call = CallModel::new(
            LegModel::new(local),
            CallState::Trying,
            Dir::Out,
            number,
            self.cfg.audio_format,
        );
        self.callno_taken().with_call(local, call).send_call(
            local,
            frametype::IAX,
            iax::NEW,
            new_ies(self.cfg, number, Seq::empty()),
            now,
        ).emit(EventModel::Dialing { call: local, to: number })
    }

    /// After a ringing inbound call was answered.
    pub open spec fn answer(self, call: u16, now: Instant) -> ClientModel {
        if self.calls.contains_key(call) && self.calls[call].dir == Dir::In && self.calls[call].state
            == CallState::Ringing {
            let m = self.send_call(call, frametype::CONTROL, control::ANSWER, Seq::empty(), now);
            m.with_call(
                call,
                CallModel { state: CallState::Up, sent_format: false, ..m.calls[call] },
            ).emit(EventModel::Answered { call })
        } else {
            self
        }
    }

    /// After a call was hung up from this side.
    pub open spec fn hangup(self, call: u16, now: Instant) -> ClientModel {
        if self.calls.contains_key(call) {
            self.push(
                self.calls[call].leg.frame(
                    self.ts(now),
                    frametype::IAX,
                    iax::HANGUP,
                    seq![IeModel::of_str(iet::CAUSE, "Normal Clearing"@)],
                ).wire(),
            ).drop_call(call, "local hangup"@)
        } else {
            self
        }
    }

    /// After a DTMF digit was sent.
    pub open spec fn send_dtmf(self, call: u16, digit: char, now: Instant) -> ClientModel {
        match dtmf_code(digit) {
            Some(d) => if self.calls.contains_key(call) {
                self.send_call(call, frametype::DTMF, d, Seq::empty(), now)
            } else {
                self
            },
            None => self,
        }
    }

    /// After a call was put on hold, or taken off it.
    pub open spec fn set_hold(self, call: u16, hold: bool, now: Instant) -> ClientModel {
        if self.calls.contains_key(call) {
            let sc = if hold {
                control::HOLD
            } else {
                control::UNHOLD
            };
            let m = self.send_call(call, frametype::CONTROL, sc, Seq::empty(), now);
            m.with_call(
                call,
                CallModel {
                    state: if hold {
                        CallState::Held
                    } else {
                        CallState::Up
                    },
                    ..m.calls[call]
                },
            )
        } else {
            self
        }
    }

    /// After audio was sent: the first of a connection in a full frame, which
    /// declares the format, the rest in mini frames.
    pub open spec fn send_voice(self, call: u16, ulaw: Seq<u8>, now: Instant) -> ClientModel {
        if !self.calls.contains_key(call) || self.calls[call].state != CallState::Up {
            self
        } else {
            let c = self.calls[call];
            if !c.sent_format {
                self.push(
                    c.leg.frame(
                        self.ts(now),
                        frametype::VOICE,
                        (c.fmt % 256) as u8,
                        Seq::empty(),
                    ).wire_media(ulaw),
                ).with_call(call, CallModel { leg: c.leg.advanced(), sent_format: true, ..c })
            } else {
                self.push(
                    MiniModel {
                        src_call: c.leg.local,
                        timestamp16: (self.ts(now) % 0x1_0000) as u16,
                        payload: ulaw,
                    }.wire(),
                )
            }
        }
    }

    // --- input ----------------------------------------------------------

    /// After a datagram arrived.
    pub open spec fn on_datagram(self, dg: Seq<u8>, now: Instant) -> ClientModel {
        if !full_frame(dg) {
            match MiniModel::parse(dg) {
                Some(m) => self.on_mini(m),
                None => self,
            }
        } else {
            match FrameModel::parse(dg) {
                Some(f) => self.on_frame(f, now),
                None => self,
            }
        }
    }

    /// After a mini frame arrived: audio of the call that the peer's number
    /// leads to, if that call is up.
    pub open spec fn on_mini(self, m: MiniModel) -> ClientModel {
        if self.remote_index.contains_key(m.src_call) && self.calls.contains_key(
            self.remote_index[m.src_call],
        ) && self.calls[self.remote_index[m.src_call]].state == CallState::Up {
            let local = self.remote_index[m.src_call];
            let c = self.calls[local];
            let ts = full_ts(c.last_voice_ts, m.timestamp16, c.voice_ts_seen);
            self.with_call(
                local,
                CallModel { last_voice_ts: ts, voice_ts_seen: true, ..c },
            ).emit(EventModel::Voice { call: local, ts, ulaw: m.payload })
        } else {
            self
        }
    }

    /// A qualify that belongs to no call.
    pub open spec fn is_qualify(f: FrameModel) -> bool {
        (is_iax(f, iax::POKE) || is_iax(f, iax::PING)) && f.dst_call == 0
    }

    /// The answer to a qualify: it echoes the timestamp.
    pub open spec fn pong(self, f: FrameModel) -> FrameModel {
        FrameModel::new(
            self.qualify_next,
            f.src_call,
            f.timestamp,
            0,
            crate::leg::next_seq(f.oseq),
            frametype::IAX,
            iax::PONG,
            Seq::empty(),
        )
    }

    /// A call token that the registration is waiting for.
    pub open spec fn token_for_reg(self, f: FrameModel) -> bool {
        token_of(f.ies) is Some && f.dst_call == self.reg.local && self.calltoken is None
    }

    /// A call token that an outbound call is waiting for.
    pub open spec fn token_for_call(self, f: FrameModel) -> bool {
        token_of(f.ies) is Some && self.calls.contains_key(f.dst_call) && self.calls[f.dst_call].dir
            == Dir::Out && self.calls[f.dst_call].state == CallState::Trying
    }

    /// What is logged of a frame that belongs to no leg.
    pub open spec fn stray(f: FrameModel) -> EventModel {
        EventModel::Log(
            "out of leg frame dst_call="@ + text::decimal(f.dst_call as nat) + " ft=0x"@
                + text::hex2(f.frametype) + " sc=0x"@ + text::hex2(f.subclass),
        )
    }

    /// After a full frame arrived.
    #[verifier::opaque]
    pub open spec fn on_frame(self, f: FrameModel, now: Instant) -> ClientModel {
        if Self::is_qualify(f) {
            ClientModel {
                qualify_next: qualify_after(self.qualify_next),
                ..self.push(self.pong(f).wire())
            }
        } else if self.token_for_reg(f) {
            self.resend_reg_with_token(token_of(f.ies)->0, now)
        } else if self.token_for_call(f) {
            self.resend_new_with_token(f.dst_call, token_of(f.ies)->0, now)
        } else if is_iax(f, iax::NEW) {
            self.on_incoming_new(f, now)
        } else if f.dst_call == self.reg.local {
            self.on_reg_frame(f, now)
        } else if self.calls.contains_key(f.dst_call) {
            self.on_call_frame(f.dst_call, f, now)
        } else if is_iax(f, iax::ACK) || is_iax(f, iax::PONG) || is_iax(f, iax::INVAL) {
            self
        } else {
            self.emit(Self::stray(f))
        }
    }

    /// After the registration request was sent afresh, with a token.
    pub open spec fn resend_reg_with_token(self, token: Seq<u8>, now: Instant) -> ClientModel {
        let fresh = ClientModel {
            calltoken: Some(token),
            reg: LegModel::new(self.reg.local),
            ..self
        };
        fresh.send_reg(iax::REGREQ, fresh.reg_ies(), now)
    }

    /// After the `NEW` of an outbound call was sent afresh, with a token.
    pub open spec fn resend_new_with_token(
        self,
        local: u16,
        token: Seq<u8>,
        now: Instant,
    ) -> ClientModel {
        self.with_leg(local, LegModel::new(self.calls[local].leg.local)).send_call(
            local,
            frametype::IAX,
            iax::NEW,
            new_ies(self.cfg, self.calls[local].peer, token),
            now,
        )
    }

    /// After an inbound call arrived: it is accepted and rings.
    pub open spec fn on_incoming_new(self, f: FrameModel, now: Instant) -> ClientModel {
        let local = self.next_callno();
        let caller = text_of(f.ies, iet::CALLING_NUMBER);
        let call = CallModel::new(
            LegModel::new(local).note_recv(f),
            CallState::Ringing,
            Dir::In,
            caller,
            self.cfg.audio_format,
        );
        ClientModel {
            remote_index: self.remote_index.insert(f.src_call, local),
            ..self.callno_taken().with_call(local, call)
        }.send_call(
            local,
            frametype::IAX,
            iax::ACCEPT,
            seq![IeModel::of_u32(iet::FORMAT, self.cfg.audio_format)],
            now,
        ).send_call(local, frametype::CONTROL, control::RINGING, Seq::empty(), now).emit(
            EventModel::Incoming { call: local, from: caller, to: text_of(f.ies, iet::CALLED_NUMBER) },
        )
    }

    /// After a frame arrived on the registration leg.
    pub open spec fn on_reg_frame(self, f: FrameModel, now: Instant) -> ClientModel {
        let m = ClientModel { reg: self.reg.received(f), ..self };
        if f.subclass == iax::REGAUTH {
            m.on_regauth(f, now)
        } else if f.subclass == iax::REGACK {
            m.on_regack(f, now)
        } else if f.subclass == iax::REGREJ {
            ClientModel {
                calltoken: None,
                reg_state: RegState::Idle,
                next_reg: now.after(REG_RETRY as int),
                ..m.push(m.reg.ack(m.ts(now)))
            }.emit(
                EventModel::RegisterLost {
                    reason: "REGREJ causecode="@ + text::debug_option(cause_code(f.ies)),
                },
            )
        } else if f.subclass == iax::ACK || f.subclass == iax::CALLTOKEN {
            m
        } else {
            m.emit(EventModel::Log("reg leg subclass=0x"@ + text::hex2(f.subclass)))
        }
    }

    /// After the registration was challenged.
    pub open spec fn on_regauth(self, f: FrameModel, now: Instant) -> ClientModel {
        if !offers_md5(f.ies) {
            self.emit(EventModel::Log("REGAUTH without MD5"@))
        } else {
            match first_of(f.ies, iet::CHALLENGE) {
                None => self.emit(EventModel::Log("REGAUTH without challenge"@)),
                Some(c) => self.send_reg(
                    iax::REGREQ,
                    self.reg_ies().insert(
                        1,
                        IeModel::of_str(
                            iet::MD5_RESULT,
                            md5_answer(c.to_str(), self.cfg.secret),
                        ),
                    ),
                    now,
                ),
            }
        }
    }

    /// The refresh after a registration was confirmed.
    pub open spec fn refresh_after(self, f: FrameModel) -> u16 {
        match u16_of(f.ies, iet::REFRESH) {
            Some(r) => if r > 0 {
                r
            } else {
                self.refresh
            },
            None => self.refresh,
        }
    }

    /// After the registration was confirmed; it is renewed at 80 % of the refresh.
    pub open spec fn on_regack(self, f: FrameModel, now: Instant) -> ClientModel {
        ClientModel {
            refresh: self.refresh_after(f),
            reg_state: RegState::Registered,
            next_reg: now.after(self.refresh_after(f) * 4 / 5 * 1_000_000_000),
            next_keepalive: now.after(KEEPALIVE_EVERY as int),
            ..self.push(self.reg.ack(self.ts(now)))
        }.emit(EventModel::Registered)
    }

    /// After a frame on a call was counted, and its acknowledgement taken.
    pub open spec fn counted(self, local: u16, f: FrameModel) -> ClientModel {
        ClientModel {
            remote_index: if f.src_call != 0 {
                self.remote_index.insert(f.src_call, local)
            } else {
                self.remote_index
            },
            ..self.with_leg(local, self.calls[local].leg.received(f))
        }
    }

    /// After a frame arrived on a call.
    pub open spec fn on_call_frame(self, local: u16, f: FrameModel, now: Instant) -> ClientModel {
        self.counted(local, f).on_counted(local, f, now)
    }

    /// After a frame on a call that was counted has had its effect.
    #[verifier::opaque]
    pub open spec fn on_counted(self, local: u16, f: FrameModel, now: Instant) -> ClientModel {
        let m = self;
        let c = m.calls[local];
        if f.frametype == frametype::VOICE {
            let m = m.ack_call(local, now).with_call(
                local,
                CallModel { last_voice_ts: f.timestamp, voice_ts_seen: true, ..c },
            );
            if c.state == CallState::Up {
                m.emit(
                    EventModel::Voice { call: local, ts: f.timestamp, ulaw: f.media_payload },
                )
            } else {
                m
            }
        } else if is_iax(f, iax::AUTHREQ) && c.dir == Dir::Out {
            m.on_authreq(local, f, now)
        } else if is_iax(f, iax::ACCEPT) {
            m.ack_call(local, now).with_call(
                local,
                CallModel {
                    fmt: match u32_of(f.ies, iet::FORMAT) {
                        Some(fmt) => fmt,
                        None => c.fmt,
                    },
                    ..c
                },
            )
        } else if is_control(f, control::RINGING) {
            m.ack_call(local, now).with_call(
                local,
                CallModel { state: CallState::Ringing, ..c },
            ).emit(EventModel::Ringing { call: local })
        } else if is_control(f, control::ANSWER) {
            m.ack_call(local, now).with_call(
                local,
                CallModel { state: CallState::Up, sent_format: false, ..c },
            ).emit(EventModel::Answered { call: local })
        } else if is_control(f, control::BUSY) {
            m.ack_call(local, now).drop_call(local, "busy"@)
        } else if is_iax(f, iax::HANGUP) {
            m.ack_call(local, now).drop_call(local, "hangup by remote"@)
        } else if is_iax(f, iax::REJECT) {
            m.ack_call(local, now).drop_call(
                local,
                "refused causecode="@ + text::debug_option(cause_code(f.ies)),
            )
        } else if is_iax(f, iax::ACK) || is_iax(f, iax::PONG) || is_iax(f, iax::LAGRP) {
            m
        } else if is_iax(f, iax::LAGRQ) {
            m.echo_call(local, f.timestamp, iax::LAGRP)
        } else if is_iax(f, iax::PING) {
            m.echo_call(local, f.timestamp, iax::PONG)
        } else if f.frametype == frametype::DTMF {
            m.ack_call(local, now).emit(
                EventModel::Dtmf { call: local, digit: f.subclass as char },
            )
        } else if f.frametype == frametype::CNG || f.frametype == frametype::CONTROL {
            m.ack_call(local, now)
        } else {
            m.ack_call(local, now).emit(
                EventModel::Log(
                    "call leg ft=0x"@ + text::hex2(f.frametype) + " sc=0x"@ + text::hex2(
                        f.subclass,
                    ),
                ),
            )
        }
    }

    /// After an outbound call was challenged.
    pub open spec fn on_authreq(self, local: u16, f: FrameModel, now: Instant) -> ClientModel {
        if !offers_md5(f.ies) {
            self.emit(EventModel::Log("AUTHREQ without MD5"@))
        } else {
            match first_of(f.ies, iet::CHALLENGE) {
                None => self.emit(EventModel::Log("AUTHREQ eithout challenge"@)),
                Some(c) => self.send_call(
                    local,
                    frametype::IAX,
                    iax::AUTHREP,
                    seq![
                        IeModel::of_str(
                            iet::MD5_RESULT,
                            md5_answer(c.to_str(), self.cfg.secret),
                        ),
                    ],
                    now,
                ),
            }
        }
    }
}

} // verus!
