//! A telephone that stays registered and answers one inbound call at a time.
//!
//! The driver sends and plays what it is asked to, and hands in datagrams,
//! recorded frames, and the beats of three clocks: the housekeeping, the
//! keepalive and the audio.

use std::collections::VecDeque;
use vstd::prelude::*;

use crate::action::{actions_view, Action, ActionModel};
use crate::client::{call_token, cause_in, md5_offered, text_in, u16_in};
use crate::client_model::{cause_code, is_iax, offers_md5, text_of, token_of, u16_of};
use crate::consts::{self, control, frametype, iax, ie as iet};
use crate::frame::{full_frame, is_full_frame, FrameModel, FullFrame, MiniFrame, MiniModel};
use crate::g711;
use crate::ie::{self, first_of, ies_view, Ie, IeModel};
use crate::leg::{Leg, LegModel, RETX_AFTER, RETX_MAX};
use crate::pcm::frames_view;
use crate::text::{
    debug_option, decimal, hex2, push_debug_option, push_decimal, push_hex2,
};
use crate::time::Instant;
use crate::{md5_answer, md5_response};

verus! {

/// Call number of the registration.
pub const REG_LOCAL_CALL: u16 = 1;

/// Call number of the call.
pub const CALL_LOCAL_CALL: u16 = 2;

/// Lowest call number of the answers to a qualify.
pub const QUALIFY_CALL: u16 = 3;

/// Call number of the keepalives.
pub const KEEPALIVE_CALL: u16 = 4;

/// Call number under which a second call is refused.
pub const BUSY_CALL: u16 = 99;

/// Shortest pause between two registrations: 10 s.
pub const REG_GUARD: u64 = 10_000_000_000;

/// Pause after an exchange did not answer: 3 s.
pub const SILENCE_RETRY: u64 = 3_000_000_000;

/// Pause after a registration was refused: 5 s.
pub const REJECT_RETRY: u64 = 5_000_000_000;

/// A frame that waits for its acknowledgement.
#[verifier::ext_equal]
pub ghost struct PendingModel {
    pub bytes: Seq<u8>,
    pub deadline: Instant,
    pub tries: u32,
}

/// What is known of the call.
#[verifier::ext_equal]
pub ghost struct OneCallModel {
    pub leg: LegModel,
    pub answered: bool,
    pub sent_format: bool,
}

/// The whole state of the telephone.
#[verifier::ext_equal]
pub ghost struct DaemonModel {
    pub username: Seq<char>,
    pub secret: Seq<char>,
    pub refresh: u16,
    pub start: Instant,
    pub reg: LegModel,
    pub call: Option<OneCallModel>,
    pub calltoken: Option<Seq<u8>>,
    pub registered: bool,
    pub pending: Option<PendingModel>,
    pub next_reg: Instant,
    pub todo: Seq<ActionModel>,
}

/// The elements of a registration request.
pub open spec fn registration_ies(
    username: Seq<char>,
    refresh: u16,
    token: Option<Seq<u8>>,
) -> Seq<IeModel> {
    seq![
        IeModel::of_str(iet::USERNAME, username),
        IeModel::of_u16(iet::REFRESH, refresh),
        IeModel {
            kind: iet::CALLTOKEN,
            data: match token {
                Some(t) => t,
                None => Seq::empty(),
            },
        },
    ]
}

impl PendingModel {
    /// A frame that was just sent.
    pub open spec fn new(bytes: Seq<u8>, now: Instant) -> PendingModel {
        PendingModel { bytes, deadline: now.after(RETX_AFTER as int), tries: 0 }
    }
}

impl DaemonModel {
    /// A telephone that registers at once.
    pub open spec fn new(
        username: Seq<char>,
        secret: Seq<char>,
        refresh: u16,
        now: Instant,
    ) -> DaemonModel {
        DaemonModel {
            username,
            secret,
            refresh,
            start: now,
            reg: LegModel::new(REG_LOCAL_CALL),
            call: None,
            calltoken: None,
            registered: false,
            pending: None,
            next_reg: now,
            todo: Seq::empty(),
        }
    }

    /// What every operation keeps: a frame is not sent again more often than it
    /// may be.
    pub open spec fn wf(self) -> bool {
        self.pending is Some ==> self.pending->0.tries <= RETX_MAX
    }

    /// The timestamp of a frame.
    pub open spec fn ts(self, now: Instant) -> u32 {
        (now.ms_since(self.start) % 0x1_0000_0000) as u32
    }

    /// With one more thing to do.
    pub open spec fn act(self, a: ActionModel) -> DaemonModel {
        DaemonModel { todo: self.todo.push(a), ..self }
    }

    /// With one more line to print.
    pub open spec fn say(self, line: Seq<char>) -> DaemonModel {
        self.act(ActionModel::Say(line))
    }

    /// With one more error to print.
    pub open spec fn warn(self, line: Seq<char>) -> DaemonModel {
        self.act(ActionModel::Warn(line))
    }

    /// With one more datagram to send.
    pub open spec fn send(self, datagram: Seq<u8>) -> DaemonModel {
        self.act(ActionModel::Send { pbx: 0, datagram })
    }

    /// After a registration request was sent, which waits for its
    /// acknowledgement.
    pub open spec fn request(self, ies: Seq<IeModel>, now: Instant) -> DaemonModel {
        let f = self.reg.frame(self.ts(now), frametype::IAX, iax::REGREQ, ies);
        DaemonModel {
            reg: self.reg.advanced(),
            pending: Some(PendingModel::new(f.wire(), now)),
            ..self.send(f.wire())
        }
    }

    // --- the clocks -------------------------------------------------------

    /// After one recorded frame of an answered call was sent.
    pub open spec fn voiced(self, pcm: Seq<i16>, now: Instant) -> DaemonModel {
        let c = self.call->0;
        let payload = g711::ulaw_block(pcm);
        if !c.sent_format {
            DaemonModel {
                call: Some(OneCallModel { leg: c.leg.advanced(), sent_format: true, ..c }),
                ..self.send(
                    c.leg.frame(
                        self.ts(now),
                        frametype::VOICE,
                        (consts::format::ULAW % 256) as u8,
                        Seq::empty(),
                    ).wire_media(payload),
                )
            }
        } else {
            self.send(
                MiniModel {
                    src_call: c.leg.local,
                    timestamp16: (self.ts(now) % 0x1_0000) as u16,
                    payload,
                }.wire(),
            )
        }
    }

    /// There is a call, and it is answered.
    pub open spec fn talking(self) -> bool {
        self.call is Some && self.call->0.answered
    }

    /// After recorded frames were sent, if there is an answered call.
    pub open spec fn on_mic(self, frames: Seq<Seq<i16>>, now: Instant) -> DaemonModel
        decreases frames.len(),
    {
        if !self.talking() || frames.len() == 0 {
            self
        } else {
            self.on_mic(frames.drop_last(), now).voiced(frames.last(), now)
        }
    }

    /// After a beat of the keepalive.
    pub open spec fn on_keepalive(self, now: Instant) -> DaemonModel {
        if self.registered {
            self.send(
                FrameModel::new(
                    KEEPALIVE_CALL,
                    0,
                    self.ts(now),
                    0,
                    0,
                    frametype::IAX,
                    iax::POKE,
                    Seq::empty(),
                ).wire(),
            )
        } else {
            self
        }
    }

    /// After a registration, if one is due and nothing is in flight.
    pub open spec fn reregistered(self, now: Instant) -> DaemonModel {
        if self.pending is None && now.nanos >= self.next_reg.nanos {
            let fresh = DaemonModel {
                reg: LegModel::new(self.reg.local),
                calltoken: None,
                ..self.say(
                    if self.registered {
                        "[>] REGREQ (refresh)"@
                    } else {
                        "[>] REGREQ (initial)"@
                    },
                )
            };
            DaemonModel {
                next_reg: now.after(REG_GUARD as int),
                ..fresh.request(registration_ies(self.username, self.refresh, None), now)
            }
        } else {
            self
        }
    }

    /// After the frame in flight was sent again or given up, if it is due.
    pub open spec fn retransmitted(self, now: Instant) -> DaemonModel {
        match self.pending {
            Some(p) => if p.deadline.nanos > now.nanos {
                self
            } else if p.tries >= RETX_MAX {
                DaemonModel {
                    pending: None,
                    registered: false,
                    next_reg: now.after(SILENCE_RETRY as int),
                    ..self.warn(
                        "[!] no ACK after "@ + decimal(RETX_MAX as nat) + " retransmissions"@,
                    )
                }
            } else {
                DaemonModel {
                    pending: Some(
                        PendingModel {
                            tries: (p.tries + 1) as u32,
                            deadline: now.after(RETX_AFTER as int),
                            ..p
                        },
                    ),
                    ..self.send(p.bytes)
                }
            },
            None => self,
        }
    }

    /// After a beat of the housekeeping.
    pub open spec fn on_house(self, now: Instant) -> DaemonModel {
        self.reregistered(now).retransmitted(now)
    }

    // --- input ------------------------------------------------------------

    /// The frame belongs to the registration or to the call.
    pub open spec fn on_real_leg(self, f: FrameModel) -> bool {
        f.dst_call == self.reg.local || (self.call is Some && f.dst_call
            == self.call->0.leg.local)
    }

    /// After a datagram arrived.
    pub open spec fn on_datagram(self, dg: Seq<u8>, now: Instant) -> DaemonModel {
        if !full_frame(dg) {
            match MiniModel::parse(dg) {
                Some(m) => if self.call is Some {
                    self.act(ActionModel::Play(g711::pcm_block(m.payload)))
                } else {
                    self
                },
                None => self,
            }
        } else {
            match FrameModel::parse(dg) {
                Some(f) => DaemonModel {
                    pending: if self.on_real_leg(f) {
                        None
                    } else {
                        self.pending
                    },
                    ..self
                }.on_frame(f, now),
                None => self,
            }
        }
    }

    /// After a full frame arrived.
    pub open spec fn on_frame(self, f: FrameModel, now: Instant) -> DaemonModel {
        if is_iax(f, iax::POKE) || is_iax(f, iax::PING) {
            self.on_qualify(f)
        } else if is_iax(f, iax::NEW) {
            self.on_new(f, now)
        } else if token_of(f.ies) is Some && self.calltoken is None {
            DaemonModel {
                calltoken: token_of(f.ies),
                reg: LegModel::new(self.reg.local),
                ..self
            }.request(registration_ies(self.username, self.refresh, token_of(f.ies)), now)
        } else if f.dst_call == self.reg.local {
            DaemonModel { reg: self.reg.note_recv(f), ..self }.on_reg_frame(f, now)
        } else if self.call is Some && f.dst_call == self.call->0.leg.local {
            let c = self.call->0;
            DaemonModel {
                call: Some(OneCallModel { leg: c.leg.note_recv(f), ..c }),
                ..self
            }.on_call_frame(f, now)
        } else if is_iax(f, iax::ACK) || is_iax(f, iax::PONG) || is_iax(f, iax::INVAL) {
            self
        } else {
            self.say(
                "[i] Out of leg frame: dst_call="@ + decimal(f.dst_call as nat) + " ft=0x"@ + hex2(
                    f.frametype,
                ) + " sc=0x"@ + hex2(f.subclass),
            )
        }
    }

    /// After a qualify: the answer echoes its timestamp.
    pub open spec fn on_qualify(self, f: FrameModel) -> DaemonModel {
        self.say(
            (if f.subclass == iax::POKE {
                "[i] qualify POKE"@
            } else {
                "[i] qualify PING"@
            }) + " dal PBX (src_call="@ + decimal(f.src_call as nat) + ") -> PONG"@,
        ).send(
            FrameModel::new(
                if f.dst_call > QUALIFY_CALL {
                    f.dst_call
                } else {
                    QUALIFY_CALL
                },
                f.src_call,
                f.timestamp,
                0,
                crate::leg::next_seq(f.oseq),
                frametype::IAX,
                iax::PONG,
                Seq::empty(),
            ).wire(),
        )
    }

    /// After an inbound call: it is answered, or refused if there is one.
    pub open spec fn on_new(self, f: FrameModel, now: Instant) -> DaemonModel {
        if self.call is Some {
            self.send(
                FrameModel::new(
                    BUSY_CALL,
                    f.src_call,
                    self.ts(now),
                    0,
                    crate::leg::next_seq(f.oseq),
                    frametype::IAX,
                    iax::REJECT,
                    seq![IeModel::of_str(iet::CAUSE, "Busy"@)],
                ).wire(),
            )
        } else {
            let leg = LegModel::new(CALL_LOCAL_CALL).note_recv(f);
            let accept = leg.frame(
                self.ts(now),
                frametype::IAX,
                iax::ACCEPT,
                seq![IeModel::of_u32(iet::FORMAT, consts::format::ULAW)],
            );
            let answer = leg.advanced().frame(
                self.ts(now),
                frametype::CONTROL,
                control::ANSWER,
                Seq::empty(),
            );
            DaemonModel {
                pending: Some(PendingModel::new(answer.wire(), now)),
                call: Some(
                    OneCallModel {
                        leg: leg.advanced().advanced(),
                        answered: true,
                        sent_format: false,
                    },
                ),
                ..self.say(
                    "[☎] INCOMING CALL FROM '"@ + text_of(f.ies, iet::CALLING_NUMBER) + "' to '"@
                        + text_of(f.ies, iet::CALLED_NUMBER) + "'"@,
                ).send(accept.wire()).send(answer.wire()).act(ActionModel::FlushAudio)
            }.say("[✓] ANSWERED — audio on"@)
        }
    }

    /// After a frame of the registration.
    pub open spec fn on_reg_frame(self, f: FrameModel, now: Instant) -> DaemonModel {
        if f.subclass == iax::REGAUTH {
            self.on_regauth(f, now)
        } else if f.subclass == iax::REGACK {
            let refresh = match u16_of(f.ies, iet::REFRESH) {
                Some(r) => if r > 0 {
                    r
                } else {
                    self.refresh
                },
                None => self.refresh,
            };
            DaemonModel {
                refresh,
                registered: true,
                next_reg: now.after(refresh * 4 / 5 * 1_000_000_000),
                ..self.send(self.reg.ack(self.ts(now)))
            }.say(
                "[✓] REGISTERED (refresh "@ + decimal(refresh as nat) + "s, next ~"@ + decimal(
                    (refresh * 4 / 5) as nat,
                ) + "s)"@,
            )
        } else if f.subclass == iax::REGREJ {
            DaemonModel {
                calltoken: None,
                registered: false,
                next_reg: now.after(REJECT_RETRY as int),
                ..self.warn(
                    "[x] REGREJ causecode="@ + debug_option(cause_code(f.ies))
                        + " — I will retry "@,
                ).send(self.reg.ack(self.ts(now)))
            }
        } else if f.subclass == iax::ACK || f.subclass == iax::CALLTOKEN {
            self
        } else {
            self.say("[i] reg leg subclass=0x"@ + hex2(f.subclass))
        }
    }

    /// After a challenge.
    pub open spec fn on_regauth(self, f: FrameModel, now: Instant) -> DaemonModel {
        if !offers_md5(f.ies) {
            self.warn("[x] no MD5 in REGAUTH"@)
        } else {
            match first_of(f.ies, iet::CHALLENGE) {
                None => self.warn("[x] REGAUTH without challenge"@),
                Some(c) => self.request(
                    registration_ies(self.username, self.refresh, self.calltoken).insert(
                        1,
                        IeModel::of_str(iet::MD5_RESULT, md5_answer(c.to_str(), self.secret)),
                    ),
                    now,
                ),
            }
        }
    }

    /// After a frame of the call.
    pub open spec fn on_call_frame(self, f: FrameModel, now: Instant) -> DaemonModel {
        let ack = self.call->0.leg.ack(self.ts(now));
        if f.frametype == frametype::VOICE {
            self.act(ActionModel::Play(g711::pcm_block(f.media_payload))).send(ack)
        } else if is_iax(f, iax::ACK) {
            self
        } else if is_iax(f, iax::HANGUP) {
            DaemonModel {
                call: None,
                ..self.say("[i] Call closed by remote party"@).send(ack).act(
                    ActionModel::FlushAudio,
                )
            }
        } else if f.frametype == frametype::CONTROL {
            self.send(ack)
        } else {
            self.say(
                "[i] call leg ft=0x"@ + hex2(f.frametype) + " sc=0x"@ + hex2(f.subclass),
            ).send(ack)
        }
    }
}

/// A frame that waits for its acknowledgement.
#[derive(Debug)]
pub struct Pending {
    pub bytes: Vec<u8>,
    pub deadline: Instant,
    pub tries: u32,
}

impl View for Pending {
    type V = PendingModel;

    open spec fn view(&self) -> PendingModel {
        PendingModel { bytes: self.bytes@, deadline: self.deadline, tries: self.tries }
    }
}

impl Pending {
    fn new(bytes: Vec<u8>, now: Instant) -> (r: Self)
        requires
            now.in_range(),
        ensures
            r@ == PendingModel::new(bytes@, now),
    {
        Pending { bytes, deadline: now.plus(RETX_AFTER), tries: 0 }
    }
}

/// The call.
#[derive(Debug)]
pub struct OneCall {
    pub leg: Leg,
    pub answered: bool,
    pub sent_format: bool,
}

impl View for OneCall {
    type V = OneCallModel;

    open spec fn view(&self) -> OneCallModel {
        OneCallModel {
            leg: self.leg@,
            answered: self.answered,
            sent_format: self.sent_format,
        }
    }
}

/// A telephone that stays registered.
#[derive(Debug)]
pub struct Daemon {
    pub username: String,
    pub secret: String,
    pub refresh: u16,
    pub start: Instant,
    pub reg: Leg,
    pub call: Option<OneCall>,
    pub calltoken: Option<Vec<u8>>,
    pub registered: bool,
    pub pending: Option<Pending>,
    pub next_reg: Instant,
    pub todo: VecDeque<Action>,
}

impl View for Daemon {
    type V = DaemonModel;

    open spec fn view(&self) -> DaemonModel {
        DaemonModel {
            username: self.username@,
            secret: self.secret@,
            refresh: self.refresh,
            start: self.start,
            reg: self.reg@,
            call: match self.call {
                Some(c) => Some(c@),
                None => None,
            },
            calltoken: match self.calltoken {
                Some(t) => Some(t@),
                None => None,
            },
            registered: self.registered,
            pending: match self.pending {
                Some(p) => Some(p@),
                None => None,
            },
            next_reg: self.next_reg,
            todo: actions_view(self.todo@),
        }
    }
}

/// The elements of a registration request.
fn reg_ies(username: &str, refresh: u16, calltoken: &Option<Vec<u8>>) -> (r: Vec<Ie>)
    ensures
        ies_view(r@) == registration_ies(
            username@,
            refresh,
            match *calltoken {
                Some(t) => Some(t@),
                None => None,
            },
        ),
{
    let mut ies: Vec<Ie> = Vec::new();
    ies.push(Ie::str(iet::USERNAME, username));
    ies.push(Ie::u16(iet::REFRESH, refresh));
    match calltoken {
        Some(t) => {
            let token = t.clone();
            assert(token@ =~= t@);
            ies.push(Ie::new(iet::CALLTOKEN, token));
        },
        None => ies.push(Ie::empty(iet::CALLTOKEN)),
    }
    assert(ies_view(ies@) =~= registration_ies(
        username@,
        refresh,
        match *calltoken {
            Some(t) => Some(t@),
            None => None,
        },
    ));
    ies
}

impl Daemon {
    /// A telephone that registers at once.
    pub fn new(username: &str, secret: &str, refresh: u16, now: Instant) -> (r: Self)
        ensures
            r@ == DaemonModel::new(username@, secret@, refresh, now),
            r@.wf(),
    {
        let r = Daemon {
            username: username.to_owned(),
            secret: secret.to_owned(),
            refresh,
            start: now,
            reg: Leg::new(REG_LOCAL_CALL),
            call: None,
            calltoken: None,
            registered: false,
            pending: None,
            next_reg: now,
            todo: VecDeque::new(),
        };
        assert(r@.todo =~= Seq::empty());
        r
    }

    /// The next thing to do, oldest first.
    pub fn poll_action(&mut self) -> (r: Option<Action>)
        ensures
            r is Some == (old(self)@.todo.len() > 0),
            r is Some ==> r->0@ == old(self)@.todo[0],
            final(self)@ == (DaemonModel {
                todo: if r is Some {
                    old(self)@.todo.skip(1)
                } else {
                    old(self)@.todo
                },
                ..old(self)@
            }),
    {
        let r = self.todo.pop_front();
        if r.is_some() {
            assert(self@.todo =~= old(self)@.todo.skip(1));
        }
        r
    }

    fn ts(&self, now: Instant) -> (r: u32)
        ensures
            r == self@.ts(now),
    {
        (now.millis_since(self.start) % 0x1_0000_0000) as u32
    }

    fn act(&mut self, a: Action)
        ensures
            final(self)@ == old(self)@.act(a@),
    {
        self.todo.push_back(a);
        assert(self@ =~= old(self)@.act(a@));
    }

    fn say(&mut self, line: String)
        ensures
            final(self)@ == old(self)@.say(line@),
    {
        self.act(Action::Say(line));
    }

    fn warn(&mut self, line: String)
        ensures
            final(self)@ == old(self)@.warn(line@),
    {
        self.act(Action::Warn(line));
    }

    fn send(&mut self, datagram: Vec<u8>)
        ensures
            final(self)@ == old(self)@.send(datagram@),
    {
        self.act(Action::Send { pbx: 0, datagram });
    }

    fn request(&mut self, ies: Vec<Ie>, now: Instant)
        requires
            now.in_range(),
        ensures
            final(self)@ == old(self)@.request(ies_view(ies@), now),
    {
        let ts = self.ts(now);
        let f = self.reg.build(ts, frametype::IAX, iax::REGREQ, ies);
        self.send(f.encode());
        self.pending = Some(Pending::new(f.encode(), now));
    }

    // --- the clocks -------------------------------------------------------

    /// Sends recorded frames, if there is an answered call.
    pub fn on_mic(&mut self, frames: &Vec<Vec<i16>>, now: Instant)
        ensures
            final(self)@ == old(self)@.on_mic(frames_view(frames@), now),
            old(self)@.wf() ==> final(self)@.wf(),
    {
        let talking = match &self.call {
            Some(c) => c.answered,
            None => false,
        };
        if !talking {
            return;
        }
        let ghost m = self@;
        let ghost all = frames_view(frames@);
        assert(all.take(0) =~= Seq::empty());
        for i in 0..frames.len()
            invariant
                m.talking(),
                self@.talking(),
                self@.pending == m.pending,
                all == frames_view(frames@),
                self@ == m.on_mic(all.take(i as int), now),
        {
            proof {
                assert(all.take(i + 1).drop_last() =~= all.take(i as int));
                assert(all.take(i + 1).last() == frames@[i as int]@);
            }
            self.voice(frames[i].as_slice(), now);
        }
        assert(all.take(all.len() as int) =~= all);
    }

    fn voice(&mut self, pcm: &[i16], now: Instant)
        requires
            old(self)@.talking(),
        ensures
            final(self)@ == old(self)@.voiced(pcm@, now),
            final(self)@.talking(),
            final(self)@.pending == old(self)@.pending,
    {
        let ts = self.ts(now);
        let mut payload: Vec<u8> = Vec::new();
        g711::encode_block(pcm, &mut payload);
        assert(payload@ =~= g711::ulaw_block(pcm@));
        if let Some(c) = self.call.take() {
            let mut c = c;
            let bytes = if !c.sent_format {
                let ies: Vec<Ie> = Vec::new();
                assert(ies_view(ies@) =~= Seq::empty());
                let f = c.leg.build(
                    ts,
                    frametype::VOICE,
                    (consts::format::ULAW % 256) as u8,
                    ies,
                );
                c.sent_format = true;
                f.encode_media(payload.as_slice())
            } else {
                let mf = MiniFrame {
                    src_call: c.leg.local,
                    timestamp16: (ts % 0x1_0000) as u16,
                    payload,
                };
                mf.encode()
            };
            self.call = Some(c);
            self.send(bytes);
        }
    }

    /// A beat of the keepalive.
    pub fn on_keepalive(&mut self, now: Instant)
        ensures
            final(self)@ == old(self)@.on_keepalive(now),
            old(self)@.wf() ==> final(self)@.wf(),
    {
        if self.registered {
            let ies: Vec<Ie> = Vec::new();
            assert(ies_view(ies@) =~= Seq::empty());
            let poke = FullFrame::new(
                KEEPALIVE_CALL,
                0,
                self.ts(now),
                0,
                0,
                frametype::IAX,
                iax::POKE,
                ies,
            );
            self.send(poke.encode());
        }
    }

    /// A beat of the housekeeping: registers, and sends again what is due.
    pub fn on_house(&mut self, now: Instant)
        requires
            now.in_range(),
            old(self)@.wf(),
        ensures
            final(self)@ == old(self)@.on_house(now),
            final(self)@.wf(),
    {
        self.reregister(now);
        self.retransmit(now);
    }

    fn reregister(&mut self, now: Instant)
        requires
            now.in_range(),
            old(self)@.wf(),
        ensures
            final(self)@ == old(self)@.reregistered(now),
            final(self)@.wf(),
    {
        if self.pending.is_none() && now.nanos >= self.next_reg.nanos {
            self.reg.reset();
            self.calltoken = None;
            if self.registered {
                self.say("[>] REGREQ (refresh)".to_owned());
            } else {
                self.say("[>] REGREQ (initial)".to_owned());
            }
            let ies = reg_ies(self.username.as_str(), self.refresh, &self.calltoken);
            self.request(ies, now);
            self.next_reg = now.plus(REG_GUARD);
        }
    }

    fn retransmit(&mut self, now: Instant)
        requires
            now.in_range(),
            old(self)@.wf(),
        ensures
            final(self)@ == old(self)@.retransmitted(now),
            final(self)@.wf(),
    {
        if let Some(p) = self.pending.take() {
            let mut p = p;
            if p.deadline.nanos > now.nanos {
                self.pending = Some(p);
            } else if p.tries >= RETX_MAX {
                let mut line = "[!] no ACK after ".to_owned();
                push_decimal(&mut line, RETX_MAX as u64);
                line.append(" retransmissions");
                self.warn(line);
                self.registered = false;
                self.next_reg = now.plus(SILENCE_RETRY);
            } else {
                let bytes = p.bytes.clone();
                assert(bytes@ =~= p.bytes@);
                self.send(bytes);
                p.tries = p.tries + 1;
                p.deadline = now.plus(RETX_AFTER);
                self.pending = Some(p);
            }
        }
    }

    // --- input ------------------------------------------------------------

    /// Takes a datagram from the exchange.
    pub fn on_datagram(&mut self, dg: &[u8], now: Instant)
        requires
            now.in_range(),
            old(self)@.wf(),
        ensures
            final(self)@ == old(self)@.on_datagram(dg@, now),
            final(self)@.wf(),
    {
        if !is_full_frame(dg) {
            if let Some(m) = MiniFrame::decode(dg) {
                if self.call.is_some() {
                    self.play(m.payload.as_slice());
                }
            }
            return;
        }
        if let Some(f) = FullFrame::decode(dg) {
            let on_call = match &self.call {
                Some(c) => f.dst_call == c.leg.local,
                None => false,
            };
            if f.dst_call == self.reg.local || on_call {
                self.pending = None;
            }
            self.on_frame(&f, now);
        }
    }

    fn play(&mut self, ulaw: &[u8])
        ensures
            final(self)@ == old(self)@.act(ActionModel::Play(g711::pcm_block(ulaw@))),
    {
        let mut pcm: Vec<i16> = Vec::new();
        g711::decode_block(ulaw, &mut pcm);
        assert(pcm@ =~= g711::pcm_block(ulaw@));
        self.act(Action::Play(pcm));
    }

    fn on_frame(&mut self, f: &FullFrame, now: Instant)
        requires
            now.in_range(),
            old(self)@.wf(),
        ensures
            final(self)@ == old(self)@.on_frame(f@, now),
            final(self)@.wf(),
    {
        if f.frametype == frametype::IAX && (f.subclass == iax::POKE || f.subclass == iax::PING) {
            self.on_qualify(f);
            return;
        }
        if f.frametype == frametype::IAX && f.subclass == iax::NEW {
            self.on_new(f, now);
            return;
        }
        if self.calltoken.is_none() {
            if let Some(token) = call_token(f) {
                self.calltoken = Some(token);
                self.reg.reset();
                let ies = reg_ies(self.username.as_str(), self.refresh, &self.calltoken);
                self.request(ies, now);
                return;
            }
        }
        if f.dst_call == self.reg.local {
            self.reg.note_recv(f);
            self.on_reg_frame(f, now);
            return;
        }
        let on_call = match &self.call {
            Some(c) => f.dst_call == c.leg.local,
            None => false,
        };
        if on_call {
            if let Some(c) = self.call.take() {
                let mut c = c;
                c.leg.note_recv(f);
                self.call = Some(c);
            }
            self.on_call_frame(f, now);
        } else if f.frametype == frametype::IAX && (f.subclass == iax::ACK || f.subclass
            == iax::PONG || f.subclass == iax::INVAL) {
        } else {
            let mut line = "[i] Out of leg frame: dst_call=".to_owned();
            push_decimal(&mut line, f.dst_call as u64);
            line.append(" ft=0x");
            push_hex2(&mut line, f.frametype);
            line.append(" sc=0x");
            push_hex2(&mut line, f.subclass);
            self.say(line);
        }
    }

    fn on_qualify(&mut self, f: &FullFrame)
        ensures
            final(self)@ == old(self)@.on_qualify(f@),
    {
        let mut line = if f.subclass == iax::POKE {
            "[i] qualify POKE".to_owned()
        } else {
            "[i] qualify PING".to_owned()
        };
        line.append(" dal PBX (src_call=");
        push_decimal(&mut line, f.src_call as u64);
        line.append(") -> PONG");
        self.say(line);
        let src = if f.dst_call > QUALIFY_CALL {
            f.dst_call
        } else {
            QUALIFY_CALL
        };
        let ies: Vec<Ie> = Vec::new();
        assert(ies_view(ies@) =~= Seq::empty());
        let pong = FullFrame::new(
            src,
            f.src_call,
            f.timestamp,
            0,
            f.oseq.wrapping_add(1),
            frametype::IAX,
            iax::PONG,
            ies,
        );
        self.send(pong.encode());
    }

    fn on_new(&mut self, f: &FullFrame, now: Instant)
        requires
            now.in_range(),
            old(self)@.wf(),
        ensures
            final(self)@ == old(self)@.on_new(f@, now),
            final(self)@.wf(),
    {
        let ts = self.ts(now);
        if self.call.is_some() {
            let mut ies: Vec<Ie> = Vec::new();
            ies.push(Ie::str(iet::CAUSE, "Busy"));
            assert(ies_view(ies@) =~= seq![IeModel::of_str(iet::CAUSE, "Busy"@)]);
            let rej = FullFrame::new(
                BUSY_CALL,
                f.src_call,
                ts,
                0,
                f.oseq.wrapping_add(1),
                frametype::IAX,
                iax::REJECT,
                ies,
            );
            self.send(rej.encode());
            return;
        }
        let mut line = "[☎] INCOMING CALL FROM '".to_owned();
        line.append(text_in(f, iet::CALLING_NUMBER).as_str());
        line.append("' to '");
        line.append(text_in(f, iet::CALLED_NUMBER).as_str());
        line.append("'");
        self.say(line);
        let mut leg = Leg::new(CALL_LOCAL_CALL);
        leg.note_recv(f);
        let mut ies: Vec<Ie> = Vec::new();
        ies.push(Ie::u32(iet::FORMAT, consts::format::ULAW));
        assert(ies_view(ies@) =~= seq![IeModel::of_u32(iet::FORMAT, consts::format::ULAW)]);
        let accept = leg.build(ts, frametype::IAX, iax::ACCEPT, ies);
        self.send(accept.encode());
        let none: Vec<Ie> = Vec::new();
        assert(ies_view(none@) =~= Seq::empty());
        let answer = leg.build(ts, frametype::CONTROL, control::ANSWER, none);
        self.send(answer.encode());
        self.pending = Some(Pending::new(answer.encode(), now));
        self.act(Action::FlushAudio);
        self.call = Some(OneCall { leg, answered: true, sent_format: false });
        self.say("[✓] ANSWERED — audio on".to_owned());
    }

    fn on_reg_frame(&mut self, f: &FullFrame, now: Instant)
        requires
            now.in_range(),
            old(self)@.wf(),
        ensures
            final(self)@ == old(self)@.on_reg_frame(f@, now),
            final(self)@.wf(),
    {
        if f.subclass == iax::REGAUTH {
            self.on_regauth(f, now);
        } else if f.subclass == iax::REGACK {
            if let Some(refresh) = u16_in(f, iet::REFRESH) {
                if refresh > 0 {
                    self.refresh = refresh;
                }
            }
            self.registered = true;
            let pause = self.refresh as u64 * 4 / 5;
            self.next_reg = now.plus(pause * 1_000_000_000);
            let ack = self.reg.ack_bytes(self.ts(now));
            self.send(ack);
            let mut line = "[✓] REGISTERED (refresh ".to_owned();
            push_decimal(&mut line, self.refresh as u64);
            line.append("s, next ~");
            push_decimal(&mut line, pause);
            line.append("s)");
            self.say(line);
        } else if f.subclass == iax::REGREJ {
            let mut line = "[x] REGREJ causecode=".to_owned();
            push_debug_option(&mut line, cause_in(f));
            line.append(" — I will retry ");
            self.warn(line);
            self.calltoken = None;
            self.registered = false;
            self.next_reg = now.plus(REJECT_RETRY);
            let ack = self.reg.ack_bytes(self.ts(now));
            self.send(ack);
        } else if f.subclass == iax::ACK || f.subclass == iax::CALLTOKEN {
        } else {
            let mut line = "[i] reg leg subclass=0x".to_owned();
            push_hex2(&mut line, f.subclass);
            self.say(line);
        }
    }

    fn on_regauth(&mut self, f: &FullFrame, now: Instant)
        requires
            now.in_range(),
            old(self)@.wf(),
        ensures
            final(self)@ == old(self)@.on_regauth(f@, now),
            final(self)@.wf(),
    {
        if !md5_offered(f) {
            self.warn("[x] no MD5 in REGAUTH".to_owned());
            return;
        }
        match ie::find(f.ies.as_slice(), iet::CHALLENGE) {
            None => self.warn("[x] REGAUTH without challenge".to_owned()),
            Some(c) => {
                let answer = md5_response(c.as_str().as_str(), self.secret.as_str());
                let mut ies = reg_ies(self.username.as_str(), self.refresh, &self.calltoken);
                let ghost before = ies_view(ies@);
                ies.insert(1, Ie::str(iet::MD5_RESULT, answer.as_str()));
                assert(ies_view(ies@) =~= before.insert(
                    1,
                    IeModel::of_str(iet::MD5_RESULT, answer@),
                ));
                self.request(ies, now);
            },
        }
    }

    fn on_call_frame(&mut self, f: &FullFrame, now: Instant)
        requires
            old(self)@.call is Some,
            old(self)@.wf(),
        ensures
            final(self)@ == old(self)@.on_call_frame(f@, now),
            final(self)@.wf(),
    {
        let ts = self.ts(now);
        let ack = match &self.call {
            Some(c) => c.leg.ack_bytes(ts),
            None => Vec::new(),
        };
        if f.frametype == frametype::VOICE {
            self.play(f.media_payload.as_slice());
            self.send(ack);
        } else if f.frametype == frametype::IAX && f.subclass == iax::ACK {
        } else if f.frametype == frametype::IAX && f.subclass == iax::HANGUP {
            self.say("[i] Call closed by remote party".to_owned());
            self.send(ack);
            self.act(Action::FlushAudio);
            self.call = None;
        } else if f.frametype == frametype::CONTROL {
            self.send(ack);
        } else {
            let mut line = "[i] call leg ft=0x".to_owned();
            push_hex2(&mut line, f.frametype);
            line.append(" sc=0x");
            push_hex2(&mut line, f.subclass);
            self.say(line);
            self.send(ack);
        }
    }
}

/// A second call is refused as busy, and leaves the first one alone.
#[verifier::rlimit(40)]
pub proof fn law_second_call_is_refused(m: DaemonModel, f: FrameModel, now: Instant)
    requires
        m.call is Some,
        is_iax(f, iax::NEW),
        f.src_call < 0x8000,
    ensures
        ({
            let after = m.on_frame(f, now);
            &&& after == (DaemonModel { todo: after.todo, ..m })
            &&& after.todo.len() == m.todo.len() + 1
            &&& after.todo.last() matches ActionModel::Send { pbx, datagram } && FrameModel::parse(
                datagram,
            ) is Some && is_iax(FrameModel::parse(datagram)->0, iax::REJECT) && FrameModel::parse(
                datagram,
            )->0.dst_call == f.src_call && text_of(
                FrameModel::parse(datagram)->0.ies,
                iet::CAUSE,
            ) == "Busy"@
        }),
{
    let cause = IeModel::of_str(iet::CAUSE, "Busy"@);
    let rej = FrameModel::new(
        BUSY_CALL,
        f.src_call,
        m.ts(now),
        0,
        crate::leg::next_seq(f.oseq),
        frametype::IAX,
        iax::REJECT,
        seq![cause],
    );
    reveal_strlit("Busy");
    vstd::utf8::is_ascii_chars_encode_utf8("Busy"@);
    crate::ie::law_value_roundtrip(iet::CAUSE, 0, 0, "Busy"@);
    assert(crate::ie::all_fit(rej.ies));
    crate::frame::law_command_roundtrip(rej);
    assert(rej.ies[0] == cause);
}

/// A qualify is answered with its own timestamp.
pub proof fn law_qualify_is_echoed(m: DaemonModel, f: FrameModel)
    requires
        f.src_call < 0x8000,
        f.dst_call < 0x8000,
    ensures
        m.on_qualify(f).todo.last() matches ActionModel::Send { pbx, datagram }
            && FrameModel::parse(datagram) is Some && is_iax(
            FrameModel::parse(datagram)->0,
            iax::PONG,
        ) && FrameModel::parse(datagram)->0.timestamp == f.timestamp && FrameModel::parse(
            datagram,
        )->0.dst_call == f.src_call,
{
    let pong = FrameModel::new(
        if f.dst_call > QUALIFY_CALL {
            f.dst_call
        } else {
            QUALIFY_CALL
        },
        f.src_call,
        f.timestamp,
        0,
        crate::leg::next_seq(f.oseq),
        frametype::IAX,
        iax::PONG,
        Seq::empty(),
    );
    crate::frame::law_command_roundtrip(pong);
}

/// A frame of the registration or of the call acknowledges what is in flight.
pub proof fn law_answer_acknowledges(m: DaemonModel, dg: Seq<u8>, now: Instant)
    requires
        full_frame(dg),
        FrameModel::parse(dg) is Some,
        m.on_real_leg(FrameModel::parse(dg)->0),
        is_iax(FrameModel::parse(dg)->0, iax::ACK),
        token_of(FrameModel::parse(dg)->0.ies) is None,
    ensures
        m.on_datagram(dg, now).pending is None,
{
}

} // verus!
