//! A call with live audio to a number of an exchange, such as its echo test.
//!
//! The driver sends and plays what it is asked to, and hands in datagrams,
//! recorded frames once the call is answered, and the end of the call's time.

use std::collections::VecDeque;
use vstd::prelude::*;

use crate::accounts::arg;
use crate::action::{actions_view, Action, ActionModel};
use crate::client::{call_token, cause_in, md5_offered, u32_in};
use crate::client_model::{cause_code, is_control, is_iax, offers_md5, token_of, u32_of};
use crate::consts::{self, control, frametype, iax, ie as iet, IAX_PROTO_VERSION};
use crate::frame::{full_frame, is_full_frame, FrameModel, FullFrame, MiniFrame, MiniModel};
use crate::g711;
use crate::ie::{self, first_of, ies_view, Ie, IeModel};
use crate::leg::{Leg, LegModel};
use crate::pcm::frames_view;
use crate::text::{
    debug_option, debug_u32, decimal, hex2, push_debug_option, push_debug_u32, push_decimal,
    push_hex2,
};
use crate::time::Instant;
use crate::words::texts_view;
use crate::{md5_answer, md5_response};

verus! {

/// How long a call lasts if nothing else is asked for, in seconds.
pub const SECONDS_DEFAULT: u64 = 15;

/// The call number.
pub const LOCAL_CALL: u16 = 1;

/// The formats that can be spoken: u-law and A-law.
pub const CAPABILITY: u32 = consts::format::ULAW | consts::format::ALAW;

/// The whole state of a call.
#[verifier::ext_equal]
pub ghost struct CallTestModel {
    pub username: Seq<char>,
    pub secret: Seq<char>,
    pub called: Seq<char>,
    pub leg: LegModel,
    pub start: Instant,
    pub calltoken: Option<Seq<u8>>,
    pub answered: bool,
    pub sent_format: bool,
    pub todo: Seq<ActionModel>,
}

/// The elements of a `NEW`.
pub open spec fn new_call_ies(
    username: Seq<char>,
    called: Seq<char>,
    token: Option<Seq<u8>>,
) -> Seq<IeModel> {
    seq![
        IeModel::of_u16(iet::VERSION, IAX_PROTO_VERSION),
        IeModel::of_str(iet::CALLING_NUMBER, username),
        IeModel::of_str(iet::CALLING_NAME, "iax2-spike"@),
        IeModel::of_str(iet::USERNAME, username),
        IeModel::of_u32(iet::CAPABILITY, CAPABILITY),
        IeModel::of_u32(iet::FORMAT, consts::format::ULAW),
        IeModel::of_str(iet::CALLED_NUMBER, called),
        IeModel {
            kind: iet::CALLTOKEN,
            data: match token {
                Some(t) => t,
                None => Seq::empty(),
            },
        },
    ]
}

/// The line about a datagram that was sent.
pub open spec fn sent_line(label: Seq<char>, datagram: Seq<u8>) -> Seq<char> {
    "[>] "@ + label + " ("@ + decimal(datagram.len()) + " byte)"@
}

impl CallTestModel {
    /// The timestamp of a frame.
    pub open spec fn ts(self, now: Instant) -> u32 {
        (now.ms_since(self.start) % 0x1_0000_0000) as u32
    }

    /// With one more thing to do.
    pub open spec fn act(self, a: ActionModel) -> CallTestModel {
        CallTestModel { todo: self.todo.push(a), ..self }
    }

    /// With one more line to print.
    pub open spec fn say(self, line: Seq<char>) -> CallTestModel {
        self.act(ActionModel::Say(line))
    }

    /// With one more error to print.
    pub open spec fn warn(self, line: Seq<char>) -> CallTestModel {
        self.act(ActionModel::Warn(line))
    }

    /// With one more datagram to send.
    pub open spec fn send(self, datagram: Seq<u8>) -> CallTestModel {
        self.act(ActionModel::Send { pbx: 0, datagram })
    }

    /// With one more datagram to send and to print a line about.
    pub open spec fn report(self, datagram: Seq<u8>, label: Seq<char>) -> CallTestModel {
        self.act(ActionModel::Report { label, line: sent_line(label, datagram), datagram })
    }

    /// With one more acknowledgement to send.
    pub open spec fn ack(self, now: Instant) -> CallTestModel {
        self.send(self.leg.ack(self.ts(now)))
    }

    /// After the end.
    pub open spec fn finished(self) -> CallTestModel {
        self.say("[i] End."@).act(ActionModel::Exit(0))
    }

    /// After a request for the call was sent.
    pub open spec fn request(self, label: Seq<char>, now: Instant) -> CallTestModel {
        let f = self.leg.frame(
            self.ts(now),
            frametype::IAX,
            iax::NEW,
            new_call_ies(self.username, self.called, self.calltoken),
        );
        CallTestModel { leg: self.leg.advanced(), ..self }.report(f.wire(), label)
    }

    /// After a call was started.
    pub open spec fn begin(
        username: Seq<char>,
        secret: Seq<char>,
        called: Seq<char>,
        now: Instant,
    ) -> CallTestModel {
        CallTestModel {
            username,
            secret,
            called,
            leg: LegModel::new(LOCAL_CALL),
            start: now,
            calltoken: None,
            answered: false,
            sent_format: false,
            todo: Seq::empty(),
        }.request("NEW (initial)"@, now)
    }

    /// After one recorded frame was sent: the first in a full frame, which
    /// declares the format, the rest in mini frames.
    pub open spec fn voiced(self, pcm: Seq<i16>, now: Instant) -> CallTestModel {
        let payload = g711::ulaw_block(pcm);
        if !self.sent_format {
            CallTestModel { leg: self.leg.advanced(), sent_format: true, ..self }.send(
                self.leg.frame(
                    self.ts(now),
                    frametype::VOICE,
                    (consts::format::ULAW % 256) as u8,
                    Seq::empty(),
                ).wire_media(payload),
            )
        } else {
            self.send(
                MiniModel {
                    src_call: self.leg.local,
                    timestamp16: (self.ts(now) % 0x1_0000) as u16,
                    payload,
                }.wire(),
            )
        }
    }

    /// After recorded frames were sent, once the call is answered.
    pub open spec fn on_mic(self, frames: Seq<Seq<i16>>, now: Instant) -> CallTestModel
        decreases frames.len(),
    {
        if !self.answered || frames.len() == 0 {
            self
        } else {
            self.on_mic(frames.drop_last(), now).voiced(frames.last(), now)
        }
    }

    /// After the time of the call was over.
    pub open spec fn on_deadline(self, now: Instant) -> CallTestModel {
        CallTestModel {
            leg: self.leg.advanced(),
            ..self.say("[i] time out, HANGUP"@).send(
                self.leg.frame(
                    self.ts(now),
                    frametype::IAX,
                    iax::HANGUP,
                    seq![IeModel::of_str(iet::CAUSE, "Normal Clearing"@)],
                ).wire(),
            )
        }.finished()
    }

    /// After a datagram arrived.
    pub open spec fn on_datagram(self, dg: Seq<u8>, now: Instant) -> CallTestModel {
        if !full_frame(dg) {
            match MiniModel::parse(dg) {
                Some(m) => self.act(ActionModel::Play(g711::pcm_block(m.payload))),
                None => self,
            }
        } else {
            match FrameModel::parse(dg) {
                None => self,
                Some(f) => if token_of(f.ies) is Some && self.calltoken is None {
                    CallTestModel {
                        calltoken: token_of(f.ies),
                        leg: LegModel::new(self.leg.local),
                        ..self.say("[i] call-token, resend NEW (refresh)"@)
                    }.request("NEW (with call-token)"@, now)
                } else {
                    CallTestModel { leg: self.leg.note_recv(f), ..self }.on_frame(f, now)
                },
            }
        }
    }

    /// After a frame of the call.
    pub open spec fn on_frame(self, f: FrameModel, now: Instant) -> CallTestModel {
        if f.frametype == frametype::VOICE {
            (if f.subclass != consts::format::ULAW {
                self.warn("[!] voice non-ULAW: 0x"@ + hex2(f.subclass))
            } else {
                self
            }).act(ActionModel::Play(g711::pcm_block(f.media_payload))).ack(now)
        } else if is_iax(f, iax::AUTHREQ) {
            self.on_authreq(f, now)
        } else if is_iax(f, iax::ACCEPT) {
            self.say("[✓] ACCEPT format="@ + debug_u32(u32_of(f.ies, iet::FORMAT))).ack(now)
        } else if is_control(f, control::RINGING) {
            self.say("[i] RINGING…"@).ack(now)
        } else if is_control(f, control::ANSWER) {
            CallTestModel {
                answered: true,
                ..self.say("[✓] ANSWER — speak please, you must be hear your echo"@)
            }.ack(now)
        } else if is_control(f, control::BUSY) {
            self.say("[x] BUSY"@).ack(now).finished()
        } else if is_iax(f, iax::PING) || is_iax(f, iax::POKE) {
            self.send(
                self.leg.frame(f.timestamp, frametype::IAX, iax::PONG, Seq::empty()).wire(),
            )
        } else if is_iax(f, iax::HANGUP) {
            self.say("[i] HANGUP"@).ack(now).finished()
        } else if is_iax(f, iax::REJECT) {
            self.warn("[x] REJECT causecode="@ + debug_option(cause_code(f.ies))).ack(
                now,
            ).finished()
        } else if is_iax(f, iax::ACK) || is_iax(f, iax::PONG) {
            self
        } else {
            self.say(
                "[i] not processed ft=0x"@ + hex2(f.frametype) + " sc=0x"@ + hex2(f.subclass),
            ).ack(now)
        }
    }

    /// After a challenge.
    pub open spec fn on_authreq(self, f: FrameModel, now: Instant) -> CallTestModel {
        if !offers_md5(f.ies) {
            self.warn("[x] no MD5"@).finished()
        } else {
            match first_of(f.ies, iet::CHALLENGE) {
                None => self.warn("[x] no challenge"@).finished(),
                Some(c) => {
                    let rep = self.leg.frame(
                        self.ts(now),
                        frametype::IAX,
                        iax::AUTHREP,
                        seq![
                            IeModel::of_str(
                                iet::MD5_RESULT,
                                md5_answer(c.to_str(), self.secret),
                            ),
                        ],
                    );
                    CallTestModel { leg: self.leg.advanced(), ..self }.report(
                        rep.wire(),
                        "AUTHREP (MD5)"@,
                    )
                },
            }
        }
    }
}

/// A call with live audio.
#[derive(Debug)]
pub struct CallTest {
    pub username: String,
    pub secret: String,
    pub called: String,
    pub leg: Leg,
    pub start: Instant,
    pub calltoken: Option<Vec<u8>>,
    pub answered: bool,
    pub sent_format: bool,
    pub todo: VecDeque<Action>,
}

impl View for CallTest {
    type V = CallTestModel;

    open spec fn view(&self) -> CallTestModel {
        CallTestModel {
            username: self.username@,
            secret: self.secret@,
            called: self.called@,
            leg: self.leg@,
            start: self.start,
            calltoken: match self.calltoken {
                Some(t) => Some(t@),
                None => None,
            },
            answered: self.answered,
            sent_format: self.sent_format,
            todo: actions_view(self.todo@),
        }
    }
}

impl CallTest {
    /// Starts a call: the first request goes out.
    pub fn begin(username: &str, secret: &str, called: &str, now: Instant) -> (r: Self)
        ensures
            r@ == CallTestModel::begin(username@, secret@, called@, now),
    {
        let mut s = CallTest {
            username: username.to_owned(),
            secret: secret.to_owned(),
            called: called.to_owned(),
            leg: Leg::new(LOCAL_CALL),
            start: now,
            calltoken: None,
            answered: false,
            sent_format: false,
            todo: VecDeque::new(),
        };
        assert(s@.todo =~= Seq::empty());
        s.request("NEW (initial)", now);
        s
    }

    /// The next thing to do, oldest first.
    pub fn poll_action(&mut self) -> (r: Option<Action>)
        ensures
            r is Some == (old(self)@.todo.len() > 0),
            r is Some ==> r->0@ == old(self)@.todo[0],
            final(self)@ == (CallTestModel {
                todo: if r is Some {
                    old(self)@.todo.skip(1)
                } else {
                    old(self)@.todo
                },
                ..old(self)@
            }),
    {
        let r = self.todo.pop_front();
        if r.is_some() {
            assert(self@.todo =~= old(self)@.todo.skip(1));
        }
        r
    }

    fn ts(&self, now: Instant) -> (r: u32)
        ensures
            r == self@.ts(now),
    {
        (now.millis_since(self.start) % 0x1_0000_0000) as u32
    }

    fn act(&mut self, a: Action)
        ensures
            final(self)@ == old(self)@.act(a@),
    {
        self.todo.push_back(a);
        assert(self@ =~= old(self)@.act(a@));
    }

    fn say(&mut self, line: String)
        ensures
            final(self)@ == old(self)@.say(line@),
    {
        self.act(Action::Say(line));
    }

    fn warn(&mut self, line: String)
        ensures
            final(self)@ == old(self)@.warn(line@),
    {
        self.act(Action::Warn(line));
    }

    fn send(&mut self, datagram: Vec<u8>)
        ensures
            final(self)@ == old(self)@.send(datagram@),
    {
        self.act(Action::Send { pbx: 0, datagram });
    }

    fn report(&mut self, datagram: Vec<u8>, label: &str)
        ensures
            final(self)@ == old(self)@.report(datagram@, label@),
    {
        let mut line = "[>] ".to_owned();
        line.append(label);
        line.append(" (");
        push_decimal(&mut line, datagram.len() as u64);
        line.append(" byte)");
        self.act(Action::Report { label: label.to_owned(), line, datagram });
    }

    fn ack(&mut self, now: Instant)
        ensures
            final(self)@ == old(self)@.ack(now),
    {
        let bytes = self.leg.ack_bytes(self.ts(now));
        self.send(bytes);
    }

    fn finish(&mut self)
        ensures
            final(self)@ == old(self)@.finished(),
    {
        self.say("[i] End.".to_owned());
        self.act(Action::Exit(0));
    }

    /// The elements of a `NEW`.
    fn new_call_ies(&self) -> (r: Vec<Ie>)
        ensures
            ies_view(r@) == new_call_ies(self@.username, self@.called, self@.calltoken),
    {
        let mut ies: Vec<Ie> = Vec::new();
        ies.push(Ie::u16(iet::VERSION, IAX_PROTO_VERSION));
        ies.push(Ie::str(iet::CALLING_NUMBER, self.username.as_str()));
        ies.push(Ie::str(iet::CALLING_NAME, "iax2-spike"));
        ies.push(Ie::str(iet::USERNAME, self.username.as_str()));
        ies.push(Ie::u32(iet::CAPABILITY, CAPABILITY));
        ies.push(Ie::u32(iet::FORMAT, consts::format::ULAW));
        ies.push(Ie::str(iet::CALLED_NUMBER, self.called.as_str()));
        match &self.calltoken {
            Some(t) => {
                let token = t.clone();
                assert(token@ =~= t@);
                ies.push(Ie::new(iet::CALLTOKEN, token));
            },
            None => ies.push(Ie::empty(iet::CALLTOKEN)),
        }
        assert(ies_view(ies@) =~= new_call_ies(self@.username, self@.called, self@.calltoken));
        ies
    }

    fn request(&mut self, label: &str, now: Instant)
        ensures
            final(self)@ == old(self)@.request(label@, now),
    {
        let ts = self.ts(now);
        let ies = self.new_call_ies();
        let f = self.leg.build(ts, frametype::IAX, iax::NEW, ies);
        self.report(f.encode(), label);
    }

    /// Sends recorded frames, once the call is answered.
    pub fn on_mic(&mut self, frames: &Vec<Vec<i16>>, now: Instant)
        ensures
            final(self)@ == old(self)@.on_mic(frames_view(frames@), now),
    {
        if !self.answered {
            return;
        }
        let ghost m = self@;
        let ghost all = frames_view(frames@);
        assert(all.take(0) =~= Seq::empty());
        for i in 0..frames.len()
            invariant
                m.answered,
                all == frames_view(frames@),
                self@ == m.on_mic(all.take(i as int), now),
        {
            proof {
                assert(all.take(i + 1).drop_last() =~= all.take(i as int));
                assert(all.take(i + 1).last() == frames@[i as int]@);
            }
            self.voice(frames[i].as_slice(), now);
        }
        assert(all.take(all.len() as int) =~= all);
    }

    fn voice(&mut self, pcm: &[i16], now: Instant)
        ensures
            final(self)@ == old(self)@.voiced(pcm@, now),
    {
        let ts = self.ts(now);
        let mut payload: Vec<u8> = Vec::new();
        g711::encode_block(pcm, &mut payload);
        assert(payload@ =~= g711::ulaw_block(pcm@));
        if !self.sent_format {
            let ies: Vec<Ie> = Vec::new();
            assert(ies_view(ies@) =~= Seq::empty());
            let f = self.leg.build(
                ts,
                frametype::VOICE,
                (consts::format::ULAW % 256) as u8,
                ies,
            );
            self.send(f.encode_media(payload.as_slice()));
            self.sent_format = true;
        } else {
            let mf = MiniFrame {
                src_call: self.leg.local,
                timestamp16: (ts % 0x1_0000) as u16,
                payload,
            };
            self.send(mf.encode());
        }
    }

    /// The time of the call is over: it is hung up.
    pub fn on_deadline(&mut self, now: Instant)
        ensures
            final(self)@ == old(self)@.on_deadline(now),
    {
        self.say("[i] time out, HANGUP".to_owned());
        let ts = self.ts(now);
        let mut ies: Vec<Ie> = Vec::new();
        ies.push(Ie::str(iet::CAUSE, "Normal Clearing"));
        assert(ies_view(ies@) =~= seq![IeModel::of_str(iet::CAUSE, "Normal Clearing"@)]);
        let f = self.leg.build(ts, frametype::IAX, iax::HANGUP, ies);
        self.send(f.encode());
        self.finish();
    }

    fn play(&mut self, ulaw: &[u8])
        ensures
            final(self)@ == old(self)@.act(ActionModel::Play(g711::pcm_block(ulaw@))),
    {
        let mut pcm: Vec<i16> = Vec::new();
        g711::decode_block(ulaw, &mut pcm);
        assert(pcm@ =~= g711::pcm_block(ulaw@));
        self.act(Action::Play(pcm));
    }

    /// Takes a datagram from the exchange.
    pub fn on_datagram(&mut self, dg: &[u8], now: Instant)
        ensures
            final(self)@ == old(self)@.on_datagram(dg@, now),
    {
        if !is_full_frame(dg) {
            if let Some(m) = MiniFrame::decode(dg) {
                self.play(m.payload.as_slice());
            }
            return;
        }
        if let Some(f) = FullFrame::decode(dg) {
            if self.calltoken.is_none() {
                if let Some(token) = call_token(&f) {
                    self.say("[i] call-token, resend NEW (refresh)".to_owned());
                    self.calltoken = Some(token);
                    self.leg.reset();
                    self.request("NEW (with call-token)", now);
                    return;
                }
            }
            self.leg.note_recv(&f);
            self.on_frame(&f, now);
        }
    }

    fn on_frame(&mut self, f: &FullFrame, now: Instant)
        ensures
            final(self)@ == old(self)@.on_frame(f@, now),
    {
        let iax_frame = f.frametype == frametype::IAX;
        let control_frame = f.frametype == frametype::CONTROL;
        if f.frametype == frametype::VOICE {
            if f.subclass as u32 != consts::format::ULAW {
                let mut line = "[!] voice non-ULAW: 0x".to_owned();
                push_hex2(&mut line, f.subclass);
                self.warn(line);
            }
            self.play(f.media_payload.as_slice());
            self.ack(now);
        } else if iax_frame && f.subclass == iax::AUTHREQ {
            self.on_authreq(f, now);
        } else if iax_frame && f.subclass == iax::ACCEPT {
            let mut line = "[✓] ACCEPT format=".to_owned();
            push_debug_u32(&mut line, u32_in(f, iet::FORMAT));
            self.say(line);
            self.ack(now);
        } else if control_frame && f.subclass == control::RINGING {
            self.say("[i] RINGING…".to_owned());
            self.ack(now);
        } else if control_frame && f.subclass == control::ANSWER {
            self.say("[✓] ANSWER — speak please, you must be hear your echo".to_owned());
            self.answered = true;
            self.ack(now);
        } else if control_frame && f.subclass == control::BUSY {
            self.say("[x] BUSY".to_owned());
            self.ack(now);
            self.finish();
        } else if iax_frame && (f.subclass == iax::PING || f.subclass == iax::POKE) {
            let ies: Vec<Ie> = Vec::new();
            assert(ies_view(ies@) =~= Seq::empty());
            let pong = FullFrame::new(
                self.leg.local,
                self.leg.remote,
                f.timestamp,
                self.leg.oseq,
                self.leg.iseq,
                frametype::IAX,
                iax::PONG,
                ies,
            );
            self.send(pong.encode());
        } else if iax_frame && f.subclass == iax::HANGUP {
            self.say("[i] HANGUP".to_owned());
            self.ack(now);
            self.finish();
        } else if iax_frame && f.subclass == iax::REJECT {
            let mut line = "[x] REJECT causecode=".to_owned();
            push_debug_option(&mut line, cause_in(f));
            self.warn(line);
            self.ack(now);
            self.finish();
        } else if iax_frame && (f.subclass == iax::ACK || f.subclass == iax::PONG) {
        } else {
            let mut line = "[i] not processed ft=0x".to_owned();
            push_hex2(&mut line, f.frametype);
            line.append(" sc=0x");
            push_hex2(&mut line, f.subclass);
            self.say(line);
            self.ack(now);
        }
    }

    fn on_authreq(&mut self, f: &FullFrame, now: Instant)
        ensures
            final(self)@ == old(self)@.on_authreq(f@, now),
    {
        if !md5_offered(f) {
            self.warn("[x] no MD5".to_owned());
            self.finish();
            return;
        }
        match ie::find(f.ies.as_slice(), iet::CHALLENGE) {
            None => {
                self.warn("[x] no challenge".to_owned());
                self.finish();
            },
            Some(c) => {
                let answer = md5_response(c.as_str().as_str(), self.secret.as_str());
                let mut ies: Vec<Ie> = Vec::new();
                ies.push(Ie::str(iet::MD5_RESULT, answer.as_str()));
                assert(ies_view(ies@) =~= seq![IeModel::of_str(iet::MD5_RESULT, answer@)]);
                let ts = self.ts(now);
                let f = self.leg.build(ts, frametype::IAX, iax::AUTHREP, ies);
                self.report(f.encode(), "AUTHREP (MD5)");
            },
        }
    }
}

/// The number to call that a command line gives, after the name of the program
/// the host, the user and the secret: the echo test if there is none.
pub fn called_arg(args: &[String]) -> (r: String)
    ensures
        r@ == match arg(texts_view(args@), 4) {
            Some(number) => number,
            None => "*43"@,
        },
{
    if args.len() > 4 {
        args[4].clone()
    } else {
        "*43".to_owned()
    }
}

/// Nothing that is recorded is sent before the call is answered.
pub proof fn law_silent_until_answered(m: CallTestModel, frames: Seq<Seq<i16>>, now: Instant)
    requires
        !m.answered,
    ensures
        m.on_mic(frames, now) == m,
{
}

/// A ping on the call is answered with its own timestamp.
pub proof fn law_ping_is_echoed(m: CallTestModel, f: FrameModel, now: Instant)
    requires
        is_iax(f, iax::PING) || is_iax(f, iax::POKE),
        m.leg.local < 0x8000,
        m.leg.remote < 0x8000,
    ensures
        ({
            let after = m.on_frame(f, now);
            &&& after.leg == m.leg
            &&& after.todo.len() == m.todo.len() + 1
            &&& after.todo.last() matches ActionModel::Send { pbx, datagram } && FrameModel::parse(
                datagram,
            ) == Some(m.leg.frame(f.timestamp, frametype::IAX, iax::PONG, Seq::empty()))
        }),
{
    let pong = m.leg.frame(f.timestamp, frametype::IAX, iax::PONG, Seq::empty());
    crate::frame::law_command_roundtrip(pong);
    assert(pong.narrowed() =~= pong);
}

} // verus!
