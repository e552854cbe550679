//! A registration handshake, step by step, for diagnosis.
//!
//! The driver sends what it is asked to, and hands in datagrams and the end of
//! each wait of [`RETRANSMIT_AFTER_MS`].

use std::collections::VecDeque;
use vstd::prelude::*;

use crate::action::{actions_view, Action, ActionModel};
use crate::client::{call_token, cause_in, md5_offered, u16_in};
use crate::client_model::{cause_code, offers_md5, token_of, u16_of};
use crate::consts::{frametype, iax, ie as iet};
use crate::frame::{full_frame, is_full_frame, FrameModel, FullFrame};
use crate::ie::{self, first_of, ies_view, Ie, IeModel};
use crate::leg::{Leg, LegModel};
use crate::text::{
    debug_list, debug_option, debug_text, decimal, hex2, hex4, push_debug_list, push_debug_option,
    push_debug_text, push_decimal, push_hex2, push_hex4,
};
use crate::time::Instant;
use crate::{md5_answer, md5_response};

verus! {

/// How long an answer is waited for, in milliseconds.
pub const RETRANSMIT_AFTER_MS: u64 = 1000;

/// After how many waits in vain the exchange is given up.
pub const MAX_ATTEMPTS: u32 = 5;

/// The call number of the handshake.
pub const LOCAL_CALL: u16 = 1;

/// The whole state of a handshake.
#[verifier::ext_equal]
pub ghost struct SessionModel {
    pub username: Seq<char>,
    pub secret: Seq<char>,
    pub refresh: u16,
    pub leg: LegModel,
    pub start: Instant,
    pub calltoken: Option<Seq<u8>>,
    pub pending: FrameModel,
    pub attempts: u32,
    pub todo: Seq<ActionModel>,
}

/// The elements of a request, with others after the name.
pub open spec fn regreq_ies(
    username: Seq<char>,
    extra: Seq<IeModel>,
    refresh: u16,
    token: Option<Seq<u8>>,
) -> Seq<IeModel> {
    (seq![IeModel::of_str(iet::USERNAME, username)] + extra).push(
        IeModel::of_u16(iet::REFRESH, refresh),
    ).push(
        IeModel {
            kind: iet::CALLTOKEN,
            data: match token {
                Some(t) => t,
                None => Seq::empty(),
            },
        },
    )
}

/// The line about a frame that was sent.
pub open spec fn sent_line(label: Seq<char>, f: FrameModel) -> Seq<char> {
    "[>] "@ + label + ": oseq="@ + decimal(f.oseq as nat) + " iseq="@ + decimal(f.iseq as nat)
        + " dst_call="@ + decimal(f.dst_call as nat) + " ("@ + decimal(f.wire().len()) + " byte)"@
}

/// The text of an element, if there is one of the kind.
pub open spec fn some_text(ies: Seq<IeModel>, kind: u8) -> Option<Seq<char>> {
    match first_of(ies, kind) {
        Some(i) => Some(i.to_str()),
        None => None,
    }
}

/// The authentication methods that are offered.
pub open spec fn methods_of(ies: Seq<IeModel>) -> u16 {
    match u16_of(ies, iet::AUTHMETHODS) {
        Some(m) => m,
        None => 0,
    }
}

impl SessionModel {
    /// The timestamp of a frame.
    pub open spec fn ts(self, now: Instant) -> u32 {
        (now.ms_since(self.start) % 0x1_0000_0000) as u32
    }

    /// With one more thing to do.
    pub open spec fn act(self, a: ActionModel) -> SessionModel {
        SessionModel { todo: self.todo.push(a), ..self }
    }

    /// With one more line to print.
    pub open spec fn say(self, line: Seq<char>) -> SessionModel {
        self.act(ActionModel::Say(line))
    }

    /// With one more error to print.
    pub open spec fn warn(self, line: Seq<char>) -> SessionModel {
        self.act(ActionModel::Warn(line))
    }

    /// After a frame was sent.
    pub open spec fn sent(self, f: FrameModel, label: Seq<char>) -> SessionModel {
        self.act(ActionModel::Report { label, line: sent_line(label, f), datagram: f.wire() })
    }

    /// After a request was sent, which then waits for its answer.
    pub open spec fn request(self, extra: Seq<IeModel>, label: Seq<char>, now: Instant) -> SessionModel {
        let f = self.leg.frame(
            self.ts(now),
            frametype::IAX,
            iax::REGREQ,
            regreq_ies(self.username, extra, self.refresh, self.calltoken),
        );
        SessionModel { leg: self.leg.advanced(), pending: f, ..self }.sent(f, label)
    }

    /// After an acknowledgement was sent.
    pub open spec fn ack(self, now: Instant) -> SessionModel {
        self.sent(
            self.leg.frame(self.ts(now), frametype::IAX, iax::ACK, Seq::empty()),
            "ACK"@,
        )
    }

    /// After a handshake started.
    pub open spec fn begin(
        username: Seq<char>,
        secret: Seq<char>,
        refresh: u16,
        now: Instant,
    ) -> SessionModel {
        SessionModel {
            username,
            secret,
            refresh,
            leg: LegModel::new(LOCAL_CALL),
            start: now,
            calltoken: None,
            pending: FrameModel::new(0, 0, 0, 0, 0, 0, 0, Seq::empty()),
            attempts: 0,
            todo: Seq::empty(),
        }.request(Seq::empty(), "REGREQ (init)"@, now)
    }

    /// After a wait in vain.
    pub open spec fn on_silence(self, now: Instant) -> SessionModel {
        let m = SessionModel { attempts: (self.attempts + 1) as u32, ..self };
        if m.attempts >= MAX_ATTEMPTS {
            m.warn("[x] no answer after "@ + decimal(MAX_ATTEMPTS as nat) + " tries"@).act(
                ActionModel::Exit(1),
            )
        } else {
            let f = FrameModel { retransmit: true, timestamp: self.ts(now), ..self.pending };
            SessionModel { pending: f, ..m }.sent(f, "(retransmission)"@)
        }
    }

    /// After a datagram arrived.
    pub open spec fn on_datagram(self, dg: Seq<u8>, now: Instant) -> SessionModel {
        let m = SessionModel { attempts: 0, ..self };
        if !full_frame(dg) {
            m
        } else {
            match FrameModel::parse(dg) {
                None => m.warn("[!] full frame not decoded ("@ + decimal(dg.len()) + " byte)"@),
                Some(f) => if f.frametype != frametype::IAX {
                    m
                } else if token_of(f.ies) is Some && m.calltoken is None {
                    m.on_token(token_of(f.ies)->0, now)
                } else {
                    SessionModel { leg: m.leg.note_recv(f), ..m }.on_frame(f, now)
                },
            }
        }
    }

    /// After the first call token: the request is repeated afresh.
    pub open spec fn on_token(self, token: Seq<u8>, now: Instant) -> SessionModel {
        SessionModel {
            calltoken: Some(token),
            leg: LegModel::new(self.leg.local),
            ..self.say(
                "[i] received call-token ricevuto ("@ + decimal(token.len())
                    + " byte), resend REGREQ (refresh)"@,
            )
        }.request(Seq::empty(), "REGREQ (with call-token)"@, now)
    }

    /// After a frame of the handshake.
    pub open spec fn on_frame(self, f: FrameModel, now: Instant) -> SessionModel {
        if f.subclass == iax::REGAUTH {
            self.on_regauth(f, now)
        } else if f.subclass == iax::REGACK {
            self.on_regack(f, now)
        } else if f.subclass == iax::REGREJ {
            self.on_regrej(f, now)
        } else {
            self.say("[i] frame IAX subclass=0x"@ + hex2(f.subclass) + " (ignored)"@)
        }
    }

    /// After a challenge.
    pub open spec fn on_regauth(self, f: FrameModel, now: Instant) -> SessionModel {
        let challenge = some_text(f.ies, iet::CHALLENGE);
        let m = self.say(
            "[i] REGAUTH: methods=0x"@ + hex4(methods_of(f.ies)) + " challenge="@ + debug_text(
                challenge,
            ),
        );
        if !offers_md5(f.ies) {
            m.warn(
                "[x] il PBX non offre MD5 (questo spike fa solo MD5). methods=0x"@ + hex4(
                    methods_of(f.ies),
                ),
            ).act(ActionModel::Exit(1))
        } else {
            match challenge {
                None => m.warn("[x] REGAUTH without CHALLENGE"@).act(ActionModel::Exit(1)),
                Some(c) => m.request(
                    seq![IeModel::of_str(iet::MD5_RESULT, md5_answer(c, self.secret))],
                    "REGREQ (authenticated MD5)"@,
                    now,
                ),
            }
        }
    }

    /// After the registration was confirmed.
    pub open spec fn on_regack(self, f: FrameModel, now: Instant) -> SessionModel {
        let a = self.say("[✓] REGACK — registration success!"@);
        let b = match first_of(f.ies, iet::DATETIME) {
            Some(i) => a.say("    datetime IE: "@ + decimal(i.data.len()) + " byte"@),
            None => a,
        };
        let c = match u16_of(f.ies, iet::REFRESH) {
            Some(r) => b.say("    best refresh: "@ + decimal(r as nat) + "s"@),
            None => b,
        };
        c.ack(now).act(ActionModel::Exit(0))
    }

    /// After the registration was refused.
    pub open spec fn on_regrej(self, f: FrameModel, now: Instant) -> SessionModel {
        self.warn(
            "[x] REGREJ — registration refused. cause="@ + debug_text(some_text(f.ies, iet::CAUSE))
                + " causecode="@ + debug_option(cause_code(f.ies)),
        ).warn(
            "    IE (types): "@ + debug_list(f.ies.map_values(|i: IeModel| i.kind)),
        ).ack(now).act(ActionModel::Exit(1))
    }
}

/// A registration handshake.
#[derive(Debug)]
pub struct Session {
    pub username: String,
    pub secret: String,
    pub refresh: u16,
    pub leg: Leg,
    pub start: Instant,
    pub calltoken: Option<Vec<u8>>,
    pub pending: FullFrame,
    pub attempts: u32,
    pub todo: VecDeque<Action>,
}

impl View for Session {
    type V = SessionModel;

    open spec fn view(&self) -> SessionModel {
        SessionModel {
            username: self.username@,
            secret: self.secret@,
            refresh: self.refresh,
            leg: self.leg@,
            start: self.start,
            calltoken: match self.calltoken {
                Some(t) => Some(t@),
                None => None,
            },
            pending: self.pending@,
            attempts: self.attempts,
            todo: actions_view(self.todo@),
        }
    }
}

/// The text of an element of a frame, if there is one of the kind.
fn text_if(f: &FullFrame, kind: u8) -> (r: Option<String>)
    ensures
        match some_text(f@.ies, kind) {
            Some(t) => r is Some && r->0@ == t,
            None => r is None,
        },
{
    match ie::find(f.ies.as_slice(), kind) {
        Some(i) => Some(i.as_str()),
        None => None,
    }
}

/// The line about a frame that was sent.
fn line_about(label: &str, f: &FullFrame, len: usize) -> (r: String)
    requires
        len == f@.wire().len(),
    ensures
        r@ == sent_line(label@, f@),
{
    let mut line = "[>] ".to_owned();
    line.append(label);
    line.append(": oseq=");
    push_decimal(&mut line, f.oseq as u64);
    line.append(" iseq=");
    push_decimal(&mut line, f.iseq as u64);
    line.append(" dst_call=");
    push_decimal(&mut line, f.dst_call as u64);
    line.append(" (");
    push_decimal(&mut line, len as u64);
    line.append(" byte)");
    line
}

impl Session {
    /// Starts a handshake: the first request goes out.
    pub fn begin(username: &str, secret: &str, refresh: u16, now: Instant) -> (r: Self)
        ensures
            r@ == SessionModel::begin(username@, secret@, refresh, now),
    {
        let ies: Vec<Ie> = Vec::new();
        assert(ies_view(ies@) =~= Seq::empty());
        let mut s = Session {
            username: username.to_owned(),
            secret: secret.to_owned(),
            refresh,
            leg: Leg::new(LOCAL_CALL),
            start: now,
            calltoken: None,
            pending: FullFrame::new(0, 0, 0, 0, 0, 0, 0, ies),
            attempts: 0,
            todo: VecDeque::new(),
        };
        assert(s@.todo =~= Seq::empty());
        let extra: Vec<Ie> = Vec::new();
        assert(ies_view(extra@) =~= Seq::empty());
        s.request(extra, "REGREQ (init)", now);
        s
    }

    /// The next thing to do, oldest first.
    pub fn poll_action(&mut self) -> (r: Option<Action>)
        ensures
            r is Some == (old(self)@.todo.len() > 0),
            r is Some ==> r->0@ == old(self)@.todo[0],
            final(self)@ == (SessionModel {
                todo: if r is Some {
                    old(self)@.todo.skip(1)
                } else {
                    old(self)@.todo
                },
                ..old(self)@
            }),
    {
        let r = self.todo.pop_front();
        if r.is_some() {
            assert(self@.todo =~= old(self)@.todo.skip(1));
        }
        r
    }

    fn ts(&self, now: Instant) -> (r: u32)
        ensures
            r == self@.ts(now),
    {
        (now.millis_since(self.start) % 0x1_0000_0000) as u32
    }

    fn act(&mut self, a: Action)
        ensures
            final(self)@ == old(self)@.act(a@),
    {
        self.todo.push_back(a);
        assert(self@ =~= old(self)@.act(a@));
    }

    fn say(&mut self, line: String)
        ensures
            final(self)@ == old(self)@.say(line@),
    {
        self.act(Action::Say(line));
    }

    fn warn(&mut self, line: String)
        ensures
            final(self)@ == old(self)@.warn(line@),
    {
        self.act(Action::Warn(line));
    }

    fn send(&mut self, f: &FullFrame, label: &str)
        ensures
            final(self)@ == old(self)@.sent(f@, label@),
    {
        let datagram = f.encode();
        let line = line_about(label, f, datagram.len());
        self.act(Action::Report { label: label.to_owned(), line, datagram });
    }

    /// The elements of a request.
    fn regreq_ies(&self, extra: Vec<Ie>) -> (r: Vec<Ie>)
        ensures
            ies_view(r@) == regreq_ies(
                self@.username,
                ies_view(extra@),
                self@.refresh,
                self@.calltoken,
            ),
    {
        let mut ies: Vec<Ie> = Vec::new();
        ies.push(Ie::str(iet::USERNAME, self.username.as_str()));
        let ghost head = ies_view(ies@);
        let ghost more = ies_view(extra@);
        assert(head =~= seq![IeModel::of_str(iet::USERNAME, self@.username)]);
        assert(head + more.take(0) =~= head);
        for i in it: extra
            invariant
                it.seq() == extra@,
                more == ies_view(extra@),
                ies_view(ies@) == head + more.take(it.index()),
        {
            let ghost had = ies_view(ies@);
            ies.push(i);
            assert(ies_view(ies@) =~= had.push(i@));
            assert(head + more.take(it.index() + 1) =~= (head + more.take(it.index())).push(i@));
        }
        assert(more.take(more.len() as int) =~= more);
        let ghost had = ies_view(ies@);
        ies.push(Ie::u16(iet::REFRESH, self.refresh));
        let token = match &self.calltoken {
            Some(t) => {
                let token = t.clone();
                assert(token@ =~= t@);
                Ie::new(iet::CALLTOKEN, token)
            },
            None => Ie::empty(iet::CALLTOKEN),
        };
        ies.push(token);
        assert(ies_view(ies@) =~= had.push(IeModel::of_u16(iet::REFRESH, self@.refresh)).push(
            token@,
        ));
        ies
    }

    fn request(&mut self, extra: Vec<Ie>, label: &str, now: Instant)
        ensures
            final(self)@ == old(self)@.request(ies_view(extra@), label@, now),
    {
        let ts = self.ts(now);
        let ies = self.regreq_ies(extra);
        let f = self.leg.build(ts, frametype::IAX, iax::REGREQ, ies);
        self.send(&f, label);
        self.pending = f;
    }

    fn ack(&mut self, now: Instant)
        ensures
            final(self)@ == old(self)@.ack(now),
    {
        let ies: Vec<Ie> = Vec::new();
        assert(ies_view(ies@) =~= Seq::empty());
        let f = FullFrame::new(
            self.leg.local,
            self.leg.remote,
            self.ts(now),
            self.leg.oseq,
            self.leg.iseq,
            frametype::IAX,
            iax::ACK,
            ies,
        );
        self.send(&f, "ACK");
    }

    /// A wait ended in vain: the request is sent again, or given up.
    pub fn on_silence(&mut self, now: Instant)
        requires
            old(self)@.attempts < u32::MAX,
        ensures
            final(self)@ == old(self)@.on_silence(now),
    {
        self.attempts = self.attempts + 1;
        if self.attempts >= MAX_ATTEMPTS {
            let mut line = "[x] no answer after ".to_owned();
            push_decimal(&mut line, MAX_ATTEMPTS as u64);
            line.append(" tries");
            self.warn(line);
            self.act(Action::Exit(1));
        } else {
            self.pending.retransmit = true;
            self.pending.timestamp = self.ts(now);
            let datagram = self.pending.encode();
            let line = line_about("(retransmission)", &self.pending, datagram.len());
            self.act(Action::Report { label: "(retransmission)".to_owned(), line, datagram });
        }
    }

    /// Takes a datagram from the exchange.
    pub fn on_datagram(&mut self, dg: &[u8], now: Instant)
        ensures
            final(self)@ == old(self)@.on_datagram(dg@, now),
    {
        self.attempts = 0;
        if !is_full_frame(dg) {
            return;
        }
        match FullFrame::decode(dg) {
            None => {
                let mut line = "[!] full frame not decoded (".to_owned();
                push_decimal(&mut line, dg.len() as u64);
                line.append(" byte)");
                self.warn(line);
            },
            Some(f) => {
                if f.frametype != frametype::IAX {
                    return;
                }
                if self.calltoken.is_none() {
                    if let Some(token) = call_token(&f) {
                        self.on_token(token, now);
                        return;
                    }
                }
                self.leg.note_recv(&f);
                if f.subclass == iax::REGAUTH {
                    self.on_regauth(&f, now);
                } else if f.subclass == iax::REGACK {
                    self.on_regack(&f, now);
                } else if f.subclass == iax::REGREJ {
                    self.on_regrej(&f, now);
                } else {
                    let mut line = "[i] frame IAX subclass=0x".to_owned();
                    push_hex2(&mut line, f.subclass);
                    line.append(" (ignored)");
                    self.say(line);
                }
            },
        }
    }

    fn on_token(&mut self, token: Vec<u8>, now: Instant)
        ensures
            final(self)@ == old(self)@.on_token(token@, now),
    {
        let mut line = "[i] received call-token ricevuto (".to_owned();
        push_decimal(&mut line, token.len() as u64);
        line.append(" byte), resend REGREQ (refresh)");
        self.say(line);
        self.calltoken = Some(token);
        self.leg.reset();
        let extra: Vec<Ie> = Vec::new();
        assert(ies_view(extra@) =~= Seq::empty());
        self.request(extra, "REGREQ (with call-token)", now);
    }

    fn on_regauth(&mut self, f: &FullFrame, now: Instant)
        ensures
            final(self)@ == old(self)@.on_regauth(f@, now),
    {
        let methods = match u16_in(f, iet::AUTHMETHODS) {
            Some(m) => m,
            None => 0,
        };
        let challenge = text_if(f, iet::CHALLENGE);
        let mut line = "[i] REGAUTH: methods=0x".to_owned();
        push_hex4(&mut line, methods);
        line.append(" challenge=");
        match &challenge {
            Some(c) => push_debug_text(&mut line, Some(c.as_str())),
            None => push_debug_text(&mut line, None),
        }
        self.say(line);
        if !md5_offered(f) {
            let mut line =
                "[x] il PBX non offre MD5 (questo spike fa solo MD5). methods=0x".to_owned();
            push_hex4(&mut line, methods);
            self.warn(line);
            self.act(Action::Exit(1));
            return;
        }
        match challenge {
            None => {
                self.warn("[x] REGAUTH without CHALLENGE".to_owned());
                self.act(Action::Exit(1));
            },
            Some(c) => {
                let answer = md5_response(c.as_str(), self.secret.as_str());
                let mut extra: Vec<Ie> = Vec::new();
                extra.push(Ie::str(iet::MD5_RESULT, answer.as_str()));
                assert(ies_view(extra@) =~= seq![IeModel::of_str(iet::MD5_RESULT, answer@)]);
                self.request(extra, "REGREQ (authenticated MD5)", now);
            },
        }
    }

    fn on_regack(&mut self, f: &FullFrame, now: Instant)
        ensures
            final(self)@ == old(self)@.on_regack(f@, now),
    {
        self.say("[✓] REGACK — registration success!".to_owned());
        if let Some(i) = ie::find(f.ies.as_slice(), iet::DATETIME) {
            let mut line = "    datetime IE: ".to_owned();
            push_decimal(&mut line, i.data.len() as u64);
            line.append(" byte");
            self.say(line);
        }
        if let Some(r) = u16_in(f, iet::REFRESH) {
            let mut line = "    best refresh: ".to_owned();
            push_decimal(&mut line, r as u64);
            line.append("s");
            self.say(line);
        }
        self.ack(now);
        self.act(Action::Exit(0));
    }

    fn on_regrej(&mut self, f: &FullFrame, now: Instant)
        ensures
            final(self)@ == old(self)@.on_regrej(f@, now),
    {
        let mut line = "[x] REGREJ — registration refused. cause=".to_owned();
        match text_if(f, iet::CAUSE) {
            Some(c) => push_debug_text(&mut line, Some(c.as_str())),
            None => push_debug_text(&mut line, None),
        }
        line.append(" causecode=");
        push_debug_option(&mut line, cause_in(f));
        self.warn(line);
        let ghost all = f@.ies.map_values(|i: IeModel| i.kind);
        let mut kinds: Vec<u8> = Vec::new();
        for i in 0..f.ies.len()
            invariant
                all == f@.ies.map_values(|i: IeModel| i.kind),
                kinds@ == all.take(i as int),
        {
            kinds.push(f.ies[i].kind);
            assert(f@.ies[i as int] == f.ies@[i as int]@);
            assert(all.take(i + 1) =~= all.take(i as int).push(all[i as int]));
        }
        assert(all.take(all.len() as int) =~= all);
        let mut line = "    IE (types): ".to_owned();
        push_debug_list(&mut line, kinds.as_slice());
        self.warn(line);
        self.ack(now);
        self.act(Action::Exit(1));
    }
}

/// A handshake that gets no answer ends after [`MAX_ATTEMPTS`] waits: the count
/// grows with each wait in vain, and starts over with each datagram.
pub proof fn law_gives_up(m: SessionModel, now: Instant, dg: Seq<u8>)
    requires
        m.attempts < MAX_ATTEMPTS,
    ensures
        m.on_silence(now).attempts == m.attempts + 1,
        m.attempts + 1 == MAX_ATTEMPTS ==> m.on_silence(now).todo.last() == ActionModel::Exit(1),
        m.attempts + 1 < MAX_ATTEMPTS ==> m.on_silence(now).todo.last() is Report
            && m.on_silence(now).pending.retransmit,
        m.on_datagram(dg, now).attempts == 0,
{
}

/// The request that is sent again is the same, but for the retransmission bit
/// and the time.
pub proof fn law_same_request_again(m: SessionModel, now: Instant)
    requires
        m.attempts + 1 < MAX_ATTEMPTS,
    ensures
        m.on_silence(now).pending == (FrameModel {
            retransmit: true,
            timestamp: m.ts(now),
            ..m.pending
        }),
        m.on_silence(now).leg == m.leg,
{
}

} // verus!
