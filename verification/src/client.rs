//! The state machine of one account on one exchange. It does no input or
//! output of its own: the driver carries datagrams, commands, events and time.
//!
//! A driver sends what [`PbxClient::poll_transmit`] hands out, calls
//! [`PbxClient::handle_timeout`] when [`PbxClient::poll_timeout`] says so,
//! delivers datagrams with [`PbxClient::handle_input`] and the user's wishes
//! with [`PbxClient::handle_command`], and reads [`PbxClient::poll_event`].
//! Each call takes the current reading of the driver's clock.

use std::collections::{BTreeMap, VecDeque};
use vstd::prelude::*;

pub use crate::client_model::{CallState, Dir, RegState};
pub use crate::leg::{Leg, Outstanding};

use crate::client_laws::{
    law_command_keeps_invariant, law_datagram_keeps_invariant, law_new_call_number_is_free,
    law_timeout_keeps_invariant,
};
use crate::client_model::{
    callno_search, cause_code, dtmf_code, full_ts, is_iax, new_ies, offers_md5, qualify_after,
    text_of, token_of, ts_gap, u16_of, u32_of, without_target, CallModel, ClientModel, ConfigModel,
    EventModel, CALLNO_CALL_BASE, CALLNO_CALL_LAST, CALLNO_COUNT, CALLNO_KEEPALIVE,
    CALLNO_QUALIFY_BASE, CALLNO_QUALIFY_LAST, CALLNO_REG, CALLNO_TRIES, KEEPALIVE_EVERY, REG_GUARD,
    REG_RETRY,
};
use crate::consts::{self, authmethod, control, frametype, iax, ie as iet, IAX_PROTO_VERSION};
use crate::frame::{is_full_frame, FullFrame, MiniFrame};
use crate::ie::{self, ies_view, Ie, IeModel};
use crate::leg::{datagrams_view, resends, window_view, LegModel};
use crate::md5_response;
use crate::table::{ascending, ids_of, keys_of, lemma_ascending_unique, lemma_ids_below};
use crate::text;
use crate::time::Instant;

verus! {

broadcast use vstd::laws_cmp::group_laws_cmp;

// --- timestamps of mini frames ----------------------------------------------

fn gap(a: u32, b: u32) -> (r: u32)
    ensures
        r == ts_gap(a as int, b as int),
{
    if a >= b {
        a - b
    } else {
        b - a
    }
}

/// Rebuilds the 32-bit timestamp of a mini frame from its low 16 bits and the
/// last full timestamp of the call's audio, which it keeps close to.
#[verifier::rlimit(40)]
pub fn reconstruct_ts(last: u32, ts16: u16, seen: bool) -> (r: u32)
    ensures
        r == full_ts(last, ts16, seen),
{
    if !seen {
        return ts16 as u32;
    }
    let cand: u32 = last / 0x1_0000 * 0x1_0000 + ts16 as u32;
    let lower: u32 = cand.wrapping_sub(0x1_0000);
    let upper: u32 = cand.wrapping_add(0x1_0000);
    let mut best = cand;
    if gap(lower, last) <= gap(cand, last) {
        best = lower;
    }
    if gap(upper, last) < gap(best, last) {
        best = upper;
    }
    best
}

// --- configuration ----------------------------------------------------------

/// The configuration of an account.
#[derive(Clone, Debug)]
pub struct Config {
    /// Label of the exchange, shown to the user.
    pub name: String,
    pub username: String,
    pub secret: String,
    /// Refresh of the registration to ask for, in seconds.
    pub refresh: u16,
    /// Audio format, as a format bit mask.
    pub audio_format: u32,
}

impl View for Config {
    type V = ConfigModel;

    open spec fn view(&self) -> ConfigModel {
        ConfigModel {
            name: self.name@,
            username: self.username@,
            secret: self.secret@,
            refresh: self.refresh,
            audio_format: self.audio_format,
        }
    }
}

impl Config {
    /// An account that registers every 60 s and speaks u-law.
    pub fn new(name: &str, username: &str, secret: &str) -> (r: Self)
        ensures
            r@ == (ConfigModel {
                name: name@,
                username: username@,
                secret: secret@,
                refresh: 60,
                audio_format: consts::format::ULAW,
            }),
    {
        Config {
            name: name.to_owned(),
            username: username.to_owned(),
            secret: secret.to_owned(),
            refresh: 60,
            audio_format: consts::format::ULAW,
        }
    }
}

// --- events -----------------------------------------------------------------

/// What the client tells the driver.
#[derive(Debug, Clone)]
#[non_exhaustive]
pub enum Event {
    /// The registration is confirmed.
    Registered,
    /// The registration failed or was lost; the client tries again by itself.
    RegisterLost { reason: String },
    /// A call comes in and rings. The driver decides whether to answer it.
    Incoming { call: u16, from: String, to: String },
    /// The request for an outbound call was sent.
    Dialing { call: u16, to: String },
    /// The peer is ringing.
    Ringing { call: u16 },
    /// The call is connected: audio may flow.
    Answered { call: u16 },
    /// Audio of a connected call, as raw G.711 octets.
    Voice { call: u16, ts: u32, ulaw: Vec<u8> },
    /// The call is over.
    Ended { call: u16, reason: String },
    /// A DTMF digit from the peer.
    Dtmf { call: u16, digit: char },
    /// Something to write to a log.
    Log(String),
}

impl View for Event {
    type V = EventModel;

    open spec fn view(&self) -> EventModel {
        match *self {
            Event::Registered => EventModel::Registered,
            Event::RegisterLost { reason } => EventModel::RegisterLost { reason: reason@ },
            Event::Incoming { call, from, to } => EventModel::Incoming {
                call,
                from: from@,
                to: to@,
            },
            Event::Dialing { call, to } => EventModel::Dialing { call, to: to@ },
            Event::Ringing { call } => EventModel::Ringing { call },
            Event::Answered { call } => EventModel::Answered { call },
            Event::Voice { call, ts, ulaw } => EventModel::Voice { call, ts, ulaw: ulaw@ },
            Event::Ended { call, reason } => EventModel::Ended { call, reason: reason@ },
            Event::Dtmf { call, digit } => EventModel::Dtmf { call, digit },
            Event::Log(s) => EventModel::Log(s@),
        }
    }
}

/// What a list of events tells.
pub open spec fn events_view(events: Seq<Event>) -> Seq<EventModel> {
    events.map_values(|e: Event| e@)
}

// --- commands ---------------------------------------------------------------

/// What the driver asks of the client.
#[derive(Debug, Clone)]
#[non_exhaustive]
pub enum Command {
    /// Dial a number.
    Dial { number: String },
    /// Answer an inbound call that rings.
    Answer { call: u16 },
    /// Hang up, or refuse, a call.
    Hangup { call: u16 },
    /// Put a call on hold.
    Hold { call: u16 },
    /// Take a call off hold.
    Unhold { call: u16 },
    /// Send audio, as G.711 u-law octets.
    SendVoice { call: u16, ulaw: Vec<u8> },
    /// Send a DTMF digit: `0` to `9`, `*`, `#`, `A` to `D`.
    Dtmf { call: u16, digit: char },
}

/// The state after a command was carried out.
pub open spec fn commanded(m: ClientModel, cmd: Command, now: Instant) -> ClientModel {
    match cmd {
        Command::Dial { number } => m.dial(number@, now),
        Command::Answer { call } => m.answer(call, now),
        Command::Hangup { call } => m.hangup(call, now),
        Command::Hold { call } => m.set_hold(call, true, now),
        Command::Unhold { call } => m.set_hold(call, false, now),
        Command::SendVoice { call, ulaw } => m.send_voice(call, ulaw@, now),
        Command::Dtmf { call, digit } => m.send_dtmf(call, digit, now),
    }
}

/// The subclass of a DTMF digit's frame, if it can be sent.
fn dtmf_subclass(digit: char) -> (r: Option<u8>)
    ensures
        r == dtmf_code(digit),
{
    if ('0' <= digit && digit <= '9') || digit == '*' || digit == '#' || ('A' <= digit && digit
        <= 'D') {
        Some(digit as u8)
    } else if 'a' <= digit && digit <= 'd' {
        Some(digit as u8 - 32)
    } else {
        None
    }
}

// --- calls ------------------------------------------------------------------

/// What is known of a call.
#[derive(Debug)]
pub struct CallLeg {
    pub leg: Leg,
    pub state: CallState,
    pub dir: Dir,
    /// Who calls, or the number that was called.
    pub peer: String,
    pub fmt: u32,
    /// A full frame with the format was sent since the call was connected.
    pub sent_format: bool,
    /// The last full timestamp of the peer's audio.
    pub last_voice_ts: u32,
    /// There is a last full timestamp.
    pub voice_ts_seen: bool,
}

impl View for CallLeg {
    type V = CallModel;

    open spec fn view(&self) -> CallModel {
        CallModel {
            leg: self.leg@,
            state: self.state,
            dir: self.dir,
            peer: self.peer@,
            fmt: self.fmt,
            sent_format: self.sent_format,
            last_voice_ts: self.last_voice_ts,
            voice_ts_seen: self.voice_ts_seen,
        }
    }
}

impl CallLeg {
    fn new(leg: Leg, state: CallState, dir: Dir, peer: String, fmt: u32) -> (r: Self)
        ensures
            r@ == CallModel::new(leg@, state, dir, peer@, fmt),
    {
        CallLeg {
            leg,
            state,
            dir,
            peer,
            fmt,
            sent_format: false,
            last_voice_ts: 0,
            voice_ts_seen: false,
        }
    }
}

/// What a table of calls holds.
pub open spec fn calls_view(calls: Map<u16, CallLeg>) -> Map<u16, CallModel> {
    calls.map_values(|c: CallLeg| c@)
}

// --- the client -------------------------------------------------------------

/// One account on one exchange.
#[derive(Debug)]
pub struct PbxClient {
    pub cfg: Config,
    pub start: Instant,
    pub reg: Leg,
    pub reg_state: RegState,
    pub refresh: u16,
    pub calltoken: Option<Vec<u8>>,
    pub next_reg: Instant,
    pub next_keepalive: Instant,
    pub calls: BTreeMap<u16, CallLeg>,
    /// From the peer's call numbers to ours, for mini frames.
    pub remote_index: BTreeMap<u16, u16>,
    pub callno_next: u16,
    pub qualify_next: u16,
    pub out: VecDeque<Vec<u8>>,
    pub events: VecDeque<Event>,
}

impl View for PbxClient {
    type V = ClientModel;

    open spec fn view(&self) -> ClientModel {
        ClientModel {
            cfg: self.cfg@,
            start: self.start,
            reg: self.reg@,
            reg_state: self.reg_state,
            refresh: self.refresh,
            calltoken: match self.calltoken {
                Some(t) => Some(t@),
                None => None,
            },
            next_reg: self.next_reg,
            next_keepalive: self.next_keepalive,
            calls: calls_view(self.calls@),
            remote_index: self.remote_index@,
            callno_next: self.callno_next,
            qualify_next: self.qualify_next,
            out: datagrams_view(self.out@),
            events: events_view(self.events@),
        }
    }
}

impl PbxClient {
    /// A client that registers at once.
    pub fn new(cfg: Config, now: Instant) -> (r: Self)
        requires
            now.in_range(),
        ensures
            r@ == ClientModel::new(cfg@, now),
            r@.wf(),
    {
        let refresh = cfg.refresh;
        let r = PbxClient {
            cfg,
            start: now,
            reg: Leg::new(CALLNO_REG),
            reg_state: RegState::Idle,
            refresh,
            calltoken: None,
            next_reg: now,
            next_keepalive: now.plus(KEEPALIVE_EVERY),
            calls: BTreeMap::new(),
            remote_index: BTreeMap::new(),
            callno_next: CALLNO_CALL_BASE,
            qualify_next: CALLNO_QUALIFY_BASE,
            out: VecDeque::new(),
            events: VecDeque::new(),
        };
        assert(r@ =~= ClientModel::new(cfg@, now));
        r
    }

    /// Milliseconds since the start, as a frame's timestamp holds them.
    fn ts(&self, now: Instant) -> (r: u32)
        ensures
            r == self@.ts(now),
    {
        (now.millis_since(self.start) % 0x1_0000_0000) as u32
    }

    fn push(&mut self, bytes: Vec<u8>)
        ensures
            final(self)@ == old(self)@.push(bytes@),
    {
        self.out.push_back(bytes);
        assert(self@ =~= old(self)@.push(bytes@));
    }

    fn emit(&mut self, ev: Event)
        ensures
            final(self)@ == old(self)@.emit(ev@),
    {
        self.events.push_back(ev);
        assert(self@ =~= old(self)@.emit(ev@));
    }

    fn log(&mut self, text: &str)
        ensures
            final(self)@ == old(self)@.emit(EventModel::Log(text@)),
    {
        self.emit(Event::Log(text.to_owned()));
    }

    /// Takes a call out of the table.
    fn take_call(&mut self, call: u16) -> (r: Option<CallLeg>)
        ensures
            match r {
                Some(c) => {
                    &&& old(self)@.calls.contains_key(call)
                    &&& c@ == old(self)@.calls[call]
                    &&& final(self)@ == (ClientModel {
                        calls: old(self)@.calls.remove(call),
                        ..old(self)@
                    })
                },
                None => !old(self)@.calls.contains_key(call) && final(self)@ == old(self)@,
            },
    {
        let r = self.calls.remove(&call);
        assert(self@.calls =~= old(self)@.calls.remove(call));
        if r.is_none() {
            assert(self@.calls =~= old(self)@.calls);
        }
        r
    }

    /// Files a call under a number.
    fn put_call(&mut self, call: u16, c: CallLeg)
        ensures
            final(self)@ == old(self)@.with_call(call, c@),
    {
        self.calls.insert(call, c);
        assert(self@ =~= old(self)@.with_call(call, c@));
    }

    /// Sends a reliable frame on the registration leg.
    fn send_reg(&mut self, sc: u8, ies: Vec<Ie>, now: Instant)
        requires
            now.in_range(),
        ensures
            final(self)@ == old(self)@.send_reg(sc, ies_view(ies@), now),
    {
        let ts = self.ts(now);
        let bytes = self.reg.send_reliable(ts, frametype::IAX, sc, ies, now);
        self.push(bytes);
    }

    /// Sends a reliable frame on a call.
    fn send_call(&mut self, local: u16, ft: u8, sc: u8, ies: Vec<Ie>, now: Instant)
        requires
            now.in_range(),
            old(self)@.calls.contains_key(local),
        ensures
            final(self)@ == old(self)@.send_call(local, ft, sc, ies_view(ies@), now),
    {
        let ts = self.ts(now);
        if let Some(c) = self.take_call(local) {
            let mut c = c;
            let bytes = c.leg.send_reliable(ts, ft, sc, ies, now);
            self.push(bytes);
            self.put_call(local, c);
        }
        assert(self@ =~= old(self)@.send_call(local, ft, sc, ies_view(ies@), now));
    }

    /// Answers on a call with a frame that is counted but not kept.
    fn echo_call(&mut self, local: u16, ts: u32, sc: u8)
        requires
            old(self)@.calls.contains_key(local),
        ensures
            final(self)@ == old(self)@.echo_call(local, ts, sc),
    {
        if let Some(c) = self.take_call(local) {
            let mut c = c;
            let ies: Vec<Ie> = Vec::new();
            assert(ies_view(ies@) =~= Seq::empty());
            let f = c.leg.build(ts, frametype::IAX, sc, ies);
            self.push(f.encode());
            self.put_call(local, c);
        }
        assert(self@ =~= old(self)@.echo_call(local, ts, sc));
    }

    /// Acknowledges a frame on a call.
    fn ack_call(&mut self, local: u16, now: Instant)
        requires
            old(self)@.calls.contains_key(local),
        ensures
            final(self)@ == old(self)@.ack_call(local, now),
    {
        let ts = self.ts(now);
        let mut ack: Option<Vec<u8>> = None;
        if let Some(c) = self.calls.get(&local) {
            ack = Some(c.leg.ack_bytes(ts));
        }
        if let Some(bytes) = ack {
            self.push(bytes);
        }
    }

    /// The elements of a registration request.
    fn reg_ies(&self) -> (r: Vec<Ie>)
        ensures
            ies_view(r@) == self@.reg_ies(),
    {
        let mut ies: Vec<Ie> = Vec::new();
        ies.push(Ie::str(iet::USERNAME, self.cfg.username.as_str()));
        ies.push(Ie::u16(iet::REFRESH, self.refresh));
        match &self.calltoken {
            Some(t) => {
                let token = t.clone();
                assert(token@ =~= t@);
                ies.push(Ie::new(iet::CALLTOKEN, token));
            },
            None => ies.push(Ie::empty(iet::CALLTOKEN)),
        }
        assert(ies_view(ies@) =~= self@.reg_ies());
        ies
    }

    /// The elements of a `NEW`.
    fn new_call_ies(&self, called: &str, token: Vec<u8>) -> (r: Vec<Ie>)
        ensures
            ies_view(r@) == new_ies(self@.cfg, called@, token@),
    {
        let mut ies: Vec<Ie> = Vec::new();
        ies.push(Ie::u16(iet::VERSION, IAX_PROTO_VERSION));
        ies.push(Ie::str(iet::CALLING_NUMBER, self.cfg.username.as_str()));
        ies.push(Ie::str(iet::CALLING_NAME, "iax2"));
        ies.push(Ie::str(iet::USERNAME, self.cfg.username.as_str()));
        ies.push(Ie::u32(iet::CAPABILITY, self.cfg.audio_format));
        ies.push(Ie::u32(iet::FORMAT, self.cfg.audio_format));
        ies.push(Ie::str(iet::CALLED_NUMBER, called));
        ies.push(Ie::new(iet::CALLTOKEN, token));
        assert(ies_view(ies@) =~= new_ies(self@.cfg, called@, token@));
        ies
    }

    // --- timers ---------------------------------------------------------

    fn start_registration(&mut self, now: Instant)
        requires
            now.in_range(),
        ensures
            final(self)@ == old(self)@.start_registration(now),
    {
        self.reg.reset();
        self.calltoken = None;
        self.reg_state = RegState::Registering;
        let ies = self.reg_ies();
        self.send_reg(iax::REGREQ, ies, now);
        self.next_reg = now.plus(REG_GUARD);
        self.log("REGREQ sended");
    }

    fn retransmit_reg(&mut self, now: Instant)
        requires
            now.in_range(),
            old(self)@.reg.wf(),
        ensures
            final(self)@ == old(self)@.retransmit_reg(now),
    {
        let (again, lost) = self.reg.retransmit(now);
        self.push_all(again);
        if lost {
            self.reg.outstanding.clear();
            assert(self@.reg.outstanding =~= Seq::empty());
            self.reg_state = RegState::Idle;
            self.next_reg = now.plus(REG_RETRY);
            self.emit(
                Event::RegisterLost { reason: "no ACK after retransmissions".to_owned() },
            );
        }
    }

    fn push_all(&mut self, list: Vec<Vec<u8>>)
        ensures
            final(self)@ == (ClientModel {
                out: old(self)@.out + datagrams_view(list@),
                ..old(self)@
            }),
    {
        let ghost all = datagrams_view(list@);
        let ghost had = self@.out;
        assert(had + all.take(0) =~= had);
        for bytes in it: list
            invariant
                it.seq() == list@,
                all == datagrams_view(list@),
                self@ == (ClientModel { out: had + all.take(it.index()), ..old(self)@ }),
        {
            self.push(bytes);
            assert(had + all.take(it.index() + 1) =~= (had + all.take(it.index())).push(bytes@));
        }
        assert(all.take(list@.len() as int) =~= all);
    }

    /// The live calls, in ascending order of their numbers.
    pub fn call_ids(&self) -> (r: Vec<u16>)
        ensures
            r@ == self@.call_ids(),
            ascending(r@),
            forall|k: u16| #[trigger] r@.contains(k) <==> self@.calls.contains_key(k),
    {
        let ids = keys_of(&self.calls);
        proof {
            lemma_ids_below(self.calls@, 0x1_0000);
            lemma_ids_below(self@.calls, 0x1_0000);
            lemma_ascending_unique(ids@, self@.call_ids());
        }
        ids
    }

    /// Forgets the entries of the peer's numbers that lead to a call.
    fn unindex(&mut self, local: u16)
        ensures
            final(self)@ == (ClientModel {
                remote_index: without_target(old(self)@.remote_index, local),
                ..old(self)@
            }),
    {
        let keys = keys_of(&self.remote_index);
        let mut kept: BTreeMap<u16, u16> = BTreeMap::new();
        let ghost had = self.remote_index@;
        for i in 0..keys.len()
            invariant
                had == self.remote_index@,
                self@ == old(self)@,
                forall|k: u16| #[trigger] keys@.contains(k) <==> had.contains_key(k),
                forall|k: u16| #[trigger]
                    kept@.contains_key(k) <==> keys@.take(i as int).contains(k) && had[k] != local,
                forall|k: u16| #[trigger] kept@.contains_key(k) ==> kept@[k] == had[k],
        {
            let k = keys[i];
            let ghost before = kept@;
            assert(keys@.contains(k));
            if let Some(v) = self.remote_index.get(&k) {
                if *v != local {
                    kept.insert(k, *v);
                }
            }
            proof {
                let a = keys@.take(i as int);
                let b = keys@.take(i + 1);
                assert(b =~= a.push(k));
                assert forall|x: u16| #[trigger] b.contains(x) <==> a.contains(x) || x == k by {
                    assert(b[i as int] == k);
                    if a.contains(x) {
                        let j = choose|j: int| 0 <= j < a.len() && a[j] == x;
                        assert(b[j] == x);
                    }
                    if b.contains(x) && x != k {
                        let j = choose|j: int| 0 <= j < b.len() && b[j] == x;
                        assert(a[j] == x);
                    }
                }
            }
        }
        assert(keys@.take(keys@.len() as int) =~= keys@);
        assert(kept@ =~= without_target(had, local));
        self.remote_index = kept;
    }

    fn drop_call(&mut self, local: u16, reason: String)
        ensures
            final(self)@ == old(self)@.drop_call(local, reason@),
    {
        if let Some(_) = self.take_call(local) {
            self.unindex(local);
            self.emit(Event::Ended { call: local, reason });
        }
    }

    // --- call numbers ---------------------------------------------------

    /// A number for a new call.
    pub fn alloc_callno(&mut self) -> (r: u16)
        requires
            CALLNO_CALL_BASE <= old(self)@.callno_next <= CALLNO_CALL_LAST,
        ensures
            r == old(self)@.next_callno(),
            final(self)@ == old(self)@.callno_taken(),
            old(self)@.wf() ==> final(self)@.wf(),
            old(self)@.wf() && old(self)@.calls.dom().len() < CALLNO_COUNT ==> {
                &&& CALLNO_CALL_BASE <= r <= CALLNO_CALL_LAST
                &&& !old(self)@.calls.contains_key(r)
                &&& final(self)@.calls == old(self)@.calls
            },
    {
        proof {
            if self@.wf() && self@.calls.dom().len() < CALLNO_COUNT {
                law_new_call_number_is_free(self@);
            }
        }
        for i in 0..CALLNO_TRIES
            invariant
                CALLNO_CALL_BASE <= self.callno_next <= CALLNO_CALL_LAST,
                self@ == (ClientModel { callno_next: self.callno_next, ..old(self)@ }),
                callno_search(self@.calls, self.callno_next, (CALLNO_TRIES - i) as nat)
                    == callno_search(
                    old(self)@.calls,
                    old(self)@.callno_next,
                    CALLNO_TRIES as nat,
                ),
        {
            let n = self.callno_next;
            self.callno_next = if n >= CALLNO_CALL_LAST {
                CALLNO_CALL_BASE
            } else {
                n + 1
            };
            if !self.calls.contains_key(&n) {
                return n;
            }
        }
        CALLNO_CALL_BASE
    }

    /// A number for the answer to a qualify.
    pub fn next_qualify_callno(&mut self) -> (r: u16)
        requires
            CALLNO_QUALIFY_BASE <= old(self)@.qualify_next <= CALLNO_QUALIFY_LAST,
        ensures
            r == old(self)@.qualify_next,
            CALLNO_QUALIFY_BASE <= r <= CALLNO_QUALIFY_LAST,
            final(self)@ == (ClientModel {
                qualify_next: qualify_after(old(self)@.qualify_next),
                ..old(self)@
            }),
            old(self)@.wf() ==> final(self)@.wf(),
    {
        let n = self.qualify_next;
        self.qualify_next = if n >= CALLNO_QUALIFY_LAST {
            CALLNO_QUALIFY_BASE
        } else {
            n + 1
        };
        n
    }

    fn retransmit_calls(&mut self, now: Instant)
        requires
            now.in_range(),
            forall|k: u16| #[trigger]
                old(self)@.calls.contains_key(k) ==> old(self)@.calls[k].leg.wf(),
        ensures
            final(self)@ == old(self)@.retransmit_calls(now),
    {
        let ghost m = self@;
        let ghost gone = |k: u16| m.call_hopeless(k, now);
        let ids = self.call_ids();
        let mut dead: Vec<u16> = Vec::new();
        assert(m.out + m.calls_resends(ids@.take(0), now) =~= m.out);
        assert(dead@ =~= ids@.take(0).filter(gone)) by {
            reveal(Seq::filter);
        }
        for i in 0..ids.len()
            invariant
                now.in_range(),
                gone == (|k: u16| m.call_hopeless(k, now)),
                ascending(ids@),
                forall|k: u16| #[trigger] ids@.contains(k) <==> m.calls.contains_key(k),
                forall|k: u16| #[trigger] m.calls.contains_key(k) ==> m.calls[k].leg.wf(),
                self@ == (ClientModel { calls: self@.calls, out: self@.out, ..m }),
                forall|k: u16| #[trigger] self@.calls.contains_key(k) == m.calls.contains_key(k),
                forall|j: int|
                    0 <= j < i ==> self@.calls[#[trigger] ids@[j]] == (CallModel {
                        leg: m.calls[ids@[j]].leg.checked_at(now),
                        ..m.calls[ids@[j]]
                    }),
                forall|j: int|
                    i <= j < ids@.len() ==> self@.calls[#[trigger] ids@[j]] == m.calls[ids@[j]],
                self@.out == m.out + m.calls_resends(ids@.take(i as int), now),
                dead@ == ids@.take(i as int).filter(gone),
        {
            let k = ids[i];
            assert(ids@.contains(k));
            assert(self@.calls.contains_key(k));
            let ghost had = dead@;
            if let Some(c) = self.take_call(k) {
                let mut c = c;
                let (again, lost) = c.leg.retransmit(now);
                self.push_all(again);
                self.put_call(k, c);
                if lost {
                    dead.push(k);
                }
            }
            proof {
                let next = ids@.take(i + 1);
                assert(next.drop_last() =~= ids@.take(i as int));
                assert(next.last() == k);
                assert(m.out + m.calls_resends(next, now) =~= (m.out + m.calls_resends(
                    ids@.take(i as int),
                    now,
                )) + resends(m.calls[k].leg.outstanding, now));
                reveal(Seq::filter);
            }
        }
        let ghost checked = self@;
        proof {
            assert(ids@.take(ids@.len() as int) =~= ids@);
            let all = m.calls.map_values(
                |c: CallModel| CallModel { leg: c.leg.checked_at(now), ..c },
            );
            assert forall|k: u16| #[trigger] all.contains_key(k) implies self@.calls[k]
                == all[k] by {
                assert(ids@.contains(k));
                let j = choose|j: int| 0 <= j < ids@.len() && ids@[j] == k;
                assert(self@.calls[ids@[j]] == all[k]);
            }
            assert forall|k: u16| #[trigger] self@.calls.dom().contains(k) == all.dom().contains(k) by {
                assert(self@.calls.contains_key(k) == m.calls.contains_key(k));
            }
            assert(self@.calls =~= all);
        }
        for j in 0..dead.len()
            invariant
                self@ == checked.drop_calls(dead@.take(j as int), "reliability timeout"@),
        {
            self.drop_call(dead[j], "reliability timeout".to_owned());
            assert(dead@.take(j + 1).drop_last() =~= dead@.take(j as int));
        }
        assert(dead@.take(dead@.len() as int) =~= dead@);
    }

    /// Does what has fallen due.
    pub fn handle_timeout(&mut self, now: Instant)
        requires
            now.in_range(),
            old(self)@.wf(),
        ensures
            final(self)@ == old(self)@.on_timeout(now),
            final(self)@.wf(),
    {
        if self.reg.outstanding.len() == 0 && now.nanos >= self.next_reg.nanos {
            self.start_registration(now);
        }
        if self.reg_state == RegState::Registered && now.nanos >= self.next_keepalive.nanos {
            let ies: Vec<Ie> = Vec::new();
            assert(ies_view(ies@) =~= Seq::empty());
            let poke = FullFrame::new(
                CALLNO_KEEPALIVE,
                0,
                self.ts(now),
                0,
                0,
                frametype::IAX,
                iax::POKE,
                ies,
            ).encode();
            self.push(poke);
            self.next_keepalive = now.plus(KEEPALIVE_EVERY);
        }
        proof {
            law_timeout_keeps_invariant(old(self)@, now);
        }
        self.retransmit_reg(now);
        self.retransmit_calls(now);
    }

    // --- commands -------------------------------------------------------

    /// Carries out a command.
    pub fn handle_command(&mut self, cmd: Command, now: Instant)
        requires
            now.in_range(),
            old(self)@.wf(),
        ensures
            final(self)@ == commanded(old(self)@, cmd, now),
            final(self)@.wf(),
    {
        proof {
            law_command_keeps_invariant(old(self)@, cmd, now);
        }
        match cmd {
            Command::Dial { number } => self.dial(number.as_str(), now),
            Command::Answer { call } => self.answer(call, now),
            Command::Hangup { call } => self.hangup(call, now),
            Command::Hold { call } => self.set_hold(call, true, now),
            Command::Unhold { call } => self.set_hold(call, false, now),
            Command::SendVoice { call, ulaw } => self.send_voice(call, ulaw, now),
            Command::Dtmf { call, digit } => self.send_dtmf(call, digit, now),
        }
    }

    fn dial(&mut self, number: &str, now: Instant)
        requires
            now.in_range(),
            old(self)@.wf(),
        ensures
            final(self)@ == old(self)@.dial(number@, now),
    {
        let local = self.alloc_callno();
        let fmt = self.cfg.audio_format;
        self.put_call(
            local,
            CallLeg::new(Leg::new(local), CallState::Trying, Dir::Out, number.to_owned(), fmt),
        );
        let no_token: Vec<u8> = Vec::new();
        assert(no_token@ =~= Seq::empty());
        let ies = self.new_call_ies(number, no_token);
        self.send_call(local, frametype::IAX, iax::NEW, ies, now);
        self.emit(Event::Dialing { call: local, to: number.to_owned() });
    }

    fn answer(&mut self, call: u16, now: Instant)
        requires
            now.in_range(),
        ensures
            final(self)@ == old(self)@.answer(call, now),
    {
        let rings = match self.calls.get(&call) {
            Some(c) => c.dir == Dir::In && c.state == CallState::Ringing,
            None => false,
        };
        if rings {
            let ies: Vec<Ie> = Vec::new();
            assert(ies_view(ies@) =~= Seq::empty());
            self.send_call(call, frametype::CONTROL, control::ANSWER, ies, now);
            let ghost m = self@;
            if let Some(c) = self.take_call(call) {
                let mut c = c;
                c.state = CallState::Up;
                c.sent_format = false;
                self.put_call(call, c);
                assert(self@ =~= m.with_call(call, c@));
            }
            self.emit(Event::Answered { call });
        }
    }

    fn hangup(&mut self, call: u16, now: Instant)
        ensures
            final(self)@ == old(self)@.hangup(call, now),
    {
        let ts = self.ts(now);
        let ghost m = self@;
        if let Some(c) = self.take_call(call) {
            let mut c = c;
            let mut ies: Vec<Ie> = Vec::new();
            ies.push(Ie::str(iet::CAUSE, "Normal Clearing"));
            assert(ies_view(ies@) =~= seq![IeModel::of_str(iet::CAUSE, "Normal Clearing"@)]);
            let f = c.leg.build(ts, frametype::IAX, iax::HANGUP, ies);
            self.push(f.encode());
            self.put_call(call, c);
            self.drop_call(call, "local hangup".to_owned());
            assert(self@.calls =~= m.calls.remove(call));
        }
    }

    fn send_dtmf(&mut self, call: u16, digit: char, now: Instant)
        requires
            now.in_range(),
        ensures
            final(self)@ == old(self)@.send_dtmf(call, digit, now),
    {
        if let Some(d) = dtmf_subclass(digit) {
            if self.calls.contains_key(&call) {
                let ies: Vec<Ie> = Vec::new();
                assert(ies_view(ies@) =~= Seq::empty());
                self.send_call(call, frametype::DTMF, d, ies, now);
            }
        }
    }

    fn set_hold(&mut self, call: u16, hold: bool, now: Instant)
        requires
            now.in_range(),
        ensures
            final(self)@ == old(self)@.set_hold(call, hold, now),
    {
        if self.calls.contains_key(&call) {
            let sc = if hold {
                control::HOLD
            } else {
                control::UNHOLD
            };
            let ies: Vec<Ie> = Vec::new();
            assert(ies_view(ies@) =~= Seq::empty());
            self.send_call(call, frametype::CONTROL, sc, ies, now);
            let ghost m = self@;
            if let Some(c) = self.take_call(call) {
                let mut c = c;
                c.state = if hold {
                    CallState::Held
                } else {
                    CallState::Up
                };
                self.put_call(call, c);
                assert(self@ =~= m.with_call(call, c@));
            }
        }
    }

    fn send_voice(&mut self, call: u16, ulaw: Vec<u8>, now: Instant)
        ensures
            final(self)@ == old(self)@.send_voice(call, ulaw@, now),
    {
        let ts = self.ts(now);
        let ghost m = self@;
        if let Some(c) = self.take_call(call) {
            let mut c = c;
            if c.state != CallState::Up {
                self.put_call(call, c);
                assert(self@ =~= m);
            } else if !c.sent_format {
                c.sent_format = true;
                let ies: Vec<Ie> = Vec::new();
                assert(ies_view(ies@) =~= Seq::empty());
                let sc = (c.fmt % 256) as u8;
                let f = c.leg.build(ts, frametype::VOICE, sc, ies);
                self.push(f.encode_media(ulaw.as_slice()));
                self.put_call(call, c);
                assert(self@ =~= m.send_voice(call, ulaw@, now));
            } else {
                let mf = MiniFrame {
                    src_call: c.leg.local,
                    timestamp16: (ts % 0x1_0000) as u16,
                    payload: ulaw,
                };
                self.push(mf.encode());
                self.put_call(call, c);
                assert(self@ =~= m.send_voice(call, ulaw@, now));
            }
        }
    }

    // --- input ----------------------------------------------------------

    /// Takes a datagram from the exchange.
    pub fn handle_input(&mut self, dg: &[u8], now: Instant)
        requires
            now.in_range(),
            old(self)@.wf(),
        ensures
            final(self)@ == old(self)@.on_datagram(dg@, now),
            final(self)@.wf(),
    {
        proof {
            law_datagram_keeps_invariant(old(self)@, dg@, now);
        }
        if !is_full_frame(dg) {
            if let Some(m) = MiniFrame::decode(dg) {
                self.on_mini(m);
            }
        } else {
            if let Some(f) = FullFrame::decode(dg) {
                self.on_frame(&f, now);
            }
        }
    }

    fn on_mini(&mut self, m: MiniFrame)
        ensures
            final(self)@ == old(self)@.on_mini(m@),
    {
        let ghost before = self@;
        let local = match self.remote_index.get(&m.src_call) {
            Some(l) => *l,
            None => {
                return;
            },
        };
        let up = match self.calls.get(&local) {
            Some(c) => c.state == CallState::Up,
            None => false,
        };
        if up {
            if let Some(c) = self.take_call(local) {
                let mut c = c;
                let ts = reconstruct_ts(c.last_voice_ts, m.timestamp16, c.voice_ts_seen);
                c.last_voice_ts = ts;
                c.voice_ts_seen = true;
                self.put_call(local, c);
                assert(self@ =~= before.with_call(local, c@));
                self.emit(Event::Voice { call: local, ts, ulaw: m.payload });
            }
        }
    }

    /// Answers a qualify, from the next call number that is set aside for that.
    fn answer_qualify(&mut self, f: &FullFrame)
        requires
            CALLNO_QUALIFY_BASE <= old(self)@.qualify_next <= CALLNO_QUALIFY_LAST,
        ensures
            final(self)@ == (ClientModel {
                qualify_next: qualify_after(old(self)@.qualify_next),
                ..old(self)@.push(old(self)@.pong(f@).wire())
            }),
    {
        let src = self.next_qualify_callno();
        let ies: Vec<Ie> = Vec::new();
        assert(ies_view(ies@) =~= Seq::empty());
        let pong = FullFrame::new(
            src,
            f.src_call,
            f.timestamp,
            0,
            f.oseq.wrapping_add(1),
            frametype::IAX,
            iax::PONG,
            ies,
        ).encode();
        self.push(pong);
    }

    /// Logs a frame that belongs to no leg.
    fn log_stray(&mut self, f: &FullFrame)
        ensures
            final(self)@ == old(self)@.emit(ClientModel::stray(f@)),
    {
        let mut text = String::new();
        text.append("out of leg frame dst_call=");
        text::push_decimal(&mut text, f.dst_call as u64);
        text.append(" ft=0x");
        text::push_hex2(&mut text, f.frametype);
        text.append(" sc=0x");
        text::push_hex2(&mut text, f.subclass);
        assert(text@ =~= "out of leg frame dst_call="@ + text::decimal(f.dst_call as nat)
            + " ft=0x"@ + text::hex2(f.frametype) + " sc=0x"@ + text::hex2(f.subclass));
        self.emit(Event::Log(text));
    }

    #[verifier::rlimit(60)]
    fn on_frame(&mut self, f: &FullFrame, now: Instant)
        requires
            now.in_range(),
            old(self)@.wf(),
        ensures
            final(self)@ == old(self)@.on_frame(f@, now),
    {
        reveal(ClientModel::on_frame);
        if f.frametype == frametype::IAX && (f.subclass == iax::POKE || f.subclass == iax::PING)
            && f.dst_call == 0 {
            self.answer_qualify(f);
            return;
        }
        if let Some(token) = call_token(f) {
            if f.dst_call == self.reg.local && self.calltoken.is_none() {
                self.resend_reg_with_token(token, now);
                return;
            }
            let waits = match self.calls.get(&f.dst_call) {
                Some(c) => c.dir == Dir::Out && c.state == CallState::Trying,
                None => false,
            };
            if waits {
                self.resend_new_with_token(f.dst_call, token, now);
                return;
            }
        }
        if f.frametype == frametype::IAX && f.subclass == iax::NEW {
            self.on_incoming_new(f, now);
        } else if f.dst_call == self.reg.local {
            self.on_reg_frame(f, now);
        } else if self.calls.contains_key(&f.dst_call) {
            self.on_call_frame(f.dst_call, f, now);
        } else if f.frametype == frametype::IAX && (f.subclass == iax::ACK || f.subclass
            == iax::PONG || f.subclass == iax::INVAL) {
        } else {
            self.log_stray(f);
        }
    }

    fn resend_reg_with_token(&mut self, token: Vec<u8>, now: Instant)
        requires
            now.in_range(),
        ensures
            final(self)@ == old(self)@.resend_reg_with_token(token@, now),
    {
        self.calltoken = Some(token);
        self.reg.reset();
        let ies = self.reg_ies();
        self.send_reg(iax::REGREQ, ies, now);
    }

    fn resend_new_with_token(&mut self, local: u16, token: Vec<u8>, now: Instant)
        requires
            now.in_range(),
            old(self)@.calls.contains_key(local),
        ensures
            final(self)@ == old(self)@.resend_new_with_token(local, token@, now),
    {
        let ghost m = self@;
        if let Some(c) = self.take_call(local) {
            let mut c = c;
            c.leg.reset();
            let number = c.peer.clone();
            self.put_call(local, c);
            assert(self@ =~= m.with_leg(local, LegModel::new(m.calls[local].leg.local)));
            let ies = self.new_call_ies(number.as_str(), token);
            self.send_call(local, frametype::IAX, iax::NEW, ies, now);
        }
    }

    fn on_incoming_new(&mut self, f: &FullFrame, now: Instant)
        requires
            now.in_range(),
            old(self)@.wf(),
        ensures
            final(self)@ == old(self)@.on_incoming_new(f@, now),
    {
        let called = text_in(f, iet::CALLED_NUMBER);
        let caller = text_in(f, iet::CALLING_NUMBER);
        let local = self.alloc_callno();
        let fmt = self.cfg.audio_format;
        let mut leg = Leg::new(local);
        leg.note_recv(f);
        self.put_call(
            local,
            CallLeg::new(leg, CallState::Ringing, Dir::In, caller.clone(), fmt),
        );
        self.remote_index.insert(f.src_call, local);
        let mut ies: Vec<Ie> = Vec::new();
        ies.push(Ie::u32(iet::FORMAT, fmt));
        assert(ies_view(ies@) =~= seq![IeModel::of_u32(iet::FORMAT, fmt)]);
        self.send_call(local, frametype::IAX, iax::ACCEPT, ies, now);
        let none: Vec<Ie> = Vec::new();
        assert(ies_view(none@) =~= Seq::empty());
        self.send_call(local, frametype::CONTROL, control::RINGING, none, now);
        self.emit(Event::Incoming { call: local, from: caller, to: called });
    }

    fn on_reg_frame(&mut self, f: &FullFrame, now: Instant)
        requires
            now.in_range(),
        ensures
            final(self)@ == old(self)@.on_reg_frame(f@, now),
    {
        self.reg.note_recv(f);
        let is_ack = f.frametype == frametype::IAX && f.subclass == iax::ACK;
        self.reg.ack_upto(f.iseq, f.timestamp, is_ack);
        if f.subclass == iax::REGAUTH {
            self.on_regauth(f, now);
        } else if f.subclass == iax::REGACK {
            self.on_regack(f, now);
        } else if f.subclass == iax::REGREJ {
            let code = cause_in(f);
            self.calltoken = None;
            self.reg_state = RegState::Idle;
            self.next_reg = now.plus(REG_RETRY);
            let ack = self.reg.ack_bytes(self.ts(now));
            self.push(ack);
            let mut reason = "REGREJ causecode=".to_owned();
            text::push_debug_option(&mut reason, code);
            self.emit(Event::RegisterLost { reason });
        } else if f.subclass == iax::ACK || f.subclass == iax::CALLTOKEN {
        } else {
            let mut text = "reg leg subclass=0x".to_owned();
            text::push_hex2(&mut text, f.subclass);
            self.emit(Event::Log(text));
        }
    }

    fn on_regauth(&mut self, f: &FullFrame, now: Instant)
        requires
            now.in_range(),
        ensures
            final(self)@ == old(self)@.on_regauth(f@, now),
    {
        if !md5_offered(f) {
            self.log("REGAUTH without MD5");
            return;
        }
        match ie::find(f.ies.as_slice(), iet::CHALLENGE) {
            None => self.log("REGAUTH without challenge"),
            Some(c) => {
                let answer = md5_response(c.as_str().as_str(), self.cfg.secret.as_str());
                let mut ies = self.reg_ies();
                ies.insert(1, Ie::str(iet::MD5_RESULT, answer.as_str()));
                assert(ies_view(ies@) =~= self@.reg_ies().insert(
                    1,
                    IeModel::of_str(iet::MD5_RESULT, answer@),
                ));
                self.send_reg(iax::REGREQ, ies, now);
            },
        }
    }

    fn on_regack(&mut self, f: &FullFrame, now: Instant)
        requires
            now.in_range(),
        ensures
            final(self)@ == old(self)@.on_regack(f@, now),
    {
        if let Some(refresh) = u16_in(f, iet::REFRESH) {
            if refresh > 0 {
                self.refresh = refresh;
            }
        }
        self.reg_state = RegState::Registered;
        self.next_reg = now.plus(self.refresh as u64 * 4 / 5 * 1_000_000_000);
        self.next_keepalive = now.plus(KEEPALIVE_EVERY);
        let ack = self.reg.ack_bytes(self.ts(now));
        self.push(ack);
        self.emit(Event::Registered);
    }

    fn on_call_frame(&mut self, local: u16, f: &FullFrame, now: Instant)
        requires
            now.in_range(),
            old(self)@.calls.contains_key(local),
        ensures
            final(self)@ == old(self)@.on_call_frame(local, f@, now),
    {
        let ghost before = self@;
        if let Some(c) = self.take_call(local) {
            let mut c = c;
            c.leg.note_recv(f);
            let is_ack = f.frametype == frametype::IAX && f.subclass == iax::ACK;
            c.leg.ack_upto(f.iseq, f.timestamp, is_ack);
            self.put_call(local, c);
            assert(self@.calls =~= before.calls.insert(local, c@));
            if f.src_call != 0 {
                self.remote_index.insert(f.src_call, local);
            }
            assert(self@ =~= before.counted(local, f@));
            self.on_counted(local, f, now);
        }
    }

    #[verifier::rlimit(60)]
    fn on_counted(&mut self, local: u16, f: &FullFrame, now: Instant)
        requires
            now.in_range(),
            old(self)@.calls.contains_key(local),
        ensures
            final(self)@ == old(self)@.on_counted(local, f@, now),
    {
        reveal(ClientModel::on_counted);
        let iax_frame = f.frametype == frametype::IAX;
        let control_frame = f.frametype == frametype::CONTROL;
        let outbound = match self.calls.get(&local) {
            Some(c) => c.dir == Dir::Out,
            None => false,
        };
        if f.frametype == frametype::VOICE {
            self.on_voice(local, f, now);
        } else if iax_frame && f.subclass == iax::AUTHREQ && outbound {
            self.on_authreq(local, f, now);
        } else if iax_frame && f.subclass == iax::ACCEPT {
            self.on_accept(local, f, now);
        } else if control_frame && f.subclass == control::RINGING {
            self.ack_call(local, now);
            self.set_state(local, CallState::Ringing);
            self.emit(Event::Ringing { call: local });
        } else if control_frame && f.subclass == control::ANSWER {
            self.ack_call(local, now);
            self.connect(local);
            self.emit(Event::Answered { call: local });
        } else if control_frame && f.subclass == control::BUSY {
            self.ack_call(local, now);
            self.drop_call(local, "busy".to_owned());
        } else if iax_frame && f.subclass == iax::HANGUP {
            self.ack_call(local, now);
            self.drop_call(local, "hangup by remote".to_owned());
        } else if iax_frame && f.subclass == iax::REJECT {
            self.ack_call(local, now);
            let mut reason = "refused causecode=".to_owned();
            text::push_debug_option(&mut reason, cause_in(f));
            self.drop_call(local, reason);
        } else if iax_frame && (f.subclass == iax::ACK || f.subclass == iax::PONG || f.subclass
            == iax::LAGRP) {
        } else if iax_frame && f.subclass == iax::LAGRQ {
            self.echo_call(local, f.timestamp, iax::LAGRP);
        } else if iax_frame && f.subclass == iax::PING {
            self.echo_call(local, f.timestamp, iax::PONG);
        } else if f.frametype == frametype::DTMF {
            self.ack_call(local, now);
            self.emit(Event::Dtmf { call: local, digit: f.subclass as char });
        } else if f.frametype == frametype::CNG || control_frame {
            self.ack_call(local, now);
        } else {
            self.ack_call(local, now);
            let mut text = "call leg ft=0x".to_owned();
            text::push_hex2(&mut text, f.frametype);
            text.append(" sc=0x");
            text::push_hex2(&mut text, f.subclass);
            self.emit(Event::Log(text));
        }
    }

    fn set_state(&mut self, local: u16, state: CallState)
        requires
            old(self)@.calls.contains_key(local),
        ensures
            final(self)@ == old(self)@.with_call(
                local,
                CallModel { state, ..old(self)@.calls[local] },
            ),
    {
        let ghost m = self@;
        if let Some(c) = self.take_call(local) {
            let mut c = c;
            c.state = state;
            self.put_call(local, c);
            assert(self@ =~= m.with_call(local, c@));
        }
    }

    /// Marks a call as connected: the format has to be declared anew.
    fn connect(&mut self, local: u16)
        requires
            old(self)@.calls.contains_key(local),
        ensures
            final(self)@ == old(self)@.with_call(
                local,
                CallModel { state: CallState::Up, sent_format: false, ..old(self)@.calls[local] },
            ),
    {
        let ghost m = self@;
        if let Some(c) = self.take_call(local) {
            let mut c = c;
            c.state = CallState::Up;
            c.sent_format = false;
            self.put_call(local, c);
            assert(self@ =~= m.with_call(local, c@));
        }
    }

    fn on_voice(&mut self, local: u16, f: &FullFrame, now: Instant)
        requires
            old(self)@.calls.contains_key(local),
            f.frametype == frametype::VOICE,
            now.in_range(),
        ensures
            final(self)@ == old(self)@.on_counted(local, f@, now),
    {
        reveal(ClientModel::on_counted);
        self.ack_call(local, now);
        let ghost m = self@;
        if let Some(c) = self.take_call(local) {
            let mut c = c;
            c.last_voice_ts = f.timestamp;
            c.voice_ts_seen = true;
            let up = c.state == CallState::Up;
            self.put_call(local, c);
            assert(self@ =~= m.with_call(local, c@));
            if up {
                let ulaw = f.media_payload.clone();
                assert(ulaw@ =~= f.media_payload@);
                self.emit(Event::Voice { call: local, ts: f.timestamp, ulaw });
            }
        }
    }

    fn on_accept(&mut self, local: u16, f: &FullFrame, now: Instant)
        requires
            old(self)@.calls.contains_key(local),
            is_iax(f@, iax::ACCEPT),
            now.in_range(),
        ensures
            final(self)@ == old(self)@.on_counted(local, f@, now),
    {
        reveal(ClientModel::on_counted);
        self.ack_call(local, now);
        let ghost m = self@;
        if let Some(c) = self.take_call(local) {
            let mut c = c;
            if let Some(fmt) = u32_in(f, iet::FORMAT) {
                c.fmt = fmt;
            }
            self.put_call(local, c);
            assert(self@ =~= m.with_call(local, c@));
        }
    }

    fn on_authreq(&mut self, local: u16, f: &FullFrame, now: Instant)
        requires
            now.in_range(),
            old(self)@.calls.contains_key(local),
        ensures
            final(self)@ == old(self)@.on_authreq(local, f@, now),
    {
        if !md5_offered(f) {
            self.log("AUTHREQ without MD5");
            return;
        }
        match ie::find(f.ies.as_slice(), iet::CHALLENGE) {
            None => self.log("AUTHREQ eithout challenge"),
            Some(c) => {
                let answer = md5_response(c.as_str().as_str(), self.cfg.secret.as_str());
                let mut ies: Vec<Ie> = Vec::new();
                ies.push(Ie::str(iet::MD5_RESULT, answer.as_str()));
                assert(ies_view(ies@) =~= seq![IeModel::of_str(iet::MD5_RESULT, answer@)]);
                self.send_call(local, frametype::IAX, iax::AUTHREP, ies, now);
            },
        }
    }

    // --- what the driver reads ------------------------------------------

    /// The label of the exchange.
    pub fn name(&self) -> (r: &str)
        ensures
            r@ == self@.cfg.name,
    {
        self.cfg.name.as_str()
    }

    /// The registration is confirmed.
    pub fn is_registered(&self) -> (r: bool)
        ensures
            r == (self@.reg_state == RegState::Registered),
    {
        self.reg_state == RegState::Registered
    }

    /// How many calls are live.
    pub fn active_calls(&self) -> (r: usize)
        ensures
            r == self@.calls.dom().len(),
    {
        assert(self@.calls.dom() =~= self.calls@.dom());
        self.calls.len()
    }

    /// The state of a call, if it is live.
    pub fn call_state(&self, call: u16) -> (r: Option<CallState>)
        ensures
            r == (if self@.calls.contains_key(call) {
                Some(self@.calls[call].state)
            } else {
                None
            }),
    {
        match self.calls.get(&call) {
            Some(c) => Some(c.state),
            None => None,
        }
    }

    /// The peer of a call, if it is live.
    pub fn call_peer(&self, call: u16) -> (r: Option<&str>)
        ensures
            r is Some == self@.calls.contains_key(call),
            r is Some ==> r->0@ == self@.calls[call].peer,
    {
        match self.calls.get(&call) {
            Some(c) => Some(c.peer.as_str()),
            None => None,
        }
    }

    /// The next instant at which [`PbxClient::handle_timeout`] has something to do.
    pub fn poll_timeout(&self) -> (r: Option<Instant>)
        ensures
            r is Some,
            self@.has_timer(r->0),
            self@.quiet_before(r->0),
    {
        let mut t = self.next_reg;
        if self.reg_state == RegState::Registered && self.next_keepalive.nanos < t.nanos {
            t = self.next_keepalive;
        }
        let (t, _) = earliest(&self.reg.outstanding, t);
        let mut t = t;
        let ids = keys_of(&self.calls);
        for i in 0..ids.len()
            invariant
                ids@ == ids_of(self.calls@),
                forall|k: u16| #[trigger] ids@.contains(k) <==> self.calls@.contains_key(k),
                self@.has_timer(t),
                t.nanos <= self@.next_reg.nanos,
                self@.reg_state == RegState::Registered ==> t.nanos <= self@.next_keepalive.nanos,
                forall|i: int|
                    0 <= i < self@.reg.outstanding.len() ==> t.nanos <= (
                    #[trigger] self@.reg.outstanding[i]).deadline.nanos,
                forall|j: int, n: int|
                    0 <= j < i && 0 <= n < self@.calls[ids@[j]].leg.outstanding.len() ==> t.nanos
                        <= (#[trigger] self@.calls[ids@[j]].leg.outstanding[n]).deadline.nanos,
        {
            let k = ids[i];
            assert(ids@.contains(k));
            if let Some(c) = self.calls.get(&k) {
                let ghost was = t;
                let (next, found) = earliest(&c.leg.outstanding, t);
                t = next;
                proof {
                    assert(self@.calls.contains_key(k));
                    assert(self@.calls[k].leg.outstanding == window_view(c.leg.outstanding@));
                    if found {
                        let n = choose|n: int|
                            0 <= n < self@.calls[k].leg.outstanding.len() && (
                            #[trigger] self@.calls[k].leg.outstanding[n]).deadline == t;
                        assert(self@.calls.contains_key(k) && self@.calls[k].leg.outstanding[n].deadline
                            == t);
                    }
                }
            }
        }
        proof {
            assert forall|k: u16, n: int| #[trigger]
                self@.calls.contains_key(k) && 0 <= n
                    < self@.calls[k].leg.outstanding.len() implies t.nanos <= (
            #[trigger] self@.calls[k].leg.outstanding[n]).deadline.nanos by {
                assert(ids@.contains(k));
                let j = choose|j: int| 0 <= j < ids@.len() && ids@[j] == k;
                assert(t.nanos <= self@.calls[ids@[j]].leg.outstanding[n].deadline.nanos);
            }
        }
        Some(t)
    }

    /// The next datagram to send, oldest first.
    pub fn poll_transmit(&mut self) -> (r: Option<Vec<u8>>)
        ensures
            r is Some == (old(self)@.out.len() > 0),
            r is Some ==> r->0@ == old(self)@.out[0],
            final(self)@ == (ClientModel {
                out: if r is Some {
                    old(self)@.out.skip(1)
                } else {
                    old(self)@.out
                },
                ..old(self)@
            }),
            old(self)@.wf() ==> final(self)@.wf(),
    {
        let r = self.out.pop_front();
        if r.is_some() {
            assert(self@.out =~= old(self)@.out.skip(1));
        }
        r
    }

    /// The next event, oldest first.
    pub fn poll_event(&mut self) -> (r: Option<Event>)
        ensures
            r is Some == (old(self)@.events.len() > 0),
            r is Some ==> r->0@ == old(self)@.events[0],
            final(self)@ == (ClientModel {
                events: if r is Some {
                    old(self)@.events.skip(1)
                } else {
                    old(self)@.events
                },
                ..old(self)@
            }),
            old(self)@.wf() ==> final(self)@.wf(),
    {
        let r = self.events.pop_front();
        if r.is_some() {
            assert(self@.events =~= old(self)@.events.skip(1));
        }
        r
    }
}

/// The earliest of `bound` and the deadlines of a window, and whether it is one
/// of the deadlines.
fn earliest(window: &VecDeque<Outstanding>, bound: Instant) -> (r: (Instant, bool))
    ensures
        r.0.nanos <= bound.nanos,
        !r.1 ==> r.0 == bound,
        r.1 ==> exists|i: int|
            0 <= i < window_view(window@).len() && (
            #[trigger] window_view(window@)[i]).deadline == r.0,
        forall|i: int|
            0 <= i < window_view(window@).len() ==> r.0.nanos <= (
            #[trigger] window_view(window@)[i]).deadline.nanos,
{
    let ghost w = window_view(window@);
    let mut t = bound;
    let mut found = false;
    for i in 0..window.len()
        invariant
            w == window_view(window@),
            t.nanos <= bound.nanos,
            !found ==> t == bound,
            found ==> exists|j: int|
                0 <= j < w.len() && (#[trigger] w[j]).deadline == t,
            forall|j: int| 0 <= j < i ==> t.nanos <= (#[trigger] w[j]).deadline.nanos,
    {
        assert(w[i as int] == window@[i as int]@);
        if window[i].deadline.nanos < t.nanos {
            t = window[i].deadline;
            found = true;
        }
    }
    (t, found)
}

/// The call token that a frame carries, if it is not empty.
pub(crate) fn call_token(f: &FullFrame) -> (r: Option<Vec<u8>>)
    ensures
        r is Some == token_of(f@.ies) is Some,
        r is Some ==> r->0@ == token_of(f@.ies)->0,
{
    match ie::find(f.ies.as_slice(), iet::CALLTOKEN) {
        Some(i) => {
            if i.data.len() > 0 {
                let data = i.data.clone();
                assert(data@ =~= i.data@);
                Some(data)
            } else {
                None
            }
        },
        None => None,
    }
}

/// The text of an element of a frame, empty if there is none of the kind.
pub(crate) fn text_in(f: &FullFrame, kind: u8) -> (r: String)
    ensures
        r@ == text_of(f@.ies, kind),
{
    match ie::find(f.ies.as_slice(), kind) {
        Some(i) => i.as_str(),
        None => {
            let none = String::new();
            assert(none@ =~= Seq::empty());
            none
        },
    }
}

/// The 16-bit number of an element of a frame.
pub(crate) fn u16_in(f: &FullFrame, kind: u8) -> (r: Option<u16>)
    ensures
        r == u16_of(f@.ies, kind),
{
    match ie::find(f.ies.as_slice(), kind) {
        Some(i) => i.as_u16(),
        None => None,
    }
}

/// The 32-bit number of an element of a frame.
pub(crate) fn u32_in(f: &FullFrame, kind: u8) -> (r: Option<u32>)
    ensures
        r == u32_of(f@.ies, kind),
{
    match ie::find(f.ies.as_slice(), kind) {
        Some(i) => i.as_u32(),
        None => None,
    }
}

/// The first octet of the cause code of a frame.
pub(crate) fn cause_in(f: &FullFrame) -> (r: Option<u8>)
    ensures
        r == cause_code(f@.ies),
{
    match ie::find(f.ies.as_slice(), iet::CAUSECODE) {
        Some(i) => {
            if i.data.len() > 0 {
                Some(i.data[0])
            } else {
                None
            }
        },
        None => None,
    }
}

/// Whether a frame offers MD5 authentication.
pub(crate) fn md5_offered(f: &FullFrame) -> (r: bool)
    ensures
        r == offers_md5(f@.ies),
{
    match u16_in(f, iet::AUTHMETHODS) {
        Some(m) => m & authmethod::MD5 != 0,
        None => false,
    }
}

} // verus!
