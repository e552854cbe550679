//! What a softphone with several exchanges does, as functions of its state.

use vstd::prelude::*;

use crate::action::ActionModel;
use crate::client_model::{CallState, ClientModel, Dir, EventModel, RegState};
use crate::g711::{pcm_block, ulaw_block};
use crate::jitter::{JitterModel, PullModel};
use crate::pcm::faded;
use crate::text::decimal;
use crate::time::Instant;
use crate::words::{joined, number_upto};

verus! {

/// The longest that a softphone sleeps: one hour.
pub const LONGEST_SLEEP: u64 = 3_600_000_000_000;

/// The whole state of a softphone.
#[verifier::ext_equal]
pub ghost struct PhoneModel {
    pub clients: Seq<ClientModel>,
    pub active: Option<(usize, u16)>,
    pub selected: usize,
    pub jb: JitterModel,
    pub last_pcm: Seq<i16>,
    pub todo: Seq<ActionModel>,
}

// --- what is printed ----------------------------------------------------------

/// The line for an event of the exchange `name`, if there is one.
pub open spec fn event_line(name: Seq<char>, ev: EventModel) -> Option<Seq<char>> {
    match ev {
        EventModel::Registered => Some("[✓] ["@ + name + "] REGISTRATO"@),
        EventModel::RegisterLost { reason } => Some(
            "[!] ["@ + name + "] registrazione persa: "@ + reason,
        ),
        EventModel::Incoming { call, from, to } => Some(
            "[☎] ["@ + name + "] CHIAMATA IN ARRIVO #"@ + decimal(call as nat) + " da '"@ + from
                + "' verso '"@ + to + "'  —  premi 'a' per rispondere"@,
        ),
        EventModel::Dialing { call, to } => Some(
            "[>] ["@ + name + "] chiamo '"@ + to + "' (#"@ + decimal(call as nat) + ")"@,
        ),
        EventModel::Ringing { call } => Some(
            "[i] ["@ + name + "] #"@ + decimal(call as nat) + " sta squillando…"@,
        ),
        EventModel::Answered { call } => Some(
            "[✓] ["@ + name + "] #"@ + decimal(call as nat) + " connessa — audio attivo"@,
        ),
        EventModel::Voice { .. } => None,
        EventModel::Ended { call, reason } => Some(
            "[i] ["@ + name + "] #"@ + decimal(call as nat) + " terminata: "@ + reason,
        ),
        EventModel::Dtmf { call, digit } => Some(
            ("[#] ["@ + name + "] #"@ + decimal(call as nat) + " DTMF ricevuto: "@).push(digit),
        ),
        EventModel::Log(s) => Some("[i] ["@ + name + "] "@ + s),
    }
}

/// How the list names the state of a call.
pub open spec fn state_name(state: Option<CallState>) -> Seq<char> {
    match state {
        Some(CallState::Trying) => "in connessione"@,
        Some(CallState::Ringing) => "squilla"@,
        Some(CallState::Up) => "in linea"@,
        Some(CallState::Held) => "in attesa"@,
        None => "?"@,
    }
}

// --- calls of all exchanges ---------------------------------------------------

/// Call numbers of one exchange, each with the exchange's index.
pub open spec fn with_index(idx: usize, ids: Seq<u16>) -> Seq<(usize, u16)> {
    ids.map_values(|k: u16| (idx, k))
}

/// The calls of the first `n` exchanges: by exchange, then by call number.
pub open spec fn calls_upto(clients: Seq<ClientModel>, n: nat) -> Seq<(usize, u16)>
    decreases n,
{
    if n == 0 {
        Seq::empty()
    } else {
        calls_upto(clients, (n - 1) as nat) + with_index(
            (n - 1) as usize,
            clients[n - 1].call_ids(),
        )
    }
}

impl PhoneModel {
    /// A softphone at rest.
    pub open spec fn new(clients: Seq<ClientModel>) -> PhoneModel {
        PhoneModel {
            clients,
            active: None,
            selected: 0,
            jb: JitterModel::new(),
            last_pcm: Seq::empty(),
            todo: Seq::empty(),
        }
    }

    /// What every operation keeps: there is an exchange, each is in order, the
    /// selected one and that of the active call exist, and so is the buffer.
    pub open spec fn wf(self) -> bool {
        &&& 0 < self.clients.len() <= usize::MAX
        &&& forall|i: int| 0 <= i < self.clients.len() ==> (#[trigger] self.clients[i]).wf()
        &&& self.selected < self.clients.len()
        &&& self.active is Some ==> (self.active->0).0 < self.clients.len()
        &&& self.jb.wf()
    }

    /// The state of a call, if it is live.
    pub open spec fn state_of(self, idx: usize, call: u16) -> Option<CallState> {
        if self.clients[idx as int].calls.contains_key(call) {
            Some(self.clients[idx as int].calls[call].state)
        } else {
            None
        }
    }

    /// The call is live, comes from outside, and waits for an answer.
    pub open spec fn rings_inbound(self, idx: usize, call: u16) -> bool {
        let calls = self.clients[idx as int].calls;
        calls.contains_key(call) && calls[call].state == CallState::Ringing && calls[call].dir
            == Dir::In
    }

    /// There is an active call, and it is connected.
    pub open spec fn active_up(self) -> bool {
        self.active is Some && self.state_of((self.active->0).0, (self.active->0).1) == Some(
            CallState::Up,
        )
    }

    /// All live calls, in the order of the list.
    pub open spec fn calls_index(self) -> Seq<(usize, u16)> {
        calls_upto(self.clients, self.clients.len())
    }

    /// The first inbound call of a list that rings.
    pub open spec fn first_ringing(self, list: Seq<(usize, u16)>) -> Option<(usize, u16)>
        decreases list.len(),
    {
        if list.len() == 0 {
            None
        } else if self.rings_inbound(list[0].0, list[0].1) {
            Some(list[0])
        } else {
            self.first_ringing(list.drop_first())
        }
    }

    /// The first inbound call that rings, on any exchange.
    pub open spec fn find_ringing(self) -> Option<(usize, u16)> {
        self.first_ringing(self.calls_index())
    }

    /// With one more thing to do.
    pub open spec fn act(self, a: ActionModel) -> PhoneModel {
        PhoneModel { todo: self.todo.push(a), ..self }
    }

    /// With one more line to print.
    pub open spec fn say(self, line: Seq<char>) -> PhoneModel {
        self.act(ActionModel::Say(line))
    }

    /// With another state of an exchange.
    pub open spec fn with_client(self, idx: usize, c: ClientModel) -> PhoneModel {
        PhoneModel { clients: self.clients.update(idx as int, c), ..self }
    }

    /// After the datagrams of an exchange were handed out.
    pub open spec fn flushed(self, idx: usize) -> PhoneModel {
        let c = self.clients[idx as int];
        PhoneModel {
            todo: self.todo + c.out.map_values(
                |d: Seq<u8>| ActionModel::Send { pbx: idx, datagram: d },
            ),
            ..self.with_client(idx, ClientModel { out: Seq::empty(), ..c })
        }
    }

    // --- the active call --------------------------------------------------

    /// The connected call that has to wait when another becomes active.
    pub open spec fn displaced(self, idx: usize, call: u16) -> Option<(usize, u16)> {
        if self.active_up() && self.active != Some((idx, call)) {
            self.active
        } else {
            None
        }
    }

    /// After the displaced call, if any, was put on hold.
    pub open spec fn previous_held(self, idx: usize, call: u16, now: Instant) -> PhoneModel {
        match self.displaced(idx, call) {
            Some((p, pcall)) => self.with_client(
                p,
                self.clients[p as int].set_hold(pcall, true, now),
            ),
            None => self,
        }
    }

    /// After a call was taken off hold, if it was on hold.
    pub open spec fn taken_up(self, idx: usize, call: u16, now: Instant) -> PhoneModel {
        if self.state_of(idx, call) == Some(CallState::Held) {
            self.with_client(idx, self.clients[idx as int].set_hold(call, false, now))
        } else {
            self
        }
    }

    /// After the buffer was emptied for another call.
    pub open spec fn fresh_stream(self) -> PhoneModel {
        PhoneModel { jb: self.jb.cleared(), last_pcm: Seq::empty(), ..self }
    }

    /// After a call became the active one, before anything is sent.
    pub open spec fn switched(self, idx: usize, call: u16, now: Instant) -> PhoneModel {
        let m = PhoneModel {
            active: Some((idx, call)),
            ..self.previous_held(idx, call, now).taken_up(idx, call, now)
        };
        (if self.active != Some((idx, call)) {
            m.fresh_stream()
        } else {
            m
        }).act(ActionModel::FlushAudio)
    }

    /// After a call became the active one: the one before waits, this one is
    /// taken off hold, and both exchanges are told, in the order of their index.
    pub open spec fn make_active(self, idx: usize, call: u16, now: Instant) -> PhoneModel {
        let m = self.switched(idx, call, now);
        match self.displaced(idx, call) {
            Some((p, _)) => if p < idx {
                m.flushed(p).flushed(idx)
            } else if p > idx {
                m.flushed(idx).flushed(p)
            } else {
                m.flushed(idx)
            },
            None => m.flushed(idx),
        }
    }

    // --- events -----------------------------------------------------------

    /// After the line of an event, if it has one, was printed.
    pub open spec fn announced(self, idx: usize, ev: EventModel) -> PhoneModel {
        match event_line(self.clients[idx as int].cfg.name, ev) {
            Some(line) => self.say(line),
            None => self,
        }
    }

    /// After an event of an exchange was dealt with.
    #[verifier::opaque]
    pub open spec fn on_event(self, idx: usize, ev: EventModel, now: Instant) -> PhoneModel {
        let m = self.announced(idx, ev);
        match ev {
            EventModel::Answered { call } => m.make_active(idx, call, now),
            EventModel::Voice { call, ts, ulaw } => if m.active == Some((idx, call)) {
                let got = PhoneModel { jb: m.jb.pushed(ts, ulaw, now), ..m };
                match m.jb.deviation(ts, now) {
                    Some(ms) => got.act(ActionModel::Estimate(ms)),
                    None => got,
                }
            } else {
                m
            },
            EventModel::Ended { call, .. } => if m.active == Some((idx, call)) {
                PhoneModel { active: None, ..m }.fresh_stream().act(ActionModel::FlushAudio)
            } else {
                m
            },
            _ => m,
        }
    }

    /// After events of an exchange were dealt with, in order.
    pub open spec fn on_events(self, idx: usize, evs: Seq<EventModel>, now: Instant) -> PhoneModel
        decreases evs.len(),
    {
        if evs.len() == 0 {
            self
        } else {
            self.on_events(idx, evs.drop_last(), now).on_event(idx, evs.last(), now)
        }
    }

    /// After what an exchange has to send, and then what it has to tell, was
    /// dealt with.
    #[verifier::opaque]
    pub open spec fn settled(self, idx: usize, now: Instant) -> PhoneModel {
        let m = self.flushed(idx);
        let c = m.clients[idx as int];
        m.with_client(idx, ClientModel { events: Seq::empty(), ..c }).on_events(idx, c.events, now)
    }

    /// After an exchange changed its state: what follows from it is dealt with.
    pub open spec fn stepped(self, idx: usize, c: ClientModel, now: Instant) -> PhoneModel {
        self.with_client(idx, c).settled(idx, now)
    }

    /// After a datagram arrived from an exchange.
    pub open spec fn on_datagram(self, idx: usize, dg: Seq<u8>, now: Instant) -> PhoneModel {
        self.stepped(idx, self.clients[idx as int].on_datagram(dg, now), now)
    }

    /// After the first `n` exchanges were told the time.
    pub open spec fn on_timeout_upto(self, n: nat, now: Instant) -> PhoneModel
        decreases n,
    {
        if n == 0 {
            self
        } else {
            let m = self.on_timeout_upto((n - 1) as nat, now);
            m.stepped((n - 1) as usize, m.clients[n - 1].on_timeout(now), now)
        }
    }

    /// After all exchanges were told the time.
    pub open spec fn on_timeout(self, now: Instant) -> PhoneModel {
        self.on_timeout_upto(self.clients.len(), now)
    }

    // --- audio ------------------------------------------------------------

    /// An exchange after recorded frames were sent on a call.
    pub open spec fn voiced(c: ClientModel, call: u16, frames: Seq<Seq<i16>>, now: Instant) -> ClientModel
        decreases frames.len(),
    {
        if frames.len() == 0 {
            c
        } else {
            Self::voiced(c, call, frames.drop_last(), now).send_voice(
                call,
                ulaw_block(frames.last()),
                now,
            )
        }
    }

    /// After recorded frames came from the microphone: they go to the active
    /// call, if it is connected.
    pub open spec fn on_mic(self, frames: Seq<Seq<i16>>, now: Instant) -> PhoneModel {
        if self.active_up() {
            let (idx, call) = self.active->0;
            self.with_client(
                idx,
                Self::voiced(self.clients[idx as int], call, frames, now),
            ).flushed(idx)
        } else {
            self
        }
    }

    /// After 20 ms of the active call were played: what the buffer has, or the
    /// last frame once more and half as loud, or nothing.
    pub open spec fn on_playout(self) -> PhoneModel {
        if !self.active_up() {
            self
        } else {
            let (jb, pull) = self.jb.pulled();
            let m = PhoneModel { jb, ..self };
            match pull {
                PullModel::Play(ulaw) => PhoneModel { last_pcm: pcm_block(ulaw), ..m }.act(
                    ActionModel::Play(pcm_block(ulaw)),
                ),
                PullModel::Conceal => if self.last_pcm.len() > 0 {
                    PhoneModel { last_pcm: faded(self.last_pcm), ..m }.act(
                        ActionModel::Play(faded(self.last_pcm)),
                    )
                } else {
                    m
                },
                PullModel::Silence => m,
            }
        }
    }

    // --- time -------------------------------------------------------------

    /// `t` is when something falls due on some exchange.
    pub open spec fn has_timer(self, t: Instant) -> bool {
        exists|i: int| 0 <= i < self.clients.len() && (#[trigger] self.clients[i]).has_timer(t)
    }

    /// Nothing falls due before `t` on any exchange.
    pub open spec fn quiet_before(self, t: Instant) -> bool {
        forall|i: int| 0 <= i < self.clients.len() ==> (#[trigger] self.clients[i]).quiet_before(t)
    }

    // --- the list ---------------------------------------------------------

    /// The line of an exchange in the list.
    pub open spec fn pbx_line(self, i: int) -> Seq<char> {
        let c = self.clients[i];
        (if i == self.selected {
            " *"@
        } else {
            "  "@
        }) + decimal((i + 1) as nat) + ") "@ + c.cfg.name + (if c.reg_state == RegState::Registered {
            " [OK]"@
        } else {
            " [--]"@
        })
    }

    /// The line of a call in the list.
    pub open spec fn call_line(self, n: int, idx: usize, call: u16) -> Seq<char> {
        let c = self.clients[idx as int];
        " "@ + decimal((n + 1) as nat) + ") ["@ + c.cfg.name + "] #"@ + decimal(call as nat) + " "@ + (
        if c.calls.contains_key(call) {
            c.calls[call].peer
        } else {
            "?"@
        }) + " — "@ + state_name(self.state_of(idx, call)) + (if self.active == Some((idx, call)) {
            "  <== attiva"@
        } else {
            ""@
        })
    }

    /// The lines of the first `n` exchanges.
    pub open spec fn pbx_lines(self, n: nat) -> Seq<Seq<char>> {
        Seq::new(n, |i: int| self.pbx_line(i))
    }

    /// The lines of a list of calls.
    pub open spec fn call_lines(self, calls: Seq<(usize, u16)>) -> Seq<Seq<char>> {
        Seq::new(calls.len(), |n: int| self.call_line(n, calls[n].0, calls[n].1))
    }

    /// The lines of the list.
    pub open spec fn list_lines(self) -> Seq<Seq<char>> {
        let calls = self.calls_index();
        seq!["--- PBX ---"@] + self.pbx_lines(self.clients.len()) + if calls.len() == 0 {
            seq!["--- nessuna chiamata in corso ---"@]
        } else {
            seq!["--- chiamate (premi il numero per renderla attiva) ---"@] + self.call_lines(
                calls,
            )
        }
    }

    /// After lines were printed, in order.
    pub open spec fn say_all(self, lines: Seq<Seq<char>>) -> PhoneModel {
        PhoneModel {
            todo: self.todo + lines.map_values(|l: Seq<char>| ActionModel::Say(l)),
            ..self
        }
    }

    // --- the keyboard -----------------------------------------------------

    /// After another exchange was selected.
    pub open spec fn select(self, word: Option<Seq<char>>) -> PhoneModel {
        match word {
            Some(w) => match number_upto(w, usize::MAX as u64) {
                Some(n) => if 1 <= n <= self.clients.len() {
                    PhoneModel { selected: (n - 1) as usize, ..self }.say(
                        "[i] PBX selezionato: "@ + self.clients[n - 1].cfg.name,
                    )
                } else {
                    self
                },
                None => self,
            },
            None => self,
        }
    }

    /// After a number was dialled on the selected exchange.
    pub open spec fn dial(self, number: Seq<char>, now: Instant) -> PhoneModel {
        if number.len() == 0 {
            self.say("[!] uso: d <numero>"@)
        } else {
            let c = self.clients[self.selected as int];
            let m = if c.reg_state != RegState::Registered {
                self.say("[!] ["@ + c.cfg.name + "] non registrato; provo lo stesso"@)
            } else {
                self
            };
            m.stepped(self.selected, c.dial(number, now), now)
        }
    }

    /// After a ringing call was answered.
    pub open spec fn answer(self, idx: usize, call: u16, now: Instant) -> PhoneModel {
        self.stepped(idx, self.clients[idx as int].answer(call, now), now)
    }

    /// An exchange after digits were sent on a call.
    pub open spec fn dialled(c: ClientModel, call: u16, digits: Seq<char>, now: Instant) -> ClientModel
        decreases digits.len(),
    {
        if digits.len() == 0 {
            c
        } else {
            Self::dialled(c, call, digits.drop_last(), now).send_dtmf(call, digits.last(), now)
        }
    }

    /// After digits were sent on the active call.
    pub open spec fn send_digits(self, digits: Seq<char>, now: Instant) -> PhoneModel {
        if digits.len() == 0 {
            self.say("[!] uso: t <cifre>   (0-9 * # A-D)"@)
        } else {
            match self.active {
                Some((idx, call)) => self.stepped(
                    idx,
                    Self::dialled(self.clients[idx as int], call, digits, now),
                    now,
                ).say("[i] DTMF inviati: "@ + digits),
                None => self.say("[!] nessuna chiamata attiva"@),
            }
        }
    }

    /// After the active call was hung up.
    pub open spec fn hangup(self, now: Instant) -> PhoneModel {
        match self.active {
            Some((idx, call)) => PhoneModel {
                active: None,
                ..self.stepped(idx, self.clients[idx as int].hangup(call, now), now)
            }.act(ActionModel::FlushAudio),
            None => self.say("[!] nessuna chiamata attiva"@),
        }
    }

    /// After the call with a number of the list was picked: it is answered if it
    /// rings, and becomes the active one otherwise.
    pub open spec fn pick(self, n: u64, now: Instant) -> PhoneModel {
        let calls = self.calls_index();
        if calls.len() == 0 {
            self.say("[!] nessuna chiamata in corso"@)
        } else if n < 1 || n > calls.len() {
            self.say(
                "[!] indice fuori range: usa 1.."@ + decimal(calls.len())
                    + " ('l' per la lista)"@,
            )
        } else {
            let (idx, call) = calls[n - 1];
            if self.state_of(idx, call) == Some(CallState::Ringing) {
                self.answer(idx, call, now)
            } else {
                self.make_active(idx, call, now).say(
                    "[i] attiva: ["@ + self.clients[idx as int].cfg.name + "] #"@ + decimal(
                        call as nat,
                    ),
                )
            }
        }
    }

    /// After a line from the keyboard, given as its words, was carried out.
    pub open spec fn on_words(self, words: Seq<Seq<char>>, now: Instant) -> PhoneModel {
        let cmd = if words.len() == 0 {
            ""@
        } else {
            words[0]
        };
        let rest = if words.len() == 0 {
            Seq::empty()
        } else {
            words.skip(1)
        };
        if cmd == "q"@ {
            self
        } else if cmd == "l"@ {
            self.say_all(self.list_lines())
        } else if cmd == "p"@ {
            self.select(
                if rest.len() > 0 {
                    Some(rest[0])
                } else {
                    None
                },
            )
        } else if cmd == "d"@ {
            self.dial(joined(rest, " "@), now)
        } else if cmd == "a"@ {
            match self.find_ringing() {
                Some((idx, call)) => self.answer(idx, call, now),
                None => self.say("[!] nessuna chiamata che squilla"@),
            }
        } else if cmd == "t"@ {
            self.send_digits(joined(rest, ""@), now)
        } else if cmd == "h"@ {
            self.hangup(now)
        } else {
            let key = if cmd.len() > 0 && cmd[0] == '#' {
                cmd.drop_first()
            } else {
                cmd
            };
            match number_upto(key, usize::MAX as u64) {
                Some(n) => self.pick(n, now),
                None => self.say("[!] comando sconosciuto: "@ + cmd),
            }
        }
    }

    /// The line from the keyboard ends the program.
    pub open spec fn quits(words: Seq<Seq<char>>) -> bool {
        words.len() > 0 && words[0] == "q"@
    }
}

} // verus!
