//! A softphone with several lines on several exchanges.
//!
//! It owns one [`PbxClient`] per account and the jitter buffer of the active
//! call: the one whose audio is live. The others wait. The driver carries
//! datagrams, recorded frames, lines from the keyboard and time to it, and
//! carries out what [`Phone::poll_action`] hands out.
//!
//! From the keyboard: `a` answers the first call that rings, `h` hangs up the
//! active call, `d <number>` dials on the selected exchange, `t <digits>` sends
//! DTMF on the active call, `p <n>` selects an exchange, `<n>` makes a call of
//! the list active, `l` prints the list, `q` ends the program.

use std::collections::VecDeque;
use vstd::prelude::*;

use crate::action::{actions_view, Action, ActionModel};
use crate::client::{commanded, events_view, CallState, Command, Event, PbxClient};
use crate::client_model::{ClientModel, Dir};
use crate::g711;
use crate::jitter::{JitterBuffer, Pull};
use crate::pcm::{fade, frames_view};
use crate::softphone_model::{calls_upto, event_line, with_index, PhoneModel, LONGEST_SLEEP};
use crate::text::push_decimal;
use crate::time::Instant;
use crate::words::{
    chars_of, join_from, number_upto, parse_number, same_text, text_from, texts_view, words,
    words_of,
};

verus! {

/// What a list of exchanges holds.
pub open spec fn clients_view(v: Seq<PbxClient>) -> Seq<ClientModel> {
    v.map_values(|c: PbxClient| c@)
}

/// A softphone.
#[derive(Debug)]
pub struct Phone {
    pub clients: Vec<PbxClient>,
    /// The exchange and the call number of the call whose audio is live.
    pub active: Option<(usize, u16)>,
    /// The exchange that numbers are dialled on.
    pub selected: usize,
    /// The jitter buffer of the active call.
    pub jb: JitterBuffer,
    /// The frame that was played last, to conceal holes with.
    pub last_pcm: Vec<i16>,
    pub todo: VecDeque<Action>,
}

impl View for Phone {
    type V = PhoneModel;

    open spec fn view(&self) -> PhoneModel {
        PhoneModel {
            clients: clients_view(self.clients@),
            active: self.active,
            selected: self.selected,
            jb: self.jb@,
            last_pcm: self.last_pcm@,
            todo: actions_view(self.todo@),
        }
    }
}

proof fn lemma_events_pop(events: Seq<Event>)
    requires
        events.len() > 0,
    ensures
        events_view(events)[0] == events[0]@,
        events_view(events.subrange(1, events.len() as int)) == events_view(events).skip(1),
{
    assert(events_view(events.subrange(1, events.len() as int)) =~= events_view(events).skip(1));
}

proof fn lemma_say_all_push(m: PhoneModel, lines: Seq<Seq<char>>, line: Seq<char>)
    ensures
        m.say_all(lines).say(line) == m.say_all(lines.push(line)),
{
    assert(m.say_all(lines).say(line) =~= m.say_all(lines.push(line)));
}

impl Phone {
    /// A softphone at rest.
    pub fn new(clients: Vec<PbxClient>) -> (r: Self)
        requires
            clients@.len() > 0,
            forall|i: int| 0 <= i < clients@.len() ==> (#[trigger] clients@[i])@.wf(),
        ensures
            r@ == PhoneModel::new(clients_view(clients@)),
            r@.wf(),
    {
        let count = clients.len();
        let r = Phone {
            clients,
            active: None,
            selected: 0,
            jb: JitterBuffer::new(),
            last_pcm: Vec::new(),
            todo: VecDeque::new(),
        };
        assert(r@ =~= PhoneModel::new(clients_view(clients@)));
        assert(r@.clients.len() == count);
        assert forall|i: int| 0 <= i < r@.clients.len() implies (#[trigger] r@.clients[i]).wf() by {
            assert(clients@[i]@.wf());
        }
        r
    }

    /// The next thing to do, oldest first.
    pub fn poll_action(&mut self) -> (r: Option<Action>)
        ensures
            r is Some == (old(self)@.todo.len() > 0),
            r is Some ==> r->0@ == old(self)@.todo[0],
            final(self)@ == (PhoneModel {
                todo: if r is Some {
                    old(self)@.todo.skip(1)
                } else {
                    old(self)@.todo
                },
                ..old(self)@
            }),
            old(self)@.wf() ==> final(self)@.wf(),
    {
        let r = self.todo.pop_front();
        if r.is_some() {
            assert(self@.todo =~= old(self)@.todo.skip(1));
        }
        r
    }

    fn act(&mut self, a: Action)
        ensures
            final(self)@ == old(self)@.act(a@),
            old(self)@.wf() ==> final(self)@.wf(),
    {
        self.todo.push_back(a);
        assert(self@ =~= old(self)@.act(a@));
    }

    fn say(&mut self, line: String)
        ensures
            final(self)@ == old(self)@.say(line@),
            old(self)@.wf() ==> final(self)@.wf(),
    {
        self.act(Action::Say(line));
    }

    /// Carries out a command on an exchange.
    fn command(&mut self, idx: usize, cmd: Command, now: Instant)
        requires
            now.in_range(),
            old(self)@.wf(),
            idx < old(self)@.clients.len(),
        ensures
            final(self)@ == old(self)@.with_client(
                idx,
                commanded(old(self)@.clients[idx as int], cmd, now),
            ),
            final(self)@.wf(),
    {
        let ghost m = self@;
        assert(m.clients[idx as int].wf());
        self.clients[idx].handle_command(cmd, now);
        assert(self@.clients =~= m.clients.update(
            idx as int,
            commanded(m.clients[idx as int], cmd, now),
        ));
    }

    /// The next datagram of an exchange.
    fn poll_datagram(&mut self, idx: usize) -> (r: Option<Vec<u8>>)
        requires
            idx < old(self)@.clients.len(),
        ensures
            ({
                let c = old(self)@.clients[idx as int];
                &&& r is Some == (c.out.len() > 0)
                &&& r is Some ==> r->0@ == c.out[0] && final(self)@ == old(self)@.with_client(
                    idx,
                    ClientModel { out: c.out.skip(1), ..c },
                )
                &&& r is None ==> final(self)@ == old(self)@
            }),
    {
        let ghost m = self@;
        assert(m.clients.len() == self.clients@.len());
        assert(m.clients[idx as int] == self.clients@[idx as int]@);
        let r = self.clients[idx].poll_transmit();
        if r.is_some() {
            let ghost c = m.clients[idx as int];
            assert(self@.clients =~= m.clients.update(
                idx as int,
                ClientModel { out: c.out.skip(1), ..c },
            ));
        } else {
            assert(self@.clients =~= m.clients);
        }
        r
    }

    /// Hands out the datagrams of an exchange.
    fn flush_tx(&mut self, idx: usize)
        requires
            old(self)@.wf(),
            idx < old(self)@.clients.len(),
        ensures
            final(self)@ == old(self)@.flushed(idx),
            final(self)@.wf(),
    {
        let ghost m = self@;
        let ghost out = m.clients[idx as int].out;
        let ghost sends = out.map_values(|d: Seq<u8>| ActionModel::Send { pbx: idx, datagram: d });
        let n = self.clients[idx].out.len();
        assert(n == out.len());
        assert(m.clients.update(
            idx as int,
            ClientModel { out: out.skip(0), ..m.clients[idx as int] },
        ) =~= m.clients) by {
            assert(out.skip(0) =~= out);
        }
        assert(m.todo + sends.take(0) =~= m.todo);
        for i in 0..n
            invariant
                n == out.len(),
                idx < m.clients.len(),
                out == m.clients[idx as int].out,
                sends == out.map_values(
                    |d: Seq<u8>| ActionModel::Send { pbx: idx, datagram: d },
                ),
                m.wf(),
                self@ == (PhoneModel {
                    todo: m.todo + sends.take(i as int),
                    ..m.with_client(
                        idx,
                        ClientModel { out: out.skip(i as int), ..m.clients[idx as int] },
                    )
                }),
        {
            let ghost before = self@;
            let next = self.poll_datagram(idx);
            assert(out.skip(i as int).len() > 0);
            assert(out.skip(i as int).skip(1) =~= out.skip(i + 1));
            assert(self@.clients =~= m.clients.update(
                idx as int,
                ClientModel { out: out.skip(i + 1), ..m.clients[idx as int] },
            ));
            if let Some(datagram) = next {
                let a = Action::Send { pbx: idx, datagram };
                self.act(a);
                assert((m.todo + sends.take(i as int)).push(a@) =~= m.todo + sends.take(i + 1));
            }
        }
        assert(sends.take(n as int) =~= sends);
        assert(out.skip(n as int) =~= Seq::empty());
        assert(m.clients[idx as int].wf());
        assert(self@.clients[idx as int].wf());
    }

    fn state_of(&self, idx: usize, call: u16) -> (r: Option<CallState>)
        requires
            idx < self@.clients.len(),
        ensures
            r == self@.state_of(idx, call),
    {
        assert(self@.clients.len() == self.clients@.len());
        assert(self@.clients[idx as int] == self.clients@[idx as int]@);
        self.clients[idx].call_state(call)
    }

    /// Whether there is an active call that is connected.
    fn active_up(&self) -> (r: bool)
        requires
            self@.wf(),
        ensures
            r == self@.active_up(),
    {
        match self.active {
            Some((idx, call)) => match self.state_of(idx, call) {
                Some(state) => state == CallState::Up,
                None => false,
            },
            None => false,
        }
    }

    // --- the active call --------------------------------------------------

    /// Empties the jitter buffer for another call.
    fn fresh_stream(&mut self)
        requires
            old(self)@.wf(),
        ensures
            final(self)@ == old(self)@.fresh_stream(),
            final(self)@.wf(),
    {
        self.jb.reset();
        self.last_pcm.clear();
        assert(self@.last_pcm =~= Seq::empty());
    }

    /// Makes a call the active one: the one before waits, and this one is taken
    /// off hold.
    #[verifier::rlimit(40)]
    fn make_active(&mut self, idx: usize, call: u16, now: Instant)
        requires
            now.in_range(),
            old(self)@.wf(),
            idx < old(self)@.clients.len(),
        ensures
            final(self)@ == old(self)@.make_active(idx, call, now),
            final(self)@.wf(),
    {
        let ghost m = self@;
        let before = self.active;
        let up = self.active_up();
        let mut displaced: Option<usize> = None;
        if let Some((p, pcall)) = before {
            if up && !(p == idx && pcall == call) {
                self.command(p, Command::Hold { call: pcall }, now);
                displaced = Some(p);
            }
        }
        assert(self@ == m.previous_held(idx, call, now));
        let held = match self.state_of(idx, call) {
            Some(state) => state == CallState::Held,
            None => false,
        };
        if held {
            self.command(idx, Command::Unhold { call }, now);
        }
        assert(self@ == m.previous_held(idx, call, now).taken_up(idx, call, now));
        let switching = match before {
            Some((p, pcall)) => !(p == idx && pcall == call),
            None => true,
        };
        self.active = Some((idx, call));
        if switching {
            self.fresh_stream();
        }
        self.act(Action::FlushAudio);
        assert(self@ == m.switched(idx, call, now));
        match displaced {
            Some(p) => {
                if p < idx {
                    self.flush_tx(p);
                    self.flush_tx(idx);
                } else if p > idx {
                    self.flush_tx(idx);
                    self.flush_tx(p);
                } else {
                    self.flush_tx(idx);
                }
            },
            None => self.flush_tx(idx),
        }
    }

    // --- events -----------------------------------------------------------

    /// Prints the line of an event, if it has one.
    fn announce(&mut self, idx: usize, ev: &Event)
        requires
            old(self)@.wf(),
            idx < old(self)@.clients.len(),
        ensures
            final(self)@ == old(self)@.announced(idx, ev@),
            final(self)@.wf(),
    {
        assert(self@.clients.len() == self.clients@.len());
        assert(self@.clients[idx as int] == self.clients@[idx as int]@);
        let line = line_for(self.clients[idx].name(), ev);
        if let Some(text) = line {
            self.say(text);
        }
    }

    /// Deals with an event of an exchange.
    fn handle_event(&mut self, idx: usize, ev: Event, now: Instant)
        requires
            now.in_range(),
            old(self)@.wf(),
            idx < old(self)@.clients.len(),
        ensures
            final(self)@ == old(self)@.on_event(idx, ev@, now),
            final(self)@.wf(),
            final(self)@.clients.len() == old(self)@.clients.len(),
    {
        reveal(PhoneModel::on_event);
        self.announce(idx, &ev);
        match ev {
            Event::Answered { call } => self.make_active(idx, call, now),
            Event::Voice { call, ts, ulaw } => {
                if self.is_active(idx, call) {
                    if let Some(ms) = self.jb.push(ts, ulaw, now) {
                        self.act(Action::Estimate(ms));
                    }
                }
            },
            Event::Ended { call, reason: _ } => {
                if self.is_active(idx, call) {
                    self.active = None;
                    self.fresh_stream();
                    self.act(Action::FlushAudio);
                }
            },
            _ => {},
        }
    }

    fn is_active(&self, idx: usize, call: u16) -> (r: bool)
        ensures
            r == (self@.active == Some((idx, call))),
    {
        match self.active {
            Some((i, c)) => i == idx && c == call,
            None => false,
        }
    }

    /// The events of an exchange, which has none afterwards.
    fn take_events(&mut self, idx: usize) -> (r: VecDeque<Event>)
        requires
            old(self)@.wf(),
            idx < old(self)@.clients.len(),
        ensures
            events_view(r@) == old(self)@.clients[idx as int].events,
            final(self)@ == old(self)@.with_client(
                idx,
                ClientModel { events: Seq::empty(), ..old(self)@.clients[idx as int] },
            ),
            final(self)@.wf(),
    {
        let ghost m = self@;
        assert(m.clients.len() == self.clients@.len());
        assert(m.clients[idx as int] == self.clients@[idx as int]@);
        assert(m.clients[idx as int].wf());
        let mut taken: VecDeque<Event> = VecDeque::new();
        std::mem::swap(&mut taken, &mut self.clients[idx].events);
        let ghost after = ClientModel { events: Seq::empty(), ..m.clients[idx as int] };
        assert(self.clients@[idx as int]@ =~= after);
        assert(self@.clients =~= m.clients.update(idx as int, after));
        assert(after.wf());
        taken
    }

    /// Deals with what an exchange has to send, and then with what it has to
    /// tell.
    fn settle(&mut self, idx: usize, now: Instant)
        requires
            now.in_range(),
            old(self)@.wf(),
            idx < old(self)@.clients.len(),
        ensures
            final(self)@ == old(self)@.settled(idx, now),
            final(self)@.wf(),
            final(self)@.clients.len() == old(self)@.clients.len(),
    {
        reveal(PhoneModel::settled);
        self.flush_tx(idx);
        let mut events = self.take_events(idx);
        let ghost m = self@;
        let ghost evs = events_view(events@);
        let n = events.len();
        assert(evs.skip(0) =~= evs);
        assert(evs.take(0) =~= Seq::empty());
        for i in 0..n
            invariant
                now.in_range(),
                n == evs.len(),
                self@.wf(),
                self@.clients.len() == m.clients.len(),
                idx < m.clients.len(),
                events_view(events@) == evs.skip(i as int),
                self@ == m.on_events(idx, evs.take(i as int), now),
        {
            let ghost before = events@;
            assert(before.len() == evs.skip(i as int).len());
            if let Some(ev) = events.pop_front() {
                proof {
                    lemma_events_pop(before);
                    assert(ev@ == evs.skip(i as int)[0]);
                    assert(evs.skip(i as int).skip(1) =~= evs.skip(i + 1));
                    assert(evs.take(i + 1).drop_last() =~= evs.take(i as int));
                    assert(evs.take(i + 1).last() == ev@);
                }
                self.handle_event(idx, ev, now);
            }
        }
        assert(evs.take(n as int) =~= evs);
    }

    /// Takes a datagram from an exchange.
    pub fn on_datagram(&mut self, idx: usize, dg: &[u8], now: Instant)
        requires
            now.in_range(),
            old(self)@.wf(),
            idx < old(self)@.clients.len(),
        ensures
            final(self)@ == old(self)@.on_datagram(idx, dg@, now),
            final(self)@.wf(),
    {
        let ghost m = self@;
        assert(m.clients.len() == self.clients@.len());
        assert(m.clients[idx as int] == self.clients@[idx as int]@);
        assert(m.clients[idx as int].wf());
        self.clients[idx].handle_input(dg, now);
        assert(self@.clients =~= m.clients.update(
            idx as int,
            m.clients[idx as int].on_datagram(dg@, now),
        ));
        self.settle(idx, now);
    }

    /// Does what has fallen due on an exchange.
    fn tick(&mut self, idx: usize, now: Instant)
        requires
            now.in_range(),
            old(self)@.wf(),
            idx < old(self)@.clients.len(),
        ensures
            final(self)@ == old(self)@.stepped(
                idx,
                old(self)@.clients[idx as int].on_timeout(now),
                now,
            ),
            final(self)@.wf(),
            final(self)@.clients.len() == old(self)@.clients.len(),
    {
        let ghost m = self@;
        assert(m.clients.len() == self.clients@.len());
        assert(m.clients[idx as int] == self.clients@[idx as int]@);
        assert(m.clients[idx as int].wf());
        self.clients[idx].handle_timeout(now);
        assert(self@.clients =~= m.clients.update(idx as int, m.clients[idx as int].on_timeout(now)));
        self.settle(idx, now);
    }

    /// Does what has fallen due on any exchange.
    pub fn on_timeout(&mut self, now: Instant)
        requires
            now.in_range(),
            old(self)@.wf(),
        ensures
            final(self)@ == old(self)@.on_timeout(now),
            final(self)@.wf(),
    {
        let ghost start = self@;
        let n = self.clients.len();
        for i in 0..n
            invariant
                now.in_range(),
                n == start.clients.len(),
                self@.wf(),
                self@.clients.len() == n,
                self@ == start.on_timeout_upto(i as nat, now),
        {
            self.tick(i, now);
        }
    }

    // --- audio ------------------------------------------------------------

    /// Sends recorded frames on the active call, if it is connected.
    pub fn on_mic(&mut self, frames: &Vec<Vec<i16>>, now: Instant)
        requires
            now.in_range(),
            old(self)@.wf(),
        ensures
            final(self)@ == old(self)@.on_mic(frames_view(frames@), now),
            final(self)@.wf(),
    {
        if !self.active_up() {
            return;
        }
        if let Some((idx, call)) = self.active {
            let ghost m = self@;
            let ghost all = frames_view(frames@);
            let ghost c = m.clients[idx as int];
            assert(all.take(0) =~= Seq::empty());
            assert(m.clients.update(idx as int, c) =~= m.clients);
            for i in 0..frames.len()
                invariant
                    now.in_range(),
                    all == frames_view(frames@),
                    idx < m.clients.len(),
                    c == m.clients[idx as int],
                    self@.wf(),
                    self@ == m.with_client(
                        idx,
                        PhoneModel::voiced(c, call, all.take(i as int), now),
                    ),
            {
                let mut ulaw: Vec<u8> = Vec::new();
                g711::encode_block(frames[i].as_slice(), &mut ulaw);
                assert(ulaw@ =~= g711::ulaw_block(frames@[i as int]@));
                self.command(idx, Command::SendVoice { call, ulaw }, now);
                proof {
                    assert(all.take(i + 1).drop_last() =~= all.take(i as int));
                    assert(all.take(i + 1).last() == frames@[i as int]@);
                    assert(self@.clients =~= m.clients.update(
                        idx as int,
                        PhoneModel::voiced(c, call, all.take(i + 1), now),
                    ));
                }
            }
            assert(all.take(all.len() as int) =~= all);
            self.flush_tx(idx);
        }
    }

    /// Plays 20 ms of the active call: what the jitter buffer has, or the last
    /// frame once more and half as loud, or nothing.
    pub fn on_playout(&mut self)
        requires
            old(self)@.wf(),
        ensures
            final(self)@ == old(self)@.on_playout(),
            final(self)@.wf(),
    {
        if !self.active_up() {
            return;
        }
        match self.jb.pull() {
            Pull::Play(ulaw) => {
                let mut pcm: Vec<i16> = Vec::new();
                g711::decode_block(ulaw.as_slice(), &mut pcm);
                assert(pcm@ =~= g711::pcm_block(ulaw@));
                let again = pcm.clone();
                assert(again@ =~= pcm@);
                self.last_pcm = pcm;
                self.act(Action::Play(again));
            },
            Pull::Conceal => {
                if self.last_pcm.len() > 0 {
                    let pcm = fade(self.last_pcm.as_slice());
                    let again = pcm.clone();
                    assert(again@ =~= pcm@);
                    self.last_pcm = pcm;
                    self.act(Action::Play(again));
                }
            },
            Pull::Silence => {},
        }
    }

    // --- time -------------------------------------------------------------

    /// When the softphone has to be woken: when something falls due on an
    /// exchange, and in an hour at the latest.
    pub fn next_wake(&self, now: Instant) -> (r: Instant)
        requires
            now.in_range(),
        ensures
            r == now.after(LONGEST_SLEEP as int) || self@.has_timer(r),
            r.nanos <= now.after(LONGEST_SLEEP as int).nanos,
            self@.quiet_before(r),
    {
        let mut t = now.plus(LONGEST_SLEEP);
        for i in 0..self.clients.len()
            invariant
                now.in_range(),
                t == now.after(LONGEST_SLEEP as int) || self@.has_timer(t),
                t.nanos <= now.after(LONGEST_SLEEP as int).nanos,
                forall|j: int| 0 <= j < i ==> (#[trigger] self@.clients[j]).quiet_before(t),
        {
            assert(self@.clients[i as int] == self.clients@[i as int]@);
            if let Some(x) = self.clients[i].poll_timeout() {
                if x.nanos < t.nanos {
                    assert(self@.clients[i as int].has_timer(x));
                    t = x;
                }
            }
        }
        t
    }

    // --- calls of all exchanges -------------------------------------------

    /// All live calls: by exchange, then by call number.
    pub fn calls_index(&self) -> (r: Vec<(usize, u16)>)
        ensures
            r@ == self@.calls_index(),
            forall|n: int|
                0 <= n < r@.len() ==> (#[trigger] r@[n]).0 < self@.clients.len()
                    && self@.clients[r@[n].0 as int].calls.contains_key(r@[n].1),
    {
        let mut v: Vec<(usize, u16)> = Vec::new();
        for i in 0..self.clients.len()
            invariant
                v@ == calls_upto(self@.clients, i as nat),
                forall|n: int|
                    0 <= n < v@.len() ==> (#[trigger] v@[n]).0 < self@.clients.len()
                        && self@.clients[v@[n].0 as int].calls.contains_key(v@[n].1),
        {
            assert(self@.clients[i as int] == self.clients@[i as int]@);
            let ids = self.clients[i].call_ids();
            let ghost had = v@;
            let ghost mine = with_index(i, ids@);
            assert(had + mine.take(0) =~= had);
            for j in 0..ids.len()
                invariant
                    i < self@.clients.len(),
                    mine == with_index(i, ids@),
                    v@ == had + mine.take(j as int),
                    forall|k: u16| #[trigger]
                        ids@.contains(k) <==> self@.clients[i as int].calls.contains_key(k),
                    forall|n: int|
                        0 <= n < v@.len() ==> (#[trigger] v@[n]).0 < self@.clients.len()
                            && self@.clients[v@[n].0 as int].calls.contains_key(v@[n].1),
            {
                assert(ids@.contains(ids@[j as int]));
                v.push((i, ids[j]));
                assert((had + mine.take(j as int)).push((i, ids@[j as int])) =~= had + mine.take(
                    j + 1,
                ));
            }
            assert(mine.take(ids@.len() as int) =~= mine);
        }
        assert(self.clients@.len() == self@.clients.len());
        v
    }

    /// The first inbound call that rings, on any exchange.
    pub fn find_ringing(&self) -> (r: Option<(usize, u16)>)
        ensures
            r == self@.find_ringing(),
            r is Some ==> (r->0).0 < self@.clients.len() && self@.rings_inbound(
                (r->0).0,
                (r->0).1,
            ),
    {
        let calls = self.calls_index();
        assert(calls@.skip(0) =~= calls@);
        for n in 0..calls.len()
            invariant
                calls@ == self@.calls_index(),
                forall|n: int|
                    0 <= n < calls@.len() ==> (#[trigger] calls@[n]).0 < self@.clients.len(),
                self@.find_ringing() == self@.first_ringing(calls@.skip(n as int)),
        {
            let (idx, call) = calls[n];
            assert(calls@[n as int].0 < self@.clients.len());
            assert(calls@.skip(n as int)[0] == calls@[n as int]);
            if let Some(c) = self.clients[idx].calls.get(&call) {
                if c.state == CallState::Ringing && c.dir == Dir::In {
                    return Some((idx, call));
                }
            }
            assert(calls@.skip(n as int).drop_first() =~= calls@.skip(n + 1));
        }
        None
    }

    // --- the list ---------------------------------------------------------

    /// The line of an exchange in the list.
    fn pbx_line(&self, i: usize) -> (r: String)
        requires
            i < self@.clients.len(),
            self@.clients.len() <= usize::MAX,
        ensures
            r@ == self@.pbx_line(i as int),
    {
        assert(self@.clients.len() == self.clients@.len());
        assert(self@.clients[i as int] == self.clients@[i as int]@);
        let mut s = if i == self.selected {
            " *".to_owned()
        } else {
            "  ".to_owned()
        };
        push_decimal(&mut s, i as u64 + 1);
        s.append(") ");
        s.append(self.clients[i].name());
        if self.clients[i].is_registered() {
            s.append(" [OK]");
        } else {
            s.append(" [--]");
        }
        s
    }

    /// The line of a call in the list.
    fn call_line(&self, n: usize, idx: usize, call: u16) -> (r: String)
        requires
            idx < self@.clients.len(),
            n < usize::MAX,
        ensures
            r@ == self@.call_line(n as int, idx, call),
    {
        assert(self@.clients.len() == self.clients@.len());
        assert(self@.clients[idx as int] == self.clients@[idx as int]@);
        let mut s = " ".to_owned();
        push_decimal(&mut s, n as u64 + 1);
        s.append(") [");
        s.append(self.clients[idx].name());
        s.append("] #");
        push_decimal(&mut s, call as u64);
        s.append(" ");
        match self.clients[idx].call_peer(call) {
            Some(peer) => s.append(peer),
            None => s.append("?"),
        }
        s.append(" — ");
        match self.state_of(idx, call) {
            Some(CallState::Trying) => s.append("in connessione"),
            Some(CallState::Ringing) => s.append("squilla"),
            Some(CallState::Up) => s.append("in linea"),
            Some(CallState::Held) => s.append("in attesa"),
            None => s.append("?"),
        }
        if self.is_active(idx, call) {
            s.append("  <== attiva");
        } else {
            s.append("");
        }
        s
    }

    /// Prints the exchanges and the calls.
    fn list(&mut self)
        requires
            old(self)@.wf(),
        ensures
            final(self)@ == old(self)@.say_all(old(self)@.list_lines()),
            final(self)@.wf(),
    {
        let ghost m = self@;
        let ghost no_lines = Seq::<Seq<char>>::empty();
        assert(self@ =~= m.say_all(no_lines));
        self.say("--- PBX ---".to_owned());
        let ghost head = seq!["--- PBX ---"@];
        assert(self@ =~= m.say_all(head));
        let n = self.clients.len();
        assert(head + m.pbx_lines(0) =~= head);
        for i in 0..n
            invariant
                n == m.clients.len(),
                m.wf(),
                self@ == m.say_all(head + m.pbx_lines(i as nat)),
        {
            let line = self.pbx_line(i);
            let ghost before = self@;
            self.say(line);
            proof {
                assert(line@ == m.pbx_line(i as int)) by {
                    assert(before.pbx_line(i as int) == m.pbx_line(i as int));
                }
                lemma_say_all_push(m, head + m.pbx_lines(i as nat), line@);
                assert((head + m.pbx_lines(i as nat)).push(line@) =~= head + m.pbx_lines(
                    (i + 1) as nat,
                ));
            }
        }
        let ghost upper = head + m.pbx_lines(n as nat);
        let calls = self.calls_index();
        assert(calls@ == m.calls_index());
        if calls.len() == 0 {
            self.say("--- nessuna chiamata in corso ---".to_owned());
            proof {
                let line = "--- nessuna chiamata in corso ---"@;
                lemma_say_all_push(m, upper, line);
                assert(upper.push(line) =~= upper + seq![line]);
            }
        } else {
            self.say("--- chiamate (premi il numero per renderla attiva) ---".to_owned());
            let ghost title = seq!["--- chiamate (premi il numero per renderla attiva) ---"@];
            proof {
                lemma_say_all_push(m, upper, title[0]);
                assert(upper.push(title[0]) =~= upper + title);
                assert((upper + title) + m.call_lines(calls@).take(0) =~= upper + title);
            }
            for k in 0..calls.len()
                invariant
                    m.wf(),
                    calls@ == m.calls_index(),
                    forall|k: int|
                        0 <= k < calls@.len() ==> (#[trigger] calls@[k]).0 < m.clients.len(),
                    self@ == m.say_all((upper + title) + m.call_lines(calls@).take(k as int)),
            {
                let (idx, call) = calls[k];
                assert(calls@[k as int].0 < m.clients.len());
                let ghost before = self@;
                let line = self.call_line(k, idx, call);
                self.say(line);
                proof {
                    assert(before.call_line(k as int, idx, call) == m.call_line(
                        k as int,
                        idx,
                        call,
                    ));
                    let lines = m.call_lines(calls@);
                    lemma_say_all_push(m, (upper + title) + lines.take(k as int), line@);
                    assert(((upper + title) + lines.take(k as int)).push(line@) =~= (upper + title)
                        + lines.take(k + 1));
                }
            }
            proof {
                let lines = m.call_lines(calls@);
                assert((upper + title) + lines.take(calls@.len() as int) =~= upper + (title
                    + lines));
            }
        }
    }

    // --- the keyboard -----------------------------------------------------

    /// Carries out a line from the keyboard. `false` ends the program.
    pub fn dispatch(&mut self, line: &str, now: Instant) -> (r: bool)
        requires
            now.in_range(),
            old(self)@.wf(),
        ensures
            final(self)@ == old(self)@.on_words(words_of(line@), now),
            r == !PhoneModel::quits(words_of(line@)),
            final(self)@.wf(),
    {
        let list = words(line);
        self.on_words(list.as_slice(), now)
    }

    /// Carries out a line from the keyboard, given as its words. `false` ends
    /// the program.
    pub fn on_words(&mut self, words: &[String], now: Instant) -> (r: bool)
        requires
            now.in_range(),
            old(self)@.wf(),
        ensures
            final(self)@ == old(self)@.on_words(texts_view(words@), now),
            r == !PhoneModel::quits(texts_view(words@)),
            final(self)@.wf(),
    {
        let ghost list = texts_view(words@);
        let cmd = if words.len() == 0 {
            "".to_owned()
        } else {
            words[0].clone()
        };
        let from: usize = if words.len() == 0 {
            0
        } else {
            1
        };
        let ghost rest = if list.len() == 0 {
            Seq::empty()
        } else {
            list.skip(1)
        };
        assert(list.skip(from as int) =~= rest);
        proof {
            reveal_strlit("");
            reveal_strlit("q");
        }
        if same_text(cmd.as_str(), "q") {
            return false;
        }
        if same_text(cmd.as_str(), "l") {
            self.list();
        } else if same_text(cmd.as_str(), "p") {
            if words.len() > 1 {
                self.select(words[1].as_str());
            }
        } else if same_text(cmd.as_str(), "d") {
            let number = join_from(words, from, " ");
            self.dial(number, now);
        } else if same_text(cmd.as_str(), "a") {
            match self.find_ringing() {
                Some((idx, call)) => self.answer(idx, call, now),
                None => self.say("[!] nessuna chiamata che squilla".to_owned()),
            }
        } else if same_text(cmd.as_str(), "t") {
            let digits = join_from(words, from, "");
            self.send_digits(digits.as_str(), now);
        } else if same_text(cmd.as_str(), "h") {
            self.hangup(now);
        } else {
            self.pick_by_name(cmd.as_str(), now);
        }
        true
    }

    /// Selects an exchange by its number in the list.
    fn select(&mut self, word: &str)
        requires
            old(self)@.wf(),
        ensures
            final(self)@ == old(self)@.select(Some(word@)),
            final(self)@.wf(),
    {
        if let Some(n) = parse_number(word, usize::MAX as u64) {
            assert(self@.clients.len() == self.clients@.len());
            if n >= 1 && n <= self.clients.len() as u64 {
                let idx = (n - 1) as usize;
                assert(self@.clients[idx as int] == self.clients@[idx as int]@);
                let mut line = "[i] PBX selezionato: ".to_owned();
                line.append(self.clients[idx].name());
                self.selected = idx;
                self.say(line);
            }
        }
    }

    /// Dials a number on the selected exchange.
    fn dial(&mut self, number: String, now: Instant)
        requires
            now.in_range(),
            old(self)@.wf(),
        ensures
            final(self)@ == old(self)@.dial(number@, now),
            final(self)@.wf(),
    {
        if number.as_str().is_empty() {
            self.say("[!] uso: d <numero>".to_owned());
            return;
        }
        let idx = self.selected;
        assert(self@.clients.len() == self.clients@.len());
        assert(self@.clients[idx as int] == self.clients@[idx as int]@);
        if !self.clients[idx].is_registered() {
            let mut line = "[!] [".to_owned();
            line.append(self.clients[idx].name());
            line.append("] non registrato; provo lo stesso");
            self.say(line);
        }
        self.command(idx, Command::Dial { number }, now);
        self.settle(idx, now);
    }

    /// Answers a call.
    fn answer(&mut self, idx: usize, call: u16, now: Instant)
        requires
            now.in_range(),
            old(self)@.wf(),
            idx < old(self)@.clients.len(),
        ensures
            final(self)@ == old(self)@.answer(idx, call, now),
            final(self)@.wf(),
    {
        self.command(idx, Command::Answer { call }, now);
        self.settle(idx, now);
    }

    /// Sends digits on the active call.
    fn send_digits(&mut self, digits: &str, now: Instant)
        requires
            now.in_range(),
            old(self)@.wf(),
        ensures
            final(self)@ == old(self)@.send_digits(digits@, now),
            final(self)@.wf(),
    {
        if digits.is_empty() {
            self.say("[!] uso: t <cifre>   (0-9 * # A-D)".to_owned());
            return;
        }
        match self.active {
            Some((idx, call)) => {
                self.send_each(idx, call, digits, now);
                self.settle(idx, now);
                let mut line = "[i] DTMF inviati: ".to_owned();
                line.append(digits);
                self.say(line);
            },
            None => self.say("[!] nessuna chiamata attiva".to_owned()),
        }
    }

    /// Sends digits on a call, one by one.
    fn send_each(&mut self, idx: usize, call: u16, digits: &str, now: Instant)
        requires
            now.in_range(),
            old(self)@.wf(),
            idx < old(self)@.clients.len(),
        ensures
            final(self)@ == old(self)@.with_client(
                idx,
                PhoneModel::dialled(old(self)@.clients[idx as int], call, digits@, now),
            ),
            final(self)@.wf(),
    {
        let ghost m = self@;
        let ghost c = m.clients[idx as int];
        let list = chars_of(digits);
        assert(list@.take(0) =~= Seq::empty());
        assert(m.clients.update(idx as int, c) =~= m.clients);
        for i in 0..list.len()
            invariant
                now.in_range(),
                idx < m.clients.len(),
                c == m.clients[idx as int],
                self@.wf(),
                self@ == m.with_client(
                    idx,
                    PhoneModel::dialled(c, call, list@.take(i as int), now),
                ),
        {
            self.command(idx, Command::Dtmf { call, digit: list[i] }, now);
            proof {
                assert(list@.take(i + 1).drop_last() =~= list@.take(i as int));
                assert(self@.clients =~= m.clients.update(
                    idx as int,
                    PhoneModel::dialled(c, call, list@.take(i + 1), now),
                ));
            }
        }
        assert(list@.take(list@.len() as int) =~= list@);
    }

    /// Hangs up the active call.
    fn hangup(&mut self, now: Instant)
        requires
            now.in_range(),
            old(self)@.wf(),
        ensures
            final(self)@ == old(self)@.hangup(now),
            final(self)@.wf(),
    {
        match self.active {
            Some((idx, call)) => {
                self.command(idx, Command::Hangup { call }, now);
                self.settle(idx, now);
                self.active = None;
                self.act(Action::FlushAudio);
            },
            None => self.say("[!] nessuna chiamata attiva".to_owned()),
        }
    }

    /// Picks a call by its number in the list, with or without `#`.
    fn pick_by_name(&mut self, cmd: &str, now: Instant)
        requires
            now.in_range(),
            old(self)@.wf(),
        ensures
            ({
                let key = if cmd@.len() > 0 && cmd@[0] == '#' {
                    cmd@.drop_first()
                } else {
                    cmd@
                };
                final(self)@ == match number_upto(key, usize::MAX as u64) {
                    Some(n) => old(self)@.pick(n, now),
                    None => old(self)@.say("[!] comando sconosciuto: "@ + cmd@),
                }
            }),
            final(self)@.wf(),
    {
        let list = chars_of(cmd);
        let key = if list.len() > 0 && list[0] == '#' {
            let rest = text_from(vstd::slice::slice_subrange(list.as_slice(), 1, list.len()));
            assert(rest@ =~= cmd@.drop_first());
            rest
        } else {
            cmd.to_owned()
        };
        match parse_number(key.as_str(), usize::MAX as u64) {
            Some(n) => self.pick(n, now),
            None => {
                let mut line = "[!] comando sconosciuto: ".to_owned();
                line.append(cmd);
                self.say(line);
            },
        }
    }

    /// Picks a call by its number in the list.
    fn pick(&mut self, n: u64, now: Instant)
        requires
            now.in_range(),
            old(self)@.wf(),
        ensures
            final(self)@ == old(self)@.pick(n, now),
            final(self)@.wf(),
    {
        let calls = self.calls_index();
        if calls.len() == 0 {
            self.say("[!] nessuna chiamata in corso".to_owned());
        } else if n < 1 || n > calls.len() as u64 {
            let mut line = "[!] indice fuori range: usa 1..".to_owned();
            push_decimal(&mut line, calls.len() as u64);
            line.append(" ('l' per la lista)");
            self.say(line);
        } else {
            let (idx, call) = calls[(n - 1) as usize];
            assert(calls@[n - 1].0 < self@.clients.len());
            let rings = match self.state_of(idx, call) {
                Some(state) => state == CallState::Ringing,
                None => false,
            };
            if rings {
                self.answer(idx, call, now);
            } else {
                assert(self@.clients.len() == self.clients@.len());
                assert(self@.clients[idx as int] == self.clients@[idx as int]@);
                let mut line = "[i] attiva: [".to_owned();
                line.append(self.clients[idx].name());
                line.append("] #");
                push_decimal(&mut line, call as u64);
                self.make_active(idx, call, now);
                self.say(line);
            }
        }
    }
}

/// The line for an event, if there is one.
fn line_for(name: &str, ev: &Event) -> (r: Option<String>)
    ensures
        match event_line(name@, ev@) {
            Some(t) => r is Some && r->0@ == t,
            None => r is None,
        },
{
    let mut s = String::new();
    match ev {
        Event::Registered => {
            s = "[✓] [".to_owned();
            s.append(name);
            s.append("] REGISTRATO");
        },
        Event::RegisterLost { reason } => {
            s = "[!] [".to_owned();
            s.append(name);
            s.append("] registrazione persa: ");
            s.append(reason.as_str());
        },
        Event::Incoming { call, from, to } => {
            s = "[☎] [".to_owned();
            s.append(name);
            s.append("] CHIAMATA IN ARRIVO #");
            push_decimal(&mut s, *call as u64);
            s.append(" da '");
            s.append(from.as_str());
            s.append("' verso '");
            s.append(to.as_str());
            s.append("'  —  premi 'a' per rispondere");
        },
        Event::Dialing { call, to } => {
            s = "[>] [".to_owned();
            s.append(name);
            s.append("] chiamo '");
            s.append(to.as_str());
            s.append("' (#");
            push_decimal(&mut s, *call as u64);
            s.append(")");
        },
        Event::Ringing { call } => {
            s = "[i] [".to_owned();
            s.append(name);
            s.append("] #");
            push_decimal(&mut s, *call as u64);
            s.append(" sta squillando…");
        },
        Event::Answered { call } => {
            s = "[✓] [".to_owned();
            s.append(name);
            s.append("] #");
            push_decimal(&mut s, *call as u64);
            s.append(" connessa — audio attivo");
        },
        Event::Voice { .. } => {
            return None;
        },
        Event::Ended { call, reason } => {
            s = "[i] [".to_owned();
            s.append(name);
            s.append("] #");
            push_decimal(&mut s, *call as u64);
            s.append(" terminata: ");
            s.append(reason.as_str());
        },
        Event::Dtmf { call, digit } => {
            s = "[#] [".to_owned();
            s.append(name);
            s.append("] #");
            push_decimal(&mut s, *call as u64);
            s.append(" DTMF ricevuto: ");
            s.push(*digit);
        },
        Event::Log(text) => {
            s = "[i] [".to_owned();
            s.append(name);
            s.append("] ");
            s.append(text.as_str());
        },
    }
    Some(s)
}

} // verus!
