//! What the softphone does with what its exchanges tell, with the keyboard, the
//! microphone and the loudspeaker, in terms of the commands that the exchanges
//! get and of what the program is asked to do.

use vstd::prelude::*;

use crate::action::ActionModel;
use crate::client::{commanded, Command};
use crate::client_model::{CallState, ClientModel, EventModel, RegState};
use crate::g711::{pcm_block, ulaw_block};
use crate::pcm::faded;
use crate::softphone_model::{PhoneModel, LONGEST_SLEEP};
use crate::text::decimal;
use crate::time::Instant;
use crate::words::{joined, number_upto};

verus! {

/// The exchange with all it had to send handed out.
pub open spec fn handed_out(c: ClientModel) -> ClientModel {
    ClientModel { out: Seq::empty(), ..c }
}

/// What an exchange has to send, as things to do.
pub open spec fn sendings(idx: usize, c: ClientModel) -> Seq<ActionModel> {
    c.out.map_values(|d: Seq<u8>| ActionModel::Send { pbx: idx, datagram: d })
}

/// Every datagram of an exchange goes to its own socket, in order.
pub proof fn law_datagrams_go_to_their_exchange(m: PhoneModel, idx: usize, i: int)
    requires
        idx < m.clients.len(),
    ensures
        m.flushed(idx).todo == m.todo + sendings(idx, m.clients[idx as int]),
        sendings(idx, m.clients[idx as int]).len() == m.clients[idx as int].out.len(),
        0 <= i < m.clients[idx as int].out.len() ==> sendings(idx, m.clients[idx as int])[i] == (
        ActionModel::Send { pbx: idx, datagram: m.clients[idx as int].out[i] }),
        m.flushed(idx) == (PhoneModel {
            todo: m.flushed(idx).todo,
            clients: m.clients.update(idx as int, handed_out(m.clients[idx as int])),
            ..m
        }),
{
}

// --- the active call ------------------------------------------------------------

/// The call that is active and up, if it is another than this one.
pub open spec fn has_to_wait(m: PhoneModel, idx: usize, call: u16, p: usize, pcall: u16) -> bool {
    &&& m.active == Some((p, pcall))
    &&& (p, pcall) != (idx, call)
    &&& m.clients[p as int].calls.contains_key(pcall)
    &&& m.clients[p as int].calls[pcall].state == CallState::Up
}

/// The exchange after a call was taken off hold, if it was on hold.
pub open spec fn off_hold(c: ClientModel, call: u16, now: Instant) -> ClientModel {
    if c.calls.contains_key(call) && c.calls[call].state == CallState::Held {
        commanded(c, Command::Unhold { call }, now)
    } else {
        c
    }
}

/// A call becomes the active one. The call that was active and up is put on
/// hold by a command to its exchange, and this one is taken off hold if it was
/// on hold. The buffer starts over if the call was not active already. What is
/// recorded and played is dropped, and then the exchanges concerned, the one
/// with the lower index first, send what they have. Nothing else changes.
pub proof fn law_becoming_active(
    m: PhoneModel,
    idx: usize,
    call: u16,
    p: usize,
    pcall: u16,
    now: Instant,
)
    requires
        m.wf(),
        idx < m.clients.len(),
    ensures
        ({
            let after = m.make_active(idx, call, now);
            let same = m.active == Some((idx, call));
            let me = m.clients[idx as int];
            let flush = m.todo.push(ActionModel::FlushAudio);
            &&& after.active == Some((idx, call))
            &&& after.selected == m.selected
            &&& after.jb == if same {
                m.jb
            } else {
                m.jb.cleared()
            }
            &&& after.last_pcm == if same {
                m.last_pcm
            } else {
                Seq::empty()
            }
            &&& has_to_wait(m, idx, call, p, pcall) && p != idx ==> {
                let a = commanded(m.clients[p as int], Command::Hold { call: pcall }, now);
                let b = off_hold(me, call, now);
                &&& after.clients == m.clients.update(p as int, handed_out(a)).update(
                    idx as int,
                    handed_out(b),
                )
                &&& p < idx ==> after.todo == flush + sendings(p, a) + sendings(idx, b)
                &&& p > idx ==> after.todo == flush + sendings(idx, b) + sendings(p, a)
            }
            &&& has_to_wait(m, idx, call, p, pcall) && p == idx ==> {
                let b = off_hold(
                    commanded(me, Command::Hold { call: pcall }, now),
                    call,
                    now,
                );
                &&& after.clients == m.clients.update(idx as int, handed_out(b))
                &&& after.todo == flush + sendings(idx, b)
            }
            &&& m.active is None || (m.active == Some((p, pcall)) && !has_to_wait(
                m,
                idx,
                call,
                p,
                pcall,
            )) ==> {
                let b = off_hold(me, call, now);
                &&& after.clients == m.clients.update(idx as int, handed_out(b))
                &&& after.todo == flush + sendings(idx, b)
            }
        }),
{
    let after = m.make_active(idx, call, now);
    let me = m.clients[idx as int];
    if has_to_wait(m, idx, call, p, pcall) {
        assert(p < m.clients.len());
        assert(m.displaced(idx, call) == Some((p, pcall)));
        let a = commanded(m.clients[p as int], Command::Hold { call: pcall }, now);
        if p != idx {
            let b = off_hold(me, call, now);
            assert(after.clients =~= m.clients.update(p as int, handed_out(a)).update(
                idx as int,
                handed_out(b),
            ));
        } else {
            let b = off_hold(a, call, now);
            assert(after.clients =~= m.clients.update(idx as int, handed_out(b)));
        }
    } else if m.active is None || m.active == Some((p, pcall)) {
        assert(m.displaced(idx, call) is None);
        let b = off_hold(me, call, now);
        assert(after.clients =~= m.clients.update(idx as int, handed_out(b)));
    }
}

// --- events -----------------------------------------------------------------------

/// Audio of the active call goes into the buffer, and the estimate is asked for
/// where the arrival can be measured; audio of any other call goes nowhere.
pub proof fn law_audio_of_the_active_call(
    m: PhoneModel,
    idx: usize,
    call: u16,
    ts: u32,
    ulaw: Seq<u8>,
    now: Instant,
)
    ensures
        ({
            let after = m.on_event(idx, EventModel::Voice { call, ts, ulaw }, now);
            &&& m.active != Some((idx, call)) ==> after == m
            &&& m.active == Some((idx, call)) ==> after == (PhoneModel {
                jb: m.jb.pushed(ts, ulaw, now),
                todo: match m.jb.deviation(ts, now) {
                    Some(ms) => m.todo.push(ActionModel::Estimate(ms)),
                    None => m.todo,
                },
                ..m
            })
        }),
{
    reveal(PhoneModel::on_event);
}

/// The end of a call is printed; if it was the active one, none is active any
/// more, the buffer starts over, and the audio is dropped. No exchange is
/// touched.
pub proof fn law_end_of_a_call(
    m: PhoneModel,
    idx: usize,
    call: u16,
    reason: Seq<char>,
    now: Instant,
)
    ensures
        ({
            let after = m.on_event(idx, EventModel::Ended { call, reason }, now);
            let line = ActionModel::Say(
                "[i] ["@ + m.clients[idx as int].cfg.name + "] #"@ + decimal(call as nat)
                    + " terminata: "@ + reason,
            );
            &&& m.active != Some((idx, call)) ==> after == (PhoneModel {
                todo: m.todo.push(line),
                ..m
            })
            &&& m.active == Some((idx, call)) ==> after == (PhoneModel {
                active: None,
                jb: m.jb.cleared(),
                last_pcm: Seq::empty(),
                todo: m.todo.push(line).push(ActionModel::FlushAudio),
                ..m
            })
        }),
{
    reveal(PhoneModel::on_event);
}

/// The phone after this line was printed and then this call became active.
pub open spec fn printed_then_active(
    m: PhoneModel,
    line: Seq<char>,
    idx: usize,
    call: u16,
    now: Instant,
) -> PhoneModel {
    PhoneModel { todo: m.todo.push(ActionModel::Say(line)), ..m }.make_active(idx, call, now)
}

/// A call that is connected is printed and becomes the active one.
pub proof fn law_connected_call_becomes_active(m: PhoneModel, idx: usize, call: u16, now: Instant)
    ensures
        m.on_event(idx, EventModel::Answered { call }, now) == printed_then_active(
            m,
            "[✓] ["@ + m.clients[idx as int].cfg.name + "] #"@ + decimal(call as nat)
                + " connessa — audio attivo"@,
            idx,
            call,
            now,
        ),
{
    reveal(PhoneModel::on_event);
}

/// Any other event is printed, with the name of its exchange and all that it
/// tells, and that is all.
pub proof fn law_other_events_are_printed(m: PhoneModel, idx: usize, ev: EventModel, now: Instant)
    requires
        !(ev is Voice) && !(ev is Ended) && !(ev is Answered),
    ensures
        ({
            let after = m.on_event(idx, ev, now);
            let name = m.clients[idx as int].cfg.name;
            let line = match ev {
                EventModel::Registered => "[✓] ["@ + name + "] REGISTRATO"@,
                EventModel::RegisterLost { reason } => "[!] ["@ + name
                    + "] registrazione persa: "@ + reason,
                EventModel::Incoming { call, from, to } => "[☎] ["@ + name
                    + "] CHIAMATA IN ARRIVO #"@ + decimal(call as nat) + " da '"@ + from
                    + "' verso '"@ + to + "'  —  premi 'a' per rispondere"@,
                EventModel::Dialing { call, to } => "[>] ["@ + name + "] chiamo '"@ + to + "' (#"@
                    + decimal(call as nat) + ")"@,
                EventModel::Ringing { call } => "[i] ["@ + name + "] #"@ + decimal(call as nat)
                    + " sta squillando…"@,
                EventModel::Dtmf { call, digit } => ("[#] ["@ + name + "] #"@ + decimal(
                    call as nat,
                ) + " DTMF ricevuto: "@).push(digit),
                EventModel::Log(text) => "[i] ["@ + name + "] "@ + text,
                _ => Seq::empty(),
            };
            after == (PhoneModel { todo: m.todo.push(ActionModel::Say(line)), ..m })
        }),
{
    reveal(PhoneModel::on_event);
}

/// What an exchange has to send goes out before what it has to tell is dealt
/// with, one event after the other, and nothing of it is left.
pub proof fn law_exchange_is_heard_out(
    m: PhoneModel,
    idx: usize,
    evs: Seq<EventModel>,
    ev: EventModel,
    now: Instant,
)
    requires
        idx < m.clients.len(),
    ensures
        ({
            let c = m.clients[idx as int];
            let quiet = PhoneModel {
                clients: m.clients.update(
                    idx as int,
                    ClientModel { out: Seq::empty(), events: Seq::empty(), ..c },
                ),
                todo: m.todo + sendings(idx, c),
                ..m
            };
            m.settled(idx, now) == quiet.on_events(idx, c.events, now)
        }),
        m.on_events(idx, Seq::empty(), now) == m,
        m.on_events(idx, evs.push(ev), now) == m.on_events(idx, evs, now).on_event(idx, ev, now),
{
    reveal(PhoneModel::settled);
    let c = m.clients[idx as int];
    let quiet = PhoneModel {
        clients: m.clients.update(
            idx as int,
            ClientModel { out: Seq::empty(), events: Seq::empty(), ..c },
        ),
        todo: m.todo + sendings(idx, c),
        ..m
    };
    let f = m.flushed(idx);
    assert(f.with_client(
        idx,
        ClientModel { events: Seq::empty(), ..f.clients[idx as int] },
    ) =~= quiet);
    assert(evs.push(ev).drop_last() =~= evs);
}

/// With that exchange in its new state.
pub open spec fn with_exchange(m: PhoneModel, idx: usize, c: ClientModel) -> PhoneModel {
    PhoneModel { clients: m.clients.update(idx as int, c), ..m }
}

/// A datagram goes to the exchange that it comes from, which is then heard out.
pub proof fn law_datagram_goes_to_its_exchange(m: PhoneModel, idx: usize, dg: Seq<u8>, now: Instant)
    ensures
        m.on_datagram(idx, dg, now) == with_exchange(
            m,
            idx,
            m.clients[idx as int].on_datagram(dg, now),
        ).settled(idx, now),
{
}

/// No event of the list connects a call.
pub open spec fn connects_nothing(evs: Seq<EventModel>) -> bool {
    forall|i: int| 0 <= i < evs.len() ==> !((#[trigger] evs[i]) is Answered)
}

proof fn lemma_clients_stay(m: PhoneModel, idx: usize, evs: Seq<EventModel>, now: Instant)
    requires
        connects_nothing(evs),
    ensures
        m.on_events(idx, evs, now).clients == m.clients,
        m.on_events(idx, evs, now).selected == m.selected,
    decreases evs.len(),
{
    if evs.len() > 0 {
        let most = evs.drop_last();
        assert forall|i: int| 0 <= i < most.len() implies !((#[trigger] most[i]) is Answered) by {
            assert(most[i] == evs[i]);
        }
        lemma_clients_stay(m, idx, most, now);
        assert(!(evs[evs.len() - 1] is Answered));
        reveal(PhoneModel::on_event);
    }
}

proof fn lemma_settled_clients(m: PhoneModel, idx: usize, now: Instant)
    requires
        idx < m.clients.len(),
        connects_nothing(m.clients[idx as int].events),
    ensures
        m.settled(idx, now).clients == m.clients.update(
            idx as int,
            ClientModel { out: Seq::empty(), events: Seq::empty(), ..m.clients[idx as int] },
        ),
        m.settled(idx, now).selected == m.selected,
{
    law_exchange_is_heard_out(m, idx, Seq::empty(), EventModel::Registered, now);
    let c = m.clients[idx as int];
    let quiet = PhoneModel {
        clients: m.clients.update(
            idx as int,
            ClientModel { out: Seq::empty(), events: Seq::empty(), ..c },
        ),
        todo: m.todo + sendings(idx, c),
        ..m
    };
    lemma_clients_stay(quiet, idx, c.events, now);
}

/// Every exchange is told the time, each once, and all that it then has to send
/// and to tell is dealt with.
pub proof fn law_time_reaches_every_exchange(m: PhoneModel, now: Instant, i: int)
    requires
        m.wf(),
        0 <= i < m.clients.len(),
        forall|j: int| 0 <= j < m.clients.len() ==> (#[trigger] m.clients[j]).events.len() == 0,
    ensures
        m.on_timeout(now).clients.len() == m.clients.len(),
        m.on_timeout(now).clients[i] == (ClientModel {
            out: Seq::empty(),
            events: Seq::empty(),
            ..m.clients[i].on_timeout(now)
        }),
{
    lemma_time_upto(m, now, m.clients.len(), i);
}

proof fn lemma_time_upto(m: PhoneModel, now: Instant, n: nat, i: int)
    requires
        n <= m.clients.len() <= usize::MAX,
        0 <= i < m.clients.len(),
        forall|j: int| 0 <= j < m.clients.len() ==> (#[trigger] m.clients[j]).events.len() == 0,
    ensures
        m.on_timeout_upto(n, now).clients.len() == m.clients.len(),
        m.on_timeout_upto(n, now).clients[i] == if i < n {
            ClientModel {
                out: Seq::empty(),
                events: Seq::empty(),
                ..m.clients[i].on_timeout(now)
            }
        } else {
            m.clients[i]
        },
    decreases n,
{
    if n > 0 {
        let k = (n - 1) as usize;
        lemma_time_upto(m, now, (n - 1) as nat, i);
        lemma_time_upto(m, now, (n - 1) as nat, k as int);
        let b = m.on_timeout_upto((n - 1) as nat, now);
        assert(b.clients[k as int] == m.clients[k as int]);
        assert(m.clients[k as int].events.len() == 0);
        crate::registration_laws::law_time_connects_nothing(m.clients[k as int], now);
        let a = b.with_client(k, b.clients[k as int].on_timeout(now));
        assert(connects_nothing(a.clients[k as int].events));
        lemma_settled_clients(a, k, now);
    }
}

// --- audio ------------------------------------------------------------------------

/// The active call exists and is up.
pub open spec fn talks(m: PhoneModel) -> bool {
    match m.active {
        Some((idx, call)) => m.clients[idx as int].calls.contains_key(call)
            && m.clients[idx as int].calls[call].state == CallState::Up,
        None => false,
    }
}

/// 20 ms are played while the active call is up: what the buffer gives, decoded;
/// or, for a hole, the last frame once more and half as loud, if there is one;
/// or nothing. What is played is the last frame from then on.
pub proof fn law_playing_a_frame(m: PhoneModel)
    ensures
        ({
            let after = m.on_playout();
            let (jb, pull) = m.jb.pulled();
            &&& !talks(m) ==> after == m
            &&& talks(m) && pull is Play ==> after == (PhoneModel {
                jb,
                last_pcm: pcm_block(pull->Play_0),
                todo: m.todo.push(ActionModel::Play(pcm_block(pull->Play_0))),
                ..m
            })
            &&& talks(m) && pull is Conceal && m.last_pcm.len() > 0 ==> after == (PhoneModel {
                jb,
                last_pcm: faded(m.last_pcm),
                todo: m.todo.push(ActionModel::Play(faded(m.last_pcm))),
                ..m
            })
            &&& talks(m) && (pull is Silence || pull is Conceal && m.last_pcm.len() == 0) ==> after
                == (PhoneModel { jb, ..m })
        }),
{
}

/// What the microphone records goes to the active call, frame by frame in their
/// order, each as audio of that call; then the exchange sends what it has.
/// Without an active call that is up, nothing is sent.
pub proof fn law_sending_the_microphone(
    m: PhoneModel,
    frames: Seq<Seq<i16>>,
    frame: Seq<i16>,
    c: ClientModel,
    call: u16,
    ulaw: Vec<u8>,
    now: Instant,
)
    requires
        m.wf(),
        ulaw@ == ulaw_block(frame),
    ensures
        PhoneModel::voiced(c, call, Seq::empty(), now) == c,
        PhoneModel::voiced(c, call, frames.push(frame), now) == commanded(
            PhoneModel::voiced(c, call, frames, now),
            Command::SendVoice { call, ulaw },
            now,
        ),
        !talks(m) ==> m.on_mic(frames, now) == m,
        talks(m) ==> ({
            let (idx, k) = m.active->0;
            let d = PhoneModel::voiced(m.clients[idx as int], k, frames, now);
            m.on_mic(frames, now) == (PhoneModel {
                clients: m.clients.update(idx as int, handed_out(d)),
                todo: m.todo + sendings(idx, d),
                ..m
            })
        }),
{
    assert(frames.push(frame).drop_last() =~= frames);
    if talks(m) {
        let (idx, k) = m.active->0;
        let d = PhoneModel::voiced(m.clients[idx as int], k, frames, now);
        assert(m.on_mic(frames, now).clients =~= m.clients.update(idx as int, handed_out(d)));
    }
}

/// The phone wakes up at the first timer of any exchange, and sleeps at most an
/// hour.
pub proof fn law_first_timer_of_all(m: PhoneModel, t: Instant, i: int)
    requires
        m.quiet_before(t),
        0 <= i < m.clients.len(),
    ensures
        LONGEST_SLEEP == 3_600_000_000_000,
        m.clients[i].quiet_before(t),
        m.has_timer(t) ==> exists|j: int|
            0 <= j < m.clients.len() && (#[trigger] m.clients[j]).has_timer(t),
{
}

// --- the keyboard -------------------------------------------------------------------

/// `q` ends the program and does nothing else; nothing else ends it.
pub proof fn law_key_q(m: PhoneModel, words: Seq<Seq<char>>, now: Instant)
    ensures
        PhoneModel::quits(words) <==> words.len() > 0 && words[0] == seq!['q'],
        PhoneModel::quits(words) ==> m.on_words(words, now) == m,
{
    reveal_strlit("q");
    assert("q"@ =~= seq!['q']);
}

/// `p n` selects the `n`-th exchange, counted from one, and prints its name; a
/// number out of range, or none, does nothing.
pub proof fn law_key_p(m: PhoneModel, words: Seq<Seq<char>>, now: Instant)
    requires
        m.wf(),
        words.len() > 0,
        words[0] == seq!['p'],
    ensures
        ({
            let after = m.on_words(words, now);
            let n = number_upto(words[1], usize::MAX as u64);
            let good = words.len() > 1 && n is Some && 1 <= n->0 <= m.clients.len();
            &&& !good ==> after == m
            &&& good ==> after == (PhoneModel {
                selected: (n->0 - 1) as usize,
                todo: m.todo.push(
                    ActionModel::Say(
                        "[i] PBX selezionato: "@ + m.clients[n->0 as int - 1].cfg.name,
                    ),
                ),
                ..m
            })
        }),
{
    lemma_keys_differ();
    if words.len() > 1 {
        assert(words.skip(1)[0] == words[1]);
    }
}

proof fn lemma_keys_differ()
    ensures
        "q"@ == seq!['q'] && "l"@ == seq!['l'] && "p"@ == seq!['p'] && "d"@ == seq!['d'],
        "a"@ == seq!['a'] && "t"@ == seq!['t'] && "h"@ == seq!['h'],
        seq!['q'][0] != 'p',
{
    reveal_strlit("q");
    reveal_strlit("l");
    reveal_strlit("p");
    reveal_strlit("d");
    reveal_strlit("a");
    reveal_strlit("t");
    reveal_strlit("h");
    assert("q"@ =~= seq!['q'] && "l"@ =~= seq!['l'] && "p"@ =~= seq!['p'] && "d"@ =~= seq!['d']);
    assert("a"@ =~= seq!['a'] && "t"@ =~= seq!['t'] && "h"@ =~= seq!['h']);
    assert(seq!['q'][0] == 'q' && seq!['l'][0] == 'l' && seq!['p'][0] == 'p' && seq!['d'][0] == 'd'
        && seq!['a'][0] == 'a' && seq!['t'][0] == 't' && seq!['h'][0] == 'h');
}

/// `d number` dials on the selected exchange the words behind it, with one space
/// between two, and the exchange is heard out; if it is not registered, this is
/// printed first. Without a number only the usage is printed.
pub proof fn law_key_d(m: PhoneModel, words: Seq<Seq<char>>, number: String, now: Instant)
    requires
        m.wf(),
        words.len() > 0,
        words[0] == seq!['d'],
        number@ == joined(words.skip(1), " "@),
    ensures
        ({
            let after = m.on_words(words, now);
            let c = m.clients[m.selected as int];
            let warned = if c.reg_state == RegState::Registered {
                m.todo
            } else {
                m.todo.push(
                    ActionModel::Say(
                        "[!] ["@ + c.cfg.name + "] non registrato; provo lo stesso"@,
                    ),
                )
            };
            &&& number@.len() == 0 ==> after == (PhoneModel {
                todo: m.todo.push(ActionModel::Say("[!] uso: d <numero>"@)),
                ..m
            })
            &&& number@.len() > 0 ==> after == with_exchange(
                PhoneModel { todo: warned, ..m },
                m.selected,
                commanded(c, Command::Dial { number }, now),
            ).settled(m.selected, now)
        }),
{
    lemma_keys_differ();
}

/// `a` answers the inbound call that rings and comes first, and its exchange is
/// heard out; without one this is printed.
pub proof fn law_key_a(m: PhoneModel, words: Seq<Seq<char>>, now: Instant)
    requires
        m.wf(),
        words.len() > 0,
        words[0] == seq!['a'],
    ensures
        ({
            let after = m.on_words(words, now);
            match m.find_ringing() {
                Some((idx, call)) => after == with_exchange(
                    m,
                    idx,
                    commanded(m.clients[idx as int], Command::Answer { call }, now),
                ).settled(idx, now),
                None => after == (PhoneModel {
                    todo: m.todo.push(ActionModel::Say("[!] nessuna chiamata che squilla"@)),
                    ..m
                }),
            }
        }),
{
    lemma_keys_differ();
}

/// `h` hangs up the active call and hears its exchange out; then no call is
/// active, and the audio is dropped. Without an active call this is printed.
pub proof fn law_key_h(m: PhoneModel, words: Seq<Seq<char>>, now: Instant)
    requires
        m.wf(),
        words.len() > 0,
        words[0] == seq!['h'],
    ensures
        ({
            let after = m.on_words(words, now);
            match m.active {
                Some((idx, call)) => {
                    let done = with_exchange(
                        m,
                        idx,
                        commanded(m.clients[idx as int], Command::Hangup { call }, now),
                    ).settled(idx, now);
                    after == (PhoneModel {
                        active: None,
                        todo: done.todo.push(ActionModel::FlushAudio),
                        ..done
                    })
                },
                None => after == (PhoneModel {
                    todo: m.todo.push(ActionModel::Say("[!] nessuna chiamata attiva"@)),
                    ..m
                }),
            }
        }),
{
    lemma_keys_differ();
}

/// `t digits` sends the digits, one after the other in their order, on the active
/// call, and hears its exchange out; the digits are printed. Without digits the
/// usage is printed, and without an active call this is.
pub proof fn law_key_t(
    m: PhoneModel,
    words: Seq<Seq<char>>,
    c: ClientModel,
    call: u16,
    digits: Seq<char>,
    digit: char,
    now: Instant,
)
    requires
        m.wf(),
        words.len() > 0,
        words[0] == seq!['t'],
    ensures
        PhoneModel::dialled(c, call, Seq::empty(), now) == c,
        PhoneModel::dialled(c, call, digits.push(digit), now) == commanded(
            PhoneModel::dialled(c, call, digits, now),
            Command::Dtmf { call, digit },
            now,
        ),
        ({
            let after = m.on_words(words, now);
            let keys = joined(words.skip(1), Seq::empty());
            &&& keys.len() == 0 ==> after == (PhoneModel {
                todo: m.todo.push(ActionModel::Say("[!] uso: t <cifre>   (0-9 * # A-D)"@)),
                ..m
            })
            &&& keys.len() > 0 && m.active is None ==> after == (PhoneModel {
                todo: m.todo.push(ActionModel::Say("[!] nessuna chiamata attiva"@)),
                ..m
            })
            &&& keys.len() > 0 && m.active is Some ==> {
                let (idx, k) = m.active->0;
                let done = with_exchange(
                    m,
                    idx,
                    PhoneModel::dialled(m.clients[idx as int], k, keys, now),
                ).settled(idx, now);
                after == (PhoneModel {
                    todo: done.todo.push(ActionModel::Say("[i] DTMF inviati: "@ + keys)),
                    ..done
                })
            }
        }),
{
    lemma_keys_differ();
    reveal_strlit("");
    assert(""@ =~= Seq::<char>::empty());
    assert(digits.push(digit).drop_last() =~= digits);
}

/// A number picks the call at that place of the list, counted from one, with or
/// without a `#` before it: a call that rings is answered, any other becomes the
/// active one, and this is printed. Out of range, or without calls, this is
/// printed and nothing else happens.
pub proof fn law_key_number(m: PhoneModel, words: Seq<Seq<char>>, n: u64, now: Instant)
    requires
        m.wf(),
        words.len() > 0,
        number_upto(words[0], usize::MAX as u64) == Some(n) || words[0].len() > 0 && words[0][0]
            == '#' && number_upto(words[0].drop_first(), usize::MAX as u64) == Some(n),
    ensures
        ({
            let after = m.on_words(words, now);
            let calls = m.calls_index();
            let said = after.todo[m.todo.len() as int];
            &&& n < 1 || n > calls.len() ==> said is Say && after == (PhoneModel {
                todo: m.todo.push(said),
                ..m
            })
            &&& 1 <= n <= calls.len() ==> {
                let (idx, call) = calls[n - 1];
                let c = m.clients[idx as int];
                &&& c.calls.contains_key(call) && c.calls[call].state == CallState::Ringing
                    ==> after == with_exchange(
                    m,
                    idx,
                    commanded(c, Command::Answer { call }, now),
                ).settled(idx, now)
                &&& !(c.calls.contains_key(call) && c.calls[call].state == CallState::Ringing) ==> {
                    let done = m.make_active(idx, call, now);
                    after == (PhoneModel {
                        todo: done.todo.push(
                            ActionModel::Say(
                                "[i] attiva: ["@ + c.cfg.name + "] #"@ + decimal(call as nat),
                            ),
                        ),
                        ..done
                    })
                }
            }
        }),
{
    lemma_keys_differ();
    let w = words[0];
    crate::text_laws::law_number_is_read(w, '0', 0);
    crate::text_laws::law_number_is_read(seq!['q'], '0', 0);
    crate::text_laws::law_number_is_read(seq!['l'], '0', 0);
    crate::text_laws::law_number_is_read(seq!['p'], '0', 0);
    crate::text_laws::law_number_is_read(seq!['d'], '0', 0);
    crate::text_laws::law_number_is_read(seq!['a'], '0', 0);
    crate::text_laws::law_number_is_read(seq!['t'], '0', 0);
    crate::text_laws::law_number_is_read(seq!['h'], '0', 0);
    assert(seq!['q'][0] == 'q' && seq!['l'][0] == 'l' && seq!['p'][0] == 'p' && seq!['d'][0] == 'd'
        && seq!['a'][0] == 'a' && seq!['t'][0] == 't' && seq!['h'][0] == 'h');
}

/// What cannot be understood is printed, and nothing else happens.
pub proof fn law_unknown_key(m: PhoneModel, words: Seq<Seq<char>>, now: Instant)
    requires
        words.len() > 0,
        forall|c: char|
            #![trigger seq![c]]
            c == 'q' || c == 'l' || c == 'p' || c == 'd' || c == 'a' || c == 't' || c == 'h'
                ==> words[0] != seq![c],
        number_upto(words[0], usize::MAX as u64) is None,
        words[0].len() > 0 && words[0][0] == '#' ==> number_upto(
            words[0].drop_first(),
            usize::MAX as u64,
        ) is None,
    ensures
        m.on_words(words, now) == (PhoneModel {
            todo: m.todo.push(ActionModel::Say("[!] comando sconosciuto: "@ + words[0])),
            ..m
        }),
{
    lemma_keys_differ();
}

/// `l` prints the list: every exchange with its number, its name and whether it
/// is registered, the selected one marked, and then every call, in the order in
/// which numbers pick them, with its exchange, its number, whom it is with and
/// its state, the active one marked.
pub proof fn law_key_l(m: PhoneModel, words: Seq<Seq<char>>, i: int, n: int, now: Instant)
    requires
        m.wf(),
        words.len() > 0,
        words[0] == seq!['l'],
    ensures
        ({
            let after = m.on_words(words, now);
            let calls = m.calls_index();
            let k = m.todo.len() as int;
            let e = m.clients.len() as int;
            &&& after == (PhoneModel { todo: after.todo, ..m })
            &&& after.todo.take(k) == m.todo
            &&& after.todo.len() == k + 2 + e + calls.len()
            &&& after.todo[k] == ActionModel::Say("--- PBX ---"@)
            &&& after.todo[k + 1 + e] == ActionModel::Say(
                if calls.len() == 0 {
                    "--- nessuna chiamata in corso ---"@
                } else {
                    "--- chiamate (premi il numero per renderla attiva) ---"@
                },
            )
            &&& 0 <= i < e ==> ({
                let c = m.clients[i];
                let marked = if i == m.selected {
                    " *"@
                } else {
                    "  "@
                };
                let registered = if c.reg_state == RegState::Registered {
                    " [OK]"@
                } else {
                    " [--]"@
                };
                after.todo[k + 1 + i] == ActionModel::Say(
                    marked + decimal((i + 1) as nat) + ") "@ + c.cfg.name + registered,
                )
            })
            &&& 0 <= n < calls.len() ==> ({
                let (idx, call) = calls[n];
                let c = m.clients[idx as int];
                let state = match c.calls[call].state {
                    CallState::Trying => "in connessione"@,
                    CallState::Ringing => "squilla"@,
                    CallState::Up => "in linea"@,
                    CallState::Held => "in attesa"@,
                };
                let marked = if m.active == Some((idx, call)) {
                    "  <== attiva"@
                } else {
                    ""@
                };
                &&& idx < e && c.calls.contains_key(call)
                &&& after.todo[k + 2 + e + n] == ActionModel::Say(
                    " "@ + decimal((n + 1) as nat) + ") ["@ + c.cfg.name + "] #"@ + decimal(
                        call as nat,
                    ) + " "@ + c.calls[call].peer + " — "@ + state + marked,
                )
            })
        }),
{
    lemma_keys_differ();
    let calls = m.calls_index();
    let after = m.on_words(words, now);
    assert(after.todo.take(m.todo.len() as int) =~= m.todo);
    if 0 <= n < calls.len() {
        assert(calls.contains(calls[n]));
        crate::softphone_laws::law_list_is_complete(m, calls[n].0, calls[n].1);
    }
}

/// A new phone has no active call, selects its first exchange, and has nothing
/// to do.
pub proof fn law_new_phone(clients: Seq<ClientModel>)
    ensures
        PhoneModel::new(clients).clients == clients,
        PhoneModel::new(clients).active is None,
        PhoneModel::new(clients).selected == 0,
        PhoneModel::new(clients).jb == crate::jitter::JitterModel::new(),
        PhoneModel::new(clients).last_pcm.len() == 0,
        PhoneModel::new(clients).todo.len() == 0,
{
}

} // verus!
