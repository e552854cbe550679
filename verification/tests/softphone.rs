use iax2::action::Action;
use iax2::client::{CallState, RegState};
use iax2::consts::{control, frametype, iax, ie as iec};
use iax2::softphone::Phone;
use iax2::time::Instant;
use iax2::{g711, Config, FullFrame, Ie, MiniFrame, PbxClient};

fn at(ms: u64) -> Instant {
    Instant::from_millis(9_000_000 + ms)
}

fn phone(names: &[&str]) -> Phone {
    let mut list = Vec::new();
    for n in names {
        let mut c = PbxClient::new(Config::new(n, "100", "s"), at(0));
        c.reg_state = RegState::Registered;
        list.push(c);
    }
    Phone::new(list)
}

fn actions(p: &mut Phone) -> Vec<Action> {
    let mut v = Vec::new();
    while let Some(a) = p.poll_action() {
        v.push(a);
    }
    v
}

fn said(list: &[Action]) -> Vec<String> {
    list.iter().filter_map(|a| if let Action::Say(s) = a { Some(s.clone()) } else { None }).collect()
}

fn sent(list: &[Action]) -> Vec<(usize, FullFrame)> {
    list.iter()
        .filter_map(|a| if let Action::Send { pbx, datagram } = a { Some((*pbx, FullFrame::decode(datagram).expect("full frame"))) } else { None })
        .collect()
}

fn incoming(p: &mut Phone, idx: usize, src: u16) {
    let new = FullFrame::new(src, 0, 1, 0, 0, frametype::IAX, iax::NEW, vec![Ie::str(iec::CALLING_NUMBER, "333"), Ie::str(iec::CALLED_NUMBER, "100")]);
    p.on_datagram(idx, &new.encode(), at(1));
}

#[test]
fn an_incoming_call_is_announced_and_answered() {
    let mut p = phone(&["Uno", "Due"]);
    incoming(&mut p, 1, 42);
    let got = actions(&mut p);
    assert_eq!(said(&got), vec!["[\u{260E}] [Due] CHIAMATA IN ARRIVO #16 da '333' verso '100'  —  premi 'a' per rispondere"]);
    assert_eq!(sent(&got).iter().map(|(i, f)| (*i, f.subclass)).collect::<Vec<_>>(), vec![(1, iax::ACCEPT), (1, control::RINGING)]);
    assert_eq!(p.find_ringing(), Some((1, 16)));
    assert!(p.dispatch("a", at(2)));
    let got = actions(&mut p);
    assert_eq!(said(&got), vec!["[\u{2713}] [Due] #16 connessa — audio attivo"]);
    assert_eq!(p.active, Some((1, 16)));
    assert!(got.iter().any(|a| matches!(a, Action::FlushAudio)));
    assert!(p.dispatch("a", at(3)));
    assert_eq!(said(&actions(&mut p)), vec!["[!] nessuna chiamata che squilla"]);
}

#[test]
fn an_outbound_call_that_rings_is_not_answered() {
    let mut p = phone(&["Uno"]);
    assert!(p.dispatch("d 200", at(1)));
    let ringing = FullFrame::new(41, 16, 1, 0, 1, frametype::CONTROL, control::RINGING, vec![]);
    p.on_datagram(0, &ringing.encode(), at(2));
    assert_eq!(p.clients[0].call_state(16), Some(CallState::Ringing));
    assert_eq!(p.find_ringing(), None);
    let _ = actions(&mut p);
    assert!(p.dispatch("a", at(3)));
    assert_eq!(said(&actions(&mut p)), vec!["[!] nessuna chiamata che squilla"]);
    incoming(&mut p, 0, 42);
    assert_eq!(p.clients[0].call_state(17), Some(CallState::Ringing));
    assert_eq!(p.find_ringing(), Some((0, 17)));
    let _ = actions(&mut p);
    assert!(p.dispatch("a", at(4)));
    assert_eq!(said(&actions(&mut p)), vec!["[\u{2713}] [Uno] #17 connessa — audio attivo"]);
    assert_eq!(p.active, Some((0, 17)));
    assert_eq!(p.clients[0].call_state(16), Some(CallState::Ringing));
    assert_eq!(p.find_ringing(), None);
}

#[test]
fn a_switch_keeps_the_depth_of_the_buffer() {
    let mut p = phone(&["Uno", "Due"]);
    incoming(&mut p, 0, 42);
    incoming(&mut p, 1, 43);
    assert!(p.dispatch("1", at(2)));
    p.jb.recompute_target(120);
    assert!(p.dispatch("2", at(3)));
    assert_eq!(p.active, Some((1, 16)));
    assert_eq!((p.jb.stats().target_ms, p.jb.stats().buffered), (120, 0));
}

#[test]
fn another_call_puts_the_first_on_hold() {
    let mut p = phone(&["Uno", "Due"]);
    incoming(&mut p, 0, 42);
    incoming(&mut p, 1, 43);
    assert_eq!(p.calls_index(), vec![(0, 16), (1, 16)]);
    assert!(p.dispatch("1", at(2)));
    assert_eq!(p.active, Some((0, 16)));
    let _ = actions(&mut p);
    assert!(p.dispatch("#2", at(3)));
    assert_eq!(p.active, Some((1, 16)));
    assert_eq!(p.clients[0].call_state(16), Some(CallState::Held));
    assert_eq!(p.clients[1].call_state(16), Some(CallState::Up));
    let got = actions(&mut p);
    assert_eq!(
        sent(&got).iter().map(|(i, f)| (*i, f.frametype, f.subclass)).collect::<Vec<_>>(),
        vec![(1, frametype::CONTROL, control::ANSWER), (0, frametype::CONTROL, control::HOLD)]
    );
    assert!(p.dispatch("1", at(4)));
    assert_eq!(p.clients[0].call_state(16), Some(CallState::Up));
    assert_eq!(p.clients[1].call_state(16), Some(CallState::Held));
    let got = actions(&mut p);
    assert_eq!(sent(&got).iter().map(|(i, f)| (*i, f.subclass)).collect::<Vec<_>>(), vec![(0, control::UNHOLD), (1, control::HOLD)]);
    assert_eq!(said(&got), vec!["[i] attiva: [Uno] #16"]);
}

#[test]
fn only_the_active_call_is_played() {
    let mut p = phone(&["Uno"]);
    incoming(&mut p, 0, 42);
    incoming(&mut p, 0, 43);
    assert!(p.dispatch("1", at(2)));
    let _ = actions(&mut p);
    let voice = |src: u16, ts: u16, b: u8| MiniFrame { src_call: src, timestamp16: ts, payload: vec![b; 2] }.encode();
    p.on_datagram(0, &voice(42, 100, 0x80), at(100));
    p.on_datagram(0, &voice(43, 100, 0x00), at(100));
    p.on_datagram(0, &voice(42, 120, 0x80), at(125));
    let got = actions(&mut p);
    assert!(matches!(got[..], [Action::Estimate(5)]));
    assert_eq!(p.jb.stats().buffered, 2);
    p.on_playout();
    let loud = g711::decode(0x80);
    assert!(matches!(&actions(&mut p)[..], [Action::Play(pcm)] if *pcm == vec![loud; 2]));
    p.on_datagram(0, &voice(42, 200, 0x80), at(200));
    let _ = actions(&mut p);
    p.on_playout();
    let _ = actions(&mut p);
    p.on_playout();
    assert!(matches!(&actions(&mut p)[..], [Action::Play(pcm)] if *pcm == vec![loud / 2; 2]));
    p.on_playout();
    assert!(matches!(&actions(&mut p)[..], [Action::Play(pcm)] if *pcm == vec![loud / 4; 2]));
}

#[test]
fn the_microphone_reaches_the_active_call() {
    let mut p = phone(&["Uno"]);
    p.on_mic(&vec![vec![0; 160]], at(1));
    assert!(p.poll_action().is_none());
    incoming(&mut p, 0, 42);
    assert!(p.dispatch("a", at(2)));
    let _ = actions(&mut p);
    p.on_mic(&vec![vec![0; 160], vec![0; 160]], at(30));
    let got = actions(&mut p);
    assert_eq!(got.len(), 2);
    assert!(matches!(&got[0], Action::Send { pbx: 0, datagram } if datagram.len() == 172 && datagram[12..] == vec![0xFF; 160][..]));
    assert!(matches!(&got[1], Action::Send { pbx: 0, datagram } if datagram.len() == 164));
    p.on_playout();
    assert!(p.poll_action().is_none());
}

#[test]
fn keyboard_of_a_quiet_phone() {
    let mut p = phone(&["Uno", "Due"]);
    p.clients[1].reg_state = RegState::Idle;
    for (line, says) in [
        ("h", "[!] nessuna chiamata attiva"),
        ("t 1", "[!] nessuna chiamata attiva"),
        ("t", "[!] uso: t <cifre>   (0-9 * # A-D)"),
        ("d", "[!] uso: d <numero>"),
        ("1", "[!] nessuna chiamata in corso"),
        ("what now", "[!] comando sconosciuto: what"),
        ("#x", "[!] comando sconosciuto: #x"),
        ("p 2", "[i] PBX selezionato: Due"),
    ] {
        assert!(p.dispatch(line, at(1)));
        assert_eq!(said(&actions(&mut p)), vec![says]);
    }
    for line in ["p", "p 0", "p 3", "p x"] {
        assert!(p.dispatch(line, at(1)));
        assert!(p.poll_action().is_none());
    }
    assert_eq!(p.selected, 1);
    assert!(!p.dispatch("q", at(1)));
    assert!(!p.on_words(&["q".to_string(), "x".to_string()], at(1)));
    assert!(p.on_words(&[], at(1)));
    assert_eq!(said(&actions(&mut p)), vec!["[!] comando sconosciuto: "]);
}

#[test]
fn dialling_and_hanging_up() {
    let mut p = phone(&["Uno", "Due"]);
    p.clients[1].reg_state = RegState::Idle;
    assert!(p.dispatch("p 2", at(1)));
    let _ = actions(&mut p);
    assert!(p.dispatch("d 12  34", at(2)));
    let got = actions(&mut p);
    assert_eq!(said(&got), vec!["[!] [Due] non registrato; provo lo stesso", "[>] [Due] chiamo '12 34' (#16)"]);
    assert_eq!(sent(&got)[0].0, 1);
    assert_eq!(sent(&got)[0].1.subclass, iax::NEW);
    p.on_datagram(1, &FullFrame::new(9, 16, 5, 0, 1, frametype::CONTROL, control::ANSWER, vec![]).encode(), at(3));
    assert_eq!(p.active, Some((1, 16)));
    let _ = actions(&mut p);
    assert!(p.dispatch("t 1 2#", at(4)));
    let got = actions(&mut p);
    assert_eq!(sent(&got).iter().map(|(_, f)| f.subclass).collect::<Vec<_>>(), vec![b'1', b'2', b'#']);
    assert_eq!(said(&got), vec!["[i] DTMF inviati: 12#"]);
    assert!(p.dispatch("h", at(5)));
    let got = actions(&mut p);
    assert_eq!(said(&got), vec!["[i] [Due] #16 terminata: local hangup"]);
    assert_eq!(p.active, None);
    assert!(p.dispatch("7", at(6)));
    assert_eq!(said(&actions(&mut p)), vec!["[!] nessuna chiamata in corso"]);
}

#[test]
fn the_list() {
    let mut p = phone(&["Uno", "Due"]);
    p.clients[1].reg_state = RegState::Idle;
    assert!(p.dispatch("l", at(1)));
    assert_eq!(said(&actions(&mut p)), vec!["--- PBX ---", " *1) Uno [OK]", "  2) Due [--]", "--- nessuna chiamata in corso ---"]);
    incoming(&mut p, 1, 42);
    assert!(p.dispatch("a", at(2)));
    incoming(&mut p, 1, 43);
    let _ = actions(&mut p);
    assert!(p.dispatch("l", at(3)));
    assert_eq!(
        said(&actions(&mut p))[3..],
        [
            "--- chiamate (premi il numero per renderla attiva) ---",
            " 1) [Due] #16 333 — in linea  <== attiva",
            " 2) [Due] #17 333 — squilla"
        ]
    );
    assert!(p.dispatch("3", at(4)));
    assert_eq!(said(&actions(&mut p)), vec!["[!] indice fuori range: usa 1..2 ('l' per la lista)"]);
}

#[test]
fn lines_of_other_events() {
    let mut p = phone(&["Uno"]);
    p.clients[0].reg_state = RegState::Idle;
    p.on_timeout(at(0));
    assert_eq!(said(&actions(&mut p)), vec!["[i] [Uno] REGREQ sended"]);
    p.on_datagram(0, &FullFrame::new(5, 1, 0, 0, 1, frametype::IAX, iax::REGACK, vec![]).encode(), at(1));
    assert_eq!(said(&actions(&mut p)), vec!["[\u{2713}] [Uno] REGISTRATO"]);
    p.on_datagram(0, &FullFrame::new(5, 1, 0, 1, 1, frametype::IAX, iax::REGREJ, vec![]).encode(), at(2));
    assert_eq!(said(&actions(&mut p)), vec!["[!] [Uno] registrazione persa: REGREJ causecode=None"]);
    assert!(p.dispatch("d 5", at(3)));
    let _ = actions(&mut p);
    p.on_datagram(0, &FullFrame::new(9, 16, 5, 0, 1, frametype::CONTROL, control::RINGING, vec![]).encode(), at(4));
    assert_eq!(said(&actions(&mut p)), vec!["[i] [Uno] #16 sta squillando…"]);
    p.on_datagram(0, &FullFrame::new(9, 16, 5, 1, 1, frametype::DTMF, b'7', vec![]).encode(), at(5));
    assert_eq!(said(&actions(&mut p)), vec!["[#] [Uno] #16 DTMF ricevuto: 7"]);
}

#[test]
fn the_phone_sleeps_until_the_first_timer() {
    let mut p = phone(&["Uno", "Due"]);
    for c in p.clients.iter_mut() {
        c.next_reg = at(50_000);
        c.next_keepalive = at(20_000);
    }
    assert_eq!(p.next_wake(at(0)), at(20_000));
    p.clients[0].next_reg = at(10_000_000);
    p.clients[0].next_keepalive = at(10_000_000);
    p.clients[1].next_reg = at(10_000_000);
    p.clients[1].next_keepalive = at(10_000_000);
    assert_eq!(p.next_wake(at(0)), at(3_600_000));
    p.on_timeout(at(9_999_999));
    assert!(p.poll_action().is_none());
}

#[test]
fn an_exchange_is_not_disturbed_by_another() {
    let mut p = phone(&["Uno", "Due"]);
    incoming(&mut p, 0, 42);
    let out = p.clients[0].calls[&16].leg.outstanding.len();
    incoming(&mut p, 1, 42);
    assert!(p.dispatch("2", at(5)));
    assert_eq!(p.clients[0].call_state(16), Some(CallState::Ringing));
    assert_eq!(p.clients[0].calls[&16].leg.outstanding.len(), out);
}
