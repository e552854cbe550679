use iax2::client::{reconstruct_ts, CallState, RegState};
use iax2::client_model::CALLNO_REG;
use iax2::consts::{authmethod, control, frametype, iax, ie as iec};
use iax2::frame::is_full_frame;
use iax2::time::Instant;
use iax2::{ie, md5_response, Command, Config, Event, FullFrame, Ie, MiniFrame, PbxClient};

fn at(ms: u64) -> Instant {
    Instant::from_millis(1_000_000 + ms)
}

fn cfg() -> Config {
    Config::new("Test", "10001", "segreto")
}

/// All full frames that the client has to send.
fn drain_full(c: &mut PbxClient) -> Vec<FullFrame> {
    let mut v = Vec::new();
    while let Some(b) = c.poll_transmit() {
        if is_full_frame(&b) {
            if let Some(f) = FullFrame::decode(&b) {
                v.push(f);
            }
        }
    }
    v
}

#[test]
fn registration_handshake_with_calltoken() {
    let now = at(0);
    let mut c = PbxClient::new(cfg(), now);

    c.handle_timeout(now);
    let out = drain_full(&mut c);
    let regreq = out.iter().find(|f| f.subclass == iax::REGREQ).expect("REGREQ");
    assert_eq!(regreq.src_call, CALLNO_REG);
    assert!(ie::find(&regreq.ies, iec::CALLTOKEN).unwrap().data.is_empty(), "first token empty");

    let token = b"TOKEN123".to_vec();
    let tokframe = FullFrame::new(5, CALLNO_REG, 10, 0, 1, frametype::IAX, iax::CALLTOKEN, vec![Ie::new(iec::CALLTOKEN, token.clone())]);
    c.handle_input(&tokframe.encode(), now);
    let out = drain_full(&mut c);
    let regreq2 = out.iter().find(|f| f.subclass == iax::REGREQ).expect("REGREQ#2");
    assert_eq!(ie::find(&regreq2.ies, iec::CALLTOKEN).unwrap().data, token, "token incorporato");
    assert_eq!(regreq2.oseq, 0, "richiesta fresca: oseq azzerato");

    let regauth = FullFrame::new(
        5,
        CALLNO_REG,
        20,
        0,
        2,
        frametype::IAX,
        iax::REGAUTH,
        vec![Ie::u16(iec::AUTHMETHODS, authmethod::MD5), Ie::str(iec::CHALLENGE, "98765")],
    );
    c.handle_input(&regauth.encode(), now);
    let out = drain_full(&mut c);
    let authed = out.iter().find(|f| f.subclass == iax::REGREQ).expect("REGREQ con MD5");
    let md5 = ie::find(&authed.ies, iec::MD5_RESULT).expect("MD5_RESULT");
    assert_eq!(md5.as_str(), md5_response("98765", "segreto"));

    let regack = FullFrame::new(5, CALLNO_REG, 30, 1, 3, frametype::IAX, iax::REGACK, vec![Ie::u16(iec::REFRESH, 120)]);
    c.handle_input(&regack.encode(), now);
    assert!(c.is_registered());
    let evs: Vec<_> = std::iter::from_fn(|| c.poll_event()).collect();
    assert!(evs.iter().any(|e| matches!(e, Event::Registered)), "evento Registered");
}

#[test]
fn incoming_call_rings_then_answers_then_audio() {
    let now = at(0);
    let mut c = PbxClient::new(cfg(), now);
    c.reg_state = RegState::Registered;

    let new = FullFrame::new(
        42,
        0,
        100,
        0,
        0,
        frametype::IAX,
        iax::NEW,
        vec![Ie::str(iec::CALLING_NUMBER, "200"), Ie::str(iec::CALLED_NUMBER, "10001")],
    );
    c.handle_input(&new.encode(), now);

    let out = drain_full(&mut c);
    assert!(out.iter().any(|f| f.subclass == iax::ACCEPT), "ACCEPT");
    assert!(out.iter().any(|f| f.frametype == frametype::CONTROL && f.subclass == control::RINGING), "RINGING");
    let call = match c.poll_event() {
        Some(Event::Incoming { call, from, .. }) => {
            assert_eq!(from, "200");
            call
        }
        other => panic!("atteso Incoming, trovato {other:?}"),
    };
    assert_eq!(c.call_state(call), Some(CallState::Ringing));

    c.handle_command(Command::Answer { call }, now);
    let out = drain_full(&mut c);
    assert!(out.iter().any(|f| f.frametype == frametype::CONTROL && f.subclass == control::ANSWER), "ANSWER");
    assert!(std::iter::from_fn(|| c.poll_event()).any(|e| matches!(e, Event::Answered { .. })));
    assert_eq!(c.call_state(call), Some(CallState::Up));

    let mf = MiniFrame { src_call: 42, timestamp16: 20, payload: vec![0xFF; 160] };
    c.handle_input(&mf.encode(), now);
    let voice = std::iter::from_fn(|| c.poll_event()).find(|e| matches!(e, Event::Voice { .. }));
    assert!(voice.is_some(), "evento Voice dal mini-frame");

    c.handle_command(Command::SendVoice { call, ulaw: vec![0x7F; 160] }, now);
    let out = drain_full(&mut c);
    assert!(out.iter().any(|f| f.frametype == frametype::VOICE), "primo full VOICE");
}

#[test]
fn two_concurrent_calls_have_isolated_reliability() {
    let now = at(0);
    let mut c = PbxClient::new(cfg(), now);
    c.reg_state = RegState::Registered;

    for (src, caller) in [(42u16, "200"), (43u16, "201")] {
        let new = FullFrame::new(src, 0, 100, 0, 0, frametype::IAX, iax::NEW, vec![Ie::str(iec::CALLING_NUMBER, caller), Ie::str(iec::CALLED_NUMBER, "10001")]);
        c.handle_input(&new.encode(), now);
    }
    let calls: Vec<u16> = std::iter::from_fn(|| c.poll_event())
        .filter_map(|e| if let Event::Incoming { call, .. } = e { Some(call) } else { None })
        .collect();
    assert_eq!(calls.len(), 2, "due chiamate concorrenti");
    assert_ne!(calls[0], calls[1], "call number distinti");
    let _ = drain_full(&mut c);

    for &call in &calls {
        assert!(c.calls.get(&call).unwrap().leg.outstanding.len() >= 1, "finestra A/B non vuota");
    }

    let leg0 = &c.calls[&calls[0]].leg;
    let (l0, r0, iseq0) = (leg0.local, leg0.remote, leg0.oseq);
    let ack = FullFrame::new(r0, l0, 5, iseq0, 0, frametype::IAX, iax::ACK, vec![]);
    let before_b = c.calls[&calls[1]].leg.outstanding.len();
    c.handle_input(&ack.encode(), now);
    let after_b = c.calls[&calls[1]].leg.outstanding.len();
    assert_eq!(before_b, after_b, "l'ACK di A non tocca la finestra di B");
}

#[test]
fn qualify_pong_echoes_timestamp_and_rotates_callno() {
    let now = at(0);
    let mut c = PbxClient::new(cfg(), now);
    c.reg_state = RegState::Registered;

    let mut seen = Vec::new();
    for ts_poke in [14u32, 1000, 2000] {
        let poke = FullFrame::new(7, 0, ts_poke, 0, 0, frametype::IAX, iax::POKE, vec![]);
        c.handle_input(&poke.encode(), now);
        let out = drain_full(&mut c);
        let pong = out.iter().find(|f| f.subclass == iax::PONG).expect("PONG");
        assert_eq!(pong.timestamp, ts_poke, "LEZIONE 3: PONG riecheggia il ts del POKE");
        seen.push(pong.src_call);
    }
    assert!(seen[0] != seen[1] || seen[1] != seen[2], "il callno del PONG ruota");
}

#[test]
fn in_call_ping_gets_pong_on_active_call_not_new_callno() {
    let now = at(0);
    let mut c = PbxClient::new(cfg(), now);
    c.reg_state = RegState::Registered;

    let new = FullFrame::new(
        42,
        0,
        100,
        0,
        0,
        frametype::IAX,
        iax::NEW,
        vec![Ie::str(iec::CALLING_NUMBER, "200"), Ie::str(iec::CALLED_NUMBER, "10001")],
    );
    c.handle_input(&new.encode(), now);
    let _ = drain_full(&mut c);
    let call = match c.poll_event() {
        Some(Event::Incoming { call, .. }) => call,
        other => panic!("atteso Incoming, trovato {other:?}"),
    };
    c.handle_command(Command::Answer { call }, now);
    let _ = drain_full(&mut c);
    let _ = std::iter::from_fn(|| c.poll_event()).count();
    assert_eq!(c.call_state(call), Some(CallState::Up));

    let local_before = c.calls[&call].leg.local;
    let remote = c.calls[&call].leg.remote;

    let ping = FullFrame::new(remote, local_before, 5000, 3, 4, frametype::IAX, iax::PING, vec![]);
    c.handle_input(&ping.encode(), now);
    let out = drain_full(&mut c);

    let pong = out.iter().find(|f| f.subclass == iax::PONG).expect("PONG in risposta al PING in-call");
    assert_eq!(pong.timestamp, 5000, "il PONG riecheggia il ts del PING");
    assert_eq!(pong.src_call, local_before, "SCall del PONG = scall locale della call attiva, non un nuovo callno");
    assert_eq!(pong.dst_call, remote, "DCall del PONG = scall del peer");

    assert_eq!(c.calls.len(), 1, "nessuna call fantasma creata dal PING");
    assert_eq!(c.calls[&call].leg.local, local_before, "lo scall locale della call non cambia");
    assert_eq!(c.call_state(call), Some(CallState::Up), "la call resta Up");
}

#[test]
fn reconstruct_ts_handles_wrap() {
    assert_eq!(reconstruct_ts(0, 1234, false), 1234);
    assert_eq!(reconstruct_ts(0x0001_2000, 0x2050, true), 0x0001_2050);
    assert_eq!(reconstruct_ts(0x0001_FFF0, 0x0010, true), 0x0002_0010);
    assert_eq!(reconstruct_ts(0x0002_0010, 0xFFF0, true), 0x0001_FFF0);
}

#[test]
fn dtmf_send_and_receive() {
    let now = at(0);
    let mut c = PbxClient::new(cfg(), now);
    c.reg_state = RegState::Registered;
    let new = FullFrame::new(42, 0, 100, 0, 0, frametype::IAX, iax::NEW, vec![Ie::str(iec::CALLING_NUMBER, "200"), Ie::str(iec::CALLED_NUMBER, "10001")]);
    c.handle_input(&new.encode(), now);
    let call = std::iter::from_fn(|| c.poll_event())
        .find_map(|e| if let Event::Incoming { call, .. } = e { Some(call) } else { None })
        .expect("Incoming");
    c.handle_command(Command::Answer { call }, now);
    let _ = drain_full(&mut c);

    c.handle_command(Command::Dtmf { call, digit: '5' }, now);
    let out = drain_full(&mut c);
    let dtmf = out.iter().find(|f| f.frametype == frametype::DTMF).expect("frame DTMF");
    assert_eq!(dtmf.subclass, b'5');

    c.handle_command(Command::Dtmf { call, digit: 'Z' }, now);
    assert!(drain_full(&mut c).iter().all(|f| f.frametype != frametype::DTMF), "cifra invalida scartata");

    let rx = FullFrame::new(42, call, 200, 3, 3, frametype::DTMF, b'#', vec![]);
    c.handle_input(&rx.encode(), now);
    let got = std::iter::from_fn(|| c.poll_event())
        .find_map(|e| if let Event::Dtmf { digit, .. } = e { Some(digit) } else { None })
        .expect("Event::Dtmf");
    assert_eq!(got, '#');
}

#[test]
fn lagrq_on_call_leg_replies_lagrp_echoing_timestamp() {
    let now = at(0);
    let mut c = PbxClient::new(cfg(), now);
    c.reg_state = RegState::Registered;

    let new = FullFrame::new(42, 0, 100, 0, 0, frametype::IAX, iax::NEW, vec![Ie::str(iec::CALLING_NUMBER, "200"), Ie::str(iec::CALLED_NUMBER, "10001")]);
    c.handle_input(&new.encode(), now);
    let call = std::iter::from_fn(|| c.poll_event())
        .find_map(|e| if let Event::Incoming { call, .. } = e { Some(call) } else { None })
        .expect("Incoming");
    c.handle_command(Command::Answer { call }, now);
    let _ = drain_full(&mut c);

    let lagrq = FullFrame::new(42, call, 7777, 5, 5, frametype::IAX, iax::LAGRQ, vec![]);
    c.handle_input(&lagrq.encode(), now);
    let out = drain_full(&mut c);
    let lagrp = out.iter().find(|f| f.frametype == frametype::IAX && f.subclass == iax::LAGRP).expect("LAGRP");
    assert_eq!(lagrp.timestamp, 7777, "la LAGRP deve riecheggiare il ts della LAGRQ");
    assert_eq!(lagrp.iseq, lagrq.oseq.wrapping_add(1), "iseq della LAGRP = oseq LAGRQ + 1");
}
