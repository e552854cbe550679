use iax2::action::Action;
use iax2::calltest::{called_arg, CallTest};
use iax2::consts::{authmethod, control, frametype, iax, ie as iec};
use iax2::regdaemon::Daemon;
use iax2::regtest::Session;
use iax2::time::Instant;
use iax2::{ie, md5_response, FullFrame, Ie, MiniFrame};

fn at(ms: u64) -> Instant {
    Instant::from_millis(4_000_000 + ms)
}

fn frame(sc: u8, ies: Vec<Ie>) -> Vec<u8> {
    FullFrame::new(5, 1, 30, 1, 1, frametype::IAX, sc, ies).encode()
}

fn on_call(dst: u16, ft: u8, sc: u8) -> Vec<u8> {
    FullFrame::new(42, dst, 77, 1, 1, ft, sc, vec![]).encode()
}

fn of_session(s: &mut Session) -> Vec<Action> {
    std::iter::from_fn(|| s.poll_action()).collect()
}

fn of_test(t: &mut CallTest) -> Vec<Action> {
    std::iter::from_fn(|| t.poll_action()).collect()
}

fn of_daemon(d: &mut Daemon) -> Vec<Action> {
    std::iter::from_fn(|| d.poll_action()).collect()
}

fn lines(list: &[Action]) -> Vec<String> {
    list.iter()
        .filter_map(|a| match a {
            Action::Say(s) | Action::Warn(s) => Some(s.clone()),
            Action::Report { line, .. } => Some(line.clone()),
            _ => None,
        })
        .collect()
}

fn out(list: &[Action]) -> Vec<FullFrame> {
    list.iter()
        .filter_map(|a| match a {
            Action::Send { datagram, .. } | Action::Report { datagram, .. } => FullFrame::decode(datagram),
            _ => None,
        })
        .collect()
}

fn status(list: &[Action]) -> Option<i32> {
    list.iter().find_map(|a| if let Action::Exit(n) = a { Some(*n) } else { None })
}

#[test]
fn handshake_that_succeeds() {
    let mut s = Session::begin("100", "segreto", 60, at(0));
    let got = of_session(&mut s);
    assert_eq!(lines(&got), vec!["[>] REGREQ (init): oseq=0 iseq=0 dst_call=0 (23 byte)"]);
    s.on_datagram(&frame(iax::CALLTOKEN, vec![Ie::new(iec::CALLTOKEN, vec![1, 2])]), at(1));
    let got = of_session(&mut s);
    assert_eq!(
        lines(&got),
        vec!["[i] received call-token ricevuto (2 byte), resend REGREQ (refresh)", "[>] REGREQ (with call-token): oseq=0 iseq=0 dst_call=0 (25 byte)"]
    );
    s.on_datagram(&frame(iax::REGAUTH, vec![Ie::u16(iec::AUTHMETHODS, authmethod::MD5), Ie::str(iec::CHALLENGE, "9\"8")]), at(2));
    let got = of_session(&mut s);
    assert_eq!(lines(&got)[0], "[i] REGAUTH: methods=0x0002 challenge=Some(\"9\\\"8\")");
    let f = &out(&got)[0];
    assert_eq!(f.ies.iter().map(|i| i.kind).collect::<Vec<_>>(), vec![iec::USERNAME, iec::MD5_RESULT, iec::REFRESH, iec::CALLTOKEN]);
    assert_eq!(f.ies[1].as_str(), md5_response("9\"8", "segreto"));
    assert_eq!((f.dst_call, f.oseq, f.iseq), (5, 1, 2));
    s.on_datagram(&frame(iax::REGACK, vec![Ie::new(iec::DATETIME, vec![0; 4]), Ie::u16(iec::REFRESH, 90)]), at(3));
    let got = of_session(&mut s);
    assert_eq!(
        lines(&got),
        vec![
            "[\u{2713}] REGACK — registration success!",
            "    datetime IE: 4 byte",
            "    best refresh: 90s",
            "[>] ACK: oseq=2 iseq=2 dst_call=5 (12 byte)"
        ]
    );
    assert_eq!(status(&got), Some(0));
}

#[test]
fn handshake_that_fails() {
    let mut s = Session::begin("100", "segreto", 60, at(0));
    let _ = of_session(&mut s);
    s.on_datagram(&frame(iax::REGREJ, vec![Ie::str(iec::CAUSE, "no"), Ie::new(iec::CAUSECODE, vec![29])]), at(1));
    let got = of_session(&mut s);
    assert_eq!(lines(&got)[0], "[x] REGREJ — registration refused. cause=Some(\"no\") causecode=Some(29)");
    assert_eq!(lines(&got)[1], format!("    IE (types): {:?}", vec![iec::CAUSE, iec::CAUSECODE]));
    assert_eq!(status(&got), Some(1));

    s.on_datagram(&frame(iax::REGAUTH, vec![]), at(2));
    let got = of_session(&mut s);
    assert_eq!(
        lines(&got),
        vec!["[i] REGAUTH: methods=0x0000 challenge=None", "[x] il PBX non offre MD5 (questo spike fa solo MD5). methods=0x0000"]
    );
    assert_eq!(status(&got), Some(1));
    s.on_datagram(&frame(iax::REGAUTH, vec![Ie::u16(iec::AUTHMETHODS, authmethod::MD5)]), at(2));
    let got = of_session(&mut s);
    assert_eq!(lines(&got)[1], "[x] REGAUTH without CHALLENGE");
    assert_eq!(status(&got), Some(1));

    s.on_datagram(&frame(0x3c, vec![]), at(3));
    assert_eq!(lines(&of_session(&mut s)), vec!["[i] frame IAX subclass=0x3c (ignored)"]);
    s.on_datagram(&[0x80, 0, 0], at(3));
    assert_eq!(lines(&of_session(&mut s)), vec!["[!] full frame not decoded (3 byte)"]);
    s.on_datagram(&[0, 0, 0, 0], at(3));
    s.on_datagram(&on_call(1, frametype::CONTROL, 4), at(3));
    assert!(s.poll_action().is_none());
}

#[test]
fn handshake_without_an_answer() {
    let mut s = Session::begin("100", "segreto", 60, at(0));
    let first = out(&of_session(&mut s)).remove(0);
    for i in 1..5u64 {
        s.on_silence(at(1000 * i));
        let got = of_session(&mut s);
        let f = &out(&got)[0];
        assert!(f.retransmit);
        assert_eq!(f.timestamp, 1000 * i as u32);
        assert_eq!((f.oseq, &f.ies), (first.oseq, &first.ies));
        assert_eq!(lines(&got), vec!["[>] (retransmission): oseq=0 iseq=0 dst_call=0 (23 byte)"]);
    }
    s.on_silence(at(5000));
    let got = of_session(&mut s);
    assert_eq!(lines(&got), vec!["[x] no answer after 5 tries"]);
    assert_eq!(status(&got), Some(1));
}

#[test]
fn test_call_with_audio() {
    let mut t = CallTest::begin("100", "segreto", "*43", at(0));
    let got = of_test(&mut t);
    assert!(lines(&got)[0].starts_with("[>] NEW (initial) ("));
    let new = &out(&got)[0];
    assert_eq!(ie::find(&new.ies, iec::CAPABILITY).unwrap().as_u32(), Some(12));
    assert_eq!(ie::find(&new.ies, iec::CALLING_NAME).unwrap().as_str(), "iax2-spike");
    assert_eq!(ie::find(&new.ies, iec::CALLED_NUMBER).unwrap().as_str(), "*43");
    t.on_datagram(&frame(iax::CALLTOKEN, vec![Ie::new(iec::CALLTOKEN, vec![7])]), at(1));
    assert_eq!(ie::find(&out(&of_test(&mut t))[0].ies, iec::CALLTOKEN).unwrap().data, vec![7]);
    t.on_datagram(&frame(iax::AUTHREQ, vec![Ie::u16(iec::AUTHMETHODS, authmethod::MD5), Ie::str(iec::CHALLENGE, "1")]), at(2));
    assert_eq!(out(&of_test(&mut t))[0].ies[0].as_str(), md5_response("1", "segreto"));
    t.on_datagram(&frame(iax::ACCEPT, vec![Ie::u32(iec::FORMAT, 4)]), at(3));
    let got = of_test(&mut t);
    assert_eq!(lines(&got), vec!["[\u{2713}] ACCEPT format=Some(4)"]);
    assert_eq!(out(&got)[0].subclass, iax::ACK);
    t.on_mic(&vec![vec![0; 160]], at(4));
    assert!(t.poll_action().is_none());
    t.on_datagram(&on_call(1, frametype::CONTROL, control::RINGING), at(5));
    assert_eq!(lines(&of_test(&mut t)), vec!["[i] RINGING…"]);
    t.on_datagram(&on_call(1, frametype::CONTROL, control::ANSWER), at(6));
    assert!(t.answered);
    let _ = of_test(&mut t);
    t.on_mic(&vec![vec![0; 160], vec![0; 160]], at(7));
    let sizes: Vec<usize> = of_test(&mut t).iter().map(|a| if let Action::Send { datagram, .. } = a { datagram.len() } else { 0 }).collect();
    assert_eq!(sizes, vec![172, 164]);
    t.on_datagram(&MiniFrame { src_call: 42, timestamp16: 1, payload: vec![0x80] }.encode(), at(8));
    assert!(matches!(&of_test(&mut t)[..], [Action::Play(pcm)] if *pcm == vec![32124]));
    t.on_datagram(&FullFrame::new(42, 1, 9, 2, 1, frametype::VOICE, 8, vec![]).encode_media(&[0xFF]), at(9));
    let got = of_test(&mut t);
    assert_eq!(lines(&got), vec!["[!] voice non-ULAW: 0x08"]);
    assert!(got.iter().any(|a| matches!(a, Action::Play(pcm) if *pcm == vec![0])));
    t.on_datagram(&on_call(1, frametype::IAX, iax::PING), at(10));
    let pong = out(&of_test(&mut t)).remove(0);
    assert_eq!((pong.subclass, pong.timestamp, pong.dst_call), (iax::PONG, 77, 42));
    t.on_datagram(&on_call(1, frametype::IAX, iax::ACK), at(11));
    assert!(t.poll_action().is_none());
    t.on_datagram(&on_call(1, frametype::IAX, 0x3c), at(11));
    assert_eq!(lines(&of_test(&mut t)), vec!["[i] not processed ft=0x06 sc=0x3c"]);
    t.on_deadline(at(12));
    let got = of_test(&mut t);
    assert_eq!(lines(&got), vec!["[i] time out, HANGUP", "[i] End."]);
    assert_eq!(out(&got)[0].subclass, iax::HANGUP);
    assert_eq!(status(&got), Some(0));
}

#[test]
fn test_call_that_ends_early() {
    for (ft, sc, says) in [
        (frametype::CONTROL, control::BUSY, "[x] BUSY"),
        (frametype::IAX, iax::HANGUP, "[i] HANGUP"),
        (frametype::IAX, iax::REJECT, "[x] REJECT causecode=None"),
        (frametype::IAX, iax::AUTHREQ, "[x] no MD5"),
    ] {
        let mut t = CallTest::begin("100", "segreto", "*43", at(0));
        let _ = of_test(&mut t);
        t.on_datagram(&on_call(1, ft, sc), at(1));
        let got = of_test(&mut t);
        assert_eq!(lines(&got), vec![says, "[i] End."]);
        assert_eq!(status(&got), Some(0));
    }
    let mut t = CallTest::begin("100", "segreto", "*43", at(0));
    let _ = of_test(&mut t);
    t.on_datagram(&frame(iax::AUTHREQ, vec![Ie::u16(iec::AUTHMETHODS, authmethod::MD5)]), at(1));
    assert_eq!(lines(&of_test(&mut t))[0], "[x] no challenge");
    assert_eq!(called_arg(&["p".to_string()]), "*43");
    let args: Vec<String> = ["p", "h", "u", "s", "600"].iter().map(|s| s.to_string()).collect();
    assert_eq!(called_arg(&args), "600");
}

#[test]
fn daemon_registers_and_renews() {
    let mut d = Daemon::new("100", "segreto", 60, at(0));
    d.on_keepalive(at(0));
    assert!(d.poll_action().is_none());
    d.on_house(at(0));
    assert_eq!(lines(&of_daemon(&mut d)), vec!["[>] REGREQ (initial)"]);
    d.on_datagram(&frame(iax::CALLTOKEN, vec![Ie::new(iec::CALLTOKEN, vec![7])]), at(1));
    assert_eq!(ie::find(&out(&of_daemon(&mut d))[0].ies, iec::CALLTOKEN).unwrap().data, vec![7]);
    d.on_datagram(&frame(iax::REGAUTH, vec![]), at(2));
    assert_eq!(lines(&of_daemon(&mut d)), vec!["[x] no MD5 in REGAUTH"]);
    d.on_datagram(&frame(iax::REGAUTH, vec![Ie::u16(iec::AUTHMETHODS, authmethod::MD5)]), at(2));
    assert_eq!(lines(&of_daemon(&mut d)), vec!["[x] REGAUTH without challenge"]);
    d.on_datagram(&frame(iax::REGAUTH, vec![Ie::u16(iec::AUTHMETHODS, authmethod::MD5), Ie::str(iec::CHALLENGE, "1")]), at(2));
    assert_eq!(out(&of_daemon(&mut d))[0].ies[1].as_str(), md5_response("1", "segreto"));
    d.on_datagram(&frame(iax::REGACK, vec![Ie::u16(iec::REFRESH, 50000)]), at(3));
    let got = of_daemon(&mut d);
    assert_eq!(lines(&got), vec!["[\u{2713}] REGISTERED (refresh 50000s, next ~40000s)"]);
    assert_eq!(out(&got)[0].subclass, iax::ACK);
    assert_eq!(d.next_reg, at(3 + 40_000_000));
    d.on_keepalive(at(4));
    let poke = out(&of_daemon(&mut d)).remove(0);
    assert_eq!((poke.src_call, poke.subclass), (4, iax::POKE));
    d.on_house(at(3 + 40_000_000));
    assert_eq!(lines(&of_daemon(&mut d)), vec!["[>] REGREQ (refresh)"]);
    d.on_datagram(&frame(iax::REGREJ, vec![Ie::new(iec::CAUSECODE, vec![1])]), at(40_000_010));
    assert_eq!(lines(&of_daemon(&mut d)), vec!["[x] REGREJ causecode=Some(1) — I will retry "]);
    assert!(!d.registered);
    assert_eq!(d.next_reg, at(40_005_010));
    d.on_datagram(&frame(0x3c, vec![]), at(40_000_011));
    assert_eq!(lines(&of_daemon(&mut d)), vec!["[i] reg leg subclass=0x3c"]);
}

#[test]
fn daemon_gives_up_and_tries_again() {
    let mut d = Daemon::new("100", "segreto", 60, at(0));
    d.on_house(at(0));
    let first = of_daemon(&mut d);
    let bytes = |list: &[Action]| -> Vec<Vec<u8>> {
        list.iter().filter_map(|a| if let Action::Send { datagram, .. } = a { Some(datagram.clone()) } else { None }).collect()
    };
    for i in 1..=5u64 {
        d.on_house(at(700 * i - 1));
        assert!(d.poll_action().is_none());
        d.on_house(at(700 * i));
        assert_eq!(bytes(&of_daemon(&mut d)), bytes(&first));
    }
    d.on_house(at(4200));
    assert_eq!(lines(&of_daemon(&mut d)), vec!["[!] no ACK after 5 retransmissions"]);
    assert_eq!(d.next_reg, at(7200));
    d.on_house(at(7200));
    assert_eq!(lines(&of_daemon(&mut d)), vec!["[>] REGREQ (initial)"]);
}

#[test]
fn daemon_takes_one_call_at_a_time() {
    let mut d = Daemon::new("100", "segreto", 60, at(0));
    let mini = MiniFrame { src_call: 42, timestamp16: 1, payload: vec![0x80] }.encode();
    d.on_datagram(&mini, at(0));
    d.on_mic(&vec![vec![0; 160]], at(0));
    assert!(d.poll_action().is_none());
    let new = FullFrame::new(42, 0, 1, 0, 0, frametype::IAX, iax::NEW, vec![Ie::str(iec::CALLING_NUMBER, "333"), Ie::str(iec::CALLED_NUMBER, "100")]).encode();
    d.on_datagram(&new, at(1));
    let got = of_daemon(&mut d);
    assert_eq!(lines(&got), vec!["[\u{260E}] INCOMING CALL FROM '333' to '100'", "[\u{2713}] ANSWERED — audio on"]);
    assert_eq!(out(&got).iter().map(|f| (f.src_call, f.dst_call, f.oseq, f.subclass)).collect::<Vec<_>>(), vec![(2, 42, 0, iax::ACCEPT), (2, 42, 1, control::ANSWER)]);
    assert!(got.iter().any(|a| matches!(a, Action::FlushAudio)));
    d.on_datagram(&new, at(2));
    let got = of_daemon(&mut d);
    assert_eq!((out(&got)[0].src_call, out(&got)[0].subclass), (99, iax::REJECT));
    assert_eq!(out(&got)[0].ies[0].as_str(), "Busy");
    d.on_datagram(&mini, at(3));
    assert!(matches!(&of_daemon(&mut d)[..], [Action::Play(pcm)] if *pcm == vec![32124]));
    d.on_mic(&vec![vec![0; 160], vec![0; 160]], at(4));
    assert_eq!(of_daemon(&mut d).len(), 2);
    assert!(d.pending.is_some());
    d.on_datagram(&on_call(2, frametype::IAX, iax::ACK), at(5));
    assert!(d.pending.is_none());
    d.on_datagram(&on_call(2, frametype::CONTROL, control::RINGING), at(6));
    assert_eq!(out(&of_daemon(&mut d))[0].subclass, iax::ACK);
    d.on_datagram(&on_call(2, frametype::IAX, 0x3c), at(6));
    assert_eq!(lines(&of_daemon(&mut d)), vec!["[i] call leg ft=0x06 sc=0x3c"]);
    d.on_datagram(&on_call(2, frametype::IAX, iax::HANGUP), at(7));
    assert_eq!(lines(&of_daemon(&mut d)), vec!["[i] Call closed by remote party"]);
    assert!(d.call.is_none());
}

#[test]
fn daemon_answers_qualifies() {
    let mut d = Daemon::new("100", "segreto", 60, at(0));
    d.on_datagram(&FullFrame::new(9, 0, 123, 4, 0, frametype::IAX, iax::POKE, vec![]).encode(), at(1));
    let got = of_daemon(&mut d);
    assert_eq!(lines(&got), vec!["[i] qualify POKE dal PBX (src_call=9) -> PONG"]);
    let f = &out(&got)[0];
    assert_eq!((f.src_call, f.dst_call, f.timestamp, f.iseq, f.subclass), (3, 9, 123, 5, iax::PONG));
    d.on_datagram(&FullFrame::new(9, 7, 124, 4, 0, frametype::IAX, iax::PING, vec![]).encode(), at(2));
    let got = of_daemon(&mut d);
    assert_eq!(lines(&got), vec!["[i] qualify PING dal PBX (src_call=9) -> PONG"]);
    assert_eq!(out(&got)[0].src_call, 7);
    d.on_datagram(&on_call(300, frametype::IAX, iax::INVAL), at(3));
    assert!(d.poll_action().is_none());
    d.on_datagram(&on_call(300, frametype::CONTROL, 4), at(3));
    assert_eq!(lines(&of_daemon(&mut d)), vec!["[i] Out of leg frame: dst_call=300 ft=0x04 sc=0x04"]);
}
