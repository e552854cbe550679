use iax2::client::RegState;
use iax2::consts::{authmethod, frametype, iax, ie as iec};
use iax2::time::Instant;
use iax2::{ie, Command, Config, Event, FullFrame, Ie, PbxClient};

fn at(ms: u64) -> Instant {
    Instant::from_millis(3_000_000 + ms)
}

fn client() -> PbxClient {
    PbxClient::new(Config::new("Office", "100", "segreto"), at(0))
}

fn frames(c: &mut PbxClient) -> Vec<FullFrame> {
    let mut v = Vec::new();
    while let Some(b) = c.poll_transmit() {
        v.push(FullFrame::decode(&b).expect("full frame"));
    }
    v
}

fn reg(sc: u8, ies: Vec<Ie>) -> Vec<u8> {
    FullFrame::new(5, 1, 30, 1, 1, frametype::IAX, sc, ies).encode()
}

fn texts(c: &mut PbxClient) -> Vec<String> {
    let mut v = Vec::new();
    while let Some(e) = c.poll_event() {
        match e {
            Event::Log(s) => v.push(s),
            Event::RegisterLost { reason } => v.push(reason),
            Event::Registered => v.push("registered".to_string()),
            other => panic!("{other:?}"),
        }
    }
    v
}

#[test]
fn configuration_defaults() {
    let cfg = Config::new("Office", "100", "segreto");
    assert_eq!((cfg.name.as_str(), cfg.username.as_str(), cfg.secret.as_str()), ("Office", "100", "segreto"));
    assert_eq!((cfg.refresh, cfg.audio_format), (60, 4));
    let c = PbxClient::new(cfg, at(0));
    assert_eq!(c.name(), "Office");
    assert!(!c.is_registered());
    assert_eq!(c.active_calls(), 0);
    assert_eq!(c.poll_timeout(), Some(at(0)));
}

#[test]
fn the_first_request() {
    let mut c = client();
    c.handle_timeout(at(0));
    assert_eq!(texts(&mut c), vec!["REGREQ sended"]);
    let f = frames(&mut c).remove(0);
    assert_eq!((f.src_call, f.dst_call, f.oseq, f.timestamp), (1, 0, 0, 0));
    assert_eq!(f.ies.iter().map(|i| i.kind).collect::<Vec<_>>(), vec![iec::USERNAME, iec::REFRESH, iec::CALLTOKEN]);
    assert_eq!(ie::find(&f.ies, iec::REFRESH).unwrap().as_u16(), Some(60));
    assert_eq!(c.poll_timeout(), Some(at(700)));
    c.handle_timeout(at(100));
    assert!(c.poll_transmit().is_none());
}

#[test]
fn a_confirmed_registration_is_renewed_at_four_fifths() {
    let mut c = client();
    c.handle_timeout(at(0));
    let _ = frames(&mut c);
    let _ = texts(&mut c);
    c.handle_input(&reg(iax::REGACK, vec![Ie::u16(iec::REFRESH, 120)]), at(50));
    assert_eq!(texts(&mut c), vec!["registered"]);
    let ack = frames(&mut c).remove(0);
    assert_eq!((ack.subclass, ack.dst_call, ack.iseq), (iax::ACK, 5, 2));
    assert!(c.reg.outstanding.is_empty());
    assert_eq!(c.next_reg, at(50 + 96_000));
    assert_eq!(c.next_keepalive, at(50 + 15_000));
    assert_eq!(c.poll_timeout(), Some(at(15_050)));

    c.handle_timeout(at(15_049));
    assert!(c.poll_transmit().is_none());
    c.handle_timeout(at(15_050));
    let poke = frames(&mut c).remove(0);
    assert_eq!((poke.src_call, poke.dst_call, poke.subclass), (2, 0, iax::POKE));

    c.handle_timeout(at(96_050));
    let renewed: Vec<u8> = frames(&mut c).iter().map(|f| f.subclass).collect();
    assert_eq!(renewed, vec![iax::REGREQ]);
    assert!(!c.is_registered());
}

#[test]
fn a_refresh_of_zero_is_not_taken() {
    let mut c = client();
    c.handle_timeout(at(0));
    c.handle_input(&reg(iax::REGACK, vec![Ie::u16(iec::REFRESH, 0)]), at(0));
    assert_eq!(c.refresh, 60);
    assert_eq!(c.next_reg, at(48_000));
}

#[test]
fn a_refused_registration_is_tried_again() {
    let mut c = client();
    c.handle_timeout(at(0));
    let _ = frames(&mut c);
    let _ = texts(&mut c);
    c.handle_input(&reg(iax::REGREJ, vec![Ie::new(iec::CAUSECODE, vec![29])]), at(10));
    assert_eq!(texts(&mut c), vec!["REGREJ causecode=Some(29)"]);
    assert_eq!(c.reg_state, RegState::Idle);
    assert_eq!(frames(&mut c).remove(0).subclass, iax::ACK);
    c.handle_timeout(at(5_009));
    assert!(c.poll_transmit().is_none());
    c.handle_timeout(at(5_010));
    assert_eq!(frames(&mut c).remove(0).subclass, iax::REGREQ);
    assert_eq!(c.reg_state, RegState::Registering);
}

#[test]
fn challenges_that_cannot_be_answered() {
    let mut c = client();
    c.handle_timeout(at(0));
    let _ = frames(&mut c);
    let _ = texts(&mut c);
    c.handle_input(&reg(iax::REGAUTH, vec![Ie::str(iec::CHALLENGE, "1")]), at(1));
    assert_eq!(texts(&mut c), vec!["REGAUTH without MD5"]);
    c.handle_input(&reg(iax::REGAUTH, vec![Ie::u16(iec::AUTHMETHODS, authmethod::MD5)]), at(2));
    assert_eq!(texts(&mut c), vec!["REGAUTH without challenge"]);
    c.handle_input(&reg(0x2c, vec![]), at(3));
    assert_eq!(texts(&mut c), vec!["reg leg subclass=0x2c"]);
    assert!(c.poll_transmit().is_none());
}

#[test]
fn a_lost_registration_starts_over() {
    let mut c = client();
    c.handle_timeout(at(0));
    let _ = frames(&mut c);
    let _ = texts(&mut c);
    for i in 1..=5u64 {
        c.handle_timeout(at(700 * i));
        let again = frames(&mut c);
        assert_eq!(again.len(), 1);
        assert!(again[0].retransmit);
    }
    c.handle_timeout(at(4_200));
    assert_eq!(texts(&mut c), vec!["no ACK after retransmissions"]);
    assert!(c.reg.outstanding.is_empty());
    assert_eq!(c.next_reg, at(9_200));
    c.handle_timeout(at(9_200));
    assert_eq!(texts(&mut c), vec!["REGREQ sended"]);
}

#[test]
fn a_second_token_is_not_taken() {
    let mut c = client();
    c.handle_timeout(at(0));
    let token = |t: u8| reg(iax::CALLTOKEN, vec![Ie::new(iec::CALLTOKEN, vec![t])]);
    c.handle_input(&token(1), at(1));
    let _ = frames(&mut c);
    c.handle_input(&token(2), at(2));
    assert!(c.poll_transmit().is_none());
    assert_eq!(c.calltoken, Some(vec![1]));
}

#[test]
fn sleeping_until_the_timeout_misses_nothing() {
    let mut c = client();
    c.handle_timeout(at(0));
    let _ = frames(&mut c);
    let _ = texts(&mut c);
    let t = c.poll_timeout().expect("timer");
    let before = Instant { nanos: t.nanos - 1 };
    c.handle_timeout(before);
    assert!(c.poll_transmit().is_none());
    assert!(c.poll_event().is_none());
    assert_eq!(c.poll_timeout(), Some(t));
    c.handle_timeout(t);
    assert!(c.poll_transmit().is_some());
}

#[test]
fn a_second_look_at_the_clock_changes_nothing() {
    let mut c = client();
    c.handle_command(Command::Dial { number: "1".to_string() }, at(0));
    let mut now = 0;
    for _ in 0..40 {
        c.handle_timeout(at(now));
        let _ = frames(&mut c);
        while c.poll_event().is_some() {}
        let (state, ids, next) = (c.reg_state, c.call_ids(), c.poll_timeout());
        c.handle_timeout(at(now));
        assert!(c.poll_transmit().is_none());
        assert!(c.poll_event().is_none());
        assert_eq!((c.reg_state, c.call_ids(), c.poll_timeout()), (state, ids, next));
        now += 500;
    }
    assert_eq!(c.active_calls(), 0);
}

#[test]
fn a_registration_in_flight_past_its_time_is_not_started_again() {
    let mut c = client();
    c.handle_timeout(at(0));
    let _ = frames(&mut c);
    c.next_reg = at(0);
    c.handle_timeout(at(800));
    assert_eq!(frames(&mut c).len(), 1);
    c.handle_timeout(at(800));
    assert!(c.poll_transmit().is_none());
}
