use iax2::client::{reconstruct_ts, CallState, RegState};
use iax2::consts::{authmethod, control, frametype, iax, ie as iec};
use iax2::time::Instant;
use iax2::{ie, md5_response, Command, Config, Event, FullFrame, Ie, MiniFrame, PbxClient};

fn at(ms: u64) -> Instant {
    Instant::from_millis(7_000_000 + ms)
}

fn client(name: &str) -> PbxClient {
    let mut c = PbxClient::new(Config::new("Office", name, "segreto"), at(0));
    c.reg_state = RegState::Registered;
    c
}

fn frames(c: &mut PbxClient) -> Vec<FullFrame> {
    let mut v = Vec::new();
    while let Some(b) = c.poll_transmit() {
        v.push(FullFrame::decode(&b).expect("full frame"));
    }
    v
}

fn events(c: &mut PbxClient) -> Vec<Event> {
    let mut v = Vec::new();
    while let Some(e) = c.poll_event() {
        v.push(e);
    }
    v
}

fn carry(from: &mut PbxClient, to: &mut PbxClient, now: Instant) {
    while let Some(b) = from.poll_transmit() {
        to.handle_input(&b, now);
    }
}

fn reasons(c: &mut PbxClient) -> Vec<String> {
    events(c).into_iter().filter_map(|e| if let Event::Ended { reason, .. } = e { Some(reason) } else { None }).collect()
}

fn logs(c: &mut PbxClient) -> Vec<String> {
    events(c).into_iter().filter_map(|e| if let Event::Log(s) = e { Some(s) } else { None }).collect()
}

/// Two clients with a call between them that is up: the caller's number and the
/// callee's.
fn connected() -> (PbxClient, u16, PbxClient, u16) {
    let mut a = client("100");
    let mut b = client("200");
    a.handle_command(Command::Dial { number: "200".to_string() }, at(0));
    carry(&mut a, &mut b, at(1));
    let there = b.call_ids()[0];
    carry(&mut b, &mut a, at(2));
    carry(&mut a, &mut b, at(3));
    b.handle_command(Command::Answer { call: there }, at(4));
    carry(&mut b, &mut a, at(5));
    carry(&mut a, &mut b, at(6));
    let here = a.call_ids()[0];
    let _ = events(&mut a);
    let _ = events(&mut b);
    (a, here, b, there)
}

#[test]
fn a_dialled_call_rings_and_connects() {
    let mut a = client("100");
    let mut b = client("200");
    a.handle_command(Command::Dial { number: "200".to_string() }, at(0));
    assert_eq!(a.call_ids(), vec![16]);
    assert_eq!(a.call_state(16), Some(CallState::Trying));
    assert_eq!(a.call_peer(16), Some("200"));
    assert!(matches!(&events(&mut a)[..], [Event::Dialing { call: 16, to }] if to == "200"));
    carry(&mut a, &mut b, at(1));
    assert!(matches!(&events(&mut b)[..], [Event::Incoming { call: 16, from, to }] if from == "100" && to == "200"));
    assert_eq!(b.call_peer(16), Some("100"));
    carry(&mut b, &mut a, at(2));
    assert!(matches!(&events(&mut a)[..], [Event::Ringing { call: 16 }]));
    assert_eq!(a.call_state(16), Some(CallState::Ringing));
    b.handle_command(Command::Answer { call: 16 }, at(3));
    assert!(matches!(&events(&mut b)[..], [Event::Answered { call: 16 }]));
    carry(&mut b, &mut a, at(4));
    assert!(matches!(&events(&mut a)[..], [Event::Answered { call: 16 }]));
    assert_eq!(a.call_state(16), Some(CallState::Up));
    assert_eq!(b.call_state(16), Some(CallState::Up));
}

#[test]
fn elements_of_a_new() {
    let mut a = client("100");
    a.handle_command(Command::Dial { number: "200".to_string() }, at(5));
    let f = frames(&mut a).remove(0);
    assert_eq!((f.src_call, f.dst_call, f.oseq, f.iseq, f.timestamp), (16, 0, 0, 0, 5));
    assert_eq!(
        f.ies.iter().map(|i| i.kind).collect::<Vec<_>>(),
        vec![
            iec::VERSION,
            iec::CALLING_NUMBER,
            iec::CALLING_NAME,
            iec::USERNAME,
            iec::CAPABILITY,
            iec::FORMAT,
            iec::CALLED_NUMBER,
            iec::CALLTOKEN
        ]
    );
    assert_eq!(ie::find(&f.ies, iec::CALLING_NAME).unwrap().as_str(), "iax2");
    assert_eq!(ie::find(&f.ies, iec::VERSION).unwrap().as_u16(), Some(2));
    assert_eq!(ie::find(&f.ies, iec::FORMAT).unwrap().as_u32(), Some(4));
}

#[test]
fn a_token_repeats_the_new() {
    let mut a = client("100");
    a.handle_command(Command::Dial { number: "200".to_string() }, at(0));
    let first = frames(&mut a).remove(0);
    let tok = FullFrame::new(9, 16, 0, 3, 1, frametype::IAX, iax::CALLTOKEN, vec![Ie::new(iec::CALLTOKEN, vec![1, 2, 3])]);
    a.handle_input(&tok.encode(), at(10));
    let second = frames(&mut a).remove(0);
    assert_eq!((second.src_call, second.dst_call, second.oseq, second.iseq), (16, 0, 0, 0));
    assert_eq!(second.timestamp, 10);
    assert_eq!(second.ies[..7], first.ies[..7]);
    assert_eq!(second.ies[7].data, vec![1, 2, 3]);
    assert_eq!(a.calls[&16].leg.outstanding.len(), 1);
}

#[test]
fn audio_goes_full_first_and_mini_then() {
    let (mut a, here, mut b, there) = connected();
    a.handle_command(Command::SendVoice { call: here, ulaw: vec![1, 2] }, at(100));
    carry(&mut a, &mut b, at(101));
    assert!(matches!(&events(&mut b)[..], [Event::Voice { call, ts: 100, ulaw }] if *call == there && *ulaw == vec![1, 2]));
    a.handle_command(Command::SendVoice { call: here, ulaw: vec![3] }, at(120));
    let mini = a.poll_transmit().expect("mini frame");
    assert_eq!(mini, vec![0, 16, 0, 120, 3]);
    b.handle_input(&mini, at(121));
    assert!(matches!(&events(&mut b)[..], [Event::Voice { call, ts: 120, ulaw }] if *call == there && *ulaw == vec![3]));
}

#[test]
fn mini_timestamps_are_completed() {
    let (mut a, here, mut b, _) = connected();
    a.handle_command(Command::SendVoice { call: here, ulaw: vec![1] }, at(65_530));
    carry(&mut a, &mut b, at(65_531));
    a.handle_command(Command::SendVoice { call: here, ulaw: vec![2] }, at(65_550));
    carry(&mut a, &mut b, at(65_551));
    let ts: Vec<u32> = events(&mut b).into_iter().filter_map(|e| if let Event::Voice { ts, .. } = e { Some(ts) } else { None }).collect();
    assert_eq!(ts, vec![65_530, 65_550]);
}

#[test]
fn the_nearest_timestamp_is_taken() {
    for last in [0u32, 5, 0x7FFF, 0x8000, 0xFFFF, 0x1_0000, 0x1_8000, 0x1_8001, 0x7FFF_FFFF, 0xFFFE_8000, 0xFFFF_0000, 0xFFFF_8000, 0xFFFF_FFFF] {
        for ts16 in [0u16, 1, 5, 0x7FFF, 0x8000, 0x8001, 0xFFFF] {
            let full = reconstruct_ts(last, ts16, true);
            let nearest = (0..=0xFFFFu32).map(|h| h << 16 | ts16 as u32).min_by_key(|&t| (t.abs_diff(last), t));
            assert_eq!(Some(full), nearest, "{last:#x} {ts16:#x}");
        }
    }
    assert_eq!(reconstruct_ts(0x1_8000, 0, true), 0x1_0000);
}

#[test]
fn audio_of_a_call_that_is_not_up_is_dropped() {
    let mut b = client("200");
    let new = FullFrame::new(42, 0, 0, 0, 0, frametype::IAX, iax::NEW, vec![]);
    b.handle_input(&new.encode(), at(0));
    let _ = events(&mut b);
    let _ = frames(&mut b);
    let full = FullFrame::new(42, 16, 50, 1, 2, frametype::VOICE, 4, vec![]).encode_media(&[1, 2]);
    b.handle_input(&full, at(1));
    b.handle_input(&MiniFrame { src_call: 42, timestamp16: 70, payload: vec![3] }.encode(), at(2));
    b.handle_input(&MiniFrame { src_call: 43, timestamp16: 70, payload: vec![3] }.encode(), at(2));
    assert!(events(&mut b).is_empty());
    assert_eq!(frames(&mut b).len(), 1);
    b.handle_command(Command::SendVoice { call: 16, ulaw: vec![1] }, at(3));
    assert!(b.poll_transmit().is_none());
}

#[test]
fn hold_and_unhold() {
    let (mut a, here, _, _) = connected();
    let _ = frames(&mut a);
    a.handle_command(Command::Hold { call: here }, at(10));
    assert_eq!(a.call_state(here), Some(CallState::Held));
    let f = frames(&mut a).remove(0);
    assert_eq!((f.frametype, f.subclass), (frametype::CONTROL, control::HOLD));
    a.handle_command(Command::SendVoice { call: here, ulaw: vec![1] }, at(11));
    assert!(a.poll_transmit().is_none());
    a.handle_command(Command::Unhold { call: here }, at(12));
    assert_eq!(a.call_state(here), Some(CallState::Up));
    assert_eq!(frames(&mut a).remove(0).subclass, control::UNHOLD);
}

#[test]
fn digits_arrive_in_upper_case() {
    let (mut a, here, mut b, there) = connected();
    for d in ['0', '9', '*', '#', 'A', 'd', 'e', ' '] {
        a.handle_command(Command::Dtmf { call: here, digit: d }, at(10));
    }
    carry(&mut a, &mut b, at(11));
    let got: Vec<(u16, char)> = events(&mut b).into_iter().filter_map(|e| if let Event::Dtmf { call, digit } = e { Some((call, digit)) } else { None }).collect();
    assert_eq!(got, vec![(there, '0'), (there, '9'), (there, '*'), (there, '#'), (there, 'A'), (there, 'D')]);
}

#[test]
fn ends_of_a_call() {
    let (mut a, here, mut b, there) = connected();
    a.handle_command(Command::Hangup { call: here }, at(10));
    assert_eq!(reasons(&mut a), vec!["local hangup"]);
    assert_eq!(a.active_calls(), 0);
    carry(&mut a, &mut b, at(11));
    assert_eq!(reasons(&mut b), vec!["hangup by remote"]);
    assert_eq!(b.call_state(there), None);
    assert!(b.remote_index.is_empty());

    for (ft, sc, ies, reason) in [
        (frametype::CONTROL, control::BUSY, vec![], "busy"),
        (frametype::IAX, iax::REJECT, vec![], "refused causecode=None"),
        (frametype::IAX, iax::REJECT, vec![Ie::new(iec::CAUSECODE, vec![21])], "refused causecode=Some(21)"),
    ] {
        let mut c = client("100");
        c.handle_command(Command::Dial { number: "1".to_string() }, at(0));
        let _ = events(&mut c);
        let _ = frames(&mut c);
        c.handle_input(&FullFrame::new(5, 16, 9, 0, 1, ft, sc, ies).encode(), at(1));
        assert_eq!(reasons(&mut c), vec![reason]);
        assert_eq!(c.active_calls(), 0);
        assert_eq!(frames(&mut c).remove(0).subclass, iax::ACK);
    }
}

#[test]
fn commands_on_unknown_calls_do_nothing() {
    let mut c = client("100");
    for cmd in [
        Command::Answer { call: 16 },
        Command::Hangup { call: 16 },
        Command::Hold { call: 16 },
        Command::Unhold { call: 16 },
        Command::SendVoice { call: 16, ulaw: vec![1] },
        Command::Dtmf { call: 16, digit: '1' },
    ] {
        c.handle_command(cmd, at(0));
    }
    assert!(c.poll_transmit().is_none());
    assert!(c.poll_event().is_none());
    assert_eq!(c.call_peer(16), None);
}

#[test]
fn answering_an_outbound_call_does_nothing() {
    let mut c = client("100");
    c.handle_command(Command::Dial { number: "1".to_string() }, at(0));
    c.handle_input(&FullFrame::new(5, 16, 9, 0, 1, frametype::CONTROL, control::RINGING, vec![]).encode(), at(1));
    let _ = frames(&mut c);
    let _ = events(&mut c);
    c.handle_command(Command::Answer { call: 16 }, at(2));
    assert!(c.poll_transmit().is_none());
    assert_eq!(c.call_state(16), Some(CallState::Ringing));
}

#[test]
fn an_outbound_call_answers_a_challenge() {
    let mut c = client("100");
    c.handle_command(Command::Dial { number: "1".to_string() }, at(0));
    let _ = frames(&mut c);
    let _ = events(&mut c);
    let ask = |ies: Vec<Ie>| FullFrame::new(5, 16, 9, 0, 1, frametype::IAX, iax::AUTHREQ, ies).encode();
    c.handle_input(&ask(vec![]), at(1));
    assert_eq!(logs(&mut c), vec!["AUTHREQ without MD5"]);
    c.handle_input(&ask(vec![Ie::u16(iec::AUTHMETHODS, authmethod::MD5)]), at(2));
    assert_eq!(logs(&mut c), vec!["AUTHREQ eithout challenge"]);
    c.handle_input(&ask(vec![Ie::u16(iec::AUTHMETHODS, authmethod::MD5), Ie::str(iec::CHALLENGE, "42")]), at(3));
    let f = frames(&mut c).remove(0);
    assert_eq!(f.subclass, iax::AUTHREP);
    assert_eq!(f.ies.len(), 1);
    assert_eq!(f.ies[0].as_str(), md5_response("42", "segreto"));
}

#[test]
fn accept_sets_the_format() {
    let mut c = client("100");
    c.handle_command(Command::Dial { number: "1".to_string() }, at(0));
    c.handle_input(&FullFrame::new(5, 16, 9, 0, 1, frametype::IAX, iax::ACCEPT, vec![Ie::u32(iec::FORMAT, 8)]).encode(), at(1));
    assert_eq!(c.calls[&16].fmt, 8);
    c.handle_input(&FullFrame::new(5, 16, 9, 1, 1, frametype::CONTROL, control::ANSWER, vec![]).encode(), at(2));
    let _ = frames(&mut c);
    c.handle_command(Command::SendVoice { call: 16, ulaw: vec![1] }, at(3));
    let f = frames(&mut c).remove(0);
    assert_eq!((f.frametype, f.subclass), (frametype::VOICE, 8));
}

#[test]
fn lost_call_ends_after_five_retransmissions() {
    let mut c = client("100");
    c.next_reg = at(1_000_000);
    c.next_keepalive = at(1_000_000);
    c.handle_command(Command::Dial { number: "1".to_string() }, at(0));
    let first = c.poll_transmit().expect("NEW");
    let _ = events(&mut c);
    let mut now = 0;
    for _ in 0..5 {
        assert_eq!(c.poll_timeout(), Some(at(now + 700)));
        c.handle_timeout(at(now + 699));
        assert!(c.poll_transmit().is_none());
        now += 700;
        c.handle_timeout(at(now));
        let again = c.poll_transmit().expect("retransmission");
        let f = FullFrame::decode(&again).expect("full frame");
        assert!(f.retransmit);
        assert_eq!(again[3..], first[3..]);
        assert_eq!(again[2], first[2] | 0x80);
    }
    c.handle_timeout(at(now + 700));
    assert!(c.poll_transmit().is_none());
    assert_eq!(reasons(&mut c), vec!["reliability timeout"]);
    assert_eq!(c.active_calls(), 0);
}

#[test]
fn acknowledgements_are_cumulative() {
    let (mut a, here, _, _) = connected();
    a.handle_command(Command::Hold { call: here }, at(10));
    a.handle_command(Command::Unhold { call: here }, at(20));
    a.handle_command(Command::Hold { call: here }, at(30));
    let leg = &a.calls[&here].leg;
    let n = leg.outstanding.len();
    assert!(n >= 3);
    let (remote, next) = (leg.remote, leg.oseq);
    let middle = leg.outstanding[n - 2].oseq;
    a.handle_input(&FullFrame::new(remote, here, 1, 9, middle, frametype::IAX, iax::PONG, vec![]).encode(), at(40));
    assert_eq!(a.calls[&here].leg.outstanding.len(), 2);
    a.handle_input(&FullFrame::new(remote, here, 30, 9, 0, frametype::IAX, iax::ACK, vec![]).encode(), at(41));
    assert_eq!(a.calls[&here].leg.outstanding.len(), 1);
    a.handle_input(&FullFrame::new(remote, here, 1, 9, next, frametype::IAX, iax::PONG, vec![]).encode(), at(42));
    assert_eq!(a.calls[&here].leg.outstanding.len(), 0);
}

#[test]
fn call_numbers_are_free_and_in_range() {
    let mut c = client("100");
    c.callno_next = 0x1FFE;
    for _ in 0..3 {
        c.handle_command(Command::Dial { number: "1".to_string() }, at(0));
    }
    assert_eq!(c.call_ids(), vec![16, 0x1FFE, 0x1FFF]);
    c.callno_next = 16;
    c.handle_command(Command::Dial { number: "1".to_string() }, at(0));
    assert_eq!(c.call_ids(), vec![16, 17, 0x1FFE, 0x1FFF]);
}

#[test]
fn qualify_numbers_wrap_around() {
    let mut c = client("100");
    c.qualify_next = 0x2FFF;
    let mut seen = Vec::new();
    for sub in [iax::POKE, iax::PING] {
        c.handle_input(&FullFrame::new(7, 0, 77, 4, 0, frametype::IAX, sub, vec![]).encode(), at(0));
        let f = frames(&mut c).remove(0);
        assert_eq!((f.dst_call, f.oseq, f.iseq, f.timestamp, f.subclass), (7, 0, 5, 77, iax::PONG));
        seen.push(f.src_call);
    }
    assert_eq!(seen, vec![0x2FFF, 0x2000]);
}

#[test]
fn every_qualify_number_comes_before_the_first_comes_again() {
    let mut c = client("100");
    let mut seen = Vec::new();
    for _ in 0..4097 {
        c.handle_input(&FullFrame::new(7, 0, 77, 4, 0, frametype::IAX, iax::POKE, vec![]).encode(), at(0));
        seen.push(frames(&mut c).remove(0).src_call);
    }
    assert_eq!(seen[4096], seen[0]);
    seen.truncate(4096);
    seen.sort();
    assert_eq!(seen, (0x2000..=0x2FFF).collect::<Vec<u16>>());
}

#[test]
fn qualify_numbers_one_by_one() {
    let mut c = client("100");
    let mut seen: Vec<u16> = (0..4097).map(|_| c.next_qualify_callno()).collect();
    assert_eq!((seen[0], seen[1], seen[4095], seen[4096]), (0x2000, 0x2001, 0x2FFF, 0x2000));
    seen.truncate(4096);
    seen.sort();
    assert_eq!(seen, (0x2000..=0x2FFF).collect::<Vec<u16>>());
}

#[test]
fn only_qualifies_turn_the_cycle() {
    let mut c = client("100");
    c.handle_timeout(at(60_000));
    c.handle_command(Command::Dial { number: "1".to_string() }, at(60_000));
    c.handle_input(&FullFrame::new(7, 16, 77, 0, 1, frametype::IAX, iax::PING, vec![]).encode(), at(60_000));
    assert_eq!(c.qualify_next, 0x2000);
    c.handle_input(&FullFrame::new(7, 0, 77, 0, 0, frametype::IAX, iax::PING, vec![]).encode(), at(60_000));
    assert_eq!(c.qualify_next, 0x2001);
}

#[test]
fn a_number_that_is_taken_out_is_free() {
    let mut c = client("100");
    c.handle_command(Command::Dial { number: "1".to_string() }, at(0));
    c.callno_next = 16;
    assert_eq!((c.alloc_callno(), c.alloc_callno()), (17, 18));
    assert_eq!(c.call_ids(), vec![16]);
}

#[test]
fn calls_stand_apart_when_every_number_is_taken() {
    let mut c = client("100");
    for _ in 0..8176 {
        c.handle_command(Command::Dial { number: "1".to_string() }, at(0));
    }
    let _ = frames(&mut c);
    c.handle_command(Command::Hold { call: 20 }, at(1));
    c.handle_input(&FullFrame::new(42, 21, 1, 0, 1, frametype::CONTROL, control::RINGING, vec![]).encode(), at(1));
    assert_eq!((c.call_state(20), c.call_state(21)), (Some(CallState::Held), Some(CallState::Ringing)));
    for k in [16u16, 19, 22, 0x1FFF] {
        assert_eq!(c.call_state(k), Some(CallState::Trying));
        assert_eq!(c.calls[&k].leg.outstanding.len(), 1);
    }
    c.handle_input(&FullFrame::new(43, 0, 1, 0, 0, frametype::IAX, iax::NEW, vec![]).encode(), at(2));
    assert_eq!(c.active_calls(), 8176);
    assert_eq!(c.call_state(16), Some(CallState::Ringing));
    assert_eq!((c.call_state(17), c.call_state(20)), (Some(CallState::Trying), Some(CallState::Held)));
}

#[test]
fn every_call_number_is_taken_before_one_is_reused() {
    let mut c = client("100");
    for n in 0..8176usize {
        assert_eq!(c.active_calls(), n);
        c.handle_command(Command::Dial { number: "1".to_string() }, at(0));
    }
    assert_eq!(c.call_ids(), (16..=0x1FFF).collect::<Vec<u16>>());
}

#[test]
fn other_frames_on_a_call() {
    let (mut a, here, _, _) = connected();
    let _ = frames(&mut a);
    let remote = a.calls[&here].leg.remote;
    let give = |ft: u8, sc: u8| FullFrame::new(remote, here, 9, 7, 0x80, ft, sc, vec![]).encode();
    a.handle_input(&give(frametype::IAX, iax::LAGRP), at(1));
    a.handle_input(&give(frametype::IAX, iax::ACK), at(1));
    assert!(a.poll_transmit().is_none());
    a.handle_input(&give(frametype::CNG, 30), at(2));
    a.handle_input(&give(frametype::CONTROL, control::HOLD), at(2));
    assert!(frames(&mut a).iter().all(|f| f.subclass == iax::ACK && f.iseq == 8));
    assert!(a.poll_event().is_none());
    a.handle_input(&give(frametype::IAX, 0x3c), at(3));
    assert_eq!(logs(&mut a), vec!["call leg ft=0x06 sc=0x3c"]);
}

#[test]
fn stray_frames_are_logged_or_ignored() {
    let mut c = client("100");
    for sub in [iax::ACK, iax::PONG, iax::INVAL] {
        c.handle_input(&FullFrame::new(7, 300, 0, 0, 0, frametype::IAX, sub, vec![]).encode(), at(0));
    }
    assert!(c.poll_event().is_none());
    c.handle_input(&FullFrame::new(7, 300, 0, 0, 0, frametype::CONTROL, 4, vec![]).encode(), at(0));
    assert_eq!(logs(&mut c), vec!["out of leg frame dst_call=300 ft=0x04 sc=0x04"]);
    c.handle_input(&[0x80; 11], at(0));
    c.handle_input(&[1, 2], at(0));
    assert!(c.poll_event().is_none());
    assert!(c.poll_transmit().is_none());
}

#[test]
fn a_datagram_leaves_other_calls_alone() {
    let mut c = client("100");
    for src in [42u16, 43] {
        c.handle_input(&FullFrame::new(src, 0, 1, 0, 0, frametype::IAX, iax::NEW, vec![]).encode(), at(0));
    }
    let before = c.calls[&17].leg.outstanding.len();
    c.handle_input(&FullFrame::new(42, 16, 1, 1, 2, frametype::IAX, iax::HANGUP, vec![]).encode(), at(1));
    assert_eq!(c.call_ids(), vec![17]);
    assert_eq!(c.calls[&17].leg.outstanding.len(), before);
    assert_eq!(c.call_state(17), Some(CallState::Ringing));
}
