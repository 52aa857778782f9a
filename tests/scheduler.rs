use dailystoic::catalog::{Catalog, Quote};
use dailystoic::protocol::{DailyStoic, DailyStoicRequest};
use dailystoic::scheduler::{broadcast_once, broadcast_payload, classify_inbound, Action, Event, Inbound, Phase, Scheduler};
use dailystoic::topic::{ContentTopic, Encoding};

fn running() -> Scheduler {
    let mut s = Scheduler::new(3);
    assert_eq!(s.step(&Event::NodeStarted), Action::CheckPeers);
    assert_eq!(s.step(&Event::PeersChecked { enough: true }), Action::StartActivities);
    assert_eq!(s.phase(), Phase::Ready);
    assert_eq!(s.step(&Event::ActivitiesStarted), Action::Nothing);
    assert_eq!(s.phase(), Phase::Running);
    s
}

fn request_bytes(t: u64) -> Vec<u8> {
    DailyStoicRequest::new(t).encode()
}

#[test]
fn broadcast_topic_is_never_decoded() {
    let r = classify_inbound(&ContentTopic::broadcast(), &request_bytes(5));
    assert!(matches!(r, Inbound::Ignored));
    let r = classify_inbound(&ContentTopic::broadcast(), &[0xff]);
    assert!(matches!(r, Inbound::Ignored));
    let other = ContentTopic { encoding: Encoding::Rlp, ..ContentTopic::request() };
    assert!(matches!(classify_inbound(&other, &request_bytes(5)), Inbound::Ignored));
}

#[test]
fn request_topic_is_decoded() {
    match classify_inbound(&ContentTopic::request(), &request_bytes(5)) {
        Inbound::Request(q) => assert_eq!(q.timestamp(), 5),
        _ => panic!("expected a request"),
    }
    assert!(matches!(classify_inbound(&ContentTopic::request(), &[0x0a]), Inbound::Malformed(_)));
}

#[test]
fn single_request_triggers_one_broadcast_of_only_quote() {
    let c = Catalog::load(vec![Quote { author: "Zeno".to_string(), text: "Well-being is realized by small steps.".to_string() }]).unwrap();
    let mut s = running();
    let mut published: Vec<Vec<u8>> = Vec::new();
    let ev = Event::Delivered { topic: ContentTopic::request(), payload: request_bytes(1_700_000_000) };
    if s.step(&ev) == Action::Broadcast {
        published.push(broadcast_payload(&c, 12345, 1_700_000_001));
    }
    assert_eq!(published.len(), 1);
    let m = DailyStoic::decode(&published[0]).unwrap();
    assert_eq!(m.author(), "Zeno");
    assert_eq!(m.content(), "Well-being is realized by small steps.");
    assert_eq!(m.timestamp(), 1_700_000_001);
}

#[test]
fn garbage_requests_publish_nothing() {
    let mut s = running();
    let mut broadcasts = 0;
    for i in 0..100u32 {
        // Each begins with a field key of the wrong wire type or a truncated varint.
        let garbage: Vec<u8> = match i % 4 {
            0 => vec![0x0a, (i % 7) as u8 + 1],
            1 => vec![0x80 | (i as u8 & 0x7f)],
            2 => vec![0x0b, i as u8],
            _ => vec![0x09, 1, 2, 3],
        };
        let a = s.step(&Event::Delivered { topic: ContentTopic::request(), payload: garbage });
        assert_eq!(a, Action::ReportMalformed);
        if a == Action::Broadcast {
            broadcasts += 1;
        }
    }
    assert_eq!(broadcasts, 0);
    assert_eq!(s.phase(), Phase::Running);
    let a = s.step(&Event::Delivered { topic: ContentTopic::request(), payload: request_bytes(9) });
    assert_eq!(a, Action::Broadcast);
}

#[test]
fn startup_fails_without_peers() {
    let mut s = Scheduler::new(3);
    let mut actions = vec![s.step(&Event::NodeStarted)];
    for _ in 0..3 {
        actions.push(s.step(&Event::PeersChecked { enough: false }));
    }
    assert_eq!(actions, vec![Action::CheckPeers, Action::CheckPeers, Action::CheckPeers, Action::Exit { success: false }]);
    assert_eq!(s.phase(), Phase::Failed);
    assert_eq!(s.step(&Event::TimerFired), Action::Nothing);
    assert_eq!(s.step(&Event::Delivered { topic: ContentTopic::request(), payload: request_bytes(1) }), Action::Nothing);
    assert_eq!(s.step(&Event::PeersChecked { enough: true }), Action::Nothing);
    assert_eq!(s.step(&Event::Terminate), Action::Nothing);
}

#[test]
fn zero_budget_still_checks_once() {
    let mut s = Scheduler::new(0);
    assert_eq!(s.step(&Event::NodeStarted), Action::CheckPeers);
    assert_eq!(s.step(&Event::PeersChecked { enough: false }), Action::Exit { success: false });
}

#[test]
fn timer_ticks_each_broadcast_once() {
    let mut s = running();
    let interval = std::time::Duration::from_millis(20);
    let mut times: Vec<std::time::Instant> = Vec::new();
    let mut next = std::time::Instant::now() + interval;
    for _ in 0..5 {
        while std::time::Instant::now() < next {}
        if s.step(&Event::TimerFired) == Action::Broadcast {
            times.push(std::time::Instant::now());
        }
        next += interval;
    }
    assert_eq!(times.len(), 5);
    for w in times.windows(2) {
        assert!(w[1] - w[0] >= interval - std::time::Duration::from_millis(1));
    }
}

#[test]
fn terminate_shuts_down() {
    let mut s = running();
    assert_eq!(s.step(&Event::Terminate), Action::Exit { success: true });
    assert_eq!(s.phase(), Phase::ShuttingDown);
    assert_eq!(s.step(&Event::TimerFired), Action::Nothing);
}

#[test]
fn broadcast_once_carries_a_catalog_quote() {
    let c = Catalog::load(vec![
        Quote { author: "Seneca".to_string(), text: "We suffer more in imagination than in reality.".to_string() },
        Quote { author: "Epictetus".to_string(), text: "No man is free who is not master of himself.".to_string() },
    ])
    .unwrap();
    let m = DailyStoic::decode(&broadcast_once(&c)).unwrap();
    assert!(m.timestamp() > 1_600_000_000);
    let ok = (m.author() == "Seneca" && m.content() == "We suffer more in imagination than in reality.")
        || (m.author() == "Epictetus" && m.content() == "No man is free who is not master of himself.");
    assert!(ok);
}
