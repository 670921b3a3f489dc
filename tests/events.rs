use rabbit_warren::continuity::{read_event, ContinuityEngine};
use rabbit_warren::discovery::DiscoveryService;
use rabbit_warren::ui::UiDeclaration;

#[test]
fn replay_after_sequence_number() {
    let mut engine = ContinuityEngine::new();
    engine.append_at("q/news", 2, 1, "a", 100);
    engine.append_at("q/news", 2, 2, "b", 101);
    engine.append_at("q/news", 2, 3, "c", 102);
    let frames = engine.replay("q/news", Some(1));
    assert_eq!(frames.len(), 2);
    assert_eq!(frames[0].verb, "EVENT");
    assert_eq!(frames[0].header("Lane"), Some(&"2".to_string()));
    assert_eq!(frames[0].header("Seq"), Some(&"2".to_string()));
    assert_eq!(frames[0].header("Selector"), Some(&"q/news".to_string()));
    assert_eq!(frames[0].body, Some("b".to_string()));
    assert_eq!(frames[1].verb, "EVENT");
    assert_eq!(frames[1].header("Seq"), Some(&"3".to_string()));
    assert_eq!(frames[1].body, Some("c".to_string()));
    assert_eq!(engine.replay("q/news", None).len(), 3);
    assert!(engine.replay("q/other", None).is_empty());
    assert!(engine.replay("q/news", Some(3)).is_empty());
}

#[test]
fn log_lines_and_reload() {
    let mut engine = ContinuityEngine::new();
    let mut log = String::new();
    log.push_str(&engine.append_at("q/news", 2, 1, "a", 100));
    log.push_str(&engine.append_at("q/news", 3, 2, "hello world", -7));
    assert_eq!(log, "1\t100\t2\ta\n2\t-7\t3\thello world\n");
    let mut fresh = ContinuityEngine::new();
    fresh.load_topic("q/news", &log);
    let a = engine.replay("q/news", None);
    let b = fresh.replay("q/news", None);
    assert_eq!(a.len(), b.len());
    for (x, y) in a.iter().zip(b.iter()) {
        assert_eq!(x.to_string(), y.to_string());
    }
    assert_eq!(fresh.streams[0].events[1].timestamp, -7);
}

#[test]
fn load_skips_bad_lines_and_defaults_numbers() {
    let mut engine = ContinuityEngine::new();
    engine.append_at("t", 1, 1, "old", 1);
    engine.load_topic("t", "x\ty\tz\tdata\r\nshort\tline\n5\t6\t7\tlast\textra");
    let events = &engine.streams[0].events;
    assert_eq!(events.len(), 2);
    assert_eq!((events[0].seq, events[0].timestamp, events[0].lane), (0, 0, 0));
    assert_eq!(events[0].data, "data");
    assert_eq!(events[1].seq, 5);
    assert_eq!(events[1].data, "last");
    assert_eq!(events[1].topic, "t");
    engine.load_topic("t", "");
    assert!(engine.replay("t", None).is_empty());
    assert!(read_event("1\t2\t3", "t").is_none());
}

#[test]
fn prune_keeps_newest() {
    let mut engine = ContinuityEngine::new();
    for i in 1..=5u64 {
        engine.append_at("p", 0, i, &format!("e{}", i), 0);
    }
    engine.prune("p", 2);
    let frames = engine.replay("p", None);
    assert_eq!(frames.len(), 2);
    assert_eq!(frames[0].body, Some("e4".to_string()));
    engine.prune("p", 10);
    assert_eq!(engine.replay("p", None).len(), 2);
    engine.prune("missing", 0);
    engine.prune("p", 0);
    assert!(engine.replay("p", None).is_empty());
}

#[test]
fn log_path_replaces_slashes() {
    let engine = ContinuityEngine::new();
    assert_eq!(engine.log_path("q/news/today"), "q_news_today.log");
    assert_eq!(engine.log_path("plain"), "plain.log");
    let mut e2 = ContinuityEngine::new();
    e2.append("now", 1, 1, "x");
    assert_eq!(e2.replay("now", None).len(), 1);
}

#[test]
fn ui_declarations() {
    let headed = UiDeclaration::default_headed();
    assert_eq!(headed.version, "1.0");
    let paths: Vec<&str> = headed.routes.iter().map(|r| r.path.as_str()).collect();
    assert_eq!(paths, vec!["/dialogue", "/status", "/control"]);
    assert!(headed.markup_for("/status").unwrap().contains("rabbit-status"));
    assert!(headed.markup_for("/nope").is_none());
    let headless = UiDeclaration::default_headless();
    assert!(headless.routes.is_empty());
    assert_eq!(headless.description, "Headless burrow (no UI)");
}

#[test]
fn discovery_messages() {
    let d = DiscoveryService::new();
    assert_eq!(d.multicast_addr, "239.255.255.250");
    assert_eq!(d.port, 8888);
    assert_eq!(d.announcement("ed25519:X"), "DISCOVER:RABBIT:ed25519:X");
    assert_eq!(d.announced_id("DISCOVER:RABBIT: ed25519:Y \n"), Some("ed25519:Y".to_string()));
    assert_eq!(d.announced_id("HELLO"), None);
    assert_eq!(d.announced_id("DISCOVER:RABBIX:zz"), None);
}

#[test]
fn clock_append_stores_event_and_line() {
    let mut engine = ContinuityEngine::new();
    let line = engine.append("q/x", 4, 9, "payload");
    let ev = &engine.streams[0].events[0];
    assert_eq!((ev.seq, ev.lane, ev.data.as_str(), ev.topic.as_str()), (9, 4, "payload", "q/x"));
    assert_eq!(line, format!("9\t{}\t4\tpayload\n", ev.timestamp));
}
