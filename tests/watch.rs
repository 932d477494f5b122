use brickatlas::config::Config;
use brickatlas::error::{AtlasError, ConfigProblem};
use brickatlas::rules::MatchKind;
use brickatlas::watch::{decode_line, Action, FsEvent, Phase, WatchLoop};

fn config() -> Config {
    Config {
        logfile: "Client.txt".to_string(),
        maps: vec!["Lioneye's Watch".to_string()],
        map_template: "You have entered {label}".to_string(),
        buy_regex: r"@From (?<buyer>.+): Hi, I would like to buy your (?<object>.+) listed for (?<price>.+) in (?<league>.+) \((?<location>.+)\)".to_string(),
    }
}

fn started(len: u64) -> WatchLoop {
    match WatchLoop::start(&config(), true, len) {
        Ok(w) => w,
        Err(e) => panic!("start failed: {:?}", e),
    }
}

fn read_from(w: &mut WatchLoop, len: u64) -> u64 {
    match w.on_event(FsEvent::Modified { len }) {
        Ok(Action::Read { from }) => from,
        other => panic!("expected a read, got {:?}", other),
    }
}

#[test]
fn start_fails_without_logfile() {
    match WatchLoop::start(&config(), false, 0) {
        Err(AtlasError::ConfigError(ConfigProblem::LogfileMissing(p))) => assert_eq!(p, "Client.txt"),
        Err(e) => panic!("unexpected {:?}", e),
        Ok(_) => panic!("started without a file"),
    }
}

#[test]
fn start_fails_on_bad_rule() {
    let mut c = config();
    c.map_template = "no placeholder".to_string();
    match WatchLoop::start(&c, true, 0) {
        Err(AtlasError::ConfigError(ConfigProblem::MissingPlaceholder { rule })) => assert_eq!(rule, 0),
        Err(e) => panic!("unexpected {:?}", e),
        Ok(_) => panic!("started with a bad rule"),
    }
}

#[test]
fn history_before_start_is_never_matched() {
    let mut w = started(1000);
    assert_eq!(w.phase(), Phase::Watching);
    assert_eq!(w.offset(), 1000);
    let appended = b"You have entered Lioneye's Watch\nYou have ent";
    assert_eq!(read_from(&mut w, 1000 + appended.len() as u64), 1000);
    let events = w.on_data(appended);
    assert_eq!(events.len(), 1);
    assert_eq!(events[0].line, "You have entered Lioneye's Watch");
    assert!(matches!(&events[0].kind, MatchKind::Literal { label } if label == "Lioneye's Watch"));
    assert_eq!(w.offset(), 1000 + appended.len() as u64);
}

#[test]
fn fragment_completed_on_next_wakeup() {
    let mut w = started(0);
    assert_eq!(read_from(&mut w, 12), 0);
    assert!(w.on_data(b"You have ent").is_empty());
    assert_eq!(read_from(&mut w, 34), 12);
    let events = w.on_data(b"ered Lioneye's Watch\r\n");
    assert_eq!(events.len(), 1);
    assert_eq!(events[0].line, "You have entered Lioneye's Watch");
}

#[test]
fn zero_byte_wakeup_raises_nothing() {
    let mut w = started(5);
    read_from(&mut w, 9);
    assert!(w.on_data(b"You ").is_empty());
    assert_eq!(read_from(&mut w, 9), 9);
    assert!(w.on_data(b"").is_empty());
    assert_eq!(w.offset(), 9);
    read_from(&mut w, 37);
    let events = w.on_data(b"have entered Lioneye's Watch\n");
    assert_eq!(events.len(), 1);
}

#[test]
fn truncation_restarts_from_file_start() {
    let mut w = started(500);
    read_from(&mut w, 510);
    assert!(w.on_data(b"garbage pa").is_empty());
    assert_eq!(read_from(&mut w, 33), 0);
    let events = w.on_data(b"You have entered Lioneye's Watch\n");
    assert_eq!(events.len(), 1);
    assert_eq!(events[0].line, "You have entered Lioneye's Watch");
    assert_eq!(w.offset(), 33);
}

#[test]
fn trade_line_raises_buyer_event() {
    let mut w = started(0);
    let line = b"@From Chris: Hi, I would like to buy your Headhunter listed for 40 exalted in Standard (Hideout)\n";
    read_from(&mut w, line.len() as u64);
    let events = w.on_data(line);
    assert_eq!(events.len(), 1);
    assert_eq!(events[0].rule, 1);
    let alert = events[0].alert();
    assert_eq!(
        alert.body,
        "buyer: <b>Chris</b>\nobject: <b>Headhunter</b>\nprice: <b>40 exalted</b>\nleague: <b>Standard</b>\nlocation: <b>Hideout</b>"
    );
}

#[test]
fn other_notifications_are_ignored() {
    let mut w = started(3);
    for e in [FsEvent::Created, FsEvent::Removed, FsEvent::Renamed, FsEvent::Other] {
        assert_eq!(w.on_event(e).ok(), Some(Action::Ignore));
    }
    assert_eq!(w.phase(), Phase::Watching);
    assert_eq!(w.offset(), 3);
}

#[test]
fn closed_channel_stops_for_good() {
    let mut w = started(0);
    assert_eq!(w.on_event(FsEvent::Closed).ok(), Some(Action::Stop));
    assert_eq!(w.phase(), Phase::Terminated);
    assert_eq!(w.on_event(FsEvent::Modified { len: 10 }).ok(), Some(Action::Stop));
    assert!(w.on_data(b"You have entered Lioneye's Watch\n").is_empty());
    assert_eq!(w.offset(), 0);
}

#[test]
fn watch_error_is_reported_and_stops() {
    let mut w = started(0);
    match w.on_event(FsEvent::Failed("inotify limit".to_string())) {
        Err(AtlasError::FsNotifyError(m)) => assert_eq!(m, "inotify limit"),
        other => panic!("unexpected {:?}", other),
    }
    assert_eq!(w.phase(), Phase::Terminated);
}

#[test]
fn decode_line_strips_carriage_return() {
    assert_eq!(decode_line(b"abc\r"), "abc");
    assert_eq!(decode_line(b"abc"), "abc");
    assert_eq!(decode_line(b"\r"), "");
    assert_eq!(decode_line(b"a\rb"), "a\rb");
}

#[test]
fn decode_line_replaces_invalid_bytes() {
    assert_eq!(decode_line(&[b'a', 0xff, b'b']), "a\u{fffd}b");
    assert_eq!(decode_line("Lioneye’s".as_bytes()), "Lioneye’s");
}

#[test]
fn each_written_line_matched_once_per_rule() {
    let mut c = config();
    c.maps.push("The Coast".to_string());
    c.buy_regex = r"entered (?<buyer>.+)(?<object>)(?<price>)(?<league>)(?<location>)".to_string();
    let mut w = match WatchLoop::start(&c, true, 0) {
        Ok(w) => w,
        Err(e) => panic!("start failed: {:?}", e),
    };
    let data = b"You have entered The Coast\nidle chatter\nYou have entered Lioneye's Watch\n";
    read_from(&mut w, data.len() as u64);
    let origins: Vec<(String, usize)> = w.on_data(data).iter().map(|e| (e.line.clone(), e.rule)).collect();
    assert_eq!(
        origins,
        vec![
            ("You have entered The Coast".to_string(), 1),
            ("You have entered The Coast".to_string(), 2),
            ("You have entered Lioneye's Watch".to_string(), 0),
            ("You have entered Lioneye's Watch".to_string(), 2),
        ]
    );
}
