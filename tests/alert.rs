use brickatlas::alert::{Urgency, ALERT_TIMEOUT_MS};
use brickatlas::rules::{MatchEvent, MatchKind};

#[test]
fn map_alert_is_critical_warning() {
    let event = MatchEvent {
        rule: 0,
        line: "You have entered Tower".to_string(),
        kind: MatchKind::Literal { label: "Tower".to_string() },
    };
    let alert = event.alert();
    assert_eq!(alert.title, "brickatlas map");
    assert_eq!(alert.body, "Do <u><b>NOT</b></u> complete map!");
    assert_eq!(alert.urgency, Urgency::Critical);
    assert_eq!(alert.timeout_ms, 5000);
    assert_eq!(ALERT_TIMEOUT_MS, 5000);
}

#[test]
fn buyer_alert_lists_fields() {
    let fields = [("buyer", "Chris"), ("object", "Headhunter"), ("price", "40 exalted")];
    let event = MatchEvent {
        rule: 3,
        line: "ignored".to_string(),
        kind: MatchKind::Captured {
            fields: fields.iter().map(|(k, v)| (k.to_string(), v.to_string())).collect(),
        },
    };
    let alert = event.alert();
    assert_eq!(alert.title, "brickatlas buyer");
    assert_eq!(
        alert.body,
        "buyer: <b>Chris</b>\nobject: <b>Headhunter</b>\nprice: <b>40 exalted</b>"
    );
    assert_eq!(alert.urgency, Urgency::Normal);
    assert_eq!(alert.timeout_ms, 5000);
}

#[test]
fn buyer_alert_without_fields_is_empty() {
    let event = MatchEvent {
        rule: 0,
        line: String::new(),
        kind: MatchKind::Captured { fields: vec![] },
    };
    assert_eq!(event.alert().body, "");
}
