use factory_sim::alerts::{AlertEntry, AlertHistory, MAX_OBJECT_ALERTS};

#[test]
fn records_one_alert() {
    let mut alerts = AlertHistory::default();
    alerts.record(10, "needs repairs");
    assert_eq!(vec![AlertEntry { tick: 10, message: "needs repairs".into() }], alerts.entries);
}

#[test]
fn repeated_messages_refresh_the_tick_and_newest_position() {
    let mut alerts = AlertHistory::default();
    alerts.record(10, "needs repairs");
    alerts.record(15, "out of power");
    alerts.record(20, "needs repairs");
    assert_eq!(
        vec![
            AlertEntry { tick: 15, message: "out of power".into() },
            AlertEntry { tick: 20, message: "needs repairs".into() },
        ],
        alerts.entries
    );
}

#[test]
fn different_messages_and_batches_retain_order() {
    let mut alerts = AlertHistory::default();
    alerts.record_many(10, &vec!["needs repairs", "out of power"]);
    alerts.record(20, "cannot move");
    assert_eq!(
        ["needs repairs", "out of power", "cannot move"],
        alerts.entries.iter().map(|alert| alert.message.as_str()).collect::<Vec<_>>().as_slice()
    );
}

#[test]
fn clips_to_the_ten_newest_messages() {
    let mut alerts = AlertHistory::default();
    for tick in 0..12 {
        alerts.record(tick, &format!("alert-{tick}"));
    }
    assert_eq!(MAX_OBJECT_ALERTS, alerts.entries.len());
    assert_eq!("alert-2", alerts.entries[0].message);
    assert_eq!("alert-11", alerts.latest().unwrap().message);
}

#[test]
fn a_duplicate_history_keeps_every_entry() {
    let mut alerts = AlertHistory::default();
    alerts.record(3, "first");
    alerts.record(4, "second");
    assert_eq!(alerts, alerts.duplicate());
}
