use empty_status::bar::{Health, I3Click};
use empty_status::reactor::{click_text, Clock, Pacer, Pulse, Reactor, Slot, Strike};
use empty_status::state::Store;
use empty_status::units::time::{self, Config, Sample};
use empty_status::units::{Reply, Request, Unit};

fn time_unit() -> Unit {
    let model = time::Model::new(Config { format: "%H:%M".to_owned() });
    let Ok(model) = model else { panic!("valid format") };
    Unit::Time(model)
}

fn clock(tick: u64) -> Clock {
    Clock { tick, wall: 0 }
}

#[test]
fn accepts_i3_comma_prefix() {
    let text = click_text(r#",{"name":"Time::0","button":1}"#);
    let click = text.and_then(|t| serde_json::from_str::<serde_json::Value>(&t).ok());
    assert_eq!(
        click.and_then(|v| v["name"].as_str().map(str::to_owned)),
        Some("Time::0".to_owned())
    );
    assert_eq!(click_text("["), None);
    assert_eq!(click_text("  "), None);
}

#[test]
fn click_decapitates_an_in_flight_old_mode() {
    let mut reactor = Reactor::new(
        vec![Slot::live(0, "time".to_owned(), time_unit(), 1_000_000_000, 0)],
        0,
        Store::empty(),
    );
    reactor.slots[0].pulse = Some(Pulse::Cutting);
    assert!(!reactor.click(
        I3Click {
            name: "Time::0".to_owned(),
            button: 1,
        },
        clock(5)
    ));
    assert!(!reactor.finish(
        Strike {
            slot: 0,
            revision: 0,
        },
        Reply::Time(Ok(Sample::DateTime("stale".to_owned()))),
        clock(6)
    ));
    assert_eq!(reactor.slots[0].revision, 1);
    assert!(matches!(reactor.slots[0].pulse, Some(Pulse::Sheathed { .. })));
    assert!(!reactor.slots[0].view.body.to_string().contains("stale"));
}

#[test]
fn restart_restores_posture_before_the_first_probe() {
    let mut first = Reactor::new(
        vec![Slot::live(0, "time".to_owned(), time_unit(), 1_000_000_000, 0)],
        0,
        Store::empty(),
    );
    assert!(!first.click(
        I3Click {
            name: "Time::0".to_owned(),
            button: 1,
        },
        clock(1)
    ));
    assert!(matches!(
        first.slots[0].unit.as_ref().map(Unit::request),
        Some(Request::Time(time::Request::Uptime))
    ));
    let saved = first.state;

    let restored = Reactor::new(
        vec![Slot::live(0, "time".to_owned(), time_unit(), 1_000_000_000, 0)],
        0,
        saved,
    );
    assert!(matches!(
        restored.slots[0].unit.as_ref().map(Unit::request),
        Some(Request::Time(time::Request::Uptime))
    ));
}

#[test]
fn due_slots_are_struck_once_and_wait_a_cadence_after_their_reply() {
    let mut reactor = Reactor::new(
        vec![
            Slot::live(0, "time".to_owned(), time_unit(), 1_000, 10),
            Slot::broken(1, "bad"),
        ],
        1,
        Store::empty(),
    );
    assert_eq!(reactor.next_deadline(), Some(10));
    assert!(reactor.unsheathe_due(9).is_empty());
    let strikes = reactor.unsheathe_due(10);
    assert_eq!(strikes.len(), 1);
    assert_eq!(strikes[0].0, Strike { slot: 0, revision: 0 });
    assert!(reactor.unsheathe_due(10_000).is_empty());
    assert_eq!(reactor.next_deadline(), None);
    assert!(reactor.finish(strikes[0].0, Reply::Time(Ok(Sample::DateTime("12:00".to_owned()))), clock(20)));
    assert_eq!(reactor.slots[0].pulse, Some(Pulse::Sheathed { due: 1_020 }));
    assert_eq!(reactor.slots[0].view.health, Health::Healthy);
    let blocks = reactor.blocks();
    assert_eq!(blocks[0].name, "Config::1");
    assert_eq!(blocks[1].name, "Time::0");
    assert_eq!(blocks[1].full_text, " 12:00 ");
    assert_eq!(blocks[0].border, "#CC6666");
}

#[test]
fn a_failed_task_shows_its_error_and_a_mismatched_reply_is_refused() {
    let mut reactor = Reactor::new(
        vec![Slot::live(0, "time".to_owned(), time_unit(), 1_000, 0)],
        0,
        Store::empty(),
    );
    let strikes = reactor.unsheathe_due(0);
    assert!(reactor.fail(strikes[0].0, "panicked", clock(3)));
    assert_eq!(
        reactor.slots[0].view.body.to_string(),
        "Time::0: <span color='#CC6666'>probe task failed: panicked</span>"
    );
    let strikes = reactor.unsheathe_due(2_000);
    assert!(reactor.finish(strikes[0].0, Reply::Mem(Err(empty_status::units::ProbeError::Unit("x".to_owned()))), clock(4)));
    assert_eq!(
        reactor.slots[0].view.body.to_string(),
        "Time::0: <span color='#CC6666'>unit/request registry invariant violated</span>"
    );
}

#[test]
fn frames_wait_ten_milliseconds_after_the_first_change() {
    let mut pacer = Pacer::new();
    assert!(!pacer.turn(false, 100));
    assert_eq!(pacer.frame_due, None);
    assert!(!pacer.turn(true, 1_000));
    assert_eq!(pacer.frame_due, Some(10_001_000));
    assert!(!pacer.turn(true, 5_000_000));
    assert_eq!(pacer.frame_due, Some(10_001_000));
    assert_eq!(pacer.wake_at(Some(20_000_000)), Some(10_001_000));
    assert_eq!(pacer.wake_at(Some(3)), Some(3));
    assert!(pacer.turn(false, 10_001_000));
    assert_eq!(pacer.frame_due, None);
    assert_eq!(pacer.wake_at(None), None);
    assert!(!pacer.turn(true, u64::MAX - 5));
    assert_eq!(pacer.frame_due, Some(u64::MAX));
}
