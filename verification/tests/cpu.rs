use empty_status::bar::Health;
use empty_status::units::cpu::{parse_times, Config, Model, Sample};

#[test]
fn excludes_guest_counters_from_total() {
    let times = parse_times(b"cpu  10 2 3 100 5 7 11 13 1000 1000\n");
    assert!(times.is_ok());
    let Ok(times) = times else { return };
    assert_eq!(times.total, 151);
    assert_eq!(times.busy, 46);
    assert_eq!(times.user, 12);
    assert_eq!(times.kernel, 21);
}

#[test]
fn cpu_shows_load_between_two_samples() {
    let mut model = Model::new(Config {});
    let first = parse_times(b"cpu  10 0 10 80 0 0 0 0 0 0\n");
    let Ok(first) = first else { panic!("first sample") };
    let view = model.apply(Ok(Sample { times: first, temperature: None }));
    assert_eq!(view.health, Health::Degraded);
    assert!(view.body.to_string().contains("loading"));
    let second = parse_times(b"cpu  30 0 30 140 0 0 0 0 0 0\n");
    let Ok(second) = second else { panic!("second sample") };
    let view = model.apply(Ok(Sample { times: second, temperature: None }));
    assert_eq!(view.health, Health::Healthy);
    assert_eq!(
        view.body.to_string(),
        "cpu [load <span color='#F0C674'> 40%</span>] [temp <span color='#B294BB'>unk</span>]"
    );
}
