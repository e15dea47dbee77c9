use empty_status::bar::Button;
use empty_status::units::weather::{Horizon, Metric};
use empty_status::units::{positive_duration, Cycle, FiniteCycle, MouseOrbit, Posture, Setting};

#[test]
fn mouse_orbit_obeys_klein_group_laws_for_binary_axes() {
    let identity = MouseOrbit::new(Horizon::Immediate, Horizon::Immediate);

    let mut left_squared = identity;
    assert!(left_squared.act(Button::Left));
    assert!(left_squared.act(Button::Left));
    assert_eq!(left_squared, identity);

    let mut right_squared = identity;
    assert!(right_squared.act(Button::Right));
    assert!(right_squared.act(Button::Right));
    assert_eq!(right_squared, identity);

    let mut left_right = identity;
    assert!(left_right.act(Button::Left));
    assert!(left_right.act(Button::Right));
    let mut right_left = identity;
    assert!(right_left.act(Button::Right));
    assert!(right_left.act(Button::Left));
    assert_eq!(left_right, right_left);
    assert_ne!(left_right, identity);

    assert!(!left_right.act(Button::Middle));
    assert!(!left_right.act(Button::Other(8)));

    let mut nonbinary = MouseOrbit::new(Metric::Temperature, Horizon::Immediate);
    assert!(nonbinary.act(Button::Left));
    assert!(nonbinary.act(Button::Left));
    assert!(nonbinary.act(Button::Left));
    assert_eq!(nonbinary, MouseOrbit::new(Metric::Temperature, Horizon::Immediate));
}

#[test]
fn finite_cycle_is_nonempty_and_wraps() {
    let mut cycle = FiniteCycle::new("a", vec!["b", "c"]);
    assert_eq!(cycle.points(), ["a", "b", "c"]);
    for expected in ["a", "b", "c", "a"] {
        assert_eq!(*cycle.focus(), expected);
        cycle.advance();
    }
}

#[test]
fn named_posture_restores_an_orbit_atomically() {
    let mut source = MouseOrbit::new(Horizon::Immediate, Metric::Temperature);
    assert!(source.act(Button::Left));
    assert!(source.act(Button::Right));
    assert!(source.act(Button::Right));
    let encoded = serde_json::to_string(&Posture::from_orbit(&source).points);
    assert!(encoded.is_ok());
    let Ok(encoded) = encoded else { return };
    let posture = serde_json::from_str::<Vec<String>>(&encoded).map(|points| Posture { points });
    assert!(posture.is_ok());
    let Ok(posture) = posture else { return };
    let mut restored = MouseOrbit::new(Horizon::Immediate, Metric::Temperature);
    assert!(posture.restore_orbit(&mut restored));
    assert_eq!(restored, source);

    let invalid = serde_json::from_str::<Vec<String>>(r#"["Forecast","Vanished"]"#).map(|points| Posture { points });
    assert!(invalid.is_ok());
    let Ok(invalid) = invalid else { return };
    let original = restored;
    assert!(!invalid.restore_orbit(&mut restored));
    assert_eq!(restored, original);
}

#[test]
fn a_single_axis_posture_round_trips() {
    let mut mode = Metric::Temperature;
    mode.advance();
    let posture = Posture::from_cycle(&mode);
    assert_eq!(posture.points, vec!["RelativeHumidity".to_owned()]);
    let mut fresh = Metric::Temperature;
    assert!(posture.restore_cycle(&mut fresh));
    assert_eq!(fresh, Metric::RelativeHumidity);
    let two = Posture { points: vec!["Forecast".to_owned(), "AirQuality".to_owned()] };
    assert!(!two.restore_cycle(&mut fresh));
    assert_eq!(fresh, Metric::RelativeHumidity);
}

#[test]
fn durations_are_checked_in_order() {
    assert_eq!(positive_duration("x", Setting::Nanos(5)), Ok(5));
    assert_eq!(positive_duration("x", Setting::Nanos(0)), Err("x must be positive".to_owned()));
    assert_eq!(
        positive_duration("x", Setting::Nanos(31_557_600_000_000_001)),
        Err("x cannot exceed one year".to_owned())
    );
    assert_eq!(
        positive_duration("x", Setting::Invalid("bad".to_owned())),
        Err("x is not a valid duration: bad".to_owned())
    );
}
