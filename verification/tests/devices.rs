use empty_status::bar::{Button, Health};
use empty_status::config::{clipped, default_poll_interval};
use empty_status::markup::Markup;
use empty_status::units::bat::{self, Reading, Status, Uevent};
use empty_status::units::disk::{self, read_counters, Selector};
use empty_status::units::wifi::{self, decode_nul_string, select_interface, signal_percent, station_sample};
use empty_status::units::{mem, time, ProbeError, Setting};

#[test]
fn uevent_entries_are_keyed_without_their_prefix() {
    let event = Uevent::parse(
        b"POWER_SUPPLY_PRESENT=1\nPOWER_SUPPLY_STATUS=Discharging\nPOWER_SUPPLY_ENERGY_NOW=50000000\nPOWER_SUPPLY_ENERGY_FULL=100000000\nPOWER_SUPPLY_ENERGY_FULL_DESIGN=120000000\nPOWER_SUPPLY_POWER_NOW=10000000\n",
    );
    let Ok(event) = event else { panic!("valid uevent") };
    assert_eq!(event.present(), Some(true));
    assert_eq!(event.value("ENERGY_NOW"), Some("50000000".to_owned()));
    assert_eq!(event.value("STATUS"), Some("Discharging".to_owned()));
    assert_eq!(event.value("CHARGE_NOW"), None);
    assert_eq!(Status::parse(event.value("STATUS").as_deref()), Status::Discharging);
    assert!(Uevent::parse(b"\xff").is_err());
}

#[test]
fn battery_status_reads_any_case_and_settles_when_idle() {
    assert_eq!(Status::parse(Some("CHARGING")), Status::Charging);
    assert_eq!(Status::parse(Some("Full")), Status::Full);
    assert_eq!(Status::parse(Some("Not charging")), Status::Unknown);
    assert_eq!(Status::parse(None), Status::Unknown);
    assert_eq!(Status::Unknown.settle(true), Status::Balanced);
    assert_eq!(Status::Charging.settle(true), Status::Charging);
}

#[test]
fn battery_view_frames_the_capacity_by_mode() {
    let model = bat::Model::new(bat::Config { bat_id: 1, power_smoothing: Setting::Nanos(2_500_000_000) });
    let Ok(mut model) = model else { panic!("valid configuration") };
    assert_eq!(model.path, "/sys/class/power_supply/BAT1/uevent");
    let reading = || Reading {
        percent: Markup::text(" 50"),
        status: Status::Full,
        power: "1.00".to_owned(),
        remaining_minutes: Some(75),
    };
    let view = model.apply(Ok(reading()));
    assert_eq!(
        view.body.to_string(),
        "bat [ 50%] <span color='#8ABEB7'>FUL</span> 1.00 W [01:15 rem]"
    );
    let _ = model.click(Button::Left);
    let view = model.apply(Ok(Reading { remaining_minutes: None, ..reading() }));
    assert!(view.body.to_string().starts_with("bat &lt; 50%&gt;"));
    assert!(view.body.to_string().ends_with("[--:-- rem]"));
    let view = model.apply(Err(ProbeError::Unit("absent".to_owned())));
    assert_eq!(view.body.to_string(), "bat1: <span color='#CC6666'>absent</span>");
}

#[test]
fn disk_selectors_are_exclusive_and_counters_multiply_sectors() {
    assert!(matches!(Selector::from_keys(None, Some("root".to_owned()), None), Ok(Selector::PartLabel(_))));
    assert_eq!(
        Selector::from_keys(None, None, None).err(),
        Some("set exactly one of disk, partlabel, or partuuid".to_owned())
    );
    assert_eq!(
        Selector::from_keys(Some("sda".to_owned()), Some("root".to_owned()), None).err(),
        Some("disk selectors are mutually exclusive".to_owned())
    );
    let stat = b"   100 0 200 0 50 0 300 0 0 0 0\n";
    assert_eq!(read_counters(stat, b"512\n").ok(), Some((102_400, 153_600)));
    assert!(matches!(read_counters(b"1 2", b"512"), Err(ProbeError::Unit(m)) if m == "short disk stat row"));
    assert!(matches!(read_counters(stat, b"x"), Err(ProbeError::Unit(m)) if m == "invalid disk sector size"));
    assert!(matches!(
        read_counters(b"1 2 x 4 5 6 7", b"512"),
        Err(ProbeError::Unit(m)) if m == "invalid disk read counter: invalid digit found in string"
    ));
}

#[test]
fn disk_view_draws_two_bars() {
    let config = disk::Config {
        selector: Selector::Name("sda".to_owned()),
        smoothing: Setting::Nanos(500_000_000),
        write_peak_valid: true,
        read_peak_valid: true,
    };
    let Ok(model) = disk::Model::new(config) else { panic!("valid configuration") };
    assert_eq!(model.apply(Ok(None)).health, Health::Degraded);
    let view = model.apply(Ok(Some((0, 8))));
    assert_eq!(
        view.body.to_string(),
        "disk sda [<span color='#81A2BE'> </span><span color='#DE935F'>\u{2588}</span>]"
    );
    let bad = disk::Config {
        selector: Selector::Name("a/b".to_owned()),
        smoothing: Setting::Nanos(1),
        write_peak_valid: true,
        read_peak_valid: true,
    };
    assert_eq!(disk::Model::new(bad).err(), Some("disk selector must be one nonempty path component".to_owned()));
}

#[test]
fn wifi_names_and_signals_come_from_netlink_bytes() {
    assert_eq!(decode_nul_string(b"wlan0\0"), Some("wlan0".to_owned()));
    assert_eq!(decode_nul_string(b"\xff\0"), None);
    let names = vec![None, Some(b"eth0\0".to_vec()), Some(b"wlan0\0".to_vec())];
    assert_eq!(select_interface(&names, "wlan0"), Some(2));
    assert_eq!(select_interface(&names, "wlan1"), None);
    assert_eq!(signal_percent(-80), 0);
    assert_eq!(signal_percent(-55), 50);
    assert_eq!(signal_percent(-20), 100);
    assert!(matches!(station_sample(None, None), wifi::Sample::Connected { ref ssid, signal: 0 } if ssid == "?"));
}

#[test]
fn wifi_view_shows_or_hides_the_ssid() {
    let Ok(mut model) = wifi::Model::new("wlan0".to_owned()) else { panic!("valid interface") };
    let connected = || wifi::Sample::Connected { ssid: "home".to_owned(), signal: 70 };
    assert_eq!(
        model.apply(Ok(connected())).body.to_string(),
        "wifi [<span color='#B5BD68'>home</span>] <span color='#B5BD68'>70%</span>"
    );
    let _ = model.click(Button::Left);
    assert_eq!(model.apply(Ok(connected())).body.to_string(), "wifi <span color='#B5BD68'>70%</span>");
    assert_eq!(model.apply(Ok(wifi::Sample::Gone)).health, Health::Error);
    assert!(wifi::Model::new(String::new()).is_err());
}

#[test]
fn time_refuses_a_bad_format_and_renders_uptime() {
    assert_eq!(time::Model::new(time::Config { format: "%Q".to_owned() }).err(), Some("invalid strftime format".to_owned()));
    let Ok(model) = time::Model::new(time::Config { format: "%H:%M".to_owned() }) else { panic!("valid format") };
    let view = model.apply(Ok(time::Sample::Uptime {
        seconds: 3_661,
        loads: vec![Markup::text("0.10"), Markup::text("0.20"), Markup::text("0.30")],
    }));
    assert_eq!(view.body.to_string(), "uptime [ 1 h  1 m] load [0.10/0.20/0.30]");
}

#[test]
fn memory_layout_is_fixed() {
    let view = mem::Model::apply(Ok(mem::Sample::Totals {
        used_gib: Markup::text(" 3.2"),
        used_percent: Markup::text("40"),
    }));
    assert_eq!(view.body.to_string(), "mem [used  3.2 GiB (40%)]");
    let mut model = mem::Model::new();
    let _ = model.click(Button::Left);
    assert_eq!(model.request(), mem::Request::WorstProcess);
}

#[test]
fn configuration_errors_are_clipped() {
    let long = "x".repeat(200);
    let shown = clipped(&long);
    assert_eq!(shown.chars().count(), 161);
    assert!(shown.ends_with('\u{2026}'));
    assert_eq!(clipped("short"), "short");
    assert_eq!(default_poll_interval("Weather"), 300_000);
    assert_eq!(default_poll_interval("Time"), 333);
}

#[test]
fn the_worst_process_is_the_last_of_the_largest() {
    assert_eq!(empty_status::units::mem::worst_process(&[]), None);
    assert_eq!(empty_status::units::mem::worst_process(&[3, 9, 1, 9, 2]), Some(3));
    assert_eq!(empty_status::units::mem::worst_process(&[7]), Some(0));
}

#[test]
fn cpu_sensors_are_told_by_their_driver_name() {
    assert!(empty_status::units::cpu::is_cpu_sensor("coretemp Package id 0"));
    assert!(empty_status::units::cpu::is_cpu_sensor("  k10temp Tctl"));
    assert!(!empty_status::units::cpu::is_cpu_sensor("coretempX"));
    assert!(!empty_status::units::cpu::is_cpu_sensor("acpitz temp1"));
    assert!(!empty_status::units::cpu::is_cpu_sensor(""));
}
