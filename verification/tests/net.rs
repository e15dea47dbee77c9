use empty_status::bar::{Button, Health};
use empty_status::color::{cyan, yellow};
use empty_status::markup::Markup;
use empty_status::units::net::{bandwidth_sample, ping_times, Config, Model, Ping, Request, Sample, Spread};
use empty_status::units::{ProbeError, Setting};

fn config() -> Config {
    Config {
        interface: "e0".to_owned(),
        ping_server: "8.8.8.8".to_owned(),
        ping_window: 4,
        smoothing: Setting::Nanos(333_000_000),
    }
}

fn first_latency(output: &str) -> Option<f64> {
    ping_times(output).iter().find_map(|reading| reading.parse::<f64>().ok())
}

#[test]
fn parses_iputils_latency() {
    assert_eq!(
        first_latency("64 bytes from 8.8.8.8: icmp_seq=1 ttl=117 time=25.6 ms"),
        Some(25.6)
    );
}

#[test]
fn ping_output_is_read_line_by_line() {
    let output = "PING 8.8.8.8 (8.8.8.8) 56(84) bytes of data.\n64 bytes from 8.8.8.8: icmp_seq=1 ttl=117 time=0.043 ms\r\n\n--- 8.8.8.8 ping statistics ---\n";
    assert_eq!(ping_times(output), vec!["0.043".to_owned()]);
    assert_eq!(first_latency(output), Some(0.043));
    assert_eq!(ping_times("time=\nx time=7 ms"), vec!["7".to_owned()]);
    assert_eq!(ping_times("time=abc ms\ntime=2.5"), vec!["abc".to_owned(), "2.5".to_owned()]);
    assert_eq!(first_latency("time=abc ms\ntime=2.5"), Some(2.5));
    assert_eq!(first_latency("time=abc ms"), None);
    assert!(ping_times("").is_empty());
}

fn ping(latency: Option<f64>, spread: Option<(&str, &str)>, loss: &str) -> Sample {
    Sample::Ping(Ping {
        latency: latency.map(f64::to_bits),
        spread: spread.map(|(median, deviation)| Spread {
            median: Markup::text(median).fg(yellow()),
            deviation: Markup::text(deviation).fg(cyan()),
        }),
        loss: loss.to_owned(),
    })
}

#[test]
fn configuration_faults_come_in_order() {
    let mut c = config();
    c.interface = "a/b".to_owned();
    assert_eq!(Model::new(c).err(), Some("interface must be one nonempty path component".to_owned()));
    let mut c = config();
    c.ping_server = String::new();
    assert_eq!(Model::new(c).err(), Some("ping_server must not be empty".to_owned()));
    let mut c = config();
    c.ping_window = 1;
    assert_eq!(Model::new(c).err(), Some("ping_window must be at least 2".to_owned()));
    let mut c = config();
    c.ping_window = 1025;
    assert_eq!(Model::new(c).err(), Some("ping_window cannot exceed 1024".to_owned()));
    let mut c = config();
    c.smoothing = Setting::Nanos(0);
    assert_eq!(Model::new(c).err(), Some("smoothing_window_sec must be positive".to_owned()));
}

#[test]
fn ping_window_reports_median_spread_and_loss() {
    let Ok(mut model) = Model::new(config()) else { panic!("valid configuration") };
    let _ = model.click(Button::Left);
    assert!(matches!(model.request(), Request::Ping { ref window, size: 4, .. } if window.is_empty()));
    let view = model.apply(Ok(ping(Some(10.0), Some((" 10.0", "0.0")), "  0.0")));
    assert_eq!(view.health, Health::Degraded);
    assert!(view.body.to_string().contains("loading"));
    let _ = model.apply(Ok(ping(None, Some((" 10.0", "0.0")), " 50.0")));
    let _ = model.apply(Ok(ping(Some(30.0), Some((" 30.0", "20.0")), " 33.3")));
    let view = model.apply(Ok(ping(Some(20.0), Some((" 20.0", "10.0")), " 25.0")));
    assert_eq!(view.health, Health::Degraded);
    assert_eq!(
        view.body.to_string(),
        "net e0 [ping 8.8.8.8] [med <span color='#F0C674'> 20.0</span> mad <span color='#8ABEB7'>10.0</span> ms] [<span color='#DE935F'> 25.0% loss</span>]"
    );
    let Request::Ping { window, .. } = model.request() else { panic!("ping mode") };
    assert_eq!(window, vec![Some(10.0_f64.to_bits()), None, Some(30.0_f64.to_bits()), Some(20.0_f64.to_bits())]);
    let _ = model.apply(Ok(ping(Some(20.0), Some((" 20.0", "0.0")), " 25.0")));
    assert_eq!(model.pings.len(), 4);
    let view = model.apply(Ok(ping(Some(20.0), Some((" 20.0", "0.0")), "  0.0")));
    assert_eq!(view.health, Health::Healthy);
    assert!(view.body.to_string().contains("no loss"));
}

#[test]
fn a_window_of_lost_pings_has_no_replies() {
    let Ok(mut model) = Model::new(config()) else { panic!("valid configuration") };
    let _ = model.click(Button::Left);
    let _ = model.apply(Ok(ping(None, None, "100.0")));
    let view = model.apply(Ok(ping(None, None, "100.0")));
    assert_eq!(
        view.body.to_string(),
        "net e0 [ping 8.8.8.8] <span color='#DE935F'>no replies</span> [<span color='#DE935F'>100.0% loss</span>]"
    );
}

#[test]
fn leaving_ping_mode_starts_a_new_baseline() {
    let Ok(mut model) = Model::new(config()) else { panic!("valid configuration") };
    let epoch = model.epoch;
    let _ = model.click(Button::Left);
    let _ = model.apply(Ok(ping(Some(0.001), Some(("  0.0", "0.0")), "  0.0")));
    let _ = model.click(Button::Left);
    assert!(model.pings.is_empty());
    assert_eq!(model.epoch, epoch + 1);
    let view = model.apply(Ok(Sample::Down));
    assert_eq!(view.health, Health::Error);
    assert_eq!(model.epoch, epoch + 2);
    let view = model.apply(Err(ProbeError::Unit("gone".to_owned())));
    assert_eq!(view.body.to_string(), "net e0: <span color='#CC6666'>gone</span>");
}

#[test]
fn carrier_and_counters_are_read_from_sysfs_text() {
    assert_eq!(bandwidth_sample(b"1\n", b" 10\n", b"20").ok(), Some(Some((10, 20))));
    assert_eq!(bandwidth_sample(b"0\n", b"x", b"y").ok(), Some(None));
    assert!(bandwidth_sample(b"1\n", b"x", b"20").is_err());
    assert!(bandwidth_sample(b"\xff", b"1", b"2").is_err());
}
