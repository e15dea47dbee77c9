use empty_status::bar::{Button, Health};
use empty_status::color::{cyan, green, orange, red, violet, yellow, Rgb8};
use empty_status::markup::Markup;
use empty_status::units::weather::{
    aqi_colors, forecast_slots, humidity_colors, immediate_index, nearest_index, open_meteo_time, open_meteo_url, AirPoint, Aqi,
    Config, Model, RelativeHumidity, Sample, Series, TemperatureUnit, WeatherPoint, Wmo,
};
use empty_status::units::{ProbeError, Reaction};

fn model() -> Model {
    Model::from_urls("weather".to_owned(), "air".to_owned(), TemperatureUnit::Celsius)
}

fn clear_point(relative_humidity: Option<RelativeHumidity>) -> WeatherPoint {
    WeatherPoint {
        temperature: Markup::text("20"),
        condition: Wmo::ClearSky,
        daylight: true,
        relative_humidity,
    }
}

#[test]
fn aqi_categories_are_exact() {
    let cases = [
        (50, Health::Healthy),
        (51, Health::Healthy),
        (100, Health::Healthy),
        (101, Health::Degraded),
        (150, Health::Degraded),
        (151, Health::Error),
        (200, Health::Error),
        (201, Health::Error),
        (500, Health::Error),
    ];
    for (aqi, health) in cases {
        assert_eq!(Aqi(aqi).health(), health);
    }
}

#[test]
fn aqi_uses_the_cold_hot_scale_and_peaks_at_200() {
    let anchors = [
        (0, cyan()),
        (40, green()),
        (80, yellow()),
        (120, orange()),
        (160, red()),
        (200, violet()),
        (300, violet()),
        (500, violet()),
    ];
    for (aqi, color) in anchors {
        assert_eq!(aqi_colors().sample(aqi), color);
    }
}

#[test]
fn humidity_decays_from_comfort_green_into_corpse_purple() {
    let anchors = [
        (0, yellow()),
        (30, yellow()),
        (45, green()),
        (62, Rgb8::new(0x7E, 0x9F, 0x54)),
        (76, Rgb8::new(0x66, 0x84, 0x4F)),
        (86, Rgb8::new(0x91, 0x65, 0x4F)),
        (93, Rgb8::new(0x87, 0x5F, 0x70)),
        (100, Rgb8::new(0x98, 0x71, 0x8F)),
    ];
    for (humidity, color) in anchors {
        assert_eq!(humidity_colors().sample(humidity), color);
    }
}

#[test]
fn feed_failures_are_confined_to_their_metric() {
    let mut model = model();
    model.latest = Some(Sample {
        weather: Ok(Series {
            immediate: Some(clear_point(Some(RelativeHumidity(55)))),
            forecast: Vec::new(),
        }),
        air: Err(ProbeError::Unit("severed".to_owned())),
    });

    assert_eq!(model.render().health, Health::Healthy);
    assert!(matches!(model.click(Button::Right), Reaction::Publish(_)));
    assert_eq!(model.render().health, Health::Healthy);
    assert!(matches!(model.click(Button::Right), Reaction::Publish(_)));
    assert_eq!(model.render().health, Health::Error);

    let Some(sample) = model.latest.as_mut() else {
        return;
    };
    sample.weather = Err(ProbeError::Unit("severed".to_owned()));
    sample.air = Ok(Series {
        immediate: Some(AirPoint { aqi: Aqi(50) }),
        forecast: Vec::new(),
    });
    assert_eq!(model.render().health, Health::Healthy);
    assert!(matches!(model.click(Button::Right), Reaction::Publish(_)));
    assert_eq!(model.render().health, Health::Error);
}

#[test]
fn mouse_generators_reach_the_six_weather_views() {
    let hours = [4, 8, 12, 16, 20, 0];
    let weather = hours.iter().map(|hour| (*hour, clear_point(Some(RelativeHumidity(55))))).collect();
    let air = hours.iter().map(|hour| (*hour, AirPoint { aqi: Aqi(151) })).collect();
    let mut model = model();
    model.latest = Some(Sample {
        weather: Ok(Series {
            immediate: Some(clear_point(Some(RelativeHumidity(55)))),
            forecast: weather,
        }),
        air: Ok(Series {
            immediate: Some(AirPoint { aqi: Aqi(151) }),
            forecast: air,
        }),
    });

    assert!(model.render().body.to_string().contains("20"));
    assert!(matches!(model.click(Button::Right), Reaction::Publish(_)));
    assert!(model.render().body.to_string().contains("RH"));
    assert!(model.render().body.to_string().contains("55%"));
    assert!(matches!(model.click(Button::Right), Reaction::Publish(_)));
    assert!(model.render().body.to_string().contains("AQI"));
    assert!(matches!(model.click(Button::Left), Reaction::Publish(_)));
    assert!(model.render().body.to_string().contains("AQI"));
    assert!(model.render().body.to_string().contains('-'));
    assert!(matches!(model.click(Button::Right), Reaction::Publish(_)));
    assert!(!model.render().body.to_string().contains("AQI"));
    assert!(!model.render().body.to_string().contains("RH"));
    assert!(model.render().body.to_string().contains('-'));
    assert!(matches!(model.click(Button::Right), Reaction::Publish(_)));
    assert!(model.render().body.to_string().contains("RH"));
    assert!(model.render().body.to_string().contains('-'));
    assert!(matches!(model.click(Button::Left), Reaction::Publish(_)));
    assert!(model.render().body.to_string().contains("RH"));
    assert!(!model.render().body.to_string().contains('-'));
    assert!(matches!(model.click(Button::Middle), Reaction::Inert));
}

#[test]
fn current_temperature_renders_emoji_value_and_unit() {
    let mut model = model();
    let view = model.apply(Ok(Sample {
        weather: Ok(Series { immediate: Some(clear_point(None)), forecast: Vec::new() }),
        air: Ok(Series { immediate: None, forecast: Vec::new() }),
    }));
    assert_eq!(view.body.to_string(), "weather [\u{2600}\u{fe0f}20\u{b0}C]");
    assert_eq!(view.health, Health::Healthy);
}

#[test]
fn aqi_forecast_takes_the_worst_health() {
    let mut model = model();
    model.latest = Some(Sample {
        weather: Err(ProbeError::Unit("down".to_owned())),
        air: Ok(Series {
            immediate: None,
            forecast: vec![(4, AirPoint { aqi: Aqi(20) }), (8, AirPoint { aqi: Aqi(120) })],
        }),
    });
    assert!(matches!(model.click(Button::Right), Reaction::Publish(_)));
    assert!(matches!(model.click(Button::Right), Reaction::Publish(_)));
    assert!(matches!(model.click(Button::Left), Reaction::Publish(_)));
    let view = model.render();
    assert_eq!(view.health, Health::Degraded);
    assert!(view.body.to_string().starts_with("weather AQI 04["));
    assert!(matches!(model.click(Button::Left), Reaction::Publish(_)));
    assert_eq!(model.render().body.to_string(), "weather: <span color='#CC6666'>current AQI missing</span>");
    assert!(matches!(model.click(Button::Right), Reaction::Publish(_)));
    assert_eq!(model.render().body.to_string(), "weather: <span color='#CC6666'>forecast: down</span>");
}

#[test]
fn hourly_points_are_chosen_by_time() {
    let times = [100, 200, 300];
    assert_eq!(immediate_index(&times, 250), Some(1));
    assert_eq!(immediate_index(&times, 50), Some(0));
    assert_eq!(immediate_index(&[], 50), None);
    assert_eq!(nearest_index(&times, 260), Some(2));
    assert_eq!(nearest_index(&times, 250), Some(1));
    assert_eq!(nearest_index(&times, 300 + 1859), Some(2));
    assert_eq!(nearest_index(&times, 300 + 1860), None);
}

#[test]
fn open_meteo_requests_name_the_place_and_variables() {
    let model = Model::new(Config {
        latitude: "52.5200".to_owned(),
        longitude: "-13.4050".to_owned(),
        units: TemperatureUnit::Fahrenheit,
    })
    .expect("the endpoints are URLs");
    assert_eq!(
        model.weather_url,
        "https://api.open-meteo.com/v1/forecast?latitude=52.5200&longitude=-13.4050\
         &current=temperature_2m%2Crelative_humidity_2m%2Cweather_code%2Cis_day\
         &hourly=temperature_2m%2Crelative_humidity_2m%2Cweather_code%2Cis_day\
         &forecast_days=2&timeformat=unixtime&timezone=UTC"
    );
    assert_eq!(
        model.air_url,
        "https://air-quality-api.open-meteo.com/v1/air-quality?latitude=52.5200&longitude=-13.4050\
         &current=us_aqi&hourly=us_aqi&forecast_days=2&timeformat=unixtime&timezone=UTC"
    );
    assert_eq!(model.units, TemperatureUnit::Fahrenheit);
}

#[test]
fn an_endpoint_that_is_no_url_is_refused() {
    let refused = open_meteo_url("not a url", "1.0000", "2.0000", "us_aqi");
    assert_eq!(
        refused,
        Err("invalid Open-Meteo URL: relative URL without a base".to_owned())
    );
}

#[test]
fn forecast_hours_run_four_apart_from_the_next_multiple_of_four() {
    assert_eq!(
        forecast_slots(5),
        vec![(0, 8), (0, 12), (0, 16), (0, 20), (1, 0), (1, 4)]
    );
    assert_eq!(
        forecast_slots(22),
        vec![(1, 0), (1, 4), (1, 8), (1, 12), (1, 16), (1, 20)]
    );
    assert_eq!(forecast_slots(0)[0], (0, 4));
}

#[test]
fn open_meteo_times_must_fit_the_calendar() {
    assert!(matches!(open_meteo_time(1_776_733_749), Ok(1_776_733_749)));
    assert!(matches!(open_meteo_time(-86_400), Ok(-86_400)));
    assert!(matches!(open_meteo_time(-8_334_601_228_800), Ok(-8_334_601_228_800)));
    assert!(matches!(open_meteo_time(8_210_266_876_799), Ok(8_210_266_876_799)));
    assert!(open_meteo_time(-8_334_601_228_801).is_err());
    assert!(open_meteo_time(8_210_266_876_800).is_err());
    assert!(matches!(
        open_meteo_time(i64::MAX),
        Err(ProbeError::Unit(message)) if message == "Open-Meteo returned an invalid timestamp"
    ));
}
