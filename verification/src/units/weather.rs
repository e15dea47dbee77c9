//! Open-Meteo temperature, humidity and air quality.

use vstd::prelude::*;

use vstd::view::View as _;

use crate::bar::{error_runs, health_rank, Button, Health, View};
use crate::color::{
    cyan, gradient_color, green, increasing, orange, red, violet, yellow, Gradient, Knot, Rgb8,
};
use crate::markup::{bracket_runs, join_runs, plain, views, Markup, RunView};
use crate::text::{dec_width, dec_zeros, decimal_width, push_aligned, push_str, str_eq};
use crate::units::{
    error_view, probe_error_text, Cycle, MouseOrbit, Posture, ProbeError, Reaction,
    RestorableCycle,
};

verus! {

broadcast use vstd::string::group_string_axioms;

/// The forecast endpoint of Open-Meteo.
pub const WEATHER_ENDPOINT: &'static str = "https://api.open-meteo.com/v1/forecast";

/// The air-quality endpoint of Open-Meteo.
pub const AIR_ENDPOINT: &'static str = "https://air-quality-api.open-meteo.com/v1/air-quality";

/// The variables asked of the forecast endpoint.
pub const WEATHER_VARIABLES: &'static str = "temperature_2m,relative_humidity_2m,weather_code,is_day";

/// The variable asked of the air-quality endpoint.
pub const AIR_VARIABLES: &'static str = "us_aqi";

/// The query parameters of an Open-Meteo request: the place, the variables
/// both current and hourly, two forecast days, Unix times in UTC.
pub open spec fn meteo_params(latitude: Seq<char>, longitude: Seq<char>, variables: Seq<char>) -> Seq<(Seq<char>, Seq<char>)> {
    seq![
        ("latitude"@, latitude),
        ("longitude"@, longitude),
        ("current"@, variables),
        ("hourly"@, variables),
        ("forecast_days"@, "2"@),
        ("timeformat"@, "unixtime"@),
        ("timezone"@, "UTC"@),
    ]
}

/// The address of an Open-Meteo request, or why the endpoint is no URL.
pub open spec fn meteo_url(endpoint: Seq<char>, latitude: Seq<char>, longitude: Seq<char>, variables: Seq<char>) -> Result<Seq<char>, Seq<char>> {
    match url_with_params(endpoint, meteo_params(latitude, longitude, variables)) {
        Ok(url) => Ok(url),
        Err(reason) => Err("invalid Open-Meteo URL: "@ + reason),
    }
}

/// The text of `endpoint` parsed as an absolute URL with `pairs` appended,
/// in order and form-encoded, to its query; or the parser's message.
pub uninterp spec fn url_with_params(endpoint: Seq<char>, pairs: Seq<(Seq<char>, Seq<char>)>) -> Result<Seq<char>, Seq<char>>;

/// The pairs of texts as pairs of character sequences.
pub open spec fn pair_views(pairs: Seq<(String, String)>) -> Seq<(Seq<char>, Seq<char>)> {
    pairs.map_values(|p: (String, String)| (p.0@, p.1@))
}

/// Wraps `url::Url::parse_with_params` (re-exported by reqwest) and
/// serialises the URL: the contract claims that the text, or the parse
/// error's message, depends on the endpoint and the pairs alone. The bounds
/// keep the serialisation far below the `u32` offsets the parser keeps.
#[verifier::external_body]
fn parse_with_params(endpoint: &str, pairs: &Vec<(String, String)>) -> (r: Result<String, String>)
    requires
        endpoint@.len() <= 0x10_0000,
        pairs.len() <= 16,
        forall|i: int| 0 <= i < pairs.len() ==> #[trigger] pairs[i].0@.len() <= 0x10_0000 && pairs[i].1@.len() <= 0x10_0000,
    ensures
        match r {
            Ok(url) => url_with_params(endpoint@, pair_views(pairs@)) == Ok::<Seq<char>, Seq<char>>(url@),
            Err(reason) => url_with_params(endpoint@, pair_views(pairs@)) == Err::<Seq<char>, Seq<char>>(reason@),
        },
{
    match reqwest::Url::parse_with_params(endpoint, pairs.iter()) {
        Ok(url) => Ok(String::from(url)),
        Err(error) => Err(error.to_string()),
    }
}

fn owned(text: &str) -> (s: String)
    ensures
        s@ == text@,
{
    text.to_string()
}

/// The address of an Open-Meteo request for a place.
pub fn open_meteo_url(endpoint: &str, latitude: &str, longitude: &str, variables: &str) -> (r: Result<String, String>)
    requires
        endpoint@.len() <= 0x10_0000,
        latitude@.len() <= 0x10_0000,
        longitude@.len() <= 0x10_0000,
        variables@.len() <= 0x10_0000,
    ensures
        match r {
            Ok(url) => meteo_url(endpoint@, latitude@, longitude@, variables@) == Ok::<Seq<char>, Seq<char>>(url@),
            Err(reason) => meteo_url(endpoint@, latitude@, longitude@, variables@) == Err::<Seq<char>, Seq<char>>(reason@),
        },
{
    let mut pairs: Vec<(String, String)> = Vec::new();
    pairs.push((owned("latitude"), owned(latitude)));
    pairs.push((owned("longitude"), owned(longitude)));
    pairs.push((owned("current"), owned(variables)));
    pairs.push((owned("hourly"), owned(variables)));
    pairs.push((owned("forecast_days"), owned("2")));
    pairs.push((owned("timeformat"), owned("unixtime")));
    pairs.push((owned("timezone"), owned("UTC")));
    proof {
        reveal_strlit("latitude");
        reveal_strlit("longitude");
        reveal_strlit("current");
        reveal_strlit("hourly");
        reveal_strlit("forecast_days");
        reveal_strlit("2");
        reveal_strlit("timeformat");
        reveal_strlit("unixtime");
        reveal_strlit("timezone");
        reveal_strlit("UTC");
        assert(pair_views(pairs@) =~= meteo_params(latitude@, longitude@, variables@));
    }
    match parse_with_params(endpoint, &pairs) {
        Ok(url) => Ok(url),
        Err(reason) => {
            let mut message = owned("invalid Open-Meteo URL: ");
            push_str(&mut message, reason.as_str());
            Err(message)
        },
    }
}

/// Whether chrono's UTC calendar holds the epoch second `seconds`: the
/// calendar runs from the first second of January 1 of the year -262143 to
/// the last second of December 31 of the year 262142.
pub open spec fn utc_holds(seconds: i64) -> bool {
    -8_334_601_228_800 <= seconds <= 8_210_266_876_799
}

/// Wraps `chrono::DateTime::<Utc>::from_timestamp` at a whole second: the
/// contract claims that it gives a time exactly for the seconds within
/// chrono's calendar, whose first and last days are `NaiveDate::MIN` and
/// `NaiveDate::MAX`.
#[verifier::external_body]
fn utc_second_exists(seconds: i64) -> (held: bool)
    ensures
        held == utc_holds(seconds),
{
    chrono::DateTime::<chrono::Utc>::from_timestamp(seconds, 0).is_some()
}

/// An epoch second that Open-Meteo sent, refused when the calendar cannot
/// hold it.
pub fn open_meteo_time(seconds: i64) -> (r: Result<i64, ProbeError>)
    ensures
        utc_holds(seconds) ==> r == Ok::<i64, ProbeError>(seconds),
        !utc_holds(seconds) ==> (r matches Err(ProbeError::Unit(m)) && m@ == "Open-Meteo returned an invalid timestamp"@),
{
    if utc_second_exists(seconds) {
        Ok(seconds)
    } else {
        Err(ProbeError::Unit("Open-Meteo returned an invalid timestamp".to_owned()))
    }
}

/// Where the forecast is asked for, and in which unit it is shown; the
/// coordinates are decimal text with four places.
#[derive(Debug)]
pub struct Config {
    pub latitude: String,
    pub longitude: String,
    pub units: TemperatureUnit,
}

/// Whether current values or the forecast are shown.
#[derive(Debug, Clone, Copy, PartialEq, Eq, Structural)]
pub enum Horizon {
    Immediate,
    Forecast,
}

impl Cycle for Horizon {
    open spec fn inv(&self) -> bool {
        true
    }

    open spec fn period(&self) -> nat {
        2
    }

    open spec fn position(&self) -> nat {
        match self {
            Horizon::Immediate => 0,
            Horizon::Forecast => 1,
        }
    }

    open spec fn same_frame(&self, other: &Self) -> bool {
        true
    }

    open spec fn step(self) -> Self {
        match self {
            Horizon::Immediate => Horizon::Forecast,
            Horizon::Forecast => Horizon::Immediate,
        }
    }

    proof fn lemma_step(s: Self) {
    }

    proof fn lemma_frame(a: Self, b: Self, c: Self) {
    }

    proof fn lemma_position_determines(a: Self, b: Self) {
    }

    fn advance(&mut self) {
        *self = match *self {
            Horizon::Immediate => Horizon::Forecast,
            Horizon::Forecast => Horizon::Immediate,
        };
    }
}

impl RestorableCycle for Horizon {
    open spec fn point_name(&self) -> Seq<char> {
        match self {
            Horizon::Immediate => "Immediate"@,
            Horizon::Forecast => "Forecast"@,
        }
    }

    proof fn lemma_name_determines(a: Self, b: Self) {
        reveal_strlit("Immediate");
        reveal_strlit("Forecast");
        match (a, b) {
            (Horizon::Immediate, Horizon::Immediate) => {},
            (Horizon::Immediate, Horizon::Forecast) => { assert("Immediate"@.len() != "Forecast"@.len()); },
            (Horizon::Forecast, Horizon::Immediate) => { assert("Forecast"@.len() != "Immediate"@.len()); },
            (Horizon::Forecast, Horizon::Forecast) => {},
        }
    }

    fn point(&self) -> (p: &'static str) {
        match self {
            Horizon::Immediate => "Immediate",
            Horizon::Forecast => "Forecast",
        }
    }

    fn has_point(&self, point: &str) -> (found: bool) {
        let found = str_eq(point, "Immediate") || str_eq(point, "Forecast");
        proof {
            if point@ == "Immediate"@ {
                assert(Horizon::Immediate.point_name() == point@);
            }
            if point@ == "Forecast"@ {
                assert(Horizon::Forecast.point_name() == point@);
            }
            assert forall|s: Self| #[trigger] s.point_name() != point@ || found by {
                match s {
                    Horizon::Immediate => {},
                    Horizon::Forecast => {},
                }
            }
        }
        found
    }

    fn seek(&mut self, point: &str) -> (found: bool) {
        if str_eq(point, "Immediate") {
            *self = Horizon::Immediate;
            assert(self.point_name() == point@);
            return true;
        }
        if str_eq(point, "Forecast") {
            *self = Horizon::Forecast;
            assert(self.point_name() == point@);
            return true;
        }
        proof {
            assert forall|s: Self| #[trigger] s.point_name() != point@ by {
                match s {
                    Horizon::Immediate => {},
                    Horizon::Forecast => {},
                }
            }
        }
        false
    }
}

/// Which quantity is shown.
#[derive(Debug, Clone, Copy, PartialEq, Eq, Structural)]
pub enum Metric {
    Temperature,
    RelativeHumidity,
    AirQuality,
}

impl Cycle for Metric {
    open spec fn inv(&self) -> bool {
        true
    }

    open spec fn period(&self) -> nat {
        3
    }

    open spec fn position(&self) -> nat {
        match self {
            Metric::Temperature => 0,
            Metric::RelativeHumidity => 1,
            Metric::AirQuality => 2,
        }
    }

    open spec fn same_frame(&self, other: &Self) -> bool {
        true
    }

    open spec fn step(self) -> Self {
        match self {
            Metric::Temperature => Metric::RelativeHumidity,
            Metric::RelativeHumidity => Metric::AirQuality,
            Metric::AirQuality => Metric::Temperature,
        }
    }

    proof fn lemma_step(s: Self) {
    }

    proof fn lemma_frame(a: Self, b: Self, c: Self) {
    }

    proof fn lemma_position_determines(a: Self, b: Self) {
    }

    fn advance(&mut self) {
        *self = match *self {
            Metric::Temperature => Metric::RelativeHumidity,
            Metric::RelativeHumidity => Metric::AirQuality,
            Metric::AirQuality => Metric::Temperature,
        };
    }
}

impl RestorableCycle for Metric {
    open spec fn point_name(&self) -> Seq<char> {
        match self {
            Metric::Temperature => "Temperature"@,
            Metric::RelativeHumidity => "RelativeHumidity"@,
            Metric::AirQuality => "AirQuality"@,
        }
    }

    proof fn lemma_name_determines(a: Self, b: Self) {
        reveal_strlit("Temperature");
        reveal_strlit("RelativeHumidity");
        reveal_strlit("AirQuality");
        match (a, b) {
            (Metric::Temperature, Metric::Temperature) => {},
            (Metric::Temperature, Metric::RelativeHumidity) => { assert("Temperature"@.len() != "RelativeHumidity"@.len()); },
            (Metric::Temperature, Metric::AirQuality) => { assert("Temperature"@.len() != "AirQuality"@.len()); },
            (Metric::RelativeHumidity, Metric::Temperature) => { assert("RelativeHumidity"@.len() != "Temperature"@.len()); },
            (Metric::RelativeHumidity, Metric::RelativeHumidity) => {},
            (Metric::RelativeHumidity, Metric::AirQuality) => { assert("RelativeHumidity"@.len() != "AirQuality"@.len()); },
            (Metric::AirQuality, Metric::Temperature) => { assert("AirQuality"@.len() != "Temperature"@.len()); },
            (Metric::AirQuality, Metric::RelativeHumidity) => { assert("AirQuality"@.len() != "RelativeHumidity"@.len()); },
            (Metric::AirQuality, Metric::AirQuality) => {},
        }
    }

    fn point(&self) -> (p: &'static str) {
        match self {
            Metric::Temperature => "Temperature",
            Metric::RelativeHumidity => "RelativeHumidity",
            Metric::AirQuality => "AirQuality",
        }
    }

    fn has_point(&self, point: &str) -> (found: bool) {
        let found = str_eq(point, "Temperature") || str_eq(point, "RelativeHumidity") || str_eq(point, "AirQuality");
        proof {
            if point@ == "Temperature"@ {
                assert(Metric::Temperature.point_name() == point@);
            }
            if point@ == "RelativeHumidity"@ {
                assert(Metric::RelativeHumidity.point_name() == point@);
            }
            if point@ == "AirQuality"@ {
                assert(Metric::AirQuality.point_name() == point@);
            }
            assert forall|s: Self| #[trigger] s.point_name() != point@ || found by {
                match s {
                    Metric::Temperature => {},
                    Metric::RelativeHumidity => {},
                    Metric::AirQuality => {},
                }
            }
        }
        found
    }

    fn seek(&mut self, point: &str) -> (found: bool) {
        if str_eq(point, "Temperature") {
            *self = Metric::Temperature;
            assert(self.point_name() == point@);
            return true;
        }
        if str_eq(point, "RelativeHumidity") {
            *self = Metric::RelativeHumidity;
            assert(self.point_name() == point@);
            return true;
        }
        if str_eq(point, "AirQuality") {
            *self = Metric::AirQuality;
            assert(self.point_name() == point@);
            return true;
        }
        proof {
            assert forall|s: Self| #[trigger] s.point_name() != point@ by {
                match s {
                    Metric::Temperature => {},
                    Metric::RelativeHumidity => {},
                    Metric::AirQuality => {},
                }
            }
        }
        false
    }
}
/// The cold-to-hot scale of U.S. AQI: cyan at 0, violet from 200 on.
pub open spec fn aqi_knots() -> (Knot, Seq<Knot>) {
    (
        Knot { at: 0, color: cyan() },
        seq![
            Knot { at: 40, color: green() },
            Knot { at: 80, color: yellow() },
            Knot { at: 120, color: orange() },
            Knot { at: 160, color: red() },
            Knot { at: 200, color: violet() },
        ],
    )
}

/// The air-quality scale starts at cyan, meets each band's color at the
/// band's edge, and stays violet from 200 on.
pub proof fn lemma_aqi_scale_ends(v: int)
    ensures
        v <= 0 ==> gradient_color(aqi_knots().0, aqi_knots().1, v) == cyan(),
        v >= 200 ==> gradient_color(aqi_knots().0, aqi_knots().1, v) == violet(),
        forall|i: int| 0 <= i < 5 ==> gradient_color(aqi_knots().0, aqi_knots().1, #[trigger] aqi_knots().1[i].at as int) == aqi_knots().1[i].color,
{
    let (root, rest) = aqi_knots();
    assert(increasing(root, rest));
    assert(rest.last() == rest[4]);
    if v >= 200 {
        crate::color::lemma_gradient_holds_past_the_last_stop(root, rest, v);
    }
    assert forall|i: int| 0 <= i < 5 implies gradient_color(root, rest, #[trigger] rest[i].at as int) == rest[i].color by {
        crate::color::lemma_gradient_meets_its_stops(root, rest, i, 0);
    }
}

pub open spec fn swamp_green() -> Rgb8 {
    Rgb8 { r: 0x7E, g: 0x9F, b: 0x54 }
}

pub open spec fn bog_green() -> Rgb8 {
    Rgb8 { r: 0x66, g: 0x84, b: 0x4F }
}

pub open spec fn rot_brown() -> Rgb8 {
    Rgb8 { r: 0x91, g: 0x65, b: 0x4F }
}

pub open spec fn corpse_purple() -> Rgb8 {
    Rgb8 { r: 0x87, g: 0x5F, b: 0x70 }
}

pub open spec fn fetid_violet() -> Rgb8 {
    Rgb8 { r: 0x98, g: 0x71, b: 0x8F }
}

/// Relative humidity from dry yellow through comfort and swamp greens,
/// bog brown, into corpse purple.
pub open spec fn humidity_knots() -> (Knot, Seq<Knot>) {
    (
        Knot { at: 0, color: yellow() },
        seq![
            Knot { at: 30, color: yellow() },
            Knot { at: 45, color: green() },
            Knot { at: 62, color: swamp_green() },
            Knot { at: 76, color: bog_green() },
            Knot { at: 86, color: rot_brown() },
            Knot { at: 93, color: corpse_purple() },
            Knot { at: 100, color: fetid_violet() },
        ],
    )
}

pub fn aqi_colors() -> (g: Gradient)
    ensures
        g.wf(),
        (g.root, g.rest@) == aqi_knots(),
{
    let mut rest = Vec::new();
    rest.push(Knot { at: 40, color: green() });
    rest.push(Knot { at: 80, color: yellow() });
    rest.push(Knot { at: 120, color: orange() });
    rest.push(Knot { at: 160, color: red() });
    rest.push(Knot { at: 200, color: violet() });
    assert(rest@ =~= aqi_knots().1);
    Gradient::new(Knot { at: 0, color: cyan() }, rest)
}

pub fn humidity_colors() -> (g: Gradient)
    ensures
        g.wf(),
        (g.root, g.rest@) == humidity_knots(),
{
    let mut rest = Vec::new();
    rest.push(Knot { at: 30, color: yellow() });
    rest.push(Knot { at: 45, color: green() });
    rest.push(Knot { at: 62, color: Rgb8 { r: 0x7E, g: 0x9F, b: 0x54 } });
    rest.push(Knot { at: 76, color: Rgb8 { r: 0x66, g: 0x84, b: 0x4F } });
    rest.push(Knot { at: 86, color: Rgb8 { r: 0x91, g: 0x65, b: 0x4F } });
    rest.push(Knot { at: 93, color: Rgb8 { r: 0x87, g: 0x5F, b: 0x70 } });
    rest.push(Knot { at: 100, color: Rgb8 { r: 0x98, g: 0x71, b: 0x8F } });
    assert(rest@ =~= humidity_knots().1);
    Gradient::new(Knot { at: 0, color: yellow() }, rest)
}

/// A U.S. Air Quality Index value.
#[derive(Debug, Clone, Copy, PartialEq, Eq, Structural)]
pub struct Aqi(pub u16);

/// The EPA categories of U.S. AQI.
#[derive(Debug, Clone, Copy, PartialEq, Eq, Structural)]
pub enum AqiBand {
    Good,
    Moderate,
    UnhealthyForSensitiveGroups,
    Unhealthy,
    VeryUnhealthy,
    Hazardous,
}

pub open spec fn band_of(v: u16) -> AqiBand {
    if v <= 50 {
        AqiBand::Good
    } else if v <= 100 {
        AqiBand::Moderate
    } else if v <= 150 {
        AqiBand::UnhealthyForSensitiveGroups
    } else if v <= 200 {
        AqiBand::Unhealthy
    } else if v <= 300 {
        AqiBand::VeryUnhealthy
    } else {
        AqiBand::Hazardous
    }
}

pub open spec fn band_health(b: AqiBand) -> Health {
    match b {
        AqiBand::Good | AqiBand::Moderate => Health::Healthy,
        AqiBand::UnhealthyForSensitiveGroups => Health::Degraded,
        _ => Health::Error,
    }
}

/// The runs of an AQI value: three columns in its scale color.
pub open spec fn aqi_runs(a: Aqi) -> Seq<RunView> {
    seq![(dec_width(a.0 as nat, 3), Some(gradient_color(aqi_knots().0, aqi_knots().1, a.0 as int)))]
}

impl AqiBand {
    pub fn health(self) -> (h: Health)
        ensures
            h == band_health(self),
    {
        match self {
            AqiBand::Good | AqiBand::Moderate => Health::Healthy,
            AqiBand::UnhealthyForSensitiveGroups => Health::Degraded,
            AqiBand::Unhealthy | AqiBand::VeryUnhealthy | AqiBand::Hazardous => Health::Error,
        }
    }
}

impl Aqi {
    pub fn band(self) -> (b: AqiBand)
        ensures
            b == band_of(self.0),
    {
        if self.0 <= 50 {
            AqiBand::Good
        } else if self.0 <= 100 {
            AqiBand::Moderate
        } else if self.0 <= 150 {
            AqiBand::UnhealthyForSensitiveGroups
        } else if self.0 <= 200 {
            AqiBand::Unhealthy
        } else if self.0 <= 300 {
            AqiBand::VeryUnhealthy
        } else {
            AqiBand::Hazardous
        }
    }

    pub fn health(self) -> (h: Health)
        ensures
            h == band_health(band_of(self.0)),
    {
        self.band().health()
    }

    pub fn markup(self) -> (m: Markup)
        ensures
            m@ == aqi_runs(self),
    {
        let color = aqi_colors().sample(self.0 as i64);
        let m = Markup::owned(decimal_width(self.0 as u64, 3)).fg(color);
        assert(m@ =~= aqi_runs(self));
        m
    }
}

/// A relative humidity rounded to a whole percentage.
#[derive(Debug, Clone, Copy, PartialEq, Eq, Structural)]
pub struct RelativeHumidity(pub u8);

pub open spec fn humidity_runs(h: RelativeHumidity) -> Seq<RunView> {
    seq![
        (dec_width(h.0 as nat, 3) + "%"@, Some(
            gradient_color(humidity_knots().0, humidity_knots().1, h.0 as int),
        )),
    ]
}

impl RelativeHumidity {
    pub fn markup(self) -> (m: Markup)
        ensures
            m@ == humidity_runs(self),
    {
        let color = humidity_colors().sample(self.0 as i64);
        let mut text = decimal_width(self.0 as u64, 3);
        push_str(&mut text, "%");
        let m = Markup::owned(text).fg(color);
        assert(m@ =~= humidity_runs(self));
        m
    }
}

/// The unit that temperatures are shown in.
#[derive(Debug, Clone, Copy, PartialEq, Eq, Structural)]
pub enum TemperatureUnit {
    Celsius,
    Fahrenheit,
}

impl TemperatureUnit {
    pub fn suffix(self) -> (s: &'static str)
        ensures
            s@ == (match self {
                TemperatureUnit::Celsius => "C"@,
                TemperatureUnit::Fahrenheit => "F"@,
            }),
    {
        match self {
            TemperatureUnit::Celsius => "C",
            TemperatureUnit::Fahrenheit => "F",
        }
    }
}

/// WMO weather interpretation codes as Open-Meteo reports them.
#[derive(Debug, Clone, Copy, PartialEq, Eq, Structural)]
pub enum Wmo {
    ClearSky,
    MainlyClear,
    PartlyCloudy,
    Overcast,
    Fog,
    DepositingRimeFog,
    DrizzleLight,
    DrizzleModerate,
    DrizzleDense,
    FreezingDrizzleLight,
    FreezingDrizzleDense,
    RainSlight,
    RainModerate,
    RainHeavy,
    FreezingRainLight,
    FreezingRainHeavy,
    SnowfallSlight,
    SnowfallModerate,
    SnowfallHeavy,
    SnowGrains,
    RainShowersSlight,
    RainShowersModerate,
    RainShowersViolent,
    SnowShowersSlight,
    SnowShowersHeavy,
    Thunderstorm,
    ThunderstormWithHail,
    ThunderstormWithHailDup,
}

/// The code of a condition.
pub open spec fn wmo_code(w: Wmo) -> u8 {
    match w {
        Wmo::ClearSky => 0,
        Wmo::MainlyClear => 1,
        Wmo::PartlyCloudy => 2,
        Wmo::Overcast => 3,
        Wmo::Fog => 45,
        Wmo::DepositingRimeFog => 48,
        Wmo::DrizzleLight => 51,
        Wmo::DrizzleModerate => 53,
        Wmo::DrizzleDense => 55,
        Wmo::FreezingDrizzleLight => 56,
        Wmo::FreezingDrizzleDense => 57,
        Wmo::RainSlight => 61,
        Wmo::RainModerate => 63,
        Wmo::RainHeavy => 65,
        Wmo::FreezingRainLight => 66,
        Wmo::FreezingRainHeavy => 67,
        Wmo::SnowfallSlight => 71,
        Wmo::SnowfallModerate => 73,
        Wmo::SnowfallHeavy => 75,
        Wmo::SnowGrains => 77,
        Wmo::RainShowersSlight => 80,
        Wmo::RainShowersModerate => 81,
        Wmo::RainShowersViolent => 82,
        Wmo::SnowShowersSlight => 85,
        Wmo::SnowShowersHeavy => 86,
        Wmo::Thunderstorm => 95,
        Wmo::ThunderstormWithHail => 96,
        Wmo::ThunderstormWithHailDup => 99,
    }
}

/// The emoji of a condition by day or by night.
pub open spec fn emoji_text(w: Wmo, daylight: bool) -> Seq<char> {
    match w {
        Wmo::ClearSky => if daylight {
            "\u{2600}\u{fe0f}"@
        } else {
            "\u{1f319}"@
        },
        Wmo::MainlyClear => if daylight {
            "\u{1f324}\u{fe0f}"@
        } else {
            "\u{1f319}\u{2601}\u{fe0f}"@
        },
        Wmo::PartlyCloudy => if !daylight {
            "\u{1f319}\u{2601}\u{fe0f}"@
        } else {
            "\u{26c5}"@
        },
        Wmo::Overcast => "\u{2601}\u{fe0f}"@,
        Wmo::Fog | Wmo::DepositingRimeFog => "\u{1f32b}\u{fe0f}"@,
        Wmo::DrizzleLight | Wmo::RainSlight | Wmo::RainShowersSlight => if daylight {
            "\u{1f326}\u{fe0f}"@
        } else {
            "\u{1f319}\u{1f327}\u{fe0f}"@
        },
        Wmo::DrizzleModerate | Wmo::RainModerate | Wmo::RainShowersModerate => "\u{1f327}\u{fe0f}"@,
        Wmo::DrizzleDense | Wmo::RainHeavy | Wmo::RainShowersViolent => "\u{1f327}\u{fe0f}\u{1f327}\u{fe0f}"@,
        Wmo::FreezingDrizzleLight
        | Wmo::FreezingDrizzleDense
        | Wmo::FreezingRainLight
        | Wmo::FreezingRainHeavy => "\u{1f327}\u{fe0f}\u{1f9ca}"@,
        Wmo::SnowfallSlight | Wmo::SnowShowersSlight | Wmo::SnowGrains => "\u{1f328}\u{fe0f}"@,
        Wmo::SnowfallModerate => "\u{1f328}\u{fe0f}\u{1f328}\u{fe0f}"@,
        Wmo::SnowfallHeavy | Wmo::SnowShowersHeavy => "\u{1f328}\u{fe0f}\u{1f328}\u{fe0f}\u{1f328}\u{fe0f}"@,
        Wmo::Thunderstorm | Wmo::ThunderstormWithHail | Wmo::ThunderstormWithHailDup => "\u{26c8}\u{fe0f}"@,
    }
}

impl Wmo {
    /// The condition that a WMO code names, if it is one that Open-Meteo uses.
    pub fn from_code(code: u8) -> (w: Option<Wmo>)
        ensures
            match w {
                Some(w) => wmo_code(w) == code,
                None => forall|v: Wmo| wmo_code(v) != code,
            },
    {
        let w = match code {
            0 => Wmo::ClearSky,
            1 => Wmo::MainlyClear,
            2 => Wmo::PartlyCloudy,
            3 => Wmo::Overcast,
            45 => Wmo::Fog,
            48 => Wmo::DepositingRimeFog,
            51 => Wmo::DrizzleLight,
            53 => Wmo::DrizzleModerate,
            55 => Wmo::DrizzleDense,
            56 => Wmo::FreezingDrizzleLight,
            57 => Wmo::FreezingDrizzleDense,
            61 => Wmo::RainSlight,
            63 => Wmo::RainModerate,
            65 => Wmo::RainHeavy,
            66 => Wmo::FreezingRainLight,
            67 => Wmo::FreezingRainHeavy,
            71 => Wmo::SnowfallSlight,
            73 => Wmo::SnowfallModerate,
            75 => Wmo::SnowfallHeavy,
            77 => Wmo::SnowGrains,
            80 => Wmo::RainShowersSlight,
            81 => Wmo::RainShowersModerate,
            82 => Wmo::RainShowersViolent,
            85 => Wmo::SnowShowersSlight,
            86 => Wmo::SnowShowersHeavy,
            95 => Wmo::Thunderstorm,
            96 => Wmo::ThunderstormWithHail,
            99 => Wmo::ThunderstormWithHailDup,
            _ => {
                proof {
                    assert forall|v: Wmo| wmo_code(v) != code by {
                        match v {
                            _ => {},
                        }
                    }
                }
                return None;
            },
        };
        Some(w)
    }

    /// The emoji of a condition by day or by night.
    pub fn emoji(self, daylight: bool) -> (s: &'static str)
        ensures
            s@ == emoji_text(self, daylight),
    {
        match self {
            Wmo::ClearSky => if daylight {
                "\u{2600}\u{fe0f}"
            } else {
                "\u{1f319}"
            },
            Wmo::MainlyClear => if daylight {
                "\u{1f324}\u{fe0f}"
            } else {
                "\u{1f319}\u{2601}\u{fe0f}"
            },
            Wmo::PartlyCloudy => if !daylight {
                "\u{1f319}\u{2601}\u{fe0f}"
            } else {
                "\u{26c5}"
            },
            Wmo::Overcast => "\u{2601}\u{fe0f}",
            Wmo::Fog | Wmo::DepositingRimeFog => "\u{1f32b}\u{fe0f}",
            Wmo::DrizzleLight | Wmo::RainSlight | Wmo::RainShowersSlight => if daylight {
                "\u{1f326}\u{fe0f}"
            } else {
                "\u{1f319}\u{1f327}\u{fe0f}"
            },
            Wmo::DrizzleModerate | Wmo::RainModerate | Wmo::RainShowersModerate => "\u{1f327}\u{fe0f}",
            Wmo::DrizzleDense | Wmo::RainHeavy | Wmo::RainShowersViolent => "\u{1f327}\u{fe0f}\u{1f327}\u{fe0f}",
            Wmo::FreezingDrizzleLight
            | Wmo::FreezingDrizzleDense
            | Wmo::FreezingRainLight
            | Wmo::FreezingRainHeavy => "\u{1f327}\u{fe0f}\u{1f9ca}",
            Wmo::SnowfallSlight | Wmo::SnowShowersSlight | Wmo::SnowGrains => "\u{1f328}\u{fe0f}",
            Wmo::SnowfallModerate => "\u{1f328}\u{fe0f}\u{1f328}\u{fe0f}",
            Wmo::SnowfallHeavy | Wmo::SnowShowersHeavy => "\u{1f328}\u{fe0f}\u{1f328}\u{fe0f}\u{1f328}\u{fe0f}",
            Wmo::Thunderstorm | Wmo::ThunderstormWithHail | Wmo::ThunderstormWithHailDup => "\u{26c8}\u{fe0f}",
        }
    }
}


/// The temperature unit's suffix.
pub open spec fn suffix_text(u: TemperatureUnit) -> Seq<char> {
    match u {
        TemperatureUnit::Celsius => "C"@,
        TemperatureUnit::Fahrenheit => "F"@,
    }
}

/// One hour of weather: the temperature, already rendered in the
/// configured unit with its color, the condition, whether it is day, and
/// the relative humidity when the service reported one.
#[derive(Debug)]
pub struct WeatherPoint {
    pub temperature: Markup,
    pub condition: Wmo,
    pub daylight: bool,
    pub relative_humidity: Option<RelativeHumidity>,
}

/// One hour of air quality.
#[derive(Debug, Clone, Copy, PartialEq, Eq, Structural)]
pub struct AirPoint {
    pub aqi: Aqi,
}

/// A feed reduced to what is shown: the point that stands for now, and
/// the forecast points labelled with their local hour.
#[derive(Debug)]
pub struct Series<P> {
    pub immediate: Option<P>,
    pub forecast: Vec<(u32, P)>,
}

/// The two feeds of one probe; each fails on its own.
#[derive(Debug)]
pub struct Sample {
    pub weather: Result<Series<WeatherPoint>, ProbeError>,
    pub air: Result<Series<AirPoint>, ProbeError>,
}

/// The two endpoints that a probe fetches.
#[derive(Debug)]
pub struct Request {
    pub weather_url: String,
    pub air_url: String,
}

/// The weather unit: its endpoints, its temperature unit, the horizon and
/// metric axes, and the latest sample.
#[derive(Debug)]
pub struct Model {
    pub weather_url: String,
    pub air_url: String,
    pub units: TemperatureUnit,
    pub modes: MouseOrbit<Horizon, Metric>,
    pub latest: Option<Sample>,
}

/// The runs of a weather point: emoji, temperature and degree sign.
pub open spec fn point_runs(p: WeatherPoint, u: TemperatureUnit) -> Seq<RunView> {
    plain(emoji_text(p.condition, p.daylight)) + p.temperature@ + plain("\u{b0}"@ + suffix_text(u))
}

/// A forecast hour: two zero-padded digits, then the bracketed body.
pub open spec fn hour_runs(hour: u32, body: Seq<RunView>) -> Seq<RunView> {
    plain(dec_zeros(hour as nat, 2)) + bracket_runs(body)
}

/// Forecast hours joined by dashes.
pub open spec fn forecast_runs(parts: Seq<Seq<RunView>>) -> Seq<RunView> {
    join_runs(plain("-"@), parts)
}

pub open spec fn weather_parts(pts: Seq<(u32, WeatherPoint)>, u: TemperatureUnit) -> Seq<Seq<RunView>> {
    Seq::new(pts.len(), |i: int| hour_runs(pts[i].0, point_runs(pts[i].1, u)))
}

/// The forecast hours that carry a relative humidity, in order.
pub open spec fn humidity_points(pts: Seq<(u32, WeatherPoint)>) -> Seq<(u32, RelativeHumidity)>
    decreases pts.len(),
{
    if pts.len() == 0 {
        Seq::empty()
    } else {
        let prev = humidity_points(pts.drop_last());
        match pts.last().1.relative_humidity {
            Some(h) => prev.push((pts.last().0, h)),
            None => prev,
        }
    }
}

pub open spec fn humidity_parts(pts: Seq<(u32, RelativeHumidity)>) -> Seq<Seq<RunView>> {
    Seq::new(pts.len(), |i: int| hour_runs(pts[i].0, humidity_runs(pts[i].1)))
}

pub open spec fn air_parts(pts: Seq<(u32, AirPoint)>) -> Seq<Seq<RunView>> {
    Seq::new(pts.len(), |i: int| hour_runs(pts[i].0, aqi_runs(pts[i].1.aqi)))
}

/// The more severe of two healths.
pub open spec fn worse(a: Health, b: Health) -> Health {
    if health_rank(a) >= health_rank(b) {
        a
    } else {
        b
    }
}

/// The most severe health among the forecast hours.
pub open spec fn worst_air(pts: Seq<(u32, AirPoint)>) -> Health
    decreases pts.len(),
{
    if pts.len() == 0 {
        Health::Healthy
    } else {
        worse(worst_air(pts.drop_last()), band_health(band_of(pts.last().1.aqi.0)))
    }
}

/// The temperature view of a weather series.
pub open spec fn temperature_view(s: Series<WeatherPoint>, horizon: Horizon, u: TemperatureUnit) -> (Seq<RunView>, Health) {
    match horizon {
        Horizon::Immediate => match s.immediate {
            Some(p) => (plain("weather "@) + bracket_runs(point_runs(p, u)), Health::Healthy),
            None => (error_runs("weather"@, "current forecast missing"@), Health::Error),
        },
        Horizon::Forecast => if s.forecast@.len() == 0 {
            (plain("weather forecast unavailable"@), Health::Degraded)
        } else {
            (plain("weather "@) + forecast_runs(weather_parts(s.forecast@, u)), Health::Healthy)
        },
    }
}

/// The relative humidity view of a weather series.
pub open spec fn humidity_view(s: Series<WeatherPoint>, horizon: Horizon) -> (Seq<RunView>, Health) {
    match horizon {
        Horizon::Immediate => match s.immediate {
            Some(p) => match p.relative_humidity {
                Some(h) => (
                    plain("weather "@) + bracket_runs(plain("RH "@) + humidity_runs(h)),
                    Health::Healthy,
                ),
                None => (error_runs("weather"@, "current relative humidity missing"@), Health::Error),
            },
            None => (error_runs("weather"@, "current relative humidity missing"@), Health::Error),
        },
        Horizon::Forecast => {
            let pts = humidity_points(s.forecast@);
            if pts.len() == 0 {
                (plain("weather RH forecast unavailable"@), Health::Degraded)
            } else {
                (plain("weather RH "@) + forecast_runs(humidity_parts(pts)), Health::Healthy)
            }
        },
    }
}

/// The air quality view of an air series.
pub open spec fn air_view(s: Series<AirPoint>, horizon: Horizon) -> (Seq<RunView>, Health) {
    match horizon {
        Horizon::Immediate => match s.immediate {
            Some(p) => (
                plain("weather "@) + bracket_runs(plain("AQI "@) + aqi_runs(p.aqi)),
                band_health(band_of(p.aqi.0)),
            ),
            None => (error_runs("weather"@, "current AQI missing"@), Health::Error),
        },
        Horizon::Forecast => if s.forecast@.len() == 0 {
            (plain("weather AQI forecast unavailable"@), Health::Degraded)
        } else {
            (plain("weather AQI "@) + forecast_runs(air_parts(s.forecast@)), worst_air(s.forecast@))
        },
    }
}

/// What the unit shows for a sample under the current coordinates: each
/// metric reads only its own feed, so a failed feed shows only under the
/// metric that needs it.
pub open spec fn sample_view(s: Sample, modes: MouseOrbit<Horizon, Metric>, u: TemperatureUnit) -> (Seq<RunView>, Health) {
    match modes.right {
        Metric::Temperature => match s.weather {
            Ok(series) => temperature_view(series, modes.left, u),
            Err(e) => (error_runs("weather"@, "forecast: "@ + probe_error_text(e)), Health::Error),
        },
        Metric::RelativeHumidity => match s.weather {
            Ok(series) => humidity_view(series, modes.left),
            Err(e) => (error_runs("weather"@, "forecast: "@ + probe_error_text(e)), Health::Error),
        },
        Metric::AirQuality => match s.air {
            Ok(series) => air_view(series, modes.left),
            Err(e) => (error_runs("weather"@, "AQI: "@ + probe_error_text(e)), Health::Error),
        },
    }
}

/// What the unit shows: a loading placeholder before the first sample.
pub open spec fn model_view(latest: Option<Sample>, modes: MouseOrbit<Horizon, Metric>, u: TemperatureUnit) -> (Seq<RunView>, Health) {
    match latest {
        None => (crate::bar::loading_runs("weather"@), Health::Degraded),
        Some(s) => sample_view(s, modes, u),
    }
}

fn forecast_join(parts: Vec<Markup>) -> (m: Markup)
    ensures
        m@ == forecast_runs(views(parts@)),
{
    Markup::join("-", parts)
}

fn hour_markup(hour: u32, body: Markup) -> (m: Markup)
    ensures
        m@ == hour_runs(hour, body@),
{
    let mut digits = String::new();
    push_aligned(&mut digits, hour as u64, 2, '0');
    let m = Markup::owned(digits).append(Markup::bracketed(body));
    assert(m@ =~= hour_runs(hour, body@));
    m
}

fn error_with(prefix: &str, error: &ProbeError) -> (v: View)
    ensures
        v.body@ == error_runs("weather"@, prefix@ + probe_error_text(*error)),
        v.health == Health::Error,
{
    let mut message = String::new();
    push_str(&mut message, prefix);
    let text = error.message();
    push_str(&mut message, text.as_str());
    View::error("weather", message.as_str())
}

impl Model {
    pub open spec fn wf(&self) -> bool {
        self.modes.inv()
    }

    /// A unit for a place: both Open-Meteo endpoints are asked for the
    /// current values and two days of hourly forecast at the coordinates.
    pub fn new(config: Config) -> (r: Result<Model, String>)
        requires
            config.latitude@.len() <= 0x10_0000,
            config.longitude@.len() <= 0x10_0000,
        ensures
            ({
                let weather = meteo_url(WEATHER_ENDPOINT@, config.latitude@, config.longitude@, WEATHER_VARIABLES@);
                let air = meteo_url(AIR_ENDPOINT@, config.latitude@, config.longitude@, AIR_VARIABLES@);
                match r {
                    Ok(m) => {
                        &&& weather matches Ok(w) && m.weather_url@ == w
                        &&& air matches Ok(a) && m.air_url@ == a
                        &&& m.wf()
                        &&& m.units == config.units
                        &&& m.modes == (MouseOrbit { left: Horizon::Immediate, right: Metric::Temperature })
                        &&& m.latest is None
                    },
                    Err(e) => match weather {
                        Err(we) => e@ == we,
                        Ok(_) => air matches Err(ae) && e@ == ae,
                    },
                }
            }),
    {
        proof {
            reveal_strlit("https://api.open-meteo.com/v1/forecast");
            reveal_strlit("https://air-quality-api.open-meteo.com/v1/air-quality");
            reveal_strlit("temperature_2m,relative_humidity_2m,weather_code,is_day");
            reveal_strlit("us_aqi");
        }
        let weather_url = match open_meteo_url(
            WEATHER_ENDPOINT,
            config.latitude.as_str(),
            config.longitude.as_str(),
            WEATHER_VARIABLES,
        ) {
            Ok(url) => url,
            Err(error) => return Err(error),
        };
        let air_url = match open_meteo_url(
            AIR_ENDPOINT,
            config.latitude.as_str(),
            config.longitude.as_str(),
            AIR_VARIABLES,
        ) {
            Ok(url) => url,
            Err(error) => return Err(error),
        };
        Ok(Model::from_urls(weather_url, air_url, config.units))
    }

    /// A unit that starts on the current temperature.
    pub fn from_urls(weather_url: String, air_url: String, units: TemperatureUnit) -> (m: Model)
        ensures
            m.wf(),
            m.weather_url == weather_url,
            m.air_url == air_url,
            m.units == units,
            m.modes == (MouseOrbit { left: Horizon::Immediate, right: Metric::Temperature }),
            (m.latest is None),
    {
        Model {
            weather_url,
            air_url,
            units,
            modes: MouseOrbit::new(Horizon::Immediate, Metric::Temperature),
            latest: None,
        }
    }

    /// Both endpoints are fetched on every probe.
    pub fn request(&self) -> (r: Request)
        ensures
            r.weather_url@ == self.weather_url@,
            r.air_url@ == self.air_url@,
    {
        Request { weather_url: self.weather_url.clone(), air_url: self.air_url.clone() }
    }

    fn point_markup(&self, p: &WeatherPoint) -> (m: Markup)
        ensures
            m@ == point_runs(*p, self.units),
    {
        let mut degree = String::new();
        push_str(&mut degree, "\u{b0}");
        push_str(&mut degree, self.units.suffix());
        let m = Markup::text(p.condition.emoji(p.daylight)).append(p.temperature.clone()).append(
            Markup::owned(degree),
        );
        assert(m@ =~= point_runs(*p, self.units));
        m
    }

    fn temperature_now(&self, s: &Series<WeatherPoint>) -> (v: View)
        ensures
            (v.body@, v.health) == temperature_view(*s, Horizon::Immediate, self.units),
    {
        match &s.immediate {
            Some(p) => {
                let body = Markup::text("weather ").append(Markup::bracketed(self.point_markup(p)));
                View::ok(body)
            },
            None => View::error("weather", "current forecast missing"),
        }
    }

    fn temperature_forecast(&self, s: &Series<WeatherPoint>) -> (v: View)
        ensures
            (v.body@, v.health) == temperature_view(*s, Horizon::Forecast, self.units),
    {
        let n = s.forecast.len();
        if n == 0 {
            return View::new(Markup::text("weather forecast unavailable"), Health::Degraded);
        }
        let ghost want = weather_parts(s.forecast@, self.units);
        let mut parts: Vec<Markup> = Vec::new();
        for i in 0..n
            invariant
                n == s.forecast@.len(),
                want == weather_parts(s.forecast@, self.units),
                parts@.len() == i,
                forall|j: int| 0 <= j < i ==> #[trigger] parts@[j]@ == want[j],
        {
            let part = hour_markup(s.forecast[i].0, self.point_markup(&s.forecast[i].1));
            parts.push(part);
        }
        assert(views(parts@) =~= want);
        View::ok(Markup::text("weather ").append(forecast_join(parts)))
    }

    fn humidity_now(s: &Series<WeatherPoint>) -> (v: View)
        ensures
            (v.body@, v.health) == humidity_view(*s, Horizon::Immediate),
    {
        match &s.immediate {
            Some(p) => match p.relative_humidity {
                Some(h) => View::ok(
                    Markup::text("weather ").append(
                        Markup::bracketed(Markup::text("RH ").append(h.markup())),
                    ),
                ),
                None => View::error("weather", "current relative humidity missing"),
            },
            None => View::error("weather", "current relative humidity missing"),
        }
    }

    fn humidity_forecast(s: &Series<WeatherPoint>) -> (v: View)
        ensures
            (v.body@, v.health) == humidity_view(*s, Horizon::Forecast),
    {
        let n = s.forecast.len();
        let mut parts: Vec<Markup> = Vec::new();
        for i in 0..n
            invariant
                n == s.forecast@.len(),
                views(parts@) == humidity_parts(humidity_points(s.forecast@.take(i as int))),
        {
            let ghost next = s.forecast@.take((i + 1) as int);
            let ghost prev = humidity_points(s.forecast@.take(i as int));
            proof {
                assert(next.drop_last() =~= s.forecast@.take(i as int));
                assert(next.last() == s.forecast@[i as int]);
            }
            let ghost before = parts@;
            match s.forecast[i].1.relative_humidity {
                Some(h) => {
                    parts.push(hour_markup(s.forecast[i].0, h.markup()));
                    proof {
                        let pts = prev.push((s.forecast@[i as int].0, h));
                        assert(humidity_points(next) == pts);
                        assert(views(before) == humidity_parts(prev));
                        assert(views(before).len() == prev.len());
                        assert forall|j: int| 0 <= j < pts.len() implies #[trigger] views(parts@)[j]
                            == humidity_parts(pts)[j] by {
                            if j < prev.len() {
                                assert(views(before)[j] == humidity_parts(prev)[j]);
                                assert(parts@[j] == before[j]);
                            }
                        }
                        assert(views(parts@) =~= humidity_parts(humidity_points(next)));
                    }
                },
                None => {
                    proof {
                        assert(humidity_points(next) == prev);
                    }
                },
            }
        }
        proof {
            assert(s.forecast@.take(n as int) =~= s.forecast@);
        }
        if parts.len() == 0 {
            return View::new(Markup::text("weather RH forecast unavailable"), Health::Degraded);
        }
        View::ok(Markup::text("weather RH ").append(forecast_join(parts)))
    }

    fn aqi_now(s: &Series<AirPoint>) -> (v: View)
        ensures
            (v.body@, v.health) == air_view(*s, Horizon::Immediate),
    {
        match s.immediate {
            Some(p) => View::new(
                Markup::text("weather ").append(
                    Markup::bracketed(Markup::text("AQI ").append(p.aqi.markup())),
                ),
                p.aqi.health(),
            ),
            None => View::error("weather", "current AQI missing"),
        }
    }

    fn aqi_forecast(s: &Series<AirPoint>) -> (v: View)
        ensures
            (v.body@, v.health) == air_view(*s, Horizon::Forecast),
    {
        let n = s.forecast.len();
        if n == 0 {
            return View::new(Markup::text("weather AQI forecast unavailable"), Health::Degraded);
        }
        let ghost want = air_parts(s.forecast@);
        let mut parts: Vec<Markup> = Vec::new();
        let mut health = Health::Healthy;
        for i in 0..n
            invariant
                n == s.forecast@.len(),
                want == air_parts(s.forecast@),
                parts@.len() == i,
                forall|j: int| 0 <= j < i ==> #[trigger] parts@[j]@ == want[j],
                health == worst_air(s.forecast@.take(i as int)),
        {
            proof {
                assert(s.forecast@.take((i + 1) as int).drop_last() =~= s.forecast@.take(i as int));
            }
            let aqi = s.forecast[i].1.aqi;
            health = health.worst(aqi.health());
            parts.push(hour_markup(s.forecast[i].0, aqi.markup()));
        }
        proof {
            assert(s.forecast@.take(n as int) =~= s.forecast@);
        }
        assert(views(parts@) =~= want);
        View::new(Markup::text("weather AQI ").append(forecast_join(parts)), health)
    }

    /// The view of the latest sample under the current coordinates.
    pub fn render(&self) -> (v: View)
        ensures
            (v.body@, v.health) == model_view(self.latest, self.modes, self.units),
    {
        match &self.latest {
            None => View::loading("weather"),
            Some(sample) => {
                let horizon = *self.modes.left();
                match *self.modes.right() {
                    Metric::Temperature => match &sample.weather {
                        Ok(series) => match horizon {
                            Horizon::Immediate => self.temperature_now(series),
                            Horizon::Forecast => self.temperature_forecast(series),
                        },
                        Err(error) => error_with("forecast: ", error),
                    },
                    Metric::RelativeHumidity => match &sample.weather {
                        Ok(series) => match horizon {
                            Horizon::Immediate => Self::humidity_now(series),
                            Horizon::Forecast => Self::humidity_forecast(series),
                        },
                        Err(error) => error_with("forecast: ", error),
                    },
                    Metric::AirQuality => match &sample.air {
                        Ok(series) => match horizon {
                            Horizon::Immediate => Self::aqi_now(series),
                            Horizon::Forecast => Self::aqi_forecast(series),
                        },
                        Err(error) => error_with("AQI: ", error),
                    },
                }
            },
        }
    }

    /// Keeps a successful sample and renders it; a failed probe shows its
    /// error and keeps nothing new.
    pub fn apply(&mut self, reply: Result<Sample, ProbeError>) -> (v: View)
        requires
            old(self).wf(),
        ensures
            final(self).wf(),
            final(self).modes == old(self).modes,
            final(self).units == old(self).units,
            match reply {
                Ok(s) => final(self).latest == Some(s) && (v.body@, v.health) == sample_view(
                    s,
                    final(self).modes,
                    final(self).units,
                ),
                Err(e) => final(self).latest == old(self).latest && v.body@ == error_runs(
                    "weather"@,
                    probe_error_text(e),
                ) && v.health == Health::Error,
            },
    {
        match reply {
            Ok(sample) => {
                self.latest = Some(sample);
                self.render()
            },
            Err(error) => error_view("weather", error),
        }
    }

    /// Left and right clicks move the horizon and the metric and show the
    /// data already held; other buttons do nothing.
    pub fn click(&mut self, button: Button) -> (r: Reaction)
        requires
            old(self).wf(),
        ensures
            final(self).wf(),
            final(self).modes == crate::units::act_spec(old(self).modes, button),
            final(self).latest == old(self).latest,
            final(self).units == old(self).units,
            (button == Button::Left || button == Button::Right) ==> match r {
                Reaction::Publish(v) => (v.body@, v.health) == model_view(
                    final(self).latest,
                    final(self).modes,
                    final(self).units,
                ),
                _ => false,
            },
            !(button == Button::Left || button == Button::Right) ==> (r is Inert),
    {
        if self.modes.act(button) {
            Reaction::publish(self.render())
        } else {
            Reaction::inert()
        }
    }

    pub fn posture(&self) -> (p: Posture)
        requires
            self.wf(),
        ensures
            p@ == seq![self.modes.left.point_name(), self.modes.right.point_name()],
    {
        Posture::from_orbit(&self.modes)
    }

    pub fn restore(&mut self, posture: &Posture) -> (applied: bool)
        requires
            old(self).wf(),
        ensures
            final(self).wf(),
            (applied, final(self).modes) == crate::units::restored_orbit(posture@, old(self).modes),
            final(self).latest == old(self).latest,
            final(self).units == old(self).units,
    {
        posture.restore_orbit(&mut self.modes)
    }
}


/// A failed feed shows only under the metric that reads it: whatever the
/// weather feed holds, the air quality views stay those of the air feed,
/// and whatever the air feed holds, the temperature and humidity views stay
/// those of the weather feed.
pub proof fn lemma_feed_failures_are_confined(
    weather: Result<Series<WeatherPoint>, ProbeError>,
    other_weather: Result<Series<WeatherPoint>, ProbeError>,
    air: Result<Series<AirPoint>, ProbeError>,
    other_air: Result<Series<AirPoint>, ProbeError>,
    modes: MouseOrbit<Horizon, Metric>,
    u: TemperatureUnit,
)
    ensures
        modes.right == Metric::AirQuality ==> sample_view(Sample { weather, air }, modes, u)
            == sample_view(Sample { weather: other_weather, air }, modes, u),
        modes.right != Metric::AirQuality ==> sample_view(Sample { weather, air }, modes, u)
            == sample_view(Sample { weather, air: other_air }, modes, u),
{
}

/// The distance in seconds between two instants.
pub open spec fn distance(a: i64, b: i64) -> int {
    if a >= b {
        a - b
    } else {
        b - a
    }
}

/// The `step`-th local hour that the forecast shows when it is `hour`
/// o'clock now: the hours run four apart from the first multiple of four
/// after now; each is given as the number of days after today and the hour
/// of that day.
pub open spec fn forecast_slot(hour: int, step: int) -> (int, int) {
    let total = hour / 4 * 4 + 4 + 4 * step;
    (total / 24, total % 24)
}

/// The six local hours that the forecast shows, as days after today and
/// hours of the day.
pub fn forecast_slots(hour: u32) -> (slots: Vec<(u32, u32)>)
    ensures
        slots@.len() == 6,
        forall|k: int|
            0 <= k < 6 ==> #[trigger] slots@[k].0 == forecast_slot(hour as int, k).0
                && slots@[k].1 == forecast_slot(hour as int, k).1,
{
    let start: u64 = (hour / 4) as u64 * 4 + 4;
    let mut slots: Vec<(u32, u32)> = Vec::new();
    let mut step: u64 = 0;
    while step < 6
        invariant
            step <= 6,
            start == hour as int / 4 * 4 + 4,
            slots@.len() == step,
            forall|k: int|
                0 <= k < step ==> #[trigger] slots@[k].0 == forecast_slot(hour as int, k).0
                    && slots@[k].1 == forecast_slot(hour as int, k).1,
        decreases 6 - step,
    {
        let total: u64 = start + 4 * step;
        slots.push(((total / 24) as u32, (total % 24) as u32));
        step = step + 1;
    }
    slots
}

/// The hourly point that stands for now when the service sent no current
/// values: the last one at or before `now`, or else the first.
pub fn immediate_index(times: &[i64], now: i64) -> (r: Option<usize>)
    ensures
        (r is None) <==> times@.len() == 0,
        r matches Some(i) ==> i < times@.len() && (forall|j: int|
            i < j < times@.len() ==> times@[j] > now) && (times@[i as int] <= now || (i == 0
            && forall|j: int| 0 <= j < times@.len() ==> times@[j] > now)),
{
    let n = times.len();
    let mut k = n;
    while k > 0
        invariant
            k <= n == times@.len(),
            forall|j: int| k <= j < n ==> times@[j] > now,
        decreases k,
    {
        if times[k - 1] <= now {
            return Some(k - 1);
        }
        k = k - 1;
    }
    if n == 0 {
        None
    } else {
        Some(0)
    }
}

/// The hourly point nearest to `target` (the first of equally near ones),
/// if it lies within thirty whole minutes of it.
pub fn nearest_index(times: &[i64], target: i64) -> (r: Option<usize>)
    ensures
        r matches Some(i) ==> {
            &&& i < times@.len()
            &&& distance(times@[i as int], target) < 1860
            &&& forall|j: int| 0 <= j < times@.len() ==> distance(times@[i as int], target) <= distance(times@[j], target)
            &&& forall|j: int| 0 <= j < i ==> distance(times@[j], target) > distance(times@[i as int], target)
        },
        (r is None) ==> forall|j: int| 0 <= j < times@.len() ==> distance(times@[j], target) >= 1860,
{
    let n = times.len();
    let mut best: Option<usize> = None;
    let mut best_distance: u128 = 0;
    for k in 0..n
        invariant
            n == times@.len(),
            best is None <==> k == 0,
            best matches Some(i) ==> {
                &&& i < k
                &&& best_distance == distance(times@[i as int], target)
                &&& forall|j: int| 0 <= j < k ==> distance(times@[i as int], target) <= distance(times@[j], target)
                &&& forall|j: int| 0 <= j < i ==> distance(times@[j], target) > distance(times@[i as int], target)
            },
    {
        let t = times[k];
        let d: u128 = if t >= target {
            (t as i128 - target as i128) as u128
        } else {
            (target as i128 - t as i128) as u128
        };
        match best {
            None => {
                best = Some(k);
                best_distance = d;
            },
            Some(_) => {
                if d < best_distance {
                    best = Some(k);
                    best_distance = d;
                }
            },
        }
    }
    match best {
        Some(i) => {
            if best_distance < 1860 {
                Some(i)
            } else {
                None
            }
        },
        None => None,
    }
}

} // verus!
