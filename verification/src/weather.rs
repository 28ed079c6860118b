//! Weather and air quality (American customary units).

use vstd::prelude::*;
use vstd::string::StringExecFns;

use crate::config::{AIR_QUALITY_API_BASE, FORECAST_API_BASE, FORECAST_DAYS};
use crate::text::{decimal, law_decimal_digits, push_decimal};

verus! {

/// Icon buckets. The `ui` module maps these to drawn glyphs.
#[derive(Debug, Clone, Copy, PartialEq, Eq, Structural)]
pub enum WeatherIcon {
    Clear,
    PartlyCloudy,
    Cloudy,
    Fog,
    Drizzle,
    Rain,
    Snow,
    Thunderstorm,
    Unknown,
}

/// Human-readable weather condition mapped from a WMO weather code.
#[derive(Debug, Clone, Copy, PartialEq, Eq)]
pub struct WeatherCondition {
    /// The raw WMO weather interpretation code.
    pub code: u16,
    /// Short human-readable label (e.g. "Partly cloudy").
    pub label: &'static str,
    /// A compact glyph key the UI can render.
    pub icon: WeatherIcon,
}

/// The label and the icon of a WMO weather interpretation code.
pub open spec fn code_meaning(code: u16) -> (Seq<char>, WeatherIcon) {
    match code {
        0 => ("Clear sky"@, WeatherIcon::Clear),
        1 => ("Mainly clear"@, WeatherIcon::Clear),
        2 => ("Partly cloudy"@, WeatherIcon::PartlyCloudy),
        3 => ("Overcast"@, WeatherIcon::Cloudy),
        45 | 48 => ("Fog"@, WeatherIcon::Fog),
        51 => ("Light drizzle"@, WeatherIcon::Drizzle),
        53 => ("Drizzle"@, WeatherIcon::Drizzle),
        55 => ("Dense drizzle"@, WeatherIcon::Drizzle),
        56 | 57 => ("Freezing drizzle"@, WeatherIcon::Drizzle),
        61 => ("Light rain"@, WeatherIcon::Rain),
        63 => ("Rain"@, WeatherIcon::Rain),
        65 => ("Heavy rain"@, WeatherIcon::Rain),
        66 | 67 => ("Freezing rain"@, WeatherIcon::Rain),
        71 => ("Light snow"@, WeatherIcon::Snow),
        73 => ("Snow"@, WeatherIcon::Snow),
        75 => ("Heavy snow"@, WeatherIcon::Snow),
        77 => ("Snow grains"@, WeatherIcon::Snow),
        80 => ("Light showers"@, WeatherIcon::Rain),
        81 => ("Showers"@, WeatherIcon::Rain),
        82 => ("Violent showers"@, WeatherIcon::Rain),
        85 | 86 => ("Snow showers"@, WeatherIcon::Snow),
        95 => ("Thunderstorm"@, WeatherIcon::Thunderstorm),
        96 | 99 => ("Thunderstorm w/ hail"@, WeatherIcon::Thunderstorm),
        _ => ("Unknown"@, WeatherIcon::Unknown),
    }
}

/// A condition is what its code stands for.
pub open spec fn describes(c: WeatherCondition, code: u16) -> bool {
    c.code == code && (c.label@, c.icon) == code_meaning(code)
}

/// Map a WMO weather interpretation code to a human-readable condition.
///
/// Reference: <https://open-meteo.com/en/docs> ("Weather variable documentation"
/// -> WMO Weather interpretation codes).
pub fn describe_weather_code(code: u16) -> (c: WeatherCondition)
    ensures
        describes(c, code),
{
    let (label, icon) = match code {
        0 => ("Clear sky", WeatherIcon::Clear),
        1 => ("Mainly clear", WeatherIcon::Clear),
        2 => ("Partly cloudy", WeatherIcon::PartlyCloudy),
        3 => ("Overcast", WeatherIcon::Cloudy),
        45 | 48 => ("Fog", WeatherIcon::Fog),
        51 => ("Light drizzle", WeatherIcon::Drizzle),
        53 => ("Drizzle", WeatherIcon::Drizzle),
        55 => ("Dense drizzle", WeatherIcon::Drizzle),
        56 | 57 => ("Freezing drizzle", WeatherIcon::Drizzle),
        61 => ("Light rain", WeatherIcon::Rain),
        63 => ("Rain", WeatherIcon::Rain),
        65 => ("Heavy rain", WeatherIcon::Rain),
        66 | 67 => ("Freezing rain", WeatherIcon::Rain),
        71 => ("Light snow", WeatherIcon::Snow),
        73 => ("Snow", WeatherIcon::Snow),
        75 => ("Heavy snow", WeatherIcon::Snow),
        77 => ("Snow grains", WeatherIcon::Snow),
        80 => ("Light showers", WeatherIcon::Rain),
        81 => ("Showers", WeatherIcon::Rain),
        82 => ("Violent showers", WeatherIcon::Rain),
        85 | 86 => ("Snow showers", WeatherIcon::Snow),
        95 => ("Thunderstorm", WeatherIcon::Thunderstorm),
        96 | 99 => ("Thunderstorm w/ hail", WeatherIcon::Thunderstorm),
        _ => ("Unknown", WeatherIcon::Unknown),
    };
    WeatherCondition { code, label, icon }
}

/// The icon of a code is that of the group of ten it stands in: clear up to partly cloudy and
/// overcast, fog, drizzle, rain, snow, showers of rain or of snow, thunderstorms. A code that is
/// none of the scale has the icon and the label for the unknown, and no other code has either.
pub proof fn law_icons_by_group(code: u16)
    ensures
        ({
            let (label, icon) = code_meaning(code);
            let known = code <= 3 || seq![
                45u16,
                48,
                51,
                53,
                55,
                56,
                57,
                61,
                63,
                65,
                66,
                67,
                71,
                73,
                75,
                77,
                80,
                81,
                82,
                85,
                86,
                95,
                96,
                99,
            ].contains(code);
            &&& known ==> {
                &&& code <= 1 <==> icon is Clear
                &&& code == 2 <==> icon is PartlyCloudy
                &&& code == 3 <==> icon is Cloudy
                &&& 40 <= code < 50 <==> icon is Fog
                &&& 50 <= code < 60 <==> icon is Drizzle
                &&& 60 <= code < 70 || 80 <= code < 85 <==> icon is Rain
                &&& 70 <= code < 80 || 85 <= code < 90 <==> icon is Snow
                &&& 90 <= code <==> icon is Thunderstorm
            }
            &&& !known <==> icon is Unknown
            &&& !known <==> label == "Unknown"@
        }),
{
    lemma_labels(code);
    let codes = seq![
        45u16,
        48,
        51,
        53,
        55,
        56,
        57,
        61,
        63,
        65,
        66,
        67,
        71,
        73,
        75,
        77,
        80,
        81,
        82,
        85,
        86,
        95,
        96,
        99,
    ];
    assert(codes.contains(code) <==> {
        ||| code == 45 || code == 48
        ||| code == 51 || code == 53 || 55 <= code <= 57
        ||| code == 61 || code == 63 || 65 <= code <= 67
        ||| code == 71 || code == 73 || code == 75 || code == 77
        ||| 80 <= code <= 82 || code == 85 || code == 86
        ||| code == 95 || code == 96 || code == 99
    }) by {
        assert(codes[0] == 45 && codes[1] == 48 && codes[2] == 51 && codes[3] == 53);
        assert(codes[4] == 55 && codes[5] == 56 && codes[6] == 57 && codes[7] == 61);
        assert(codes[8] == 63 && codes[9] == 65 && codes[10] == 66 && codes[11] == 67);
        assert(codes[12] == 71 && codes[13] == 73 && codes[14] == 75 && codes[15] == 77);
        assert(codes[16] == 80 && codes[17] == 81 && codes[18] == 82 && codes[19] == 85);
        assert(codes[20] == 86 && codes[21] == 95 && codes[22] == 96 && codes[23] == 99);
    }
}

/// The weak and the strong intensity of drizzle, rain, snow and showers have labels that are made
/// from that of the moderate one: the weak is called light and the strong dense, heavy or violent.
/// The freezing kinds of drizzle and rain are called freezing; showers of snow are snow showers; a
/// thunderstorm with hail is a thunderstorm. The moderate label is the name of the group.
pub proof fn law_labels_name_group_and_intensity()
    ensures
        code_meaning(53).0 == "Drizzle"@,
        code_meaning(63).0 == "Rain"@,
        code_meaning(73).0 == "Snow"@,
        code_meaning(81).0 == "Showers"@,
        code_meaning(95).0 == "Thunderstorm"@,
        code_meaning(45).0 == "Fog"@ && code_meaning(48).0 == "Fog"@,
        code_meaning(51).0 == "Light d"@ + code_meaning(53).0.skip(1),
        code_meaning(61).0 == "Light r"@ + code_meaning(63).0.skip(1),
        code_meaning(71).0 == "Light s"@ + code_meaning(73).0.skip(1),
        code_meaning(80).0 == "Light s"@ + code_meaning(81).0.skip(1),
        code_meaning(55).0 == "Dense d"@ + code_meaning(53).0.skip(1),
        code_meaning(65).0 == "Heavy r"@ + code_meaning(63).0.skip(1),
        code_meaning(75).0 == "Heavy s"@ + code_meaning(73).0.skip(1),
        code_meaning(82).0 == "Violent s"@ + code_meaning(81).0.skip(1),
        forall|c: u16|
            56 <= c <= 57 ==> (#[trigger] code_meaning(c)).0 == "Freezing d"@ + code_meaning(
                53,
            ).0.skip(1),
        forall|c: u16|
            66 <= c <= 67 ==> (#[trigger] code_meaning(c)).0 == "Freezing r"@ + code_meaning(
                63,
            ).0.skip(1),
        forall|c: u16|
            85 <= c <= 86 ==> (#[trigger] code_meaning(c)).0 == code_meaning(73).0 + " s"@
                + code_meaning(81).0.skip(1),
        code_meaning(77).0 == code_meaning(73).0 + " grains"@,
        forall|c: u16|
            c == 96 || c == 99 ==> (#[trigger] code_meaning(c)).0 == code_meaning(95).0
                + " w/ hail"@,
        code_meaning(0).0 == "Clear sky"@,
        code_meaning(1).0 == "Mainly clear"@,
        code_meaning(2).0 == "Partly cloudy"@,
        code_meaning(3).0 == "Overcast"@,
{
    reveal_strlit("Drizzle");
    reveal_strlit("Rain");
    reveal_strlit("Snow");
    reveal_strlit("Showers");
    reveal_strlit("Thunderstorm");
    reveal_strlit("Light d");
    reveal_strlit("Light r");
    reveal_strlit("Light s");
    reveal_strlit("Dense d");
    reveal_strlit("Heavy r");
    reveal_strlit("Heavy s");
    reveal_strlit("Violent s");
    reveal_strlit("Freezing d");
    reveal_strlit("Freezing r");
    reveal_strlit(" s");
    reveal_strlit(" grains");
    reveal_strlit(" w/ hail");
    reveal_strlit("Light drizzle");
    reveal_strlit("Dense drizzle");
    reveal_strlit("Freezing drizzle");
    reveal_strlit("Light rain");
    reveal_strlit("Heavy rain");
    reveal_strlit("Freezing rain");
    reveal_strlit("Light snow");
    reveal_strlit("Heavy snow");
    reveal_strlit("Snow grains");
    reveal_strlit("Light showers");
    reveal_strlit("Violent showers");
    reveal_strlit("Snow showers");
    reveal_strlit("Thunderstorm w/ hail");
}

/// Only the icon for the unknown has the label for the unknown.
proof fn lemma_labels(code: u16)
    ensures
        code_meaning(code).0 == "Unknown"@ <==> code_meaning(code).1 is Unknown,
{
    reveal_strlit("Unknown");
    reveal_strlit("Clear sky");
    reveal_strlit("Mainly clear");
    reveal_strlit("Partly cloudy");
    reveal_strlit("Overcast");
    reveal_strlit("Fog");
    reveal_strlit("Light drizzle");
    reveal_strlit("Drizzle");
    reveal_strlit("Dense drizzle");
    reveal_strlit("Freezing drizzle");
    reveal_strlit("Light rain");
    reveal_strlit("Rain");
    reveal_strlit("Heavy rain");
    reveal_strlit("Freezing rain");
    reveal_strlit("Light snow");
    reveal_strlit("Snow");
    reveal_strlit("Heavy snow");
    reveal_strlit("Snow grains");
    reveal_strlit("Light showers");
    reveal_strlit("Showers");
    reveal_strlit("Violent showers");
    reveal_strlit("Snow showers");
    reveal_strlit("Thunderstorm");
    reveal_strlit("Thunderstorm w/ hail");
    assert("Unknown"@[0] == 'U');
}

/// The category of a US AQI value (EPA breakpoints).
pub open spec fn aqi_band(aqi: u16) -> Seq<char> {
    if aqi <= 50 {
        "Good"@
    } else if aqi <= 100 {
        "Moderate"@
    } else if aqi <= 150 {
        "Unhealthy (SG)"@
    } else if aqi <= 200 {
        "Unhealthy"@
    } else if aqi <= 300 {
        "Very Unhealthy"@
    } else {
        "Hazardous"@
    }
}

/// The air is called good exactly up to 50, moderate from there up to 100, unhealthy for sensitive
/// groups up to 150, unhealthy up to 200, very unhealthy up to 300, and hazardous exactly above.
pub proof fn law_aqi_breakpoints(aqi: u16)
    ensures
        aqi_band(aqi) == "Good"@ <==> aqi <= 50,
        aqi_band(aqi) == "Moderate"@ <==> 50 < aqi <= 100,
        aqi_band(aqi) == "Unhealthy (SG)"@ <==> 100 < aqi <= 150,
        aqi_band(aqi) == "Unhealthy"@ <==> 150 < aqi <= 200,
        aqi_band(aqi) == "Very Unhealthy"@ <==> 200 < aqi <= 300,
        aqi_band(aqi) == "Hazardous"@ <==> 300 < aqi,
{
    reveal_strlit("Good");
    reveal_strlit("Moderate");
    reveal_strlit("Unhealthy (SG)");
    reveal_strlit("Unhealthy");
    reveal_strlit("Very Unhealthy");
    reveal_strlit("Hazardous");
    assert("Good"@.len() == 4 && "Moderate"@.len() == 8);
    assert("Unhealthy"@.len() == 9 && "Unhealthy"@[0] == 'U');
    assert("Hazardous"@.len() == 9 && "Hazardous"@[0] == 'H');
    assert("Unhealthy (SG)"@.len() == 14 && "Unhealthy (SG)"@[0] == 'U');
    assert("Very Unhealthy"@.len() == 14 && "Very Unhealthy"@[0] == 'V');
}

/// US AQI category label for a given AQI value (EPA breakpoints).
pub fn aqi_category(aqi: u16) -> (s: &'static str)
    ensures
        s@ == aqi_band(aqi),
{
    match aqi {
        0..=50 => "Good",
        51..=100 => "Moderate",
        101..=150 => "Unhealthy (SG)",
        151..=200 => "Unhealthy",
        201..=300 => "Very Unhealthy",
        _ => "Hazardous",
    }
}

/// The exposure category of a UV index (WHO scale), by its whole part.
pub open spec fn uv_band(whole: int) -> Seq<char> {
    if whole < 3 {
        "Low"@
    } else if whole < 6 {
        "Moderate"@
    } else if whole < 8 {
        "High"@
    } else if whole < 11 {
        "Very High"@
    } else {
        "Extreme"@
    }
}

/// Exposure is called low exactly below 3, moderate from there up to below 6, high below 8, very
/// high below 11, and extreme exactly from 11 on.
pub proof fn law_uv_breakpoints(whole: int)
    ensures
        uv_band(whole) == "Low"@ <==> whole < 3,
        uv_band(whole) == "Moderate"@ <==> 3 <= whole < 6,
        uv_band(whole) == "High"@ <==> 6 <= whole < 8,
        uv_band(whole) == "Very High"@ <==> 8 <= whole < 11,
        uv_band(whole) == "Extreme"@ <==> 11 <= whole,
{
    reveal_strlit("Low");
    reveal_strlit("Moderate");
    reveal_strlit("High");
    reveal_strlit("Very High");
    reveal_strlit("Extreme");
    assert("Low"@.len() == 3 && "Moderate"@.len() == 8 && "High"@.len() == 4);
    assert("Very High"@.len() == 9 && "Extreme"@.len() == 7);
}

/// UV exposure category label for a given UV index (WHO scale), by its whole part: the breakpoints
/// are whole numbers, so the fraction does not matter.
pub fn uv_category(whole: i64) -> (s: &'static str)
    ensures
        s@ == uv_band(whole as int),
{
    if whole < 3 {
        "Low"
    } else if whole < 6 {
        "Moderate"
    } else if whole < 8 {
        "High"
    } else if whole < 11 {
        "Very High"
    } else {
        "Extreme"
    }
}

/// A UV index: as it is shown, and its whole part.
#[derive(Debug, Clone)]
pub struct UvIndex {
    pub shown: String,
    pub whole: i64,
}

/// A single day in the multi-day forecast row. Temperatures are whole degrees as they are shown.
#[derive(Debug, Clone)]
pub struct DailyForecast {
    /// ISO date string (`YYYY-MM-DD`).
    pub date: String,
    pub high_f: String,
    pub low_f: String,
    pub condition: WeatherCondition,
}

/// The full weather snapshot rendered on screen. Measurements are whole numbers as they are shown.
#[derive(Debug, Clone)]
pub struct WeatherData {
    pub temperature_f: String,
    pub feels_like_f: String,
    pub humidity_pct: String,
    pub wind_mph: String,
    pub condition: WeatherCondition,
    /// US AQI (EPA scale). `None` when the air-quality API had no value.
    pub us_aqi: Option<u16>,
    /// Current UV index. `None` when the air-quality API had no value.
    pub uv_index: Option<UvIndex>,
    pub daily: Vec<DailyForecast>,
    /// Offset of the location's local time from UTC.
    pub utc_offset_seconds: i64,
}

/// The current conditions of a forecast response.
pub struct CurrentBlock {
    pub temperature_2m: String,
    pub relative_humidity_2m: String,
    pub apparent_temperature: String,
    pub weather_code: u16,
    pub wind_speed_10m: String,
}

/// The days of a forecast response, column by column.
pub struct DailyBlock {
    pub time: Vec<String>,
    pub weather_code: Vec<u16>,
    pub temperature_2m_max: Vec<String>,
    pub temperature_2m_min: Vec<String>,
}

/// A forecast response.
pub struct ForecastResponse {
    pub current: CurrentBlock,
    pub daily: DailyBlock,
    pub utc_offset_seconds: i64,
}

/// An air-quality response.
pub struct AirQuality {
    pub us_aqi: Option<u16>,
    pub uv_index: Option<UvIndex>,
}

/// The smaller of two lengths.
pub open spec fn shorter(a: nat, b: nat) -> nat {
    if a < b {
        a
    } else {
        b
    }
}

impl DailyBlock {
    /// How many days all columns have.
    pub open spec fn days(&self) -> nat {
        shorter(
            shorter(
                shorter(self.time@.len(), self.weather_code@.len()),
                self.temperature_2m_max@.len(),
            ),
            self.temperature_2m_min@.len(),
        )
    }
}

/// A day of the forecast row is row `i` of the columns.
pub open spec fn is_day(day: DailyForecast, b: DailyBlock, i: int) -> bool {
    &&& day.date@ == b.time@[i]@
    &&& day.high_f@ == b.temperature_2m_max@[i]@
    &&& day.low_f@ == b.temperature_2m_min@[i]@
    &&& describes(day.condition, b.weather_code@[i])
}

/// A day of the forecast is one that all columns have, and every such day is in it. Its date is
/// that of its row, its high the greatest and its low the least temperature of that row, and its
/// condition what the row's code stands for.
pub proof fn law_days_are_rows(day: DailyForecast, b: DailyBlock, i: int)
    requires
        0 <= i,
    ensures
        i < b.days() <==> {
            &&& i < b.time@.len()
            &&& i < b.weather_code@.len()
            &&& i < b.temperature_2m_max@.len()
            &&& i < b.temperature_2m_min@.len()
        },
        is_day(day, b, i) <==> {
            &&& day.date@ == b.time@[i]@
            &&& day.high_f@ == b.temperature_2m_max@[i]@
            &&& day.low_f@ == b.temperature_2m_min@[i]@
            &&& day.condition.code == b.weather_code@[i]
            &&& day.condition.label@ == code_meaning(b.weather_code@[i]).0
            &&& day.condition.icon == code_meaning(b.weather_code@[i]).1
        },
{
}

fn least(a: usize, b: usize) -> (n: usize)
    ensures
        n == shorter(a as nat, b as nat),
{
    if a < b {
        a
    } else {
        b
    }
}

/// The weather is put together from a forecast and, if there is any, from the air quality.
pub open spec fn gathered(
    data: WeatherData,
    f: ForecastResponse,
    air: Option<AirQuality>,
) -> bool {
    &&& data.temperature_f@ == f.current.temperature_2m@
    &&& data.feels_like_f@ == f.current.apparent_temperature@
    &&& data.humidity_pct@ == f.current.relative_humidity_2m@
    &&& data.wind_mph@ == f.current.wind_speed_10m@
    &&& describes(data.condition, f.current.weather_code)
    &&& data.us_aqi == match air {
        Some(a) => a.us_aqi,
        None => None,
    }
    &&& data.uv_index == match air {
        Some(a) => a.uv_index,
        None => None,
    }
    &&& data.utc_offset_seconds == f.utc_offset_seconds
    &&& data.daily@.len() == f.daily.days()
    &&& forall|i: int| 0 <= i < f.daily.days() ==> is_day(#[trigger] data.daily@[i], f.daily, i)
}

/// Every measurement is shown as the responses gave it, each in its own place. Whether the air
/// quality is there changes nothing but the air quality index and the UV index, which are missing
/// without it.
pub proof fn law_measurements_keep_their_places(
    data: WeatherData,
    f: ForecastResponse,
    air: Option<AirQuality>,
)
    requires
        gathered(data, f, air),
    ensures
        data.temperature_f@ == f.current.temperature_2m@,
        data.feels_like_f@ == f.current.apparent_temperature@,
        data.humidity_pct@ == f.current.relative_humidity_2m@,
        data.wind_mph@ == f.current.wind_speed_10m@,
        data.condition.code == f.current.weather_code,
        data.condition.label@ == code_meaning(f.current.weather_code).0,
        data.condition.icon == code_meaning(f.current.weather_code).1,
        air is None ==> data.us_aqi is None && data.uv_index is None,
        air is Some ==> data.us_aqi == air->0.us_aqi && data.uv_index == air->0.uv_index,
        gathered((WeatherData { us_aqi: None, uv_index: None, ..data }), f, None),
        data.utc_offset_seconds == f.utc_offset_seconds,
        forall|i: int|
            0 <= i < data.daily@.len() ==> {
                &&& (#[trigger] data.daily@[i]).date@ == f.daily.time@[i]@
                &&& data.daily@[i].high_f@ == f.daily.temperature_2m_max@[i]@
                &&& data.daily@[i].low_f@ == f.daily.temperature_2m_min@[i]@
                &&& data.daily@[i].condition.code == f.daily.weather_code@[i]
                &&& data.daily@[i].condition.icon == code_meaning(f.daily.weather_code@[i]).1
            },
        data.daily@.len() <= f.daily.time@.len(),
        data.daily@.len() == f.daily.time@.len() || data.daily@.len() == f.daily.weather_code@.len()
            || data.daily@.len() == f.daily.temperature_2m_max@.len() || data.daily@.len()
            == f.daily.temperature_2m_min@.len(),
{
}

/// The weather from what the two requests gave. The air quality is best-effort: without it the
/// forecast still counts, with no AQI and no UV index, so a partial air-quality outage doesn't
/// blank the screen.
pub fn fetch<E>(forecast: Result<ForecastResponse, E>, air: Option<AirQuality>) -> (r: Result<
    WeatherData,
    E,
>)
    ensures
        match forecast {
            Err(e) => r == Err::<WeatherData, E>(e),
            Ok(f) => {
                &&& r matches Ok(data)
                &&& gathered(data, f, air)
            },
        },
{
    let f = match forecast {
        Err(e) => {
            return Err(e);
        },
        Ok(f) => f,
    };
    let days: usize = least(
        least(
            least(f.daily.time.len(), f.daily.weather_code.len()),
            f.daily.temperature_2m_max.len(),
        ),
        f.daily.temperature_2m_min.len(),
    );
    let mut daily: Vec<DailyForecast> = Vec::new();
    let mut i: usize = 0;
    while i < days
        invariant
            days == f.daily.days(),
            i <= days,
            daily@.len() == i,
            forall|j: int| 0 <= j < i ==> is_day(#[trigger] daily@[j], f.daily, j),
        decreases days - i,
    {
        daily.push(
            DailyForecast {
                date: f.daily.time[i].clone(),
                high_f: f.daily.temperature_2m_max[i].clone(),
                low_f: f.daily.temperature_2m_min[i].clone(),
                condition: describe_weather_code(f.daily.weather_code[i]),
            },
        );
        i = i + 1;
    }
    let (us_aqi, uv_index) = match air {
        Some(a) => (a.us_aqi, a.uv_index),
        None => (None, None),
    };
    Ok(
        WeatherData {
            temperature_f: f.current.temperature_2m,
            feels_like_f: f.current.apparent_temperature,
            humidity_pct: f.current.relative_humidity_2m,
            wind_mph: f.current.wind_speed_10m,
            condition: describe_weather_code(f.current.weather_code),
            us_aqi,
            uv_index,
            daily,
            utc_offset_seconds: f.utc_offset_seconds,
        },
    )
}

/// The forecast request for a position, its coordinates written out.
pub open spec fn forecast_url(lat: Seq<char>, lon: Seq<char>) -> Seq<char> {
    FORECAST_API_BASE@ + "?latitude="@ + lat + "&longitude="@ + lon
        + "&current=temperature_2m,relative_humidity_2m,apparent_temperature,weather_code,wind_speed_10m"@
        + "&daily=weather_code,temperature_2m_max,temperature_2m_min"@
        + "&temperature_unit=fahrenheit&wind_speed_unit=mph&precipitation_unit=inch"@
        + "&timezone=auto&forecast_days="@ + decimal(FORECAST_DAYS as nat)
}

/// A text occurs in another.
pub open spec fn occurs(part: Seq<char>, whole: Seq<char>) -> bool {
    exists|i: int|
        0 <= i <= whole.len() - part.len() && #[trigger] whole.subrange(i, i + part.len()) == part
}

proof fn lemma_occurs(part: Seq<char>, before: Seq<char>, after: Seq<char>)
    ensures
        occurs(part, before + part + after),
{
    let whole = before + part + after;
    let i = before.len() as int;
    assert(whole.subrange(i, i + part.len()) =~= part);
}

proof fn lemma_occurs_within(part: Seq<char>, inner: Seq<char>, before: Seq<char>, after: Seq<char>)
    requires
        occurs(part, inner),
    ensures
        occurs(part, before + inner + after),
{
    let k = choose|k: int|
        0 <= k <= inner.len() - part.len() && #[trigger] inner.subrange(k, k + part.len()) == part;
    let whole = before + inner + after;
    let i = before.len() + k;
    assert(whole.subrange(i, i + part.len()) =~= inner.subrange(k, k + part.len()));
}

/// The forecast is asked of the forecast service over a secure connection, for the latitude and the
/// longitude given, each under its own name.
pub proof fn law_forecast_is_for_the_position(lat: Seq<char>, lon: Seq<char>)
    ensures
        ("https://api.open-meteo.com/v1/forecast?latitude="@ + lat + "&longitude="@ + lon
            + "&"@).is_prefix_of(forecast_url(lat, lon)),
{
    reveal_strlit("https://api.open-meteo.com/v1/forecast");
    reveal_strlit("?latitude=");
    reveal_strlit("https://api.open-meteo.com/v1/forecast?latitude=");
    reveal_strlit("&");
    reveal_strlit(
        "&current=temperature_2m,relative_humidity_2m,apparent_temperature,weather_code,wind_speed_10m",
    );
    assert("https://api.open-meteo.com/v1/forecast"@ + "?latitude="@
        =~= "https://api.open-meteo.com/v1/forecast?latitude="@);
    let start = FORECAST_API_BASE@ + "?latitude="@ + lat + "&longitude="@ + lon;
    let current =
        "&current=temperature_2m,relative_humidity_2m,apparent_temperature,weather_code,wind_speed_10m"@;
    assert(current[0] == '&');
    assert((start + "&"@).is_prefix_of(start + current)) by {
        assert((start + "&"@) =~= (start + current).take(start.len() as int + 1));
    }
    assert((start + current).is_prefix_of(forecast_url(lat, lon)));
}

/// What is asked for is in American units: degrees Fahrenheit, miles per hour and inches; for four
/// days, in the time zone of the place.
pub proof fn law_forecast_is_in_american_units(lat: Seq<char>, lon: Seq<char>)
    ensures
        occurs("&temperature_unit=fahrenheit"@, forecast_url(lat, lon)),
        occurs("&wind_speed_unit=mph"@, forecast_url(lat, lon)),
        occurs("&precipitation_unit=inch"@, forecast_url(lat, lon)),
        occurs("&timezone=auto&forecast_days=4"@, forecast_url(lat, lon)),
{
    let units = "&temperature_unit=fahrenheit&wind_speed_unit=mph&precipitation_unit=inch"@;
    reveal_strlit("&temperature_unit=fahrenheit&wind_speed_unit=mph&precipitation_unit=inch");
    reveal_strlit("&temperature_unit=fahrenheit");
    reveal_strlit("&wind_speed_unit=mph");
    reveal_strlit("&precipitation_unit=inch");
    reveal_strlit("&timezone=auto&forecast_days=");
    reveal_strlit("&timezone=auto&forecast_days=4");
    let a = "&temperature_unit=fahrenheit"@;
    let b = "&wind_speed_unit=mph"@;
    let c = "&precipitation_unit=inch"@;
    assert(units =~= a + b + c);
    assert(units =~= Seq::<char>::empty() + a + (b + c));
    assert(units =~= (a + b) + c + Seq::<char>::empty());
    lemma_occurs(a, Seq::empty(), b + c);
    lemma_occurs(b, a, c);
    lemma_occurs(c, a + b, Seq::empty());
    let before = FORECAST_API_BASE@ + "?latitude="@ + lat + "&longitude="@ + lon
        + "&current=temperature_2m,relative_humidity_2m,apparent_temperature,weather_code,wind_speed_10m"@
        + "&daily=weather_code,temperature_2m_max,temperature_2m_min"@;
    let days = "&timezone=auto&forecast_days="@ + decimal(FORECAST_DAYS as nat);
    assert(forecast_url(lat, lon) =~= before + units + days);
    lemma_occurs_within(a, units, before, days);
    lemma_occurs_within(b, units, before, days);
    lemma_occurs_within(c, units, before, days);
    law_decimal_digits(0, 4);
    assert(days =~= "&timezone=auto&forecast_days=4"@);
    assert(before + units + days =~= (before + units) + days + Seq::<char>::empty());
    lemma_occurs(days, before + units, Seq::empty());
}

/// Every measurement that the reading has is asked for, of now and of every day.
pub proof fn law_forecast_asks_for_every_measurement(lat: Seq<char>, lon: Seq<char>)
    ensures
        occurs(
            "&current=temperature_2m,relative_humidity_2m,apparent_temperature,weather_code,wind_speed_10m&"@,
            forecast_url(lat, lon),
        ),
        occurs(
            "&daily=weather_code,temperature_2m_max,temperature_2m_min&"@,
            forecast_url(lat, lon),
        ),
{
    let before = FORECAST_API_BASE@ + "?latitude="@ + lat + "&longitude="@ + lon;
    let current =
        "&current=temperature_2m,relative_humidity_2m,apparent_temperature,weather_code,wind_speed_10m"@;
    let current1 =
        "&current=temperature_2m,relative_humidity_2m,apparent_temperature,weather_code,wind_speed_10m&"@;
    let daily = "&daily=weather_code,temperature_2m_max,temperature_2m_min"@;
    let daily1 = "&daily=weather_code,temperature_2m_max,temperature_2m_min&"@;
    let units = "&temperature_unit=fahrenheit&wind_speed_unit=mph&precipitation_unit=inch"@;
    let rest = "&timezone=auto&forecast_days="@ + decimal(FORECAST_DAYS as nat);
    reveal_strlit(
        "&current=temperature_2m,relative_humidity_2m,apparent_temperature,weather_code,wind_speed_10m",
    );
    reveal_strlit(
        "&current=temperature_2m,relative_humidity_2m,apparent_temperature,weather_code,wind_speed_10m&",
    );
    reveal_strlit("&daily=weather_code,temperature_2m_max,temperature_2m_min");
    reveal_strlit("&daily=weather_code,temperature_2m_max,temperature_2m_min&");
    reveal_strlit("&temperature_unit=fahrenheit&wind_speed_unit=mph&precipitation_unit=inch");
    assert(current1 =~= current.push('&'));
    assert(daily1 =~= daily.push('&'));
    assert(daily[0] == '&' && units[0] == '&');
    assert(current + daily =~= current1 + daily.skip(1));
    assert(daily + units =~= daily1 + units.skip(1));
    assert(forecast_url(lat, lon) =~= before + (current + daily) + (units + rest));
    assert(forecast_url(lat, lon) =~= (before + current) + (daily + units) + rest);
    assert(before + (current1 + daily.skip(1)) + (units + rest) =~= before + current1 + (
    daily.skip(1) + (units + rest)));
    assert((before + current) + (daily1 + units.skip(1)) + rest =~= (before + current) + daily1 + (
    units.skip(1) + rest));
    lemma_occurs(current1, before, daily.skip(1) + (units + rest));
    lemma_occurs(daily1, before + current, units.skip(1) + rest);
}

/// The forecast request for a position, its coordinates written with four decimals.
pub fn build_forecast_url(lat: &str, lon: &str) -> (url: String)
    ensures
        url@ == forecast_url(lat@, lon@),
{
    let mut url: String = FORECAST_API_BASE.to_owned();
    url.append("?latitude=");
    url.append(lat);
    url.append("&longitude=");
    url.append(lon);
    url.append(
        "&current=temperature_2m,relative_humidity_2m,apparent_temperature,weather_code,wind_speed_10m",
    );
    url.append("&daily=weather_code,temperature_2m_max,temperature_2m_min");
    url.append("&temperature_unit=fahrenheit&wind_speed_unit=mph&precipitation_unit=inch");
    url.append("&timezone=auto&forecast_days=");
    push_decimal(&mut url, FORECAST_DAYS as u64);
    url
}

/// The air-quality request for a position, its coordinates written out.
pub open spec fn air_quality_url(lat: Seq<char>, lon: Seq<char>) -> Seq<char> {
    AIR_QUALITY_API_BASE@ + "?latitude="@ + lat + "&longitude="@ + lon
        + "&current=us_aqi,uv_index"@
}

/// The air quality is asked of the air quality service, for the latitude and the longitude given,
/// and is the air quality index and the UV index.
pub proof fn law_air_quality_is_for_the_position(lat: Seq<char>, lon: Seq<char>)
    ensures
        air_quality_url(lat, lon)
            == "https://air-quality-api.open-meteo.com/v1/air-quality?latitude="@ + lat
            + "&longitude="@ + lon + "&current="@ + "us_aqi"@ + ","@ + "uv_index"@,
{
    reveal_strlit("https://air-quality-api.open-meteo.com/v1/air-quality");
    reveal_strlit("?latitude=");
    reveal_strlit("https://air-quality-api.open-meteo.com/v1/air-quality?latitude=");
    reveal_strlit("&current=us_aqi,uv_index");
    reveal_strlit("&current=");
    reveal_strlit("us_aqi");
    reveal_strlit(",");
    reveal_strlit("uv_index");
    assert("https://air-quality-api.open-meteo.com/v1/air-quality"@ + "?latitude="@
        =~= "https://air-quality-api.open-meteo.com/v1/air-quality?latitude="@);
    assert("&current="@ + "us_aqi"@ + ","@ + "uv_index"@ =~= "&current=us_aqi,uv_index"@);
    let start = AIR_QUALITY_API_BASE@ + "?latitude="@ + lat + "&longitude="@ + lon;
    assert(start + "&current="@ + "us_aqi"@ + ","@ + "uv_index"@ =~= start + ("&current="@
        + "us_aqi"@ + ","@ + "uv_index"@));
}

/// The air-quality request for a position, its coordinates written with four decimals.
pub fn build_air_quality_url(lat: &str, lon: &str) -> (url: String)
    ensures
        url@ == air_quality_url(lat@, lon@),
{
    let mut url: String = AIR_QUALITY_API_BASE.to_owned();
    url.append("?latitude=");
    url.append(lat);
    url.append("&longitude=");
    url.append(lon);
    url.append("&current=us_aqi,uv_index");
    url
}

} // verus!
