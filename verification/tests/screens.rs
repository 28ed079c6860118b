use embedded_graphics::draw_target::DrawTarget;
use embedded_graphics::geometry::{OriginDimensions, Point, Size};
use embedded_graphics::pixelcolor::{Rgb565, RgbColor};
use embedded_graphics::primitives::{
    Circle, Line, Primitive, PrimitiveStyle, Rectangle, Triangle,
};
use embedded_graphics::{Drawable, Pixel};

use cyd_weather::calendar::{parse_date, weekday_index, weekday_label};
use cyd_weather::draw::{Align, DrawOp, Font, Ink, Scene};
use cyd_weather::touch::TouchPoint;
use cyd_weather::ui::{
    aqi_color, clear, draw_error_banner, draw_forecast_row, draw_icon, draw_radar_chrome,
    draw_radar_status, draw_status, draw_toolbar, draw_weather, toolbar_hit, Screen, H,
    RADAR_VIEW_TOP, TOOLBAR_HEIGHT, TOOLBAR_TOP, W,
};
use cyd_weather::weather::{
    aqi_category, build_air_quality_url, build_forecast_url, describe_weather_code, fetch,
    uv_category, AirQuality, CurrentBlock, DailyBlock, ForecastResponse, UvIndex, WeatherData,
    WeatherIcon,
};

fn text(s: &str, x: i32, y: i32, font: Font, ink: Ink, align: Align) -> DrawOp<String> {
    DrawOp::Text { text: s.to_string(), x, y, font, ink, align }
}

fn s(v: &str) -> String {
    v.to_string()
}

fn forecast(days: usize) -> ForecastResponse {
    ForecastResponse {
        current: CurrentBlock {
            temperature_2m: s("71"),
            relative_humidity_2m: s("40"),
            apparent_temperature: s("69"),
            weather_code: 2,
            wind_speed_10m: s("12"),
        },
        daily: DailyBlock {
            time: (0..days).map(|i| format!("2024-02-{:02}", 26 + i)).collect(),
            weather_code: vec![0, 61, 71, 95, 3],
            temperature_2m_max: vec![s("80"), s("81"), s("82"), s("83"), s("84")],
            temperature_2m_min: vec![s("60"), s("61"), s("62"), s("63")],
        },
        utc_offset_seconds: -21600,
    }
}

#[test]
fn weekdays_are_right() {
    // Sunday is 0.
    assert_eq!(weekday_index(2000, 1, 1), 6);
    assert_eq!(weekday_index(2024, 2, 29), 4);
    assert_eq!(weekday_index(2024, 3, 1), 5);
    assert_eq!(weekday_index(1900, 2, 28), 3);
    assert_eq!(weekday_index(1900, 3, 1), 4);
    assert_eq!(weekday_index(2023, 12, 31), 0);
    assert_eq!(weekday_index(2024, 1, 1), 1);
}

#[test]
fn weekdays_follow_one_another() {
    let mut w = weekday_index(1999, 12, 31);
    for (y, m, days) in [(2000, 1, 31), (2000, 2, 29), (2000, 3, 31), (2000, 4, 30)] {
        for d in 1..=days {
            let next = weekday_index(y, m, d);
            assert_eq!(next, (w + 1) % 7);
            w = next;
        }
    }
}

#[test]
fn weekdays_go_back_before_the_first_year() {
    assert_eq!(weekday_index(1, 1, 1), 1);
    assert_eq!(weekday_index(0, 12, 31), 0);
    assert_eq!(weekday_index(0, 1, 1), 6);
    assert_eq!(weekday_index(-1, 12, 31), 5);
    // Year 0 is a leap year.
    assert_eq!((weekday_index(0, 2, 29) + 1) % 7, weekday_index(0, 3, 1));
    assert_eq!(weekday_index(-400, 5, 17), weekday_index(0, 5, 17));
    assert_eq!(weekday_index(-2000, 1, 1), weekday_index(2000, 1, 1));
}

#[test]
fn dates_are_read() {
    assert_eq!(parse_date("2024-02-29"), Some((2024, 2, 29)));
    assert_eq!(parse_date("+7-1-2-more"), Some((7, 1, 2)));
    assert_eq!(parse_date("2024-02"), None);
    assert_eq!(parse_date(""), None);
    assert_eq!(parse_date("-1-1-1"), None);
    assert_eq!(parse_date("2024-x-1"), None);
    assert_eq!(parse_date("2147483648-1-1"), None);
    assert_eq!(parse_date("2147483647-1-4294967295"), Some((2147483647, 1, 4294967295)));
    assert_eq!(parse_date("1-1-4294967296"), None);
}

#[test]
fn day_labels_fall_back_to_the_distance() {
    assert_eq!(weekday_label("2024-02-29", 3), "Thu");
    assert_eq!(weekday_label("not a date", 0), "D+0");
    assert_eq!(weekday_label("2024-13-01", 12), "D+12");
    assert_eq!(weekday_label("2024-00-01", 1), "D+1");
}

#[test]
fn weather_codes_are_described() {
    for (code, label, icon) in [
        (0, "Clear sky", WeatherIcon::Clear),
        (1, "Mainly clear", WeatherIcon::Clear),
        (2, "Partly cloudy", WeatherIcon::PartlyCloudy),
        (3, "Overcast", WeatherIcon::Cloudy),
        (45, "Fog", WeatherIcon::Fog),
        (48, "Fog", WeatherIcon::Fog),
        (57, "Freezing drizzle", WeatherIcon::Drizzle),
        (65, "Heavy rain", WeatherIcon::Rain),
        (77, "Snow grains", WeatherIcon::Snow),
        (82, "Violent showers", WeatherIcon::Rain),
        (86, "Snow showers", WeatherIcon::Snow),
        (95, "Thunderstorm", WeatherIcon::Thunderstorm),
        (99, "Thunderstorm w/ hail", WeatherIcon::Thunderstorm),
        (4, "Unknown", WeatherIcon::Unknown),
        (65535, "Unknown", WeatherIcon::Unknown),
    ] {
        let c = describe_weather_code(code);
        assert_eq!((c.code, c.label, c.icon), (code, label, icon));
    }
}

#[test]
fn categories_follow_their_breakpoints() {
    for (aqi, label, ink) in [
        (0, "Good", Ink::AqiGood),
        (50, "Good", Ink::AqiGood),
        (51, "Moderate", Ink::AqiModerate),
        (101, "Unhealthy (SG)", Ink::AqiSensitive),
        (151, "Unhealthy", Ink::AqiUnhealthy),
        (200, "Unhealthy", Ink::AqiUnhealthy),
        (201, "Very Unhealthy", Ink::AqiHazardous),
        (301, "Hazardous", Ink::AqiHazardous),
    ] {
        assert_eq!(aqi_category(aqi), label);
        assert_eq!(aqi_color(aqi), ink);
    }
    for (uv, label) in [
        (-1, "Low"),
        (2, "Low"),
        (3, "Moderate"),
        (5, "Moderate"),
        (6, "High"),
        (8, "Very High"),
        (10, "Very High"),
        (11, "Extreme"),
    ] {
        assert_eq!(uv_category(uv), label);
    }
}

#[test]
fn weather_is_put_together() {
    let air = AirQuality { us_aqi: Some(42), uv_index: Some(UvIndex { shown: s("7"), whole: 6 }) };
    let data = fetch::<String>(Ok(forecast(5)), Some(air)).ok().unwrap();
    assert_eq!(data.temperature_f, "71");
    assert_eq!(data.feels_like_f, "69");
    assert_eq!(data.humidity_pct, "40");
    assert_eq!(data.wind_mph, "12");
    assert_eq!(data.condition.label, "Partly cloudy");
    assert_eq!(data.us_aqi, Some(42));
    assert_eq!(data.uv_index.unwrap().whole, 6);
    assert_eq!(data.utc_offset_seconds, -21600);
    // The shortest column decides.
    assert_eq!(data.daily.len(), 4);
    assert_eq!(data.daily[1].date, "2024-02-27");
    assert_eq!(data.daily[1].high_f, "81");
    assert_eq!(data.daily[1].low_f, "61");
    assert_eq!(data.daily[1].condition.label, "Light rain");
}

#[test]
fn weather_survives_missing_air_quality_only() {
    let data = fetch::<String>(Ok(forecast(2)), None).ok().unwrap();
    assert_eq!(data.us_aqi, None);
    assert!(data.uv_index.is_none());
    assert_eq!(data.daily.len(), 2);
    assert_eq!(fetch(Err("down"), None).err(), Some("down"));
}

#[test]
fn requests_name_the_position() {
    assert_eq!(
        build_forecast_url("30.2672", "-97.7431"),
        "https://api.open-meteo.com/v1/forecast?latitude=30.2672&longitude=-97.7431\
         &current=temperature_2m,relative_humidity_2m,apparent_temperature,weather_code,wind_speed_10m\
         &daily=weather_code,temperature_2m_max,temperature_2m_min\
         &temperature_unit=fahrenheit&wind_speed_unit=mph&precipitation_unit=inch\
         &timezone=auto&forecast_days=4"
    );
    assert_eq!(
        build_air_quality_url("1.0000", "2.0000"),
        "https://air-quality-api.open-meteo.com/v1/air-quality?latitude=1.0000&longitude=2.0000\
         &current=us_aqi,uv_index"
    );
}

#[test]
fn status_screen_is_centred() {
    let mut scene = Scene::new();
    draw_status(&mut scene, "Connecting", "home");
    assert_eq!(
        scene.ops,
        vec![
            DrawOp::Clear { ink: Ink::Background },
            text("Connecting", 120, 136, Font::Ten20, Ink::White, Align::Center),
            text("home", 120, 166, Font::Six13, Ink::Muted, Align::Center),
        ]
    );
    let mut blank = Scene::new();
    clear(&mut blank);
    assert_eq!(blank.ops, vec![DrawOp::Clear { ink: Ink::Background }]);
}

fn sample(daily_days: usize, aqi: Option<u16>, uv: Option<UvIndex>) -> WeatherData {
    fetch::<String>(Ok(forecast(daily_days)), Some(AirQuality { us_aqi: aqi, uv_index: uv }))
        .ok()
        .unwrap()
}

#[test]
fn dashboard_shows_the_weather() {
    let mut scene = Scene::new();
    let data = sample(1, Some(120), Some(UvIndex { shown: s("3"), whole: 2 }));
    draw_weather(&mut scene, &data, Some("Austin, Texas"));
    let ops = &scene.ops;
    assert_eq!(ops[0], DrawOp::Clear { ink: Ink::Background });
    assert_eq!(ops[1], text("Austin, Texas", 120, 4, Font::Six13, Ink::Accent, Align::Center));
    for t in [
        text("71\u{00B0}F", 230, 28, Font::Ten20, Ink::White, Align::Right),
        text("Partly cloudy", 230, 52, Font::Six13, Ink::Muted, Align::Right),
        text("Feels like 69\u{00B0}F", 230, 68, Font::Six10, Ink::Muted, Align::Right),
        text("Humidity: 40%", 12, 100, Font::Six13, Ink::White, Align::Left),
        text("Wind: 12 mph", 12, 120, Font::Six13, Ink::White, Align::Left),
        text("AQI: 120 (Unhealthy (SG))", 12, 140, Font::Six13, Ink::AqiSensitive, Align::Left),
        text("UV: 3 (Low)", 12, 154, Font::Six10, Ink::White, Align::Left),
        text("Forecast", 12, 176, Font::Six10, Ink::Accent, Align::Left),
        text("Mon", 120, 194, Font::Six10, Ink::Muted, Align::Center),
        text("80\u{00B0}", 120, 238, Font::Six13, Ink::White, Align::Center),
        text("60\u{00B0}", 120, 254, Font::Six10, Ink::Muted, Align::Center),
    ] {
        assert!(ops.contains(&t), "{:?}", t);
    }
    assert!(ops.contains(&DrawOp::Line { x1: 8, y1: 90, x2: 232, y2: 90, ink: Ink::Muted, width: 1 }));
    assert!(ops.contains(&DrawOp::Line { x1: 8, y1: 168, x2: 232, y2: 168, ink: Ink::Muted, width: 1 }));
}

#[test]
fn dashboard_says_what_is_missing() {
    let mut scene = Scene::new();
    draw_weather(&mut scene, &sample(0, None, None), None);
    let ops = &scene.ops;
    assert!(ops.contains(&text("AQI: n/a", 12, 140, Font::Six13, Ink::Muted, Align::Left)));
    assert!(ops.contains(&text("UV: n/a", 12, 154, Font::Six10, Ink::Muted, Align::Left)));
    assert_eq!(
        ops.last().unwrap(),
        &text("Forecast", 12, 176, Font::Six10, Ink::Accent, Align::Left)
    );
    // Without a place the icon comes right after the background.
    assert!(matches!(ops[1], DrawOp::Disc { .. }));
}

#[test]
fn forecast_columns_share_the_width() {
    let data = sample(4, None, None);
    let mut scene = Scene::new();
    draw_forecast_row(&mut scene, &data.daily, 194);
    let xs: Vec<i32> = scene
        .ops
        .iter()
        .filter_map(|op| match op {
            DrawOp::Text { x, y: 194, .. } => Some(*x),
            _ => None,
        })
        .collect();
    assert_eq!(xs, vec![30, 90, 150, 210]);
}

#[test]
fn glyphs_have_their_shapes() {
    let draw = |icon| {
        let mut scene = Scene::new();
        draw_icon(&mut scene, icon, 20, 30, 44);
        scene.ops
    };
    assert_eq!(
        draw(WeatherIcon::Clear),
        vec![DrawOp::Disc { x: 42, y: 52, diameter: 22, ink: Ink::Sun }]
    );
    let cloud = vec![
        DrawOp::Disc { x: 34, y: 59, diameter: 14, ink: Ink::Cloud },
        DrawOp::Disc { x: 49, y: 59, diameter: 14, ink: Ink::Cloud },
        DrawOp::Fill { x: 31, y: 52, w: 22, h: 11, ink: Ink::Cloud },
    ];
    assert_eq!(draw(WeatherIcon::Cloudy), cloud);
    assert_eq!(draw(WeatherIcon::Fog), cloud);
    let partly = draw(WeatherIcon::PartlyCloudy);
    assert_eq!(partly[0], DrawOp::Disc { x: 49, y: 45, diameter: 14, ink: Ink::Sun });
    assert_eq!(&partly[1..], &cloud[..]);
    let rain = draw(WeatherIcon::Rain);
    assert_eq!(rain[3], DrawOp::Line { x1: 31, y1: 63, x2: 29, y2: 72, ink: Ink::Rain, width: 2 });
    assert_eq!(rain[5], DrawOp::Line { x1: 53, y1: 63, x2: 51, y2: 72, ink: Ink::Rain, width: 2 });
    assert_eq!(rain, draw(WeatherIcon::Drizzle));
    assert_eq!(draw(WeatherIcon::Snow)[4], DrawOp::Disc { x: 42, y: 67, diameter: 3, ink: Ink::White });
    assert_eq!(
        draw(WeatherIcon::Thunderstorm)[3],
        DrawOp::Wedge { x1: 42, y1: 52, x2: 37, y2: 73, x3: 47, y3: 63, ink: Ink::Warn }
    );
    assert_eq!(
        draw(WeatherIcon::Unknown),
        vec![DrawOp::Frame { x: 20, y: 30, w: 44, h: 44, ink: Ink::Muted }]
    );
    let mut tiny = Scene::new();
    draw_icon(&mut tiny, WeatherIcon::Cloudy, 0, 0, 1);
    assert_eq!(tiny.ops[2], DrawOp::Fill { x: 0, y: 0, w: 1, h: 1, ink: Ink::Cloud });
}

#[test]
fn toolbar_highlights_the_active_screen() {
    let mut scene = Scene::new();
    draw_toolbar(&mut scene, Screen::Radar);
    assert_eq!(
        scene.ops,
        vec![
            DrawOp::Fill { x: 0, y: 292, w: 120, h: 28, ink: Ink::Background },
            DrawOp::Frame { x: 0, y: 292, w: 120, h: 28, ink: Ink::Muted },
            text("Weather", 60, 301, Font::Six13, Ink::White, Align::Center),
            DrawOp::Fill { x: 120, y: 292, w: 120, h: 28, ink: Ink::Accent },
            DrawOp::Frame { x: 120, y: 292, w: 120, h: 28, ink: Ink::Muted },
            text("Radar", 180, 301, Font::Six13, Ink::Black, Align::Center),
        ]
    );
    assert_eq!((W, H, TOOLBAR_TOP + TOOLBAR_HEIGHT, RADAR_VIEW_TOP), (240, 320, 320, 24));
    assert_eq!(Screen::default(), Screen::Weather);
}

#[test]
fn toolbar_taps_hit_the_buttons() {
    let hit = |x, y| toolbar_hit(TouchPoint { x, y });
    assert_eq!(hit(0, 291), None);
    assert_eq!(hit(0, 292), Some(Screen::Weather));
    assert_eq!(hit(119, 319), Some(Screen::Weather));
    assert_eq!(hit(120, 319), Some(Screen::Radar));
    assert_eq!(hit(239, 300), Some(Screen::Radar));
    assert_eq!(hit(239, 320), None);
}

#[test]
fn radar_screen_has_title_and_status() {
    let mut scene = Scene::new();
    draw_radar_chrome(&mut scene, "Radar", "Loading...");
    assert_eq!(
        scene.ops,
        vec![
            DrawOp::Clear { ink: Ink::Background },
            text("Radar", 120, 4, Font::Six13, Ink::Accent, Align::Center),
            DrawOp::Fill { x: 0, y: 272, w: 240, h: 20, ink: Ink::Background },
            text("Loading...", 120, 276, Font::Six10, Ink::Muted, Align::Center),
        ]
    );
    let mut line = Scene::new();
    draw_radar_status(&mut line, "x");
    assert_eq!(line.ops.len(), 2);
}

#[test]
fn banner_covers_the_top() {
    let mut scene = Scene::new();
    draw_error_banner(&mut scene, "Update failed");
    assert_eq!(
        scene.ops,
        vec![
            DrawOp::Fill { x: 0, y: 0, w: 240, h: 16, ink: Ink::Warn },
            text("Update failed", 120, 2, Font::Six10, Ink::Black, Align::Center),
        ]
    );
}

#[test]
fn inks_fit_the_panel() {
    assert_eq!(Ink::Background.rgb(), (2, 4, 8));
    assert_eq!(Ink::White.rgb(), (31, 63, 31));
    assert_eq!(Ink::AqiHazardous.rgb(), (24, 0, 12));
}

/// Keeps the places of the pixels that were drawn.
struct Canvas {
    pixels: Vec<Point>,
}

impl OriginDimensions for Canvas {
    fn size(&self) -> Size {
        Size::new(400, 400)
    }
}

impl DrawTarget for Canvas {
    type Color = Rgb565;
    type Error = ();

    fn draw_iter<I>(&mut self, pixels: I) -> Result<(), ()>
    where
        I: IntoIterator<Item = Pixel<Rgb565>>,
    {
        self.pixels.extend(pixels.into_iter().map(|p| p.0));
        Ok(())
    }
}

fn draw_on(canvas: &mut Canvas, op: &DrawOp<String>) {
    let fill = PrimitiveStyle::with_fill(Rgb565::WHITE);
    let stroke = |width| PrimitiveStyle::with_stroke(Rgb565::WHITE, width);
    match op {
        DrawOp::Line { x1, y1, x2, y2, width, .. } => {
            Line::new(Point::new(*x1, *y1), Point::new(*x2, *y2))
                .into_styled(stroke(*width))
                .draw(canvas)
        }
        DrawOp::Fill { x, y, w, h, .. } => {
            Rectangle::new(Point::new(*x, *y), Size::new(*w, *h)).into_styled(fill).draw(canvas)
        }
        DrawOp::Frame { x, y, w, h, .. } => {
            Rectangle::new(Point::new(*x, *y), Size::new(*w, *h))
                .into_styled(stroke(1))
                .draw(canvas)
        }
        DrawOp::Disc { x, y, diameter, .. } => {
            Circle::with_center(Point::new(*x, *y), *diameter).into_styled(fill).draw(canvas)
        }
        DrawOp::Wedge { x1, y1, x2, y2, x3, y3, .. } => {
            Triangle::new(Point::new(*x1, *y1), Point::new(*x2, *y2), Point::new(*x3, *y3))
                .into_styled(fill)
                .draw(canvas)
        }
        other => panic!("{:?}", other),
    }
    .unwrap();
}

#[test]
fn glyphs_stay_in_their_box() {
    for icon in [
        WeatherIcon::Clear,
        WeatherIcon::PartlyCloudy,
        WeatherIcon::Cloudy,
        WeatherIcon::Fog,
        WeatherIcon::Drizzle,
        WeatherIcon::Rain,
        WeatherIcon::Snow,
        WeatherIcon::Thunderstorm,
        WeatherIcon::Unknown,
    ] {
        for size in 22..150u32 {
            let (x, y) = (17, 23);
            let mut scene = Scene::new();
            draw_icon(&mut scene, icon, x, y, size);
            let mut canvas = Canvas { pixels: Vec::new() };
            for op in &scene.ops {
                draw_on(&mut canvas, op);
            }
            assert!(!canvas.pixels.is_empty());
            let s = size as i32;
            assert!(
                canvas.pixels.iter().all(|p| x <= p.x && p.x < x + s && y <= p.y && p.y < y + s),
                "{:?} at {size}",
                icon
            );
        }
    }
}
