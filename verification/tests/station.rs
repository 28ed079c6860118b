use cyd_weather::clock::{now_unix, plausible, wait_for_sync, SyncWait, EPOCH_SANITY};
use cyd_weather::config::{AuthMethod, StoredConfig, WifiAuth};
use cyd_weather::draw::{DrawOp, Scene};
use cyd_weather::http::{
    body_text, connect as check_status, get, get_to_writer, Body, CopyStep, Copying, GetStep,
    HttpError,
};
use cyd_weather::location::{
    lookup, resolve_from_ip, IpApiResponse, Location, LocationError, Resolution,
};
use cyd_weather::station::{
    after_connect, apply_log_level, credentials, draw_weather_screen, resolve_location, run_refresh_loop,
    show_radar_frame, touch_held_at_boot, wait_ms, wait_on, AppState, BootStep, Hold, LogLevel, RadarEntry,
    TapAction,
};
use cyd_weather::storage::path;
use cyd_weather::text::{joined, parse_number, push_decimal, same_text};
use cyd_weather::touch::{
    bit_to_send, channel_value, map_range, read_raw, shift_in, Calibration, Touch, TouchPoint,
};
use cyd_weather::ui::Screen;
use cyd_weather::wifi::{connect, scan_ssids, AccessPoint, WifiError};

fn at(x: i32, y: i32) -> TouchPoint {
    TouchPoint { x, y }
}

#[test]
fn reset_takes_a_long_touch() {
    let mut held = 0;
    for i in 0..30 {
        match touch_held_at_boot(held, true) {
            Hold::Holding(h) => {
                assert!(i < 29);
                held = h;
            }
            Hold::Held => assert_eq!(i, 29),
            Hold::Released => panic!("released"),
        }
    }
    assert_eq!(touch_held_at_boot(1400, false), Hold::Released);
}

#[test]
fn log_level_follows_the_preference() {
    assert_eq!(apply_log_level(true), LogLevel::Debug);
    assert_eq!(apply_log_level(false), LogLevel::Off);
}

#[test]
fn missing_credentials_are_empty() {
    let d: StoredConfig<i32> = StoredConfig::default();
    assert_eq!(credentials(&d), ("".to_string(), "".to_string()));
}

#[test]
fn manual_location_wins() {
    let found = || Some(Location { latitude: 5, longitude: 6, label: Some("here".to_string()) });
    let l = resolve_location(Some((1, 2)), found(), (8, 9));
    assert_eq!((l.latitude, l.longitude, l.label), (1, 2, None));
    let l = resolve_location(None, found(), (8, 9));
    assert_eq!((l.latitude, l.longitude, l.label.as_deref()), (5, 6, Some("here")));
    let l = resolve_location(None, None, (8, 9));
    assert_eq!(
        (l.latitude, l.longitude, l.label.as_deref()),
        (8, 9, Some("Austin, TX (fallback)"))
    );
}

#[test]
fn last_good_reading_survives_failures() {
    let r = run_refresh_loop(Some(1), Some(2), Screen::Weather);
    assert_eq!((r.last_good, r.failed, r.sleep_secs, r.redraw), (Some(2), false, 1800, true));
    let r = run_refresh_loop(Some(1), None, Screen::Radar);
    assert_eq!((r.last_good, r.failed, r.sleep_secs, r.redraw), (Some(1), true, 60, false));
}

#[test]
fn weather_screen_tells_loading_from_failure() {
    let second = |failed| {
        let mut scene = Scene::new();
        draw_weather_screen(&mut scene, &None, &None, failed);
        match &scene.ops[1] {
            DrawOp::Text { text, .. } => text.clone(),
            other => panic!("{:?}", other),
        }
    };
    assert_eq!(second(true), "API error");
    assert_eq!(second(false), "CYD Weather");
}

#[test]
fn first_tap_wakes_and_the_next_switches() {
    let mut s = AppState::new(true);
    let radar = at(200, 300);
    assert_eq!(s.wait_with_backlight(Some(radar)), TapAction::LightUp);
    s.lit();
    assert_eq!(s.remaining_on_ms, 60_000);
    // The finger rests.
    assert_eq!(s.wait_with_backlight(Some(radar)), TapAction::Nothing);
    assert_eq!(s.wait_with_backlight(None), TapAction::Nothing);
    assert_eq!(s.wait_with_backlight(Some(radar)), TapAction::EnterRadar);
    assert_eq!(s.screen, Screen::Radar);
    s.wait_with_backlight(None);
    assert_eq!(s.wait_with_backlight(Some(radar)), TapAction::Nothing);
    s.wait_with_backlight(None);
    assert_eq!(s.wait_with_backlight(Some(at(10, 300))), TapAction::ShowWeather);
    s.wait_with_backlight(None);
    assert_eq!(s.wait_with_backlight(Some(at(10, 100))), TapAction::Nothing);
}

#[test]
fn backlight_goes_off_after_its_time() {
    let mut s = AppState::new(false);
    assert!(!s.countdown());
    s.lit();
    for i in 1..=600 {
        assert_eq!(s.countdown(), i == 600);
    }
    assert_eq!(s.remaining_on_ms, 0);
    assert!(!s.countdown());
    s.remaining_on_ms = 50;
    assert!(s.countdown());
}

#[test]
fn slideshow_turns_while_lit() {
    let mut s = AppState::new(true);
    s.screen = Screen::Radar;
    s.lit();
    assert_eq!(s.animate(), None);
    assert_eq!(s.enter_radar_screen(0), RadarEntry::Stage);
    s.radar_staged(Some(3), 0, 100);
    assert_eq!(s.start_slideshow(), Some(0));
    let mut shown = Vec::new();
    // The step that enters the screen shows the first frame and begins its time.
    assert_eq!(s.animate_after(TapAction::EnterRadar), None);
    for tick in 1..=24 {
        if let Some(i) = s.animate_after(TapAction::Nothing) {
            shown.push((tick, i));
        }
    }
    assert_eq!(shown, vec![(6, 1), (12, 2), (18, 0), (24, 1)]);
    s.remaining_on_ms = 0;
    let before = s;
    assert_eq!(s.animate(), None);
    assert_eq!(s, before);
    s.frame_failed();
    assert_eq!(s.radar.frames, 0);
    assert_eq!(s.start_slideshow(), None);
}

#[test]
fn radar_frames_are_staged_when_stale() {
    let mut s = AppState::new(true);
    s.radar_staged(Some(2), 0, 1_000_500);
    assert_eq!(s.enter_radar_screen(1_600_499), RadarEntry::Ready);
    assert_eq!(s.enter_radar_screen(1_600_500), RadarEntry::Stage);
    s.radar_staged(None, 5, 1_600_500);
    assert_eq!((s.radar.frames, s.radar.staged_at), (5, Some(1_000_500)));
    assert_eq!(AppState::new(false).enter_radar_screen(0), RadarEntry::NoCard);
}

#[test]
fn missing_frames_are_staged_again() {
    let mut s = AppState::new(true);
    s.radar_staged(Some(4), 0, 7);
    s.radar.index = 3;
    assert_eq!(s.enter_radar_screen(8), RadarEntry::Ready);
    s.frame_failed();
    assert_eq!(s.enter_radar_screen(8), RadarEntry::Stage);
    // Without frames the slideshow stands where it was.
    s.radar_staged(None, 0, 9);
    assert_eq!((s.radar.frames, s.radar.index), (0, 3));
    s.radar_staged(Some(2), 0, 9);
    assert_eq!((s.radar.frames, s.radar.index), (2, 0));
}

#[test]
fn first_frame_stays_while_a_second_goes_by() {
    let mut s = AppState::new(true);
    s.radar_staged(Some(3), 0, 0);
    s.remaining_on_ms = 1000;
    let mut ms = wait_ms(1);
    let mut point = Some(at(200, 300));
    let mut shown = Vec::new();
    while ms > 0 {
        let action = s.wait_with_backlight(point);
        point = None;
        if action == TapAction::EnterRadar {
            shown.push((1000 - ms, s.start_slideshow().unwrap()));
        }
        if let Some(i) = s.animate_after(action) {
            shown.push((1000 - ms, i));
        }
        s.countdown();
        ms = wait_on(ms);
    }
    assert_eq!(shown, vec![(0, 0), (600, 1)]);
    assert_eq!(s.radar.index, 1);
}

#[test]
fn light_goes_off_once_without_a_tap() {
    let mut s = AppState::new(true);
    s.screen = Screen::Radar;
    s.radar_staged(Some(3), 0, 0);
    assert_eq!(s.start_slideshow(), Some(0));
    s.remaining_on_ms = 950;
    let mut ms = wait_ms(2);
    let mut off = Vec::new();
    let mut dark = None;
    while ms > 0 {
        let action = s.wait_with_backlight(None);
        assert_eq!(action, TapAction::Nothing);
        s.animate_after(action);
        if s.countdown() {
            off.push(2000 - ms);
            dark = Some(s.radar);
        }
        ms = wait_on(ms);
        assert_eq!(s.remaining_on_ms, 950u64.saturating_sub(2000 - ms));
    }
    assert_eq!(off, vec![900]);
    assert_eq!(dark, Some(s.radar));
    assert_eq!((s.screen, s.radar.index), (Screen::Radar, 1));
}

#[test]
fn failed_connection_leads_back_to_setup() {
    assert_eq!(after_connect(true), BootStep::Run);
    assert_eq!(after_connect(false), BootStep::WaitThenSetup);
}

#[test]
fn waits_are_counted_in_ms() {
    assert_eq!(wait_ms(60), 60_000);
    assert_eq!(wait_ms(u64::MAX), u64::MAX);
    assert_eq!(wait_on(150), 50);
    assert_eq!(wait_on(50), 0);
}

#[test]
fn frame_label_names_the_sources() {
    assert_eq!(show_radar_frame(0, 8), "Frame 1/8  RainViewer / OSM / CARTO");
    assert_eq!(show_radar_frame(9, 10), "Frame 10/10  RainViewer / OSM / CARTO");
}

#[test]
fn status_decides_on_a_response() {
    assert_eq!(check_status(200), Ok(()));
    assert_eq!(check_status(299), Ok(()));
    assert_eq!(check_status(199), Err(HttpError::Status(199)));
    assert_eq!(check_status(300), Err(HttpError::Status(300)));
    assert_eq!(check_status(404), Err(HttpError::Status(404)));
}

fn fetch_all(chunks: &[&[u8]], max: usize) -> Result<String, HttpError> {
    let mut body = Body::new(max);
    for c in chunks {
        match get(body, c)? {
            GetStep::More(b) => body = b,
            GetStep::Done(s) => return Ok(s),
        }
    }
    match get(body, &[])? {
        GetStep::Done(s) => Ok(s),
        GetStep::More(_) => panic!("not done"),
    }
}

#[test]
fn bodies_are_taken_in_up_to_their_limit() {
    assert_eq!(fetch_all(&[b"ab", b"cd"], 4), Ok("abcd".to_string()));
    assert_eq!(fetch_all(&[b"ab", b"cd"], 3), Err(HttpError::TooLong(3)));
    assert_eq!(fetch_all(&[], 0), Ok("".to_string()));
    // A character split over two chunks.
    assert_eq!(fetch_all(&[b"\xc3", b"\xa9"], 9), Ok("\u{e9}".to_string()));
    assert_eq!(fetch_all(&[b"\xc3"], 9), Err(HttpError::NotUtf8));
    assert_eq!(body_text(vec![0xff]), Err(HttpError::NotUtf8));
    assert_eq!(body_text(vec![0x24, 0xe2, 0x82, 0xac]), Ok("$\u{20ac}".to_string()));
}

#[test]
fn copies_stay_within_their_limit() {
    let c = Copying { written: 0, max_len: 1000 };
    let c = match get_to_writer(c, 512) {
        Ok(CopyStep::Write(c)) => c,
        other => panic!("{:?}", other),
    };
    assert_eq!(c.written, 512);
    assert_eq!(get_to_writer(c, 489), Err(HttpError::TooLong(1000)));
    assert_eq!(
        get_to_writer(c, 488),
        Ok(CopyStep::Write(Copying { written: 1000, max_len: 1000 }))
    );
    assert_eq!(get_to_writer(c, 0), Ok(CopyStep::Done(512)));
}

fn answer(status: &str, lat: Option<i32>, lon: Option<i32>) -> IpApiResponse<i32> {
    IpApiResponse {
        status: status.to_string(),
        lat,
        lon,
        city: Some("Austin".to_string()),
        region_name: Some("Texas".to_string()),
        message: None,
    }
}

#[test]
fn geolocation_answers_are_understood() {
    let l = lookup(answer("success", Some(1), Some(2))).ok().unwrap();
    assert_eq!((l.latitude, l.longitude), (1, 2));
    assert_eq!(l.label.as_deref(), Some("Austin, Texas"));
    let mut a = answer("success", Some(1), Some(2));
    a.city = None;
    assert_eq!(lookup(a).ok().unwrap().label.as_deref(), Some("Texas"));
    let mut a = answer("success", Some(1), Some(2));
    a.region_name = None;
    assert_eq!(lookup(a).ok().unwrap().label.as_deref(), Some("Austin"));
    let mut a = answer("success", Some(1), Some(2));
    a.region_name = None;
    a.city = None;
    assert_eq!(lookup(a).ok().unwrap().label, None);
}

#[test]
fn geolocation_errors_are_told_apart() {
    assert_eq!(
        lookup(answer("fail", None, None)).err(),
        Some(LocationError::Api("unknown".to_string()))
    );
    let mut a = answer("fail", None, None);
    a.message = Some("quota".to_string());
    assert_eq!(lookup(a).err(), Some(LocationError::Api("quota".to_string())));
    assert_eq!(
        lookup(answer("success", None, Some(2))).err(),
        Some(LocationError::MissingLatitude)
    );
    assert_eq!(
        lookup(answer("success", Some(1), None)).err(),
        Some(LocationError::MissingLongitude)
    );
}

#[test]
fn geolocation_is_retried() {
    let fail = |n| resolve_from_ip::<i32, i32>(n, Err(n as i32));
    assert!(matches!(fail(1), Resolution::Again { attempt: 2, delay_ms: 3000 }));
    assert!(matches!(fail(3), Resolution::Again { attempt: 4, delay_ms: 3000 }));
    assert!(matches!(fail(4), Resolution::Failed(4)));
    let ok: Result<Location<i32>, i32> = Ok(Location { latitude: 1, longitude: 2, label: None });
    assert!(matches!(resolve_from_ip(4, ok), Resolution::Found(_)));
}

fn ap(ssid: &str, strength: i8) -> AccessPoint {
    AccessPoint { ssid: ssid.to_string(), signal_strength: strength }
}

#[test]
fn networks_are_listed_by_strength_once_each() {
    let aps = vec![
        ap("weak", -90),
        ap("home", -60),
        ap("", -10),
        ap("home", -40),
        ap("first", -50),
        ap("second", -50),
        ap("weak", -95),
    ];
    assert_eq!(scan_ssids(&aps), vec!["home", "first", "second", "weak"]);
    assert_eq!(scan_ssids(&vec![]), Vec::<String>::new());
    assert_eq!(scan_ssids(&vec![ap("", 0)]), Vec::<String>::new());
}

#[test]
fn connection_settings_are_checked() {
    let c = connect("home", "", WifiAuth::Auto).ok().unwrap();
    assert_eq!((c.ssid.as_str(), c.password.as_str()), ("home", ""));
    assert_eq!(c.auth_method, AuthMethod::Unsecured);
    let method = |p: &str, a| connect("home", p, a).ok().unwrap().auth_method;
    assert_eq!(method("", WifiAuth::Open), AuthMethod::Unsecured);
    assert_eq!(method("x", WifiAuth::Open), AuthMethod::Unsecured);
    assert_eq!(method("x", WifiAuth::Auto), AuthMethod::Wpa2Wpa3Personal);
    assert_eq!(method("", WifiAuth::Wpa2Personal), AuthMethod::Wpa2Personal);
    assert_eq!(method("x", WifiAuth::WpaWpa2Personal), AuthMethod::WpaWpa2Personal);
    let long = "a".repeat(33);
    assert_eq!(connect(&long, "", WifiAuth::Auto).err(), Some(WifiError::SsidTooLong));
    assert!(connect(&long[..32], &"b".repeat(64), WifiAuth::Auto).is_ok());
    let password = "b".repeat(65);
    assert_eq!(connect("x", &password, WifiAuth::Auto).err(), Some(WifiError::PasswordTooLong));
    // Lengths count bytes.
    let accents = "\u{e9}".repeat(17);
    assert_eq!(connect(&accents, "", WifiAuth::Auto).err(), Some(WifiError::SsidTooLong));
}

#[test]
fn paths_lie_below_the_mount_point() {
    assert_eq!(path("radar/x"), "/sdcard/radar/x");
    assert_eq!(path("///radar"), "/sdcard/radar");
    assert_eq!(path(""), "/sdcard/");
}

#[test]
fn clock_is_unset_before_its_time() {
    assert_eq!(plausible(EPOCH_SANITY as u64 - 1), None);
    assert_eq!(plausible(EPOCH_SANITY as u64), Some(EPOCH_SANITY));
    assert_eq!(plausible(EPOCH_SANITY as u64 + 1), Some(EPOCH_SANITY + 1));
    assert_eq!(plausible(i64::MAX as u64), Some(i64::MAX));
    assert_eq!(plausible(i64::MAX as u64 + 1), None);
    assert_eq!(plausible(0), None);
    assert_eq!(plausible(u64::MAX), None);
    let wall = std::time::SystemTime::now()
        .duration_since(std::time::UNIX_EPOCH)
        .unwrap()
        .as_secs();
    match now_unix() {
        Some(t) => assert!((t - wall as i64).abs() <= 5),
        None => assert_eq!(plausible(wall), None),
    }
    assert_eq!(wait_for_sync(0, 1000, false), SyncWait::Again(200));
    assert_eq!(wait_for_sync(400, 1000, true), SyncWait::Ready);
    assert_eq!(wait_for_sync(1000, 1000, true), SyncWait::TimedOut);
}

#[test]
fn samples_are_mapped_to_the_panel() {
    let c = Calibration::default();
    assert_eq!((c.width, c.height, c.x_min, c.y_max), (240, 320, 200, 3900));
    // Swapped axes, the first one inverted.
    assert_eq!(c.map(200, 200), (239, 0));
    assert_eq!(c.map(3900, 3900), (0, 319));
    assert_eq!(c.map(0, 5000), (0, 0));
    assert_eq!(c.map(2050, 2050), (120, 159));
    let plain = Calibration { swap_xy: false, invert_x: false, invert_y: true, ..c };
    assert_eq!(plain.map(200, 200), (0, 319));
    assert_eq!(map_range(7, 5, 5, 100), 0);
    assert_eq!(map_range(10, 0, 10, 0), -1);
}

#[test]
fn raw_samples_are_averaged() {
    let mut samples = vec![(1000u16, 2000u16); 8];
    assert_eq!(read_raw(&samples), Some((1000, 2000)));
    samples[0] = (1007, 2008);
    assert_eq!(read_raw(&samples), Some((1000, 2001)));
    assert_eq!(read_raw(&vec![(49, 2000); 8]), None);
    assert_eq!(read_raw(&vec![(2000, 49); 8]), None);
    assert_eq!(read_raw(&vec![(50, 50); 8]), Some((50, 50)));
    let touch = Touch { cal: Calibration::default() };
    assert_eq!(touch.read(&None), None);
    assert_eq!(touch.read(&Some(vec![(200, 200); 8])), Some(at(239, 0)));
    assert_eq!(touch.read(&Some(vec![(0, 0); 8])), None);
}

#[test]
fn bytes_survive_the_wire() {
    for out in 0..=255u8 {
        let mut input = 0u8;
        for bit in (0..8).rev() {
            input = shift_in(input, bit_to_send(out, bit));
        }
        assert_eq!(input, out);
    }
    assert_eq!(channel_value(0x7f, 0xf8), 0xfff);
    assert_eq!(channel_value(0x00, 0x08), 1);
    assert_eq!(channel_value(0xff, 0xff), 0xfff);
    assert_eq!(channel_value(0x12, 0x34), 0x246);
}

#[test]
fn numbers_are_written_and_read() {
    for n in [0u64, 7, 10, 99, 100, 4294967295, u64::MAX] {
        let mut s = "n".to_string();
        push_decimal(&mut s, n);
        assert_eq!(s, format!("n{n}"));
    }
    assert_eq!(parse_number("x042y", 1, 4, 100), Some(42));
    assert_eq!(parse_number("+5", 0, 2, 100), Some(5));
    assert_eq!(parse_number("+", 0, 1, 100), None);
    assert_eq!(parse_number("", 0, 0, 100), None);
    assert_eq!(parse_number("101", 0, 3, 100), None);
    assert_eq!(parse_number("1a", 0, 2, 100), None);
    assert_eq!(parse_number("99999999999999999999999", 0, 23, u32::MAX), None);
    assert_eq!(joined("a", "b"), "ab");
    assert!(same_text("x", "x") && !same_text("x", "y"));
}
