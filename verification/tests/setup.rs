use cyd_weather::config::{
    clear, load, save, AuthMethod, Entries, Key, StoreOp, StoredConfig, WifiAuth,
};
use cyd_weather::draw::{DrawOp, Scene};
use cyd_weather::provisioning::flow::{Next, Provisioner, Setup};
use cyd_weather::provisioning::keyboard::{key_tapped, Keyboard, TextEntry};
use cyd_weather::provisioning::picker::{draw_picker, select_security, select_ssid, Pick};
use cyd_weather::provisioning::widgets::{confirm, Hit, TapWaiter};
use cyd_weather::touch::TouchPoint;

fn at(x: i32, y: i32) -> TouchPoint {
    TouchPoint { x, y }
}

fn names(n: usize) -> Vec<String> {
    (0..n).map(|i| format!("net{i}")).collect()
}

const DONE: TouchPoint = TouchPoint { x: 200, y: 290 };
const BACK: TouchPoint = TouchPoint { x: 150, y: 290 };
const SHIFT: TouchPoint = TouchPoint { x: 10, y: 290 };
const SPACE: TouchPoint = TouchPoint { x: 60, y: 290 };

#[test]
fn regions_contain_their_points() {
    let h = Hit::new(6, 30, 10, 20);
    assert!(h.contains(at(6, 30)));
    assert!(h.contains(at(15, 49)));
    assert!(!h.contains(at(16, 30)));
    assert!(!h.contains(at(6, 50)));
    assert!(!h.contains(at(5, 30)));
    let none = Hit::new(0, 0, -5, 3);
    assert_eq!((none.w, none.h), (0, 3));
    assert!(!none.contains(at(0, 0)));
    assert!(!Hit::new(i32::MAX, 0, 9, 9).contains(at(0, 0)));
}

#[test]
fn a_tap_is_a_press_and_a_release() {
    let mut w = TapWaiter::new();
    assert_eq!(w.poll(None), None);
    assert_eq!(w.poll(Some(at(1, 2))), None);
    assert_eq!(w.poll(Some(at(3, 4))), None);
    assert_eq!(w.poll(None), Some(at(1, 2)));
    assert_eq!(w.poll(None), None);
}

#[test]
fn networks_are_picked_page_by_page() {
    let up = at(10, 290);
    let down = at(80, 290);
    let manual = at(150, 290);
    assert_eq!(select_ssid(20, 0, up), Pick::Nothing);
    assert_eq!(select_ssid(20, 0, down), Pick::Page(8));
    assert_eq!(select_ssid(20, 8, down), Pick::Page(16));
    assert_eq!(select_ssid(20, 16, down), Pick::Nothing);
    assert_eq!(select_ssid(20, 16, up), Pick::Page(8));
    assert_eq!(select_ssid(20, 8, up), Pick::Page(0));
    assert_eq!(select_ssid(20, 4, up), Pick::Page(0));
    assert_eq!(select_ssid(20, 0, manual), Pick::Manual);
    assert_eq!(select_ssid(20, 8, at(100, 35)), Pick::Network(8));
    assert_eq!(select_ssid(20, 16, at(100, 30 + 3 * 26)), Pick::Network(19));
    // Past the end of the last page, and between two rows.
    assert_eq!(select_ssid(20, 16, at(100, 30 + 4 * 26)), Pick::Nothing);
    assert_eq!(select_ssid(20, 0, at(100, 52)), Pick::Nothing);
    assert_eq!(select_ssid(8, 0, down), Pick::Nothing);
}

#[test]
fn network_page_shows_its_rows() {
    let mut scene = Scene::new();
    draw_picker(&mut scene, &names(10), 8);
    let texts: Vec<String> = scene
        .ops
        .iter()
        .filter_map(|op| match op {
            DrawOp::Text { text, .. } => Some(text.clone()),
            _ => None,
        })
        .collect();
    assert_eq!(
        texts,
        vec!["Select Wi-Fi", "", "net8", "", "net9", "Up", "Down", "Manual"]
    );
}

#[test]
fn security_types_are_picked_in_display_order() {
    let picks: Vec<Option<WifiAuth>> =
        (0..5).map(|i| select_security(at(100, 60 + i * 48))).collect();
    let all: Vec<Option<WifiAuth>> = WifiAuth::all().into_iter().map(Some).collect();
    assert_eq!(picks, all);
    assert_eq!(select_security(at(100, 35)), None);
}

#[test]
fn choices_are_confirmed() {
    assert_eq!(confirm(at(100, 130)), Some(true));
    assert_eq!(confirm(at(100, 180)), Some(false));
    assert_eq!(confirm(at(100, 165)), None);
    assert_eq!(confirm(at(10, 130)), None);
}

#[test]
fn keys_type_their_characters() {
    assert_eq!(key_tapped(Keyboard::Full, false, at(5, 75)), Some('1'));
    assert_eq!(key_tapped(Keyboard::Full, false, at(5, 110)), Some('q'));
    assert_eq!(key_tapped(Keyboard::Full, true, at(5, 110)), Some('Q'));
    assert_eq!(key_tapped(Keyboard::Full, false, at(212, 175)), Some('.'));
    assert_eq!(key_tapped(Keyboard::Full, true, at(229, 75)), Some('0'));
    assert_eq!(key_tapped(Keyboard::Full, true, at(230, 75)), None);
    // Nine keys share the third row.
    assert_eq!(key_tapped(Keyboard::Full, false, at(3 + 26 * 8, 140)), Some('l'));
    assert_eq!(key_tapped(Keyboard::Numeric, false, at(10, 180)), Some('-'));
    assert_eq!(key_tapped(Keyboard::Numeric, true, at(100, 180)), Some('0'));
    assert_eq!(key_tapped(Keyboard::Numeric, false, at(230, 180)), Some('.'));
    // Between two keys, and above the first row.
    assert_eq!(key_tapped(Keyboard::Full, false, at(24, 75)), None);
    assert_eq!(key_tapped(Keyboard::Full, false, at(5, 69)), None);
}

#[test]
fn keyboards_have_their_rows() {
    let rows = Keyboard::Full.rows(true);
    let joined: Vec<String> = rows.iter().map(|r| r.iter().collect()).collect();
    assert_eq!(joined, vec!["1234567890", "QWERTYUIOP", "ASDFGHJKL", "ZXCVBNM-_."]);
    assert_eq!(Keyboard::Numeric.rows(false)[3], vec!['-', '0', '.']);
}

#[test]
fn text_is_entered_and_taken_back() {
    let mut t = TextEntry::new(Keyboard::Full);
    assert!(!t.enter_text(at(5, 110)));
    assert!(!t.enter_text(SHIFT));
    assert!(!t.enter_text(at(5, 110)));
    assert!(!t.enter_text(SPACE));
    assert_eq!(t.buffer, "qQ ");
    assert!(!t.enter_text(BACK));
    assert_eq!(t.buffer, "qQ");
    assert!(t.enter_text(DONE));
    assert_eq!(t.buffer, "qQ");
    for _ in 0..5 {
        t.enter_text(BACK);
    }
    assert_eq!(t.buffer, "");
    // The numeric keyboard has no shift key.
    let mut n = TextEntry::new(Keyboard::Numeric);
    n.enter_text(SHIFT);
    assert!(!n.shift);
}

#[test]
fn text_field_shows_what_was_typed() {
    let shown = |t: &TextEntry| {
        let mut scene = Scene::new();
        t.draw(&mut scene, "Title");
        match &scene.ops[4] {
            DrawOp::Text { text, .. } => text.clone(),
            other => panic!("{:?}", other),
        }
    };
    let mut t = TextEntry::new(Keyboard::Full);
    assert_eq!(shown(&t), "_");
    t.enter_text(at(5, 75));
    assert_eq!(shown(&t), "1");
}

fn tap(p: Provisioner, point: TouchPoint) -> Provisioner {
    match p.run(point) {
        Next::More(p) => p,
        Next::Done(_) => panic!("done too early"),
    }
}

fn finish(p: Provisioner, point: TouchPoint) -> Setup {
    match p.run(point) {
        Next::Done(s) => s,
        Next::More(_) => panic!("not done yet"),
    }
}

#[test]
fn setup_asks_five_questions() {
    let mut p = Provisioner::new(names(3));
    p = tap(p, at(100, 30 + 26 + 5));
    p = tap(p, at(5, 110));
    p = tap(p, DONE);
    p = tap(p, at(100, 60 + 48));
    p = tap(p, at(100, 180));
    let s = finish(p, at(100, 180));
    assert_eq!(s.ssid, "net1");
    assert_eq!(s.password, "q");
    assert_eq!(s.auth, WifiAuth::WpaWpa2Personal);
    assert!(!s.debug);
    assert!(s.location.is_none());
    let cfg: StoredConfig<i32> = s.into_config(Some(1), Some(2));
    assert_eq!(cfg.ssid.as_deref(), Some("net1"));
    assert_eq!(cfg.password.as_deref(), Some("q"));
    assert_eq!(cfg.manual_location, None);
}

#[test]
fn setup_takes_a_manual_location() {
    let mut p = Provisioner::new(vec![]);
    // Without networks the name is typed.
    p = tap(p, at(5, 75));
    p = tap(p, DONE);
    p = tap(p, DONE);
    p = tap(p, at(100, 60));
    p = tap(p, at(100, 130));
    p = tap(p, at(100, 130));
    p = tap(p, at(10, 75));
    p = tap(p, DONE);
    p = tap(p, at(10, 180));
    let s = finish(p, DONE);
    assert_eq!(s.ssid, "1");
    assert_eq!(s.password, "");
    assert_eq!(s.auth, WifiAuth::Auto);
    assert!(s.debug);
    assert_eq!(s.location, Some(("1".to_string(), "-".to_string())));
    let cfg: StoredConfig<i32> = s.into_config(Some(1), None);
    assert_eq!(cfg.manual_location, None);
}

#[test]
fn setup_draws_each_screen() {
    let title = |p: &Provisioner| {
        let mut scene = Scene::new();
        p.draw(&mut scene);
        match &scene.ops[2] {
            DrawOp::Text { text, .. } => text.clone(),
            other => panic!("{:?}", other),
        }
    };
    let mut p = Provisioner::new(names(1));
    let mut titles = vec![title(&p)];
    for point in [at(150, 290), DONE, DONE, at(100, 60), at(100, 130), at(100, 130), DONE] {
        p = tap(p, point);
        titles.push(title(&p));
    }
    assert_eq!(
        titles,
        vec![
            "Select Wi-Fi",
            "Enter SSID",
            "Wi-Fi password",
            "Wi-Fi security",
            "Serial debug",
            "Location",
            "Latitude (e.g. 30.27)",
            "Longitude (e.g. -97.74)",
        ]
    );
}

#[test]
fn taps_that_hit_nothing_change_nothing() {
    let p = tap(Provisioner::new(names(9)), at(239, 0));
    let p = tap(p, at(100, 35));
    assert_eq!(p.ssid, "net0");
}

#[test]
fn security_types_have_names_and_methods() {
    for (a, label, name, method) in [
        (WifiAuth::Auto, "Auto", "auto", AuthMethod::Wpa2Wpa3Personal),
        (WifiAuth::WpaWpa2Personal, "WPA/WPA2 Personal", "wpa_wpa2", AuthMethod::WpaWpa2Personal),
        (WifiAuth::Wpa2Personal, "WPA2 Personal", "wpa2", AuthMethod::Wpa2Personal),
        (
            WifiAuth::Wpa2Wpa3Personal,
            "WPA2/WPA3 Personal",
            "wpa2_wpa3",
            AuthMethod::Wpa2Wpa3Personal,
        ),
        (WifiAuth::Open, "Open", "open", AuthMethod::Unsecured),
    ] {
        assert_eq!(a.label(), label);
        assert_eq!(a.as_str(), name);
        assert_eq!(WifiAuth::from_str(name), a);
        assert_eq!(a.to_auth_method(), method);
    }
    assert_eq!(WifiAuth::from_str("wep"), WifiAuth::Auto);
    assert_eq!(WifiAuth::default(), WifiAuth::Auto);
}

fn blank() -> Entries<i32> {
    Entries { ssid: None, password: None, auth: None, debug: None, lat: None, lon: None }
}

#[test]
fn blank_store_loads_the_defaults() {
    let c = load(blank());
    assert!(c.ssid.is_none() && c.password.is_none() && c.manual_location.is_none());
    assert_eq!(c.auth_method, WifiAuth::Auto);
    assert!(c.serial_debug);
    assert!(!c.has_wifi());
    let d: StoredConfig<i32> = StoredConfig::default();
    assert!(d.serial_debug && !d.has_wifi());
}

#[test]
fn stored_texts_are_understood() {
    let c = load(Entries {
        ssid: Some("".to_string()),
        password: Some("".to_string()),
        auth: Some("open".to_string()),
        debug: Some("0".to_string()),
        lat: Some(3),
        lon: None,
    });
    assert!(c.ssid.is_none());
    assert_eq!(c.password.as_deref(), Some(""));
    assert_eq!(c.auth_method, WifiAuth::Open);
    assert!(!c.serial_debug);
    assert_eq!(c.manual_location, None);
    for (text, on) in [("1", true), ("true", true), ("yes", false), ("", false)] {
        let c = load(Entries { debug: Some(text.to_string()), ..blank() });
        assert_eq!(c.serial_debug, on);
    }
    let c = load(Entries { ssid: Some("x".to_string()), lat: Some(3), lon: Some(4), ..blank() });
    assert!(c.has_wifi());
    assert_eq!(c.manual_location, Some((3, 4)));
}

/// What a store holds after something was done to it.
fn apply(ops: Vec<StoreOp<String>>) -> Vec<(Key, String)> {
    let mut store: Vec<(Key, String)> = vec![(Key::Lat, "old".to_string())];
    for op in ops {
        match op {
            StoreOp::Put(k, v) => {
                store.retain(|(key, _)| *key != k);
                store.push((k, v));
            }
            StoreOp::Remove(k) => store.retain(|(key, _)| *key != k),
        }
    }
    store
}

#[test]
fn configuration_is_saved_and_erased() {
    let cfg: StoredConfig<i32> = StoredConfig {
        ssid: Some("home".to_string()),
        password: None,
        auth_method: WifiAuth::Wpa2Personal,
        serial_debug: false,
        manual_location: None,
    };
    let store = apply(save(&cfg, None));
    assert_eq!(
        store,
        vec![
            (Key::Ssid, "home".to_string()),
            (Key::Password, "".to_string()),
            (Key::Auth, "wpa2".to_string()),
            (Key::Debug, "0".to_string()),
        ]
    );
    let cfg = StoredConfig { manual_location: Some((1, 2)), ..cfg };
    let store = apply(save(&cfg, Some(("1".to_string(), "2".to_string()))));
    assert_eq!(store[4], (Key::Lat, "1".to_string()));
    assert_eq!(store[5], (Key::Lon, "2".to_string()));
    assert_eq!(apply(clear()), vec![]);
    assert_eq!(Key::Ssid.name(), "ssid");
    assert_eq!(Key::Lon.name(), "lon");
}
