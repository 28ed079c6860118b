//! What the station does when: booting, refreshing the weather, the backlight, and the radar
//! slideshow.

use vstd::prelude::*;
use vstd::string::StringExecFns;

use crate::config::{
    opt_text, text_or_empty, StoredConfig, BACKLIGHT_ON_SECS, RADAR_ATTRIBUTION, RADAR_FRAME_MS,
    RADAR_REFRESH_SECS, REFRESH_INTERVAL_SECS, RETRY_INTERVAL_SECS,
};
use crate::draw::{Op, Scene};
use crate::location::Location;
use crate::text::{decimal, lemma_decimal_ends, push_decimal};
use crate::touch::TouchPoint;
use crate::ui::{
    banner_drawn, button_at, draw_error_banner, draw_status, draw_toolbar, draw_weather,
    law_toolbar_highlights_the_active_screen, lemma_dashboard_leaves_the_banner, status_drawn,
    toolbar_drawn, toolbar_hit, weather_drawn, Screen,
};
use crate::weather::WeatherData;

verus! {

/// How long the screen must be held at boot to reset the configuration.
pub const REQUIRED_MS: u32 = 1500;

/// How often the touch panel is polled at boot.
pub const STEP_MS: u32 = 50;

/// What a poll of the touch panel at boot means.
#[derive(Debug, Clone, Copy, PartialEq, Eq, Structural)]
pub enum Hold {
    /// Not decided yet: it has been held so long.
    Holding(u32),
    /// The screen was held long enough.
    Held,
    /// The screen was not touched, or let go.
    Released,
}

/// What one more poll of the touch panel at boot means, after it has been held for `held` ms.
pub open spec fn held_on(held: u32, touched: bool) -> Hold {
    if !touched {
        Hold::Released
    } else if held + STEP_MS >= REQUIRED_MS {
        Hold::Held
    } else {
        Hold::Holding((held + STEP_MS) as u32)
    }
}

/// What one more poll of the touch panel at boot means, after it has been held for `held` ms.
pub fn touch_held_at_boot(held: u32, touched: bool) -> (h: Hold)
    requires
        held < REQUIRED_MS,
    ensures
        h == held_on(held, touched),
{
    if !touched {
        Hold::Released
    } else if held + STEP_MS >= REQUIRED_MS {
        Hold::Held
    } else {
        Hold::Holding(held + STEP_MS)
    }
}

/// What some polls of the touch panel at boot mean.
pub open spec fn polled(touched: Seq<bool>) -> Hold
    decreases touched.len(),
{
    if touched.len() == 0 {
        Hold::Holding(0)
    } else {
        match polled(touched.drop_last()) {
            Hold::Holding(held) => held_on(held, touched.last()),
            decided => decided,
        }
    }
}

/// A touch that is let go decides at once that nothing is reset; one that lasts goes on by the
/// fifty milliseconds between two polls, until it has lasted for a second and a half.
pub proof fn law_hold_goes_on(held: u32)
    requires
        held < REQUIRED_MS,
    ensures
        held_on(held, false) is Released,
        held_on(held, true) is Held <==> held + 50 >= 1500,
        held + 50 < 1500 ==> held_on(held, true) == Hold::Holding((held + 50) as u32),
{
}

/// The configuration is reset if and only if the screen is touched in every poll of the required
/// time.
pub proof fn law_reset_takes_the_whole_time(touched: Seq<bool>)
    requires
        touched.len() == REQUIRED_MS / STEP_MS,
    ensures
        polled(touched) is Held <==> forall|i: int| 0 <= i < touched.len() ==> #[trigger] touched[i],
        polled(touched) is Held || polled(touched) is Released,
{
    lemma_polled(touched);
}

proof fn lemma_polled(touched: Seq<bool>)
    requires
        touched.len() <= 30,
    ensures
        (forall|i: int| 0 <= i < touched.len() ==> #[trigger] touched[i]) ==> polled(touched)
            == if touched.len() == 30 {
            Hold::Held
        } else {
            Hold::Holding((touched.len() * 50) as u32)
        },
        !(forall|i: int| 0 <= i < touched.len() ==> #[trigger] touched[i]) ==> polled(
            touched,
        ) is Released,
    decreases touched.len(),
{
    if touched.len() > 0 {
        let t = touched.drop_last();
        lemma_polled(t);
        if forall|i: int| 0 <= i < touched.len() ==> #[trigger] touched[i] {
            assert(forall|i: int| 0 <= i < t.len() ==> #[trigger] t[i] == touched[i]);
            assert(touched.last());
        } else if forall|i: int| 0 <= i < t.len() ==> #[trigger] t[i] {
            let k = choose|i: int| 0 <= i < touched.len() && !#[trigger] touched[i];
            assert(k == touched.len() - 1) by {
                if k < t.len() {
                    assert(t[k] == touched[k]);
                }
            }
        }
    }
}

/// What follows from an attempt to connect with the saved credentials.
#[derive(Debug, Clone, Copy, PartialEq, Eq, Structural)]
pub enum BootStep {
    /// Go on to the weather.
    Run,
    /// Wait for a tap and run the setup again.
    WaitThenSetup,
}

/// What follows from an attempt to connect.
pub open spec fn step_after(connected: bool) -> BootStep {
    if connected {
        BootStep::Run
    } else {
        BootStep::WaitThenSetup
    }
}

/// The station goes on if and only if it is connected.
pub proof fn law_runs_only_connected(connected: bool)
    ensures
        step_after(connected) is Run <==> connected,
{
}

/// What follows from an attempt to connect: a network that fails to connect drops the station back
/// into setup, after a tap.
pub fn after_connect(connected: bool) -> (b: BootStep)
    ensures
        b == step_after(connected),
        b == if connected {
            BootStep::Run
        } else {
            BootStep::WaitThenSetup
        },
{
    if connected {
        BootStep::Run
    } else {
        BootStep::WaitThenSetup
    }
}

/// How much is logged.
#[derive(Debug, Clone, Copy, PartialEq, Eq, Structural)]
pub enum LogLevel {
    Off,
    Debug,
}

/// How much is logged.
pub open spec fn log_level(serial_debug: bool) -> LogLevel {
    if serial_debug {
        LogLevel::Debug
    } else {
        LogLevel::Off
    }
}

/// Nothing is logged if and only if debug logging is disabled.
pub proof fn law_logs_only_when_enabled(serial_debug: bool)
    ensures
        log_level(serial_debug) is Debug <==> serial_debug,
        log_level(serial_debug) is Off <==> !serial_debug,
{
}

/// How much is logged: when debug logging is enabled `Debug` and below, when disabled nothing.
pub fn apply_log_level(serial_debug: bool) -> (l: LogLevel)
    ensures
        l == log_level(serial_debug),
{
    if serial_debug {
        LogLevel::Debug
    } else {
        LogLevel::Off
    }
}

/// The saved network name and password, empty where there is none.
pub open spec fn saved_credentials<C>(cfg: StoredConfig<C>) -> (Seq<char>, Seq<char>) {
    (text_or_empty(opt_text(cfg.ssid)), text_or_empty(opt_text(cfg.password)))
}

/// The name is the saved one and so is the password, character by character; where one is not
/// saved it is empty.
pub proof fn law_credentials_are_the_saved_ones<C>(cfg: StoredConfig<C>)
    ensures
        cfg.ssid matches Some(s) ==> saved_credentials(cfg).0 == s@,
        cfg.ssid is None ==> saved_credentials(cfg).0.len() == 0,
        cfg.password matches Some(p) ==> saved_credentials(cfg).1 == p@,
        cfg.password is None ==> saved_credentials(cfg).1.len() == 0,
{
}

/// The saved network name and password, empty where there is none.
pub fn credentials<C>(cfg: &StoredConfig<C>) -> (r: (String, String))
    ensures
        (r.0@, r.1@) == saved_credentials(*cfg),
{
    let ssid: String = match &cfg.ssid {
        Some(s) => s.clone(),
        None => String::new(),
    };
    let password: String = match &cfg.password {
        Some(s) => s.clone(),
        None => String::new(),
    };
    (ssid, password)
}

/// The label of the position that stands in where none can be found.
pub open spec fn fallback_label() -> Seq<char> {
    "Austin, TX (fallback)"@
}

/// A location is the one to use.
pub open spec fn located<C>(
    l: Location<C>,
    manual: Option<(C, C)>,
    found: Option<Location<C>>,
    fallback: (C, C),
) -> bool {
    match manual {
        Some((lat, lon)) => l.latitude == lat && l.longitude == lon && l.label is None,
        None => match found {
            Some(f) => l == f,
            None => l.latitude == fallback.0 && l.longitude == fallback.1 && opt_text(l.label)
                == Some(fallback_label()),
        },
    }
}

/// A manual override is used whatever else there is, and has no name; without one, what was found
/// is used, name and all; and only without either the fallback, named as such.
pub proof fn law_override_wins<C>(
    l: Location<C>,
    manual: Option<(C, C)>,
    found: Option<Location<C>>,
    fallback: (C, C),
)
    requires
        located(l, manual, found, fallback),
    ensures
        manual is Some ==> (l.latitude, l.longitude) == manual->0 && l.label is None,
        manual is None && found is Some ==> l == found->0,
        manual is None && found is None ==> {
            &&& (l.latitude, l.longitude) == fallback
            &&& l.label is Some && l.label->0@ == "Austin, TX (fallback)"@
        },
{
}

/// The location: a manual override wins, otherwise what IP geolocation found, and otherwise a
/// fallback so the UI still shows something useful.
pub fn resolve_location<C>(
    manual: Option<(C, C)>,
    found: Option<Location<C>>,
    fallback: (C, C),
) -> (l: Location<C>)
    ensures
        located(l, manual, found, fallback),
{
    match manual {
        Some((latitude, longitude)) => Location { latitude, longitude, label: None },
        None => match found {
            Some(f) => f,
            None => Location {
                latitude: fallback.0,
                longitude: fallback.1,
                label: Some("Austin, TX (fallback)".to_owned()),
            },
        },
    }
}

/// What follows from a refresh of the weather.
pub struct Refreshed<T> {
    /// The last good reading.
    pub last_good: Option<T>,
    /// The refresh failed.
    pub failed: bool,
    /// How long to wait until the next refresh.
    pub sleep_secs: u64,
    /// Draw the weather screen again.
    pub redraw: bool,
}

/// What follows from a refresh of the weather.
pub open spec fn refreshed<T>(
    last_good: Option<T>,
    fetched: Option<T>,
    screen: Screen,
) -> Refreshed<T> {
    Refreshed {
        last_good: if fetched is Some {
            fetched
        } else {
            last_good
        },
        failed: fetched is None,
        sleep_secs: if fetched is Some {
            REFRESH_INTERVAL_SECS
        } else {
            RETRY_INTERVAL_SECS
        },
        redraw: screen is Weather,
    }
}

/// The last good reading after some refreshes, from having none.
pub open spec fn last_reading<T>(fetched: Seq<Option<T>>, screen: Screen) -> Option<T>
    decreases fetched.len(),
{
    if fetched.len() == 0 {
        None
    } else {
        refreshed(last_reading(fetched.drop_last(), screen), fetched.last(), screen).last_good
    }
}

/// After a good reading the next refresh is in half an hour, after a failure in a minute. A refresh
/// has failed if and only if it gave no reading. The weather screen is drawn again, and no other.
pub proof fn law_refresh_cadence<T>(last_good: Option<T>, fetched: Option<T>, screen: Screen)
    ensures
        ({
            let r = refreshed(last_good, fetched, screen);
            &&& fetched is Some ==> r.sleep_secs == 30 * 60 && !r.failed && r.last_good == fetched
            &&& fetched is None ==> r.sleep_secs == 60 && r.failed && r.last_good == last_good
            &&& r.redraw <==> screen == Screen::Weather
        }),
{
}

/// However refreshes succeed and fail, the reading at hand is the one of the last that succeeded.
pub proof fn law_last_good_reading_is_kept<T>(fetched: Seq<Option<T>>, screen: Screen, k: int)
    requires
        0 <= k < fetched.len(),
        fetched[k] is Some,
        forall|i: int| k < i < fetched.len() ==> (#[trigger] fetched[i]) is None,
    ensures
        last_reading(fetched, screen) == fetched[k],
    decreases fetched.len(),
{
    if k < fetched.len() - 1 {
        let before = fetched.drop_last();
        assert(fetched[fetched.len() - 1] is None);
        assert forall|i: int| k < i < before.len() implies (#[trigger] before[i]) is None by {
            assert(before[i] == fetched[i]);
        }
        law_last_good_reading_is_kept(before, screen, k);
    }
}

/// What follows from a refresh of the weather: a good reading replaces the last one and lasts for
/// the refresh interval; a failure keeps the last one and is retried soon. Only the weather screen
/// is drawn again.
pub fn run_refresh_loop<T>(last_good: Option<T>, fetched: Option<T>, screen: Screen) -> (r:
    Refreshed<T>)
    ensures
        r == refreshed(last_good, fetched, screen),
{
    let redraw = screen == Screen::Weather;
    match fetched {
        Some(data) => Refreshed {
            last_good: Some(data),
            failed: false,
            sleep_secs: REFRESH_INTERVAL_SECS,
            redraw,
        },
        None => Refreshed { last_good, failed: true, sleep_secs: RETRY_INTERVAL_SECS, redraw },
    }
}

/// A scene with the weather summary plus the navigation toolbar.
pub open spec fn weather_screen_drawn(
    base: Seq<Op>,
    data: Option<WeatherData>,
    place: Option<Seq<char>>,
    failed: bool,
) -> Seq<Op> {
    toolbar_drawn(
        match data {
            Some(d) => if failed {
                banner_drawn(weather_drawn(base, d, place), "Update failed - retrying"@)
            } else {
                weather_drawn(base, d, place)
            },
            None => if failed {
                status_drawn(base, "API error"@, "Retrying shortly..."@)
            } else {
                status_drawn(base, "CYD Weather"@, "Loading..."@)
            },
        },
        Screen::Weather,
    )
}

/// With a reading at hand the screen is the dashboard, and the banner at its top says that the
/// update failed if and only if the last refresh did. Without one it says that it is loading, or,
/// if a refresh failed, that there was an error. The toolbar is below it either way, with the
/// weather highlighted.
pub proof fn law_banner_tells_of_failure(
    base: Seq<Op>,
    data: Option<WeatherData>,
    place: Option<Seq<char>>,
    failed: bool,
)
    ensures
        ({
            let s = weather_screen_drawn(base, data, place, failed);
            let n = base.len() as int;
            &&& base.is_prefix_of(s)
            &&& data matches Some(d) ==> {
                &&& weather_drawn(base, d, place).is_prefix_of(s)
                &&& failed <==> exists|k: int|
                    {
                        &&& n <= k < s.len()
                        &&& (#[trigger] s[k]) is Text
                        &&& s[k]->Text_text == "Update failed - retrying"@
                        &&& s[k]->Text_y == 2
                    }
                &&& failed <==> exists|k: int|
                    n <= k < s.len() && (#[trigger] s[k]) is Text && s[k]->Text_y <= 2
                &&& s.len() == weather_drawn(base, d, place).len() + if failed {
                    8int
                } else {
                    6
                }
            }
            &&& data is None ==> {
                &&& s.len() == n + 9
                &&& s[n + 1] is Text && s[n + 1]->Text_text == if failed {
                    "API error"@
                } else {
                    "CYD Weather"@
                }
                &&& s[n + 2] is Text && s[n + 2]->Text_text == if failed {
                    "Retrying shortly..."@
                } else {
                    "Loading..."@
                }
            }
            &&& toolbar_drawn(s.take(s.len() - 6), Screen::Weather) == s
        }),
{
    let s = weather_screen_drawn(base, data, place, failed);
    let shown = match data {
        Some(d) => if failed {
            banner_drawn(weather_drawn(base, d, place), "Update failed - retrying"@)
        } else {
            weather_drawn(base, d, place)
        },
        None => if failed {
            status_drawn(base, "API error"@, "Retrying shortly..."@)
        } else {
            status_drawn(base, "CYD Weather"@, "Loading..."@)
        },
    };
    law_toolbar_highlights_the_active_screen(shown, Screen::Weather);
    assert(s.take(s.len() - 6) =~= shown);
    assert(shown.is_prefix_of(s));
    match data {
        Some(d) => {
            let board = weather_drawn(base, d, place);
            lemma_dashboard_leaves_the_banner(base, d, place);
            assert(board.is_prefix_of(shown));
            assert(board.is_prefix_of(s));
            let m = board.len() as int;
            if failed {
                assert(s[m + 1] == shown[m + 1]);
                assert(s[m + 1] is Text && s[m + 1]->Text_y == 2);
            } else {
                assert forall|k: int| base.len() <= k < s.len() && (
                #[trigger] s[k]) is Text implies s[k]->Text_y > 2 by {
                    if k < m {
                        assert(s[k] == board[k]);
                    }
                }
            }
        },
        None => {
            let n = base.len() as int;
            assert(s[n + 1] == shown[n + 1] && s[n + 2] == shown[n + 2]);
        },
    }
}

/// Draw the weather summary plus the navigation toolbar, optionally with the "stale data" banner
/// over it.
pub fn draw_weather_screen(
    scene: &mut Scene,
    data: &Option<WeatherData>,
    place: &Option<String>,
    failed: bool,
)
    requires
        data matches Some(d) ==> d.daily@.len() <= i32::MAX,
    ensures
        final(scene)@ == weather_screen_drawn(old(scene)@, *data, opt_text(*place), failed),
{
    match data {
        Some(d) => {
            let label: Option<&str> = match place {
                Some(p) => Some(p.as_str()),
                None => None,
            };
            draw_weather(scene, d, label);
            if failed {
                draw_error_banner(scene, "Update failed - retrying");
            }
        },
        None => {
            if failed {
                draw_status(scene, "API error", "Retrying shortly...");
            } else {
                draw_status(scene, "CYD Weather", "Loading...");
            }
        },
    }
    draw_toolbar(scene, Screen::Weather);
}

/// Radar slideshow bookkeeping.
#[derive(Debug, Clone, Copy, PartialEq, Eq, Structural)]
pub struct RadarState {
    /// False when no SD card is mounted; the radar screen then just says so.
    pub sd_ready: bool,
    pub frames: usize,
    pub index: usize,
    /// Time left on the current frame's dwell, in ms.
    pub dwell_ms: u64,
    /// When the frames were staged, in ms of a clock that never goes back.
    pub staged_at: Option<u64>,
}

/// Everything the interactive wait needs to keep the screens in sync.
#[derive(Debug, Clone, Copy, PartialEq, Eq, Structural)]
pub struct AppState {
    pub screen: Screen,
    /// Remaining time the tap-activated backlight should stay lit, in ms. Kept across refresh
    /// boundaries so the window survives a refresh.
    pub remaining_on_ms: u64,
    /// Set while the previous touch poll saw a press, so a held finger only produces one tap
    /// event.
    pub touch_down: bool,
    pub radar: RadarState,
}

/// Frames are stale when they were never staged or have got too old.
pub open spec fn stale(r: RadarState, now_ms: u64) -> bool {
    match r.staged_at {
        Some(at) => now_ms >= at + RADAR_REFRESH_SECS * 1000,
        None => true,
    }
}

impl RadarState {
    /// Whether the frames were never staged or have got too old.
    pub fn is_stale(&self, now_ms: u64) -> (yes: bool)
        ensures
            yes == stale(*self, now_ms),
    {
        match self.staged_at {
            Some(at) => now_ms >= at && now_ms - at >= RADAR_REFRESH_SECS * 1000,
            None => true,
        }
    }
}

/// What a tap asks for.
#[derive(Debug, Clone, Copy, PartialEq, Eq, Structural)]
pub enum TapAction {
    /// Nothing.
    Nothing,
    /// Switch the backlight on.
    LightUp,
    /// Draw the weather screen.
    ShowWeather,
    /// Enter the radar screen.
    EnterRadar,
}

/// What entering the radar screen takes.
#[derive(Debug, Clone, Copy, PartialEq, Eq, Structural)]
pub enum RadarEntry {
    /// There is no card to stage frames on.
    NoCard,
    /// The frames have to be staged first.
    Stage,
    /// The frames are there.
    Ready,
}

/// How often the interactive wait looks at the touch panel.
pub const CHUNK_MS: u64 = 100;

/// A time after some of it has gone by, never below zero.
pub open spec fn less(ms: u64, by: int) -> u64 {
    if ms >= by {
        (ms - by) as u64
    } else {
        0
    }
}

impl AppState {
    /// The start of the refresh loop: the weather screen, in the dark.
    pub open spec fn initial(sd_ready: bool) -> AppState {
        AppState {
            screen: Screen::Weather,
            remaining_on_ms: 0,
            touch_down: false,
            radar: RadarState { sd_ready, frames: 0, index: 0, dwell_ms: 0, staged_at: None },
        }
    }

    /// The start of the refresh loop: the weather screen, in the dark.
    pub fn new(sd_ready: bool) -> (s: AppState)
        ensures
            s == AppState::initial(sd_ready),
            s.valid(),
    {
        AppState {
            screen: Screen::Weather,
            remaining_on_ms: 0,
            touch_down: false,
            radar: RadarState { sd_ready, frames: 0, index: 0, dwell_ms: 0, staged_at: None },
        }
    }

    /// The backlight never stays on for longer than its time, and the slideshow is within its
    /// frames.
    pub open spec fn valid(self) -> bool {
        &&& self.remaining_on_ms <= BACKLIGHT_ON_SECS * 1000
        &&& self.radar.frames > 0 ==> self.radar.index < self.radar.frames
    }

    /// Only the press edge counts, so a resting finger cannot flip screens repeatedly.
    pub open spec fn tapped(self, point: Option<TouchPoint>) -> Option<TouchPoint> {
        if self.touch_down {
            None
        } else {
            point
        }
    }

    /// What a reading of the touch panel asks for.
    pub open spec fn action(self, point: Option<TouchPoint>) -> TapAction {
        match self.tapped(point) {
            None => TapAction::Nothing,
            Some(p) => if self.remaining_on_ms == 0 {
                TapAction::LightUp
            } else {
                match button_at(p) {
                    Some(target) => if target == self.screen {
                        TapAction::Nothing
                    } else if target is Weather {
                        TapAction::ShowWeather
                    } else {
                        TapAction::EnterRadar
                    },
                    None => TapAction::Nothing,
                }
            },
        }
    }

    /// The state after a reading of the touch panel.
    pub open spec fn after_reading(self, point: Option<TouchPoint>) -> AppState {
        AppState {
            touch_down: point is Some,
            screen: match self.action(point) {
                TapAction::ShowWeather => Screen::Weather,
                TapAction::EnterRadar => Screen::Radar,
                _ => self.screen,
            },
            ..self
        }
    }

    /// Take in a reading of the touch panel. In the dark the first tap only wakes the screen;
    /// otherwise a tap on the toolbar switches screens.
    pub fn wait_with_backlight(&mut self, point: Option<TouchPoint>) -> (a: TapAction)
        ensures
            a == old(self).action(point),
            *final(self) == old(self).after_reading(point),
            old(self).valid() ==> final(self).valid(),
    {
        let tap: Option<TouchPoint> = if self.touch_down {
            None
        } else {
            point
        };
        self.touch_down = point.is_some();
        match tap {
            None => TapAction::Nothing,
            Some(p) => {
                if self.remaining_on_ms == 0 {
                    TapAction::LightUp
                } else {
                    match toolbar_hit(p) {
                        Some(target) => {
                            if target == self.screen {
                                TapAction::Nothing
                            } else {
                                self.screen = target;
                                match target {
                                    Screen::Weather => TapAction::ShowWeather,
                                    Screen::Radar => TapAction::EnterRadar,
                                }
                            }
                        },
                        None => TapAction::Nothing,
                    }
                }
            },
        }
    }

    /// The state after the backlight was switched on.
    pub open spec fn after_light(self) -> AppState {
        AppState { remaining_on_ms: (BACKLIGHT_ON_SECS * 1000) as u64, ..self }
    }

    /// The backlight was switched on: it stays lit for its time.
    pub fn lit(&mut self)
        ensures
            *final(self) == old(self).after_light(),
            old(self).valid() ==> final(self).valid(),
    {
        self.remaining_on_ms = BACKLIGHT_ON_SECS * 1000;
    }

    /// The slideshow runs: the radar screen is up, lit, and has frames.
    pub open spec fn animating(self) -> bool {
        self.screen is Radar && self.remaining_on_ms > 0 && self.radar.frames > 0
    }

    /// The state after a stretch of the slideshow.
    pub open spec fn after_dwell(self) -> AppState {
        if !self.animating() {
            self
        } else if self.radar.dwell_ms > CHUNK_MS {
            AppState {
                radar: RadarState {
                    dwell_ms: less(self.radar.dwell_ms, CHUNK_MS as int),
                    ..self.radar
                },
                ..self
            }
        } else {
            AppState {
                radar: RadarState {
                    index: ((self.radar.index + 1) % (self.radar.frames as int)) as usize,
                    dwell_ms: RADAR_FRAME_MS,
                    ..self.radar
                },
                ..self
            }
        }
    }

    /// Animate the slideshow, but only while the panel is actually lit. Returns the frame to show,
    /// when it is time for the next one.
    pub fn animate(&mut self) -> (show: Option<usize>)
        requires
            old(self).valid(),
        ensures
            *final(self) == old(self).after_dwell(),
            show == old(self).to_show(TapAction::Nothing),
            final(self).valid(),
    {
        if self.screen == Screen::Radar && self.remaining_on_ms > 0 && self.radar.frames > 0 {
            if self.radar.dwell_ms > CHUNK_MS {
                self.radar.dwell_ms = self.radar.dwell_ms - CHUNK_MS;
                None
            } else {
                let next: usize = if self.radar.index + 1 < self.radar.frames {
                    self.radar.index + 1
                } else {
                    0
                };
                proof {
                    let n = self.radar.frames as int;
                    if self.radar.index + 1 < n {
                        vstd::arithmetic::div_mod::lemma_small_mod(
                            (self.radar.index + 1) as nat,
                            n as nat,
                        );
                    } else {
                        vstd::arithmetic::div_mod::lemma_mod_self_0(n);
                    }
                }
                self.radar.index = next;
                self.radar.dwell_ms = RADAR_FRAME_MS;
                Some(next)
            }
        } else {
            None
        }
    }

    /// The state after a stretch of the slideshow that follows a reading that asked for `action`.
    pub open spec fn after_dwelling(self, action: TapAction) -> AppState {
        if action is EnterRadar {
            self
        } else {
            self.after_dwell()
        }
    }

    /// In that stretch it is time for the next frame.
    pub open spec fn turns(self, action: TapAction) -> bool {
        !(action is EnterRadar) && self.animating() && self.radar.dwell_ms <= CHUNK_MS
    }

    /// The frame to show in that stretch, if it is time for the next one.
    pub open spec fn to_show(self, action: TapAction) -> Option<usize> {
        if self.turns(action) {
            Some(self.after_dwelling(action).radar.index)
        } else {
            None
        }
    }

    /// Animate the slideshow after a reading of the touch panel that asked for `action`. Where the
    /// radar screen has just been entered its first frame has only begun its time.
    pub fn animate_after(&mut self, action: TapAction) -> (show: Option<usize>)
        requires
            old(self).valid(),
        ensures
            *final(self) == old(self).after_dwelling(action),
            show == old(self).to_show(action),
            final(self).valid(),
    {
        match action {
            TapAction::EnterRadar => None,
            _ => self.animate(),
        }
    }

    /// The state after a frame could not be read.
    pub open spec fn after_failed_frame(self) -> AppState {
        AppState { radar: RadarState { frames: 0, ..self.radar }, ..self }
    }

    /// A frame could not be read: the slideshow has none until they are staged again.
    pub fn frame_failed(&mut self)
        ensures
            *final(self) == old(self).after_failed_frame(),
            old(self).valid() ==> final(self).valid(),
    {
        self.radar.frames = 0;
    }

    /// The state after a stretch of time.
    pub open spec fn after_countdown(self) -> AppState {
        AppState { remaining_on_ms: less(self.remaining_on_ms, CHUNK_MS as int), ..self }
    }

    /// The backlight's time is up after a stretch of it.
    pub open spec fn switches_off(self) -> bool {
        self.remaining_on_ms > 0 && self.after_countdown().remaining_on_ms == 0
    }

    /// Count down the backlight's time; returns whether to switch it off.
    ///
    /// The timer is a saturating countdown, never an absolute deadline that could overflow: the
    /// only arithmetic is subtraction toward zero, so the fail-safe direction is always "backlight
    /// off".
    pub fn countdown(&mut self) -> (off: bool)
        ensures
            *final(self) == old(self).after_countdown(),
            off == old(self).switches_off(),
            off == (old(self).remaining_on_ms > 0 && final(self).remaining_on_ms == 0),
            old(self).valid() ==> final(self).valid(),
    {
        if self.remaining_on_ms > 0 {
            self.remaining_on_ms = if self.remaining_on_ms >= CHUNK_MS {
                self.remaining_on_ms - CHUNK_MS
            } else {
                0
            };
            self.remaining_on_ms == 0
        } else {
            false
        }
    }

    /// What entering the radar screen takes.
    pub open spec fn entry(self, now_ms: u64) -> RadarEntry {
        if !self.radar.sd_ready {
            RadarEntry::NoCard
        } else if self.radar.frames == 0 || stale(self.radar, now_ms) {
            RadarEntry::Stage
        } else {
            RadarEntry::Ready
        }
    }

    /// What entering the radar screen takes: a card, and frames that are neither missing nor
    /// stale.
    pub fn enter_radar_screen(&self, now_ms: u64) -> (e: RadarEntry)
        ensures
            e == self.entry(now_ms),
    {
        if !self.radar.sd_ready {
            RadarEntry::NoCard
        } else if self.radar.frames == 0 || self.radar.is_stale(now_ms) {
            RadarEntry::Stage
        } else {
            RadarEntry::Ready
        }
    }

    /// The state after staging: it gave so many frames, or failed and left so many on the card.
    pub open spec fn after_staging(
        self,
        staged: Option<usize>,
        on_card: usize,
        now_ms: u64,
    ) -> AppState {
        let frames = match staged {
            Some(n) => n,
            None => on_card,
        };
        AppState {
            radar: RadarState {
                frames,
                index: if frames > 0 {
                    0
                } else {
                    self.radar.index
                },
                staged_at: match staged {
                    Some(n) => Some(now_ms),
                    None => self.radar.staged_at,
                },
                ..self.radar
            },
            ..self
        }
    }

    /// Staging is over: it gave so many frames, or failed, in which case the frames that are still
    /// on the card count and the next entry tries again.
    pub fn radar_staged(&mut self, staged: Option<usize>, on_card: usize, now_ms: u64)
        ensures
            *final(self) == old(self).after_staging(staged, on_card, now_ms),
            old(self).valid() ==> final(self).valid(),
    {
        match staged {
            Some(n) => {
                self.radar.frames = n;
                self.radar.staged_at = Some(now_ms);
            },
            None => {
                self.radar.frames = on_card;
            },
        }
        if self.radar.frames > 0 {
            self.radar.index = 0;
        }
    }

    /// The state after the slideshow begins: its first frame is shown, with all of its time before
    /// it.
    pub open spec fn begun(self) -> AppState {
        if self.radar.frames == 0 {
            self
        } else {
            AppState {
                radar: RadarState { index: 0, dwell_ms: RADAR_FRAME_MS, ..self.radar },
                ..self
            }
        }
    }

    /// The frame that the slideshow begins with, if there is any.
    pub open spec fn first_frame(self) -> Option<usize> {
        if self.radar.frames > 0 {
            Some(0)
        } else {
            None
        }
    }

    /// Begin the slideshow; returns the frame to show, if there is any.
    pub fn start_slideshow(&mut self) -> (show: Option<usize>)
        ensures
            *final(self) == old(self).begun(),
            show == old(self).first_frame(),
            old(self).valid() ==> final(self).valid(),
    {
        if self.radar.frames == 0 {
            None
        } else {
            self.radar.index = 0;
            self.radar.dwell_ms = RADAR_FRAME_MS;
            Some(0)
        }
    }
}

/// What the station meets with in one tick of the interactive wait.
pub ghost struct Tick {
    /// The reading of the touch panel.
    pub point: Option<TouchPoint>,
    /// The backlight can be switched on.
    pub light: bool,
    /// The time at which the radar screen is entered, if it is.
    pub now_ms: u64,
    /// What staging gives, if it is called for.
    pub staged: Option<usize>,
    /// The time at which it gives it.
    pub staged_ms: u64,
    /// How many frames are on the card after that.
    pub on_card: usize,
    /// The frame to be shown, if there is one, can be read.
    pub readable: bool,
}

impl AppState {
    /// The state after a frame was to be shown.
    pub open spec fn after_showing(self, readable: bool) -> AppState {
        if readable {
            self
        } else {
            self.after_failed_frame()
        }
    }

    /// The state after the radar screen was entered: the frames are staged if need be, and the
    /// slideshow begins with its first frame if there is any.
    pub open spec fn after_entering(self, t: Tick) -> AppState {
        let ready = match self.entry(t.now_ms) {
            RadarEntry::NoCard => self,
            RadarEntry::Stage => self.after_staging(t.staged, t.on_card, t.staged_ms),
            RadarEntry::Ready => self,
        };
        if self.entry(t.now_ms) is NoCard || ready.radar.frames == 0 {
            ready
        } else {
            ready.begun().after_showing(t.readable)
        }
    }

    /// The state after what a reading of the touch panel asked for was done.
    pub open spec fn after_action(self, action: TapAction, t: Tick) -> AppState {
        match action {
            TapAction::Nothing => self,
            TapAction::LightUp => if t.light {
                self.after_light()
            } else {
                self
            },
            TapAction::ShowWeather => self,
            TapAction::EnterRadar => self.after_entering(t),
        }
    }

    /// The state at the end of a tick, before the time of the backlight is counted down: the touch
    /// panel is read, what it asks for is done, and the slideshow goes on.
    pub open spec fn before_countdown(self, t: Tick) -> AppState {
        let action = self.action(t.point);
        let acted = self.after_reading(t.point).after_action(action, t);
        let dwelt = acted.after_dwelling(action);
        if acted.turns(action) {
            dwelt.after_showing(t.readable)
        } else {
            dwelt
        }
    }

    /// The state after one tick.
    pub open spec fn ticked(self, t: Tick) -> AppState {
        self.before_countdown(t).after_countdown()
    }

    /// The backlight is switched off in a tick.
    pub open spec fn goes_dark(self, t: Tick) -> bool {
        self.before_countdown(t).remaining_on_ms > 0 && self.ticked(t).remaining_on_ms == 0
    }

    /// The state after the first `n` ticks.
    pub open spec fn after_ticks(self, ticks: Seq<Tick>, n: nat) -> AppState
        decreases n,
    {
        if n == 0 {
            self
        } else {
            self.after_ticks(ticks, (n - 1) as nat).ticked(ticks[n - 1])
        }
    }

    /// How often the backlight is switched off in the first `n` ticks.
    pub open spec fn times_dark(self, ticks: Seq<Tick>, n: nat) -> nat
        decreases n,
    {
        if n == 0 {
            0
        } else {
            self.times_dark(ticks, (n - 1) as nat) + if self.after_ticks(
                ticks,
                (n - 1) as nat,
            ).goes_dark(ticks[n - 1]) {
                1nat
            } else {
                0
            }
        }
    }
}

/// At the start the weather screen is up and dark, so that the first tap only wakes it, and radar
/// frames have to be staged, if there is a card: none is there yet, and none is being shown.
pub proof fn law_start(sd_ready: bool, p: TouchPoint, now_ms: u64)
    ensures
        ({
            let s = AppState::initial(sd_ready);
            &&& s.screen is Weather && s.remaining_on_ms == 0 && !s.touch_down
            &&& s.radar.sd_ready == sd_ready && s.radar.frames == 0 && s.radar.staged_at is None
            &&& s.radar.index == 0 && s.radar.dwell_ms == 0
            &&& s.action(Some(p)) is LightUp
            &&& s.entry(now_ms) == if sd_ready {
                RadarEntry::Stage
            } else {
                RadarEntry::NoCard
            }
        }),
{
}

/// What is left of a wait after `n` ticks.
pub open spec fn left_after(ms: u64, n: nat) -> u64
    decreases n,
{
    if n == 0 {
        ms
    } else {
        less(left_after(ms, (n - 1) as nat), CHUNK_MS as int)
    }
}

/// Every tick keeps what the operations keep, whatever the station meets with.
pub proof fn law_ticks_keep_the_state_valid(s: AppState, t: Tick)
    requires
        s.valid(),
    ensures
        s.ticked(t).valid(),
{
    let action = s.action(t.point);
    let acted = s.after_reading(t.point).after_action(action, t);
    assert(acted.valid());
    if acted.animating() {
        vstd::arithmetic::div_mod::lemma_mod_bound(
            acted.radar.index + 1,
            acted.radar.frames as int,
        );
    }
}

/// Without a tap, however long the wait, the screen stays as it is, the time of the backlight falls
/// by what goes by and never below zero, the backlight is switched off exactly once, when its time
/// is up, and from when it is dark the radar does not change.
pub proof fn law_ticks_without_a_tap(s: AppState, ticks: Seq<Tick>, n: nat)
    requires
        n <= ticks.len(),
        forall|k: nat|
            k < n ==> (#[trigger] s.after_ticks(ticks, k)).tapped(ticks[k as int].point) is None,
    ensures
        s.after_ticks(ticks, n).screen == s.screen,
        s.after_ticks(ticks, n).remaining_on_ms == less(s.remaining_on_ms, n * CHUNK_MS),
        s.times_dark(ticks, n) == if 0 < s.remaining_on_ms <= n * CHUNK_MS {
            1nat
        } else {
            0
        },
        forall|m: nat|
            m <= n && (#[trigger] s.after_ticks(ticks, m)).remaining_on_ms == 0 ==> s.after_ticks(
                ticks,
                n,
            ).radar == s.after_ticks(ticks, m).radar,
    decreases n,
{
    if n > 0 {
        let k = (n - 1) as nat;
        law_ticks_without_a_tap(s, ticks, k);
        let now = s.after_ticks(ticks, k);
        let t = ticks[k as int];
        assert(now.tapped(t.point) is None);
        assert(now.action(t.point) is Nothing);
        assert(now.before_countdown(t).remaining_on_ms == now.remaining_on_ms);
        assert forall|m: nat|
            m <= n && (#[trigger] s.after_ticks(ticks, m)).remaining_on_ms == 0 implies
            s.after_ticks(ticks, n).radar == s.after_ticks(ticks, m).radar by {
            if m < n {
                law_ticks_without_a_tap(s, ticks, m);
                assert(now.remaining_on_ms == 0);
            }
        }
    }
}

/// A wait takes the ticks that make up its time, the last of them begun if need be, and is then
/// over.
pub proof fn law_wait_takes_its_time(ms: u64, n: nat)
    ensures
        left_after(ms, n) == less(ms, n * CHUNK_MS),
        left_after(ms, n) == 0 <==> n * CHUNK_MS >= ms,
    decreases n,
{
    if n > 0 {
        law_wait_takes_its_time(ms, (n - 1) as nat);
    }
}

/// The state after some stretches of time without a tap.
pub open spec fn counted_down(s: AppState, ticks: nat) -> AppState
    decreases ticks,
{
    if ticks == 0 {
        s
    } else {
        counted_down(s, (ticks - 1) as nat).after_countdown()
    }
}

/// The backlight cannot get stuck on: from any state it is off after its time at the latest, and
/// it is on until then.
pub proof fn law_backlight_goes_off(s: AppState, ticks: nat)
    requires
        s.valid(),
    ensures
        counted_down(s, ticks).remaining_on_ms == less(s.remaining_on_ms, ticks as int * 100),
        ticks >= BACKLIGHT_ON_SECS * 10 ==> counted_down(s, ticks).remaining_on_ms == 0,
    decreases ticks,
{
    if ticks > 0 {
        law_backlight_goes_off(s, (ticks - 1) as nat);
    }
}

/// A finger resting on the panel is one tap: readings after the first ask for nothing and leave
/// the screen as it is, until the finger is lifted.
pub proof fn law_resting_finger_taps_once(s: AppState, first: TouchPoint, next: TouchPoint)
    ensures
        ({
            let t = s.after_reading(Some(first));
            &&& t.action(Some(next)) is Nothing
            &&& t.after_reading(Some(next)) == t
            &&& !t.after_reading(None).touch_down
        }),
{
}

/// In the dark a tap switches no screen: it only asks for light.
pub proof fn law_first_tap_only_wakes(s: AppState, p: TouchPoint)
    requires
        s.remaining_on_ms == 0,
        !s.touch_down,
    ensures
        s.action(Some(p)) is LightUp,
        s.after_reading(Some(p)).screen == s.screen,
{
}

/// While it is lit, a new tap on the half of the toolbar of the other screen switches to it, and
/// any other reading switches nothing. Readings change nothing else but whether a finger is down.
pub proof fn law_taps_switch_screens(s: AppState, point: Option<TouchPoint>)
    requires
        s.remaining_on_ms > 0,
    ensures
        ({
            let t = s.after_reading(point);
            let pressed = point is Some && !s.touch_down && 292 <= point->0.y < 320;
            let to_weather = pressed && point->0.x < 120 && s.screen is Radar;
            let to_radar = pressed && point->0.x >= 120 && s.screen is Weather;
            &&& s.action(point) is ShowWeather <==> to_weather
            &&& s.action(point) is EnterRadar <==> to_radar
            &&& !(s.action(point) is LightUp)
            &&& to_weather ==> t.screen is Weather
            &&& to_radar ==> t.screen is Radar
            &&& !to_weather && !to_radar ==> t.screen == s.screen
            &&& t.touch_down <==> point is Some
            &&& t.remaining_on_ms == s.remaining_on_ms && t.radar == s.radar
        }),
{
}

/// A tap that wakes the screen lights it for a minute and changes nothing else. Only a new tap in
/// the dark does.
pub proof fn law_light_lasts_a_minute(s: AppState, point: Option<TouchPoint>)
    ensures
        s.action(point) is LightUp <==> s.remaining_on_ms == 0 && !s.touch_down && point is Some,
        s.after_light() == (AppState { remaining_on_ms: 60_000, ..s }),
{
}

/// What is left of a time is what did not go by of it, and never less than nothing.
pub proof fn law_time_runs_down(ms: u64, by: nat)
    ensures
        by <= ms ==> less(ms, by as int) == ms - by,
        by > ms ==> less(ms, by as int) == 0,
{
}

/// The slideshow runs if and only if the radar screen is up, the backlight is on and there are
/// frames; otherwise it stands still. A stretch of it changes nothing but which frame is up and
/// for how long.
pub proof fn law_slideshow_runs_on_the_lit_radar_screen(s: AppState, action: TapAction)
    ensures
        s.animating() <==> s.screen == Screen::Radar && s.remaining_on_ms > 0 && s.radar.frames > 0,
        !(s.screen == Screen::Radar && s.remaining_on_ms > 0 && s.radar.frames > 0)
            ==> s.after_dwelling(action) == s && !s.turns(action),
        s.after_dwelling(TapAction::EnterRadar) == s,
        s.after_dwelling(action).screen == s.screen,
        s.after_dwelling(action).remaining_on_ms == s.remaining_on_ms,
        s.after_dwelling(action).touch_down == s.touch_down,
        s.after_dwelling(action).radar.frames == s.radar.frames,
        s.after_dwelling(action).radar.staged_at == s.radar.staged_at,
        s.after_dwelling(action).radar.sd_ready == s.radar.sd_ready,
        !(action is EnterRadar) && s.animating() && s.radar.dwell_ms > 100 ==> !s.turns(action)
            && s.after_dwelling(action).radar.dwell_ms == s.radar.dwell_ms - 100
            && s.after_dwelling(action).radar.index == s.radar.index,
        !(action is EnterRadar) && s.animating() && s.radar.dwell_ms <= 100 ==> s.turns(action),
        s.to_show(action) is Some <==> !(action is EnterRadar) && s.screen == Screen::Radar
            && s.remaining_on_ms > 0 && s.radar.frames > 0 && s.radar.dwell_ms <= 100,
{
}

/// When its time is up a frame is followed by the next, and the last by the first, which then has
/// six tenths of a second.
pub proof fn law_next_frame(s: AppState)
    requires
        s.valid(),
        s.animating(),
        s.radar.dwell_ms <= 100,
    ensures
        s.radar.index + 1 < s.radar.frames ==> s.after_dwell().radar.index == s.radar.index + 1,
        s.radar.index + 1 == s.radar.frames ==> s.after_dwell().radar.index == 0,
        s.after_dwell().radar.dwell_ms == 600,
        s.to_show(TapAction::Nothing) == Some(s.after_dwell().radar.index),
        s.to_show(TapAction::EnterRadar) is None,
{
    let n = s.radar.frames as int;
    if s.radar.index + 1 < n {
        vstd::arithmetic::div_mod::lemma_small_mod((s.radar.index + 1) as nat, n as nat);
    } else {
        vstd::arithmetic::div_mod::lemma_mod_self_0(n);
    }
}

/// Staging that succeeds gives its frames, which are then fresh for ten minutes; staging that fails
/// leaves the frames that are on the card and their age, so that what was missing or stale is
/// staged again at the next entry. Either way the slideshow is put back to its first frame if there
/// is any.
pub proof fn law_staging(
    s: AppState,
    staged: Option<usize>,
    on_card: usize,
    now_ms: u64,
    later_ms: u64,
)
    requires
        s.radar.sd_ready,
    ensures
        ({
            let t = s.after_staging(staged, on_card, now_ms);
            &&& staged is Some ==> t.radar.frames == staged->0 && t.radar.staged_at == Some(now_ms)
            &&& staged is None ==> t.radar.frames == on_card && t.radar.staged_at
                == s.radar.staged_at
            &&& t.radar.frames > 0 ==> t.radar.index == 0
            &&& t.radar.sd_ready && t.radar.dwell_ms == s.radar.dwell_ms
            &&& t.screen == s.screen && t.remaining_on_ms == s.remaining_on_ms && t.touch_down
                == s.touch_down
            &&& staged matches Some(n) ==> (t.entry(later_ms) is Ready <==> n > 0 && later_ms
                < now_ms + 600_000)
            &&& staged is None && s.radar.staged_at is None ==> t.entry(later_ms) is Stage
        }),
{
}

/// Without a card there is no radar, and with one it takes frames that were staged less than ten
/// minutes ago.
pub proof fn law_radar_takes_a_card_and_fresh_frames(s: AppState, now_ms: u64)
    ensures
        s.entry(now_ms) is NoCard <==> !s.radar.sd_ready,
        s.entry(now_ms) is Ready <==> s.radar.sd_ready && s.radar.frames > 0 && s.radar.staged_at
            is Some && now_ms < s.radar.staged_at->0 + 600_000,
        s.after_failed_frame() == (AppState {
            radar: RadarState { frames: 0, ..s.radar },
            ..s
        }),
{
}

/// The slideshow begins with the first frame, which has six tenths of a second; without frames
/// nothing begins.
pub proof fn law_slideshow_begins(s: AppState)
    ensures
        s.radar.frames == 0 ==> s.begun() == s && s.first_frame() is None,
        s.radar.frames > 0 ==> s.first_frame() == Some(0usize),
        s.radar.frames > 0 ==> s.begun() == (AppState {
            radar: RadarState { index: 0, dwell_ms: 600, ..s.radar },
            ..s
        }),
{
}

/// The backlight is switched off in the last tenth of a second of its time, not before, and not
/// again in the dark. Counting down changes nothing else.
pub proof fn law_backlight_is_switched_off_at_the_end(s: AppState)
    ensures
        s.switches_off() <==> 0 < s.remaining_on_ms <= 100,
        s.remaining_on_ms > 100 ==> s.after_countdown() == (AppState {
            remaining_on_ms: (s.remaining_on_ms - 100) as u64,
            ..s
        }),
        s.remaining_on_ms <= 100 ==> s.after_countdown() == (AppState { remaining_on_ms: 0, ..s }),
{
}

/// The slideshow stands still while the backlight is off.
pub proof fn law_slideshow_pauses_in_the_dark(s: AppState)
    requires
        s.remaining_on_ms == 0,
    ensures
        s.after_dwell() == s,
{
}

/// The slideshow after some stretches of time in which it runs.
pub open spec fn dwelt(s: AppState, ticks: nat) -> AppState
    decreases ticks,
{
    if ticks == 0 {
        s
    } else {
        dwelt(s, (ticks - 1) as nat).after_dwell()
    }
}

/// A frame that was just shown stays for its dwell time, and then the next one comes; after the
/// last frame the first comes again.
pub proof fn law_frames_take_turns(s: AppState)
    requires
        s.valid(),
        s.animating(),
        s.radar.dwell_ms == RADAR_FRAME_MS,
    ensures
        forall|n: nat| n < 6 ==> (#[trigger] dwelt(s, n)).radar.index == s.radar.index,
        dwelt(s, 6).radar.index == (s.radar.index + 1) % (s.radar.frames as int),
        dwelt(s, 6).radar.dwell_ms == RADAR_FRAME_MS,
{
    reveal_with_fuel(dwelt, 7);
    let n = s.radar.frames as int;
    vstd::arithmetic::div_mod::lemma_mod_bound(s.radar.index + 1, n);
    assert forall|n: nat| n < 6 implies (#[trigger] dwelt(s, n)).radar.index == s.radar.index by {
        lemma_dwelt(s, n);
    }
    lemma_dwelt(s, 5);
}

/// The slideshow begins with its first frame, which stays for its dwell time like any other before
/// the next one comes.
pub proof fn law_first_frame_takes_its_turn(s: AppState)
    requires
        s.valid(),
        s.animating(),
    ensures
        s.begun().valid(),
        s.begun().animating(),
        s.begun().radar.dwell_ms == RADAR_FRAME_MS,
        forall|n: nat| n < 6 ==> (#[trigger] dwelt(s.begun(), n)).radar.index == 0,
        dwelt(s.begun(), 6).radar.index == 1int % (s.radar.frames as int),
{
    law_frames_take_turns(s.begun());
}

/// Radar frames are staged again when they are missing or stale: after a frame could not be read,
/// and once they have got too old.
pub proof fn law_missing_or_stale_frames_are_staged(s: AppState, now_ms: u64)
    requires
        s.radar.sd_ready,
    ensures
        s.after_failed_frame().entry(now_ms) is Stage,
        s.entry(now_ms) is Ready <==> (s.radar.frames > 0 && s.radar.staged_at is Some && now_ms
            < s.radar.staged_at->0 + RADAR_REFRESH_SECS * 1000),
{
}

proof fn lemma_dwelt(s: AppState, n: nat)
    requires
        n < 6,
        s.animating(),
        s.radar.dwell_ms == RADAR_FRAME_MS,
    ensures
        dwelt(s, n) == (AppState {
            radar: RadarState { dwell_ms: (600 - 100 * n) as u64, ..s.radar },
            ..s
        }),
    decreases n,
{
    if n > 0 {
        lemma_dwelt(s, (n - 1) as nat);
    }
}

/// How long a wait of so many seconds is, in ms.
pub open spec fn ms_of(total_secs: u64) -> u64 {
    if total_secs * 1000 <= u64::MAX {
        (total_secs * 1000) as u64
    } else {
        u64::MAX
    }
}

/// A second is a thousand ms; a wait that is too long to be counted is the longest that is not. A
/// wait of some seconds takes ten looks at the touch panel for each.
pub proof fn law_seconds_have_a_thousand_ms(total_secs: u64, n: nat)
    ensures
        total_secs * 1000 <= u64::MAX ==> ms_of(total_secs) == total_secs * 1000,
        total_secs * 1000 > u64::MAX ==> ms_of(total_secs) == u64::MAX,
        total_secs * 1000 <= u64::MAX ==> (left_after(ms_of(total_secs), n) == 0 <==> n >= 10
            * total_secs),
{
    law_wait_takes_its_time(ms_of(total_secs), n);
}

/// How long a wait of so many seconds is, in ms.
pub fn wait_ms(total_secs: u64) -> (ms: u64)
    ensures
        ms == ms_of(total_secs),
{
    match total_secs.checked_mul(1000) {
        Some(ms) => ms,
        None => u64::MAX,
    }
}

/// What is left of a wait after a stretch of it.
pub fn wait_on(remaining_ms: u64) -> (left: u64)
    ensures
        left == less(remaining_ms, CHUNK_MS as int),
{
    if remaining_ms >= CHUNK_MS {
        remaining_ms - CHUNK_MS
    } else {
        0
    }
}

/// The status line of a radar frame.
pub open spec fn frame_label(index: nat, frames: nat) -> Seq<char> {
    "Frame "@ + decimal((index + 1) as nat) + "/"@ + decimal(frames) + "  "@ + RADAR_ATTRIBUTION@
}

/// Frames are numbered from one up to their number, and no two of them have the same status line.
/// It ends with whose data it shows.
pub proof fn law_frames_are_numbered_from_one(i: nat, j: nat, frames: nat)
    ensures
        ("Frame "@ + decimal(i + 1) + "/"@).is_prefix_of(frame_label(i, frames)),
        frames > 0 ==> ("Frame "@ + decimal(frames) + "/"@ + decimal(frames)).is_prefix_of(
            frame_label((frames - 1) as nat, frames),
        ),
        frame_label(i, frames) == "Frame "@ + decimal(i + 1) + "/"@ + decimal(frames)
            + "  RainViewer / OSM / CARTO"@,
        frame_label(i, frames) == frame_label(j, frames) ==> i == j,
{
    reveal_strlit("/");
    reveal_strlit("  ");
    reveal_strlit("RainViewer / OSM / CARTO");
    reveal_strlit("  RainViewer / OSM / CARTO");
    let tail = "/"@ + decimal(frames) + "  "@ + RADAR_ATTRIBUTION@;
    assert("  "@ + RADAR_ATTRIBUTION@ =~= "  RainViewer / OSM / CARTO"@);
    assert(frame_label(i, frames) =~= "Frame "@ + (decimal(i + 1) + tail));
    assert(frame_label(j, frames) =~= "Frame "@ + (decimal(j + 1) + tail));
    assert(frame_label(i, frames) =~= "Frame "@ + decimal(i + 1) + "/"@ + decimal(frames)
        + "  RainViewer / OSM / CARTO"@);
    if frame_label(i, frames) == frame_label(j, frames) {
        assert(frame_label(i, frames).skip("Frame "@.len() as int) =~= decimal(i + 1) + tail);
        assert(frame_label(j, frames).skip("Frame "@.len() as int) =~= decimal(j + 1) + tail);
        lemma_decimal_ends(i + 1, j + 1, tail, tail);
    }
}

/// The status line of a radar frame: its number, and whose data it shows.
pub fn show_radar_frame(index: usize, frames: usize) -> (label: String)
    requires
        index < frames,
    ensures
        label@ == frame_label(index as nat, frames as nat),
{
    let mut label: String = "Frame ".to_owned();
    push_decimal(&mut label, index as u64 + 1);
    label.append("/");
    push_decimal(&mut label, frames as u64);
    label.append("  ");
    label.append(RADAR_ATTRIBUTION);
    label
}

} // verus!
