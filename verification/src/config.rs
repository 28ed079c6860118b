//! Persistent configuration and tunable constants.
//!
//! Wi-Fi credentials and an optional manual latitude/longitude override are kept in a store of
//! named texts so they survive reboots. All of the API endpoints and the refresh cadence live here
//! as constants so they are easy to tune in one place.

use vstd::prelude::*;

use crate::text::same_text;

verus! {

/// How often the weather + air-quality data is refreshed: 30 minutes.
pub const REFRESH_INTERVAL_SECS: u64 = 1800;

/// How long to wait before retrying after a failed refresh: 1 minute.
pub const RETRY_INTERVAL_SECS: u64 = 60;

/// How long the backlight stays lit after a screen tap on the weather display: 1 minute.
pub const BACKLIGHT_ON_SECS: u64 = 60;

/// Open-Meteo forecast API base URL (HTTPS / TLS).
pub const FORECAST_API_BASE: &'static str = "https://api.open-meteo.com/v1/forecast";

/// Open-Meteo air-quality API base URL (HTTPS / TLS).
pub const AIR_QUALITY_API_BASE: &'static str =
    "https://air-quality-api.open-meteo.com/v1/air-quality";

/// IP-based geolocation API (plain HTTP). Returns lat/long for the public IP.
pub const GEOLOCATION_API: &'static str = "http://ip-api.com/json/";

/// Number of forecast days to request / render.
pub const FORECAST_DAYS: usize = 4;

/// RainViewer's index of radar frames.
pub const RAINVIEWER_INDEX_API: &'static str = "https://api.rainviewer.com/public/weather-maps.json";

/// The most that is read of RainViewer's index.
pub const RAINVIEWER_INDEX_MAX_BYTES: usize = 16384;

/// CARTO's dark style rendered from OpenStreetMap data.
pub const BASEMAP_TILE_URL: &'static str = "https://basemaps.cartocdn.com/dark_all/{z}/{x}/{y}.png";

/// Zoom level of the radar view.
pub const RADAR_ZOOM: u8 = 7;

/// RainViewer's colour scheme.
pub const RADAR_COLOR_SCHEME: u8 = 2;

/// How many radar frames the slideshow has at most.
pub const RADAR_FRAME_COUNT: usize = 8;

/// The most that is downloaded for one radar tile.
pub const RADAR_TILE_MAX_BYTES: usize = 131072;

/// Width of the radar view.
pub const RADAR_VIEW_WIDTH: u16 = 240;

/// Height of the radar view.
pub const RADAR_VIEW_HEIGHT: u16 = 240;

/// How long a radar frame stays on the screen.
pub const RADAR_FRAME_MS: u64 = 600;

/// How old radar frames may get: 10 minutes.
pub const RADAR_REFRESH_SECS: u64 = 600;

/// Whose data the radar screen shows.
pub const RADAR_ATTRIBUTION: &'static str = "RainViewer / OSM / CARTO";

/// Namespace of the stored configuration.
pub const NVS_NAMESPACE: &'static str = "cydweather";

/// The weather is fetched every half hour and, after a failure, again in a minute; a tap lights the
/// screen for a minute; radar frames change six tenths of a second apart, eight of them at most,
/// and last for ten minutes; four days are forecast.
pub proof fn law_cadence()
    ensures
        REFRESH_INTERVAL_SECS == 30 * 60,
        RETRY_INTERVAL_SECS == 60,
        BACKLIGHT_ON_SECS == 60,
        RADAR_FRAME_MS == 600,
        RADAR_FRAME_COUNT == 8,
        RADAR_REFRESH_SECS == 10 * 60,
        FORECAST_DAYS == 4,
{
}

/// The radar is shown at the zoom level of a region and fills a square of the panel's width; what
/// is downloaded for it is kept to what the memory can hold.
pub proof fn law_radar_settings()
    ensures
        RADAR_ZOOM == 7,
        RADAR_COLOR_SCHEME == 2,
        RADAR_VIEW_WIDTH == 240,
        RADAR_VIEW_HEIGHT == RADAR_VIEW_WIDTH,
        RAINVIEWER_INDEX_MAX_BYTES == 16 * 1024,
        RADAR_TILE_MAX_BYTES == 128 * 1024,
{
}

/// Every service has its own address; only the location is looked up without encryption.
pub proof fn law_services()
    ensures
        "https://"@.is_prefix_of(FORECAST_API_BASE@),
        "https://"@.is_prefix_of(AIR_QUALITY_API_BASE@),
        "https://"@.is_prefix_of(RAINVIEWER_INDEX_API@),
        "https://"@.is_prefix_of(BASEMAP_TILE_URL@),
        GEOLOCATION_API@ == "http://"@ + "ip-api.com/json/"@,
        RAINVIEWER_INDEX_API@ == "https://"@ + "api.rainviewer.com/public/weather-maps.json"@,
        BASEMAP_TILE_URL@ == "https://"@ + "basemaps.cartocdn.com/dark_all/"@ + "{z}/{x}/{y}.png"@,
        NVS_NAMESPACE@ == "cydweather"@,
{
    reveal_strlit("https://");
    reveal_strlit("http://");
    reveal_strlit("https://api.open-meteo.com/v1/forecast");
    reveal_strlit("https://air-quality-api.open-meteo.com/v1/air-quality");
    reveal_strlit("https://api.rainviewer.com/public/weather-maps.json");
    reveal_strlit("api.rainviewer.com/public/weather-maps.json");
    reveal_strlit("https://basemaps.cartocdn.com/dark_all/{z}/{x}/{y}.png");
    reveal_strlit("basemaps.cartocdn.com/dark_all/");
    reveal_strlit("{z}/{x}/{y}.png");
    reveal_strlit("http://ip-api.com/json/");
    reveal_strlit("ip-api.com/json/");
    assert(GEOLOCATION_API@ =~= "http://"@ + "ip-api.com/json/"@);
    assert(RAINVIEWER_INDEX_API@ =~= "https://"@ + "api.rainviewer.com/public/weather-maps.json"@);
    assert(BASEMAP_TILE_URL@ =~= "https://"@ + "basemaps.cartocdn.com/dark_all/"@
        + "{z}/{x}/{y}.png"@);
}

/// User-selectable Wi-Fi security type chosen during provisioning.
///
/// `Auto` negotiates cleanly on most hybrid networks. The explicit variants let the user pin a
/// specific mode, notably `WpaWpa2Personal` for older access points that would otherwise time out.
#[derive(Debug, Clone, Copy, PartialEq, Eq, Structural)]
pub enum WifiAuth {
    /// Let the driver negotiate; maps to WPA2/WPA3 Personal.
    Auto,
    /// WPA/WPA2 Personal (mixed mode), for older access points.
    WpaWpa2Personal,
    /// WPA2 Personal only.
    Wpa2Personal,
    /// WPA2/WPA3 Personal (mixed mode).
    Wpa2Wpa3Personal,
    /// Open network (no password).
    Open,
}

impl Default for WifiAuth {
    fn default() -> (a: Self)
        ensures
            a is Auto,
    {
        WifiAuth::Auto
    }
}

/// How the radio authenticates.
#[derive(Debug, Clone, Copy, PartialEq, Eq, Structural)]
pub enum AuthMethod {
    /// Not at all.
    Unsecured,
    WpaWpa2Personal,
    Wpa2Personal,
    Wpa2Wpa3Personal,
}

/// The label of a security type.
pub open spec fn auth_label(a: WifiAuth) -> Seq<char> {
    match a {
        WifiAuth::Auto => "Auto"@,
        WifiAuth::WpaWpa2Personal => "WPA/WPA2 Personal"@,
        WifiAuth::Wpa2Personal => "WPA2 Personal"@,
        WifiAuth::Wpa2Wpa3Personal => "WPA2/WPA3 Personal"@,
        WifiAuth::Open => "Open"@,
    }
}

/// The name under which a security type is stored.
pub open spec fn auth_name(a: WifiAuth) -> Seq<char> {
    match a {
        WifiAuth::Auto => "auto"@,
        WifiAuth::WpaWpa2Personal => "wpa_wpa2"@,
        WifiAuth::Wpa2Personal => "wpa2"@,
        WifiAuth::Wpa2Wpa3Personal => "wpa2_wpa3"@,
        WifiAuth::Open => "open"@,
    }
}

/// The security type a stored name stands for; any other name stands for `Auto`.
pub open spec fn auth_named(s: Seq<char>) -> WifiAuth {
    if s == "wpa_wpa2"@ {
        WifiAuth::WpaWpa2Personal
    } else if s == "wpa2"@ {
        WifiAuth::Wpa2Personal
    } else if s == "wpa2_wpa3"@ {
        WifiAuth::Wpa2Wpa3Personal
    } else if s == "open"@ {
        WifiAuth::Open
    } else {
        WifiAuth::Auto
    }
}

/// How the radio authenticates for a security type.
pub open spec fn method_of(a: WifiAuth) -> AuthMethod {
    match a {
        WifiAuth::Auto => AuthMethod::Wpa2Wpa3Personal,
        WifiAuth::Wpa2Wpa3Personal => AuthMethod::Wpa2Wpa3Personal,
        WifiAuth::WpaWpa2Personal => AuthMethod::WpaWpa2Personal,
        WifiAuth::Wpa2Personal => AuthMethod::Wpa2Personal,
        WifiAuth::Open => AuthMethod::Unsecured,
    }
}

/// All security types in display order.
pub open spec fn all_auths() -> Seq<WifiAuth> {
    seq![
        WifiAuth::Auto,
        WifiAuth::WpaWpa2Personal,
        WifiAuth::Wpa2Personal,
        WifiAuth::Wpa2Wpa3Personal,
        WifiAuth::Open,
    ]
}

impl WifiAuth {
    /// Human-readable label used on the provisioning screen.
    pub fn label(self) -> (s: &'static str)
        ensures
            s@ == auth_label(self),
    {
        match self {
            WifiAuth::Auto => "Auto",
            WifiAuth::WpaWpa2Personal => "WPA/WPA2 Personal",
            WifiAuth::Wpa2Personal => "WPA2 Personal",
            WifiAuth::Wpa2Wpa3Personal => "WPA2/WPA3 Personal",
            WifiAuth::Open => "Open",
        }
    }

    /// All variants in display order (used to build the selection screen).
    pub fn all() -> (v: Vec<WifiAuth>)
        ensures
            v@ == all_auths(),
    {
        let v = vec![
            WifiAuth::Auto,
            WifiAuth::WpaWpa2Personal,
            WifiAuth::Wpa2Personal,
            WifiAuth::Wpa2Wpa3Personal,
            WifiAuth::Open,
        ];
        assert(v@ =~= all_auths());
        v
    }

    /// Stable string used for persistence.
    pub fn as_str(self) -> (s: &'static str)
        ensures
            s@ == auth_name(self),
    {
        match self {
            WifiAuth::Auto => "auto",
            WifiAuth::WpaWpa2Personal => "wpa_wpa2",
            WifiAuth::Wpa2Personal => "wpa2",
            WifiAuth::Wpa2Wpa3Personal => "wpa2_wpa3",
            WifiAuth::Open => "open",
        }
    }

    /// The security type that a stored name stands for.
    pub fn from_str(s: &str) -> (a: WifiAuth)
        ensures
            a == auth_named(s@),
    {
        if same_text(s, "wpa_wpa2") {
            WifiAuth::WpaWpa2Personal
        } else if same_text(s, "wpa2") {
            WifiAuth::Wpa2Personal
        } else if same_text(s, "wpa2_wpa3") {
            WifiAuth::Wpa2Wpa3Personal
        } else if same_text(s, "open") {
            WifiAuth::Open
        } else {
            WifiAuth::Auto
        }
    }

    /// How the radio authenticates. `Auto` resolves to WPA2/WPA3 Personal.
    pub fn to_auth_method(self) -> (m: AuthMethod)
        ensures
            m == method_of(self),
    {
        match self {
            WifiAuth::Auto | WifiAuth::Wpa2Wpa3Personal => AuthMethod::Wpa2Wpa3Personal,
            WifiAuth::WpaWpa2Personal => AuthMethod::WpaWpa2Personal,
            WifiAuth::Wpa2Personal => AuthMethod::Wpa2Personal,
            WifiAuth::Open => AuthMethod::Unsecured,
        }
    }
}

/// A security type reads back from its stored name.
pub proof fn law_auth_reads_back(a: WifiAuth)
    ensures
        auth_named(auth_name(a)) == a,
{
    reveal_strlit("auto");
    reveal_strlit("wpa_wpa2");
    reveal_strlit("wpa2");
    reveal_strlit("wpa2_wpa3");
    reveal_strlit("open");
    assert("auto"@[0] == 'a');
    assert("open"@[0] == 'o');
    assert("wpa2"@[0] == 'w');
    assert("wpa2_wpa3"@[0] == 'w');
    assert("wpa_wpa2"@[0] == 'w');
    assert("wpa2"@.len() == 4);
    assert("wpa2_wpa3"@.len() == 9);
    assert("wpa_wpa2"@.len() == 8);
}

/// Each security type but the automatic one asks the radio for what it is called, an open network
/// for nothing at all; the automatic one asks for WPA2 and WPA3.
pub proof fn law_radio_does_what_was_chosen(a: WifiAuth)
    ensures
        method_of(a) is Unsecured <==> a is Open,
        method_of(a) is WpaWpa2Personal <==> a is WpaWpa2Personal,
        method_of(a) is Wpa2Personal <==> a is Wpa2Personal,
        method_of(a) is Wpa2Wpa3Personal <==> a is Wpa2Wpa3Personal || a is Auto,
{
}

/// Any text but the names of the other security types stands for the automatic one.
pub proof fn law_unknown_names_are_automatic(s: Seq<char>)
    ensures
        !(auth_named(s) is Auto) ==> s == auth_name(auth_named(s)),
        auth_name(WifiAuth::WpaWpa2Personal) == "wpa_wpa2"@,
        auth_name(WifiAuth::Wpa2Personal) == "wpa2"@,
        auth_name(WifiAuth::Wpa2Wpa3Personal) == "wpa2_wpa3"@,
        auth_name(WifiAuth::Open) == "open"@,
        auth_name(WifiAuth::Auto) == "auto"@,
{
}

/// Every security type can be chosen, each once: the automatic one first, then from the oldest kind
/// of protection to the newest, and the open network last. No two of them are called the same. What
/// is called personal says which of WPA, WPA2 and WPA3 it takes.
pub proof fn law_every_security_type_can_be_chosen(a: WifiAuth, b: WifiAuth)
    ensures
        all_auths().len() == 5,
        all_auths().contains(a),
        all_auths()[0] is Auto,
        all_auths()[1] is WpaWpa2Personal,
        all_auths()[2] is Wpa2Personal,
        all_auths()[3] is Wpa2Wpa3Personal,
        all_auths()[4] is Open,
        auth_label(a) == auth_label(b) ==> a == b,
        auth_label(WifiAuth::Auto) == "Auto"@,
        auth_label(WifiAuth::Open) == "Open"@,
        auth_label(WifiAuth::Wpa2Personal) == "WPA2"@ + " Personal"@,
        auth_label(WifiAuth::WpaWpa2Personal) == "WPA/"@ + auth_label(WifiAuth::Wpa2Personal),
        auth_label(WifiAuth::Wpa2Wpa3Personal) == "WPA2/"@ + "WPA3"@ + " Personal"@,
{
    let all = all_auths();
    assert(all[0] is Auto && all[1] is WpaWpa2Personal && all[2] is Wpa2Personal);
    assert(all[3] is Wpa2Wpa3Personal && all[4] is Open);
    reveal_strlit("Auto");
    reveal_strlit("Open");
    reveal_strlit("WPA/WPA2 Personal");
    reveal_strlit("WPA2 Personal");
    reveal_strlit("WPA2/WPA3 Personal");
    reveal_strlit("WPA2");
    reveal_strlit("WPA3");
    reveal_strlit(" Personal");
    reveal_strlit("WPA/");
    reveal_strlit("WPA2/");
    assert("Auto"@.len() == 4 && "Auto"@[0] == 'A');
    assert("Open"@.len() == 4 && "Open"@[0] == 'O');
    assert("WPA/WPA2 Personal"@.len() == 17);
    assert("WPA2 Personal"@.len() == 13);
    assert("WPA2/WPA3 Personal"@.len() == 18);
    assert("WPA2"@ + " Personal"@ =~= "WPA2 Personal"@);
    assert("WPA/"@ + "WPA2 Personal"@ =~= "WPA/WPA2 Personal"@);
    assert("WPA2/"@ + "WPA3"@ + " Personal"@ =~= "WPA2/WPA3 Personal"@);
}

/// User configuration persisted across reboots. `C` is the type of a coordinate.
#[derive(Debug, Clone)]
pub struct StoredConfig<C> {
    pub ssid: Option<String>,
    pub password: Option<String>,
    /// Wi-Fi security type selected during provisioning.
    pub auth_method: WifiAuth,
    /// Whether serial/USB debug logging is enabled.
    pub serial_debug: bool,
    /// Optional manual latitude/longitude override. When present it takes precedence over
    /// IP-based geolocation.
    pub manual_location: Option<(C, C)>,
}

/// A text that may be absent, as a mathematical value.
pub open spec fn opt_text(s: Option<String>) -> Option<Seq<char>> {
    match s {
        Some(t) => Some(t@),
        None => None,
    }
}

/// A configuration in which nothing is set.
pub open spec fn unset<C>(c: StoredConfig<C>) -> bool {
    &&& c.ssid is None
    &&& c.password is None
    &&& c.auth_method is Auto
    &&& c.serial_debug
    &&& c.manual_location is None
}

/// With a network name that is not empty there is enough to attempt a connection.
pub open spec fn connectable(ssid: Option<Seq<char>>) -> bool {
    ssid matches Some(s) && s.len() > 0
}

/// A connection is attempted exactly with a name of at least one character; not with what is unset.
pub proof fn law_connecting_takes_a_name<C>(c: StoredConfig<C>)
    ensures
        connectable(opt_text(c.ssid)) <==> c.ssid is Some && c.ssid->0@.len() >= 1,
        unset(c) ==> !connectable(opt_text(c.ssid)),
{
}

impl<C> Default for StoredConfig<C> {
    fn default() -> (c: Self)
        ensures
            unset(c),
            c.ssid is None,
            c.password is None,
            c.auth_method is Auto,
            c.serial_debug,
            c.manual_location is None,
    {
        StoredConfig {
            ssid: None,
            password: None,
            auth_method: WifiAuth::Auto,
            serial_debug: true,
            manual_location: None,
        }
    }
}

impl<C> StoredConfig<C> {
    /// Returns `true` when we have enough to attempt a Wi-Fi connection.
    pub fn has_wifi(&self) -> (yes: bool)
        ensures
            yes == connectable(opt_text(self.ssid)),
            yes == (self.ssid matches Some(s) && s@.len() > 0),
    {
        match &self.ssid {
            Some(s) => s.as_str().unicode_len() > 0,
            None => false,
        }
    }
}

/// The stored texts by name; of the coordinates, what the texts stand for if they are numbers.
pub struct Entries<C> {
    pub ssid: Option<String>,
    pub password: Option<String>,
    pub auth: Option<String>,
    pub debug: Option<String>,
    pub lat: Option<C>,
    pub lon: Option<C>,
}

/// A stored network name: an empty one is none.
pub open spec fn stored_ssid(s: Option<Seq<char>>) -> Option<Seq<char>> {
    match s {
        Some(t) => if t.len() > 0 {
            Some(t)
        } else {
            None
        },
        None => None,
    }
}

/// A stored security type.
pub open spec fn stored_auth(s: Option<Seq<char>>) -> WifiAuth {
    match s {
        Some(t) => auth_named(t),
        None => WifiAuth::Auto,
    }
}

/// A stored debug flag: on unless it says otherwise.
pub open spec fn stored_debug(s: Option<Seq<char>>) -> bool {
    match s {
        Some(t) => t == "1"@ || t == "true"@,
        None => true,
    }
}

/// A stored location: it takes both coordinates.
pub open spec fn stored_location<C>(lat: Option<C>, lon: Option<C>) -> Option<(C, C)> {
    match (lat, lon) {
        (Some(la), Some(lo)) => Some((la, lo)),
        _ => None,
    }
}

/// A configuration is what the stored texts say, with defaults for what is not set.
pub open spec fn loaded<C>(c: StoredConfig<C>, entries: Entries<C>) -> bool {
    &&& opt_text(c.ssid) == stored_ssid(opt_text(entries.ssid))
    &&& opt_text(c.password) == opt_text(entries.password)
    &&& c.auth_method == stored_auth(opt_text(entries.auth))
    &&& c.serial_debug == stored_debug(opt_text(entries.debug))
    &&& c.manual_location == stored_location(entries.lat, entries.lon)
}

/// Each setting comes from the text of its own name: a network name unless it is empty, a password
/// as it is, the security type that a name stands for and otherwise the automatic one, debug
/// logging if it is `1` or `true` or not stored at all, and a location if both of its coordinates
/// are numbers. From an empty store comes a configuration in which nothing is set.
pub proof fn law_settings_come_from_their_texts<C>(c: StoredConfig<C>, entries: Entries<C>)
    requires
        loaded(c, entries),
    ensures
        entries.ssid is Some && entries.ssid->0@.len() > 0 ==> c.ssid is Some && c.ssid->0@
            == entries.ssid->0@,
        entries.ssid is None || entries.ssid->0@.len() == 0 ==> c.ssid is None,
        entries.password is Some ==> c.password is Some && c.password->0@ == entries.password->0@,
        entries.password is None ==> c.password is None,
        entries.auth is None ==> c.auth_method is Auto,
        entries.auth is Some ==> c.auth_method == auth_named(entries.auth->0@),
        c.serial_debug <==> entries.debug is None || entries.debug->0@ == "1"@
            || entries.debug->0@ == "true"@,
        c.manual_location is Some <==> entries.lat is Some && entries.lon is Some,
        c.manual_location matches Some((lat, lon)) ==> entries.lat == Some(lat) && entries.lon
            == Some(lon),
        entries.ssid is None && entries.password is None && entries.auth is None
            && entries.debug is None && (entries.lat is None || entries.lon is None) ==> unset(c),
{
}

/// The stored configuration, with defaults for what is not set.
pub fn load<C>(entries: Entries<C>) -> (c: StoredConfig<C>)
    ensures
        loaded(c, entries),
{
    let ssid: Option<String> = match entries.ssid {
        Some(s) => if s.as_str().unicode_len() > 0 {
            Some(s)
        } else {
            None
        },
        None => None,
    };
    let auth_method = match &entries.auth {
        Some(s) => WifiAuth::from_str(s.as_str()),
        None => WifiAuth::Auto,
    };
    let serial_debug = match &entries.debug {
        Some(s) => same_text(s.as_str(), "1") || same_text(s.as_str(), "true"),
        None => true,
    };
    let manual_location = match (entries.lat, entries.lon) {
        (Some(la), Some(lo)) => Some((la, lo)),
        _ => None,
    };
    StoredConfig { ssid, password: entries.password, auth_method, serial_debug, manual_location }
}

/// The names of the stored texts.
#[derive(Debug, Clone, Copy, PartialEq, Eq, Structural)]
pub enum Key {
    Ssid,
    Password,
    Auth,
    Debug,
    Lat,
    Lon,
}

/// The name of a stored text.
pub open spec fn key_name(k: Key) -> Seq<char> {
    match k {
        Key::Ssid => "ssid"@,
        Key::Password => "password"@,
        Key::Auth => "auth"@,
        Key::Debug => "debug"@,
        Key::Lat => "lat"@,
        Key::Lon => "lon"@,
    }
}

impl Key {
    /// The name of the stored text.
    pub fn name(self) -> (s: &'static str)
        ensures
            s@ == key_name(self),
    {
        match self {
            Key::Ssid => "ssid",
            Key::Password => "password",
            Key::Auth => "auth",
            Key::Debug => "debug",
            Key::Lat => "lat",
            Key::Lon => "lon",
        }
    }
}

/// No two settings are stored under the same name.
pub proof fn law_settings_have_their_own_names(j: Key, k: Key)
    ensures
        key_name(j) == key_name(k) ==> j == k,
        key_name(Key::Ssid) == "ssid"@,
        key_name(Key::Password) == "password"@,
        key_name(Key::Auth) == "auth"@,
        key_name(Key::Debug) == "debug"@,
        key_name(Key::Lat) == "lat"@,
        key_name(Key::Lon) == "lon"@,
{
    reveal_strlit("ssid");
    reveal_strlit("password");
    reveal_strlit("auth");
    reveal_strlit("debug");
    reveal_strlit("lat");
    reveal_strlit("lon");
    assert("ssid"@.len() == 4 && "ssid"@[0] == 's');
    assert("auth"@.len() == 4 && "auth"@[0] == 'a');
    assert("password"@.len() == 8 && "debug"@.len() == 5);
    assert("lat"@.len() == 3 && "lat"@[1] == 'a');
    assert("lon"@.len() == 3 && "lon"@[1] == 'o');
}

/// Something to do to the store.
#[derive(Debug, PartialEq, Eq)]
pub enum StoreOp<T> {
    Put(Key, T),
    Remove(Key),
}

impl View for StoreOp<String> {
    type V = StoreOp<Seq<char>>;

    open spec fn view(&self) -> StoreOp<Seq<char>> {
        match *self {
            StoreOp::Put(k, v) => StoreOp::Put(k, v@),
            StoreOp::Remove(k) => StoreOp::Remove(k),
        }
    }
}

/// The store after something was done to it.
pub open spec fn store_after(
    store: Map<Key, Seq<char>>,
    ops: Seq<StoreOp<Seq<char>>>,
) -> Map<Key, Seq<char>>
    decreases ops.len(),
{
    if ops.len() == 0 {
        store
    } else {
        let before = store_after(store, ops.drop_last());
        match ops.last() {
            StoreOp::Put(k, v) => before.insert(k, v),
            StoreOp::Remove(k) => before.remove(k),
        }
    }
}

/// What a store holds under a name.
pub open spec fn stored(store: Map<Key, Seq<char>>, k: Key) -> Option<Seq<char>> {
    if store.dom().contains(k) {
        Some(store[k])
    } else {
        None
    }
}

/// A text that may be absent, absence being an empty text.
pub open spec fn text_or_empty(s: Option<Seq<char>>) -> Seq<char> {
    match s {
        Some(t) => t,
        None => Seq::empty(),
    }
}

/// What is done to the store to save a configuration.
pub open spec fn save_ops(
    ssid: Option<Seq<char>>,
    password: Option<Seq<char>>,
    auth: WifiAuth,
    debug: bool,
    location: Option<(Seq<char>, Seq<char>)>,
) -> Seq<StoreOp<Seq<char>>> {
    seq![
        StoreOp::Put(Key::Ssid, text_or_empty(ssid)),
        StoreOp::Put(Key::Password, text_or_empty(password)),
        StoreOp::Put(Key::Auth, auth_name(auth)),
        StoreOp::Put(
            Key::Debug,
            if debug {
                "1"@
            } else {
                "0"@
            },
        ),
        match location {
            Some((lat, lon)) => StoreOp::Put(Key::Lat, lat),
            None => StoreOp::Remove(Key::Lat),
        },
        match location {
            Some((lat, lon)) => StoreOp::Put(Key::Lon, lon),
            None => StoreOp::Remove(Key::Lon),
        },
    ]
}

/// A location that may be absent, its coordinates written out, as a mathematical value.
pub open spec fn location_text(l: Option<(String, String)>) -> Option<(Seq<char>, Seq<char>)> {
    match l {
        Some((lat, lon)) => Some((lat@, lon@)),
        None => None,
    }
}

fn text_of(s: &Option<String>) -> (t: String)
    ensures
        t@ == text_or_empty(opt_text(*s)),
{
    match s {
        Some(t) => t.clone(),
        None => String::new(),
    }
}

/// What is done to the store to save a configuration whose manual location is written out.
pub open spec fn saving<C>(
    cfg: StoredConfig<C>,
    location: Option<(String, String)>,
) -> Seq<StoreOp<Seq<char>>> {
    save_ops(
        opt_text(cfg.ssid),
        opt_text(cfg.password),
        cfg.auth_method,
        cfg.serial_debug,
        location_text(location),
    )
}

/// After a configuration was saved the store holds each of its settings under its own name,
/// whatever was there before: name and password as they are, or empty where there is none, the name
/// of the security type, `1` or `0` for debug logging, and the latitude and the longitude as they
/// were written, or neither.
pub proof fn law_settings_are_stored_under_their_names<C>(
    store: Map<Key, Seq<char>>,
    cfg: StoredConfig<C>,
    location: Option<(String, String)>,
)
    ensures
        ({
            let after = store_after(store, saving(cfg, location));
            &&& after.dom().contains(Key::Ssid) && (cfg.ssid is Some ==> after[Key::Ssid]
                == cfg.ssid->0@) && (cfg.ssid is None ==> after[Key::Ssid].len() == 0)
            &&& after.dom().contains(Key::Password) && (cfg.password is Some
                ==> after[Key::Password] == cfg.password->0@) && (cfg.password is None
                ==> after[Key::Password].len() == 0)
            &&& after.dom().contains(Key::Auth) && auth_named(after[Key::Auth]) == cfg.auth_method
            &&& after.dom().contains(Key::Debug) && after[Key::Debug] == if cfg.serial_debug {
                "1"@
            } else {
                "0"@
            }
            &&& location matches Some((lat, lon)) ==> after.dom().contains(Key::Lat)
                && after[Key::Lat] == lat@ && after.dom().contains(Key::Lon) && after[Key::Lon]
                == lon@
            &&& location is None ==> !after.dom().contains(Key::Lat) && !after.dom().contains(
                Key::Lon,
            )
        }),
{
    law_saved_config_loads(
        store,
        opt_text(cfg.ssid),
        opt_text(cfg.password),
        cfg.auth_method,
        cfg.serial_debug,
        location_text(location),
    );
}

/// What to do to the store to save a configuration, in this order. `location` is the manual
/// location, its coordinates written out.
pub fn save<C>(cfg: &StoredConfig<C>, location: Option<(String, String)>) -> (ops: Vec<
    StoreOp<String>,
>)
    requires
        location is Some <==> cfg.manual_location is Some,
    ensures
        ops@.map_values(|op: StoreOp<String>| op@) == saving(*cfg, location),
{
    let mut ops: Vec<StoreOp<String>> = Vec::new();
    ops.push(StoreOp::Put(Key::Ssid, text_of(&cfg.ssid)));
    ops.push(StoreOp::Put(Key::Password, text_of(&cfg.password)));
    ops.push(StoreOp::Put(Key::Auth, cfg.auth_method.as_str().to_owned()));
    ops.push(
        StoreOp::Put(
            Key::Debug,
            if cfg.serial_debug {
                "1".to_owned()
            } else {
                "0".to_owned()
            },
        ),
    );
    let ghost texts = location_text(location);
    match location {
        Some((lat, lon)) => {
            ops.push(StoreOp::Put(Key::Lat, lat));
            ops.push(StoreOp::Put(Key::Lon, lon));
        },
        None => {
            ops.push(StoreOp::Remove(Key::Lat));
            ops.push(StoreOp::Remove(Key::Lon));
        },
    }
    assert(ops@.map_values(|op: StoreOp<String>| op@) =~= save_ops(
        opt_text(cfg.ssid),
        opt_text(cfg.password),
        cfg.auth_method,
        cfg.serial_debug,
        texts,
    ));
    ops
}

/// What is done to the store to erase the configuration.
pub open spec fn clear_ops() -> Seq<StoreOp<Seq<char>>> {
    seq![
        StoreOp::Remove(Key::Ssid),
        StoreOp::Remove(Key::Password),
        StoreOp::Remove(Key::Auth),
        StoreOp::Remove(Key::Debug),
        StoreOp::Remove(Key::Lat),
        StoreOp::Remove(Key::Lon),
    ]
}

/// What to do to the store to erase all stored configuration (used by the "reset config" flow).
pub fn clear() -> (ops: Vec<StoreOp<String>>)
    ensures
        ops@.map_values(|op: StoreOp<String>| op@) == clear_ops(),
{
    let ops = vec![
        StoreOp::Remove(Key::Ssid),
        StoreOp::Remove(Key::Password),
        StoreOp::Remove(Key::Auth),
        StoreOp::Remove(Key::Debug),
        StoreOp::Remove(Key::Lat),
        StoreOp::Remove(Key::Lon),
    ];
    assert(ops@.map_values(|op: StoreOp<String>| op@) =~= clear_ops());
    ops
}

/// What was saved is what is loaded, whatever the store held before: an absent password comes back
/// empty, and an empty network name as none.
pub proof fn law_saved_config_loads(
    store: Map<Key, Seq<char>>,
    ssid: Option<Seq<char>>,
    password: Option<Seq<char>>,
    auth: WifiAuth,
    debug: bool,
    location: Option<(Seq<char>, Seq<char>)>,
)
    ensures
        ({
            let after = store_after(store, save_ops(ssid, password, auth, debug, location));
            &&& stored_ssid(stored(after, Key::Ssid)) == stored_ssid(ssid)
            &&& stored(after, Key::Password) == Some(text_or_empty(password))
            &&& stored_auth(stored(after, Key::Auth)) == auth
            &&& stored_debug(stored(after, Key::Debug)) == debug
            &&& stored_location(stored(after, Key::Lat), stored(after, Key::Lon)) == location
            &&& after.dom().contains(Key::Ssid) && after[Key::Ssid] == match ssid {
                Some(s) => s,
                None => Seq::empty(),
            }
            &&& after.dom().contains(Key::Password) && after[Key::Password] == match password {
                Some(p) => p,
                None => Seq::empty(),
            }
            &&& after.dom().contains(Key::Auth) && after[Key::Auth] == auth_name(auth)
            &&& after.dom().contains(Key::Debug) && after[Key::Debug] == if debug {
                "1"@
            } else {
                "0"@
            }
            &&& location matches Some((lat, lon)) ==> after.dom().contains(Key::Lat)
                && after[Key::Lat] == lat && after.dom().contains(Key::Lon) && after[Key::Lon] == lon
            &&& location is None ==> !after.dom().contains(Key::Lat) && !after.dom().contains(
                Key::Lon,
            )
        }),
{
    let ops = save_ops(ssid, password, auth, debug, location);
    let after = store_after(store, ops);
    lemma_six(store, ops);
    law_auth_reads_back(auth);
    reveal_strlit("1");
    reveal_strlit("0");
    reveal_strlit("true");
    assert("0"@[0] == '0');
    assert("1"@[0] == '1');
    assert("0"@.len() == 1);
    assert("true"@.len() == 4);
}

/// After the configuration was erased, nothing of it is left: what is loaded are the defaults.
pub proof fn law_cleared_store_is_blank(store: Map<Key, Seq<char>>, k: Key)
    ensures
        stored(store_after(store, clear_ops()), k) is None,
        !store_after(store, clear_ops()).dom().contains(k),
{
    lemma_six(store, clear_ops());
}

proof fn lemma_six(store: Map<Key, Seq<char>>, ops: Seq<StoreOp<Seq<char>>>)
    requires
        ops.len() == 6,
    ensures
        store_after(store, ops) == step(
            step(step(step(step(step(store, ops[0]), ops[1]), ops[2]), ops[3]), ops[4]),
            ops[5],
        ),
{
    reveal_with_fuel(store_after, 7);
    assert(ops.drop_last() =~= ops.take(5));
    assert(ops.take(5).drop_last() =~= ops.take(4));
    assert(ops.take(4).drop_last() =~= ops.take(3));
    assert(ops.take(3).drop_last() =~= ops.take(2));
    assert(ops.take(2).drop_last() =~= ops.take(1));
    assert(ops.take(1).drop_last() =~= ops.take(0));
}

spec fn step(store: Map<Key, Seq<char>>, op: StoreOp<Seq<char>>) -> Map<Key, Seq<char>> {
    match op {
        StoreOp::Put(k, v) => store.insert(k, v),
        StoreOp::Remove(k) => store.remove(k),
    }
}

} // verus!
