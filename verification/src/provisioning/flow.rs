//! The setup flow from screen to screen.

use vstd::prelude::*;

use crate::config::{opt_text, stored_location, StoredConfig, WifiAuth};
use crate::draw::{Op, Scene};
use crate::provisioning::keyboard::{
    blank_entry, law_entry_is_shown_as_typed, lemma_first_key, Entry, Keyboard, TextEntry,
};
use crate::provisioning::picker::{
    auth_at, draw_picker, draw_security, law_picker_has_its_title, law_security_has_its_title,
    picked, picker_drawn, security_drawn, select_security, select_ssid, Pick,
};
use crate::provisioning::widgets::{confirm, confirm_drawn, confirmed, draw_confirm};
use crate::touch::TouchPoint;

verus! {

/// The screens of the setup flow, as mathematical values.
#[verifier::ext_equal]
pub ghost enum Screen {
    Networks(nat),
    Ssid(Entry),
    Password(Entry),
    Security,
    Debug,
    Location,
    Latitude(Entry),
    Longitude(Entry),
}

/// Where the setup flow stands, as a mathematical value.
#[verifier::ext_equal]
pub ghost struct Flow {
    pub ssids: Seq<String>,
    pub screen: Screen,
    pub ssid: Seq<char>,
    pub password: Seq<char>,
    pub auth: WifiAuth,
    pub debug: bool,
    pub latitude: Seq<char>,
}

/// What was entered, as a mathematical value.
#[verifier::ext_equal]
pub ghost struct Entered {
    pub ssid: Seq<char>,
    pub password: Seq<char>,
    pub auth: WifiAuth,
    pub debug: bool,
    pub location: Option<(Seq<char>, Seq<char>)>,
}

/// What a tap leads to.
#[verifier::ext_equal]
pub ghost enum FlowNext {
    More(Flow),
    Done(Entered),
}

impl Flow {
    /// The start: the scanned networks, or typing a name where none was found.
    pub open spec fn start(ssids: Seq<String>) -> Flow {
        Flow {
            ssids,
            screen: if ssids.len() == 0 {
                Screen::Ssid(blank_entry(Keyboard::Full))
            } else {
                Screen::Networks(0)
            },
            ssid: Seq::empty(),
            password: Seq::empty(),
            auth: WifiAuth::Auto,
            debug: true,
            latitude: Seq::empty(),
        }
    }

    /// The page of networks begins inside the list.
    pub open spec fn valid(self) -> bool {
        self.screen matches Screen::Networks(offset) ==> offset < self.ssids.len()
    }

    /// All that was entered.
    pub open spec fn entered(self, location: Option<(Seq<char>, Seq<char>)>) -> Entered {
        Entered {
            ssid: self.ssid,
            password: self.password,
            auth: self.auth,
            debug: self.debug,
            location,
        }
    }

    /// What a tap leads to.
    pub open spec fn after(self, p: TouchPoint) -> FlowNext {
        match self.screen {
            Screen::Networks(offset) => match picked(self.ssids.len(), offset, p) {
                Pick::Page(o) => FlowNext::More(Flow { screen: Screen::Networks(o as nat), ..self }),
                Pick::Manual => FlowNext::More(
                    Flow { screen: Screen::Ssid(blank_entry(Keyboard::Full)), ..self },
                ),
                Pick::Network(i) => FlowNext::More(
                    Flow {
                        ssid: self.ssids[i as int]@,
                        screen: Screen::Password(blank_entry(Keyboard::Full)),
                        ..self
                    },
                ),
                Pick::Nothing => FlowNext::More(self),
            },
            Screen::Ssid(e) => FlowNext::More(
                if e.ends(p) {
                    Flow {
                        ssid: e.buffer,
                        screen: Screen::Password(blank_entry(Keyboard::Full)),
                        ..self
                    }
                } else {
                    Flow { screen: Screen::Ssid(e.after(p)), ..self }
                },
            ),
            Screen::Password(e) => FlowNext::More(
                if e.ends(p) {
                    Flow { password: e.buffer, screen: Screen::Security, ..self }
                } else {
                    Flow { screen: Screen::Password(e.after(p)), ..self }
                },
            ),
            Screen::Security => FlowNext::More(
                match auth_at(p, 0) {
                    Some(auth) => Flow { auth, screen: Screen::Debug, ..self },
                    None => self,
                },
            ),
            Screen::Debug => FlowNext::More(
                match confirmed(p) {
                    Some(debug) => Flow { debug, screen: Screen::Location, ..self },
                    None => self,
                },
            ),
            Screen::Location => match confirmed(p) {
                Some(true) => FlowNext::More(
                    Flow { screen: Screen::Latitude(blank_entry(Keyboard::Numeric)), ..self },
                ),
                Some(false) => FlowNext::Done(self.entered(None)),
                None => FlowNext::More(self),
            },
            Screen::Latitude(e) => FlowNext::More(
                if e.ends(p) {
                    Flow {
                        latitude: e.buffer,
                        screen: Screen::Longitude(blank_entry(Keyboard::Numeric)),
                        ..self
                    }
                } else {
                    Flow { screen: Screen::Latitude(e.after(p)), ..self }
                },
            ),
            Screen::Longitude(e) => if e.ends(p) {
                FlowNext::Done(self.entered(Some((self.latitude, e.buffer))))
            } else {
                FlowNext::More(Flow { screen: Screen::Longitude(e.after(p)), ..self })
            },
        }
    }

    /// The screen to draw.
    pub open spec fn drawn(self, base: Seq<Op>) -> Seq<Op> {
        match self.screen {
            Screen::Networks(offset) => picker_drawn(base, self.ssids, offset),
            Screen::Ssid(e) => e.drawn(base, "Enter SSID"@),
            Screen::Password(e) => e.drawn(base, "Wi-Fi password"@),
            Screen::Security => security_drawn(base),
            Screen::Debug => confirm_drawn(
                base,
                "Serial debug"@,
                "Serial debug logging?"@,
                "Enable"@,
                "Disable"@,
            ),
            Screen::Location => confirm_drawn(
                base,
                "Location"@,
                "Set manual lat/long?"@,
                "Yes"@,
                "No, use IP"@,
            ),
            Screen::Latitude(e) => e.drawn(base, "Latitude (e.g. 30.27)"@),
            Screen::Longitude(e) => e.drawn(base, "Longitude (e.g. -97.74)"@),
        }
    }

    /// How far the flow has come.
    pub open spec fn progress(self) -> int {
        match self.screen {
            Screen::Networks(_) => 0,
            Screen::Ssid(_) => 1,
            Screen::Password(_) => 2,
            Screen::Security => 3,
            Screen::Debug => 4,
            Screen::Location => 5,
            Screen::Latitude(_) => 6,
            Screen::Longitude(_) => 7,
        }
    }
}

/// Setup never goes back to an earlier screen, skips none of the five questions, and keeps every
/// answer once it is given.
pub proof fn law_setup_goes_forward(f: Flow, p: TouchPoint)
    requires
        f.valid(),
    ensures
        match f.after(p) {
            FlowNext::More(g) => {
                &&& f.progress() <= g.progress()
                &&& g.progress() <= f.progress() + 1 || (f.progress() == 0 && g.progress() == 2)
                &&& g.ssids == f.ssids
                &&& f.progress() >= 2 ==> g.ssid == f.ssid
                &&& f.progress() >= 3 ==> g.password == f.password
                &&& f.progress() >= 4 ==> g.auth == f.auth
                &&& f.progress() >= 5 ==> g.debug == f.debug
                &&& f.progress() >= 7 ==> g.latitude == f.latitude
            },
            FlowNext::Done(e) => {
                &&& f.progress() == 5 || f.progress() == 7
                &&& e.ssid == f.ssid
                &&& e.password == f.password
                &&& e.auth == f.auth
                &&& e.debug == f.debug
                &&& e.location is Some <==> f.progress() == 7
            },
        },
{
}

/// Setup begins with the networks that were found, from the first on, or with typing a name where
/// there are none.
pub proof fn law_setup_begins(ssids: Seq<String>)
    ensures
        ({
            let f = Flow::start(ssids);
            &&& f.ssids == ssids
            &&& ssids.len() > 0 ==> f.screen == Screen::Networks(0)
            &&& ssids.len() == 0 ==> f.screen is Ssid && f.screen->Ssid_0.kind is Full
                && f.screen->Ssid_0.buffer.len() == 0
        }),
{
}

/// A network that is picked from the list is the one whose name is asked for; the name is otherwise
/// what was typed. After either comes the password, typed on the full keyboard from nothing on.
/// Taps that neither pick nor end anything only page or type.
pub proof fn law_network_is_the_one_chosen(f: Flow, p: TouchPoint)
    requires
        f.valid(),
    ensures
        f.screen matches Screen::Networks(offset) ==> {
            let pick = picked(f.ssids.len(), offset, p);
            &&& f.after(p) is More
            &&& pick matches Pick::Network(i) ==> {
                let g = f.after(p)->More_0;
                &&& g.ssid == f.ssids[i as int]@
                &&& g.screen is Password && g.screen->Password_0.kind is Full
                    && g.screen->Password_0.buffer.len() == 0
            }
            &&& pick matches Pick::Page(o) ==> f.after(p) == FlowNext::More(
                Flow { screen: Screen::Networks(o as nat), ..f },
            )
            &&& pick is Manual ==> (f.after(p)->More_0).screen is Ssid && (
            f.after(p)->More_0).screen->Ssid_0.buffer.len() == 0
            &&& pick is Nothing ==> f.after(p) == FlowNext::More(f)
        },
        f.screen matches Screen::Ssid(e) ==> {
            &&& e.ends(p) ==> {
                let g = f.after(p)->More_0;
                &&& g.ssid == e.buffer
                &&& g.screen is Password && g.screen->Password_0.buffer.len() == 0
            }
            &&& !e.ends(p) ==> f.after(p) == FlowNext::More(
                Flow { screen: Screen::Ssid(e.after(p)), ..f },
            )
        },
{
}

/// The password is what was typed, the security type the one whose button was tapped, debug logging
/// is enabled by the upper of two buttons and disabled by the lower one; each is followed by the
/// next question.
pub proof fn law_answers_are_kept(f: Flow, p: TouchPoint)
    ensures
        f.screen matches Screen::Password(e) ==> {
            &&& e.ends(p) ==> f.after(p) == FlowNext::More(
                Flow { password: e.buffer, screen: Screen::Security, ..f },
            )
            &&& !e.ends(p) ==> f.after(p) == FlowNext::More(
                Flow { screen: Screen::Password(e.after(p)), ..f },
            )
        },
        f.screen is Security ==> {
            &&& auth_at(p, 0) matches Some(a) ==> f.after(p) == FlowNext::More(
                Flow { auth: a, screen: Screen::Debug, ..f },
            )
            &&& auth_at(p, 0) is None ==> f.after(p) == FlowNext::More(f)
        },
        f.screen is Debug && 20 <= p.x < 220 && 120 <= p.y < 160 ==> f.after(p) == FlowNext::More(
            Flow { debug: true, screen: Screen::Location, ..f },
        ),
        f.screen is Debug && 20 <= p.x < 220 && 175 <= p.y < 215 ==> f.after(p) == FlowNext::More(
            Flow { debug: false, screen: Screen::Location, ..f },
        ),
{
}

/// The location is asked for only if the upper of two buttons is tapped, first the latitude and
/// then the longitude, both on the numeric keyboard, and is what was typed, in this order. If the
/// lower one is tapped setup is over without one.
pub proof fn law_location_is_what_was_typed(f: Flow, p: TouchPoint)
    ensures
        f.screen is Location && 20 <= p.x < 220 && 120 <= p.y < 160 ==> {
            let g = f.after(p)->More_0;
            &&& f.after(p) is More
            &&& g.screen is Latitude && g.screen->Latitude_0.kind is Numeric
                && g.screen->Latitude_0.buffer.len() == 0
        },
        f.screen is Location && 20 <= p.x < 220 && 175 <= p.y < 215 ==> f.after(p)
            == FlowNext::Done(
            Entered {
                ssid: f.ssid,
                password: f.password,
                auth: f.auth,
                debug: f.debug,
                location: None,
            },
        ),
        f.screen matches Screen::Latitude(e) ==> {
            &&& e.ends(p) ==> {
                let g = f.after(p)->More_0;
                &&& g.latitude == e.buffer
                &&& g.screen is Longitude && g.screen->Longitude_0.kind is Numeric
                    && g.screen->Longitude_0.buffer.len() == 0
            }
            &&& !e.ends(p) ==> f.after(p) == FlowNext::More(
                Flow { screen: Screen::Latitude(e.after(p)), ..f },
            )
        },
        f.screen matches Screen::Longitude(e) ==> {
            &&& e.ends(p) ==> f.after(p) == FlowNext::Done(
                Entered {
                    ssid: f.ssid,
                    password: f.password,
                    auth: f.auth,
                    debug: f.debug,
                    location: Some((f.latitude, e.buffer)),
                },
            )
            &&& !e.ends(p) ==> f.after(p) == FlowNext::More(
                Flow { screen: Screen::Longitude(e.after(p)), ..f },
            )
        },
{
}

/// Every screen says what is asked for: of a text in its title, which is above the text as typed so
/// far, and of a choice in its question, above the two answers.
pub proof fn law_screens_say_what_is_asked_for(f: Flow, base: Seq<Op>)
    requires
        f.valid(),
    ensures
        ({
            let s = f.drawn(base);
            let n = base.len() as int;
            &&& f.screen is Networks ==> says(s, n + 2, "Select Wi-Fi"@)
            &&& f.screen is Ssid ==> says(s, n + 2, "Enter SSID"@)
            &&& f.screen is Password ==> says(s, n + 2, "Wi-Fi password"@)
            &&& f.screen is Security ==> says(s, n + 2, "Wi-Fi security"@)
            &&& f.screen is Debug ==> says(s, n + 3, "Serial debug logging?"@) && says(
                s,
                n + 5,
                "Enable"@,
            ) && says(s, n + 7, "Disable"@)
            &&& f.screen is Location ==> says(s, n + 3, "Set manual lat/long?"@) && says(
                s,
                n + 5,
                "Yes"@,
            ) && says(s, n + 7, "No, use IP"@)
            &&& f.screen is Latitude ==> says(s, n + 2, "Latitude (e.g. 30.27)"@)
            &&& f.screen is Longitude ==> says(s, n + 2, "Longitude (e.g. -97.74)"@)
            &&& f.screen matches Screen::Ssid(e) ==> e.buffer.len() > 0 ==> says(s, n + 4, e.buffer)
            &&& f.screen matches Screen::Password(e) ==> e.buffer.len() > 0 ==> says(
                s,
                n + 4,
                e.buffer,
            )
            &&& f.screen matches Screen::Latitude(e) ==> e.buffer.len() > 0 ==> says(
                s,
                n + 4,
                e.buffer,
            )
            &&& f.screen matches Screen::Longitude(e) ==> e.buffer.len() > 0 ==> says(
                s,
                n + 4,
                e.buffer,
            )
        }),
{
    match f.screen {
        Screen::Networks(offset) => {
            law_picker_has_its_title(base, f.ssids, offset);
        },
        Screen::Ssid(e) => {
            lemma_first_key(e.kind, e.shift);
            law_entry_is_shown_as_typed(e, base, "Enter SSID"@, 0, 0);
        },
        Screen::Password(e) => {
            lemma_first_key(e.kind, e.shift);
            law_entry_is_shown_as_typed(e, base, "Wi-Fi password"@, 0, 0);
        },
        Screen::Security => {
            law_security_has_its_title(base);
        },
        Screen::Debug => {},
        Screen::Location => {},
        Screen::Latitude(e) => {
            lemma_first_key(e.kind, e.shift);
            law_entry_is_shown_as_typed(e, base, "Latitude (e.g. 30.27)"@, 0, 0);
        },
        Screen::Longitude(e) => {
            lemma_first_key(e.kind, e.shift);
            law_entry_is_shown_as_typed(e, base, "Longitude (e.g. -97.74)"@, 0, 0);
        },
    }
}

/// A scene has a text at a place in its order.
pub open spec fn says(s: Seq<Op>, k: int, text: Seq<char>) -> bool {
    0 <= k < s.len() && s[k] is Text && s[k]->Text_text == text
}

/// The screens of the setup flow.
pub enum Step {
    Networks(usize),
    Ssid(TextEntry),
    Password(TextEntry),
    Security,
    Debug,
    Location,
    Latitude(TextEntry),
    Longitude(TextEntry),
}

impl View for Step {
    type V = Screen;

    open spec fn view(&self) -> Screen {
        match *self {
            Step::Networks(offset) => Screen::Networks(offset as nat),
            Step::Ssid(e) => Screen::Ssid(e@),
            Step::Password(e) => Screen::Password(e@),
            Step::Security => Screen::Security,
            Step::Debug => Screen::Debug,
            Step::Location => Screen::Location,
            Step::Latitude(e) => Screen::Latitude(e@),
            Step::Longitude(e) => Screen::Longitude(e@),
        }
    }
}

/// The setup flow.
pub struct Provisioner {
    pub ssids: Vec<String>,
    pub step: Step,
    pub ssid: String,
    pub password: String,
    pub auth: WifiAuth,
    pub debug: bool,
    pub latitude: String,
}

impl View for Provisioner {
    type V = Flow;

    open spec fn view(&self) -> Flow {
        Flow {
            ssids: self.ssids@,
            screen: self.step@,
            ssid: self.ssid@,
            password: self.password@,
            auth: self.auth,
            debug: self.debug,
            latitude: self.latitude@,
        }
    }
}

/// What was entered.
pub struct Setup {
    pub ssid: String,
    pub password: String,
    pub auth: WifiAuth,
    pub debug: bool,
    /// Latitude and longitude as they were typed.
    pub location: Option<(String, String)>,
}

impl View for Setup {
    type V = Entered;

    open spec fn view(&self) -> Entered {
        Entered {
            ssid: self.ssid@,
            password: self.password@,
            auth: self.auth,
            debug: self.debug,
            location: match self.location {
                Some((lat, lon)) => Some((lat@, lon@)),
                None => None,
            },
        }
    }
}

/// What a tap leads to.
pub enum Next {
    More(Provisioner),
    Done(Setup),
}

impl View for Next {
    type V = FlowNext;

    open spec fn view(&self) -> FlowNext {
        match *self {
            Next::More(p) => FlowNext::More(p@),
            Next::Done(s) => FlowNext::Done(s@),
        }
    }
}

impl Provisioner {
    /// Begin with the networks that were found.
    pub fn new(ssids: Vec<String>) -> (p: Provisioner)
        ensures
            p@ == Flow::start(ssids@),
            p@.valid(),
    {
        let step = if ssids.len() == 0 {
            Step::Ssid(TextEntry::new(Keyboard::Full))
        } else {
            Step::Networks(0)
        };
        let p = Provisioner {
            ssids,
            step,
            ssid: String::new(),
            password: String::new(),
            auth: WifiAuth::Auto,
            debug: true,
            latitude: String::new(),
        };
        assert(p@ =~= Flow::start(ssids@));
        p
    }

    /// Draw the current screen.
    pub fn draw(&self, scene: &mut Scene)
        requires
            self@.valid(),
        ensures
            final(scene)@ == self@.drawn(old(scene)@),
    {
        match &self.step {
            Step::Networks(offset) => draw_picker(scene, &self.ssids, *offset),
            Step::Ssid(e) => e.draw(scene, "Enter SSID"),
            Step::Password(e) => e.draw(scene, "Wi-Fi password"),
            Step::Security => draw_security(scene),
            Step::Debug => draw_confirm(
                scene,
                "Serial debug",
                "Serial debug logging?",
                "Enable",
                "Disable",
            ),
            Step::Location => draw_confirm(
                scene,
                "Location",
                "Set manual lat/long?",
                "Yes",
                "No, use IP",
            ),
            Step::Latitude(e) => e.draw(scene, "Latitude (e.g. 30.27)"),
            Step::Longitude(e) => e.draw(scene, "Longitude (e.g. -97.74)"),
        }
    }

    /// Take in a tap: on to the next screen, or done.
    pub fn run(self, tap: TouchPoint) -> (next: Next)
        requires
            self@.valid(),
        ensures
            next@ == self@.after(tap),
            next matches Next::More(p) ==> p@.valid(),
    {
        let ghost f = self@;
        let Provisioner { ssids, step, ssid, password, auth, debug, latitude } = self;
        match step {
            Step::Networks(offset) => match select_ssid(ssids.len(), offset, tap) {
                Pick::Page(o) => Next::More(
                    Provisioner {
                        ssids,
                        step: Step::Networks(o),
                        ssid,
                        password,
                        auth,
                        debug,
                        latitude,
                    },
                ),
                Pick::Manual => Next::More(
                    Provisioner {
                        ssids,
                        step: Step::Ssid(TextEntry::new(Keyboard::Full)),
                        ssid,
                        password,
                        auth,
                        debug,
                        latitude,
                    },
                ),
                Pick::Network(i) => {
                    let chosen: String = ssids[i].clone();
                    Next::More(
                        Provisioner {
                            ssids,
                            step: Step::Password(TextEntry::new(Keyboard::Full)),
                            ssid: chosen,
                            password,
                            auth,
                            debug,
                            latitude,
                        },
                    )
                },
                Pick::Nothing => Next::More(
                    Provisioner {
                        ssids,
                        step: Step::Networks(offset),
                        ssid,
                        password,
                        auth,
                        debug,
                        latitude,
                    },
                ),
            },
            Step::Ssid(e) => {
                let mut entry = e;
                if entry.enter_text(tap) {
                    Next::More(
                        Provisioner {
                            ssids,
                            step: Step::Password(TextEntry::new(Keyboard::Full)),
                            ssid: entry.buffer,
                            password,
                            auth,
                            debug,
                            latitude,
                        },
                    )
                } else {
                    Next::More(
                        Provisioner {
                            ssids,
                            step: Step::Ssid(entry),
                            ssid,
                            password,
                            auth,
                            debug,
                            latitude,
                        },
                    )
                }
            },
            Step::Password(e) => {
                let mut entry = e;
                if entry.enter_text(tap) {
                    Next::More(
                        Provisioner {
                            ssids,
                            step: Step::Security,
                            ssid,
                            password: entry.buffer,
                            auth,
                            debug,
                            latitude,
                        },
                    )
                } else {
                    Next::More(
                        Provisioner {
                            ssids,
                            step: Step::Password(entry),
                            ssid,
                            password,
                            auth,
                            debug,
                            latitude,
                        },
                    )
                }
            },
            Step::Security => match select_security(tap) {
                Some(chosen) => Next::More(
                    Provisioner {
                        ssids,
                        step: Step::Debug,
                        ssid,
                        password,
                        auth: chosen,
                        debug,
                        latitude,
                    },
                ),
                None => Next::More(
                    Provisioner {
                        ssids,
                        step: Step::Security,
                        ssid,
                        password,
                        auth,
                        debug,
                        latitude,
                    },
                ),
            },
            Step::Debug => match confirm(tap) {
                Some(chosen) => Next::More(
                    Provisioner {
                        ssids,
                        step: Step::Location,
                        ssid,
                        password,
                        auth,
                        debug: chosen,
                        latitude,
                    },
                ),
                None => Next::More(
                    Provisioner {
                        ssids,
                        step: Step::Debug,
                        ssid,
                        password,
                        auth,
                        debug,
                        latitude,
                    },
                ),
            },
            Step::Location => match confirm(tap) {
                Some(true) => Next::More(
                    Provisioner {
                        ssids,
                        step: Step::Latitude(TextEntry::new(Keyboard::Numeric)),
                        ssid,
                        password,
                        auth,
                        debug,
                        latitude,
                    },
                ),
                Some(false) => Next::Done(Setup { ssid, password, auth, debug, location: None }),
                None => Next::More(
                    Provisioner {
                        ssids,
                        step: Step::Location,
                        ssid,
                        password,
                        auth,
                        debug,
                        latitude,
                    },
                ),
            },
            Step::Latitude(e) => {
                let mut entry = e;
                if entry.enter_text(tap) {
                    Next::More(
                        Provisioner {
                            ssids,
                            step: Step::Longitude(TextEntry::new(Keyboard::Numeric)),
                            ssid,
                            password,
                            auth,
                            debug,
                            latitude: entry.buffer,
                        },
                    )
                } else {
                    Next::More(
                        Provisioner {
                            ssids,
                            step: Step::Latitude(entry),
                            ssid,
                            password,
                            auth,
                            debug,
                            latitude,
                        },
                    )
                }
            },
            Step::Longitude(e) => {
                let mut entry = e;
                if entry.enter_text(tap) {
                    Next::Done(
                        Setup {
                            ssid,
                            password,
                            auth,
                            debug,
                            location: Some((latitude, entry.buffer)),
                        },
                    )
                } else {
                    Next::More(
                        Provisioner {
                            ssids,
                            step: Step::Longitude(entry),
                            ssid,
                            password,
                            auth,
                            debug,
                            latitude,
                        },
                    )
                }
            },
        }
    }
}

/// A configuration is what was entered.
pub open spec fn configured<C>(
    c: StoredConfig<C>,
    e: Entered,
    lat: Option<C>,
    lon: Option<C>,
) -> bool {
    &&& opt_text(c.ssid) == Some(e.ssid)
    &&& opt_text(c.password) == Some(e.password)
    &&& c.auth_method == e.auth
    &&& c.serial_debug == e.debug
    &&& c.manual_location == if e.location is Some {
        stored_location(lat, lon)
    } else {
        None
    }
}

/// Every answer becomes the setting of its own name. There is a manual location if and only if one
/// was asked for and both of its coordinates are numbers, and then it is these, the latitude first.
pub proof fn law_answers_become_settings<C>(
    c: StoredConfig<C>,
    e: Entered,
    lat: Option<C>,
    lon: Option<C>,
)
    requires
        configured(c, e, lat, lon),
    ensures
        c.ssid is Some && c.ssid->0@ == e.ssid,
        c.password is Some && c.password->0@ == e.password,
        c.auth_method == e.auth,
        c.serial_debug == e.debug,
        c.manual_location is Some <==> e.location is Some && lat is Some && lon is Some,
        c.manual_location matches Some((la, lo)) ==> lat == Some(la) && lon == Some(lo),
{
}

impl Setup {
    /// The configuration that was entered. `lat` and `lon` are the numbers that the typed
    /// coordinates stand for; unless both are numbers the manual location is dropped.
    pub fn into_config<C>(self, lat: Option<C>, lon: Option<C>) -> (c: StoredConfig<C>)
        ensures
            configured(c, self@, lat, lon),
    {
        let manual_location = match (self.location, lat, lon) {
            (Some(_), Some(la), Some(lo)) => Some((la, lo)),
            _ => None,
        };
        StoredConfig {
            ssid: Some(self.ssid),
            password: Some(self.password),
            auth_method: self.auth,
            serial_debug: self.debug,
            manual_location,
        }
    }
}

} // verus!
