//! The weather dashboard, the toolbar, and the status screens.

use vstd::prelude::*;
use vstd::string::StringExecFns;

use crate::calendar::{day_label, weekday_label};
use crate::display::{HEIGHT, WIDTH};
use crate::draw::{
    disc_op, fill_op, frame_op, line_op, text_op, Align, DrawOp, Font, Ink, Op, Scene,
};
use crate::text::{between, decimal, joined, push_decimal};
use crate::touch::TouchPoint;
use crate::weather::{
    aqi_band, aqi_category, uv_band, uv_category, DailyForecast, UvIndex, WeatherData, WeatherIcon,
};

verus! {

/// Width of the panel.
pub const W: i32 = 240;

/// Height of the panel.
pub const H: i32 = 320;

/// Height of the bottom navigation toolbar.
pub const TOOLBAR_HEIGHT: i32 = 28;

/// Y coordinate of the toolbar's top edge.
pub const TOOLBAR_TOP: i32 = 292;

/// Top of the radar image area on the radar screen.
pub const RADAR_VIEW_TOP: i32 = 24;

/// The toolbar stands at the bottom of the panel, over its whole width; the radar view and its
/// status line fit between the title and the toolbar.
pub proof fn law_layout_fits()
    ensures
        W == WIDTH,
        H == HEIGHT,
        TOOLBAR_TOP + TOOLBAR_HEIGHT == H,
        RADAR_VIEW_TOP + crate::config::RADAR_VIEW_HEIGHT <= TOOLBAR_TOP - 20,
        crate::config::RADAR_VIEW_WIDTH <= W,
{
}

/// A scene after the panel was cleared.
pub open spec fn cleared(base: Seq<Op>) -> Seq<Op> {
    base.push(DrawOp::Clear { ink: Ink::Background })
}

/// Fill the whole screen with the background colour.
pub fn clear(scene: &mut Scene)
    ensures
        final(scene)@ == cleared(old(scene)@),
{
    scene.clear(Ink::Background);
}

/// The colour of a US AQI value.
pub open spec fn aqi_ink(aqi: u16) -> Ink {
    if aqi <= 50 {
        Ink::AqiGood
    } else if aqi <= 100 {
        Ink::AqiModerate
    } else if aqi <= 150 {
        Ink::AqiSensitive
    } else if aqi <= 200 {
        Ink::AqiUnhealthy
    } else {
        Ink::AqiHazardous
    }
}

/// The colour of a US AQI value.
pub fn aqi_color(aqi: u16) -> (ink: Ink)
    ensures
        ink == aqi_ink(aqi),
{
    match aqi {
        0..=50 => Ink::AqiGood,
        51..=100 => Ink::AqiModerate,
        101..=150 => Ink::AqiSensitive,
        151..=200 => Ink::AqiUnhealthy,
        _ => Ink::AqiHazardous,
    }
}

/// Each category of air has its colour, and worse than unhealthy is all one.
pub proof fn law_aqi_colours(aqi: u16)
    ensures
        aqi_ink(aqi) is AqiGood <==> aqi <= 50,
        aqi_ink(aqi) is AqiModerate <==> 50 < aqi <= 100,
        aqi_ink(aqi) is AqiSensitive <==> 100 < aqi <= 150,
        aqi_ink(aqi) is AqiUnhealthy <==> 150 < aqi <= 200,
        aqi_ink(aqi) is AqiHazardous <==> 200 < aqi,
{
}

/// Places and sizes that a glyph can be drawn at without leaving the range of coordinates.
pub open spec fn drawable(x: int, y: int, size: int) -> bool {
    &&& 0 <= size
    &&& size * 2 <= i32::MAX
    &&& i32::MIN <= x + size / 4 - 2
    &&& x + size <= i32::MAX
    &&& i32::MIN <= y + size - 2
    &&& y + size <= i32::MAX
}

/// No less than one.
pub open spec fn at_least_one(n: int) -> int {
    if n < 1 {
        1
    } else {
        n
    }
}

/// A scene with a cloud in a box of `s` by `s` pixels at (`x`, `y`).
pub open spec fn cloud_drawn(base: Seq<Op>, x: int, y: int, s: int, ink: Ink) -> Seq<Op> {
    base.push(disc_op(x + s / 3, y + s * 2 / 3, s / 3, ink)).push(
        disc_op(x + s * 2 / 3, y + s * 2 / 3, s / 3, ink),
    ).push(fill_op(x + s / 4, y + s / 2, at_least_one(s / 2), at_least_one(s / 4), ink))
}

fn draw_cloud(scene: &mut Scene, x: i32, y: i32, size: u32, ink: Ink)
    requires
        drawable(x as int, y as int, size as int),
    ensures
        final(scene)@ == cloud_drawn(old(scene)@, x as int, y as int, size as int, ink),
{
    let s: i32 = size as i32;
    scene.disc(x + s / 3, y + s * 2 / 3, size / 3, ink);
    scene.disc(x + s * 2 / 3, y + s * 2 / 3, size / 3, ink);
    let w: u32 = if size / 2 < 1 {
        1
    } else {
        size / 2
    };
    let h: u32 = if size / 4 < 1 {
        1
    } else {
        size / 4
    };
    scene.fill(x + s / 4, y + s / 2, w, h, ink);
}

/// A falling drop, the `i`-th of a cloud.
pub open spec fn drop_op(x: int, y: int, s: int, i: int) -> Op {
    line_op(
        x + s / 4 + i * s / 4,
        y + s - s / 4,
        x + s / 4 + i * s / 4 - 2,
        y + s - 2,
        Ink::Rain,
        2,
    )
}

/// A snowflake, the `i`-th of a cloud.
pub open spec fn flake_op(x: int, y: int, s: int, i: int) -> Op {
    disc_op(x + s / 4 + i * s / 4, y + s - s / 6, 3, Ink::White)
}

/// A scene with a weather glyph in a box of `s` by `s` pixels at (`x`, `y`).
pub open spec fn icon_drawn(base: Seq<Op>, icon: WeatherIcon, x: int, y: int, s: int) -> Seq<Op> {
    let cx = x + s / 2;
    let cy = y + s / 2;
    match icon {
        WeatherIcon::Clear => base.push(disc_op(cx, cy, s / 2, Ink::Sun)),
        WeatherIcon::PartlyCloudy => cloud_drawn(
            base.push(disc_op(cx + s / 6, cy - s / 6, s / 3, Ink::Sun)),
            x,
            y,
            s,
            Ink::Cloud,
        ),
        WeatherIcon::Cloudy | WeatherIcon::Fog => cloud_drawn(base, x, y, s, Ink::Cloud),
        WeatherIcon::Drizzle | WeatherIcon::Rain => cloud_drawn(
            base,
            x,
            y,
            s,
            Ink::Cloud,
        ).push(drop_op(x, y, s, 0)).push(drop_op(x, y, s, 1)).push(drop_op(x, y, s, 2)),
        WeatherIcon::Snow => cloud_drawn(base, x, y, s, Ink::Cloud).push(
            flake_op(x, y, s, 0),
        ).push(flake_op(x, y, s, 1)).push(flake_op(x, y, s, 2)),
        WeatherIcon::Thunderstorm => cloud_drawn(base, x, y, s, Ink::Cloud).push(
            DrawOp::Wedge {
                x1: cx as i32,
                y1: (y + s / 2) as i32,
                x2: (cx - s / 8) as i32,
                y2: (y + s - 1) as i32,
                x3: (cx + s / 8) as i32,
                y3: (y + s - s / 4) as i32,
                ink: Ink::Warn,
            },
        ),
        WeatherIcon::Unknown => base.push(frame_op(x, y, s, s, Ink::Muted)),
    }
}

fn draw_drop(scene: &mut Scene, x: i32, y: i32, s: i32, i: i32)
    requires
        drawable(x as int, y as int, s as int),
        0 <= i <= 2,
    ensures
        final(scene)@ == old(scene)@.push(drop_op(x as int, y as int, s as int, i as int)),
{
    assert(0 <= i * s <= 2 * s) by (nonlinear_arith)
        requires
            0 <= i <= 2,
            0 <= s,
    ;
    let at: i32 = x + (s / 4 + i * s / 4);
    scene.line(at, y + s - s / 4, at - 2, y + s - 2, Ink::Rain, 2);
}

fn draw_flake(scene: &mut Scene, x: i32, y: i32, s: i32, i: i32)
    requires
        drawable(x as int, y as int, s as int),
        0 <= i <= 2,
    ensures
        final(scene)@ == old(scene)@.push(flake_op(x as int, y as int, s as int, i as int)),
{
    assert(0 <= i * s <= 2 * s) by (nonlinear_arith)
        requires
            0 <= i <= 2,
            0 <= s,
    ;
    let at: i32 = x + (s / 4 + i * s / 4);
    scene.disc(at, y + s - s / 6, 3, Ink::White);
}

/// Draw a small weather glyph inside a `size x size` box anchored at (`x`, `y`).
pub fn draw_icon(scene: &mut Scene, icon: WeatherIcon, x: i32, y: i32, size: u32)
    requires
        drawable(x as int, y as int, size as int),
    ensures
        final(scene)@ == icon_drawn(old(scene)@, icon, x as int, y as int, size as int),
{
    let s: i32 = size as i32;
    let cx: i32 = x + s / 2;
    let cy: i32 = y + s / 2;
    match icon {
        WeatherIcon::Clear => {
            scene.disc(cx, cy, size / 2, Ink::Sun);
        },
        WeatherIcon::PartlyCloudy => {
            scene.disc(cx + s / 6, cy - s / 6, size / 3, Ink::Sun);
            draw_cloud(scene, x, y, size, Ink::Cloud);
        },
        WeatherIcon::Cloudy | WeatherIcon::Fog => {
            draw_cloud(scene, x, y, size, Ink::Cloud);
        },
        WeatherIcon::Drizzle | WeatherIcon::Rain => {
            draw_cloud(scene, x, y, size, Ink::Cloud);
            draw_drop(scene, x, y, s, 0);
            draw_drop(scene, x, y, s, 1);
            draw_drop(scene, x, y, s, 2);
        },
        WeatherIcon::Snow => {
            draw_cloud(scene, x, y, size, Ink::Cloud);
            draw_flake(scene, x, y, s, 0);
            draw_flake(scene, x, y, s, 1);
            draw_flake(scene, x, y, s, 2);
        },
        WeatherIcon::Thunderstorm => {
            draw_cloud(scene, x, y, size, Ink::Cloud);
            scene.push(
                DrawOp::Wedge {
                    x1: cx,
                    y1: y + s / 2,
                    x2: cx - s / 8,
                    y2: y + s - 1,
                    x3: cx + s / 8,
                    y3: y + s - s / 4,
                    ink: Ink::Warn,
                },
            );
        },
        WeatherIcon::Unknown => {
            scene.frame(x, y, size, size, Ink::Muted);
        },
    }
}

/// Everything that drawing `op` can touch lies in the box of `s` by `s` pixels at (`x`, `y`). A
/// line spreads by half of its thickness to each side; a circle of diameter `d` reaches `(d - 1) /
/// 2` pixels from its centre to the left and up, and `d / 2` pixels to the right and down.
pub open spec fn lies_in(op: Op, x: int, y: int, s: int) -> bool {
    match op {
        DrawOp::Clear { .. } => false,
        DrawOp::Text { .. } => false,
        DrawOp::Line { x1, y1, x2, y2, width, .. } => {
            let half = width as int / 2;
            &&& x <= x1 - half && x1 + half < x + s
            &&& x <= x2 - half && x2 + half < x + s
            &&& y <= y1 - half && y1 + half < y + s
            &&& y <= y2 - half && y2 + half < y + s
        },
        DrawOp::Fill { x: left, y: top, w, h, .. } | DrawOp::Frame {
            x: left,
            y: top,
            w,
            h,
            ..
        } | DrawOp::Key { x: left, y: top, w, h, .. } => {
            &&& x <= left && left + w <= x + s
            &&& y <= top && top + h <= y + s
        },
        DrawOp::Disc { x: cx, y: cy, diameter, .. } => {
            let before = (diameter - 1) / 2;
            let after = diameter as int / 2;
            &&& x <= cx - before && cx + after < x + s
            &&& y <= cy - before && cy + after < y + s
        },
        DrawOp::Wedge { x1, y1, x2, y2, x3, y3, .. } => {
            &&& x <= x1 < x + s && x <= x2 < x + s && x <= x3 < x + s
            &&& y <= y1 < y + s && y <= y2 < y + s && y <= y3 < y + s
        },
    }
}

/// A glyph stays inside its box: everything drawn for it lies there, and what was drawn before
/// stays.
pub proof fn law_glyph_stays_in_its_box(
    base: Seq<Op>,
    icon: WeatherIcon,
    x: int,
    y: int,
    s: int,
)
    requires
        drawable(x, y, s),
        s >= 22,
        i32::MIN <= x,
        i32::MIN <= y,
    ensures
        icon_drawn(base, icon, x, y, s).len() > base.len(),
        icon_drawn(base, icon, x, y, s).take(base.len() as int) == base,
        forall|k: int|
            base.len() <= k < icon_drawn(base, icon, x, y, s).len() ==> lies_in(
                #[trigger] icon_drawn(base, icon, x, y, s)[k],
                x,
                y,
                s,
            ),
{
    let all = icon_drawn(base, icon, x, y, s);
    assert(all.take(base.len() as int) =~= base);
}

/// A glyph shows what its icon is for: a sun where the sky is clear, if only in part; a cloud, but
/// not where it is clear or nothing is known; three drops under it for drizzle and rain, three
/// flakes for snow, a bolt for a thunderstorm; and an empty frame alone for the unknown.
pub proof fn law_glyph_shows_the_weather(icon: WeatherIcon, x: int, y: int, s: int)
    ensures
        ({
            let g = icon_drawn(Seq::empty(), icon, x, y, s);
            let cloud = !(icon is Clear) && !(icon is Unknown);
            let below = if icon is Drizzle || icon is Rain || icon is Snow {
                3int
            } else {
                0
            };
            &&& (icon is Clear || icon is PartlyCloudy) <==> exists|k: int|
                0 <= k < g.len() && g[k] is Disc && g[k]->Disc_ink is Sun
            &&& cloud <==> exists|k: int|
                0 <= k < g.len() && g[k] is Disc && g[k]->Disc_ink is Cloud
            &&& cloud <==> exists|k: int|
                0 <= k < g.len() && g[k] is Fill && g[k]->Fill_ink is Cloud
            &&& forall|k: int|
                g.len() - below <= k < g.len() ==> if icon is Snow {
                    (#[trigger] g[k]) is Disc && g[k]->Disc_ink is White
                } else {
                    g[k] is Line && g[k]->Line_ink is Rain
                }
            &&& forall|k: int|
                0 <= k < g.len() - below ==> !((#[trigger] g[k]) is Line) && !(g[k] is Text) && (
                g[k] is Disc ==> !(g[k]->Disc_ink is White))
            &&& icon is Thunderstorm <==> exists|k: int|
                0 <= k < g.len() && g[k] is Wedge && g[k]->Wedge_ink is Warn
            &&& icon is Unknown <==> exists|k: int|
                0 <= k < g.len() && g[k] is Frame && g[k]->Frame_ink is Muted
            &&& icon is Clear || icon is Unknown ==> g.len() == 1
        }),
{
    let g = icon_drawn(Seq::empty(), icon, x, y, s);
    if icon is Clear {
        assert(g[0] is Disc && g[0]->Disc_ink is Sun);
    } else if icon is Unknown {
        assert(g[0] is Frame && g[0]->Frame_ink is Muted);
    } else if icon is PartlyCloudy {
        assert(g[0] is Disc && g[0]->Disc_ink is Sun);
        assert(g[1] is Disc && g[1]->Disc_ink is Cloud);
        assert(g[3] is Fill && g[3]->Fill_ink is Cloud);
    } else {
        assert(g[0] is Disc && g[0]->Disc_ink is Cloud);
        assert(g[2] is Fill && g[2]->Fill_ink is Cloud);
        if icon is Thunderstorm {
            assert(g[3] is Wedge && g[3]->Wedge_ink is Warn);
        }
    }
}

/// In a clear sky the sun is in the middle of the box and half as wide as it. Drops and flakes fall
/// side by side, a quarter of the box apart, each drop slanting down to the left.
pub proof fn law_glyph_places(icon: WeatherIcon, x: int, y: int, s: int, i: int)
    requires
        drawable(x, y, s),
        s >= 22,
        i32::MIN <= x,
        i32::MIN <= y,
        0 <= i < 3,
    ensures
        ({
            let g = icon_drawn(Seq::empty(), icon, x, y, s);
            let n = g.len() as int;
            &&& icon is Clear ==> g[0]->Disc_x == x + s / 2 && g[0]->Disc_y == y + s / 2
                && g[0]->Disc_diameter == s / 2
            &&& icon is Rain || icon is Drizzle ==> g[n - 3 + i]->Line_x1 == x + s / 4 + i * s / 4
                && g[n - 3 + i]->Line_x2 < g[n - 3 + i]->Line_x1 && g[n - 3 + i]->Line_y1 < g[n - 3
                + i]->Line_y2
            &&& icon is Snow ==> g[n - 3 + i]->Disc_x == x + s / 4 + i * s / 4
        }),
{
}

/// Every cloud is two discs of a third of the box, at one and two thirds of its width and two thirds
/// of its height, over a bar from a quarter of the width to three and from the middle down to three
/// quarters. The sun behind it is up and to the right of the middle.
pub proof fn law_cloud_shape(icon: WeatherIcon, x: int, y: int, s: int)
    requires
        drawable(x, y, s),
        s >= 22,
        i32::MIN <= x,
        i32::MIN <= y,
        !(icon is Clear) && !(icon is Unknown),
    ensures
        ({
            let g = icon_drawn(Seq::empty(), icon, x, y, s);
            let k = if icon is PartlyCloudy {
                1int
            } else {
                0int
            };
            &&& g[k]->Disc_x == x + s / 3 && g[k + 1]->Disc_x == x + 2 * s / 3
            &&& g[k]->Disc_y == y + 2 * s / 3 && g[k + 1]->Disc_y == y + 2 * s / 3
            &&& g[k]->Disc_diameter == s / 3 && g[k + 1]->Disc_diameter == s / 3
            &&& g[k + 2]->Fill_x == x + s / 4 && g[k + 2]->Fill_w == s / 2
            &&& g[k + 2]->Fill_y == y + s / 2 && g[k + 2]->Fill_h == s / 4
            &&& icon is PartlyCloudy ==> {
                &&& g[0]->Disc_x == x + s / 2 + s / 6
                &&& g[0]->Disc_y == y + s / 2 - s / 6
                &&& g[0]->Disc_diameter == s / 3
            }
        }),
{
}

/// Drops begin a quarter above the bottom of the box and end just above it, and flakes hang a sixth
/// above it. Lightning points from the middle of the box to its bottom, an eighth to the left, by
/// way of an eighth to the right and three quarters down. Unknown weather is a frame of the box.
pub proof fn law_fallout_shape(icon: WeatherIcon, x: int, y: int, s: int, i: int)
    requires
        drawable(x, y, s),
        s >= 22,
        i32::MIN <= x,
        i32::MIN <= y,
        0 <= i < 3,
    ensures
        ({
            let g = icon_drawn(Seq::empty(), icon, x, y, s);
            let n = g.len() as int;
            let last = g[n - 1];
            &&& icon is Rain || icon is Drizzle ==> {
                let drop = g[n - 3 + i];
                &&& drop->Line_x1 - drop->Line_x2 == 2
                &&& drop->Line_y1 == y + s - s / 4 && drop->Line_y2 == y + s - 2
                &&& drop->Line_width == 2
            }
            &&& icon is Snow ==> g[n - 3 + i]->Disc_y == y + s - s / 6
                && g[n - 3 + i]->Disc_diameter == 3
            &&& icon is Thunderstorm ==> {
                &&& last->Wedge_x1 == x + s / 2 && last->Wedge_y1 == y + s / 2
                &&& last->Wedge_x2 == x + s / 2 - s / 8 && last->Wedge_y2 == y + s - 1
                &&& last->Wedge_x3 == x + s / 2 + s / 8 && last->Wedge_y3 == y + s - s / 4
            }
            &&& icon is Unknown ==> {
                &&& last->Frame_x == x && last->Frame_y == y
                &&& last->Frame_w == s && last->Frame_h == s
            }
        }),
{
}

/// A glyph is drawn on top of what is there.
proof fn lemma_glyph_on_top(base: Seq<Op>, icon: WeatherIcon, x: int, y: int, s: int)
    ensures
        icon_drawn(base, icon, x, y, s) == base + icon_drawn(Seq::empty(), icon, x, y, s),
        forall|k: int|
            0 <= k < icon_drawn(Seq::empty(), icon, x, y, s).len() ==> !((
            #[trigger] icon_drawn(Seq::empty(), icon, x, y, s)[k]) is Text),
{
    assert(icon_drawn(base, icon, x, y, s) =~= base + icon_drawn(Seq::empty(), icon, x, y, s));
}

/// The width of a forecast column.
pub open spec fn column_width(days: nat) -> int {
    W as int / at_least_one(days as int)
}

/// A scene with one forecast column.
pub open spec fn day_drawn(
    base: Seq<Op>,
    day: DailyForecast,
    days: nat,
    i: int,
    top: int,
) -> Seq<Op> {
    let cx = column_width(days) * i + column_width(days) / 2;
    icon_drawn(
        base.push(
            text_op(
                day_label(day.date@, i as nat),
                cx,
                top,
                Font::Six10,
                Ink::Muted,
                Align::Center,
            ),
        ),
        day.condition.icon,
        cx - 11,
        top + 16,
        22,
    ).push(
        text_op(
            day.high_f@ + "\u{00B0}"@,
            cx,
            top + 44,
            Font::Six13,
            Ink::White,
            Align::Center,
        ),
    ).push(
        text_op(day.low_f@ + "\u{00B0}"@, cx, top + 60, Font::Six10, Ink::Muted, Align::Center),
    )
}

/// A scene with the first `n` forecast columns.
pub open spec fn forecast_drawn(
    base: Seq<Op>,
    daily: Seq<DailyForecast>,
    n: nat,
    top: int,
) -> Seq<Op>
    decreases n,
{
    if n == 0 {
        base
    } else {
        day_drawn(
            forecast_drawn(base, daily, (n - 1) as nat, top),
            daily[n - 1],
            daily.len(),
            n - 1,
            top,
        )
    }
}

/// Draw the multi-day forecast, one column per day, its top at `top`.
pub fn draw_forecast_row(scene: &mut Scene, daily: &Vec<DailyForecast>, top: i32)
    requires
        daily@.len() <= i32::MAX,
        top + 60 <= i32::MAX,
    ensures
        final(scene)@ == forecast_drawn(old(scene)@, daily@, daily@.len(), top as int),
{
    let days: i32 = if daily.len() < 1 {
        1
    } else {
        daily.len() as i32
    };
    let col_w: i32 = W / days;
    let mut i: usize = 0;
    while i < daily.len()
        invariant
            daily@.len() <= i32::MAX,
            top + 60 <= i32::MAX,
            days == at_least_one(daily@.len() as int),
            col_w == column_width(daily@.len()),
            i <= daily@.len(),
            scene@ == forecast_drawn(old(scene)@, daily@, i as nat, top as int),
        decreases daily@.len() - i,
    {
        let day = &daily[i];
        assert(0 <= col_w * i <= W) by (nonlinear_arith)
            requires
                col_w == W as int / (days as int),
                0 <= i < days,
                days >= 1,
        ;
        let cx: i32 = col_w * (i as i32) + col_w / 2;
        let label: String = weekday_label(day.date.as_str(), i);
        scene.text(label.as_str(), cx, top, Font::Six10, Ink::Muted, Align::Center);
        draw_icon(scene, day.condition.icon, cx - 11, top + 16, 22);
        let hi: String = joined(day.high_f.as_str(), "\u{00B0}");
        let lo: String = joined(day.low_f.as_str(), "\u{00B0}");
        scene.text(hi.as_str(), cx, top + 44, Font::Six13, Ink::White, Align::Center);
        scene.text(lo.as_str(), cx, top + 60, Font::Six10, Ink::Muted, Align::Center);
        i = i + 1;
    }
}

/// One after the other behind `from`: the name of a day, the glyph of its weather, its high and its
/// low, all in column `i` of `days`.
spec fn column_shown(
    s: Seq<Op>,
    from: int,
    day: DailyForecast,
    days: int,
    i: int,
    top: int,
) -> bool {
    let cx = 240int / days * i + 240int / days / 2;
    exists|k: int, m: int|
        {
            &&& from <= k < m
            &&& m + 1 < s.len()
            &&& s[k] == (DrawOp::Text {
                text: day_label(day.date@, i as nat),
                x: cx as i32,
                y: top as i32,
                font: Font::Six10,
                ink: Ink::Muted,
                align: Align::Center,
            })
            &&& #[trigger] s.subrange(k + 1, m) == icon_drawn(
                Seq::empty(),
                day.condition.icon,
                cx - 11,
                top + 16,
                22,
            )
            &&& s[m] == (DrawOp::Text {
                text: day.high_f@ + "\u{00B0}"@,
                x: cx as i32,
                y: (top + 44) as i32,
                font: Font::Six13,
                ink: Ink::White,
                align: Align::Center,
            })
            &&& s[m + 1] == (DrawOp::Text {
                text: day.low_f@ + "\u{00B0}"@,
                x: cx as i32,
                y: (top + 60) as i32,
                font: Font::Six10,
                ink: Ink::Muted,
                align: Align::Center,
            })
        }
}

proof fn lemma_column_stays(
    s: Seq<Op>,
    t: Seq<Op>,
    from: int,
    day: DailyForecast,
    days: int,
    i: int,
    top: int,
)
    requires
        s.is_prefix_of(t),
        0 <= from,
        column_shown(s, from, day, days, i, top),
    ensures
        column_shown(t, from, day, days, i, top),
{
    let cx = 240int / days * i + 240int / days / 2;
    let glyph = icon_drawn(Seq::empty(), day.condition.icon, cx - 11, top + 16, 22);
    let (k, m) = choose|k: int, m: int|
        {
            &&& from <= k < m
            &&& m + 1 < s.len()
            &&& s[k] == text_op(
                day_label(day.date@, i as nat),
                cx,
                top,
                Font::Six10,
                Ink::Muted,
                Align::Center,
            )
            &&& #[trigger] s.subrange(k + 1, m) == glyph
            &&& s[m] == text_op(
                day.high_f@ + "\u{00B0}"@,
                cx,
                top + 44,
                Font::Six13,
                Ink::White,
                Align::Center,
            )
            &&& s[m + 1] == text_op(
                day.low_f@ + "\u{00B0}"@,
                cx,
                top + 60,
                Font::Six10,
                Ink::Muted,
                Align::Center,
            )
        };
    assert(t[k] == s[k] && t[m] == s[m] && t[m + 1] == s[m + 1]);
    assert(t.subrange(k + 1, m) =~= s.subrange(k + 1, m));
}

spec fn op_y(op: Op) -> i32 {
    op->Text_y
}

/// How many texts the first `n` columns of a forecast row have.
spec fn forecast_texts(base: Seq<Op>, daily: Seq<DailyForecast>, n: nat, top: int) -> nat {
    forecast_drawn(base, daily, n, top).skip(base.len() as int).filter(|op: Op| op is Text).len()
}

proof fn lemma_no_texts(g: Seq<Op>)
    requires
        forall|k: int| 0 <= k < g.len() ==> !((#[trigger] g[k]) is Text),
    ensures
        g.filter(|op: Op| op is Text) == Seq::<Op>::empty(),
    decreases g.len(),
{
    reveal(Seq::filter);
    if g.len() > 0 {
        assert forall|k: int| 0 <= k < g.drop_last().len() implies !((
        #[trigger] g.drop_last()[k]) is Text) by {
            assert(g.drop_last()[k] == g[k]);
        }
        lemma_no_texts(g.drop_last());
        assert(!(g[g.len() - 1] is Text));
    }
}

/// A column adds three texts.
proof fn lemma_texts_counted(base: Seq<Op>, daily: Seq<DailyForecast>, n: nat, top: int)
    requires
        0 < n <= daily.len(),
        base.is_prefix_of(forecast_drawn(base, daily, (n - 1) as nat, top)),
    ensures
        forecast_texts(base, daily, n, top) == forecast_texts(base, daily, (n - 1) as nat, top)
            + 3,
{
    let is_text = |op: Op| op is Text;
    let before = forecast_drawn(base, daily, (n - 1) as nat, top);
    let after = forecast_drawn(base, daily, n, top);
    let day = daily[n - 1];
    let cx = column_width(daily.len()) * (n - 1) + column_width(daily.len()) / 2;
    let name = text_op(
        day_label(day.date@, (n - 1) as nat),
        cx,
        top,
        Font::Six10,
        Ink::Muted,
        Align::Center,
    );
    let named = before.push(name);
    lemma_glyph_on_top(named, day.condition.icon, cx - 11, top + 16, 22);
    let glyph = icon_drawn(Seq::empty(), day.condition.icon, cx - 11, top + 16, 22);
    let high = after[after.len() - 2];
    let low = after[after.len() - 1];
    let from = base.len() as int;
    let rest = before.skip(from);
    assert(after.skip(from) =~= (rest.push(name) + glyph).push(high).push(low));
    lemma_no_texts(glyph);
    Seq::filter_distributes_over_add(rest.push(name), glyph, is_text);
    Seq::filter_distributes_over_add(rest, seq![name], is_text);
    Seq::filter_distributes_over_add(rest.push(name) + glyph, seq![high], is_text);
    Seq::filter_distributes_over_add((rest.push(name) + glyph).push(high), seq![low], is_text);
    assert(rest + seq![name] =~= rest.push(name));
    assert(rest.push(name) + glyph + seq![high] =~= (rest.push(name) + glyph).push(high));
    assert((rest.push(name) + glyph).push(high) + seq![low] =~= (rest.push(name) + glyph).push(
        high,
    ).push(low));
    lemma_one_text(name);
    lemma_one_text(high);
    lemma_one_text(low);
}

proof fn lemma_one_text(op: Op)
    requires
        op is Text,
    ensures
        seq![op].filter(|op: Op| op is Text) == seq![op],
{
    reveal(Seq::filter);
    let s = seq![op];
    assert(s.drop_last() =~= Seq::<Op>::empty());
    assert(Seq::<Op>::empty().filter(|op: Op| op is Text) =~= Seq::<Op>::empty());
    assert(s.last() == op);
    assert(s.filter(|op: Op| op is Text) =~= Seq::<Op>::empty().push(op));
}

proof fn lemma_forecast(base: Seq<Op>, daily: Seq<DailyForecast>, n: nat, top: int)
    requires
        n <= daily.len(),
    ensures
        base.is_prefix_of(forecast_drawn(base, daily, n, top)),
        forall|i: int|
            0 <= i < n ==> column_shown(
                forecast_drawn(base, daily, n, top),
                base.len() as int,
                #[trigger] daily[i],
                daily.len() as int,
                i,
                top,
            ),
        forall|k: int|
            base.len() <= k < forecast_drawn(base, daily, n, top).len() && (
            #[trigger] forecast_drawn(base, daily, n, top)[k]) is Text ==> {
                let op = forecast_drawn(base, daily, n, top)[k];
                op_y(op) == top as i32 || op_y(op) == (top + 44) as i32 || op_y(op) == (top
                    + 60) as i32
            },
        forecast_texts(base, daily, n, top) == 3 * n,
    decreases n,
{
    if n > 0 {
        let p = (n - 1) as nat;
        lemma_forecast(base, daily, p, top);
        let before = forecast_drawn(base, daily, p, top);
        let after = forecast_drawn(base, daily, n, top);
        let day = daily[n - 1];
        let days = daily.len() as int;
        let cx = column_width(daily.len()) * (n - 1) + column_width(daily.len()) / 2;
        assert(cx == 240int / days * (n - 1) + 240int / days / 2);
        let named = before.push(
            text_op(
                day_label(day.date@, p),
                cx,
                top,
                Font::Six10,
                Ink::Muted,
                Align::Center,
            ),
        );
        lemma_glyph_on_top(named, day.condition.icon, cx - 11, top + 16, 22);
        let glyph = icon_drawn(Seq::empty(), day.condition.icon, cx - 11, top + 16, 22);
        assert(before.is_prefix_of(after));
        let k = before.len() as int;
        let m = k + 1 + glyph.len();
        assert(after.subrange(k + 1, m) =~= glyph);
        assert(after.len() == m + 2);
        assert(column_shown(after, base.len() as int, day, days, n - 1, top));
        assert forall|i: int| 0 <= i < n implies column_shown(
            after,
            base.len() as int,
            #[trigger] daily[i],
            days,
            i,
            top,
        ) by {
            if i < n - 1 {
                lemma_column_stays(before, after, base.len() as int, daily[i], days, i, top);
            }
        }
        assert forall|j: int|
            base.len() <= j < after.len() && (#[trigger] after[j]) is Text implies op_y(after[j])
            == top as i32 || op_y(after[j]) == (top + 44) as i32 || op_y(after[j]) == (top
            + 60) as i32 by {
            if j < k {
                assert(after[j] == before[j]);
            } else if k < j < m {
                assert(after[j] == glyph[j - k - 1]);
            }
        }
        lemma_texts_counted(base, daily, n, top);
    }
}

/// For every day of the forecast its column of the row shows, in the middle of the column: the name
/// of its weekday, the glyph of its weather, its high and its low. The columns share the width of
/// the panel; what was drawn before stays; and there are three texts to a day and no others.
pub proof fn law_forecast_shows_every_day(
    base: Seq<Op>,
    daily: Seq<DailyForecast>,
    top: int,
    i: int,
)
    requires
        0 <= i < daily.len(),
    ensures
        ({
            let s = forecast_drawn(base, daily, daily.len(), top);
            let col = 240int / (daily.len() as int);
            let cx = col * i + col / 2;
            &&& base.is_prefix_of(s)
            &&& exists|k: int, m: int|
                {
                    &&& base.len() <= k < m
                    &&& m + 1 < s.len()
                    &&& s[k] == (DrawOp::Text {
                        text: day_label(daily[i].date@, i as nat),
                        x: cx as i32,
                        y: top as i32,
                        font: Font::Six10,
                        ink: Ink::Muted,
                        align: Align::Center,
                    })
                    &&& #[trigger] s.subrange(k + 1, m) == icon_drawn(
                        Seq::empty(),
                        daily[i].condition.icon,
                        cx - 11,
                        top + 16,
                        22,
                    )
                    &&& s[m] == (DrawOp::Text {
                        text: daily[i].high_f@ + "\u{00B0}"@,
                        x: cx as i32,
                        y: (top + 44) as i32,
                        font: Font::Six13,
                        ink: Ink::White,
                        align: Align::Center,
                    })
                    &&& s[m + 1] == (DrawOp::Text {
                        text: daily[i].low_f@ + "\u{00B0}"@,
                        x: cx as i32,
                        y: (top + 60) as i32,
                        font: Font::Six10,
                        ink: Ink::Muted,
                        align: Align::Center,
                    })
                }
            &&& s.skip(base.len() as int).filter(|op: Op| op is Text).len() == 3 * daily.len()
        }),
{
    lemma_forecast(base, daily, daily.len(), top);
    assert(column_shown(
        forecast_drawn(base, daily, daily.len(), top),
        base.len() as int,
        daily[i],
        daily.len() as int,
        i,
        top,
    ));
}

/// A scene with the place the weather is for, if it has a name.
pub open spec fn place_drawn(base: Seq<Op>, place: Option<Seq<char>>) -> Seq<Op> {
    match place {
        Some(p) => base.push(
            text_op(p, W as int / 2, 4, Font::Six13, Ink::Accent, Align::Center),
        ),
        None => base,
    }
}

/// A scene with the current conditions: the icon top left, the temperatures and the condition's
/// name at the right edge.
pub open spec fn current_drawn(base: Seq<Op>, data: WeatherData) -> Seq<Op> {
    icon_drawn(base, data.condition.icon, 20, 30, 44).push(
        text_op(
            data.temperature_f@ + "\u{00B0}F"@,
            W - 10,
            28,
            Font::Ten20,
            Ink::White,
            Align::Right,
        ),
    ).push(
        text_op(data.condition.label@, W - 10, 52, Font::Six13, Ink::Muted, Align::Right),
    ).push(
        text_op(
            "Feels like "@ + data.feels_like_f@ + "\u{00B0}F"@,
            W - 10,
            68,
            Font::Six10,
            Ink::Muted,
            Align::Right,
        ),
    )
}

/// What is said of the air quality.
pub open spec fn aqi_text(aqi: Option<u16>) -> Seq<char> {
    match aqi {
        Some(v) => "AQI: "@ + decimal(v as nat) + " ("@ + aqi_band(v) + ")"@,
        None => "AQI: n/a"@,
    }
}

/// What is said of the UV index.
pub open spec fn uv_text(uv: Option<UvIndex>) -> Seq<char> {
    match uv {
        Some(v) => "UV: "@ + v.shown@ + " ("@ + uv_band(v.whole as int) + ")"@,
        None => "UV: n/a"@,
    }
}

/// A scene with the measurements: humidity, wind, AQI and UV index, one below the other.
pub open spec fn metrics_drawn(base: Seq<Op>, data: WeatherData) -> Seq<Op> {
    base.push(
        text_op(
            "Humidity: "@ + data.humidity_pct@ + "%"@,
            12,
            100,
            Font::Six13,
            Ink::White,
            Align::Left,
        ),
    ).push(
        text_op(
            "Wind: "@ + data.wind_mph@ + " mph"@,
            12,
            120,
            Font::Six13,
            Ink::White,
            Align::Left,
        ),
    ).push(
        text_op(
            aqi_text(data.us_aqi),
            12,
            140,
            Font::Six13,
            match data.us_aqi {
                Some(v) => aqi_ink(v),
                None => Ink::Muted,
            },
            Align::Left,
        ),
    ).push(
        text_op(
            uv_text(data.uv_index),
            12,
            154,
            Font::Six10,
            match data.uv_index {
                Some(v) => Ink::White,
                None => Ink::Muted,
            },
            Align::Left,
        ),
    )
}

/// A scene with a divider across the panel.
pub open spec fn divider_drawn(base: Seq<Op>, y: int) -> Seq<Op> {
    base.push(line_op(8, y, W - 8, y, Ink::Muted, 1))
}

/// A scene with the full weather dashboard.
pub open spec fn weather_drawn(
    base: Seq<Op>,
    data: WeatherData,
    place: Option<Seq<char>>,
) -> Seq<Op> {
    let current = current_drawn(place_drawn(cleared(base), place), data);
    let metrics = metrics_drawn(divider_drawn(current, 90), data);
    forecast_drawn(
        divider_drawn(metrics, 168).push(
            text_op("Forecast"@, 12, 176, Font::Six10, Ink::Accent, Align::Left),
        ),
        data.daily@,
        data.daily@.len(),
        194,
    )
}

/// Render the full weather dashboard.
pub fn draw_weather(scene: &mut Scene, data: &WeatherData, place: Option<&str>)
    requires
        data.daily@.len() <= i32::MAX,
    ensures
        final(scene)@ == weather_drawn(
            old(scene)@,
            *data,
            match place {
                Some(p) => Some(p@),
                None => None,
            },
        ),
{
    clear(scene);
    match place {
        Some(p) => {
            scene.text(p, W / 2, 4, Font::Six13, Ink::Accent, Align::Center);
        },
        None => {},
    }

    // Weather icon (top-left) + big current temperature.
    draw_icon(scene, data.condition.icon, 20, 30, 44);
    let temp: String = joined(data.temperature_f.as_str(), "\u{00B0}F");
    scene.text(temp.as_str(), W - 10, 28, Font::Ten20, Ink::White, Align::Right);
    scene.text(data.condition.label, W - 10, 52, Font::Six13, Ink::Muted, Align::Right);
    let feels: String = between("Feels like ", data.feels_like_f.as_str(), "\u{00B0}F");
    scene.text(feels.as_str(), W - 10, 68, Font::Six10, Ink::Muted, Align::Right);
    scene.line(8, 90, W - 8, 90, Ink::Muted, 1);

    // Metrics: humidity, wind, AQI, UV.
    let hum: String = between("Humidity: ", data.humidity_pct.as_str(), "%");
    let wind: String = between("Wind: ", data.wind_mph.as_str(), " mph");
    scene.text(hum.as_str(), 12, 100, Font::Six13, Ink::White, Align::Left);
    scene.text(wind.as_str(), 12, 120, Font::Six13, Ink::White, Align::Left);
    match data.us_aqi {
        Some(aqi) => {
            let mut s: String = "AQI: ".to_owned();
            push_decimal(&mut s, aqi as u64);
            s.append(" (");
            s.append(aqi_category(aqi));
            s.append(")");
            scene.text(s.as_str(), 12, 140, Font::Six13, aqi_color(aqi), Align::Left);
        },
        None => {
            scene.text("AQI: n/a", 12, 140, Font::Six13, Ink::Muted, Align::Left);
        },
    }
    match &data.uv_index {
        Some(uv) => {
            let mut s: String = joined("UV: ", uv.shown.as_str());
            s.append(" (");
            s.append(uv_category(uv.whole));
            s.append(")");
            scene.text(s.as_str(), 12, 154, Font::Six10, Ink::White, Align::Left);
        },
        None => {
            scene.text("UV: n/a", 12, 154, Font::Six10, Ink::Muted, Align::Left);
        },
    }
    scene.line(8, 168, W - 8, 168, Ink::Muted, 1);
    scene.text("Forecast", 12, 176, Font::Six10, Ink::Accent, Align::Left);
    draw_forecast_row(scene, &data.daily, 194);
}

/// The parts of the dashboard follow one another.
proof fn lemma_dashboard_parts(
    base: Seq<Op>,
    data: WeatherData,
    place: Option<Seq<char>>,
)
    ensures
        ({
            let s = weather_drawn(base, data, place);
            let placed = place_drawn(cleared(base), place);
            let current = current_drawn(placed, data);
            let metrics = metrics_drawn(divider_drawn(current, 90), data);
            &&& base.is_prefix_of(placed)
            &&& placed.is_prefix_of(s)
            &&& current.is_prefix_of(s)
            &&& metrics.is_prefix_of(s)
        }),
{
    let s = weather_drawn(base, data, place);
    let placed = place_drawn(cleared(base), place);
    let current = current_drawn(placed, data);
    let metrics = metrics_drawn(divider_drawn(current, 90), data);
    let head = divider_drawn(metrics, 168).push(
        text_op("Forecast"@, 12, 176, Font::Six10, Ink::Accent, Align::Left),
    );
    lemma_forecast(head, data.daily@, data.daily@.len(), 194);
    lemma_glyph_on_top(placed, data.condition.icon, 20, 30, 44);
    assert(base.is_prefix_of(placed));
    assert(placed.is_prefix_of(current));
    assert(current.is_prefix_of(metrics));
    assert(metrics.is_prefix_of(head));
    assert(metrics.is_prefix_of(s));
    assert(current.is_prefix_of(s));
    assert(placed.is_prefix_of(s));
}

/// The dashboard shows the glyph of the current weather, the temperature, the name of the weather
/// and what it feels like.
pub proof fn law_dashboard_shows_current_weather(
    base: Seq<Op>,
    data: WeatherData,
    place: Option<Seq<char>>,
)
    ensures
        ({
            let s = weather_drawn(base, data, place);
            let glyph = icon_drawn(Seq::empty(), data.condition.icon, 20, 30, 44);
            &&& s.contains(
                (DrawOp::Text {
                    text: data.temperature_f@ + "\u{00B0}F"@,
                    x: 230,
                    y: 28,
                    font: Font::Ten20,
                    ink: Ink::White,
                    align: Align::Right,
                })
            )
            &&& s.contains(
                (DrawOp::Text {
                    text: data.condition.label@,
                    x: 230,
                    y: 52,
                    font: Font::Six13,
                    ink: Ink::Muted,
                    align: Align::Right,
                })
            )
            &&& s.contains(
                (DrawOp::Text {
                    text: "Feels like "@ + data.feels_like_f@ + "\u{00B0}F"@,
                    x: 230,
                    y: 68,
                    font: Font::Six10,
                    ink: Ink::Muted,
                    align: Align::Right,
                })
            )
            &&& exists|k: int|
                base.len() <= k <= s.len() - glyph.len() && #[trigger] s.subrange(
                    k,
                    k + glyph.len(),
                ) == glyph
        }),
{
    let s = weather_drawn(base, data, place);
    let placed = place_drawn(cleared(base), place);
    let current = current_drawn(placed, data);
    lemma_dashboard_parts(base, data, place);
    lemma_glyph_on_top(placed, data.condition.icon, 20, 30, 44);
    let glyph = icon_drawn(Seq::empty(), data.condition.icon, 20, 30, 44);
    let k = placed.len() as int;
    let n = current.len() as int;
    assert(n == k + glyph.len() + 3);
    assert forall|j: int| 0 <= j < glyph.len() implies s[k + j] == #[trigger] glyph[j] by {
        assert(s[k + j] == current[k + j]);
    }
    assert(s.subrange(k, k + glyph.len()) =~= glyph);
    assert(s[n - 3] == current[n - 3] && s[n - 2] == current[n - 2] && s[n - 1] == current[n - 1]);
}

/// The dashboard shows the humidity and the wind, the air quality index with its category and in
/// its colour, and the UV index with its category; of either index that there is none, if so.
pub proof fn law_dashboard_shows_measurements(
    base: Seq<Op>,
    data: WeatherData,
    place: Option<Seq<char>>,
)
    ensures
        ({
            let s = weather_drawn(base, data, place);
            &&& s.contains(
                (DrawOp::Text {
                    text: "Humidity: "@ + data.humidity_pct@ + "%"@,
                    x: 12,
                    y: 100,
                    font: Font::Six13,
                    ink: Ink::White,
                    align: Align::Left,
                })
            )
            &&& s.contains(
                (DrawOp::Text {
                    text: "Wind: "@ + data.wind_mph@ + " mph"@,
                    x: 12,
                    y: 120,
                    font: Font::Six13,
                    ink: Ink::White,
                    align: Align::Left,
                })
            )
            &&& data.us_aqi is None ==> s.contains(
                (DrawOp::Text {
                    text: "AQI: n/a"@,
                    x: 12,
                    y: 140,
                    font: Font::Six13,
                    ink: Ink::Muted,
                    align: Align::Left,
                })
            )
            &&& data.us_aqi matches Some(v) ==> s.contains(
                (DrawOp::Text {
                    text: "AQI: "@ + decimal(v as nat) + " ("@ + aqi_band(v) + ")"@,
                    x: 12,
                    y: 140,
                    font: Font::Six13,
                    ink: aqi_ink(v),
                    align: Align::Left,
                })
            )
            &&& data.uv_index is None ==> s.contains(
                (DrawOp::Text {
                    text: "UV: n/a"@,
                    x: 12,
                    y: 154,
                    font: Font::Six10,
                    ink: Ink::Muted,
                    align: Align::Left,
                })
            )
            &&& data.uv_index matches Some(v) ==> s.contains(
                (DrawOp::Text {
                    text: "UV: "@ + v.shown@ + " ("@ + uv_band(v.whole as int) + ")"@,
                    x: 12,
                    y: 154,
                    font: Font::Six10,
                    ink: Ink::White,
                    align: Align::Left,
                })
            )
        }),
{
    let s = weather_drawn(base, data, place);
    let placed = place_drawn(cleared(base), place);
    let current = current_drawn(placed, data);
    let metrics = metrics_drawn(divider_drawn(current, 90), data);
    lemma_dashboard_parts(base, data, place);
    let m = metrics.len() as int;
    assert(s[m - 4] == metrics[m - 4] && s[m - 3] == metrics[m - 3]);
    assert(s[m - 2] == metrics[m - 2] && s[m - 1] == metrics[m - 1]);
}

/// The dashboard covers what was there, names the place if it has a name, and ends with the
/// forecast of the reading.
pub proof fn law_dashboard_is_complete(
    base: Seq<Op>,
    data: WeatherData,
    place: Option<Seq<char>>,
)
    ensures
        ({
            let s = weather_drawn(base, data, place);
            &&& base.is_prefix_of(s)
            &&& s[base.len() as int] is Clear && s[base.len() as int]->Clear_ink is Background
            &&& place matches Some(p) ==> s.contains(
                (DrawOp::Text {
                    text: p,
                    x: 120,
                    y: 4,
                    font: Font::Six13,
                    ink: Ink::Accent,
                    align: Align::Center,
                })
            )
            &&& s.contains(
                (DrawOp::Line { x1: 8, y1: 90, x2: 232, y2: 90, ink: Ink::Muted, width: 1 }),
            )
            &&& s.contains(
                (DrawOp::Line { x1: 8, y1: 168, x2: 232, y2: 168, ink: Ink::Muted, width: 1 }),
            )
            &&& s.contains(
                (DrawOp::Text {
                    text: "Forecast"@,
                    x: 12,
                    y: 176,
                    font: Font::Six10,
                    ink: Ink::Accent,
                    align: Align::Left,
                }),
            )
            &&& exists|head: Seq<Op>|
                base.is_prefix_of(head) && s == #[trigger] forecast_drawn(
                    head,
                    data.daily@,
                    data.daily@.len(),
                    194,
                )
        }),
{
    let s = weather_drawn(base, data, place);
    let placed = place_drawn(cleared(base), place);
    let current = current_drawn(placed, data);
    let metrics = metrics_drawn(divider_drawn(current, 90), data);
    let head = divider_drawn(metrics, 168).push(
        text_op("Forecast"@, 12, 176, Font::Six10, Ink::Accent, Align::Left),
    );
    lemma_dashboard_parts(base, data, place);
    assert(metrics.is_prefix_of(head));
    assert(s == forecast_drawn(head, data.daily@, data.daily@.len(), 194));
    lemma_forecast(head, data.daily@, data.daily@.len(), 194);
    assert(s[head.len() - 1] == head[head.len() - 1]);
    assert(s[head.len() - 2] == head[head.len() - 2]);
    assert(s[current.len() as int] == head[current.len() as int]);
    assert(s[base.len() as int] == placed[base.len() as int]);
    assert(base.is_prefix_of(metrics)) by {
        lemma_glyph_on_top(placed, data.condition.icon, 20, 30, 44);
    }
    if place is Some {
        let k = placed.len() as int;
        assert(s[k - 1] == placed[k - 1]);
    }
}

/// The dashboard leaves the place of the banner free.
pub proof fn lemma_dashboard_leaves_the_banner(
    base: Seq<Op>,
    data: WeatherData,
    place: Option<Seq<char>>,
)
    ensures
        base.is_prefix_of(weather_drawn(base, data, place)),
        forall|k: int|
            base.len() <= k < weather_drawn(base, data, place).len() && (#[trigger] weather_drawn(
                base,
                data,
                place,
            )[k]) is Text ==> weather_drawn(base, data, place)[k]->Text_y > 2,
{
    let s = weather_drawn(base, data, place);
    let placed = place_drawn(cleared(base), place);
    let current = current_drawn(placed, data);
    let metrics = metrics_drawn(divider_drawn(current, 90), data);
    let head = divider_drawn(metrics, 168).push(
        text_op("Forecast"@, 12, 176, Font::Six10, Ink::Accent, Align::Left),
    );
    lemma_forecast(head, data.daily@, data.daily@.len(), 194);
    lemma_glyph_on_top(placed, data.condition.icon, 20, 30, 44);
    let glyph = icon_drawn(Seq::empty(), data.condition.icon, 20, 30, 44);
    assert forall|k: int| base.len() <= k < s.len() && (#[trigger] s[k]) is Text implies s[k]->Text_y
        > 2 by {
        let p = placed.len() as int;
        if k < head.len() {
            assert(s[k] == head[k]);
            if p <= k < p + glyph.len() {
                assert(head[k] == glyph[k - p]);
            }
        }
    }
}

/// A scene with a centered status screen.
pub open spec fn status_drawn(base: Seq<Op>, title: Seq<char>, message: Seq<char>) -> Seq<Op> {
    cleared(base).push(
        text_op(
            title,
            W as int / 2,
            H as int / 2 - 24,
            Font::Ten20,
            Ink::White,
            Align::Center,
        ),
    ).push(
        text_op(
            message,
            W as int / 2,
            H as int / 2 + 6,
            Font::Six13,
            Ink::Muted,
            Align::Center,
        ),
    )
}

/// A status screen covers what was there and shows a title and, below it, a message, both in the
/// middle of the panel, and nothing else.
pub proof fn law_status_shows_title_and_message(
    base: Seq<Op>,
    title: Seq<char>,
    message: Seq<char>,
)
    ensures
        ({
            let s = status_drawn(base, title, message);
            let n = base.len() as int;
            &&& s.len() == n + 3
            &&& s.take(n) == base
            &&& s[n] is Clear && s[n]->Clear_ink is Background
            &&& s[n + 1] == (DrawOp::Text {
                text: title,
                x: 120,
                y: 136,
                font: Font::Ten20,
                ink: Ink::White,
                align: Align::Center,
            })
            &&& s[n + 2] == (DrawOp::Text {
                text: message,
                x: 120,
                y: 166,
                font: Font::Six13,
                ink: Ink::Muted,
                align: Align::Center,
            })
        }),
{
    assert(status_drawn(base, title, message).take(base.len() as int) =~= base);
}

/// Render a centered status / error screen (e.g. "Connecting...", "No Wi-Fi").
pub fn draw_status(scene: &mut Scene, title: &str, message: &str)
    ensures
        final(scene)@ == status_drawn(old(scene)@, title@, message@),
{
    clear(scene);
    scene.text(title, W / 2, H / 2 - 24, Font::Ten20, Ink::White, Align::Center);
    scene.text(message, W / 2, H / 2 + 6, Font::Six13, Ink::Muted, Align::Center);
}

/// The screen currently shown on the panel.
#[derive(Debug, Clone, Copy, PartialEq, Eq, Structural)]
pub enum Screen {
    Weather,
    Radar,
}

impl Default for Screen {
    fn default() -> (s: Self)
        ensures
            s is Weather,
    {
        Screen::Weather
    }
}

/// The label of a screen's toolbar button.
pub open spec fn screen_label(s: Screen) -> Seq<char> {
    match s {
        Screen::Weather => "Weather"@,
        Screen::Radar => "Radar"@,
    }
}

impl Screen {
    /// The label of the screen's toolbar button.
    pub fn label(self) -> (s: &'static str)
        ensures
            s@ == screen_label(self),
    {
        match self {
            Screen::Weather => "Weather",
            Screen::Radar => "Radar",
        }
    }
}

/// The left edge of a screen's toolbar button.
pub open spec fn button_left(s: Screen) -> int {
    match s {
        Screen::Weather => 0,
        Screen::Radar => W as int / 2,
    }
}

/// A scene with a screen's toolbar button.
pub open spec fn button_drawn(base: Seq<Op>, s: Screen, active: Screen) -> Seq<Op> {
    let x = button_left(s);
    let half = W as int / 2;
    base.push(
        fill_op(
            x,
            TOOLBAR_TOP as int,
            half,
            TOOLBAR_HEIGHT as int,
            if s == active {
                Ink::Accent
            } else {
                Ink::Background
            },
        ),
    ).push(
        frame_op(x, TOOLBAR_TOP as int, half, TOOLBAR_HEIGHT as int, Ink::Muted),
    ).push(
        text_op(
            screen_label(s),
            x + half / 2,
            TOOLBAR_TOP + 9,
            Font::Six13,
            if s == active {
                Ink::Black
            } else {
                Ink::White
            },
            Align::Center,
        ),
    )
}

fn draw_button(scene: &mut Scene, screen: Screen, active: Screen)
    ensures
        final(scene)@ == button_drawn(old(scene)@, screen, active),
{
    let half: i32 = W / 2;
    let x: i32 = match screen {
        Screen::Weather => 0,
        Screen::Radar => half,
    };
    let selected = screen == active;
    scene.fill(
        x,
        TOOLBAR_TOP,
        half as u32,
        TOOLBAR_HEIGHT as u32,
        if selected {
            Ink::Accent
        } else {
            Ink::Background
        },
    );
    scene.frame(x, TOOLBAR_TOP, half as u32, TOOLBAR_HEIGHT as u32, Ink::Muted);
    scene.text(
        screen.label(),
        x + half / 2,
        TOOLBAR_TOP + 9,
        Font::Six13,
        if selected {
            Ink::Black
        } else {
            Ink::White
        },
        Align::Center,
    );
}

/// A scene with the toolbar.
pub open spec fn toolbar_drawn(base: Seq<Op>, active: Screen) -> Seq<Op> {
    button_drawn(button_drawn(base, Screen::Weather, active), Screen::Radar, active)
}

/// The toolbar has a button for the weather in its left half and one for the radar in its right
/// half, each with its name; the button of the active screen is filled with the accent colour and
/// its name is black, the other is filled with the background and its name is white.
pub proof fn law_toolbar_highlights_the_active_screen(base: Seq<Op>, active: Screen)
    ensures
        ({
            let s = toolbar_drawn(base, active);
            let n = base.len() as int;
            &&& s.len() == n + 6
            &&& s.take(n) == base
            &&& s[n] == (DrawOp::<Seq<char>>::Fill {
                x: 0,
                y: 292,
                w: 120,
                h: 28,
                ink: if active is Weather {
                    Ink::Accent
                } else {
                    Ink::Background
                },
            })
            &&& s[n + 1] == (DrawOp::<Seq<char>>::Frame { x: 0, y: 292, w: 120, h: 28, ink: Ink::Muted })
            &&& s[n + 2] == (DrawOp::Text {
                text: "Weather"@,
                x: 60,
                y: 301,
                font: Font::Six13,
                ink: if active is Weather {
                    Ink::Black
                } else {
                    Ink::White
                },
                align: Align::Center,
            })
            &&& s[n + 3] == (DrawOp::<Seq<char>>::Fill {
                x: 120,
                y: 292,
                w: 120,
                h: 28,
                ink: if active is Radar {
                    Ink::Accent
                } else {
                    Ink::Background
                },
            })
            &&& s[n + 4] == (DrawOp::<Seq<char>>::Frame { x: 120, y: 292, w: 120, h: 28, ink: Ink::Muted })
            &&& s[n + 5] == (DrawOp::Text {
                text: "Radar"@,
                x: 180,
                y: 301,
                font: Font::Six13,
                ink: if active is Radar {
                    Ink::Black
                } else {
                    Ink::White
                },
                align: Align::Center,
            })
        }),
{
    assert(toolbar_drawn(base, active).take(base.len() as int) =~= base);
}

/// Draw the bottom toolbar, highlighting the active screen's button.
pub fn draw_toolbar(scene: &mut Scene, active: Screen)
    ensures
        final(scene)@ == toolbar_drawn(old(scene)@, active),
{
    draw_button(scene, Screen::Weather, active);
    draw_button(scene, Screen::Radar, active);
}

/// The toolbar button at a point: its left half is the weather's, its right half the radar's.
pub open spec fn button_at(p: TouchPoint) -> Option<Screen> {
    if p.y < TOOLBAR_TOP || p.y >= H {
        None
    } else if p.x < W as int / 2 {
        Some(Screen::Weather)
    } else {
        Some(Screen::Radar)
    }
}

/// Map a touch point to the toolbar button it hit, if any.
pub fn toolbar_hit(point: TouchPoint) -> (hit: Option<Screen>)
    ensures
        hit == button_at(point),
{
    if point.y < TOOLBAR_TOP || point.y >= H {
        return None;
    }
    if point.x < W / 2 {
        Some(Screen::Weather)
    } else {
        Some(Screen::Radar)
    }
}

/// A point of the panel hits a screen's button exactly where that button is drawn.
pub proof fn law_toolbar_hits_what_is_drawn(p: TouchPoint, s: Screen)
    requires
        0 <= p.x < W,
        0 <= p.y < H,
    ensures
        button_at(p) == Some(s) <==> {
            &&& button_left(s) <= p.x < button_left(s) + W as int / 2
            &&& TOOLBAR_TOP <= p.y < TOOLBAR_TOP + TOOLBAR_HEIGHT
        },
{
}

/// A point hits no button above the toolbar or below the panel; in the toolbar it hits the
/// weather's left of the middle of the panel, and otherwise the radar's.
pub proof fn law_toolbar_halves(p: TouchPoint)
    ensures
        button_at(p) is None <==> !(292 <= p.y < 320),
        button_at(p) == Some(Screen::Weather) <==> 292 <= p.y < 320 && p.x < 120,
        button_at(p) == Some(Screen::Radar) <==> 292 <= p.y < 320 && 120 <= p.x,
{
}

/// A scene with the radar screen's status line.
pub open spec fn radar_status_drawn(base: Seq<Op>, status: Seq<char>) -> Seq<Op> {
    base.push(fill_op(0, TOOLBAR_TOP - 20, W as int, 20, Ink::Background)).push(
        text_op(
            status,
            W as int / 2,
            TOOLBAR_TOP - 16,
            Font::Six10,
            Ink::Muted,
            Align::Center,
        ),
    )
}

/// A new status of the radar screen covers the line above the toolbar, and nothing else, and is
/// written into it.
pub proof fn law_radar_status_replaces_the_line(base: Seq<Op>, status: Seq<char>)
    ensures
        ({
            let s = radar_status_drawn(base, status);
            let n = base.len() as int;
            &&& s.len() == n + 2
            &&& s.take(n) == base
            &&& s[n] == (DrawOp::<Seq<char>>::Fill { x: 0, y: 272, w: 240, h: 20, ink: Ink::Background })
            &&& s[n + 1] == (DrawOp::Text {
                text: status,
                x: 120,
                y: 276,
                font: Font::Six10,
                ink: Ink::Muted,
                align: Align::Center,
            })
        }),
{
    assert(radar_status_drawn(base, status).take(base.len() as int) =~= base);
}

/// Update just the status line below the radar view.
pub fn draw_radar_status(scene: &mut Scene, status: &str)
    ensures
        final(scene)@ == radar_status_drawn(old(scene)@, status@),
{
    let top: i32 = TOOLBAR_TOP - 20;
    scene.fill(0, top, W as u32, (TOOLBAR_TOP - top) as u32, Ink::Background);
    scene.text(status, W / 2, top + 4, Font::Six10, Ink::Muted, Align::Center);
}

/// A scene with the static parts of the radar screen.
pub open spec fn radar_chrome_drawn(
    base: Seq<Op>,
    title: Seq<char>,
    status: Seq<char>,
) -> Seq<Op> {
    radar_status_drawn(
        cleared(base).push(
            text_op(title, W as int / 2, 4, Font::Six13, Ink::Accent, Align::Center),
        ),
        status,
    )
}

/// The radar screen covers what was there and has its title at the top and its status above the
/// toolbar.
pub proof fn law_radar_chrome_has_title_and_status(
    base: Seq<Op>,
    title: Seq<char>,
    status: Seq<char>,
)
    ensures
        ({
            let s = radar_chrome_drawn(base, title, status);
            let n = base.len() as int;
            &&& s.len() == n + 4
            &&& s.take(n) == base
            &&& s[n] is Clear && s[n]->Clear_ink is Background
            &&& s[n + 1] == (DrawOp::Text {
                text: title,
                x: 120,
                y: 4,
                font: Font::Six13,
                ink: Ink::Accent,
                align: Align::Center,
            })
            &&& s[n + 2] == (DrawOp::<Seq<char>>::Fill { x: 0, y: 272, w: 240, h: 20, ink: Ink::Background })
            &&& s[n + 3] == (DrawOp::Text {
                text: status,
                x: 120,
                y: 276,
                font: Font::Six10,
                ink: Ink::Muted,
                align: Align::Center,
            })
        }),
{
    assert(radar_chrome_drawn(base, title, status).take(base.len() as int) =~= base);
}

/// Draw the static parts of the radar screen (title + status line area).
///
/// The radar frames themselves are streamed straight to the panel.
pub fn draw_radar_chrome(scene: &mut Scene, title: &str, status: &str)
    ensures
        final(scene)@ == radar_chrome_drawn(old(scene)@, title@, status@),
{
    clear(scene);
    scene.text(title, W / 2, 4, Font::Six13, Ink::Accent, Align::Center);
    draw_radar_status(scene, status);
}

/// A scene with an error banner at the top.
pub open spec fn banner_drawn(base: Seq<Op>, message: Seq<char>) -> Seq<Op> {
    base.push(fill_op(0, 0, W as int, 16, Ink::Warn)).push(
        text_op(message, W as int / 2, 2, Font::Six10, Ink::Black, Align::Center),
    )
}

/// A banner goes over the top of what is there, across the panel, in the colour of warnings, with
/// its message in the middle.
pub proof fn law_banner_lies_on_top(base: Seq<Op>, message: Seq<char>)
    ensures
        ({
            let s = banner_drawn(base, message);
            let n = base.len() as int;
            &&& s.len() == n + 2
            &&& s.take(n) == base
            &&& s[n] == (DrawOp::<Seq<char>>::Fill { x: 0, y: 0, w: 240, h: 16, ink: Ink::Warn })
            &&& s[n + 1] == (DrawOp::Text {
                text: message,
                x: 120,
                y: 2,
                font: Font::Six10,
                ink: Ink::Black,
                align: Align::Center,
            })
        }),
{
    assert(banner_drawn(base, message).take(base.len() as int) =~= base);
}

/// Render an error banner over the (possibly stale) weather screen.
pub fn draw_error_banner(scene: &mut Scene, message: &str)
    ensures
        final(scene)@ == banner_drawn(old(scene)@, message@),
{
    scene.fill(0, 0, W as u32, 16, Ink::Warn);
    scene.text(message, W / 2, 2, Font::Six10, Ink::Black, Align::Center);
}

} // verus!
