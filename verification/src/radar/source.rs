//! Where radar tiles come from.

use vstd::prelude::*;
use vstd::string::StringExecFns;

use crate::config::{RADAR_COLOR_SCHEME, RADAR_ZOOM};
use crate::text::{decimal, push_decimal};

verus! {

/// RainViewer public radar tiles (past observations + nowcast).
#[derive(Debug, Clone, Copy, PartialEq, Eq, Structural)]
pub struct RainViewer {
    pub zoom: u8,
    pub color_scheme: u8,
}

impl Default for RainViewer {
    fn default() -> (r: Self)
        ensures
            r.zoom == RADAR_ZOOM,
            r.color_scheme == RADAR_COLOR_SCHEME,
    {
        RainViewer { zoom: RADAR_ZOOM, color_scheme: RADAR_COLOR_SCHEME }
    }
}

/// RainViewer's index: the server, and the paths of its frames in the order of time.
pub struct RvIndex {
    pub host: String,
    pub past: Vec<String>,
    pub nowcast: Vec<String>,
}

/// Why there is nothing to show.
#[derive(Debug, Clone, Copy, PartialEq, Eq, Structural)]
pub enum RadarError {
    /// The index has no frames.
    NoFrames,
    /// No tile could be downloaded.
    NoTiles,
    /// No frame could be decoded.
    NoneDecoded,
}

/// The last `n` of the frames.
pub open spec fn latest(all: Seq<String>, n: nat) -> Seq<String> {
    if all.len() > n {
        all.skip(all.len() - n)
    } else {
        all
    }
}

/// The frames of an index that are shown, up to `max_frames` of them.
pub open spec fn shown_frames(index: RvIndex, max_frames: nat) -> Seq<String> {
    latest(index.past@ + index.nowcast@, max_frames)
}

/// The frames shown are the latest there are, in the order of time: first those of the past, then
/// those that are forecast, with none left out between them. There are as many as allowed, or all
/// if there are no more.
pub proof fn law_latest_frames_in_order(index: RvIndex, max_frames: nat, i: int)
    ensures
        ({
            let p = index.past@.len() as int;
            let all = p + index.nowcast@.len();
            let shown = shown_frames(index, max_frames);
            let k = all - shown.len() + i;
            &&& all <= max_frames ==> shown.len() == all
            &&& all > max_frames ==> shown.len() == max_frames
            &&& 0 <= i < shown.len() ==> shown[i] == if k < p {
                index.past@[k]
            } else {
                index.nowcast@[k - p]
            }
        }),
{
}

/// The address of a frame's tiles, with places for zoom level and tile.
pub open spec fn tile_template(host: Seq<char>, frame: Seq<char>, scheme: u8) -> Seq<char> {
    host + frame + "/256/{z}/{x}/{y}/"@ + decimal(scheme as nat) + "/1_1.png"@
}

impl RainViewer {
    /// Templates of the tile URLs of up to `max_frames` frames, the latest there are, ordered
    /// oldest-first so they animate forwards.
    pub fn frame_urls(&self, index: &RvIndex, max_frames: usize) -> (r: Result<
        Vec<String>,
        RadarError,
    >)
        ensures
            ({
                let chosen = shown_frames(*index, max_frames as nat);
                if chosen.len() == 0 {
                    r == Err::<Vec<String>, RadarError>(RadarError::NoFrames)
                } else {
                    &&& r matches Ok(urls)
                    &&& urls@.len() == chosen.len()
                    &&& forall|i: int|
                        0 <= i < urls@.len() ==> (#[trigger] urls@[i])@ == tile_template(
                            index.host@,
                            chosen[i]@,
                            self.color_scheme,
                        )
                }
            }),
    {
        let ghost all = index.past@ + index.nowcast@;
        let ghost chosen = latest(all, max_frames as nat);
        let past: usize = index.past.len();
        let future: usize = index.nowcast.len();
        // Of the nowcast the last frames count first, then the past fills up what is left.
        let late: usize = if future > max_frames {
            max_frames
        } else {
            future
        };
        let early: usize = if past > max_frames - late {
            max_frames - late
        } else {
            past
        };
        let mut urls: Vec<String> = Vec::new();
        let mut i: usize = past - early;
        proof {
            assert(chosen.len() == early + late);
        }
        while i < past
            invariant
                past == index.past@.len(),
                future == index.nowcast@.len(),
                late <= future,
                early <= past,
                past - early <= i <= past,
                all == index.past@ + index.nowcast@,
                chosen == latest(all, max_frames as nat),
                chosen.len() == early + late,
                late == future || early == 0,
                urls@.len() == i - (past - early),
                forall|j: int|
                    0 <= j < urls@.len() ==> (#[trigger] urls@[j])@ == tile_template(
                        index.host@,
                        chosen[j]@,
                        self.color_scheme,
                    ),
            decreases past - i,
        {
            assert(chosen[i - (past - early)] == index.past@[i as int]);
            urls.push(self.template(index.host.as_str(), index.past[i].as_str()));
            i = i + 1;
        }
        let mut k: usize = future - late;
        while k < future
            invariant
                past == index.past@.len(),
                future == index.nowcast@.len(),
                late <= future,
                early <= past,
                future - late <= k <= future,
                all == index.past@ + index.nowcast@,
                chosen == latest(all, max_frames as nat),
                chosen.len() == early + late,
                late == future || early == 0,
                urls@.len() == early + (k - (future - late)),
                forall|j: int|
                    0 <= j < urls@.len() ==> (#[trigger] urls@[j])@ == tile_template(
                        index.host@,
                        chosen[j]@,
                        self.color_scheme,
                    ),
            decreases future - k,
        {
            assert(chosen[early + (k - (future - late))] == index.nowcast@[k as int]);
            urls.push(self.template(index.host.as_str(), index.nowcast[k].as_str()));
            k = k + 1;
        }
        if urls.len() == 0 {
            return Err(RadarError::NoFrames);
        }
        Ok(urls)
    }

    fn template(&self, host: &str, frame: &str) -> (url: String)
        ensures
            url@ == tile_template(host@, frame@, self.color_scheme),
    {
        let mut url: String = host.to_owned();
        url.append(frame);
        url.append("/256/{z}/{x}/{y}/");
        push_decimal(&mut url, self.color_scheme as u64);
        url.append("/1_1.png");
        url
    }
}

/// What stands for a placeholder.
pub open spec fn placeholder(c: char, z: u8, x: u32, y: u32) -> Option<Seq<char>> {
    if c == 'z' {
        Some(decimal(z as nat))
    } else if c == 'x' {
        Some(decimal(x as nat))
    } else if c == 'y' {
        Some(decimal(y as nat))
    } else {
        None
    }
}

/// A template with its placeholders `{z}`, `{x}` and `{y}` filled in.
pub open spec fn filled_in(t: Seq<char>, z: u8, x: u32, y: u32) -> Seq<char>
    decreases t.len(),
{
    if t.len() == 0 {
        Seq::empty()
    } else if t.len() >= 3 && t[0] == '{' && t[2] == '}' && placeholder(t[1], z, x, y) is Some {
        placeholder(t[1], z, x, y)->0 + filled_in(t.skip(3), z, x, y)
    } else {
        seq![t[0]] + filled_in(t.skip(1), z, x, y)
    }
}

/// Fill in the placeholders `{z}`, `{x}` and `{y}` of a template.
pub fn tile_url(template: &str, z: u8, x: u32, y: u32) -> (url: String)
    ensures
        url@ == filled_in(template@, z, x, y),
{
    let n: usize = template.unicode_len();
    let mut url: String = String::new();
    let mut at: usize = 0;
    assert(template@.skip(0) =~= template@);
    assert(url@ + filled_in(template@, z, x, y) =~= filled_in(template@, z, x, y));
    while at < n
        invariant
            n == template@.len(),
            at <= n,
            filled_in(template@, z, x, y) == url@ + filled_in(template@.skip(at as int), z, x, y),
        decreases n - at,
    {
        let ghost rest = template@.skip(at as int);
        let ghost before = url@;
        if n - at >= 3 && template.get_char(at) == '{' && template.get_char(at + 2) == '}' {
            let c: char = template.get_char(at + 1);
            let value: Option<u64> = if c == 'z' {
                Some(z as u64)
            } else if c == 'x' {
                Some(x as u64)
            } else if c == 'y' {
                Some(y as u64)
            } else {
                None
            };
            assert(c == rest[1]);
            match value {
                Some(v) => {
                    push_decimal(&mut url, v);
                    proof {
                        assert(rest.skip(3) =~= template@.skip(at + 3));
                        let tail = filled_in(rest.skip(3), z, x, y);
                        assert(before + (decimal(v as nat) + tail) =~= before + decimal(v as nat)
                            + tail);
                    }
                    at = at + 3;
                    continue;
                },
                None => {},
            }
        }
        url.push(template.get_char(at));
        proof {
            assert(rest.skip(1) =~= template@.skip(at + 1));
            let tail = filled_in(rest.skip(1), z, x, y);
            assert(before + (seq![rest[0]] + tail) =~= before.push(rest[0]) + tail);
        }
        at = at + 1;
    }
    assert(url@ + filled_in(template@.skip(n as int), z, x, y) =~= url@);
    url
}

/// No placeholder begins in a text.
pub open spec fn without_braces(s: Seq<char>) -> bool {
    forall|i: int| 0 <= i < s.len() ==> #[trigger] s[i] != '{'
}

proof fn lemma_plain_prefix(a: Seq<char>, b: Seq<char>, z: u8, x: u32, y: u32)
    requires
        without_braces(a),
    ensures
        filled_in(a + b, z, x, y) == a + filled_in(b, z, x, y),
    decreases a.len(),
{
    if a.len() == 0 {
        assert(a + b =~= b);
        assert(a + filled_in(b, z, x, y) =~= filled_in(b, z, x, y));
    } else {
        assert((a + b)[0] == a[0]);
        assert((a + b).skip(1) =~= a.skip(1) + b);
        lemma_plain_prefix(a.skip(1), b, z, x, y);
        assert(seq![a[0]] + (a.skip(1) + filled_in(b, z, x, y)) =~= a + filled_in(b, z, x, y));
    }
}

/// Each placeholder is replaced by its number, wherever it stands and how often it does; what is no
/// placeholder stays.
pub proof fn law_placeholders_are_filled_in(
    before: Seq<char>,
    after: Seq<char>,
    z: u8,
    x: u32,
    y: u32,
)
    requires
        without_braces(before),
    ensures
        filled_in(before, z, x, y) == before,
        filled_in(before + seq!['{', 'z', '}'] + after, z, x, y) == before + decimal(z as nat)
            + filled_in(after, z, x, y),
        filled_in(before + seq!['{', 'x', '}'] + after, z, x, y) == before + decimal(x as nat)
            + filled_in(after, z, x, y),
        filled_in(before + seq!['{', 'y', '}'] + after, z, x, y) == before + decimal(y as nat)
            + filled_in(after, z, x, y),
{
    lemma_plain_prefix(before, Seq::empty(), z, x, y);
    assert(before + Seq::<char>::empty() =~= before);
    lemma_placeholder(before, after, 'z', z, x, y);
    lemma_placeholder(before, after, 'x', z, x, y);
    lemma_placeholder(before, after, 'y', z, x, y);
}

proof fn lemma_placeholder(
    before: Seq<char>,
    after: Seq<char>,
    c: char,
    z: u8,
    x: u32,
    y: u32,
)
    requires
        without_braces(before),
        placeholder(c, z, x, y) is Some,
    ensures
        filled_in(before + seq!['{', c, '}'] + after, z, x, y) == before + placeholder(
            c,
            z,
            x,
            y,
        )->0 + filled_in(after, z, x, y),
{
    let t = seq!['{', c, '}'] + after;
    lemma_plain_prefix(before, t, z, x, y);
    assert(before + seq!['{', c, '}'] + after =~= before + t);
    assert(t[0] == '{' && t[1] == c && t[2] == '}');
    assert(t.skip(3) =~= after);
    let v = placeholder(c, z, x, y)->0;
    let rest = filled_in(after, z, x, y);
    assert(before + (v + rest) =~= before + v + rest);
}

proof fn lemma_digits_plain(n: nat)
    ensures
        without_braces(decimal(n)),
    decreases n,
{
    if n >= 10 {
        lemma_digits_plain(n / 10);
    }
}

/// Filled in, a template is the address of the tile: server, frame, tile size, zoom level, tile
/// and colour scheme.
pub proof fn law_template_gives_tile_address(
    host: Seq<char>,
    frame: Seq<char>,
    scheme: u8,
    z: u8,
    x: u32,
    y: u32,
)
    requires
        without_braces(host),
        without_braces(frame),
    ensures
        filled_in(tile_template(host, frame, scheme), z, x, y) == host + frame + "/256/"@
            + decimal(z as nat) + "/"@ + decimal(x as nat) + "/"@ + decimal(y as nat) + "/"@
            + decimal(scheme as nat) + "/1_1.png"@,
{
    let tail = decimal(scheme as nat) + "/1_1.png"@;
    reveal_strlit("/256/{z}/{x}/{y}/");
    reveal_strlit("/256/");
    reveal_strlit("/");
    reveal_strlit("/1_1.png");
    lemma_digits_plain(scheme as nat);
    let slash = "/"@;
    let behind_y = slash + tail;
    let behind_x = slash + seq!['{', 'y', '}'] + behind_y;
    let behind_z = slash + seq!['{', 'x', '}'] + behind_x;
    let pre = host + frame + "/256/"@;
    assert("/256/{z}/{x}/{y}/"@ =~= "/256/"@ + seq!['{', 'z', '}'] + slash + seq!['{', 'x', '}']
        + slash + seq!['{', 'y', '}'] + slash);
    assert(tile_template(host, frame, scheme) =~= pre + seq!['{', 'z', '}'] + behind_z);
    law_placeholders_are_filled_in(behind_y, Seq::empty(), z, x, y);
    law_placeholders_are_filled_in(slash, behind_y, z, x, y);
    law_placeholders_are_filled_in(slash, behind_x, z, x, y);
    law_placeholders_are_filled_in(pre, behind_z, z, x, y);
    let dz = decimal(z as nat);
    let dx = decimal(x as nat);
    let dy = decimal(y as nat);
    assert(pre + dz + (slash + dx + (slash + dy + behind_y)) =~= host + frame + "/256/"@ + dz
        + "/"@ + dx + "/"@ + dy + "/"@ + decimal(scheme as nat) + "/1_1.png"@);
}

} // verus!
