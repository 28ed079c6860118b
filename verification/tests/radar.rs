use cyd_weather::draw::{DrawOp, Ink, Scene};
use cyd_weather::png_stream::error::PngError;
use cyd_weather::png_stream::format::{ColorType, Format, Row};
use cyd_weather::png_stream::inflate::Scratch;
use cyd_weather::radar::frame::{
    band_pixels, blend, blend_flat, blend_over, blit_frame, read_header, rgb565, split565,
    write_header, Band, FrameError,
};
use cyd_weather::radar::geometry::{tile_count, tile_index, Geometry};
use cyd_weather::radar::sink::{decode_to_frame, CropError, TileError};
use cyd_weather::radar::source::{tile_url, RadarError, RainViewer, RvIndex};
use cyd_weather::radar::staging::{
    frame_path, frame_tile_path, staged_frames, tile_path, Staging,
};
use cyd_weather::radar::view::{blend_row, draw_crosshair, Patch, RadarView, VIEW_SIZE};

fn chunk(kind: &[u8; 4], data: &[u8]) -> Vec<u8> {
    let mut out = Vec::new();
    out.extend_from_slice(&(data.len() as u32).to_be_bytes());
    out.extend_from_slice(kind);
    out.extend_from_slice(data);
    out.extend_from_slice(&[0; 4]);
    out
}

fn gray_png(width: u32, rows: &[Vec<u8>], height: u32) -> Vec<u8> {
    let mut out = vec![0x89, b'P', b'N', b'G', 0x0d, 0x0a, 0x1a, 0x0a];
    let mut ihdr = Vec::new();
    ihdr.extend_from_slice(&width.to_be_bytes());
    ihdr.extend_from_slice(&height.to_be_bytes());
    ihdr.extend_from_slice(&[8, 0, 0, 0, 0]);
    out.extend(chunk(b"IHDR", &ihdr));
    let mut raw = Vec::new();
    for r in rows {
        raw.push(0);
        raw.extend_from_slice(r);
    }
    out.extend(chunk(b"IDAT", &miniz_oxide::deflate::compress_to_vec_zlib(&raw, 6)));
    out.extend(chunk(b"IEND", &[]));
    out
}

fn gray565(v: u8) -> [u8; 2] {
    rgb565(v, v, v).to_le_bytes()
}

#[test]
fn colours_are_packed() {
    assert_eq!(rgb565(255, 255, 255), 0xffff);
    assert_eq!(rgb565(255, 0, 0), 0xf800);
    assert_eq!(rgb565(0, 255, 0), 0x07e0);
    assert_eq!(rgb565(0, 0, 255), 0x001f);
    assert_eq!(rgb565(8, 12, 20), 0x0862);
    assert_eq!(split565(0xffff), (255, 255, 255));
    assert_eq!(split565(0x0862), (8, 12, 16));
}

#[test]
fn packing_is_stable_for_every_colour() {
    for v in 0..=u16::MAX {
        let (r, g, b) = split565(v);
        assert_eq!(rgb565(r, g, b), v);
    }
}

#[test]
fn blending_mixes_by_alpha() {
    assert_eq!(blend(200, 255, 8), 200);
    assert_eq!(blend(200, 0, 8), 8);
    assert_eq!(blend(255, 128, 0), 128);
    assert_eq!(blend(0, 128, 255), 127);
    assert_eq!(blend(10, 100, 20), 16);
}

#[test]
fn pixels_are_laid_over_the_background_or_a_frame() {
    assert_eq!(blend_flat((255, 0, 0, 0)), rgb565(8, 12, 20));
    assert_eq!(blend_flat((255, 0, 0, 255)), 0xf800);
    assert_eq!(blend_over((1, 2, 3, 0), 0xabcd), 0xabcd);
    assert_eq!(blend_over((0, 255, 0, 255), 0xabcd), 0x07e0);
    assert_eq!(blend_over((0, 0, 0, 128), 0xffff), rgb565(127, 127, 127));
}

#[test]
fn frame_header_reads_back() {
    let mut out = vec![9u8];
    write_header(&mut out, 240, 300);
    assert_eq!(out, vec![9, b'R', b'5', b'6', b'5', 240, 0, 44, 1]);
    assert_eq!(read_header(&out[1..]), Ok((240, 300)));
    assert_eq!(read_header(b"R566\x01\0\x01\0"), Err(FrameError::NotFrame));
    assert_eq!(read_header(b"R565\0\0\x01\0"), Err(FrameError::Empty));
    assert_eq!(read_header(b"R565\x01\0\0\0"), Err(FrameError::Empty));
}

#[test]
fn bands_cover_the_frame() {
    let mut row = 0u16;
    let mut seen = Vec::new();
    while row < 10 {
        let b = blit_frame(5, 24, 240, 10, row);
        seen.push(b);
        row += b.rows;
    }
    assert_eq!(
        seen,
        vec![
            Band { rows: 4, bytes: 1920, x0: 5, y0: 24, x1: 244, y1: 27 },
            Band { rows: 4, bytes: 1920, x0: 5, y0: 28, x1: 244, y1: 31 },
            Band { rows: 2, bytes: 960, x0: 5, y0: 32, x1: 244, y1: 33 },
        ]
    );
    assert_eq!(band_pixels(&[0x34, 0x12, 0xff, 0x00, 7]), vec![0x1234, 0x00ff]);
}

#[test]
fn crop_is_centred_within_the_tile() {
    let g = Geometry::centered_on(128, 0);
    assert_eq!(
        g,
        Geometry { crop_x: 8, crop_y: 0, crop_w: 240, crop_h: 240, out_w: 240, out_h: 240 }
    );
    let g = Geometry::centered_on(255, 121);
    assert_eq!((g.crop_x, g.crop_y), (16, 1));
}

#[test]
fn tiles_are_held_to_the_map() {
    assert_eq!(tile_count(0), 1);
    assert_eq!(tile_count(7), 128);
    assert_eq!(tile_index(5, 7), 5);
    assert_eq!(tile_index(128, 7), 127);
    assert_eq!(tile_index(3, 0), 0);
    assert_eq!(tile_count(31), 0x8000_0000);
    assert_eq!(tile_index(u32::MAX, 31), 0x7fff_ffff);
}

#[test]
fn tile_becomes_a_frame() {
    // Eight columns and six rows, of which the middle is cropped and halved.
    let rows: Vec<Vec<u8>> = (0..6u8).map(|y| (0..8u8).map(|x| y * 40 + x).collect()).collect();
    let src = gray_png(8, &rows, 6);
    let g = Geometry { crop_x: 2, crop_y: 1, crop_w: 4, crop_h: 4, out_w: 2, out_h: 2 };
    let frame = decode_to_frame(&src, &g, &mut Scratch::new()).unwrap();
    let mut want = b"R565\x02\0\x02\0".to_vec();
    for v in [42u8, 44, 122, 124] {
        want.extend_from_slice(&gray565(v));
    }
    assert_eq!(frame, want);
    // Enlarged: rows and columns are repeated.
    let g = Geometry { crop_x: 0, crop_y: 0, crop_w: 1, crop_h: 2, out_w: 2, out_h: 3 };
    let frame = decode_to_frame(&src, &g, &mut Scratch::new()).unwrap();
    assert_eq!(frame.len(), 8 + 2 * 2 * 3);
    let mut want = b"R565\x02\0\x03\0".to_vec();
    for v in [0u8, 0, 0, 0, 40, 40] {
        want.extend_from_slice(&gray565(v));
    }
    assert_eq!(frame, want);
}

#[test]
fn tile_needs_only_the_rows_of_its_crop() {
    let rows: Vec<Vec<u8>> = (0..3u8).map(|y| vec![y; 4]).collect();
    let short = gray_png(4, &rows, 6);
    let g = Geometry { crop_x: 0, crop_y: 0, crop_w: 4, crop_h: 3, out_w: 4, out_h: 3 };
    assert!(decode_to_frame(&short, &g, &mut Scratch::new()).is_ok());
    let g = Geometry { crop_x: 0, crop_y: 1, crop_w: 4, crop_h: 3, out_w: 4, out_h: 3 };
    assert_eq!(
        decode_to_frame(&short, &g, &mut Scratch::new()),
        Err(TileError::Png(PngError::EndedAfter(3, 6)))
    );
}

#[test]
fn crop_outside_the_tile_is_refused() {
    let src = gray_png(4, &[vec![0; 4], vec![0; 4]], 2);
    let g = Geometry { crop_x: 1, crop_y: 0, crop_w: 4, crop_h: 1, out_w: 1, out_h: 1 };
    let refused = Err(TileError::Crop(CropError { width: 4, height: 2 }));
    assert_eq!(decode_to_frame(&src, &g, &mut Scratch::new()), refused);
    let g = Geometry { crop_x: 0, crop_y: u32::MAX, crop_w: 1, crop_h: 2, out_w: 1, out_h: 1 };
    assert_eq!(decode_to_frame(&src, &g, &mut Scratch::new()), refused);
    assert_eq!(
        decode_to_frame(b"nonsense", &g, &mut Scratch::new()),
        Err(TileError::Png(PngError::NotPng))
    );
}

#[test]
fn window_is_centred_on_the_map() {
    let v = RadarView::centered_on(10_000, 20_000, 7);
    assert_eq!(v, RadarView { x0: 9_880, y0: 19_880, zoom: 7 });
    let v = RadarView::centered_on(0, 40_000, 7);
    assert_eq!(v, RadarView { x0: 0, y0: 32_768 - 240, zoom: 7 });
    assert_eq!(RadarView::centered_on(200, 20, 0), RadarView { x0: 16, y0: 0, zoom: 0 });
}

#[test]
fn window_is_filled_by_patches() {
    let v = RadarView { x0: 9_880, y0: 512, zoom: 7 };
    assert_eq!(
        v.tiles(),
        vec![
            Patch { tile_x: 38, tile_y: 2, crop_x: 152, crop_y: 0, w: 104, h: 240, dest_x: 0, dest_y: 0 },
            Patch { tile_x: 39, tile_y: 2, crop_x: 0, crop_y: 0, w: 136, h: 240, dest_x: 104, dest_y: 0 },
        ]
    );
    let v = RadarView { x0: 300, y0: 700, zoom: 7 };
    let patches = v.tiles();
    assert_eq!(patches.len(), 4);
    for j in 0..240u32 {
        for i in 0..240u32 {
            let hits: Vec<&Patch> = patches
                .iter()
                .filter(|p| {
                    p.dest_x <= i && i < p.dest_x + p.w && p.dest_y <= j && j < p.dest_y + p.h
                })
                .collect();
            assert_eq!(hits.len(), 1);
            let p = hits[0];
            assert_eq!(p.tile_x * 256 + p.crop_x + i - p.dest_x, 300 + i);
            assert_eq!(p.tile_y * 256 + p.crop_y + j - p.dest_y, 700 + j);
        }
    }
    assert_eq!(RadarView { x0: 16, y0: 17, zoom: 1 }.tiles().len(), 2);
    assert_eq!(RadarView { x0: 16, y0: 16, zoom: 0 }.tiles().len(), 1);
}

#[test]
fn patch_rows_have_their_place_in_the_file() {
    let p = Patch { tile_x: 0, tile_y: 0, crop_x: 3, crop_y: 10, w: 5, h: 2, dest_x: 7, dest_y: 4 };
    assert_eq!(p.row_span(9), None);
    assert_eq!(p.row_span(10), Some((8 + (4 * 240 + 7) * 2, 10)));
    assert_eq!(p.row_span(11), Some((8 + (5 * 240 + 7) * 2, 10)));
    assert_eq!(p.row_span(12), None);
    assert!(p.fits(8, 12));
    assert!(!p.fits(7, 12));
    assert!(!p.fits(8, 11));
}

#[test]
fn rows_are_blended_into_the_frame() {
    let format = Format {
        color: ColorType::GrayscaleAlpha,
        depth: 8,
        palette: vec![],
        transparency: vec![],
    };
    let data = [9u8, 9, 255, 255, 0, 0, 100, 255];
    let row = Row { data: &data, format: &format };
    let p = Patch { tile_x: 0, tile_y: 0, crop_x: 1, crop_y: 0, w: 3, h: 1, dest_x: 0, dest_y: 0 };
    let mut pixels = vec![1u8, 2, 3, 4, 5, 6];
    blend_row(&row, &p, &mut pixels);
    let gray = gray565(100);
    assert_eq!(pixels, vec![0xff, 0xff, 3, 4, gray[0], gray[1]]);
}

fn index(past: &[&str], nowcast: &[&str]) -> RvIndex {
    RvIndex {
        host: "https://tiles".to_string(),
        past: past.iter().map(|s| s.to_string()).collect(),
        nowcast: nowcast.iter().map(|s| s.to_string()).collect(),
    }
}

#[test]
fn latest_frames_are_chosen_oldest_first() {
    let rv = RainViewer { zoom: 7, color_scheme: 4 };
    let urls = rv.frame_urls(&index(&["/a", "/b", "/c"], &["/d", "/e"]), 3).unwrap();
    assert_eq!(
        urls,
        vec![
            "https://tiles/c/256/{z}/{x}/{y}/4/1_1.png",
            "https://tiles/d/256/{z}/{x}/{y}/4/1_1.png",
            "https://tiles/e/256/{z}/{x}/{y}/4/1_1.png",
        ]
    );
    let urls = rv.frame_urls(&index(&["/a"], &["/d", "/e"]), 1).unwrap();
    assert_eq!(urls, vec!["https://tiles/e/256/{z}/{x}/{y}/4/1_1.png"]);
    assert_eq!(rv.frame_urls(&index(&["/a", "/b"], &[]), 9).unwrap().len(), 2);
    assert_eq!(rv.frame_urls(&index(&[], &[]), 9), Err(RadarError::NoFrames));
    assert_eq!(rv.frame_urls(&index(&["/a"], &[]), 0), Err(RadarError::NoFrames));
}

#[test]
fn default_source_uses_the_configured_zoom_and_colours() {
    let rv = RainViewer::default();
    assert_eq!(rv.zoom, cyd_weather::config::RADAR_ZOOM);
    assert_eq!(rv.color_scheme, cyd_weather::config::RADAR_COLOR_SCHEME);
}

#[test]
fn templates_are_filled_in() {
    assert_eq!(
        tile_url("https://tiles/c/256/{z}/{x}/{y}/4/1_1.png", 7, 28, 51),
        "https://tiles/c/256/7/28/51/4/1_1.png"
    );
    assert_eq!(tile_url("{x}{q}{y", 1, 2, 3), "2{q}{y");
    assert_eq!(tile_url(cyd_weather::config::BASEMAP_TILE_URL, 3, 4, 5).ends_with("/3/4/5.png"), true);
}

#[test]
fn files_have_their_names() {
    assert_eq!(frame_path(0), "/sdcard/radar/frame_0.rgb565");
    assert_eq!(frame_path(12), "/sdcard/radar/frame_12.rgb565");
    assert_eq!(tile_path(3), "/sdcard/radar/tile_3.png");
    assert_eq!(frame_tile_path(2, 3), "/sdcard/radar/tile_11.png");
    assert_eq!(frame_tile_path(3, 0), "/sdcard/radar/tile_12.png");
    assert_eq!(
        RadarView { x0: 9_880, y0: 512, zoom: 7 }.basemap_path(),
        "/sdcard/radar/base_7_9880_512.rgb565"
    );
}

#[test]
fn staged_frames_stop_at_the_first_gap() {
    assert_eq!(staged_frames(&vec![]), 0);
    assert_eq!(staged_frames(&vec![true, true, false, true]), 2);
    assert_eq!(staged_frames(&vec![false, true]), 0);
    assert_eq!(staged_frames(&vec![true; 3]), 3);
}

#[test]
fn staging_counts_successes() {
    let mut s = Staging::new();
    assert_eq!(s.download_tiles(), Err(RadarError::NoTiles));
    assert_eq!(s.decode_tiles(), Err(RadarError::NoneDecoded));
    let mut numbers = Vec::new();
    for ok in [true, false, true, true, false] {
        numbers.push(s.next());
        s.record(ok);
    }
    assert_eq!(numbers, vec![0, 1, 1, 2, 3]);
    assert_eq!(s.download_tiles(), Ok(3));
    assert_eq!(s.decode_tiles(), Ok(3));
    let stale = s.stale_frames();
    assert_eq!(stale.len(), cyd_weather::config::RADAR_FRAME_COUNT - 3);
    assert_eq!(stale[0], frame_path(3));
}

#[test]
fn position_stands_in_the_middle_of_its_window() {
    let v = RadarView::centered_on(10_000, 20_000, 7);
    assert_eq!(v.locate(10_000, 20_000), Some((120, 120)));
    assert_eq!(v.locate(9_880, 20_119), Some((0, 239)));
    assert_eq!(v.locate(9_879, 20_000), None);
    assert_eq!(v.locate(10_120, 20_000), None);
    assert_eq!(v.locate(10_000, 20_120), None);
    // At the edge of the map it still shows.
    assert_eq!(RadarView::centered_on(3, 32_767, 7).locate(3, 32_767), Some((3, 239)));
}

#[test]
fn crosshair_marks_a_place() {
    let mut scene = Scene::new();
    draw_crosshair(&mut scene, 120, 144);
    assert_eq!(
        scene.ops,
        vec![
            DrawOp::Line { x1: 114, y1: 144, x2: 126, y2: 144, ink: Ink::Warn, width: 1 },
            DrawOp::Line { x1: 120, y1: 138, x2: 120, y2: 150, ink: Ink::Warn, width: 1 },
        ]
    );
}

#[test]
fn tiles_make_up_a_frame() {
    let size = VIEW_SIZE as usize;
    let view = RadarView { x0: 256 + 100, y0: 512 + 30, zoom: 7 };
    let format = Format {
        color: ColorType::GrayscaleAlpha,
        depth: 8,
        palette: vec![],
        transparency: vec![],
    };
    let mut file = Vec::new();
    write_header(&mut file, 240, 240);
    file.resize(8 + size * size * 2, 0x55);
    let mut drawn = 0;
    for p in view.tiles() {
        for y in 0..256u32 {
            // A tile whose every other pixel is clear, the others telling where they are.
            let line: Vec<u8> = (0..256u32)
                .flat_map(|x| {
                    let at = (p.tile_x * 256 + x) ^ (p.tile_y * 256 + y);
                    [at as u8, if x % 2 == 0 { 255 } else { 0 }]
                })
                .collect();
            if let Some((offset, len)) = p.row_span(y) {
                let offset = offset as usize;
                let mut pixels = file[offset..offset + len].to_vec();
                blend_row(&Row { data: &line, format: &format }, &p, &mut pixels);
                file[offset..offset + len].copy_from_slice(&pixels);
                drawn += 1;
            }
            assert_eq!(p.goes_on(y), y + 1 < p.crop_y + p.h);
        }
    }
    assert_eq!(drawn, 2 * size);
    assert_eq!(read_header(&file[..8]), Ok((240, 240)));
    for j in 0..size {
        for i in 0..size {
            let at = 8 + (j * size + i) * 2;
            let (x, y) = (view.x0 + i as u32, view.y0 + j as u32);
            let want = if x % 2 == 0 { gray565((x ^ y) as u8) } else { [0x55, 0x55] };
            assert_eq!([file[at], file[at + 1]], want);
        }
    }
}

#[test]
fn basemaps_of_other_windows_are_stale() {
    let v = RadarView { x0: 9_880, y0: 512, zoom: 7 };
    assert!(!v.is_stale_basemap("base_7_9880_512.rgb565"));
    assert!(v.is_stale_basemap("base_7_988_512.rgb565"));
    assert!(v.is_stale_basemap("base_8_9880_512.rgb565"));
    assert!(v.is_stale_basemap("base_"));
    assert!(!v.is_stale_basemap("base"));
    assert!(!v.is_stale_basemap("frame_0.rgb565"));
    assert!(!v.is_stale_basemap(""));
}
