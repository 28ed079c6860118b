use cyd_weather::png_stream::decoder::{decode, read_header, DataReader, DataStep};
use cyd_weather::png_stream::error::{InflateStatus, PngError};
use cyd_weather::png_stream::filter::{paeth, unfilter};
use cyd_weather::png_stream::format::{sub_byte_sample, ColorType, Format, Row};
use cyd_weather::png_stream::header::{HeaderReader, HeaderStep};
use cyd_weather::png_stream::inflate::Scratch;
use cyd_weather::png_stream::rows::{DecodeError, Fed, RowSink, Rows, SinkLog};

const SIGNATURE: [u8; 8] = [0x89, b'P', b'N', b'G', 0x0d, 0x0a, 0x1a, 0x0a];

type Pixel = (u8, u8, u8, u8);

/// Keeps everything it is told; stops or fails when asked to.
struct Collector {
    size: Option<(u32, u32)>,
    rows: Vec<(u32, Vec<Pixel>)>,
    stop_after: Option<usize>,
    fail_at: Option<u32>,
    refuse: bool,
}

impl Collector {
    fn new() -> Collector {
        Collector { size: None, rows: Vec::new(), stop_after: None, fail_at: None, refuse: false }
    }

    fn pixels(&self) -> Vec<Pixel> {
        self.rows.iter().flat_map(|(_, p)| p.iter().copied()).collect()
    }
}

impl RowSink for Collector {
    type Fault = String;
    type Config = ();

    // The model of a sink is for proofs: nothing calls these.
    fn config(&self) {
        unreachable!()
    }

    fn ready(&self) -> bool {
        unreachable!()
    }

    fn log(&self) -> SinkLog<String> {
        unreachable!()
    }

    fn start(&mut self, width: u32, height: u32) -> Result<(), String> {
        self.size = Some((width, height));
        if self.refuse {
            return Err("refused".to_string());
        }
        Ok(())
    }

    fn row(&mut self, y: u32, row: &Row) -> Result<bool, String> {
        if self.fail_at == Some(y) {
            return Err("failed".to_string());
        }
        let width = self.size.unwrap().0 as usize;
        self.rows.push((y, (0..width).map(|x| row.pixel(x)).collect()));
        Ok(self.stop_after != Some(self.rows.len()))
    }
}

fn chunk(kind: &[u8; 4], data: &[u8]) -> Vec<u8> {
    let mut out = Vec::new();
    out.extend_from_slice(&(data.len() as u32).to_be_bytes());
    out.extend_from_slice(kind);
    out.extend_from_slice(data);
    out.extend_from_slice(&[1, 2, 3, 4]);
    out
}

fn ihdr(width: u32, height: u32, depth: u8, color: u8) -> Vec<u8> {
    let mut data = Vec::new();
    data.extend_from_slice(&width.to_be_bytes());
    data.extend_from_slice(&height.to_be_bytes());
    data.extend_from_slice(&[depth, color, 0, 0, 0]);
    chunk(b"IHDR", &data)
}

fn file(chunks: &[Vec<u8>]) -> Vec<u8> {
    let mut out = SIGNATURE.to_vec();
    for c in chunks {
        out.extend_from_slice(c);
    }
    out
}

fn zlib(raw: &[u8]) -> Vec<u8> {
    miniz_oxide::deflate::compress_to_vec_zlib(raw, 6)
}

fn simple(width: u32, height: u32, depth: u8, color: u8, raw: &[u8]) -> Vec<u8> {
    file(&[ihdr(width, height, depth, color), chunk(b"IDAT", &zlib(raw)), chunk(b"IEND", &[])])
}

fn run(src: &[u8]) -> (Result<(), DecodeError<String>>, Collector) {
    let mut sink = Collector::new();
    let mut scratch = Scratch::new();
    let r = decode(src, &mut sink, &mut scratch);
    (r, sink)
}

fn error_of(src: &[u8]) -> PngError {
    match run(src).0 {
        Err(DecodeError::Png(e)) => e,
        other => panic!("unexpected outcome {:?}", other),
    }
}

#[test]
fn rgba_image_is_decoded() {
    let raw = [0u8, 1, 2, 3, 4, 5, 6, 7, 8, 0, 9, 10, 11, 12, 13, 14, 15, 16];
    let (r, sink) = run(&simple(2, 2, 8, 6, &raw));
    assert_eq!(r, Ok(()));
    assert_eq!(sink.size, Some((2, 2)));
    assert_eq!(
        sink.rows,
        vec![(0, vec![(1, 2, 3, 4), (5, 6, 7, 8)]), (1, vec![(9, 10, 11, 12), (13, 14, 15, 16)])]
    );
}

#[test]
fn rgb_and_gray_alpha_images_are_decoded() {
    let (r, sink) = run(&simple(2, 1, 8, 2, &[0, 1, 2, 3, 4, 5, 6]));
    assert_eq!(r, Ok(()));
    assert_eq!(sink.pixels(), vec![(1, 2, 3, 255), (4, 5, 6, 255)]);
    let (r, sink) = run(&simple(2, 1, 8, 4, &[0, 7, 8, 9, 10]));
    assert_eq!(r, Ok(()));
    assert_eq!(sink.pixels(), vec![(7, 7, 7, 8), (9, 9, 9, 10)]);
}

#[test]
fn gray_samples_span_the_full_range() {
    let grays = |depth, data: &[u8], n: usize| -> Vec<u8> {
        let format = Format {
            color: ColorType::Grayscale,
            depth,
            palette: vec![],
            transparency: vec![],
        };
        let row = Row { data, format: &format };
        (0..n)
            .map(|x| {
                let (r, g, b, a) = row.pixel(x);
                assert_eq!((g, b, a), (r, r, 255));
                r
            })
            .collect()
    };
    assert_eq!(grays(1, &[0b1010_0001], 8), vec![255, 0, 255, 0, 0, 0, 0, 255]);
    assert_eq!(grays(2, &[0b00_01_10_11], 4), vec![0, 85, 170, 255]);
    assert_eq!(grays(4, &[0x0f, 0x70], 3), vec![0, 255, 119]);
    let (r, sink) = run(&simple(2, 1, 8, 0, &[0, 200, 3]));
    assert_eq!(r, Ok(()));
    assert_eq!(sink.pixels(), vec![(200, 200, 200, 255), (3, 3, 3, 255)]);
}

#[test]
fn gray_files_have_whole_bytes() {
    for (depth, raw) in [(1, [0, 0xff]), (2, [0, 0xff]), (4, [0, 0xff])] {
        assert_eq!(
            error_of(&simple(1, 1, depth, 0, &raw)),
            PngError::UnsupportedDepth(depth, ColorType::Grayscale)
        );
        assert!(!ColorType::Grayscale.accepts_depth(depth));
        assert!(ColorType::Indexed.accepts_depth(depth));
    }
    assert!(ColorType::Grayscale.accepts_depth(8));
    assert!(!ColorType::Grayscale.accepts_depth(16));
}

#[test]
fn palette_images_use_palette_and_transparency() {
    let palette = chunk(b"PLTE", &[10, 11, 12, 20, 21, 22, 30, 31]);
    let alpha = chunk(b"tRNS", &[100]);
    let raw = [0u8, 0b00_01_10_11];
    let src = file(&[
        ihdr(4, 1, 2, 3),
        palette,
        alpha,
        chunk(b"IDAT", &zlib(&raw)),
        chunk(b"IEND", &[]),
    ]);
    let (r, sink) = run(&src);
    assert_eq!(r, Ok(()));
    // The third colour is cut short and the fourth is missing: both are black.
    assert_eq!(
        sink.pixels(),
        vec![(10, 11, 12, 100), (20, 21, 22, 255), (0, 0, 0, 255), (0, 0, 0, 255)]
    );
}

#[test]
fn samples_fill_a_byte() {
    assert_eq!(sub_byte_sample(&[0xf0], 0, 4), 255);
    assert_eq!(sub_byte_sample(&[0xf0], 1, 4), 0);
    assert_eq!(sub_byte_sample(&[0x5a], 0, 4), 85);
    assert_eq!(sub_byte_sample(&[0x5a], 1, 4), 170);
    assert_eq!(sub_byte_sample(&[0b00_01_10_11], 1, 2), 85);
    assert_eq!(sub_byte_sample(&[0b00_01_10_11], 2, 2), 170);
    assert_eq!(sub_byte_sample(&[7, 200], 1, 8), 200);
}

#[test]
fn samples_past_the_line_are_zero() {
    assert_eq!(sub_byte_sample(&[0xff], 1, 8), 0);
    assert_eq!(sub_byte_sample(&[0xff], 2, 4), 0);
    assert_eq!(sub_byte_sample(&[0xff], 3, 2), 255);
    assert_eq!(sub_byte_sample(&[0xff], 4, 2), 0);
    assert_eq!(sub_byte_sample(&[0x01], 7, 1), 255);
    assert_eq!(sub_byte_sample(&[0x01], 8, 1), 0);
}

#[test]
fn strides_and_pixel_sizes_round_up() {
    let f = |color, depth| Format { color, depth, palette: vec![], transparency: vec![] };
    assert_eq!(f(ColorType::Indexed, 1).stride(9), Some(2));
    assert_eq!(f(ColorType::Indexed, 4).stride(3), Some(2));
    assert_eq!(f(ColorType::Rgba, 8).stride(256), Some(1024));
    assert_eq!(f(ColorType::Grayscale, 2).filter_bpp(), 1);
    assert_eq!(f(ColorType::Rgb, 8).filter_bpp(), 3);
}

#[test]
fn paeth_picks_the_nearest() {
    assert_eq!(paeth(10, 20, 15), 15);
    assert_eq!(paeth(10, 20, 30), 10);
    assert_eq!(paeth(10, 20, 10), 20);
    assert_eq!(paeth(100, 50, 70), 70);
    assert_eq!(paeth(0, 0, 0), 0);
}

#[test]
fn filters_are_reversed() {
    let prev = [10u8, 20, 30, 40];
    let mut row = [1u8, 2, 3, 4];
    assert_eq!(unfilter(0, 1, &mut row, &prev), Ok(()));
    assert_eq!(row, [1, 2, 3, 4]);
    assert_eq!(unfilter(1, 1, &mut row, &prev), Ok(()));
    assert_eq!(row, [1, 3, 6, 10]);
    let mut row = [1u8, 2, 3, 250];
    assert_eq!(unfilter(2, 1, &mut row, &prev), Ok(()));
    assert_eq!(row, [11, 22, 33, 34]);
    let mut row = [1u8, 2, 3, 4];
    assert_eq!(unfilter(3, 2, &mut row, &prev), Ok(()));
    assert_eq!(row, [6, 12, 21, 30]);
    let mut row = [1u8, 1, 1, 1];
    assert_eq!(unfilter(4, 1, &mut row, &prev), Ok(()));
    assert_eq!(row, [11, 21, 31, 41]);
    // Of a longer line above only its beginning counts, and two filters do not look at it.
    let mut row = [1u8, 2, 3];
    assert_eq!(unfilter(2, 1, &mut row, &prev), Ok(()));
    assert_eq!(row, [11, 22, 33]);
    let mut row = [1u8, 2, 3];
    assert_eq!(unfilter(1, 1, &mut row, &[]), Ok(()));
    assert_eq!(row, [1, 3, 6]);
    assert_eq!(unfilter(0, 1, &mut row, &[]), Ok(()));
    assert_eq!(row, [1, 3, 6]);
    let mut row = [1u8, 2, 3, 4];
    assert_eq!(unfilter(5, 1, &mut row, &prev), Err(PngError::UnknownFilter(5)));
    assert_eq!(row, [1, 2, 3, 4]);
}

/// A repeatable sequence of bytes that does not compress well.
fn noise(n: usize) -> Vec<u8> {
    let mut state = 12345u32;
    (0..n)
        .map(|_| {
            state = state.wrapping_mul(1664525).wrapping_add(1013904223);
            (state >> 24) as u8
        })
        .collect()
}

/// The encoder's side of the filters.
fn filtered(filter: u8, bpp: usize, row: &[u8], prev: &[u8]) -> Vec<u8> {
    (0..row.len())
        .map(|i| {
            let left = if i >= bpp { row[i - bpp] } else { 0 };
            let up = prev[i];
            let corner = if i >= bpp { prev[i - bpp] } else { 0 };
            let p = match filter {
                0 => 0,
                1 => left,
                2 => up,
                3 => ((left as u16 + up as u16) / 2) as u8,
                _ => paeth(left, up, corner),
            };
            row[i].wrapping_sub(p)
        })
        .collect()
}

#[test]
fn filtered_rows_come_back() {
    let width = 150usize;
    let height = 200usize;
    let stride = width * 4;
    let data = noise(stride * height);
    let mut raw = Vec::new();
    let mut prev = vec![0u8; stride];
    for y in 0..height {
        let row = &data[y * stride..(y + 1) * stride];
        raw.push((y % 5) as u8);
        raw.extend(filtered((y % 5) as u8, 4, row, &prev));
        prev = row.to_vec();
    }
    // More than the window holds, so it wraps several times.
    assert!(raw.len() > 3 * 32768);
    let (r, sink) = run(&simple(width as u32, height as u32, 8, 6, &raw));
    assert_eq!(r, Ok(()));
    assert_eq!(sink.rows.len(), height);
    let want: Vec<Pixel> = data.chunks(4).map(|c| (c[0], c[1], c[2], c[3])).collect();
    assert_eq!(sink.pixels(), want);
}

#[test]
fn long_matches_reach_back_through_the_window() {
    // The same line over and over: every match looks one line back.
    let width = 5000u32;
    let line = noise(width as usize);
    let mut raw = Vec::new();
    for _ in 0..20 {
        raw.push(0);
        raw.extend_from_slice(&line);
    }
    let (r, sink) = run(&simple(width, 20, 8, 0, &raw));
    assert_eq!(r, Ok(()));
    for (_, row) in &sink.rows {
        assert!(row.iter().zip(&line).all(|(p, v)| p.0 == *v));
    }
}

#[test]
fn image_data_may_come_in_pieces() {
    let raw = noise(4 * 301).chunks(301).flat_map(|c| {
        let mut l = c.to_vec();
        l[0] = 0;
        l
    }).collect::<Vec<u8>>();
    let packed = zlib(&raw);
    let mut chunks = vec![ihdr(300, 4, 8, 0), chunk(b"tEXt", &[7; 200])];
    for part in packed.chunks(100) {
        chunks.push(chunk(b"IDAT", part));
        chunks.push(chunk(b"IDAT", &[]));
        chunks.push(chunk(b"note", &noise(130)));
    }
    chunks.push(chunk(b"IEND", &[]));
    let (r, sink) = run(&file(&chunks));
    assert_eq!(r, Ok(()));
    let want: Vec<u8> = raw.chunks(301).flat_map(|c| c[1..].to_vec()).collect();
    let got: Vec<u8> = sink.pixels().iter().map(|p| p.0).collect();
    assert_eq!(got, want);
}

#[test]
fn other_chunks_before_the_data_do_not_matter() {
    let palette = |v: u8| chunk(b"PLTE", &[v; 6]);
    let data = chunk(b"IDAT", &zlib(&[0, 0b0100_0000]));
    let plain = file(&[
        ihdr(2, 1, 1, 3),
        palette(1),
        palette(2),
        chunk(b"tRNS", &[9]),
        chunk(b"tRNS", &[10, 11]),
        data.clone(),
    ]);
    let (r, sink) = run(&plain);
    assert_eq!(r, Ok(()));
    // The last palette and the last transparency count.
    assert_eq!(sink.pixels(), vec![(2, 2, 2, 10), (2, 2, 2, 11)]);
    let note = chunk(b"noTe", &noise(777));
    for at in 1..=5 {
        let mut chunks = vec![
            ihdr(2, 1, 1, 3),
            palette(1),
            palette(2),
            chunk(b"tRNS", &[9]),
            chunk(b"tRNS", &[10, 11]),
            data.clone(),
        ];
        chunks.insert(at, note.clone());
        let (other, with_note) = run(&file(&chunks));
        assert_eq!(other, r);
        assert_eq!(with_note.rows, sink.rows);
    }
    let missing = file(&[note.clone(), data.clone()]);
    assert_eq!(error_of(&missing), error_of(&file(&[data])));
}

#[test]
fn no_more_rows_than_the_image_has() {
    for rows in 0..6usize {
        let raw: Vec<u8> = (0..rows).flat_map(|y| [0, y as u8]).collect();
        let (r, sink) = run(&simple(1, 3, 8, 0, &raw));
        assert_eq!(sink.rows.len(), rows.min(3));
        assert_eq!(r.is_ok(), rows >= 3);
    }
}

#[test]
fn an_empty_first_piece_is_passed_over() {
    let src = file(&[
        ihdr(1, 1, 8, 0),
        chunk(b"IDAT", &[]),
        chunk(b"IDAT", &zlib(&[0, 42])),
        chunk(b"IEND", &[]),
    ]);
    let (r, sink) = run(&src);
    assert_eq!(r, Ok(()));
    assert_eq!(sink.pixels(), vec![(42, 42, 42, 255)]);
}

#[test]
fn what_follows_a_complete_image_is_not_read() {
    let mut src = file(&[ihdr(1, 1, 8, 0), chunk(b"IDAT", &zlib(&[0, 42]))]);
    src.extend_from_slice(b"garbage");
    assert_eq!(run(&src).0, Ok(()));
    // More scanlines than the header declares.
    assert_eq!(run(&simple(1, 1, 8, 0, &[0, 42, 0, 43])).0, Ok(()));
}

#[test]
fn every_header_error_is_reported() {
    assert_eq!(error_of(&[]), PngError::UnexpectedEnd);
    assert_eq!(error_of(&SIGNATURE), PngError::UnexpectedEnd);
    assert_eq!(error_of(b"GIF89a.."), PngError::NotPng);
    assert_eq!(error_of(&file(&[chunk(b"IHDR", &[0; 12])])), PngError::MalformedIhdr);
    assert_eq!(error_of(&file(&[ihdr(1, 1, 8, 5)])), PngError::UnsupportedColorType(5));
    let mut interlaced = ihdr(1, 1, 8, 0);
    interlaced[20] = 1;
    assert_eq!(error_of(&file(&[interlaced])), PngError::Interlaced);
    assert_eq!(
        error_of(&file(&[ihdr(1, 1, 16, 2)])),
        PngError::UnsupportedDepth(16, ColorType::Rgb)
    );
    assert_eq!(
        error_of(&file(&[ihdr(1, 1, 3, 0)])),
        PngError::UnsupportedDepth(3, ColorType::Grayscale)
    );
    assert_eq!(error_of(&file(&[ihdr(0, 1, 8, 0)])), PngError::EmptyImage);
    assert_eq!(error_of(&file(&[ihdr(1, 0, 8, 0)])), PngError::EmptyImage);
    assert_eq!(error_of(&file(&[chunk(b"IDAT", &[0])])), PngError::MissingIhdr);
    assert_eq!(
        error_of(&file(&[ihdr(1, 1, 8, 3), chunk(b"IDAT", &[0])])),
        PngError::MissingPalette
    );
    assert_eq!(
        error_of(&file(&[ihdr(1, 1, 8, 0), chunk(b"IEND", &[])])),
        PngError::NoImageData
    );
    // A checksum that is cut off comes before what the chunk says.
    let mut short = file(&[ihdr(1, 1, 8, 5)]);
    short.pop();
    assert_eq!(error_of(&short), PngError::UnexpectedEnd);
}

#[test]
fn every_data_error_is_reported() {
    let whole = simple(1, 3, 8, 0, &[0, 1, 0, 2, 0, 3]);
    let cut = &whole[..whole.len() - 18];
    assert_eq!(error_of(cut), PngError::UnexpectedEnd);
    assert_eq!(error_of(&simple(1, 3, 8, 0, &[0, 1])), PngError::EndedAfter(1, 3));
    assert_eq!(error_of(&simple(1, 3, 8, 0, &[0, 1, 9, 2, 0, 3])), PngError::UnknownFilter(9));
    let bad = file(&[ihdr(1, 1, 8, 0), chunk(b"IDAT", &[0xff; 20]), chunk(b"IEND", &[])]);
    assert_eq!(error_of(&bad), PngError::Corrupt(InflateStatus::Failed));
    let packed = zlib(&noise(2000));
    let cut_stream = file(&[
        ihdr(50, 60, 8, 0),
        chunk(b"IDAT", &packed[..100]),
        chunk(b"IEND", &[]),
    ]);
    assert!(matches!(
        error_of(&cut_stream),
        PngError::Corrupt(InflateStatus::CannotMakeProgress) | PngError::UnknownFilter(_)
    ));
    let zeros = zlib(&noise(2000).iter().map(|b| b % 5).collect::<Vec<u8>>());
    let starved = file(&[
        ihdr(500, 60, 8, 0),
        chunk(b"IDAT", &zeros[..100]),
        chunk(b"IEND", &[]),
    ]);
    assert_eq!(error_of(&starved), PngError::Corrupt(InflateStatus::CannotMakeProgress));
}

#[test]
fn rows_before_an_error_are_delivered() {
    let (r, sink) = run(&simple(1, 3, 8, 0, &[0, 1, 0, 2]));
    assert_eq!(r, Err(DecodeError::Png(PngError::EndedAfter(2, 3))));
    assert_eq!(sink.pixels(), vec![(1, 1, 1, 255), (2, 2, 2, 255)]);
    let (_, sink) = run(&simple(1, 3, 8, 0, &[0, 1, 7, 2]));
    assert_eq!(sink.rows.len(), 1);
}

#[test]
fn a_sink_may_stop_early() {
    let src = simple(1, 3, 8, 0, &[0, 1, 0, 2, 9, 3]);
    let mut sink = Collector::new();
    sink.stop_after = Some(2);
    assert_eq!(decode(&src, &mut sink, &mut Scratch::new()), Ok(()));
    assert_eq!(sink.rows.len(), 2);
}

#[test]
fn a_failing_sink_ends_decoding() {
    let src = simple(1, 3, 8, 0, &[0, 1, 0, 2, 0, 3]);
    let mut sink = Collector::new();
    sink.fail_at = Some(1);
    let r = decode(&src, &mut sink, &mut Scratch::new());
    assert_eq!(r, Err(DecodeError::Sink("failed".to_string())));
    assert_eq!(sink.rows.len(), 1);
    let mut sink = Collector::new();
    sink.refuse = true;
    let r = decode(&src, &mut sink, &mut Scratch::new());
    assert_eq!(r, Err(DecodeError::Sink("refused".to_string())));
    assert!(sink.rows.is_empty());
}

#[test]
fn scratch_memory_serves_many_images() {
    let mut scratch = Scratch::new();
    let broken = simple(1, 3, 8, 0, &[0, 1]);
    let good = simple(2, 1, 8, 0, &[0, 5, 6]);
    for _ in 0..3 {
        let mut sink = Collector::new();
        assert!(decode(&broken, &mut sink, &mut scratch).is_err());
        let mut sink = Collector::new();
        assert_eq!(decode(&good, &mut sink, &mut scratch), Ok(()));
        assert_eq!(sink.pixels(), vec![(5, 5, 5, 255), (6, 6, 6, 255)]);
    }
}

/// Read a file piece by piece, as from a card.
fn run_in_pieces(src: &[u8]) -> (Result<(), DecodeError<String>>, Collector) {
    let mut sink = Collector::new();
    let mut scratch = Scratch::new();
    let mut at = 0usize;
    let mut reader = HeaderReader::new();
    let header = loop {
        let n = reader.want();
        if src.len() - at < n {
            return (Err(DecodeError::Png(PngError::UnexpectedEnd)), sink);
        }
        let block = &src[at..at + n];
        at += n;
        match reader.supply(block) {
            Err(e) => return (Err(DecodeError::Png(e)), sink),
            Ok(HeaderStep::More(next)) => reader = next,
            Ok(HeaderStep::Found(h)) => break h,
        }
    };
    let mut data = match DataReader::start(header, &mut scratch, &mut sink) {
        Err(e) => return (Err(e), sink),
        Ok(d) => d,
    };
    loop {
        let n = data.want();
        assert!(n <= 516);
        if src.len() - at < n {
            return (Err(DecodeError::Png(PngError::UnexpectedEnd)), sink);
        }
        let block = &src[at..at + n];
        at += n;
        match data.supply(block, &mut scratch, &mut sink) {
            Err(e) => return (Err(e), sink),
            Ok(DataStep::Finished) => return (Ok(()), sink),
            Ok(DataStep::More(next)) => data = next,
        }
    }
}

#[test]
fn reading_in_pieces_gives_the_same() {
    let mut raw = Vec::new();
    for y in 0..90 {
        raw.push(0u8);
        raw.extend(noise(700 + y)[y..].iter());
    }
    let good = file(&[
        ihdr(700, 90, 8, 0),
        chunk(b"PLTE", &[]),
        chunk(b"tEXt", &noise(1000)),
        chunk(b"IDAT", &zlib(&raw)),
        chunk(b"IEND", &[]),
    ]);
    let whole = run(&good);
    let pieces = run_in_pieces(&good);
    assert_eq!(whole.0, Ok(()));
    assert_eq!(pieces.0, whole.0);
    assert_eq!(pieces.1.rows, whole.1.rows);
    for n in [0, 7, 8, 20, 33, 45, 60, 100, 1200, good.len() - 20, good.len() - 13] {
        let a = run(&good[..n]);
        let b = run_in_pieces(&good[..n]);
        assert_eq!(a.0, b.0);
        assert_eq!(a.1.rows, b.1.rows);
    }
}

#[test]
fn header_ends_where_image_data_begins() {
    let src = file(&[
        ihdr(3, 5, 4, 3),
        chunk(b"tEXt", b"note"),
        chunk(b"PLTE", &[1, 2, 3]),
        chunk(b"tRNS", &[9]),
        chunk(b"IDAT", &[7, 7, 7]),
    ]);
    let (header, at) = match read_header(&src) {
        Ok(found) => found,
        Err(e) => panic!("unexpected error {:?}", e),
    };
    assert_eq!((header.width, header.height, header.len), (3, 5, 3));
    assert_eq!((header.format.color, header.format.depth), (ColorType::Indexed, 4));
    assert_eq!(header.format.palette, vec![1, 2, 3]);
    assert_eq!(header.format.transparency, vec![9]);
    // The payload and its checksum are left.
    assert_eq!(at, src.len() - 7);
    assert!(matches!(read_header(&src[..at - 1]), Err(PngError::UnexpectedEnd)));
    assert!(matches!(read_header(&src[1..]), Err(PngError::NotPng)));
}

#[test]
fn where_inflated_bytes_are_cut_does_not_matter() {
    let data: Vec<u8> = vec![0, 1, 2, 3, 1, 4, 5, 6, 2, 7, 8, 9];
    let rows = || {
        let format =
            Format { color: ColorType::Rgb, depth: 8, palette: vec![], transparency: vec![] };
        Rows::new(1, 3, format).unwrap()
    };
    let mut whole = Collector::new();
    whole.size = Some((1, 3));
    let mut one = rows();
    assert!(matches!(one.feed(&data, &mut whole), Ok(Fed::Complete)));
    assert_eq!(whole.pixels(), vec![(1, 2, 3, 255), (4, 5, 6, 255), (11, 13, 15, 255)]);
    for cut in 0..data.len() {
        let mut sink = Collector::new();
        sink.size = Some((1, 3));
        let mut two = rows();
        assert!(matches!(two.feed(&data[..cut], &mut sink), Ok(Fed::More)));
        assert!(matches!(two.feed(&data[cut..], &mut sink), Ok(Fed::Complete)));
        assert_eq!(sink.rows, whole.rows);
    }
}
