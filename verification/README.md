# cyd_weather

The logic of a weather station for the Cheap Yellow Display (an ESP32 board with a 240x320 panel, a
resistive touch screen and a micro-SD slot), written and proved with Verus, plus the firmware around
it.

| Path | What it holds |
|------|---------------|
| `src/png_stream` | Scanline PNG reader: chunks, filters, pixel formats, and the inflater behind them |
| `src/radar` | Radar frames: tiles and the window onto the map, blending, frame files, staging |
| `src/provisioning` | Touch setup: network list, keyboard, security type, debug logging, location |
| `src/ui.rs`, `src/draw.rs`, `src/calendar.rs` | The screens, as lists of things to draw |
| `src/station.rs` | Boot, refresh, backlight and slideshow decisions |
| `src/config.rs`, `src/weather.rs`, `src/location.rs`, `src/wifi.rs`, `src/http.rs`, `src/clock.rs`, `src/touch.rs`, `src/storage.rs` | The rules behind the station's devices and services |
| `src/text.rs` | Text helpers: decimals and comparison |
| `tests` | Tests of the library on concrete values |
| `app` | The firmware: pins, buses, files, HTTP, and drawing with `embedded-graphics` |

Everything in `src` is verified. What is believed without proof is marked `external_body` or
`assume_specification` there, each with a comment that says what is claimed: the inflate core of
`miniz_oxide` (`src/png_stream/inflate.rs`), `String::push` and `String::pop` (`src/text.rs`),
`String::from_utf8` (`src/http.rs`), and the system clock (`src/clock.rs`).

Images are read in pieces: `HeaderReader` and `DataReader` say how many bytes they want next, so a
tile on the SD card is never held in memory as a whole. Latitude and longitude, and the
measurements as the weather service reports them, are floating point: the app turns them into
pixels of the map and into texts before it hands them to the library.
