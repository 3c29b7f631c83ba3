use demo_effects::common::{ConfigurationError, DemoBase, DemoEffect, MAX_DIMENSION};
use demo_effects::common::{check_dimensions, BufferSizeMismatch, WindowDimensions};
use demo_effects::effects::plasma::{Config, FREQUENCY};
use demo_effects::effects::plasma::{Palette as Tone, Shape as Pattern};
use demo_effects::field::{checkerboard, circle, position, ripple, spiral, square};
use demo_effects::fixed::ONE;
use demo_effects::palette::{black_white, blue_cyan, hot, purple_pink, rainbow};
use demo_effects::plasma::{Palette, Plasma, Shape};

const TEN: i64 = 10 * ONE;
const LATER: i64 = 3 * ONE / 2;
const STALE: u32 = 0x0012_3456;

const SHAPES: [Shape; 4] = [Shape::Ripple, Shape::Spiral, Shape::Circle, Shape::Square];
const PALETTES: [Palette; 5] = [
    Palette::Rainbow,
    Palette::BlueCyan,
    Palette::Hot,
    Palette::PurplePink,
    Palette::BlackWhite,
];
const PATTERNS: [Pattern; 5] = [
    Pattern::Ripple,
    Pattern::Spiral,
    Pattern::Circle,
    Pattern::Square,
    Pattern::Checkerboard,
];
const TONES: [Tone; 4] = [Tone::Rainbow, Tone::BlueCyan, Tone::Hot, Tone::PurplePink];

fn rendered(plasma: &Plasma, time: i64) -> Vec<u32> {
    let mut buffer = vec![STALE; plasma.width() * plasma.height()];
    plasma.draw(&mut buffer, time).unwrap();
    buffer
}

fn shown(config: &Config, time: i64) -> Vec<u32> {
    let mut buffer = vec![STALE; config.width() * config.height()];
    config.draw(&mut buffer, time).unwrap();
    buffer
}

fn float_hsv(h: f64, s: f64, v: f64) -> [u8; 3] {
    let h = ((h % 360.0) + 360.0) % 360.0;
    let c = v * s;
    let h_prime = h / 60.0;
    let x = c * (1.0 - ((h_prime % 2.0) - 1.0).abs());
    let m = v - c;
    let (r, g, b) = match h_prime as u8 {
        0 => (c, x, 0.0),
        1 => (x, c, 0.0),
        2 => (0.0, c, x),
        3 => (0.0, x, c),
        4 => (x, 0.0, c),
        _ => (c, 0.0, x),
    };
    [
        ((r + m) * 255.0 + 0.5) as u8,
        ((g + m) * 255.0 + 0.5) as u8,
        ((b + m) * 255.0 + 0.5) as u8,
    ]
}

/// The frame as floating-point arithmetic draws it: `shape` and `palette`
/// count the variants in their order, the checkerboard and the grey ramp last.
fn float_frame(w: usize, h: usize, shape: usize, palette: usize, scale: f64, t: f64) -> Vec<[u8; 3]> {
    let half = w.min(h) as f64 * 0.5;
    let mut out = Vec::new();
    for y in 0..h {
        let py = y as f64 - h as f64 * 0.5;
        for x in 0..w {
            let px = x as f64 - w as f64 * 0.5;
            let dist = (px * px + py * py).sqrt() / half;
            let angle = py.atan2(px);
            let v = match shape {
                0 => (dist * scale - t * 2.0).sin(),
                1 => (dist * scale + angle * 3.0 + t).sin(),
                2 => (dist * scale + t).sin() + (angle * 2.0 + t).sin(),
                3 => (px / half * scale + t).sin() * (py / half * scale + t).sin(),
                _ => {
                    (px / half * 10.0).sin() * (py / half * 10.0).sin()
                        + ((px / half + t) * 5.0).sin() * ((py / half + t) * 5.0).sin()
                }
            };
            let v = v * 0.5 + 0.5;
            out.push(match palette {
                0 => float_hsv(v * 360.0, 1.0, 1.0),
                1 => float_hsv(v * 120.0 + 180.0, 0.8, 1.0),
                2 => float_hsv(v * 60.0, 1.0, 1.0),
                3 => float_hsv(v * 60.0 + 270.0, 0.7, 1.0),
                _ => {
                    let gray = (v * 255.0 + 0.5).floor().clamp(0.0, 255.0) as u8;
                    [gray, gray, gray]
                }
            });
        }
    }
    out
}

fn assert_close(frame: &[u32], float: &[[u8; 3]], what: &str) {
    assert_eq!(frame.len(), float.len());
    for (i, (pixel, want)) in frame.iter().zip(float).enumerate() {
        assert_eq!(pixel >> 24, 0xff, "{what}: pixel {i} is not opaque");
        let got = [(pixel >> 16) as u8, (pixel >> 8) as u8, *pixel as u8];
        for k in 0..3 {
            let off = (got[k] as i32 - want[k] as i32).abs();
            assert!(off <= 3, "{what}: pixel {i} is {got:?}, floating point gives {want:?}");
        }
    }
}

#[test]
fn demo_base_keeps_the_dimensions() {
    let base = DemoBase::new(1366, 768).unwrap();
    assert_eq!(base.dim, WindowDimensions { width: 1366, height: 768 });
    assert_eq!(base.dim.pixels(), 1366 * 768);
}

#[test]
fn demo_base_refuses_dimensions_without_pixels() {
    assert_eq!(DemoBase::new(0, 768).err(), Some(ConfigurationError::EmptyDimension));
    assert_eq!(DemoBase::new(1366, 0).err(), Some(ConfigurationError::EmptyDimension));
    assert_eq!(DemoBase::new(0, 0).err(), Some(ConfigurationError::EmptyDimension));
}

#[test]
fn demo_base_refuses_dimensions_over_the_limit() {
    assert_eq!(
        DemoBase::new(MAX_DIMENSION + 1, 1).err(),
        Some(ConfigurationError::DimensionTooLarge)
    );
    assert_eq!(
        DemoBase::new(1, MAX_DIMENSION + 1).err(),
        Some(ConfigurationError::DimensionTooLarge)
    );
    assert!(DemoBase::new(MAX_DIMENSION, 1).is_ok());
    assert!(DemoBase::new(1, MAX_DIMENSION).is_ok());
}

#[test]
fn check_dimensions_agrees_with_demo_base() {
    for (w, h) in [(0usize, 0usize), (0, 5), (5, 0), (1, 1), (800, 600), (usize::MAX, 2)] {
        assert_eq!(check_dimensions(w, h), DemoBase::new(w, h).map(|base| base.dim));
    }
}

#[test]
fn config_keeps_every_parameter() {
    let config = Config::new(320, 200, Pattern::Checkerboard, Tone::PurplePink).unwrap();
    assert_eq!(config.width(), 320);
    assert_eq!(config.height(), 200);
    assert_eq!(config.plasma_type(), Pattern::Checkerboard);
    assert_eq!(config.palette(), Tone::PurplePink);
}

#[test]
fn config_refuses_zero_width_or_height() {
    let refused = |w: usize, h: usize| Config::new(w, h, Pattern::Ripple, Tone::Rainbow).err();
    assert_eq!(refused(0, 600), Some(ConfigurationError::EmptyDimension));
    assert_eq!(refused(800, 0), Some(ConfigurationError::EmptyDimension));
    assert_eq!(refused(usize::MAX, 1), Some(ConfigurationError::DimensionTooLarge));
    assert_eq!(refused(1, 1), None);
}

#[test]
fn frequency_is_ten() {
    assert_eq!(FREQUENCY, TEN);
}

#[test]
fn draw_renders_a_single_pixel() {
    let plasma = Plasma::new(1, 1, Shape::Ripple, Palette::Rainbow, TEN).unwrap();
    let mut buffer = [STALE];
    assert_eq!(plasma.draw(&mut buffer, 0), Ok(()));
    assert_eq!(buffer, [0xffff_0000]);

    let flat = Plasma::new(1, 1, Shape::Ripple, Palette::Rainbow, 0).unwrap();
    assert_eq!(flat.draw(&mut buffer, 0), Ok(()));
    assert_eq!(buffer, [0xff00_ffff]);

    let config = Config::new(1, 1, Pattern::Ripple, Tone::Rainbow).unwrap();
    let mut buffer = [STALE];
    assert_eq!(config.draw(&mut buffer, 0), Ok(()));
    assert_eq!(buffer, [0xffff_0000]);
}

#[test]
fn draw_refuses_a_buffer_of_the_wrong_length() {
    let plasma = Plasma::new(4, 3, Shape::Spiral, Palette::Hot, TEN).unwrap();
    for len in [0usize, 1, 11, 13, 24] {
        let before: Vec<u32> = (0..len as u32).collect();
        let mut buffer = before.clone();
        assert_eq!(
            plasma.draw(&mut buffer, LATER),
            Err(BufferSizeMismatch { expected: 12, actual: len })
        );
        assert_eq!(buffer, before);
    }
    let mut exact = vec![STALE; 12];
    assert_eq!(plasma.draw(&mut exact, LATER), Ok(()));
}

#[test]
fn config_draw_refuses_a_buffer_of_the_wrong_length() {
    let config = Config::new(4, 3, Pattern::Checkerboard, Tone::Hot).unwrap();
    for len in [0usize, 1, 11, 13, 24] {
        let before: Vec<u32> = (0..len as u32).collect();
        let mut buffer = before.clone();
        assert_eq!(
            config.draw(&mut buffer, LATER),
            Err(BufferSizeMismatch { expected: 12, actual: len })
        );
        assert_eq!(buffer, before);
    }
    let mut exact = vec![STALE; 12];
    assert_eq!(config.draw(&mut exact, LATER), Ok(()));
}

#[test]
fn draw_overwrites_every_pixel() {
    for shape in SHAPES {
        for palette in PALETTES {
            let plasma = Plasma::new(13, 7, shape, palette, TEN).unwrap();
            for stale in [0u32, STALE, 0x00ff_ffff, 0x7fff_ffff] {
                let mut buffer = vec![stale; 13 * 7];
                plasma.draw(&mut buffer, LATER).unwrap();
                assert!(buffer.iter().all(|pixel| pixel >> 24 == 0xff));
                assert_eq!(buffer, rendered(&plasma, LATER));
            }
        }
    }
}

#[test]
fn config_draw_overwrites_every_pixel() {
    for pattern in PATTERNS {
        for tone in TONES {
            let config = Config::new(13, 7, pattern, tone).unwrap();
            for stale in [0u32, STALE, 0x00ff_ffff, 0x7fff_ffff] {
                let mut buffer = vec![stale; 13 * 7];
                config.draw(&mut buffer, LATER).unwrap();
                assert!(buffer.iter().all(|pixel| pixel >> 24 == 0xff));
                assert_eq!(buffer, shown(&config, LATER));
            }
        }
    }
}

#[test]
fn draw_is_deterministic() {
    for shape in SHAPES {
        for palette in PALETTES {
            let first = Plasma::new(16, 12, shape, palette, TEN).unwrap();
            let second = Plasma::new(16, 12, shape, palette, TEN).unwrap();
            for time in [0, LATER, 1000 * ONE + 17, -5 * ONE, i64::MAX, i64::MIN] {
                let frame = rendered(&first, time);
                assert_eq!(rendered(&first, time), frame);
                assert_eq!(rendered(&second, time), frame);
            }
        }
    }
}

#[test]
fn config_draw_is_deterministic() {
    for pattern in PATTERNS {
        for tone in TONES {
            let first = Config::new(16, 12, pattern, tone).unwrap();
            let second = Config::new(16, 12, pattern, tone).unwrap();
            for time in [0, LATER, 1000 * ONE + 17, -5 * ONE, i64::MAX, i64::MIN] {
                let frame = shown(&first, time);
                assert_eq!(shown(&first, time), frame);
                assert_eq!(shown(&second, time), frame);
            }
        }
    }
}

#[test]
fn draw_does_not_change_the_configuration() {
    let plasma = Plasma::new(5, 4, Shape::Circle, Palette::BlueCyan, 7 * ONE).unwrap();
    rendered(&plasma, LATER);
    assert_eq!(
        (plasma.width(), plasma.height(), plasma.shape(), plasma.palette(), plasma.scale()),
        (5, 4, Shape::Circle, Palette::BlueCyan, 7 * ONE)
    );
}

#[test]
fn draw_moves_with_time_and_settings() {
    let mut plasma = Plasma::new(16, 12, Shape::Ripple, Palette::Rainbow, TEN).unwrap();
    let start = rendered(&plasma, 0);
    assert_ne!(rendered(&plasma, LATER), start);
    plasma.next_shape();
    let spiral = rendered(&plasma, 0);
    assert_ne!(spiral, start);
    plasma.next_palette();
    let cool = rendered(&plasma, 0);
    assert_ne!(cool, spiral);
    plasma.increase_scale();
    assert_ne!(rendered(&plasma, 0), cool);
    plasma.decrease_scale();
    plasma.prev_shape();
    for _ in 0..4 {
        plasma.next_palette();
    }
    assert_eq!(rendered(&plasma, 0), start);
}

#[test]
fn draw_lays_rows_out_one_after_another() {
    let plasma = Plasma::new(3, 2, Shape::Square, Palette::BlackWhite, TEN).unwrap();
    assert_eq!(
        rendered(&plasma, LATER),
        [0xffd1d1d1, 0xff5c5c5c, 0xff6a6a6a, 0xff191919, 0xffacacac, 0xff9b9b9b]
    );
    let config = Config::new(2, 3, Pattern::Checkerboard, Tone::Hot).unwrap();
    assert_eq!(
        shown(&config, LATER),
        [0xffff5200, 0xffff8000, 0xffff7900, 0xffff0d00, 0xffff1300, 0xffff3e00]
    );
}

#[test]
fn draw_known_frames_of_every_shape() {
    let frame = |shape: Shape, palette: Palette| {
        rendered(&Plasma::new(3, 2, shape, palette, TEN).unwrap(), LATER)
    };
    assert_eq!(
        frame(Shape::Ripple, Palette::Rainbow),
        [0xffe200ff, 0xffff0028, 0xffff0028, 0xff9cff00, 0xffff0045, 0xffff0045]
    );
    assert_eq!(
        frame(Shape::Ripple, Palette::BlackWhite),
        [0xffd0d0d0, 0xfff8f8f8, 0xfff8f8f8, 0xff3b3b3b, 0xfff3f3f3, 0xfff3f3f3]
    );
    assert_eq!(
        frame(Shape::Spiral, Palette::Rainbow),
        [0xffeeff00, 0xff0022ff, 0xff00cdff, 0xffff00dd, 0xff00ff5a, 0xff005aff]
    );
    assert_eq!(
        frame(Shape::Spiral, Palette::BlackWhite),
        [0xff2d2d2d, 0xffa4a4a4, 0xff888888, 0xffdadada, 0xff646464, 0xff9b9b9b]
    );
    assert_eq!(
        frame(Shape::Circle, Palette::Rainbow),
        [0xffff3a00, 0xff49ff00, 0xff9fff00, 0xff0024ff, 0xffffa300, 0xffffa300]
    );
    assert_eq!(
        frame(Shape::Circle, Palette::BlackWhite),
        [0xffffffff, 0xff494949, 0xff3a3a3a, 0xffa4a4a4, 0xffffffff, 0xffffffff]
    );
    assert_eq!(
        frame(Shape::Square, Palette::Rainbow),
        [0xffec00ff, 0xff00ff29, 0xff00ff7c, 0xffff9800, 0xff0d00ff, 0xff005bff]
    );
}

#[test]
fn config_draw_known_frames_of_every_shape() {
    let frame =
        |pattern: Pattern| shown(&Config::new(2, 3, pattern, Tone::Hot).unwrap(), LATER);
    assert_eq!(
        frame(Pattern::Ripple),
        [0xffffd000, 0xffff3b00, 0xfffff800, 0xfffff300, 0xfffff800, 0xfffff300]
    );
    assert_eq!(
        frame(Pattern::Spiral),
        [0xffffbb00, 0xffff2600, 0xffff0000, 0xfffffc00, 0xfffffa00, 0xffff0300]
    );
    assert_eq!(
        frame(Pattern::Circle),
        [0xffffa700, 0xffff005a, 0xffffe200, 0xffff1c00, 0xffffd300, 0xffff1c00]
    );
    assert_eq!(
        frame(Pattern::Square),
        [0xffffd100, 0xffff1900, 0xffff5c00, 0xffffac00, 0xffff6a00, 0xffff9b00]
    );
}

#[test]
fn config_draws_what_a_plasma_of_scale_ten_draws() {
    let pairs = [
        (Pattern::Ripple, Shape::Ripple),
        (Pattern::Spiral, Shape::Spiral),
        (Pattern::Circle, Shape::Circle),
        (Pattern::Square, Shape::Square),
    ];
    let tones = [
        (Tone::Rainbow, Palette::Rainbow),
        (Tone::BlueCyan, Palette::BlueCyan),
        (Tone::Hot, Palette::Hot),
        (Tone::PurplePink, Palette::PurplePink),
    ];
    for (pattern, shape) in pairs {
        for (tone, palette) in tones {
            let config = Config::new(9, 11, pattern, tone).unwrap();
            let plasma = Plasma::new(9, 11, shape, palette, FREQUENCY).unwrap();
            assert_eq!(shown(&config, LATER), rendered(&plasma, LATER));
        }
    }
}

#[test]
fn draw_agrees_with_floating_point() {
    for (s, shape) in SHAPES.into_iter().enumerate() {
        for (p, palette) in PALETTES.into_iter().enumerate() {
            for (w, h) in [(16usize, 12usize), (7, 9), (1, 1), (32, 5)] {
                for (time, t) in [(0, 0.0), (5 * ONE / 4, 1.25), (15 * ONE / 2, 7.5)] {
                    let plasma = Plasma::new(w, h, shape, palette, TEN).unwrap();
                    let float = float_frame(w, h, s, p, 10.0, t);
                    let what = format!("{shape:?} {palette:?} {w}x{h} at {t}");
                    assert_close(&rendered(&plasma, time), &float, &what);
                }
            }
        }
    }
}

#[test]
fn draw_agrees_with_floating_point_at_other_scales() {
    for (scale, factor) in [(0, 0.0), (ONE / 2, 0.5), (-3 * ONE, -3.0), (25 * ONE, 25.0)] {
        for (s, shape) in SHAPES.into_iter().enumerate() {
            let plasma = Plasma::new(12, 10, shape, Palette::BlackWhite, scale).unwrap();
            let float = float_frame(12, 10, s, 4, factor, 2.0);
            let what = format!("{shape:?} at scale {factor}");
            assert_close(&rendered(&plasma, 2 * ONE), &float, &what);
        }
    }
}

#[test]
fn config_draw_agrees_with_floating_point() {
    for (s, pattern) in PATTERNS.into_iter().enumerate() {
        for (p, tone) in TONES.into_iter().enumerate() {
            for (w, h) in [(16usize, 12usize), (7, 9), (1, 1), (32, 5)] {
                for (time, t) in [(0, 0.0), (5 * ONE / 4, 1.25), (15 * ONE / 2, 7.5)] {
                    let config = Config::new(w, h, pattern, tone).unwrap();
                    let float = float_frame(w, h, s, p, 10.0, t);
                    let what = format!("{pattern:?} {tone:?} {w}x{h} at {t}");
                    assert_close(&shown(&config, time), &float, &what);
                }
            }
        }
    }
}

#[test]
fn each_shape_evaluates_its_own_field() {
    let dim = check_dimensions(40, 30).unwrap();
    for (col, row) in [(0usize, 0usize), (13, 7), (20, 15), (39, 29)] {
        let at = position(&dim, col, row);
        for scale in [0, TEN, -3 * ONE] {
            assert_eq!(Shape::Ripple.field(&at, scale, LATER), ripple(at.dist, scale, LATER));
            assert_eq!(
                Shape::Spiral.field(&at, scale, LATER),
                spiral(at.dist, at.angle, scale, LATER)
            );
            assert_eq!(
                Shape::Circle.field(&at, scale, LATER),
                circle(at.dist, at.angle, scale, LATER)
            );
            assert_eq!(Shape::Square.field(&at, scale, LATER), square(at.x, at.y, scale, LATER));
        }
        assert_eq!(Pattern::Ripple.field(&at, LATER), ripple(at.dist, TEN, LATER));
        assert_eq!(Pattern::Spiral.field(&at, LATER), spiral(at.dist, at.angle, TEN, LATER));
        assert_eq!(Pattern::Circle.field(&at, LATER), circle(at.dist, at.angle, TEN, LATER));
        assert_eq!(Pattern::Square.field(&at, LATER), square(at.x, at.y, TEN, LATER));
        assert_eq!(Pattern::Checkerboard.field(&at, LATER), checkerboard(at.x, at.y, LATER));
    }
}

#[test]
fn each_palette_shades_with_its_own_ramp() {
    for v in [-ONE / 2, 0, 1, ONE / 3, ONE / 2, ONE, 3 * ONE / 2] {
        assert_eq!(Palette::Rainbow.shade(v), rainbow(v));
        assert_eq!(Palette::BlueCyan.shade(v), blue_cyan(v));
        assert_eq!(Palette::Hot.shade(v), hot(v));
        assert_eq!(Palette::PurplePink.shade(v), purple_pink(v));
        assert_eq!(Palette::BlackWhite.shade(v), black_white(v));
        assert_eq!(Tone::Rainbow.shade(v), rainbow(v));
        assert_eq!(Tone::BlueCyan.shade(v), blue_cyan(v));
        assert_eq!(Tone::Hot.shade(v), hot(v));
        assert_eq!(Tone::PurplePink.shade(v), purple_pink(v));
    }
}
