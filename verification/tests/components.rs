//! Colors, matrices, samplers, filters and mesh-file helpers on concrete
//! values.

use rustraytracer::color::{Color, Rgb8Bit};
use rustraytracer::datastructures::Matrix;
use rustraytracer::display::Console;
use rustraytracer::filters::{NopFilter, SmoothingFilter};
use rustraytracer::obj::{build_face, read_index};
use rustraytracer::point::Point;
use rustraytracer::sampler::{partition, SampleRange, SamplerConfig, StratifiedSampler};
use rustraytracer::SCALE;

fn fp(x: f64) -> i64 {
    (x * SCALE as f64).round() as i64
}

#[test]
fn test_from_hex() {
    let c = Color::from_str("#FFF").unwrap();
    let unit = SCALE as f64;
    assert!(c.r as f64 / unit > 0.9);
    assert!(c.g as f64 / unit > 0.9);
    assert!(c.b as f64 / unit > 0.9);
}

#[test]
fn from_hex_long_form() {
    let c = Color::from_str("#FF8000").unwrap();
    assert_eq!(c.r, SCALE);
    assert!((c.g as f64 / SCALE as f64 - 128.0 / 255.0).abs() < 0.01);
    assert_eq!(c.b, 0);
}

#[test]
fn from_hex_rejects_bad_input() {
    assert!(Color::from_str("").is_err());
    assert!(Color::from_str("FFF").is_err());
    assert!(Color::from_str("#FFFF").is_err());
    assert!(Color::from_str("#GGG").is_err());
}

#[test]
fn truncate_rounds_and_clamps() {
    let c = Color::new(0, fp(0.5), fp(3.0));
    let q = Rgb8Bit::truncate(&c);
    assert_eq!(q.r, 0);
    assert_eq!(q.g, 128);
    assert_eq!(q.b, 255);
}

#[test]
fn grayscale_averages() {
    let c = Color::new(fp(0.3), fp(0.6), fp(0.9));
    let g = c.grayscale();
    assert!((g as f64 / SCALE as f64 - 0.6).abs() < 0.001);
}

#[test]
fn matrix_fill_and_iter() {
    let m = Matrix::fill([3, 2], 7u32);
    assert_eq!(m.width(), 3);
    assert_eq!(m.height(), 2);
    let items = m.iter();
    assert_eq!(items.len(), 6);
    for (idx, v) in items {
        assert!(idx[0] < 3 && idx[1] < 2);
        assert_eq!(v, 7);
    }
}

#[test]
fn stratified_sampler_covers_grid() {
    let sampler = StratifiedSampler::new(
        [4, 3],
        SamplerConfig::Stratified {
            samples_per_pixel: 2,
            jitter: false,
        },
    );
    assert_eq!(sampler.width(), 8);
    assert_eq!(sampler.height(), 6);
    assert_eq!(sampler.area(), 48);
    let samples = sampler.sample();
    assert_eq!(samples.len(), 48);
    for s in &samples {
        assert!(-SCALE <= s.pixel.x && s.pixel.x < SCALE);
        assert!(-SCALE <= s.pixel.y && s.pixel.y < SCALE);
    }
}

#[test]
fn sampler_split_covers_same_grid() {
    let sampler = StratifiedSampler::new(
        [8, 8],
        SamplerConfig::Stratified {
            samples_per_pixel: 1,
            jitter: false,
        },
    );
    let parts = sampler.split(4);
    let mut total: usize = 0;
    for part in &parts {
        total += part.sample().len();
    }
    assert_eq!(total, 64);
}

#[test]
fn partition_covers_range() {
    let r = SampleRange { start: 3, end: 17 };
    let parts = partition(&r, 4);
    assert_eq!(parts.len(), 4);
    assert_eq!(parts[0].start, 3);
    assert_eq!(parts[3].end, 17);
    let mut hit_end = false;
    for (i, p) in parts.iter().enumerate() {
        assert!(p.start <= p.end);
        if i > 0 {
            assert_eq!(p.start, parts[i - 1].end);
        }
        if p.end == 17 {
            hit_end = true;
        }
    }
    assert!(hit_end);
}

#[test]
fn read_index_is_one_based() {
    assert_eq!(read_index("1").unwrap(), 0);
    assert_eq!(read_index("42").unwrap(), 41);
    assert!(read_index("0").is_err());
    assert!(read_index("").is_err());
    assert!(read_index("x7").is_err());
    assert!(read_index("184467440737095516160").is_err());
}

#[test]
fn build_face_skips_degenerate() {
    let points = vec![
        Point::new(0, 0, 0),
        Point::new(SCALE, 0, 0),
        Point::new(0, SCALE, 0),
        Point::new(2 * SCALE, 0, 0),
    ];
    let good = build_face(&points, 0, 1, 2).unwrap();
    assert!(good.is_some());
    // collinear points: silently skipped, as mesh loaders do
    let degenerate = build_face(&points, 0, 1, 3).unwrap();
    assert!(degenerate.is_none());
    // a bad index is an error
    assert!(build_face(&points, 0, 1, 9).is_err());
}

#[test]
fn smoothing_filter_averages_blocks() {
    let f = SmoothingFilter(2);
    assert_eq!(f.x(), 2);
    assert_eq!(f.process_resolution([10, 20]), [20, 40]);
    let image = Matrix::fill([4, 4], Color::new(fp(0.5), fp(0.25), 0));
    let out = f.process_image(&image);
    assert_eq!(out.width(), 2);
    assert_eq!(out.height(), 2);
    let c = out.at(0, 0);
    assert!((c.r as f64 / SCALE as f64 - 0.5).abs() < 0.001);
    assert!((c.g as f64 / SCALE as f64 - 0.25).abs() < 0.001);
    assert_eq!(c.b, 0);
}

#[test]
fn nop_filter_is_identity() {
    let f = NopFilter;
    assert_eq!(f.process_resolution([7, 9]), [7, 9]);
    let image = Matrix::fill([2, 2], Color::new(fp(0.5), 0, 0));
    let out = f.process_image(image);
    assert_eq!(out.at(1, 1), Color::new(fp(0.5), 0, 0));
}

#[test]
fn console_picks_by_brightness() {
    let console = Console::new('.', '#');
    let dark = Color::new(fp(0.1), fp(0.1), fp(0.1));
    let bright = Color::new(fp(0.9), fp(0.9), fp(0.9));
    assert_eq!(console.char_for(&dark), '.');
    assert_eq!(console.char_for(&bright), '#');
}
