use spectrum_bars::color::Color;
use spectrum_bars::mapper::{BarAmplitudes, UNIT};
use spectrum_bars::render::{
    bar_count, bar_length_of, render, Dimension, Frame, RenderConfig, RenderError, RenderOptions,
    Style, DIRECTION_UNIT, MAX_DIMENSION,
};

const INK: Color = Color { r: 250, g: 128, b: 7, a: 255 };
const PAPER: Color = Color { r: 0, g: 0, b: 0, a: 0 };

fn row_options() -> RenderOptions {
    RenderOptions {
        style: Style::Linear,
        bar_width: 4,
        bar_spacing: 2,
        bar_height_min: 2,
        bar_height_max: 8,
        bar_radius: 0,
        circle_radius: 0,
        bar_color: INK,
        backdrop: PAPER,
        frame_width: 20,
        frame_height: 10,
        frame_rate: 30,
        directions: Vec::new(),
    }
}

fn ring_directions(bars: usize) -> Vec<(i64, i64)> {
    (0..bars)
        .map(|k| {
            let angle = std::f64::consts::TAU * (k as f64) / (bars as f64);
            (
                (DIRECTION_UNIT as f64 * angle.sin()).round() as i64,
                (-(DIRECTION_UNIT as f64) * angle.cos()).round() as i64,
            )
        })
        .collect()
}

fn ring_options() -> RenderOptions {
    RenderOptions {
        style: Style::Circular,
        bar_width: 16,
        bar_spacing: 8,
        bar_height_min: 16,
        bar_height_max: 256,
        bar_radius: 8,
        circle_radius: 64,
        bar_color: INK,
        backdrop: PAPER,
        frame_width: 700,
        frame_height: 700,
        frame_rate: 30,
        directions: ring_directions(25),
    }
}

/// The frame as text: `#` for the bar colour, `.` for the backdrop.
fn picture(frame: &Frame) -> Vec<String> {
    (0..frame.height)
        .map(|y| {
            (0..frame.width)
                .map(|x| {
                    let color = frame.pixel_at(x, y);
                    if color == INK {
                        '#'
                    } else {
                        assert_eq!(color, PAPER);
                        '.'
                    }
                })
                .collect()
        })
        .collect()
}

#[test]
fn options_are_taken_as_they_are() {
    let config = RenderConfig::new(row_options()).unwrap();
    assert_eq!(config.style, Style::Linear);
    assert_eq!(config.bar_width, 4);
    assert_eq!(config.bar_spacing, 2);
    assert_eq!(config.bar_height_min, 2);
    assert_eq!(config.bar_height_max, 8);
    assert_eq!(config.frame_width, 20);
    assert_eq!(config.frame_height, 10);
    assert_eq!(config.frame_rate, 30);
    assert_eq!(config.bar_color, INK);
    assert_eq!(config.backdrop, PAPER);
    assert_eq!(config.bar_total(), 3);
}

#[test]
fn negative_dimensions_are_refused() {
    let cases: [(fn(&mut RenderOptions), Dimension); 8] = [
        (|o| o.bar_width = -1, Dimension::BarWidth),
        (|o| o.bar_spacing = -1, Dimension::BarSpacing),
        (|o| o.bar_height_min = -1, Dimension::BarHeightMin),
        (|o| o.bar_height_max = -1, Dimension::BarHeightMax),
        (|o| o.bar_radius = -1, Dimension::BarRadius),
        (|o| o.circle_radius = i64::MIN, Dimension::CircleRadius),
        (|o| o.frame_width = -1, Dimension::FrameWidth),
        (|o| o.frame_height = -1, Dimension::FrameHeight),
    ];
    for (change, dimension) in cases {
        let mut options = row_options();
        change(&mut options);
        assert_eq!(RenderConfig::new(options), Err(RenderError::Negative(dimension)));
    }
}

#[test]
fn oversized_dimensions_are_refused() {
    let mut options = row_options();
    options.frame_width = MAX_DIMENSION + 1;
    assert_eq!(RenderConfig::new(options), Err(RenderError::TooLarge(Dimension::FrameWidth)));
    let mut options = row_options();
    options.bar_height_max = i64::MAX;
    assert_eq!(RenderConfig::new(options), Err(RenderError::TooLarge(Dimension::BarHeightMax)));
    let mut options = row_options();
    options.frame_width = MAX_DIMENSION;
    options.frame_height = MAX_DIMENSION;
    assert!(RenderConfig::new(options).is_ok());
}

#[test]
fn first_fault_is_reported() {
    let mut options = row_options();
    options.bar_spacing = MAX_DIMENSION + 1;
    options.bar_height_min = -5;
    options.frame_rate = 0;
    assert_eq!(RenderConfig::new(options), Err(RenderError::TooLarge(Dimension::BarSpacing)));
}

#[test]
fn unusable_geometry_is_refused() {
    let mut options = row_options();
    options.bar_width = 0;
    assert_eq!(RenderConfig::new(options), Err(RenderError::NoBarWidth));
    let mut options = row_options();
    options.frame_height = 0;
    assert_eq!(RenderConfig::new(options), Err(RenderError::EmptyFrame));
    let mut options = row_options();
    options.bar_height_min = 9;
    assert_eq!(RenderConfig::new(options), Err(RenderError::HeightRange));
    let mut options = row_options();
    options.frame_rate = 0;
    assert_eq!(RenderConfig::new(options), Err(RenderError::NoFrameRate));
    let mut options = row_options();
    options.bar_width = 21;
    assert_eq!(RenderConfig::new(options), Err(RenderError::NoBars));
    let mut options = ring_options();
    options.circle_radius = 2;
    assert_eq!(RenderConfig::new(options), Err(RenderError::NoBars));
}

#[test]
fn ring_needs_one_unit_direction_per_bar() {
    assert!(RenderConfig::new(ring_options()).is_ok());
    let mut options = ring_options();
    options.directions.pop();
    assert_eq!(RenderConfig::new(options), Err(RenderError::BadDirections));
    let mut options = ring_options();
    options.directions[3] = (DIRECTION_UNIT, DIRECTION_UNIT);
    assert_eq!(RenderConfig::new(options), Err(RenderError::BadDirections));
    let mut options = ring_options();
    options.directions[24] = (0, 0);
    assert_eq!(RenderConfig::new(options), Err(RenderError::BadDirections));
    let mut options = ring_options();
    options.directions[0] = (DIRECTION_UNIT + 1, 0);
    assert_eq!(RenderConfig::new(options), Err(RenderError::BadDirections));
    let mut options = row_options();
    options.directions = vec![(0, 0)];
    assert!(RenderConfig::new(options).is_ok());
}

#[test]
fn row_holds_as_many_bars_as_fit() {
    assert_eq!(bar_count(Style::Linear, 20, 4, 2, 0), 3);
    assert_eq!(bar_count(Style::Linear, 16, 4, 2, 0), 3);
    assert_eq!(bar_count(Style::Linear, 15, 4, 2, 0), 2);
    assert_eq!(bar_count(Style::Linear, 768, 16, 8, 64), 32);
    assert_eq!(bar_count(Style::Linear, 1280, 16, 8, 64), 53);
    assert_eq!(bar_count(Style::Linear, 0, 1, 0, 0), 0);
}

#[test]
fn ring_holds_as_many_bars_as_fit_around() {
    assert_eq!(bar_count(Style::Circular, 1280, 16, 8, 64), 25);
    assert_eq!(bar_count(Style::Circular, 1280, 1, 0, 1), 6);
    assert_eq!(bar_count(Style::Circular, 1280, 16, 8, 0), 0);
    assert_eq!(bar_count(Style::Circular, 0, 1, 0, MAX_DIMENSION), 102943);
    for (radius, width) in [(64i64, 16i64), (100, 7), (1000, 3), (5, 31)] {
        let bars = bar_count(Style::Circular, 0, width, 0, radius) as f64;
        let around = std::f64::consts::TAU * radius as f64;
        assert!(bars * width as f64 <= around);
        assert!((bars + 1.0) * width as f64 > around);
    }
}

#[test]
fn bar_length_follows_the_amplitude() {
    assert_eq!(bar_length_of(0, 16, 256), 16);
    assert_eq!(bar_length_of(UNIT, 16, 256), 256);
    assert_eq!(bar_length_of(UNIT / 2, 16, 256), 136);
    assert_eq!(bar_length_of(UNIT / 4, 16, 256), 76);
    assert_eq!(bar_length_of(1, 16, 256), 16);
    assert_eq!(bar_length_of(UNIT - 1, 16, 256), 255);
    assert_eq!(bar_length_of(12345, 7, 7), 7);
}

#[test]
fn row_is_drawn_on_the_lower_edge() {
    let config = RenderConfig::new(row_options()).unwrap();
    let frame = render(&BarAmplitudes { levels: vec![0, UNIT / 2, UNIT] }, &config);
    assert_eq!(frame.width, 20);
    assert_eq!(frame.height, 10);
    assert_eq!(frame.pixels.len(), 20 * 10 * 4);
    assert_eq!(
        picture(&frame),
        vec![
            "....................",
            "....................",
            "..............####..",
            "..............####..",
            "..............####..",
            "........####..####..",
            "........####..####..",
            "........####..####..",
            "..####..####..####..",
            "..####..####..####..",
        ]
    );
}

#[test]
fn corners_are_rounded() {
    let mut options = row_options();
    options.bar_width = 6;
    options.bar_radius = 3;
    options.bar_height_min = 0;
    options.frame_width = 16;
    let config = RenderConfig::new(options).unwrap();
    let frame = render(&BarAmplitudes { levels: vec![UNIT, UNIT / 4] }, &config);
    assert_eq!(
        picture(&frame),
        vec![
            "................",
            "................",
            "..####..........",
            ".######.........",
            ".######.........",
            ".######.........",
            ".######.........",
            ".######.........",
            ".######..######.",
            "..####...######.",
        ]
    );
}

#[test]
fn pixels_are_rgba_bytes_in_rows() {
    let mut options = row_options();
    options.frame_width = 4;
    options.frame_height = 2;
    options.bar_width = 2;
    options.bar_spacing = 0;
    options.bar_height_min = 1;
    options.bar_height_max = 2;
    let config = RenderConfig::new(options).unwrap();
    let frame = render(&BarAmplitudes { levels: vec![0, UNIT] }, &config);
    let ink = [250u8, 128, 7, 255];
    let paper = [0u8, 0, 0, 0];
    let expected: Vec<u8> =
        [paper, paper, ink, ink, ink, ink, ink, ink].iter().flatten().copied().collect();
    assert_eq!(frame.pixels, expected);
}

#[test]
fn rendering_twice_gives_the_same_bytes() {
    let row = RenderConfig::new(row_options()).unwrap();
    let levels = BarAmplitudes { levels: vec![100, 40000, UNIT] };
    assert_eq!(render(&levels, &row), render(&levels, &row));
    let mut options = ring_options();
    options.frame_width = 200;
    options.frame_height = 160;
    let ring = RenderConfig::new(options).unwrap();
    let levels = BarAmplitudes { levels: (0..25).map(|k| k * 2000).collect() };
    let first = render(&levels, &ring);
    let second = render(&levels, &ring);
    assert_eq!(first.pixels, second.pixels);
    assert_eq!(first, second);
}

#[test]
fn silent_frame_holds_bars_of_least_height() {
    let config = RenderConfig::new(row_options()).unwrap();
    let frame = render(&BarAmplitudes { levels: vec![0, 0, 0] }, &config);
    assert_eq!(
        picture(&frame),
        vec![
            "....................",
            "....................",
            "....................",
            "....................",
            "....................",
            "....................",
            "....................",
            "....................",
            "..####..####..####..",
            "..####..####..####..",
        ]
    );
}

/// For each bar the pixels that it holds, found by asking the configuration.
fn pixels_by_bar(config: &RenderConfig, levels: &Vec<u32>) -> Vec<Vec<(usize, usize)>> {
    let mut held = vec![Vec::new(); levels.len()];
    for y in 0..config.frame_height as usize {
        for x in 0..config.frame_width as usize {
            let mut owners = 0;
            for k in 0..levels.len() {
                if config.covers(levels[k], k, x, y) {
                    held[k].push((x, y));
                    owners += 1;
                }
            }
            assert!(owners <= 1, "pixel ({}, {}) lies in {} bars", x, y, owners);
        }
    }
    held
}

#[test]
fn ring_of_radius_64_and_width_16_has_25_bars_evenly_spread() {
    let config = RenderConfig::new(ring_options()).unwrap();
    assert_eq!(config.bar_total(), 25);
    assert!(config.neighbours_are_clear());
    for k in 0..25 {
        for j in 0..25 {
            assert_eq!(config.bars_stand_apart(k, j), k != j, "bars {} and {}", k, j);
        }
    }
    for level in [0, UNIT / 3, UNIT] {
        let levels = vec![level; 25];
        let held = pixels_by_bar(&config, &levels);
        let length = bar_length_of(level, 16, 256) as f64;
        let mut angles = Vec::new();
        for pixels in &held {
            assert!(!pixels.is_empty());
            let area = pixels.len() as f64;
            let corner = f64::min(8.0, length / 2.0);
            let expected = 16.0 * length - (4.0 - std::f64::consts::PI) * corner * corner;
            assert!((area - expected).abs() <= 0.05 * expected + 4.0);
            let (mut sum_x, mut sum_y) = (0.0, 0.0);
            for &(x, y) in pixels {
                let (dx, dy) = (x as f64 + 0.5 - 350.0, y as f64 + 0.5 - 350.0);
                let distance = (dx * dx + dy * dy).sqrt();
                assert!(distance >= 63.0 && distance <= 64.0 + length + 1.0);
                sum_x += dx;
                sum_y += dy;
            }
            angles.push(sum_x.atan2(-sum_y).to_degrees().rem_euclid(360.0));
        }
        for (k, angle) in angles.iter().enumerate() {
            let expected = 14.4 * k as f64;
            let off = (angle - expected + 180.0).rem_euclid(360.0) - 180.0;
            assert!(off.abs() < 0.5, "bar {} stands at {} degrees", k, angle);
        }
    }
}

#[test]
fn ring_frame_shows_what_the_bars_hold() {
    let mut options = ring_options();
    options.frame_width = 240;
    options.frame_height = 200;
    options.bar_height_max = 40;
    let config = RenderConfig::new(options).unwrap();
    let levels: Vec<u32> = (0..25).map(|k| (k * 2621) as u32).collect();
    let frame = render(&BarAmplitudes { levels: levels.clone() }, &config);
    let held = pixels_by_bar(&config, &levels);
    let mut inked = 0;
    for pixels in &held {
        for &(x, y) in pixels {
            assert_eq!(frame.pixel_at(x, y), INK);
            inked += 1;
        }
    }
    let counted = picture(&frame).iter().map(|row| row.matches('#').count()).sum::<usize>();
    assert_eq!(counted, inked);
    assert_eq!(frame.pixel_at(120, 100), PAPER);
    assert_eq!(frame.pixel_at(120, 100 - 70), INK);
    assert_eq!(frame.pixel_at(120, 100 - 60), PAPER);
}

fn ring_of(circle_radius: i64, bar_width: i64, directions: Vec<(i64, i64)>) -> RenderOptions {
    let mut options = ring_options();
    options.circle_radius = circle_radius;
    options.bar_width = bar_width;
    options.directions = directions;
    options
}

fn turned(bars: usize, step_degrees: f64, start_degrees: f64) -> Vec<(i64, i64)> {
    (0..bars)
        .map(|k| {
            let angle = (start_degrees + step_degrees * k as f64).to_radians();
            (
                (DIRECTION_UNIT as f64 * angle.sin()).round() as i64,
                (-(DIRECTION_UNIT as f64) * angle.cos()).round() as i64,
            )
        })
        .collect()
}

#[test]
fn ring_may_start_at_any_angle() {
    for start in [0.0, 1.0, 37.5, 90.0, 179.9, 180.0, 270.0, 359.0] {
        let options = ring_of(64, 16, turned(25, 14.4, start));
        assert!(RenderConfig::new(options).is_ok(), "start at {} degrees", start);
    }
}

#[test]
fn bars_in_one_direction_are_refused() {
    let options = ring_of(64, 16, vec![(DIRECTION_UNIT, 0); 25]);
    assert_eq!(RenderConfig::new(options), Err(RenderError::BadDirections));
}

#[test]
fn ring_that_turns_the_other_way_is_refused() {
    let options = ring_of(64, 16, turned(25, -14.4, 0.0));
    assert_eq!(RenderConfig::new(options), Err(RenderError::BadDirections));
}

#[test]
fn ring_that_goes_round_twice_is_refused() {
    let options = ring_of(64, 16, turned(25, 28.8, 0.0));
    assert_eq!(RenderConfig::new(options), Err(RenderError::BadDirections));
    let options = ring_of(64, 16, turned(25, 14.4 * 6.0, 0.0));
    assert_eq!(RenderConfig::new(options), Err(RenderError::BadDirections));
}

#[test]
fn ring_that_does_not_close_is_refused() {
    let options = ring_of(64, 16, turned(25, 14.0, 0.0));
    assert_eq!(RenderConfig::new(options), Err(RenderError::BadDirections));
    let options = ring_of(64, 16, turned(25, 7.2, 0.0));
    assert_eq!(RenderConfig::new(options), Err(RenderError::BadDirections));
}

#[test]
fn uneven_ring_is_refused() {
    let mut directions = turned(25, 14.4, 0.0);
    directions[7] = turned(1, 0.0, 14.4 * 7.0 + 0.01)[0];
    assert_eq!(RenderConfig::new(ring_of(64, 16, directions)), Err(RenderError::BadDirections));
    let mut directions = turned(25, 14.4, 0.0);
    directions.swap(3, 4);
    assert_eq!(RenderConfig::new(ring_of(64, 16, directions)), Err(RenderError::BadDirections));
}

#[test]
fn small_rings_hold_one_or_two_bars() {
    assert_eq!(bar_count(Style::Circular, 700, 16, 8, 3), 1);
    assert!(RenderConfig::new(ring_of(3, 16, turned(1, 0.0, 123.0))).is_ok());
    assert_eq!(bar_count(Style::Circular, 700, 16, 8, 6), 2);
    assert!(RenderConfig::new(ring_of(6, 16, turned(2, 180.0, 45.0))).is_ok());
    assert_eq!(
        RenderConfig::new(ring_of(6, 16, turned(2, 90.0, 45.0))),
        Err(RenderError::BadDirections)
    );
    assert_eq!(
        RenderConfig::new(ring_of(6, 16, turned(2, 0.0, 45.0))),
        Err(RenderError::BadDirections)
    );
    assert_eq!(bar_count(Style::Circular, 700, 16, 8, 8), 3);
    assert!(RenderConfig::new(ring_of(8, 16, turned(3, 120.0, 0.0))).is_ok());
    assert_eq!(bar_count(Style::Circular, 700, 16, 8, 11), 4);
    assert!(RenderConfig::new(ring_of(11, 16, turned(4, 90.0, 0.0))).is_ok());
}

#[test]
fn rings_of_many_bars_are_taken() {
    for (circle_radius, bar_width) in [(500i64, 4i64), (16384, 16), (16384, 1), (9999, 7)] {
        let bars = bar_count(Style::Circular, 700, bar_width, 8, circle_radius) as usize;
        let step = 360.0 / bars as f64;
        let options = ring_of(circle_radius, bar_width, turned(bars, step, 0.0));
        assert!(RenderConfig::new(options).is_ok(), "{} bars", bars);
        let options = ring_of(circle_radius, bar_width, turned(bars, step, 211.3));
        assert!(RenderConfig::new(options).is_ok(), "{} bars", bars);
    }
}

#[test]
fn bars_that_stand_apart_share_no_pixel() {
    for (circle_radius, bar_width, bars) in [(6i64, 16i64, 2usize), (8, 16, 3), (11, 16, 4), (20, 9, 13)] {
        let mut options = ring_of(circle_radius, bar_width, turned(bars, 360.0 / bars as f64, 10.0));
        options.frame_width = 120;
        options.frame_height = 120;
        options.bar_height_min = 0;
        options.bar_height_max = 50;
        let config = RenderConfig::new(options).unwrap();
        assert_eq!(config.bar_total(), bars);
        for k in 0..bars {
            for j in 0..bars {
                if k == j {
                    assert!(!config.bars_stand_apart(k, j));
                    continue;
                }
                assert!(config.bars_stand_apart(k, j), "bars {} and {} of {}", k, j, bars);
                for y in 0..120 {
                    for x in 0..120 {
                        assert!(
                            !(config.covers(UNIT, k, x, y) && config.covers(UNIT / 2, j, x, y)),
                            "pixel ({}, {}) lies in bars {} and {}",
                            x,
                            y,
                            k,
                            j
                        );
                    }
                }
            }
        }
    }
}

#[test]
fn two_opposite_bars_are_apart_but_not_side_by_side() {
    let config = RenderConfig::new(ring_of(6, 16, turned(2, 180.0, 45.0))).unwrap();
    assert!(config.bars_stand_apart(0, 1));
    assert!(config.bars_stand_apart(1, 0));
    assert!(!config.neighbours_are_clear());
}

#[test]
fn clear_ring_has_neighbours_that_stand_apart() {
    for (circle_radius, bar_width) in [(64i64, 16i64), (100, 7), (300, 16), (500, 4)] {
        let bars = bar_count(Style::Circular, 700, bar_width, 8, circle_radius) as usize;
        let options = ring_of(circle_radius, bar_width, turned(bars, 360.0 / bars as f64, 0.0));
        let config = RenderConfig::new(options).unwrap();
        assert!(config.neighbours_are_clear(), "{} bars", bars);
        for k in 0..bars {
            assert!(config.bars_stand_apart(k, (k + 1) % bars));
        }
    }
}
