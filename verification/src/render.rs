//! The frame renderer: from bar amplitudes to an RGBA8 raster.
//!
//! Geometry is in whole pixels. Every bar is a rectangle with rounded
//! corners that grows from its base along its direction. In the linear style
//! the bars stand side by side on the lower edge of the frame and grow
//! upward. In the circular style they stand on a circle around the centre
//! of the frame and grow outward.
//!
//! A pixel belongs to a bar when its centre lies in the bar. To keep pixel
//! centres integral, positions are held doubled: the centre of pixel
//! `(x, y)` is `(2x + 1, 2y + 1)`.

use crate::color::Color;
use crate::mapper::{is_silent, within_unit, BarAmplitudes, UNIT};
use vstd::prelude::*;

verus! {

/// The largest value that a dimension may have, in pixels.
pub const MAX_DIMENSION: i64 = 16384;

/// The length of a direction vector: directions are fixed point with this scale.
pub const DIRECTION_UNIT: i64 = 1048576;

/// How far the squared length of a direction may be from the square of
/// [`DIRECTION_UNIT`]: what rounding both components can add.
pub const DIRECTION_SLACK: i64 = 2097152;

/// How far the products of two pairs of neighbouring directions may differ
/// when both pairs stand at the same angle: what rounding all four vectors
/// can add.
pub const TURN_SLACK: i64 = 3145728;

/// Numerator of a fraction just below the circle constant.
pub const PI_BELOW_NUM: i64 = 103993;

/// Denominator of a fraction just below the circle constant.
pub const PI_BELOW_DEN: i64 = 33102;

/// The arrangement of the bars.
#[derive(Clone, Copy, Debug, PartialEq, Eq)]
pub enum Style {
    /// A row of bars, left to right.
    Linear,
    /// A ring of bars around the centre.
    Circular,
}

/// A quantity of the configuration that is measured in pixels.
#[derive(Clone, Copy, Debug, PartialEq, Eq)]
pub enum Dimension {
    BarWidth,
    BarSpacing,
    BarHeightMin,
    BarHeightMax,
    BarRadius,
    CircleRadius,
    FrameWidth,
    FrameHeight,
}

/// Why a configuration cannot be rendered.
#[derive(Clone, Copy, Debug, PartialEq, Eq)]
pub enum RenderError {
    /// The dimension is negative.
    Negative(Dimension),
    /// The dimension exceeds [`MAX_DIMENSION`].
    TooLarge(Dimension),
    /// Bars of width zero.
    NoBarWidth,
    /// A frame without pixels.
    EmptyFrame,
    /// The least bar height exceeds the greatest.
    HeightRange,
    /// A frame rate of zero.
    NoFrameRate,
    /// Not even one bar fits.
    NoBars,
    /// The directions of a ring are not one unit vector per bar, evenly
    /// spread over one round.
    BadDirections,
}

/// The options as they are given, before they are checked.
#[derive(Clone, Debug, PartialEq, Eq)]
pub struct RenderOptions {
    pub style: Style,
    pub bar_width: i64,
    pub bar_spacing: i64,
    pub bar_height_min: i64,
    pub bar_height_max: i64,
    pub bar_radius: i64,
    pub circle_radius: i64,
    pub bar_color: Color,
    pub backdrop: Color,
    pub frame_width: i64,
    pub frame_height: i64,
    pub frame_rate: u32,
    /// For the circular style, the direction of each bar as a vector of
    /// length [`DIRECTION_UNIT`], evenly spread over one round, clockwise on
    /// the screen; unused in the linear style.
    pub directions: Vec<(i64, i64)>,
}

/// The configuration of a run, checked once and not changed afterwards.
#[derive(Clone, Debug, PartialEq, Eq)]
pub struct RenderConfig {
    pub style: Style,
    pub bar_width: i64,
    pub bar_spacing: i64,
    pub bar_height_min: i64,
    pub bar_height_max: i64,
    pub bar_radius: i64,
    pub circle_radius: i64,
    pub bar_color: Color,
    pub backdrop: Color,
    pub frame_width: i64,
    pub frame_height: i64,
    pub frame_rate: u32,
    pub directions: Vec<(i64, i64)>,
}

/// The dimensions of the options, in the order in which they are checked.
pub open spec fn dimensions(options: RenderOptions) -> Seq<(Dimension, i64)> {
    seq![
        (Dimension::BarWidth, options.bar_width),
        (Dimension::BarSpacing, options.bar_spacing),
        (Dimension::BarHeightMin, options.bar_height_min),
        (Dimension::BarHeightMax, options.bar_height_max),
        (Dimension::BarRadius, options.bar_radius),
        (Dimension::CircleRadius, options.circle_radius),
        (Dimension::FrameWidth, options.frame_width),
        (Dimension::FrameHeight, options.frame_height),
    ]
}

/// What is wrong with one dimension, if anything.
pub open spec fn dimension_fault(dimension: Dimension, value: i64) -> Option<RenderError> {
    if value < 0 {
        Some(RenderError::Negative(dimension))
    } else if value > MAX_DIMENSION {
        Some(RenderError::TooLarge(dimension))
    } else {
        None
    }
}

/// The first fault among the first `n` dimensions.
pub open spec fn first_dimension_fault(dims: Seq<(Dimension, i64)>, n: int) -> Option<RenderError>
    decreases n,
{
    if n <= 0 {
        None
    } else {
        match first_dimension_fault(dims, n - 1) {
            Some(fault) => Some(fault),
            None => dimension_fault(dims[n - 1].0, dims[n - 1].1),
        }
    }
}

/// How many bars of the given width and spacing fit side by side in a row.
pub open spec fn linear_bars(frame_width: int, bar_width: int, bar_spacing: int) -> int {
    (frame_width + bar_spacing) / (bar_width + bar_spacing)
}

/// How many bars of the given width fit around a circle without touching:
/// the circumference, taken a little short, divided by the bar width.
pub open spec fn circular_bars(circle_radius: int, bar_width: int) -> int {
    (2 * PI_BELOW_NUM * circle_radius) / (PI_BELOW_DEN * bar_width)
}

/// The number of bars of a style and geometry.
pub open spec fn bars_of(
    style: Style,
    frame_width: int,
    bar_width: int,
    bar_spacing: int,
    circle_radius: int,
) -> int {
    match style {
        Style::Linear => linear_bars(frame_width, bar_width, bar_spacing),
        Style::Circular => circular_bars(circle_radius, bar_width),
    }
}

/// A vector of length [`DIRECTION_UNIT`], up to rounding.
pub open spec fn is_direction(d: (i64, i64)) -> bool {
    &&& -DIRECTION_UNIT <= d.0 <= DIRECTION_UNIT
    &&& -DIRECTION_UNIT <= d.1 <= DIRECTION_UNIT
    &&& -DIRECTION_SLACK <= d.0 * d.0 + d.1 * d.1 - DIRECTION_UNIT * DIRECTION_UNIT
        <= DIRECTION_SLACK
}

/// The inner product of two vectors: positive where they point the same way.
pub open spec fn dot(a: (i64, i64), b: (i64, i64)) -> int {
    a.0 * b.0 + a.1 * b.1
}

/// The outer product of two vectors: positive where the second stands at a
/// turn of less than half a round from the first, clockwise on the screen.
pub open spec fn cross(a: (i64, i64), b: (i64, i64)) -> int {
    a.0 * b.1 - a.1 * b.0
}

/// The bar after bar `k` on the ring; the first follows the last.
pub open spec fn next_bar(k: int, bars: int) -> int {
    if k + 1 < bars {
        k + 1
    } else {
        0
    }
}

/// Whether `v` stands in the first half of the round that begins at `from`:
/// at `from` itself, or at a turn of less than half a round from it.
pub open spec fn in_first_half(from: (i64, i64), v: (i64, i64)) -> bool {
    cross(from, v) > 0 || (cross(from, v) == 0 && dot(from, v) > 0)
}

/// The direction after `k` stands at a positive turn from it. Among three
/// bars or more the turn is less than half a round; two bars stand
/// opposite each other.
pub open spec fn turns_on(directions: Seq<(i64, i64)>, k: int) -> bool {
    let next = directions[next_bar(k, directions.len() as int)];
    &&& directions.len() >= 3 ==> cross(directions[k], next) > 0
    &&& directions.len() == 2 ==> dot(directions[k], next) < 0
}

/// The turn from direction `k` to the next is the turn from the first
/// direction to the second, within the slack of rounding.
pub open spec fn turns_alike(directions: Seq<(i64, i64)>, k: int) -> bool {
    let bars = directions.len() as int;
    let here = directions[k];
    let next = directions[next_bar(k, bars)];
    let first = directions[0];
    let second = directions[next_bar(0, bars)];
    &&& -TURN_SLACK <= dot(here, next) - dot(first, second) <= TURN_SLACK
    &&& -TURN_SLACK <= cross(here, next) - cross(first, second) <= TURN_SLACK
}

/// The directions do not pass the first one again: once a direction stands
/// in the second half of the round, so does the one after it.
pub open spec fn keeps_round(directions: Seq<(i64, i64)>, k: int) -> bool {
    k + 1 < directions.len() && !in_first_half(directions[0], directions[k]) ==> !in_first_half(
        directions[0],
        directions[k + 1],
    )
}

/// Direction `k` has unit length and stands where it should among the others.
pub open spec fn fits_at(directions: Seq<(i64, i64)>, k: int) -> bool {
    &&& is_direction(directions[k])
    &&& turns_on(directions, k)
    &&& turns_alike(directions, k)
    &&& keeps_round(directions, k)
}

/// One direction per bar, evenly spread over one round: every direction is
/// a unit vector, each stands at a positive turn from the one before it and
/// the first from the last, all turns are equal within the slack of
/// rounding, and together they go round the circle once.
pub open spec fn directions_fit(directions: Seq<(i64, i64)>, bars: int) -> bool {
    &&& directions.len() == bars
    &&& forall|k: int| 0 <= k < directions.len() ==> #[trigger] fits_at(directions, k)
}

/// The first thing that is wrong with the options, if anything is.
pub open spec fn fault_of(options: RenderOptions) -> Option<RenderError> {
    let bars = bars_of(
        options.style,
        options.frame_width as int,
        options.bar_width as int,
        options.bar_spacing as int,
        options.circle_radius as int,
    );
    match first_dimension_fault(dimensions(options), 8) {
        Some(fault) => Some(fault),
        None => if options.bar_width == 0 {
            Some(RenderError::NoBarWidth)
        } else if options.frame_width == 0 || options.frame_height == 0 {
            Some(RenderError::EmptyFrame)
        } else if options.bar_height_min > options.bar_height_max {
            Some(RenderError::HeightRange)
        } else if options.frame_rate == 0 {
            Some(RenderError::NoFrameRate)
        } else if bars < 1 {
            Some(RenderError::NoBars)
        } else if options.style == Style::Circular && !directions_fit(options.directions@, bars) {
            Some(RenderError::BadDirections)
        } else {
            None
        },
    }
}

impl RenderConfig {
    /// What holds of every configuration that `new` accepted.
    pub open spec fn wf(&self) -> bool {
        &&& 1 <= self.bar_width <= MAX_DIMENSION
        &&& 0 <= self.bar_spacing <= MAX_DIMENSION
        &&& 0 <= self.bar_height_min <= self.bar_height_max <= MAX_DIMENSION
        &&& 0 <= self.bar_radius <= MAX_DIMENSION
        &&& 0 <= self.circle_radius <= MAX_DIMENSION
        &&& 1 <= self.frame_width <= MAX_DIMENSION
        &&& 1 <= self.frame_height <= MAX_DIMENSION
        &&& self.frame_rate > 0
        &&& self.bars() >= 1
        &&& self.style == Style::Circular ==> directions_fit(self.directions@, self.bars())
    }

    /// The number of bars that the configuration shows.
    pub open spec fn bars(&self) -> int {
        bars_of(
            self.style,
            self.frame_width as int,
            self.bar_width as int,
            self.bar_spacing as int,
            self.circle_radius as int,
        )
    }

    /// The configuration holds what the options held.
    pub open spec fn holds(&self, options: RenderOptions) -> bool {
        &&& self.style == options.style
        &&& self.bar_width == options.bar_width
        &&& self.bar_spacing == options.bar_spacing
        &&& self.bar_height_min == options.bar_height_min
        &&& self.bar_height_max == options.bar_height_max
        &&& self.bar_radius == options.bar_radius
        &&& self.circle_radius == options.circle_radius
        &&& self.bar_color == options.bar_color
        &&& self.backdrop == options.backdrop
        &&& self.frame_width == options.frame_width
        &&& self.frame_height == options.frame_height
        &&& self.frame_rate == options.frame_rate
        &&& self.directions@ == options.directions@
    }

    /// Checks the options and makes them the configuration of a run.
    pub fn new(options: RenderOptions) -> (made: Result<RenderConfig, RenderError>)
        ensures
            match made {
                Ok(config) => fault_of(options) is None && config.wf() && config.holds(options),
                Err(fault) => fault_of(options) == Some(fault),
            },
    {
        match check_dimensions(&options) {
            Some(fault) => { return Err(fault); },
            None => {},
        }
        proof {
            lemma_dimensions_in_range(options);
        }
        if options.bar_width == 0 {
            return Err(RenderError::NoBarWidth);
        }
        if options.frame_width == 0 || options.frame_height == 0 {
            return Err(RenderError::EmptyFrame);
        }
        if options.bar_height_min > options.bar_height_max {
            return Err(RenderError::HeightRange);
        }
        if options.frame_rate == 0 {
            return Err(RenderError::NoFrameRate);
        }
        let bars: i64 = bar_count(
            options.style,
            options.frame_width,
            options.bar_width,
            options.bar_spacing,
            options.circle_radius,
        );
        if bars < 1 {
            return Err(RenderError::NoBars);
        }
        match options.style {
            Style::Circular => {
                if !check_directions(&options.directions, bars) {
                    return Err(RenderError::BadDirections);
                }
            },
            Style::Linear => {},
        }
        Ok(
            RenderConfig {
                style: options.style,
                bar_width: options.bar_width,
                bar_spacing: options.bar_spacing,
                bar_height_min: options.bar_height_min,
                bar_height_max: options.bar_height_max,
                bar_radius: options.bar_radius,
                circle_radius: options.circle_radius,
                bar_color: options.bar_color,
                backdrop: options.backdrop,
                frame_width: options.frame_width,
                frame_height: options.frame_height,
                frame_rate: options.frame_rate,
                directions: options.directions,
            },
        )
    }

    /// The number of bars that the configuration shows.
    pub fn bar_total(&self) -> (count: usize)
        requires
            self.wf(),
        ensures
            count == self.bars(),
    {
        let count: i64 = bar_count(
            self.style,
            self.frame_width,
            self.bar_width,
            self.bar_spacing,
            self.circle_radius,
        );
        count as usize
    }
}

fn check_dimensions(options: &RenderOptions) -> (fault: Option<RenderError>)
    ensures
        fault == first_dimension_fault(dimensions(*options), 8),
{
    let ghost dims = dimensions(*options);
    assert(first_dimension_fault(dims, 0) is None);
    let fault = check_dimension(Dimension::BarWidth, options.bar_width);
    if fault.is_some() {
        return fault;
    }
    assert(first_dimension_fault(dims, 1) is None);
    let fault = check_dimension(Dimension::BarSpacing, options.bar_spacing);
    if fault.is_some() {
        return fault;
    }
    assert(first_dimension_fault(dims, 2) is None);
    let fault = check_dimension(Dimension::BarHeightMin, options.bar_height_min);
    if fault.is_some() {
        return fault;
    }
    assert(first_dimension_fault(dims, 3) is None);
    let fault = check_dimension(Dimension::BarHeightMax, options.bar_height_max);
    if fault.is_some() {
        return fault;
    }
    assert(first_dimension_fault(dims, 4) is None);
    let fault = check_dimension(Dimension::BarRadius, options.bar_radius);
    if fault.is_some() {
        return fault;
    }
    assert(first_dimension_fault(dims, 5) is None);
    let fault = check_dimension(Dimension::CircleRadius, options.circle_radius);
    if fault.is_some() {
        return fault;
    }
    assert(first_dimension_fault(dims, 6) is None);
    let fault = check_dimension(Dimension::FrameWidth, options.frame_width);
    if fault.is_some() {
        return fault;
    }
    assert(first_dimension_fault(dims, 7) is None);
    check_dimension(Dimension::FrameHeight, options.frame_height)
}

/// What `first_dimension_fault` finding nothing says of each dimension.
proof fn lemma_dimensions_in_range(options: RenderOptions)
    requires
        first_dimension_fault(dimensions(options), 8) is None,
    ensures
        0 <= options.bar_width <= MAX_DIMENSION,
        0 <= options.bar_spacing <= MAX_DIMENSION,
        0 <= options.bar_height_min <= MAX_DIMENSION,
        0 <= options.bar_height_max <= MAX_DIMENSION,
        0 <= options.bar_radius <= MAX_DIMENSION,
        0 <= options.circle_radius <= MAX_DIMENSION,
        0 <= options.frame_width <= MAX_DIMENSION,
        0 <= options.frame_height <= MAX_DIMENSION,
{
    let dims = dimensions(options);
    assert(first_dimension_fault(dims, 0) is None);
    assert(first_dimension_fault(dims, 1) is None);
    assert(first_dimension_fault(dims, 2) is None);
    assert(first_dimension_fault(dims, 3) is None);
    assert(first_dimension_fault(dims, 4) is None);
    assert(first_dimension_fault(dims, 5) is None);
    assert(first_dimension_fault(dims, 6) is None);
    assert(first_dimension_fault(dims, 7) is None);
}

fn check_dimension(dimension: Dimension, value: i64) -> (fault: Option<RenderError>)
    ensures
        fault == dimension_fault(dimension, value),
{
    if value < 0 {
        Some(RenderError::Negative(dimension))
    } else if value > MAX_DIMENSION {
        Some(RenderError::TooLarge(dimension))
    } else {
        None
    }
}

fn check_directions(directions: &Vec<(i64, i64)>, bars: i64) -> (fit: bool)
    requires
        bars >= 0,
    ensures
        fit == directions_fit(directions@, bars as int),
{
    if directions.len() as u64 != bars as u64 {
        return false;
    }
    let count: usize = directions.len();
    let mut k: usize = 0;
    while k < count
        invariant
            count == directions@.len(),
            k <= count,
            forall|j: int| 0 <= j < k ==> is_direction(#[trigger] directions@[j]),
        decreases count - k,
    {
        if !is_unit(directions[k]) {
            assert(!fits_at(directions@, k as int));
            return false;
        }
        k += 1;
    }
    if count == 0 {
        return true;
    }
    let first: (i64, i64) = directions[0];
    let second: (i64, i64) = if count > 1 {
        directions[1]
    } else {
        directions[0]
    };
    let first_dot: i64 = dot_of(first, second);
    let first_cross: i64 = cross_of(first, second);
    let mut k: usize = 0;
    while k < count
        invariant
            count == directions@.len(),
            count >= 1,
            k <= count,
            first == directions@[0],
            second == directions@[next_bar(0, count as int)],
            first_dot == dot(first, second),
            first_cross == cross(first, second),
            -0x200_0000_0000 <= first_dot <= 0x200_0000_0000,
            -0x200_0000_0000 <= first_cross <= 0x200_0000_0000,
            forall|j: int| 0 <= j < count ==> is_direction(#[trigger] directions@[j]),
            forall|j: int| 0 <= j < k ==> #[trigger] fits_at(directions@, j),
        decreases count - k,
    {
        let here: (i64, i64) = directions[k];
        let next: (i64, i64) = if k + 1 < count {
            directions[k + 1]
        } else {
            directions[0]
        };
        assert(next == directions@[next_bar(k as int, count as int)]);
        let turn_dot: i64 = dot_of(here, next);
        let turn_cross: i64 = cross_of(here, next);
        let on: bool = (count < 3 || turn_cross > 0) && (count != 2 || turn_dot < 0);
        let alike: bool = -TURN_SLACK <= turn_dot - first_dot && turn_dot - first_dot
            <= TURN_SLACK && -TURN_SLACK <= turn_cross - first_cross && turn_cross - first_cross
            <= TURN_SLACK;
        let round: bool = k + 1 >= count || is_in_first_half(first, here) || !is_in_first_half(
            first,
            next,
        );
        if !(on && alike && round) {
            assert(!fits_at(directions@, k as int));
            return false;
        }
        assert(fits_at(directions@, k as int));
        k += 1;
    }
    true
}

fn is_unit(d: (i64, i64)) -> (unit: bool)
    ensures
        unit == is_direction(d),
{
    let (c, s): (i64, i64) = d;
    if c < -DIRECTION_UNIT || c > DIRECTION_UNIT || s < -DIRECTION_UNIT || s > DIRECTION_UNIT {
        return false;
    }
    proof {
        lemma_product_bound(c as int, c as int, 1048576, 1048576);
        lemma_product_bound(s as int, s as int, 1048576, 1048576);
    }
    let excess: i64 = c * c + s * s - DIRECTION_UNIT * DIRECTION_UNIT;
    -DIRECTION_SLACK <= excess && excess <= DIRECTION_SLACK
}

fn dot_of(a: (i64, i64), b: (i64, i64)) -> (product: i64)
    requires
        is_direction(a),
        is_direction(b),
    ensures
        product == dot(a, b),
        -2 * DIRECTION_UNIT * DIRECTION_UNIT <= product <= 2 * DIRECTION_UNIT * DIRECTION_UNIT,
{
    proof {
        lemma_product_bound(a.0 as int, b.0 as int, 1048576, 1048576);
        lemma_product_bound(a.1 as int, b.1 as int, 1048576, 1048576);
    }
    a.0 * b.0 + a.1 * b.1
}

fn cross_of(a: (i64, i64), b: (i64, i64)) -> (product: i64)
    requires
        is_direction(a),
        is_direction(b),
    ensures
        product == cross(a, b),
        -2 * DIRECTION_UNIT * DIRECTION_UNIT <= product <= 2 * DIRECTION_UNIT * DIRECTION_UNIT,
{
    proof {
        lemma_product_bound(a.0 as int, b.1 as int, 1048576, 1048576);
        lemma_product_bound(a.1 as int, b.0 as int, 1048576, 1048576);
    }
    a.0 * b.1 - a.1 * b.0
}

fn is_in_first_half(from: (i64, i64), v: (i64, i64)) -> (held: bool)
    requires
        is_direction(from),
        is_direction(v),
    ensures
        held == in_first_half(from, v),
{
    let turn: i64 = cross_of(from, v);
    turn > 0 || (turn == 0 && dot_of(from, v) > 0)
}

/// The number of bars for a style and geometry.
pub fn bar_count(
    style: Style,
    frame_width: i64,
    bar_width: i64,
    bar_spacing: i64,
    circle_radius: i64,
) -> (count: i64)
    requires
        1 <= bar_width <= MAX_DIMENSION,
        0 <= bar_spacing <= MAX_DIMENSION,
        0 <= circle_radius <= MAX_DIMENSION,
        0 <= frame_width <= MAX_DIMENSION,
    ensures
        count == bars_of(
            style,
            frame_width as int,
            bar_width as int,
            bar_spacing as int,
            circle_radius as int,
        ),
        0 <= count <= 8 * MAX_DIMENSION,
{
    match style {
        Style::Linear => {
            let count: i64 = (frame_width + bar_spacing) / (bar_width + bar_spacing);
            assert(0 <= (frame_width + bar_spacing) / (bar_width + bar_spacing) <= frame_width
                + bar_spacing) by (nonlinear_arith)
                requires
                    frame_width + bar_spacing >= 0,
                    bar_width + bar_spacing >= 1,
            ;
            count
        },
        Style::Circular => {
            assert(PI_BELOW_DEN * bar_width <= 33102 * 16384 && PI_BELOW_DEN * bar_width >= 33102)
                by (nonlinear_arith)
                requires
                    1 <= bar_width <= 16384,
                    PI_BELOW_DEN == 33102,
            ;
            assert(0 <= 2 * PI_BELOW_NUM * circle_radius <= 2 * 103993 * 16384) by (nonlinear_arith)
                requires
                    0 <= circle_radius <= 16384,
                    PI_BELOW_NUM == 103993,
            ;
            let around: i64 = 2 * PI_BELOW_NUM * circle_radius;
            let count: i64 = around / (PI_BELOW_DEN * bar_width);
            assert(0 <= around as int / (PI_BELOW_DEN * bar_width) <= around as int / 33102) by {
                vstd::arithmetic::div_mod::lemma_div_is_ordered_by_denominator(
                    around as int,
                    33102,
                    (PI_BELOW_DEN * bar_width) as int,
                );
                vstd::arithmetic::div_mod::lemma_div_pos_is_pos(
                    around as int,
                    (PI_BELOW_DEN * bar_width) as int,
                );
            }
            count
        },
    }
}

/// The length of a bar at an amplitude: the least height at rest, the
/// greatest at one, and in proportion between them.
pub open spec fn bar_length(amplitude: u32, height_min: int, height_max: int) -> int {
    height_min + amplitude as int * (height_max - height_min) / (UNIT as int)
}

/// The length in pixels of a bar that shows the amplitude.
pub fn bar_length_of(amplitude: u32, height_min: i64, height_max: i64) -> (length: i64)
    requires
        amplitude <= UNIT,
        0 <= height_min <= height_max <= MAX_DIMENSION,
    ensures
        length == bar_length(amplitude, height_min as int, height_max as int),
        height_min <= length <= height_max,
{
    let span: i64 = height_max - height_min;
    assert(0 <= amplitude as int * span as int <= 65536 * span as int && amplitude as int
        * span as int / 65536 <= span as int) by (nonlinear_arith)
        requires
            0 <= amplitude <= 65536,
            0 <= span,
    ;
    assert(65536 * span as int <= 65536 * 16384) by (nonlinear_arith)
        requires
            span <= 16384,
    ;
    height_min + (amplitude as i64) * span / (UNIT as i64)
}

/// A bar at rest has the least height and a bar at amplitude one the
/// greatest; a larger amplitude never gives a shorter bar.
pub proof fn lemma_bar_length_range(
    lower: u32,
    higher: u32,
    height_min: int,
    height_max: int,
)
    requires
        lower <= higher <= UNIT,
        0 <= height_min <= height_max,
    ensures
        bar_length(0, height_min, height_max) == height_min,
        bar_length(UNIT, height_min, height_max) == height_max,
        height_min <= bar_length(lower, height_min, height_max) <= bar_length(
            higher,
            height_min,
            height_max,
        ) <= height_max,
{
    let span = height_max - height_min;
    assert(0 * span / 65536 == 0) by (nonlinear_arith);
    assert(65536 * span / 65536 == span) by (nonlinear_arith);
    assert(0 <= lower as int * span / 65536 <= higher as int * span / 65536 <= span)
        by (nonlinear_arith)
        requires
            0 <= lower <= higher <= 65536,
            0 <= span,
    ;
}

/// The bars of a ring fit around the circle: together they are no wider
/// than the circumference, so that no two of them meet at the circle, and
/// one bar more would not fit in the circumference taken a little short.
pub proof fn lemma_ring_is_filled(circle_radius: int, bar_width: int)
    requires
        0 <= circle_radius,
        1 <= bar_width,
    ensures
        circular_bars(circle_radius, bar_width) * bar_width * PI_BELOW_DEN <= 2 * PI_BELOW_NUM
            * circle_radius,
        (circular_bars(circle_radius, bar_width) + 1) * bar_width * PI_BELOW_DEN > 2
            * PI_BELOW_NUM * circle_radius,
{
    let around = 2 * PI_BELOW_NUM * circle_radius;
    let step = PI_BELOW_DEN * bar_width;
    assert(step >= 1) by (nonlinear_arith)
        requires
            step == PI_BELOW_DEN * bar_width,
            bar_width >= 1,
            PI_BELOW_DEN == 33102,
    ;
    vstd::arithmetic::div_mod::lemma_fundamental_div_mod(around, step);
    vstd::arithmetic::div_mod::lemma_mod_bound(around, step);
    let n = around / step;
    assert(n * bar_width * PI_BELOW_DEN == step * n) by (nonlinear_arith)
        requires
            step == PI_BELOW_DEN * bar_width,
    ;
    assert((n + 1) * bar_width * PI_BELOW_DEN == step * n + step) by (nonlinear_arith)
        requires
            step == PI_BELOW_DEN * bar_width,
    ;
}

/// The bars of a row fit in the frame: with the spacing between them they
/// are no wider than the frame, and one bar more would be.
pub proof fn lemma_row_is_filled(frame_width: int, bar_width: int, bar_spacing: int)
    requires
        0 <= frame_width,
        1 <= bar_width,
        0 <= bar_spacing,
    ensures
        linear_bars(frame_width, bar_width, bar_spacing) * (bar_width + bar_spacing)
            - bar_spacing <= frame_width,
        (linear_bars(frame_width, bar_width, bar_spacing) + 1) * (bar_width + bar_spacing)
            - bar_spacing > frame_width,
{
    let room = frame_width + bar_spacing;
    let step = bar_width + bar_spacing;
    vstd::arithmetic::div_mod::lemma_fundamental_div_mod(room, step);
    vstd::arithmetic::div_mod::lemma_mod_bound(room, step);
    let n = room / step;
    assert(n * step == step * n) by (nonlinear_arith);
    assert((n + 1) * step == step * n + step) by (nonlinear_arith);
}


/// Where a bar stands: positions are doubled pixel coordinates, and the
/// direction is a vector of length `scale`.
#[derive(Clone, Copy, Debug, PartialEq, Eq)]
pub struct BarFrame {
    /// The point from which the bar's direction is drawn.
    pub origin_x: i64,
    pub origin_y: i64,
    /// The direction in which the bar grows.
    pub dir_x: i64,
    pub dir_y: i64,
    /// How far from the origin the bar's base lies, times `scale`.
    pub inner: i64,
    /// The length of the direction vector.
    pub scale: i64,
}

/// The free space to the left of a row of bars that is centred in the frame.
pub open spec fn row_margin(config: RenderConfig) -> int {
    (config.frame_width - (config.bars() * (config.bar_width + config.bar_spacing)
        - config.bar_spacing)) / 2
}

/// Where bar `k` stands. In a row, the bars stand on the lower edge of the
/// frame, one step apart, and grow upward. In a ring, they stand on the
/// circle around the centre of the frame and grow along their directions.
pub open spec fn bar_frame(config: RenderConfig, k: int) -> BarFrame {
    match config.style {
        Style::Linear => BarFrame {
            origin_x: (2 * (row_margin(config) + k * (config.bar_width + config.bar_spacing))
                + config.bar_width) as i64,
            origin_y: (2 * config.frame_height) as i64,
            dir_x: 0,
            dir_y: -1i64,
            inner: 0,
            scale: 1,
        },
        Style::Circular => BarFrame {
            origin_x: config.frame_width,
            origin_y: config.frame_height,
            dir_x: config.directions@[k].0,
            dir_y: config.directions@[k].1,
            inner: (2 * config.circle_radius * DIRECTION_UNIT) as i64,
            scale: DIRECTION_UNIT,
        },
    }
}

/// How far along the bar's direction a point lies beyond the bar's base.
pub open spec fn along(frame: BarFrame, px: int, py: int) -> int {
    (px - frame.origin_x) * frame.dir_x + (py - frame.origin_y) * frame.dir_y - frame.inner
}

/// How far to the side of the bar's centre line a point lies.
pub open spec fn across(frame: BarFrame, px: int, py: int) -> int {
    (py - frame.origin_y) * frame.dir_x - (px - frame.origin_x) * frame.dir_y
}

/// The doubled corner radius of a bar: the configured one, but no more than
/// half the bar's width or half its length.
pub open spec fn corner_of(bar_radius: int, bar_width: int, length: int) -> int {
    if 2 * bar_radius <= bar_width && 2 * bar_radius <= length {
        2 * bar_radius
    } else if bar_width <= length {
        bar_width
    } else {
        length
    }
}

/// Whether the point `(u, v)` lies in a rectangle with rounded corners that
/// reaches from 0 to `length` in `u` and from `-half` to `half` in `v`: it
/// lies in the rectangle, and where it is within `radius` of two sides, it
/// is within `radius` of the corner circle's centre.
pub open spec fn in_rounded(u: int, v: int, length: int, half: int, radius: int) -> bool {
    let du = if u < radius {
        radius - u
    } else if u > length - radius {
        u - (length - radius)
    } else {
        0
    };
    let dv = if v < radius - half {
        radius - half - v
    } else if v > half - radius {
        v - (half - radius)
    } else {
        0
    };
    &&& 0 <= u <= length
    &&& -half <= v <= half
    &&& du * du + dv * dv <= radius * radius
}

/// A bar as it is drawn: where it stands, how long and how wide it is, and
/// how far its corners are rounded, all in doubled pixels times the scale of
/// its direction.
#[derive(Clone, Copy, Debug, PartialEq, Eq)]
pub struct BarShape {
    pub frame: BarFrame,
    /// The doubled length of the bar.
    pub length: i64,
    /// The doubled distance from the bar's centre line to its side: its width.
    pub half: i64,
    /// The doubled radius of the corners.
    pub radius: i64,
}

/// The shape of bar `k` at the given amplitude.
pub open spec fn bar_shape(config: RenderConfig, amplitude: u32, k: int) -> BarShape {
    let frame = bar_frame(config, k);
    let length = bar_length(
        amplitude,
        config.bar_height_min as int,
        config.bar_height_max as int,
    );
    BarShape {
        frame,
        length: (2 * length * frame.scale) as i64,
        half: (config.bar_width * frame.scale) as i64,
        radius: (corner_of(config.bar_radius as int, config.bar_width as int, length)
            * frame.scale) as i64,
    }
}

/// Whether the shape holds the centre of pixel `(x, y)`.
pub open spec fn shape_holds(shape: BarShape, x: int, y: int) -> bool {
    in_rounded(
        along(shape.frame, 2 * x + 1, 2 * y + 1),
        across(shape.frame, 2 * x + 1, 2 * y + 1),
        shape.length as int,
        shape.half as int,
        shape.radius as int,
    )
}

/// Whether bar `k`, at the given amplitude, holds the centre of pixel `(x, y)`.
pub open spec fn bar_covers(config: RenderConfig, amplitude: u32, k: int, x: int, y: int) -> bool {
    shape_holds(bar_shape(config, amplitude, k), x, y)
}

/// Whether one of the first `n` bars holds the centre of pixel `(x, y)`.
pub open spec fn covered_by(config: RenderConfig, levels: Seq<u32>, n: int, x: int, y: int) -> bool {
    exists|k: int| 0 <= k < n && #[trigger] bar_covers(config, levels[k], k, x, y)
}

/// The colour of pixel `(x, y)`: the bar colour in a bar, the backdrop elsewhere.
pub open spec fn pixel_of(config: RenderConfig, levels: Seq<u32>, x: int, y: int) -> Color {
    if covered_by(config, levels, config.bars(), x, y) {
        config.bar_color
    } else {
        config.backdrop
    }
}

/// One rendered frame: RGBA8 pixels, row after row from the top.
#[derive(Clone, Debug, PartialEq, Eq)]
pub struct Frame {
    pub width: usize,
    pub height: usize,
    pub pixels: Vec<u8>,
}

impl Frame {
    /// The raster holds four bytes for every pixel.
    pub open spec fn wf(&self) -> bool {
        self.pixels@.len() == self.width * self.height * 4
    }

    /// The colour of pixel `(x, y)`.
    pub open spec fn pixel(&self, x: int, y: int) -> Color {
        let at = 4 * (y * self.width + x);
        Color {
            r: self.pixels@[at],
            g: self.pixels@[at + 1],
            b: self.pixels@[at + 2],
            a: self.pixels@[at + 3],
        }
    }

    /// The colour of pixel `(x, y)`.
    pub fn pixel_at(&self, x: usize, y: usize) -> (color: Color)
        requires
            self.wf(),
            x < self.width,
            y < self.height,
        ensures
            color == self.pixel(x as int, y as int),
    {
        let held: usize = self.pixels.len();
        proof {
            lemma_pixel_in_raster(self.width as int, self.height as int, x as int, y as int);
            assert(4 * (y * self.width + x) + 3 < held);
        }
        let at: usize = 4 * (y * self.width + x);
        Color {
            r: self.pixels[at],
            g: self.pixels[at + 1],
            b: self.pixels[at + 2],
            a: self.pixels[at + 3],
        }
    }
}

/// The frame shows the bars at the given amplitudes, and nothing else.
pub open spec fn rendered(config: RenderConfig, levels: Seq<u32>, frame: Frame) -> bool {
    &&& frame.width == config.frame_width
    &&& frame.height == config.frame_height
    &&& frame.wf()
    &&& forall|x: int, y: int|
        0 <= x < frame.width && 0 <= y < frame.height ==> #[trigger] frame.pixel(x, y)
            == pixel_of(config, levels, x, y)
}

proof fn lemma_pixel_in_raster(width: int, height: int, x: int, y: int)
    requires
        0 <= x < width,
        0 <= y < height,
    ensures
        0 <= y * width + x < width * height,
        0 <= 4 * (y * width + x),
        4 * (y * width + x) + 3 < width * height * 4,
{
    assert(0 <= y * width && y * width + x < width * height) by (nonlinear_arith)
        requires
            0 <= x < width,
            0 <= y < height,
    ;
}

proof fn lemma_product_bound(a: int, b: int, bound_a: int, bound_b: int)
    requires
        -bound_a <= a <= bound_a,
        -bound_b <= b <= bound_b,
    ensures
        -(bound_a * bound_b) <= a * b <= bound_a * bound_b,
{
    assert(-(bound_a * bound_b) <= a * b <= bound_a * bound_b) by (nonlinear_arith)
        requires
            -bound_a <= a <= bound_a,
            -bound_b <= b <= bound_b,
    ;
}

fn corner(bar_radius: i64, bar_width: i64, length: i64) -> (radius: i64)
    requires
        0 <= bar_radius <= MAX_DIMENSION,
        0 <= bar_width <= MAX_DIMENSION,
        0 <= length <= MAX_DIMENSION,
    ensures
        radius == corner_of(bar_radius as int, bar_width as int, length as int),
        0 <= radius <= bar_width,
        radius <= length,
{
    if 2 * bar_radius <= bar_width && 2 * bar_radius <= length {
        2 * bar_radius
    } else if bar_width <= length {
        bar_width
    } else {
        length
    }
}

fn is_in_rounded(u: i64, v: i64, length: i64, half: i64, radius: i64) -> (inside: bool)
    requires
        0 <= radius <= half <= 0x10_0000_0000,
        2 * radius <= length <= 0x10_0000_0000,
    ensures
        inside == in_rounded(u as int, v as int, length as int, half as int, radius as int),
{
    if u < 0 || u > length || v < -half || v > half {
        return false;
    }
    let du: i64 = if u < radius {
        radius - u
    } else if u > length - radius {
        u - (length - radius)
    } else {
        0
    };
    let dv: i64 = if v < radius - half {
        radius - half - v
    } else if v > half - radius {
        v - (half - radius)
    } else {
        0
    };
    proof {
        lemma_product_bound(du as int, du as int, 0x10_0000_0000, 0x10_0000_0000);
        lemma_product_bound(dv as int, dv as int, 0x10_0000_0000, 0x10_0000_0000);
        lemma_product_bound(radius as int, radius as int, 0x10_0000_0000, 0x10_0000_0000);
    }
    let reach: i128 = (du as i128) * (du as i128) + (dv as i128) * (dv as i128);
    reach <= (radius as i128) * (radius as i128)
}

impl RenderConfig {
    /// The free space to the left of the row of bars.
    fn margin(&self) -> (margin: i64)
        requires
            self.wf(),
        ensures
            margin == row_margin(*self),
            -0x1_0000_0000 <= margin <= MAX_DIMENSION,
    {
        let bars: i64 = bar_count(
            self.style,
            self.frame_width,
            self.bar_width,
            self.bar_spacing,
            self.circle_radius,
        );
        let step: i64 = self.bar_width + self.bar_spacing;
        proof {
            lemma_product_bound(bars as int, step as int, 131072, 32768);
        }
        let row: i64 = bars * step - self.bar_spacing;
        let free: i64 = self.frame_width - row;
        if free >= 0 {
            free / 2
        } else {
            -((1 - free) / 2)
        }
    }

    /// Where bar `k` stands.
    pub fn frame_of(&self, k: usize) -> (frame: BarFrame)
        requires
            self.wf(),
            k < self.bars(),
        ensures
            frame == bar_frame(*self, k as int),
            -0x8_0000_0000 <= frame.origin_x <= 0x8_0000_0000,
            0 <= frame.origin_y <= 2 * MAX_DIMENSION,
            -DIRECTION_UNIT <= frame.dir_x <= DIRECTION_UNIT,
            -DIRECTION_UNIT <= frame.dir_y <= DIRECTION_UNIT,
            0 <= frame.inner <= 2 * MAX_DIMENSION * DIRECTION_UNIT,
            frame.scale == 1 || frame.scale == DIRECTION_UNIT,
    {
        match self.style {
            Style::Linear => {
                let margin: i64 = self.margin();
                let step: i64 = self.bar_width + self.bar_spacing;
                proof {
                    lemma_product_bound(k as int, step as int, 131072, 32768);
                }
                BarFrame {
                    origin_x: 2 * (margin + (k as i64) * step) + self.bar_width,
                    origin_y: 2 * self.frame_height,
                    dir_x: 0,
                    dir_y: -1,
                    inner: 0,
                    scale: 1,
                }
            },
            Style::Circular => {
                let (dir_x, dir_y): (i64, i64) = self.directions[k];
                assert(fits_at(self.directions@, k as int));
                BarFrame {
                    origin_x: self.frame_width,
                    origin_y: self.frame_height,
                    dir_x,
                    dir_y,
                    inner: 2 * self.circle_radius * DIRECTION_UNIT,
                    scale: DIRECTION_UNIT,
                }
            },
        }
    }

    /// The shape of bar `k` at the given amplitude.
    pub fn shape_of(&self, amplitude: u32, k: usize) -> (shape: BarShape)
        requires
            self.wf(),
            amplitude <= UNIT,
            k < self.bars(),
        ensures
            shape == bar_shape(*self, amplitude, k as int),
            shape.fits(),
    {
        let frame: BarFrame = self.frame_of(k);
        let length: i64 = bar_length_of(amplitude, self.bar_height_min, self.bar_height_max);
        let radius: i64 = corner(self.bar_radius, self.bar_width, length);
        proof {
            lemma_product_bound(length as int, frame.scale as int, 16384, 1048576);
            lemma_product_bound(self.bar_width as int, frame.scale as int, 16384, 1048576);
            lemma_product_bound(radius as int, frame.scale as int, 16384, 1048576);
            assert(0 <= radius * frame.scale <= self.bar_width * frame.scale && 2 * (radius
                * frame.scale) <= 2 * length * frame.scale) by (nonlinear_arith)
                requires
                    0 <= radius <= self.bar_width,
                    radius <= length,
                    frame.scale >= 1,
            ;
        }
        BarShape {
            frame,
            length: 2 * length * frame.scale,
            half: self.bar_width * frame.scale,
            radius: radius * frame.scale,
        }
    }

    /// Whether bar `k`, at the given amplitude, holds the centre of pixel `(x, y)`.
    pub fn covers(&self, amplitude: u32, k: usize, x: usize, y: usize) -> (inside: bool)
        requires
            self.wf(),
            amplitude <= UNIT,
            k < self.bars(),
            x < self.frame_width,
            y < self.frame_height,
        ensures
            inside == bar_covers(*self, amplitude, k as int, x as int, y as int),
    {
        self.shape_of(amplitude, k).holds(x, y)
    }
}

impl BarShape {
    /// The shape's measures are within the limits that the arithmetic needs.
    pub open spec fn fits(&self) -> bool {
        &&& -0x8_0000_0000 <= self.frame.origin_x <= 0x8_0000_0000
        &&& -0x8_0000_0000 <= self.frame.origin_y <= 0x8_0000_0000
        &&& -DIRECTION_UNIT <= self.frame.dir_x <= DIRECTION_UNIT
        &&& -DIRECTION_UNIT <= self.frame.dir_y <= DIRECTION_UNIT
        &&& 0 <= self.frame.inner <= 0x10_0000_0000
        &&& 0 <= self.radius <= self.half <= 0x10_0000_0000
        &&& 2 * self.radius <= self.length <= 0x10_0000_0000
    }

    /// Whether the shape holds the centre of pixel `(x, y)`.
    pub fn holds(&self, x: usize, y: usize) -> (inside: bool)
        requires
            self.fits(),
            x <= MAX_DIMENSION,
            y <= MAX_DIMENSION,
        ensures
            inside == shape_holds(*self, x as int, y as int),
    {
        let px: i64 = 2 * (x as i64) + 1;
        let py: i64 = 2 * (y as i64) + 1;
        let dx: i64 = px - self.frame.origin_x;
        let dy: i64 = py - self.frame.origin_y;
        proof {
            lemma_product_bound(dx as int, self.frame.dir_x as int, 0x10_0000_0000, 1048576);
            lemma_product_bound(dy as int, self.frame.dir_y as int, 0x10_0000_0000, 1048576);
            lemma_product_bound(dy as int, self.frame.dir_x as int, 0x10_0000_0000, 1048576);
            lemma_product_bound(dx as int, self.frame.dir_y as int, 0x10_0000_0000, 1048576);
        }
        let u: i64 = dx * self.frame.dir_x + dy * self.frame.dir_y - self.frame.inner;
        let v: i64 = dy * self.frame.dir_x - dx * self.frame.dir_y;
        is_in_rounded(u, v, self.length, self.half, self.radius)
    }
}

/// Renders one frame: every pixel whose centre lies in a bar gets the bar
/// colour, every other pixel the backdrop.
pub fn render(amplitudes: &BarAmplitudes, config: &RenderConfig) -> (frame: Frame)
    requires
        config.wf(),
        amplitudes.wf(),
        amplitudes.levels@.len() == config.bars(),
    ensures
        rendered(*config, amplitudes.levels@, frame),
{
    let levels = &amplitudes.levels;
    let width: usize = config.frame_width as usize;
    let height: usize = config.frame_height as usize;
    let bars: usize = config.bar_total();
    let mut shapes: Vec<BarShape> = Vec::new();
    let mut b: usize = 0;
    while b < bars
        invariant
            config.wf(),
            within_unit(levels@),
            levels@.len() == config.bars(),
            bars == config.bars(),
            b <= bars,
            shapes@.len() == b,
            forall|k: int|
                0 <= k < b ==> (#[trigger] shapes@[k]).fits() && shapes@[k] == bar_shape(
                    *config,
                    levels@[k],
                    k,
                ),
        decreases bars - b,
    {
        shapes.push(config.shape_of(levels[b], b));
        b += 1;
    }
    let mut pixels: Vec<u8> = Vec::new();
    let mut y: usize = 0;
    while y < height
        invariant
            config.wf(),
            levels@.len() == config.bars(),
            width == config.frame_width,
            height == config.frame_height,
            bars == config.bars(),
            shapes@.len() == bars,
            forall|k: int|
                0 <= k < bars ==> (#[trigger] shapes@[k]).fits() && shapes@[k] == bar_shape(
                    *config,
                    levels@[k],
                    k,
                ),
            y <= height,
            pixels@.len() == 4 * (y * width),
            forall|i: int, j: int|
                0 <= i < width && 0 <= j < y ==> #[trigger] pixel_in(pixels@, width as int, i, j)
                    == pixel_of(*config, levels@, i, j),
        decreases height - y,
    {
        let mut x: usize = 0;
        while x < width
            invariant
                config.wf(),
                levels@.len() == config.bars(),
                width == config.frame_width,
                height == config.frame_height,
                bars == config.bars(),
                shapes@.len() == bars,
                forall|k: int|
                    0 <= k < bars ==> (#[trigger] shapes@[k]).fits() && shapes@[k] == bar_shape(
                        *config,
                        levels@[k],
                        k,
                    ),
                y < height,
                x <= width,
                pixels@.len() == 4 * (y * width + x),
                forall|i: int, j: int|
                    0 <= i < width && 0 <= j < y ==> #[trigger] pixel_in(
                        pixels@,
                        width as int,
                        i,
                        j,
                    ) == pixel_of(*config, levels@, i, j),
                forall|i: int|
                    0 <= i < x ==> #[trigger] pixel_in(pixels@, width as int, i, y as int)
                        == pixel_of(*config, levels@, i, y as int),
            decreases width - x,
        {
            let mut hit: bool = false;
            let mut k: usize = 0;
            while k < bars && !hit
                invariant
                    config.wf(),
                    levels@.len() == config.bars(),
                    bars == config.bars(),
                    shapes@.len() == bars,
                    forall|j: int|
                        0 <= j < bars ==> (#[trigger] shapes@[j]).fits() && shapes@[j]
                            == bar_shape(*config, levels@[j], j),
                    x < config.frame_width,
                    y < config.frame_height,
                    k <= bars,
                    !hit ==> !covered_by(*config, levels@, k as int, x as int, y as int),
                    hit ==> covered_by(*config, levels@, bars as int, x as int, y as int),
                decreases bars - k + (if hit { 0int } else { 1int }),
            {
                if shapes[k].holds(x, y) {
                    assert(bar_covers(*config, levels@[k as int], k as int, x as int, y as int));
                    hit = true;
                } else {
                    k += 1;
                }
            }
            let color: Color = if hit {
                config.bar_color
            } else {
                config.backdrop
            };
            let ghost before = pixels@;
            pixels.push(color.r);
            pixels.push(color.g);
            pixels.push(color.b);
            pixels.push(color.a);
            proof {
                let w = width as int;
                assert(pixel_in(pixels@, w, x as int, y as int) == color);
                assert forall|i: int, j: int| 0 <= i < w && 0 <= j < y implies #[trigger] pixel_in(
                    pixels@,
                    w,
                    i,
                    j,
                ) == pixel_of(*config, levels@, i, j) by {
                    lemma_pixel_in_raster(w, y as int, i, j);
                    assert(4 * (j * w + i) + 3 < 4 * (y * w)) by (nonlinear_arith)
                        requires
                            j * w + i < w * y,
                    ;
                    assert(pixel_in(pixels@, w, i, j) == pixel_in(before, w, i, j));
                }
                assert forall|i: int| 0 <= i < x + 1 implies #[trigger] pixel_in(
                    pixels@,
                    w,
                    i,
                    y as int,
                ) == pixel_of(*config, levels@, i, y as int) by {
                    if i < x {
                        assert(pixel_in(pixels@, w, i, y as int) == pixel_in(
                            before,
                            w,
                            i,
                            y as int,
                        ));
                    }
                }
            }
            x += 1;
        }
        proof {
            assert(4 * (y * width + width) == 4 * ((y + 1) * width)) by (nonlinear_arith);
        }
        y += 1;
    }
    let frame = Frame { width, height, pixels };
    proof {
        assert(4 * (height * width) == width * height * 4) by (nonlinear_arith);
        assert forall|x: int, y: int|
            0 <= x < frame.width && 0 <= y < frame.height implies #[trigger] frame.pixel(x, y)
            == pixel_of(*config, levels@, x, y) by {
            assert(frame.pixel(x, y) == pixel_in(frame.pixels@, width as int, x, y));
        }
    }
    frame
}

/// The colour held at pixel `(x, y)` of a raster that is `width` pixels wide.
pub open spec fn pixel_in(pixels: Seq<u8>, width: int, x: int, y: int) -> Color {
    let at = 4 * (y * width + x);
    Color { r: pixels[at], g: pixels[at + 1], b: pixels[at + 2], a: pixels[at + 3] }
}


/// Rendering is a function of the amplitudes and the configuration: two
/// frames rendered from the same amplitudes and configuration are equal
/// byte for byte.
pub proof fn lemma_render_is_repeatable(
    config: RenderConfig,
    levels: Seq<u32>,
    first: Frame,
    second: Frame,
)
    requires
        rendered(config, levels, first),
        rendered(config, levels, second),
    ensures
        first.width == second.width,
        first.height == second.height,
        first.pixels@ == second.pixels@,
{
    let width = first.width as int;
    let height = first.height as int;
    assert forall|i: int| 0 <= i < first.pixels@.len() implies first.pixels@[i]
        == second.pixels@[i] by {
        let cell = i / 4;
        let y = cell / width;
        let x = cell % width;
        assert(width > 0 && height > 0) by (nonlinear_arith)
            requires
                0 <= i < width * height * 4,
                width >= 0,
                height >= 0,
        ;
        vstd::arithmetic::div_mod::lemma_fundamental_div_mod(cell, width);
        vstd::arithmetic::div_mod::lemma_mod_bound(cell, width);
        assert(0 <= y < height) by (nonlinear_arith)
            requires
                0 <= cell < width * height,
                cell == width * y + x,
                0 <= x < width,
        ;
        assert(width * y == y * width) by (nonlinear_arith);
        assert(first.pixel(x, y) == second.pixel(x, y));
        assert(i == 4 * (y * width + x) + i % 4);
    }
    assert(first.pixels@ =~= second.pixels@);
}

/// The shape of bar `k` at rest: the bar has the least height.
pub open spec fn rest_shape(config: RenderConfig, k: int) -> BarShape {
    let frame = bar_frame(config, k);
    BarShape {
        frame,
        length: (2 * config.bar_height_min * frame.scale) as i64,
        half: (config.bar_width * frame.scale) as i64,
        radius: (corner_of(
            config.bar_radius as int,
            config.bar_width as int,
            config.bar_height_min as int,
        ) * frame.scale) as i64,
    }
}

/// Whether one of the bars, at rest, holds the centre of pixel `(x, y)`.
pub open spec fn covered_at_rest(config: RenderConfig, x: int, y: int) -> bool {
    exists|k: int| 0 <= k < config.bars() && #[trigger] shape_holds(rest_shape(config, k), x, y)
}

/// A frame of silence holds only bars of the least height: with every
/// amplitude at zero, every bar has the shape that it has at rest, and a
/// pixel has the bar colour exactly when it lies in one of these shapes.
pub proof fn lemma_silence_shows_bars_at_rest(
    config: RenderConfig,
    levels: Seq<u32>,
    x: int,
    y: int,
)
    requires
        config.wf(),
        levels.len() == config.bars(),
        is_silent(levels),
    ensures
        forall|k: int|
            0 <= k < config.bars() ==> #[trigger] bar_shape(config, levels[k], k) == rest_shape(
                config,
                k,
            ),
        pixel_of(config, levels, x, y) == if covered_at_rest(config, x, y) {
            config.bar_color
        } else {
            config.backdrop
        },
{
    lemma_bar_length_range(0, 0, config.bar_height_min as int, config.bar_height_max as int);
    assert forall|k: int| 0 <= k < config.bars() implies #[trigger] bar_shape(
        config,
        levels[k],
        k,
    ) == rest_shape(config, k) by {
        assert(levels[k] == 0);
    }
    if covered_by(config, levels, config.bars(), x, y) {
        let k = choose|k: int|
            0 <= k < config.bars() && #[trigger] bar_covers(config, levels[k], k, x, y);
        assert(bar_shape(config, levels[k], k) == rest_shape(config, k));
        assert(shape_holds(rest_shape(config, k), x, y));
    }
    if covered_at_rest(config, x, y) {
        let k = choose|k: int|
            0 <= k < config.bars() && #[trigger] shape_holds(rest_shape(config, k), x, y);
        assert(bar_shape(config, levels[k], k) == rest_shape(config, k));
        assert(bar_covers(config, levels[k], k, x, y));
    }
}

/// On a ring of two bars or more, no bar stands where the next one stands:
/// the direction of each bar differs from that of the bar after it, the
/// first after the last too, and so do the places of the two bars.
pub proof fn lemma_ring_neighbours_stand_apart(config: RenderConfig, k: int)
    requires
        config.wf(),
        config.style == Style::Circular,
        config.bars() >= 2,
        0 <= k < config.bars(),
    ensures
        config.directions@[k] != config.directions@[next_bar(k, config.bars())],
        bar_frame(config, k) != bar_frame(config, next_bar(k, config.bars())),
        config.bars() >= 3 ==> cross(
            config.directions@[k],
            config.directions@[next_bar(k, config.bars())],
        ) > 0,
{
    let here = config.directions@[k];
    let next = config.directions@[next_bar(k, config.bars())];
    assert(fits_at(config.directions@, k));
    if here == next {
        assert(cross(here, here) == 0) by (nonlinear_arith);
        assert(dot(here, here) >= 0) by (nonlinear_arith);
    }
}

/// The absolute value of the inner product of two directions.
pub open spec fn dot_size(a: (i64, i64), b: (i64, i64)) -> int {
    if dot(a, b) >= 0 {
        dot(a, b)
    } else {
        -dot(a, b)
    }
}

/// Whether bar `j` of a ring lies wholly to one side of bar `k`: it stands
/// at a positive turn from bar `k`, wide enough for the two bars, each as
/// wide as `bar_width` and beginning at the circle, to stay apart. For bars
/// at an angle of at most a quarter round, the tangent of half the angle
/// exceeds half the bar width over the radius of the circle.
pub open spec fn strips_apart(config: RenderConfig, k: int, j: int) -> bool {
    let here = config.directions@[k];
    let there = config.directions@[j];
    2 * config.circle_radius * cross(here, there) > config.bar_width * (dot(here, here)
        + dot_size(here, there))
}

/// Whether bar `j` of a ring begins beyond the reach of bar `k`: the two
/// point away from each other, and no point of bar `k` lies as far out along
/// the direction of bar `j` as the circle.
pub open spec fn bases_apart(config: RenderConfig, k: int, j: int) -> bool {
    let here = config.directions@[k];
    let there = config.directions@[j];
    let turn = if cross(here, there) >= 0 {
        cross(here, there)
    } else {
        -cross(here, there)
    };
    dot(here, there) <= 0 && config.bar_width * turn < 2 * config.circle_radius * (dot(here, here)
        + dot_size(here, there))
}

/// Whether two bars of a ring stand apart, by a test on their directions.
pub open spec fn stand_apart(config: RenderConfig, k: int, j: int) -> bool {
    strips_apart(config, k, j) || strips_apart(config, j, k) || bases_apart(config, k, j)
}

/// Whether every bar of the ring stands clear of the bar after it.
pub open spec fn ring_is_clear(config: RenderConfig) -> bool {
    forall|k: int|
        0 <= k < config.bars() ==> #[trigger] strips_apart(config, k, next_bar(k, config.bars()))
}

impl RenderConfig {
    /// Tests whether bar `j` lies wholly to one side of bar `k`.
    fn strips_are_apart(&self, k: usize, j: usize) -> (apart: bool)
        requires
            self.wf(),
            self.style == Style::Circular,
            k < self.bars(),
            j < self.bars(),
        ensures
            apart == strips_apart(*self, k as int, j as int),
    {
        let here: (i64, i64) = self.directions[k];
        let there: (i64, i64) = self.directions[j];
        assert(fits_at(self.directions@, k as int));
        assert(fits_at(self.directions@, j as int));
        let turn: i64 = cross_of(here, there);
        let along: i64 = dot_of(here, there);
        let length: i64 = dot_of(here, here);
        let with: i64 = if along >= 0 {
            along
        } else {
            -along
        };
        proof {
            lemma_product_bound(2 * self.circle_radius as int, turn as int, 32768, 0x200_0000_0000);
            lemma_product_bound(
                self.bar_width as int,
                length as int + with as int,
                16384,
                0x400_0000_0000,
            );
        }
        2 * self.circle_radius * turn > self.bar_width * (length + with)
    }

    /// Tests whether bar `j` begins beyond the reach of bar `k`.
    fn bases_are_apart(&self, k: usize, j: usize) -> (apart: bool)
        requires
            self.wf(),
            self.style == Style::Circular,
            k < self.bars(),
            j < self.bars(),
        ensures
            apart == bases_apart(*self, k as int, j as int),
    {
        let here: (i64, i64) = self.directions[k];
        let there: (i64, i64) = self.directions[j];
        assert(fits_at(self.directions@, k as int));
        assert(fits_at(self.directions@, j as int));
        let cross: i64 = cross_of(here, there);
        let turn: i64 = if cross >= 0 {
            cross
        } else {
            -cross
        };
        let along: i64 = dot_of(here, there);
        let length: i64 = dot_of(here, here);
        let with: i64 = if along >= 0 {
            along
        } else {
            -along
        };
        proof {
            lemma_product_bound(self.bar_width as int, turn as int, 16384, 0x200_0000_0000);
            lemma_product_bound(
                2 * self.circle_radius as int,
                length as int + with as int,
                32768,
                0x400_0000_0000,
            );
        }
        along <= 0 && self.bar_width * turn < 2 * self.circle_radius * (length + with)
    }

    /// Tests whether two bars of the ring stand apart.
    pub fn bars_stand_apart(&self, k: usize, j: usize) -> (apart: bool)
        requires
            self.wf(),
            self.style == Style::Circular,
            k < self.bars(),
            j < self.bars(),
        ensures
            apart == stand_apart(*self, k as int, j as int),
    {
        self.strips_are_apart(k, j) || self.strips_are_apart(j, k) || self.bases_are_apart(k, j)
    }

    /// Tests whether every bar of the ring stands clear of the bar after it.
    pub fn neighbours_are_clear(&self) -> (clear: bool)
        requires
            self.wf(),
            self.style == Style::Circular,
        ensures
            clear == ring_is_clear(*self),
    {
        let bars: usize = self.bar_total();
        let mut k: usize = 0;
        while k < bars
            invariant
                self.wf(),
                self.style == Style::Circular,
                bars == self.bars(),
                k <= bars,
                forall|i: int|
                    0 <= i < k ==> #[trigger] strips_apart(*self, i, next_bar(i, bars as int)),
            decreases bars - k,
        {
            let next: usize = if k + 1 < bars {
                k + 1
            } else {
                0
            };
            if !self.strips_are_apart(k, next) {
                assert(!strips_apart(*self, k as int, next_bar(k as int, bars as int)));
                return false;
            }
            k += 1;
        }
        true
    }
}

proof fn lemma_regroup_products(a: int, b: int, c: int, d: int)
    ensures
        (a * b) * (c * d) == (b * c) * (a * d),
{
    assert((a * b) * (c * d) == (b * c) * (a * d)) by (nonlinear_arith);
}

proof fn lemma_strips_stay_apart(
    qx: int,
    qy: int,
    ck: int,
    sk: int,
    cj: int,
    sj: int,
    reach: int,
    half: int,
)
    requires
        ck * ck + sk * sk > 0,
        half >= 0,
        qx * ck + qy * sk >= reach,
        -half <= qy * ck - qx * sk <= half,
        reach * (ck * sj - sk * cj) > half * (ck * ck + sk * sk + ck * cj + sk * sj),
        reach * (ck * sj - sk * cj) > half * (ck * ck + sk * sk - (ck * cj + sk * sj)),
        reach >= 0,
    ensures
        qy * cj - qx * sj < -half,
{
    let a = qx * ck + qy * sk;
    let v = qy * ck - qx * sk;
    let vj = qy * cj - qx * sj;
    let x = ck * sj - sk * cj;
    let d = ck * cj + sk * sj;
    let l = ck * ck + sk * sk;
    let (cc, ss, cs) = (ck * ck, sk * sk, ck * sk);
    let (m1, m2, m3, m4) = (qy * cj, qx * sj, qy * sj, qx * cj);
    let (u1, u2, u3, u4) = (qy * ck, qx * sk, qx * ck, qy * sk);
    let (w1, w2, z1, z2) = (ck * cj, sk * sj, ck * sj, sk * cj);
    lemma_regroup_products(qy, ck, ck, cj);
    lemma_regroup_products(qy, ck, sk, sj);
    lemma_regroup_products(qx, sk, ck, cj);
    lemma_regroup_products(qx, sk, sk, sj);
    lemma_regroup_products(qx, ck, ck, sj);
    lemma_regroup_products(qx, ck, sk, cj);
    lemma_regroup_products(qy, sk, ck, sj);
    lemma_regroup_products(qy, sk, sk, cj);
    assert(sk * ck == cs) by (nonlinear_arith)
        requires
            cs == ck * sk,
    ;
    assert(u1 * w1 == cc * m1 && u1 * w2 == cs * m3 && u2 * w1 == cs * m4 && u2 * w2 == ss * m2);
    assert(u3 * z1 == cc * m2 && u3 * z2 == cs * m4 && u4 * z1 == cs * m3 && u4 * z2 == ss * m1);
    assert(v * d == u1 * w1 + u1 * w2 - u2 * w1 - u2 * w2) by (nonlinear_arith)
        requires
            v == u1 - u2,
            d == w1 + w2,
    ;
    assert(a * x == u3 * z1 - u3 * z2 + u4 * z1 - u4 * z2) by (nonlinear_arith)
        requires
            a == u3 + u4,
            x == z1 - z2,
    ;
    assert(l * vj == cc * m1 - cc * m2 + ss * m1 - ss * m2) by (nonlinear_arith)
        requires
            l == cc + ss,
            vj == m1 - m2,
    ;
    assert(l * vj == v * d - a * x);
    assert(half * l >= 0) by (nonlinear_arith)
        requires
            half >= 0,
            l > 0,
    ;
    assert(x > 0) by (nonlinear_arith)
        requires
            reach * x > half * (l + d),
            reach * x > half * (l - d),
            half * l >= 0,
            half >= 0,
            reach >= 0,
    ;
    assert(a * x >= reach * x) by (nonlinear_arith)
        requires
            a >= reach,
            x > 0,
    ;
    assert(v * d <= half * d || v * d <= -(half * d)) by (nonlinear_arith)
        requires
            -half <= v <= half,
    ;
    assert(l * vj < -(half * l)) by (nonlinear_arith)
        requires
            l * vj == v * d - a * x,
            a * x >= reach * x,
            v * d <= half * d || v * d <= -(half * d),
            reach * x > half * (l + d),
            reach * x > half * (l - d),
    ;
    assert(vj < -half) by (nonlinear_arith)
        requires
            l * vj < -(half * l),
            l > 0,
    ;
}

proof fn lemma_bases_stay_apart(
    qx: int,
    qy: int,
    ck: int,
    sk: int,
    cj: int,
    sj: int,
    reach: int,
    half: int,
)
    requires
        ck * ck + sk * sk > 0,
        half >= 0,
        reach >= 0,
        qx * ck + qy * sk >= reach,
        -half <= qy * ck - qx * sk <= half,
        ck * cj + sk * sj <= 0,
        half * (ck * sj - sk * cj) < reach * (ck * ck + sk * sk - (ck * cj + sk * sj)),
        -(half * (ck * sj - sk * cj)) < reach * (ck * ck + sk * sk - (ck * cj + sk * sj)),
    ensures
        qx * cj + qy * sj < reach,
{
    let a = qx * ck + qy * sk;
    let v = qy * ck - qx * sk;
    let aj = qx * cj + qy * sj;
    let x = ck * sj - sk * cj;
    let d = ck * cj + sk * sj;
    let l = ck * ck + sk * sk;
    let (cc, ss, cs) = (ck * ck, sk * sk, ck * sk);
    let (m1, m2, m3, m4) = (qy * cj, qx * sj, qy * sj, qx * cj);
    let (u1, u2, u3, u4) = (qy * ck, qx * sk, qx * ck, qy * sk);
    let (w1, w2, z1, z2) = (ck * cj, sk * sj, ck * sj, sk * cj);
    lemma_regroup_products(qx, ck, ck, cj);
    lemma_regroup_products(qx, ck, sk, sj);
    lemma_regroup_products(qy, sk, ck, cj);
    lemma_regroup_products(qy, sk, sk, sj);
    lemma_regroup_products(qy, ck, ck, sj);
    lemma_regroup_products(qy, ck, sk, cj);
    lemma_regroup_products(qx, sk, ck, sj);
    lemma_regroup_products(qx, sk, sk, cj);
    assert(sk * ck == cs) by (nonlinear_arith)
        requires
            cs == ck * sk,
    ;
    assert(u3 * w1 == cc * m4 && u3 * w2 == cs * m2 && u4 * w1 == cs * m1 && u4 * w2 == ss * m3);
    assert(u1 * z1 == cc * m3 && u1 * z2 == cs * m1 && u2 * z1 == cs * m2 && u2 * z2 == ss * m4);
    assert(a * d == u3 * w1 + u3 * w2 + u4 * w1 + u4 * w2) by (nonlinear_arith)
        requires
            a == u3 + u4,
            d == w1 + w2,
    ;
    assert(v * x == u1 * z1 - u1 * z2 - u2 * z1 + u2 * z2) by (nonlinear_arith)
        requires
            v == u1 - u2,
            x == z1 - z2,
    ;
    assert(l * aj == cc * m4 + cc * m3 + ss * m4 + ss * m3) by (nonlinear_arith)
        requires
            l == cc + ss,
            aj == m4 + m3,
    ;
    assert(l * aj == a * d + v * x);
    assert(a * d <= reach * d) by (nonlinear_arith)
        requires
            a >= reach,
            d <= 0,
    ;
    assert(v * x <= half * x || v * x <= -(half * x)) by (nonlinear_arith)
        requires
            -half <= v <= half,
    ;
    assert(l * aj < reach * l) by (nonlinear_arith)
        requires
            l * aj == a * d + v * x,
            a * d <= reach * d,
            v * x <= half * x || v * x <= -(half * x),
            half * x < reach * (l - d),
            -(half * x) < reach * (l - d),
    ;
    assert(aj < reach) by (nonlinear_arith)
        requires
            l * aj < reach * l,
            l > 0,
    ;
}

proof fn lemma_strips_apart_share_no_pixel(
    config: RenderConfig,
    k: int,
    j: int,
    here: u32,
    there: u32,
    x: int,
    y: int,
)
    requires
        config.wf(),
        config.style == Style::Circular,
        0 <= k < config.bars(),
        0 <= j < config.bars(),
        strips_apart(config, k, j),
        here <= UNIT,
        there <= UNIT,
    ensures
        !(bar_covers(config, here, k, x, y) && bar_covers(config, there, j, x, y)),
{
    let dk = config.directions@[k];
    let dj = config.directions@[j];
    assert(fits_at(config.directions@, k));
    assert(fits_at(config.directions@, j));
    let scale = DIRECTION_UNIT as int;
    let reach = 2 * config.circle_radius * scale;
    let half = config.bar_width * scale;
    lemma_product_bound(2 * config.circle_radius as int, scale, 32768, 1048576);
    lemma_product_bound(config.bar_width as int, scale, 16384, 1048576);
    assert(reach >= 0 && half >= 0) by (nonlinear_arith)
        requires
            reach == 2 * config.circle_radius * scale,
            half == config.bar_width * scale,
            config.circle_radius >= 0,
            config.bar_width >= 0,
            scale > 0,
    ;
    if bar_covers(config, here, k, x, y) && bar_covers(config, there, j, x, y) {
        let qx = 2 * x + 1 - config.frame_width;
        let qy = 2 * y + 1 - config.frame_height;
        let shape_k = bar_shape(config, here, k);
        let shape_j = bar_shape(config, there, j);
        assert(shape_k.half == half);
        assert(shape_j.half == half);
        assert(shape_k.frame.inner == reach);
        assert(along(shape_k.frame, 2 * x + 1, 2 * y + 1) == qx * dk.0 + qy * dk.1 - reach);
        assert(across(shape_k.frame, 2 * x + 1, 2 * y + 1) == qy * dk.0 - qx * dk.1);
        assert(across(shape_j.frame, 2 * x + 1, 2 * y + 1) == qy * dj.0 - qx * dj.1);
        let l = dk.0 * dk.0 + dk.1 * dk.1;
        let d = dk.0 * dj.0 + dk.1 * dj.1;
        let t = dk.0 * dj.1 - dk.1 * dj.0;
        let r2 = 2 * config.circle_radius as int;
        let w = config.bar_width as int;
        assert(r2 * t > w * (l + d) && r2 * t > w * (l - d)) by (nonlinear_arith)
            requires
                l > 0,
                w >= 1,
                (d >= 0 && r2 * t > w * (l + d)) || (d < 0 && r2 * t > w * (l - d)),
        ;
        assert(reach * t > half * (l + d) && reach * t > half * (l - d)) by (nonlinear_arith)
            requires
                r2 * t > w * (l + d),
                r2 * t > w * (l - d),
                reach == r2 * scale,
                half == w * scale,
                scale > 0,
        ;
        lemma_strips_stay_apart(
            qx,
            qy,
            dk.0 as int,
            dk.1 as int,
            dj.0 as int,
            dj.1 as int,
            reach,
            half,
        );
    }
}

proof fn lemma_bases_apart_share_no_pixel(
    config: RenderConfig,
    k: int,
    j: int,
    here: u32,
    there: u32,
    x: int,
    y: int,
)
    requires
        config.wf(),
        config.style == Style::Circular,
        0 <= k < config.bars(),
        0 <= j < config.bars(),
        bases_apart(config, k, j),
        here <= UNIT,
        there <= UNIT,
    ensures
        !(bar_covers(config, here, k, x, y) && bar_covers(config, there, j, x, y)),
{
    let dk = config.directions@[k];
    let dj = config.directions@[j];
    assert(fits_at(config.directions@, k));
    assert(fits_at(config.directions@, j));
    let scale = DIRECTION_UNIT as int;
    let reach = 2 * config.circle_radius * scale;
    let half = config.bar_width * scale;
    lemma_product_bound(2 * config.circle_radius as int, scale, 32768, 1048576);
    lemma_product_bound(config.bar_width as int, scale, 16384, 1048576);
    assert(reach >= 0 && half >= 0) by (nonlinear_arith)
        requires
            reach == 2 * config.circle_radius * scale,
            half == config.bar_width * scale,
            config.circle_radius >= 0,
            config.bar_width >= 0,
            scale > 0,
    ;
    if bar_covers(config, here, k, x, y) && bar_covers(config, there, j, x, y) {
        let qx = 2 * x + 1 - config.frame_width;
        let qy = 2 * y + 1 - config.frame_height;
        let shape_k = bar_shape(config, here, k);
        let shape_j = bar_shape(config, there, j);
        assert(shape_k.half == half);
        assert(shape_k.frame.inner == reach);
        assert(shape_j.frame.inner == reach);
        assert(along(shape_k.frame, 2 * x + 1, 2 * y + 1) == qx * dk.0 + qy * dk.1 - reach);
        assert(across(shape_k.frame, 2 * x + 1, 2 * y + 1) == qy * dk.0 - qx * dk.1);
        assert(along(shape_j.frame, 2 * x + 1, 2 * y + 1) == qx * dj.0 + qy * dj.1 - reach);
        let l = dk.0 * dk.0 + dk.1 * dk.1;
        let d = dk.0 * dj.0 + dk.1 * dj.1;
        let t = dk.0 * dj.1 - dk.1 * dj.0;
        let r2 = 2 * config.circle_radius as int;
        let w = config.bar_width as int;
        let turn = if t >= 0 {
            t
        } else {
            -t
        };
        assert(d <= 0 && w * turn < r2 * (l + dot_size(dk, dj)));
        assert(w * t < r2 * (l - d) && -(w * t) < r2 * (l - d)) by (nonlinear_arith)
            requires
                w * turn < r2 * (l + (-d)),
                turn == t || turn == -t,
                turn >= 0,
                w >= 0,
        ;
        assert(half * t < reach * (l - d) && -(half * t) < reach * (l - d)) by (nonlinear_arith)
            requires
                w * t < r2 * (l - d),
                -(w * t) < r2 * (l - d),
                reach == r2 * scale,
                half == w * scale,
                scale > 0,
        ;
        lemma_bases_stay_apart(
            qx,
            qy,
            dk.0 as int,
            dk.1 as int,
            dj.0 as int,
            dj.1 as int,
            reach,
            half,
        );
    }
}

/// Two bars of a ring that stand apart share no pixel, however long they are.
pub proof fn lemma_bars_apart_share_no_pixel(
    config: RenderConfig,
    k: int,
    j: int,
    here: u32,
    there: u32,
    x: int,
    y: int,
)
    requires
        config.wf(),
        config.style == Style::Circular,
        0 <= k < config.bars(),
        0 <= j < config.bars(),
        stand_apart(config, k, j),
        here <= UNIT,
        there <= UNIT,
    ensures
        !(bar_covers(config, here, k, x, y) && bar_covers(config, there, j, x, y)),
{
    if strips_apart(config, k, j) {
        lemma_strips_apart_share_no_pixel(config, k, j, here, there, x, y);
    } else if strips_apart(config, j, k) {
        lemma_strips_apart_share_no_pixel(config, j, k, there, here, x, y);
    } else {
        lemma_bases_apart_share_no_pixel(config, k, j, here, there, x, y);
    }
}

/// On a ring whose bars stand clear of their neighbours, no bar shares a
/// pixel with the bar after it, the last with the first too.
pub proof fn lemma_clear_ring_keeps_neighbours_apart(
    config: RenderConfig,
    k: int,
    here: u32,
    next: u32,
    x: int,
    y: int,
)
    requires
        config.wf(),
        config.style == Style::Circular,
        ring_is_clear(config),
        0 <= k < config.bars(),
        here <= UNIT,
        next <= UNIT,
    ensures
        !(bar_covers(config, here, k, x, y) && bar_covers(
            config,
            next,
            next_bar(k, config.bars()),
            x,
            y,
        )),
{
    let j = next_bar(k, config.bars());
    assert(strips_apart(config, k, j));
    lemma_strips_apart_share_no_pixel(config, k, j, here, next, x, y);
}

} // verus!
