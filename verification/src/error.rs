//! What ends a run, and how it is reported.
//!
//! Every error is final: nothing is tried again, and no part of a video
//! counts as output.

use crate::decode::{decode_message, DecodeError};
use crate::pipeline::Stage;
use crate::render::{Dimension, RenderError};
use crate::spectrum::AnalysisError;
use crate::text::{append_decimal, decimal};
use vstd::prelude::*;

verus! {

/// Why a run ended without a video.
#[derive(Clone, Debug, PartialEq, Eq)]
pub enum RunError {
    /// The audio file is missing, unreadable or of no supported kind.
    Input { path: String, error: DecodeError },
    /// The analysis is configured in a way that is not supported.
    Analysis(AnalysisError),
    /// The geometry cannot be drawn.
    Render(RenderError),
    /// The output cannot be written.
    Sink { cause: String },
    /// A stage failed while a frame passed through it.
    Frame { frame: u64, stage: Stage, cause: String },
}

/// The name of a dimension in messages.
pub open spec fn dimension_name(dimension: Dimension) -> Seq<char> {
    match dimension {
        Dimension::BarWidth => "bar width"@,
        Dimension::BarSpacing => "bar spacing"@,
        Dimension::BarHeightMin => "minimal bar height"@,
        Dimension::BarHeightMax => "maximal bar height"@,
        Dimension::BarRadius => "bar radius"@,
        Dimension::CircleRadius => "circle radius"@,
        Dimension::FrameWidth => "frame width"@,
        Dimension::FrameHeight => "frame height"@,
    }
}

/// The name of a stage in messages.
pub open spec fn stage_name(stage: Stage) -> Seq<char> {
    match stage {
        Stage::Analysis => "analysis"@,
        Stage::Mapping => "mapping"@,
        Stage::Rendering => "rendering"@,
        Stage::Emission => "emission"@,
    }
}

/// What is said of a geometry that cannot be drawn.
pub open spec fn render_message(error: RenderError) -> Seq<char> {
    match error {
        RenderError::Negative(dimension) => "Invalid geometry: "@ + dimension_name(dimension)
            + " is negative"@,
        RenderError::TooLarge(dimension) => "Invalid geometry: "@ + dimension_name(dimension)
            + " is too large"@,
        RenderError::NoBarWidth => "Invalid geometry: bar width is zero"@,
        RenderError::EmptyFrame => "Invalid geometry: frame is empty"@,
        RenderError::HeightRange => "Invalid geometry: minimal bar height exceeds maximal bar height"@,
        RenderError::NoFrameRate => "Invalid geometry: frame rate is zero"@,
        RenderError::NoBars => "Invalid geometry: no room for a bar"@,
        RenderError::BadDirections => "Invalid geometry: bar directions do not fit the ring"@,
    }
}

/// What is said of an analysis that is not supported.
pub open spec fn analysis_message(error: AnalysisError) -> Seq<char> {
    match error {
        AnalysisError::UnsupportedWindow => "Invalid analysis: unsupported window length"@,
        AnalysisError::UnsupportedBars => "Invalid analysis: unsupported number of bars"@,
        AnalysisError::UnsupportedCeiling => "Invalid analysis: the ceiling is zero"@,
        AnalysisError::UnsupportedDecay => "Invalid analysis: the decay is not below one"@,
    }
}

/// What is said of the end of a run: the kind of error, what it concerns
/// (the path, or the frame and the stage), and the cause.
pub open spec fn run_message(error: RunError) -> Seq<char> {
    match error {
        RunError::Input { path, error } => "Failed to process audio "@ + path@ + ": "@
            + decode_message(error),
        RunError::Analysis(cause) => analysis_message(cause),
        RunError::Render(cause) => render_message(cause),
        RunError::Sink { cause } => "Failed to write video: "@ + cause@,
        RunError::Frame { frame, stage, cause } => "Frame "@ + decimal(frame as nat)
            + " failed in "@ + stage_name(stage) + ": "@ + cause@,
    }
}

fn name_of_dimension(dimension: Dimension) -> (name: &'static str)
    ensures
        name@ == dimension_name(dimension),
{
    match dimension {
        Dimension::BarWidth => "bar width",
        Dimension::BarSpacing => "bar spacing",
        Dimension::BarHeightMin => "minimal bar height",
        Dimension::BarHeightMax => "maximal bar height",
        Dimension::BarRadius => "bar radius",
        Dimension::CircleRadius => "circle radius",
        Dimension::FrameWidth => "frame width",
        Dimension::FrameHeight => "frame height",
    }
}

fn name_of_stage(stage: Stage) -> (name: &'static str)
    ensures
        name@ == stage_name(stage),
{
    match stage {
        Stage::Analysis => "analysis",
        Stage::Mapping => "mapping",
        Stage::Rendering => "rendering",
        Stage::Emission => "emission",
    }
}

/// A sentence that says why the geometry cannot be drawn.
pub fn render_error_message(error: RenderError) -> (text: String)
    ensures
        text@ == render_message(error),
{
    match error {
        RenderError::Negative(dimension) => String::from_str("Invalid geometry: ").concat(
            name_of_dimension(dimension),
        ).concat(" is negative"),
        RenderError::TooLarge(dimension) => String::from_str("Invalid geometry: ").concat(
            name_of_dimension(dimension),
        ).concat(" is too large"),
        RenderError::NoBarWidth => String::from_str("Invalid geometry: bar width is zero"),
        RenderError::EmptyFrame => String::from_str("Invalid geometry: frame is empty"),
        RenderError::HeightRange => String::from_str(
            "Invalid geometry: minimal bar height exceeds maximal bar height",
        ),
        RenderError::NoFrameRate => String::from_str("Invalid geometry: frame rate is zero"),
        RenderError::NoBars => String::from_str("Invalid geometry: no room for a bar"),
        RenderError::BadDirections => String::from_str(
            "Invalid geometry: bar directions do not fit the ring",
        ),
    }
}

/// A sentence that says why the analysis is not supported.
pub fn analysis_error_message(error: AnalysisError) -> (text: String)
    ensures
        text@ == analysis_message(error),
{
    match error {
        AnalysisError::UnsupportedWindow => String::from_str(
            "Invalid analysis: unsupported window length",
        ),
        AnalysisError::UnsupportedBars => String::from_str(
            "Invalid analysis: unsupported number of bars",
        ),
        AnalysisError::UnsupportedCeiling => String::from_str(
            "Invalid analysis: the ceiling is zero",
        ),
        AnalysisError::UnsupportedDecay => String::from_str(
            "Invalid analysis: the decay is not below one",
        ),
    }
}

impl RunError {
    /// A sentence for the user that says why the run ended.
    pub fn message(&self) -> (text: String)
        ensures
            text@ == run_message(*self),
    {
        match self {
            RunError::Input { path, error } => {
                let reason = error.message();
                String::from_str("Failed to process audio ").concat(path.as_str()).concat(
                    ": ",
                ).concat(reason.as_str())
            },
            RunError::Analysis(cause) => analysis_error_message(*cause),
            RunError::Render(cause) => render_error_message(*cause),
            RunError::Sink { cause } => String::from_str("Failed to write video: ").concat(
                cause.as_str(),
            ),
            RunError::Frame { frame, stage, cause } => {
                let mut text = String::from_str("Frame ");
                append_decimal(&mut text, *frame);
                text.append(" failed in ");
                text.append(name_of_stage(*stage));
                text.append(": ");
                text.append(cause.as_str());
                text
            },
        }
    }
}

} // verus!
