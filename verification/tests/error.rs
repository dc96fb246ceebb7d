use spectrum_bars::decode::DecodeError;
use spectrum_bars::error::{analysis_error_message, render_error_message, RunError};
use spectrum_bars::pipeline::Stage;
use spectrum_bars::render::{Dimension, RenderError};
use spectrum_bars::spectrum::AnalysisError;

#[test]
fn input_error_reports_path_and_cause() {
    let error = RunError::Input {
        path: String::from("song.flac"),
        error: DecodeError::Unreadable { cause: String::from("permission denied") },
    };
    assert_eq!(
        error.message(),
        "Failed to process audio song.flac: Failed to open audio file: permission denied"
    );
    let error = RunError::Input {
        path: String::from("a b.ogg"),
        error: DecodeError::NoAudioTrack,
    };
    assert_eq!(error.message(), "Failed to process audio a b.ogg: No supported audio tracks");
}

#[test]
fn frame_error_reports_frame_and_stage() {
    let error = RunError::Frame {
        frame: 1207,
        stage: Stage::Rendering,
        cause: String::from("out of memory"),
    };
    assert_eq!(error.message(), "Frame 1207 failed in rendering: out of memory");
    let error = RunError::Frame { frame: 0, stage: Stage::Analysis, cause: String::new() };
    assert_eq!(error.message(), "Frame 0 failed in analysis: ");
    let error =
        RunError::Frame { frame: u64::MAX, stage: Stage::Emission, cause: String::from("x") };
    assert_eq!(error.message(), "Frame 18446744073709551615 failed in emission: x");
    let error = RunError::Frame { frame: 10, stage: Stage::Mapping, cause: String::from("x") };
    assert_eq!(error.message(), "Frame 10 failed in mapping: x");
}

#[test]
fn sink_error_reports_cause() {
    let error = RunError::Sink { cause: String::from("disk full") };
    assert_eq!(error.message(), "Failed to write video: disk full");
}

#[test]
fn geometry_errors_name_the_dimension() {
    assert_eq!(
        RunError::Render(RenderError::Negative(Dimension::BarWidth)).message(),
        "Invalid geometry: bar width is negative"
    );
    assert_eq!(
        render_error_message(RenderError::TooLarge(Dimension::CircleRadius)),
        "Invalid geometry: circle radius is too large"
    );
    assert_eq!(
        render_error_message(RenderError::Negative(Dimension::BarHeightMin)),
        "Invalid geometry: minimal bar height is negative"
    );
    assert_eq!(
        render_error_message(RenderError::HeightRange),
        "Invalid geometry: minimal bar height exceeds maximal bar height"
    );
    assert_eq!(render_error_message(RenderError::NoBars), "Invalid geometry: no room for a bar");
}

#[test]
fn analysis_errors_say_what_is_unsupported() {
    assert_eq!(
        RunError::Analysis(AnalysisError::UnsupportedWindow).message(),
        "Invalid analysis: unsupported window length"
    );
    assert_eq!(
        analysis_error_message(AnalysisError::UnsupportedBars),
        "Invalid analysis: unsupported number of bars"
    );
    assert_eq!(
        analysis_error_message(AnalysisError::UnsupportedCeiling),
        "Invalid analysis: the ceiling is zero"
    );
    assert_eq!(
        RunError::Analysis(AnalysisError::UnsupportedDecay).message(),
        "Invalid analysis: the decay is not below one"
    );
}
