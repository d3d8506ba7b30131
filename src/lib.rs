//! Planning for fetching the best split video and audio streams of a remote
//! video and muxing them into one file: format selection, file naming and the
//! command lines of the two downloads and the mux.

pub mod parse;
pub mod plan;
pub mod select;
pub mod text;

pub use parse::{parse_format, parse_formats, MissingField, ParseError, RawFormat};
pub use plan::{
    download_command, mux_command, output_file_name, part_file_name, plan_download,
    plan_for_candidates, DownloadPlan, Metadata, PlanError, VideoInfo,
};
pub use select::{
    audio_extension_for, best_audio, best_video, find_extension, FormatCandidate, SelectedFormat,
};
pub use text::{bare_word, escape, quotable, strip_query, MAX_NAME_CHARS};
