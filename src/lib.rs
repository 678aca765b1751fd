//! Tag editing and FLAC-to-MP3 conversion for audio files, planned here and
//! carried out by external command-line tools.
//!
//! The library decides everything: which files a batch touches and in what
//! order, the titles and track numbers inferred from file names, the exact
//! command lines of the tag editors and the transcoder, and the
//! backup / mutate / restore protocol that guards every destructive edit.
//! Running the commands and copying files is left to the caller, which hands
//! back each outcome.

pub mod batch;
pub mod cli;
pub mod edits;
pub mod format;
pub mod infer;
pub mod mutation;
pub mod order;
pub mod path;
pub mod tools;

pub use batch::{
    file_outcome, plan_file, process_directory, process_directory_conversion, Batch, FilePlan, MetadataEdit,
};
pub use cli::{edit_request, Cli, Commands, DEFAULT_BITRATE};
pub use edits::{
    conversion_output_path, convert_flac_to_mp3, convert_to_mp3, guarded_tag_edit, set_album_title, set_artist,
    set_cover_art_with_temp, set_title_with_temp, set_track_number,
};
pub use format::{audio_format, AudioFormat, MetadataError};
pub use infer::{infer_track_name_from_filename, title_from_stem, track_prefix_len, trim_whitespace};
pub use mutation::{Mutation, Phase, Step};
pub use order::{select_files, sort_paths, text_le_exec, track_order, DirEntry, Selection};
pub use path::{extension, file_name, file_stem, join, with_extension};
pub use tools::{
    convert_command, cover_art_command, decimal_string, tag_field_commands, TagField, ToolCommand,
};
