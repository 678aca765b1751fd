//! The requests that the command line makes of the library.

use vstd::prelude::*;

use crate::batch::MetadataEdit;

verus! {

/// A parsed command line.
#[derive(Debug, PartialEq, Eq)]
pub struct Cli {
    pub command: Commands,
}

/// What the command line asks for.
#[derive(Debug, PartialEq, Eq)]
pub enum Commands {
    /// Set tags of an audio file, or of each audio file of a directory.
    SetTags {
        file: String,
        cover: Option<String>,
        album: Option<String>,
        artist: Option<String>,
        title: Option<String>,
        track: Option<u32>,
        infer_track: bool,
        infer_order: bool,
    },
    /// Convert a FLAC file, or each FLAC file of a directory, to MP3.
    Convert { file: String, output: Option<String>, bitrate: u32 },
}

/// The bitrate of a conversion when none is asked for, in kbps.
pub const DEFAULT_BITRATE: u32 = 320;

/// The target and the edits of a `SetTags` request; `None` for any other.
pub fn edit_request(command: Commands) -> (r: Option<(String, MetadataEdit)>)
    ensures
        match command {
            Commands::SetTags { file, cover, album, artist, title, track, infer_track, infer_order } => r == Some(
                (
                    file,
                    MetadataEdit { cover, album, artist, title, track, infer_title: infer_track, infer_order },
                ),
            ),
            Commands::Convert { .. } => r is None,
        },
{
    match command {
        Commands::SetTags { file, cover, album, artist, title, track, infer_track, infer_order } => Some(
            (file, MetadataEdit { cover, album, artist, title, track, infer_title: infer_track, infer_order }),
        ),
        Commands::Convert { .. } => None,
    }
}

} // verus!
